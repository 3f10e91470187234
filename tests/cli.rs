use zippynfs::cli::{is_addr, is_nfs_command};

#[test]
fn commands() {
    assert!(is_nfs_command("NULL".to_owned()).is_ok());
    assert!(is_nfs_command("  NULL extra".to_owned()).is_ok());
    assert!(is_nfs_command("\tNULL\n".to_owned()).is_ok());
    let e = is_nfs_command("MKDIR 1 a".to_owned()).unwrap_err();
    assert_eq!(e, "Not a valid command. Valid commands are [\"NULL\"]");
    assert!(is_nfs_command("".to_owned()).is_err());
    assert!(is_nfs_command("NUL".to_owned()).is_err());
}

#[test]
fn addresses() {
    assert!(is_addr("127.0.0.1:8080".to_owned()).is_ok());
    assert!(is_addr("localhost:65535".to_owned()).is_ok());
    assert!(is_addr("[::1]:0".to_owned()).is_ok());
    assert_eq!(is_addr("127.0.0.1".to_owned()), Err("Not a valid IP:Port".to_owned()));
    assert!(is_addr("127.0.0.1:65536".to_owned()).is_err());
    assert!(is_addr(":80".to_owned()).is_err());
    assert!(is_addr("host:".to_owned()).is_err());
    assert!(is_addr("host:8a".to_owned()).is_err());
}
