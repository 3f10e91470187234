use vstd::bytes::{spec_u64_from_le_bytes, spec_u64_to_le_bytes, u64_from_le_bytes, u64_to_le_bytes};
use vstd::prelude::*;

verus! {

/// The value a freshly formatted counter holds: identifier 1 belongs to the
/// root, so the first one handed out is 2.
pub const FRESH_COUNTER: u64 = 2;

/// The value stored in the counter's eight little-endian bytes.
pub open spec fn counter_value(cell: Seq<u8>) -> u64 {
    spec_u64_from_le_bytes(cell)
}

/// One fetch-and-increment on the counter's bytes: the value handed out and
/// the bytes to store. A counter at the largest value hands out nothing.
pub open spec fn counter_step(cell: Seq<u8>) -> (Option<u64>, Seq<u8>) {
    let v = counter_value(cell);
    if v < u64::MAX {
        (Some(v), spec_u64_to_le_bytes((v + 1) as u64))
    } else {
        (None, cell)
    }
}

/// The bytes of a freshly formatted counter.
pub fn fresh_counter() -> (r: Vec<u8>)
    ensures
        r@.len() == 8,
        counter_value(r@) == FRESH_COUNTER,
{
    proof {
        vstd::bytes::lemma_auto_spec_u64_to_from_le_bytes();
    }
    u64_to_le_bytes(FRESH_COUNTER)
}

/// Hands out the value stored in `cell` and stores the next one.
pub fn fetch_inc(cell: &mut Vec<u8>) -> (r: Option<u64>)
    requires
        old(cell)@.len() == 8,
    ensures
        (r, final(cell)@) == counter_step(old(cell)@),
        final(cell)@.len() == 8,
{
    proof {
        vstd::bytes::lemma_auto_spec_u64_to_from_le_bytes();
    }
    let v = u64_from_le_bytes(cell.as_slice());
    if v == u64::MAX {
        return None;
    }
    *cell = u64_to_le_bytes(v + 1);
    Some(v)
}

/// Each value handed out is above every value handed out before it from the
/// same bytes, whether the bytes stayed in memory or were read back after a
/// restart: two steps in a row hand out increasing values.
pub proof fn lemma_counter_increases(cell: Seq<u8>)
    requires
        cell.len() == 8,
        counter_step(cell).0 is Some,
        counter_step(counter_step(cell).1).0 is Some,
    ensures
        counter_step(counter_step(cell).1).0.unwrap() == counter_step(cell).0.unwrap() + 1,
        counter_value(counter_step(cell).1) > counter_value(cell),
{
    vstd::bytes::lemma_auto_spec_u64_to_from_le_bytes();
}

} // verus!
