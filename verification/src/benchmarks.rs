//! Development-time helpers for reasoning about compute cost: a rough cost
//! model for bitmap operations and a small tracker the host can carry
//! through its own logging.

use vstd::prelude::*;
use crate::constants::FULL_BITMAP_SIZE_BYTES;

verus! {

/// Relies on `str`'s `==` (its `PartialEq` impl): true exactly when the two
/// character sequences are equal.
#[verifier::external_body]
fn str_eq(a: &str, b: &str) -> (r: bool)
    ensures
        r == (a@ == b@),
{
    a == b
}

/// A tracker for one named operation's compute measurements. The engine
/// itself never logs; the host reads the fields and decides what to emit.
pub struct ComputeBenchmark {
    /// The operation being measured.
    pub operation_name: &'static str,
    /// Whether the start of the operation has been marked.
    pub start_logged: bool,
}

impl ComputeBenchmark {
    /// Starts tracking one operation.
    pub fn new(operation_name: &'static str) -> (r: ComputeBenchmark)
        ensures
            r.operation_name@ == operation_name@,
            r.start_logged,
    {
        ComputeBenchmark { operation_name, start_logged: true }
    }
}

/// Rough compute-unit estimate for one bitmap operation, by kind and batch
/// size; an unknown kind gets a flat default.
pub fn estimate_bitmap_operation_cost(num_slots: usize, operation_type: &str) -> (r: u32)
    requires
        150 + num_slots * 15 <= u32::MAX,
    ensures
        operation_type@ == "read_single_bit"@ ==> r == 100,
        operation_type@ == "write_single_bit"@ ==> r == 150,
        operation_type@ == "read_multiple_bits"@ ==> r == 100 + num_slots * 10,
        operation_type@ == "write_multiple_bits"@ ==> r == 150 + num_slots * 15,
        operation_type@ == "full_bitmap_clear"@ ==> r == 500 + FULL_BITMAP_SIZE_BYTES / 100,
        operation_type@ == "full_bitmap_scan"@ ==> r == 1000 + FULL_BITMAP_SIZE_BYTES / 50,
        !(operation_type@ == "read_single_bit"@ || operation_type@ == "write_single_bit"@
            || operation_type@ == "read_multiple_bits"@ || operation_type@
            == "write_multiple_bits"@ || operation_type@ == "full_bitmap_clear"@
            || operation_type@ == "full_bitmap_scan"@) ==> r == 1000,
{
    proof {
        reveal_strlit("read_single_bit");
        reveal_strlit("write_single_bit");
        reveal_strlit("read_multiple_bits");
        reveal_strlit("write_multiple_bits");
        reveal_strlit("full_bitmap_clear");
        reveal_strlit("full_bitmap_scan");
        assert("read_single_bit"@.len() == 15);
        assert("write_single_bit"@.len() == 16);
        assert("read_multiple_bits"@.len() == 18);
        assert("write_multiple_bits"@.len() == 19);
        assert("full_bitmap_clear"@.len() == 17);
        assert("full_bitmap_scan"@.len() == 16);
        assert("write_single_bit"@[0] == 'w');
        assert("full_bitmap_scan"@[0] == 'f');
    }
    if str_eq(operation_type, "read_single_bit") {
        100
    } else if str_eq(operation_type, "write_single_bit") {
        150
    } else if str_eq(operation_type, "read_multiple_bits") {
        100 + (num_slots as u32) * 10
    } else if str_eq(operation_type, "write_multiple_bits") {
        150 + (num_slots as u32) * 15
    } else if str_eq(operation_type, "full_bitmap_clear") {
        500 + (FULL_BITMAP_SIZE_BYTES as u32) / 100
    } else if str_eq(operation_type, "full_bitmap_scan") {
        1000 + (FULL_BITMAP_SIZE_BYTES as u32) / 50
    } else {
        1000
    }
}

} // verus!
