use saguaro_gatekeeper::benchmarks::{estimate_bitmap_operation_cost, ComputeBenchmark};
use saguaro_gatekeeper::constants::SLOTS_PER_EPOCH;
use saguaro_gatekeeper::lifecycle::create;
use saguaro_gatekeeper::mutate::mutate;
use saguaro_gatekeeper::query::is_slot_gated_fast;

const TAG: [u8; 8] = [0xAA, 0xBB, 0xCC, 0xDD, 0xEE, 0xFF, 0x01, 0x02];

#[test]
fn show_compute_unit_optimization_results() {
    println!("single-bit cost estimates:");
    println!("  read:  {}", estimate_bitmap_operation_cost(1, "read_single_bit"));
    println!("  write: {}", estimate_bitmap_operation_cost(1, "write_single_bit"));
    assert_eq!(estimate_bitmap_operation_cost(1, "read_single_bit"), 100);
    assert_eq!(estimate_bitmap_operation_cost(1, "write_single_bit"), 150);
}

#[test]
fn show_optimization_code_examples() {
    // the point-query reads one byte of the record, without deserializing it
    let mut d = create(10, 0, &TAG);
    let slot = 10 * SLOTS_PER_EPOCH + 31;
    mutate(&mut d, 10, &vec![slot], &vec![]).unwrap();
    println!("gated byte: {:#04x}", d[16 + 31 / 8]);
    assert!(is_slot_gated_fast(&d, 10, slot));
    let tracker = ComputeBenchmark::new("point_query");
    assert_eq!(tracker.operation_name, "point_query");
    assert!(tracker.start_logged);
}

#[test]
fn how_to_see_compute_unit_results() {
    for kind in ["read_multiple_bits", "write_multiple_bits"] {
        for n in [1usize, 10, 100] {
            println!("{kind} x{n}: {}", estimate_bitmap_operation_cost(n, kind));
        }
    }
    assert_eq!(estimate_bitmap_operation_cost(10, "read_multiple_bits"), 200);
    assert_eq!(estimate_bitmap_operation_cost(10, "write_multiple_bits"), 300);
}

#[test]
fn optimization_breakdown() {
    assert_eq!(estimate_bitmap_operation_cost(0, "full_bitmap_clear"), 500 + 54000 / 100);
    assert_eq!(estimate_bitmap_operation_cost(0, "full_bitmap_scan"), 1000 + 54000 / 50);
    // an unknown operation kind falls back to the flat default
    assert_eq!(estimate_bitmap_operation_cost(5, "defragment"), 1000);
}
