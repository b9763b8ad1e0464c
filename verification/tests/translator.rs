//! The stalked-address translator: total lookup with identity fallback,
//! and last-write-wins overwrites.
use drcov_rt::runtime::DrCovRuntime;

#[test]
fn translation_total_for_unrecorded() {
    let mut rt = DrCovRuntime::new();
    // Nothing recorded at all: every address resolves to itself.
    assert_eq!(rt.real_address_for_stalked(0x4000), 0x4000);
    assert_eq!(rt.real_address_for_stalked(0), 0);
    // Recording other addresses does not disturb unrecorded ones.
    rt.add_stalked_address(0x7000_0000, 0x1000);
    rt.add_stalked_address(0x7000_0040, 0x1040);
    assert_eq!(rt.real_address_for_stalked(0x4000), 0x4000);
    assert_eq!(rt.real_address_for_stalked(0x7000_0041), 0x7000_0041);
}

#[test]
fn translation_returns_recorded_address() {
    let mut rt = DrCovRuntime::new();
    rt.add_stalked_address(0x7000_0000, 0x1000);
    assert_eq!(rt.real_address_for_stalked(0x7000_0000), 0x1000);
}

#[test]
fn translation_overwrite_takes_latest() {
    let mut rt = DrCovRuntime::new();
    rt.add_stalked_address(0x7000_0000, 0x1000);
    rt.add_stalked_address(0x7000_0000, 0x2000);
    assert_eq!(rt.real_address_for_stalked(0x7000_0000), 0x2000);
    rt.add_stalked_address(0x7000_0000, 0x3000);
    assert_eq!(rt.real_address_for_stalked(0x7000_0000), 0x3000);
}
