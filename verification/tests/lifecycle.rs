//! The lifecycle hooks: buffer reset after every execution, registry
//! replacement on re-initialization, directory targeting, and trace file
//! naming.
use drcov_rt::BasicBlock;
use drcov_rt::names::trace_file_name;
use drcov_rt::runtime::DrCovRuntime;

fn target_map() -> rangemap::RangeMap<usize, (u16, String)> {
    let mut map: rangemap::RangeMap<usize, (u16, String)> = rangemap::RangeMap::new();
    map.insert(0x1000..0x3000, (0u16, String::from("target")));
    map
}

#[test]
fn post_exec_clears_buffer_on_success() {
    let mut rt = DrCovRuntime::new();
    rt.init(&target_map());
    rt.add_basic_block(BasicBlock::new(0x1010, 4));
    rt.add_basic_block(BasicBlock::new(0x1500, 8));
    let out = rt.post_exec(b"some input");
    assert!(out.is_ok());
    assert!(rt.drcov_basic_blocks.is_empty());
}

#[test]
fn post_exec_clears_buffer_on_failure() {
    let mut rt = DrCovRuntime::new();
    rt.init(&target_map());
    rt.add_basic_block(BasicBlock::new(0x9999, 4));
    let out = rt.post_exec(b"some input");
    assert!(out.is_err());
    assert!(rt.drcov_basic_blocks.is_empty());
}

#[test]
fn post_exec_with_empty_trace_still_serializes() {
    let mut rt = DrCovRuntime::new();
    rt.init(&target_map());
    let (_, bytes) = rt.post_exec(b"some input").unwrap();
    let text = String::from_utf8(bytes).unwrap();
    assert!(text.starts_with("DRCOV VERSION: 2\nDRCOV FLAVOR: libafl\n"));
    assert!(text.contains("Module Table: version 2, count 1\n"));
    assert!(text.ends_with("BB Table: 0 bbs\n"));
}

#[test]
fn pre_exec_is_a_noop() {
    let mut rt = DrCovRuntime::new();
    rt.init(&target_map());
    rt.add_basic_block(BasicBlock::new(0x1010, 4));
    assert!(rt.pre_exec(b"some input").is_ok());
    assert_eq!(rt.drcov_basic_blocks.len(), 1);
}

#[test]
fn init_replaces_registry_wholesale() {
    let mut rt = DrCovRuntime::new();
    rt.init(&target_map());
    let mut other: rangemap::RangeMap<usize, (u16, String)> = rangemap::RangeMap::new();
    other.insert(0x8000..0x9000, (3u16, String::from("other")));
    rt.init(&other);
    rt.add_basic_block(BasicBlock::new(0x8010, 4));
    let (_, bytes) = rt.post_exec(b"x").unwrap();
    // One block record of eight bytes follows the text part.
    let text = String::from_utf8(bytes[..bytes.len() - 8].to_vec()).unwrap();
    assert!(text.contains("Module Table: version 2, count 1\n"));
    assert!(text.contains("003, 0x8000, 0x9000, "));
    assert!(!text.contains("target"));
}

#[test]
fn same_input_gives_same_fingerprint() {
    let mut rt = DrCovRuntime::new();
    rt.init(&target_map());
    let (h1, _) = rt.post_exec(b"identical input").unwrap();
    let (h2, _) = rt.post_exec(b"identical input").unwrap();
    assert_eq!(h1, h2);
}

#[test]
fn trace_names_distinct_for_repeated_input() {
    let h: u64 = 0xdead_beef_0bad_f00d;
    let first = trace_file_name(h, None);
    let probe0 = trace_file_name(h, Some(0));
    let probe1 = trace_file_name(h, Some(1));
    assert_ne!(first, probe0);
    assert_ne!(first, probe1);
    assert_ne!(probe0, probe1);
}

#[test]
fn trace_name_suffix_increases() {
    let h: u64 = 0x1234;
    assert_eq!(trace_file_name(h, None), b"0000000000001234.drcov".to_vec());
    assert_eq!(trace_file_name(h, Some(0)), b"0000000000001234_0.drcov".to_vec());
    assert_eq!(trace_file_name(h, Some(1)), b"0000000000001234_1.drcov".to_vec());
    assert_eq!(trace_file_name(h, Some(10)), b"0000000000001234_10.drcov".to_vec());
}

#[test]
fn with_path_targets_latest_directory() {
    let mut rt_a = DrCovRuntime::with_path(String::from("cov_a"));
    rt_a.init(&target_map());
    assert_eq!(rt_a.coverage_directory().as_str(), "cov_a");
    let mut rt_b = DrCovRuntime::with_path(String::from("cov_b"));
    rt_b.init(&target_map());
    assert_eq!(rt_b.coverage_directory().as_str(), "cov_b");
    assert_eq!(rt_a.coverage_directory().as_str(), "cov_a");
}

#[test]
fn default_directory_is_coverage() {
    let rt = DrCovRuntime::new();
    assert_eq!(rt.coverage_directory().as_str(), "./coverage");
}
