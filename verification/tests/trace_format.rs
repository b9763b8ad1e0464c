//! The trace file format: exact byte layout, round trips through an
//! independently written reader, and rejection of unencodable blocks.
use drcov_rt::BasicBlock;
use drcov_rt::trace::serialize_trace;

/// An independent reader for the trace format: text lines up to and
/// including the block-table header, then eight-byte binary records.
/// Returns the module table as (base, end, id, path) and the raw block
/// records as (offset, size, module id).
fn read_trace(bytes: &[u8]) -> (Vec<(u64, u64, u16, String)>, Vec<(u32, u16, u16)>) {
    let mut pos: usize = 0;
    let mut lines: Vec<String> = Vec::new();
    loop {
        let nl = bytes[pos..].iter().position(|&b| b == b'\n').unwrap() + pos;
        let line = std::str::from_utf8(&bytes[pos..nl]).unwrap().to_string();
        pos = nl + 1;
        let is_bb = line.starts_with("BB Table: ");
        lines.push(line);
        if is_bb {
            break;
        }
    }
    assert_eq!(lines[0], "DRCOV VERSION: 2");
    assert_eq!(lines[1], "DRCOV FLAVOR: libafl");
    let count: usize = lines[2]
        .strip_prefix("Module Table: version 2, count ")
        .unwrap()
        .parse()
        .unwrap();
    assert_eq!(lines[3], "Columns: id, base, end, entry, checksum, timestamp, path");
    let mut modules = Vec::new();
    for i in 0..count {
        let parts: Vec<&str> = lines[4 + i].splitn(7, ", ").collect();
        let id: u16 = parts[0].parse().unwrap();
        let base = u64::from_str_radix(parts[1].strip_prefix("0x").unwrap(), 16).unwrap();
        let end = u64::from_str_radix(parts[2].strip_prefix("0x").unwrap(), 16).unwrap();
        assert_eq!(parts[3], "0x00000000");
        assert_eq!(parts[4], "0x00000000");
        assert_eq!(parts[5], "0x00000000");
        modules.push((base, end, id, parts[6].to_string()));
    }
    let nbbs: usize = lines[4 + count]
        .strip_prefix("BB Table: ")
        .unwrap()
        .strip_suffix(" bbs")
        .unwrap()
        .parse()
        .unwrap();
    let mut blocks = Vec::new();
    for _ in 0..nbbs {
        let off = u32::from_le_bytes(bytes[pos..pos + 4].try_into().unwrap());
        let size = u16::from_le_bytes(bytes[pos + 4..pos + 6].try_into().unwrap());
        let id = u16::from_le_bytes(bytes[pos + 6..pos + 8].try_into().unwrap());
        blocks.push((off, size, id));
        pos += 8;
    }
    assert_eq!(pos, bytes.len());
    (modules, blocks)
}

#[test]
fn round_trip_known_module_and_blocks() {
    let modules = vec![(0x1000usize, 0x3000usize, 0u16, b"target".to_vec())];
    let blocks = vec![BasicBlock::new(0x1010, 4), BasicBlock::new(0x1500, 8)];
    let bytes = serialize_trace(&modules, &blocks).unwrap();
    let (rmods, rblocks) = read_trace(&bytes);
    assert_eq!(rmods, vec![(0x1000u64, 0x3000u64, 0u16, "target".to_string())]);
    // Resolve each record against its module: the original block list.
    let resolved: Vec<(u64, u16)> = rblocks
        .iter()
        .map(|&(off, size, id)| {
            let m = rmods.iter().find(|m| m.2 == id).unwrap();
            (m.0 + off as u64, size)
        })
        .collect();
    assert_eq!(resolved, vec![(0x1010u64, 4u16), (0x1500u64, 8u16)]);
}

#[test]
fn trace_bytes_match_reference_layout() {
    let modules = vec![(0x1000usize, 0x3000usize, 0u16, b"target".to_vec())];
    let blocks = vec![BasicBlock::new(0x1010, 4), BasicBlock::new(0x1500, 8)];
    let bytes = serialize_trace(&modules, &blocks).unwrap();
    let mut expected: Vec<u8> = Vec::new();
    expected.extend_from_slice(b"DRCOV VERSION: 2\nDRCOV FLAVOR: libafl\n");
    expected.extend_from_slice(b"Module Table: version 2, count 1\n");
    expected.extend_from_slice(b"Columns: id, base, end, entry, checksum, timestamp, path\n");
    expected.extend_from_slice(
        b"000, 0x1000, 0x3000, 0x00000000, 0x00000000, 0x00000000, target\n",
    );
    expected.extend_from_slice(b"BB Table: 2 bbs\n");
    expected.extend_from_slice(&[0x10, 0x00, 0x00, 0x00, 0x04, 0x00, 0x00, 0x00]);
    expected.extend_from_slice(&[0x00, 0x05, 0x00, 0x00, 0x08, 0x00, 0x00, 0x00]);
    assert_eq!(bytes, expected);
}

#[test]
fn module_ids_are_zero_padded_to_three_digits() {
    let modules = vec![
        (0x1000usize, 0x2000usize, 7u16, b"a".to_vec()),
        (0x2000usize, 0x3000usize, 42u16, b"b".to_vec()),
        (0x3000usize, 0x4000usize, 1234u16, b"c".to_vec()),
    ];
    let blocks: Vec<BasicBlock> = Vec::new();
    let bytes = serialize_trace(&modules, &blocks).unwrap();
    let text = String::from_utf8(bytes).unwrap();
    assert!(text.contains("\n007, 0x1000, "));
    assert!(text.contains("\n042, 0x2000, "));
    assert!(text.contains("\n1234, 0x3000, "));
}

#[test]
fn empty_trace_has_module_table() {
    let modules = vec![(0x1000usize, 0x3000usize, 0u16, b"target".to_vec())];
    let blocks: Vec<BasicBlock> = Vec::new();
    let bytes = serialize_trace(&modules, &blocks).unwrap();
    let (rmods, rblocks) = read_trace(&bytes);
    assert_eq!(rmods.len(), 1);
    assert_eq!(rblocks.len(), 0);
    let text = String::from_utf8(bytes).unwrap();
    assert!(text.ends_with("BB Table: 0 bbs\n"));
}

#[test]
fn block_outside_modules_rejected() {
    let modules = vec![(0x1000usize, 0x3000usize, 0u16, b"target".to_vec())];
    let blocks = vec![BasicBlock::new(0x9999, 4)];
    assert!(serialize_trace(&modules, &blocks).is_none());
}

#[test]
fn oversized_block_rejected() {
    let modules = vec![(0x1000usize, 0x3000usize, 0u16, b"target".to_vec())];
    let blocks = vec![BasicBlock::new(0x1010, 0x10000)];
    assert!(serialize_trace(&modules, &blocks).is_none());
}

#[test]
fn block_resolves_to_containing_module() {
    let modules = vec![
        (0x1000usize, 0x2000usize, 0u16, b"low".to_vec()),
        (0x2000usize, 0x3000usize, 1u16, b"high".to_vec()),
    ];
    let blocks = vec![BasicBlock::new(0x2010, 2)];
    let bytes = serialize_trace(&modules, &blocks).unwrap();
    let (_, rblocks) = read_trace(&bytes);
    assert_eq!(rblocks, vec![(0x10u32, 2u16, 1u16)]);
}
