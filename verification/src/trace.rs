//! The on-disk basic-block trace format: a textual module table followed
//! by a binary block list, as consumed by third-party coverage viewers.
//!
//! A module is carried as `(start, end, id, path)`; the trace encodes each
//! block as the identifier of its owning module, the offset of the block
//! from that module's base, and the block's size.
use vstd::prelude::*;

use crate::BasicBlock;
use crate::numfmt::{
    ascii_bytes, dec_digits, expect, hex_digits, is_dec_digit, is_hex_digit,
    lemma_dec_digits_value, lemma_expect_prefix, lemma_hex_digits_value, lemma_parse_dec_concat,
    lemma_parse_hex_concat, lemma_parse_line_concat, lemma_zero_pad_dec, parse_dec, parse_hex,
    parse_line, push_dec_u16_pad3, push_dec_u64, push_hex_u64, push_str_bytes, zero_pad,
};

verus! {

pub open spec fn header_bytes() -> Seq<u8> {
    ascii_bytes("DRCOV VERSION: 2\nDRCOV FLAVOR: libafl\n"@)
}

pub open spec fn count_prefix_bytes() -> Seq<u8> {
    ascii_bytes("Module Table: version 2, count "@)
}

pub open spec fn columns_bytes() -> Seq<u8> {
    ascii_bytes("Columns: id, base, end, entry, checksum, timestamp, path\n"@)
}

pub open spec fn hex_sep_bytes() -> Seq<u8> {
    ascii_bytes(", 0x"@)
}

pub open spec fn fixed_cols_bytes() -> Seq<u8> {
    ascii_bytes(", 0x00000000, 0x00000000, 0x00000000, "@)
}

pub open spec fn bb_prefix_bytes() -> Seq<u8> {
    ascii_bytes("BB Table: "@)
}

pub open spec fn bb_suffix_bytes() -> Seq<u8> {
    ascii_bytes(" bbs\n"@)
}

/// The mathematical contents of an executable module entry.
pub open spec fn module_view(m: (usize, usize, u16, Vec<u8>)) -> (usize, usize, u16, Seq<u8>) {
    (m.0, m.1, m.2, m.3@)
}

pub open spec fn modules_view(ms: Seq<(usize, usize, u16, Vec<u8>)>) -> Seq<
    (usize, usize, u16, Seq<u8>),
> {
    Seq::new(ms.len(), |i: int| module_view(ms[i]))
}

/// One line of the module table.
pub open spec fn module_line(m: (usize, usize, u16, Seq<u8>)) -> Seq<u8> {
    zero_pad(dec_digits(m.2 as nat), 3) + hex_sep_bytes() + hex_digits(m.0 as nat)
        + hex_sep_bytes() + hex_digits(m.1 as nat) + fixed_cols_bytes() + m.3 + seq![0x0au8]
}

pub open spec fn module_lines(ms: Seq<(usize, usize, u16, Seq<u8>)>) -> Seq<u8>
    decreases ms.len(),
{
    if ms.len() == 0 {
        Seq::<u8>::empty()
    } else {
        module_line(ms[0]) + module_lines(ms.skip(1))
    }
}

/// Index of the first module whose half-open range contains `a`, or -1.
pub open spec fn find_module(ms: Seq<(usize, usize, u16, Seq<u8>)>, a: usize) -> int
    decreases ms.len(),
{
    if ms.len() == 0 {
        -1
    } else if ms[0].0 <= a < ms[0].1 {
        0
    } else {
        let r = find_module(ms.skip(1), a);
        if r < 0 {
            -1
        } else {
            r + 1
        }
    }
}

pub proof fn lemma_find_module_props(ms: Seq<(usize, usize, u16, Seq<u8>)>, a: usize)
    ensures
        -1 <= find_module(ms, a) < ms.len(),
        find_module(ms, a) >= 0 ==> ms[find_module(ms, a)].0 <= a < ms[find_module(ms, a)].1,
        find_module(ms, a) == -1 ==> forall|j: int|
            0 <= j < ms.len() ==> !((#[trigger] ms[j]).0 <= a < ms[j].1),
    decreases ms.len(),
{
    if ms.len() == 0 {
    } else if ms[0].0 <= a < ms[0].1 {
    } else {
        lemma_find_module_props(ms.skip(1), a);
        if find_module(ms, a) == -1 {
            assert forall|j: int| 0 <= j < ms.len() implies !((#[trigger] ms[j]).0 <= a
                < ms[j].1) by {
                if j > 0 {
                    assert(ms.skip(1)[j - 1] == ms[j]);
                }
            };
        }
    }
}

/// A block can be encoded when some module contains its start address,
/// its offset from that module's base fits in 32 bits, and its size fits
/// in 16 bits.
pub open spec fn block_encodable(ms: Seq<(usize, usize, u16, Seq<u8>)>, b: BasicBlock) -> bool {
    let j = find_module(ms, b.address);
    &&& j >= 0
    &&& b.address - ms[j].0 < 0x100000000
    &&& b.size < 0x10000
}

pub open spec fn blocks_encodable(
    ms: Seq<(usize, usize, u16, Seq<u8>)>,
    bs: Seq<BasicBlock>,
) -> bool {
    forall|i: int| 0 <= i < bs.len() ==> block_encodable(ms, bs[i])
}

/// Little-endian bytes of a 16-bit word.
pub open spec fn le16(n: u16) -> Seq<u8> {
    seq![(n % 0x100) as u8, ((n / 0x100) % 0x100) as u8]
}

/// Little-endian bytes of a 32-bit word.
pub open spec fn le32(n: u32) -> Seq<u8> {
    seq![
        (n % 0x100) as u8,
        ((n / 0x100) % 0x100) as u8,
        ((n / 0x10000) % 0x100) as u8,
        ((n / 0x1000000) % 0x100) as u8,
    ]
}

/// The eight-byte binary record of one block: offset, size, module id.
pub open spec fn block_entry(ms: Seq<(usize, usize, u16, Seq<u8>)>, b: BasicBlock) -> Seq<u8>
    recommends
        block_encodable(ms, b),
{
    let j = find_module(ms, b.address);
    le32((b.address - ms[j].0) as u32) + le16(b.size as u16) + le16(ms[j].2)
}

pub open spec fn block_entries(
    ms: Seq<(usize, usize, u16, Seq<u8>)>,
    bs: Seq<BasicBlock>,
) -> Seq<u8>
    decreases bs.len(),
{
    if bs.len() == 0 {
        Seq::<u8>::empty()
    } else {
        block_entry(ms, bs[0]) + block_entries(ms, bs.skip(1))
    }
}

/// The complete trace file for a module table and a block list.
pub open spec fn drcov_bytes(
    ms: Seq<(usize, usize, u16, Seq<u8>)>,
    bs: Seq<BasicBlock>,
) -> Seq<u8> {
    header_bytes() + count_prefix_bytes() + dec_digits(ms.len()) + seq![0x0au8] + columns_bytes()
        + module_lines(ms) + bb_prefix_bytes() + dec_digits(bs.len()) + bb_suffix_bytes()
        + block_entries(ms, bs)
}

pub proof fn lemma_module_lines_push(
    ms: Seq<(usize, usize, u16, Seq<u8>)>,
    m: (usize, usize, u16, Seq<u8>),
)
    ensures
        module_lines(ms.push(m)) == module_lines(ms) + module_line(m),
    decreases ms.len(),
{
    let e = module_line(m);
    if ms.len() == 0 {
        assert(ms.push(m)[0] == m);
        assert(ms.push(m).skip(1) =~= Seq::<(usize, usize, u16, Seq<u8>)>::empty());
        assert(module_lines(ms.push(m)) == e + module_lines(
            Seq::<(usize, usize, u16, Seq<u8>)>::empty(),
        ));
        assert(e + Seq::<u8>::empty() =~= e);
        assert(module_lines(ms) + e =~= e);
    } else {
        let e0 = module_line(ms[0]);
        let tail = module_lines(ms.skip(1));
        assert(ms.push(m).skip(1) =~= ms.skip(1).push(m));
        lemma_module_lines_push(ms.skip(1), m);
        assert(ms.push(m)[0] == ms[0]);
        assert(module_lines(ms.push(m)) == e0 + (tail + e));
        assert(e0 + (tail + e) =~= (e0 + tail) + e);
    }
}

pub proof fn lemma_block_entries_push(
    ms: Seq<(usize, usize, u16, Seq<u8>)>,
    bs: Seq<BasicBlock>,
    b: BasicBlock,
)
    ensures
        block_entries(ms, bs.push(b)) == block_entries(ms, bs) + block_entry(ms, b),
    decreases bs.len(),
{
    let e = block_entry(ms, b);
    if bs.len() == 0 {
        assert(bs.push(b)[0] == b);
        assert(bs.push(b).skip(1) =~= Seq::<BasicBlock>::empty());
        assert(block_entries(ms, bs.push(b)) == e + block_entries(
            ms,
            Seq::<BasicBlock>::empty(),
        ));
        assert(e + Seq::<u8>::empty() =~= e);
        assert(block_entries(ms, bs) + e =~= e);
    } else {
        let e0 = block_entry(ms, bs[0]);
        let tail = block_entries(ms, bs.skip(1));
        assert(bs.push(b).skip(1) =~= bs.skip(1).push(b));
        lemma_block_entries_push(ms, bs.skip(1), b);
        assert(bs.push(b)[0] == bs[0]);
        assert(block_entries(ms, bs.push(b)) == e0 + (tail + e));
        assert(e0 + (tail + e) =~= (e0 + tail) + e);
    }
}

/// Finds the first module whose range contains `a`, scanning from `i`.
fn find_module_from(
    modules: &Vec<(usize, usize, u16, Vec<u8>)>,
    a: usize,
    i: usize,
) -> (r: Option<usize>)
    requires
        i <= modules@.len(),
    ensures
        ({
            let f = find_module(modules_view(modules@).skip(i as int), a);
            match r {
                Some(j) => i <= j < modules@.len() && f == j - i,
                None => f == -1,
            }
        }),
    decreases modules@.len() - i,
{
    let ghost mv = modules_view(modules@);
    if i == modules.len() {
        proof {
            assert(mv.skip(i as int) =~= Seq::<(usize, usize, u16, Seq<u8>)>::empty());
        }
        None
    } else {
        let start = modules[i].0;
        let end = modules[i].1;
        proof {
            assert(mv.skip(i as int)[0] == mv[i as int]);
        }
        if start <= a && a < end {
            Some(i)
        } else {
            let r = find_module_from(modules, a, i + 1);
            proof {
                assert(mv.skip(i as int).skip(1) =~= mv.skip(i as int + 1));
            }
            r
        }
    }
}

/// Appends the little-endian bytes of a 16-bit word.
fn push_le16(out: &mut Vec<u8>, n: u16)
    ensures
        final(out)@ == old(out)@ + le16(n),
{
    out.push((n % 0x100) as u8);
    out.push(((n / 0x100) % 0x100) as u8);
    proof {
        assert(out@ =~= old(out)@ + le16(n));
    }
}

/// Appends the little-endian bytes of a 32-bit word.
fn push_le32(out: &mut Vec<u8>, n: u32)
    ensures
        final(out)@ == old(out)@ + le32(n),
{
    out.push((n % 0x100) as u8);
    out.push(((n / 0x100) % 0x100) as u8);
    out.push(((n / 0x10000) % 0x100) as u8);
    out.push(((n / 0x1000000) % 0x100) as u8);
    proof {
        assert(out@ =~= old(out)@ + le32(n));
    }
}

/// Serializes a module table and a block list into a trace file.
///
/// Returns `None` exactly when some block cannot be encoded: no module
/// range contains its address, or its offset or size overflows the
/// record's fields.
pub fn serialize_trace(
    modules: &Vec<(usize, usize, u16, Vec<u8>)>,
    blocks: &Vec<BasicBlock>,
) -> (r: Option<Vec<u8>>)
    ensures
        ({
            let mv = modules_view(modules@);
            match r {
                Some(v) => blocks_encodable(mv, blocks@) && v@ == drcov_bytes(mv, blocks@),
                None => !blocks_encodable(mv, blocks@),
            }
        }),
{
    let ghost mv = modules_view(modules@);
    let mut entries: Vec<(u32, u16, u16)> = Vec::new();
    let mut bi: usize = 0;
    while bi < blocks.len()
        invariant
            bi <= blocks@.len(),
            entries@.len() == bi,
            mv == modules_view(modules@),
            forall|k: int|
                0 <= k < bi ==> #[trigger] block_encodable(mv, blocks@[k]),
            forall|k: int|
                0 <= k < bi ==> {
                    let b = blocks@[k];
                    let j = find_module(mv, b.address);
                    (#[trigger] entries@[k]).0 == b.address - mv[j].0
                        && entries@[k].1 == b.size as u16 && entries@[k].2 == mv[j].2
                },
        decreases blocks@.len() - bi,
    {
        let b = blocks[bi];
        match find_module_from(modules, b.address, 0) {
            None => {
                proof {
                    assert(mv.skip(0) =~= mv);
                    assert(!block_encodable(mv, blocks@[bi as int]));
                }
                return None;
            },
            Some(j) => {
                proof {
                    assert(mv.skip(0) =~= mv);
                    lemma_find_module_props(mv, b.address);
                    assert(mv[j as int] == module_view(modules@[j as int]));
                }
                let base = modules[j].0;
                let id = modules[j].2;
                let off = b.address - base;
                if (off as u64) >= 0x100000000u64 || (b.size as u64) >= 0x10000u64 {
                    proof {
                        assert(!block_encodable(mv, blocks@[bi as int]));
                    }
                    return None;
                }
                entries.push((off as u32, b.size as u16, id));
            },
        }
        bi += 1;
    }
    let mut out: Vec<u8> = Vec::new();
    proof {
        reveal_strlit("DRCOV VERSION: 2\nDRCOV FLAVOR: libafl\n");
        assert(vstd::string::is_ascii("DRCOV VERSION: 2\nDRCOV FLAVOR: libafl\n"));
        reveal_strlit("Module Table: version 2, count ");
        assert(vstd::string::is_ascii("Module Table: version 2, count "));
        reveal_strlit("Columns: id, base, end, entry, checksum, timestamp, path\n");
        assert(vstd::string::is_ascii("Columns: id, base, end, entry, checksum, timestamp, path\n"));
        reveal_strlit(", 0x");
        assert(vstd::string::is_ascii(", 0x"));
        reveal_strlit(", 0x00000000, 0x00000000, 0x00000000, ");
        assert(vstd::string::is_ascii(", 0x00000000, 0x00000000, 0x00000000, "));
        reveal_strlit("BB Table: ");
        assert(vstd::string::is_ascii("BB Table: "));
        reveal_strlit(" bbs\n");
        assert(vstd::string::is_ascii(" bbs\n"));
    }
    push_str_bytes(&mut out, "DRCOV VERSION: 2\nDRCOV FLAVOR: libafl\n");
    push_str_bytes(&mut out, "Module Table: version 2, count ");
    push_dec_u64(&mut out, modules.len() as u64);
    out.push(0x0a);
    push_str_bytes(&mut out, "Columns: id, base, end, entry, checksum, timestamp, path\n");
    let ghost pre_lines = out@;
    proof {
        assert(pre_lines =~= header_bytes() + count_prefix_bytes() + dec_digits(mv.len())
            + seq![0x0au8] + columns_bytes());
        assert(module_lines(mv.take(0)) =~= Seq::<u8>::empty());
        assert(out@ =~= pre_lines + module_lines(mv.take(0)));
    }
    let mut mi: usize = 0;
    while mi < modules.len()
        invariant
            mi <= modules@.len(),
            mv == modules_view(modules@),
            vstd::string::is_ascii(", 0x"),
            vstd::string::is_ascii(", 0x00000000, 0x00000000, 0x00000000, "),
            out@ == pre_lines + module_lines(mv.take(mi as int)),
        decreases modules@.len() - mi,
    {
        let ghost lines_pre = out@;
        push_dec_u16_pad3(&mut out, modules[mi].2);
        push_str_bytes(&mut out, ", 0x");
        push_hex_u64(&mut out, modules[mi].0 as u64);
        push_str_bytes(&mut out, ", 0x");
        push_hex_u64(&mut out, modules[mi].1 as u64);
        push_str_bytes(&mut out, ", 0x00000000, 0x00000000, 0x00000000, ");
        out.extend_from_slice(modules[mi].3.as_slice());
        out.push(0x0a);
        proof {
            assert(out@ =~= lines_pre + module_line(mv[mi as int]));
            assert(mv.take(mi as int + 1) =~= mv.take(mi as int).push(mv[mi as int]));
            lemma_module_lines_push(mv.take(mi as int), mv[mi as int]);
            assert(out@ =~= pre_lines + module_lines(mv.take(mi as int + 1)));
        }
        mi += 1;
    }
    proof {
        assert(mv.take(modules@.len() as int) =~= mv);
    }
    push_str_bytes(&mut out, "BB Table: ");
    push_dec_u64(&mut out, blocks.len() as u64);
    push_str_bytes(&mut out, " bbs\n");
    let ghost pre_entries = out@;
    proof {
        assert(pre_entries =~= header_bytes() + count_prefix_bytes() + dec_digits(mv.len())
            + seq![0x0au8] + columns_bytes() + module_lines(mv) + bb_prefix_bytes()
            + dec_digits(blocks@.len()) + bb_suffix_bytes());
        assert(block_entries(mv, blocks@.take(0)) =~= Seq::<u8>::empty());
        assert(out@ =~= pre_entries + block_entries(mv, blocks@.take(0)));
    }
    let mut ei: usize = 0;
    while ei < entries.len()
        invariant
            ei <= entries@.len(),
            entries@.len() == blocks@.len(),
            mv == modules_view(modules@),
            forall|k: int|
                0 <= k < blocks@.len() ==> #[trigger] block_encodable(mv, blocks@[k]),
            forall|k: int|
                0 <= k < blocks@.len() ==> {
                    let b = blocks@[k];
                    let j = find_module(mv, b.address);
                    (#[trigger] entries@[k]).0 == b.address - mv[j].0
                        && entries@[k].1 == b.size as u16 && entries@[k].2 == mv[j].2
                },
            out@ == pre_entries + block_entries(mv, blocks@.take(ei as int)),
        decreases entries@.len() - ei,
    {
        let ghost entry_pre = out@;
        let e = entries[ei];
        push_le32(&mut out, e.0);
        push_le16(&mut out, e.1);
        push_le16(&mut out, e.2);
        proof {
            let b = blocks@[ei as int];
            let j = find_module(mv, b.address);
            assert(le32(e.0) == le32((b.address - mv[j].0) as u32));
            assert(le16(e.1) == le16(b.size as u16));
            assert(le16(e.2) == le16(mv[j].2));
            assert(out@ =~= entry_pre + block_entry(mv, b));
            assert(blocks@.take(ei as int + 1) =~= blocks@.take(ei as int).push(b));
            lemma_block_entries_push(mv, blocks@.take(ei as int), b);
            assert(out@ =~= pre_entries + block_entries(mv, blocks@.take(ei as int + 1)));
        }
        ei += 1;
    }
    proof {
        assert(blocks@.take(blocks@.len() as int) =~= blocks@);
        assert(out@ =~= drcov_bytes(mv, blocks@));
    }
    Some(out)
}

/// Index of the first module with identifier `id`, or -1.
pub open spec fn find_by_id(ms: Seq<(usize, usize, u16, Seq<u8>)>, id: nat) -> int
    decreases ms.len(),
{
    if ms.len() == 0 {
        -1
    } else if ms[0].2 as nat == id {
        0
    } else {
        let r = find_by_id(ms.skip(1), id);
        if r < 0 {
            -1
        } else {
            r + 1
        }
    }
}

/// A module entry whose path the trace format can carry: the path holds
/// no newline, which the module table uses as its line terminator.
pub open spec fn module_wf(m: (usize, usize, u16, Seq<u8>)) -> bool {
    forall|i: int| 0 <= i < m.3.len() ==> m.3[i] != 0x0a
}

/// A module table the trace format can carry and recover: every path is
/// newline-free and module identifiers are pairwise distinct, so each
/// block record names its module unambiguously.
pub open spec fn modules_wf(ms: Seq<(usize, usize, u16, Seq<u8>)>) -> bool {
    &&& forall|i: int| 0 <= i < ms.len() ==> module_wf(#[trigger] ms[i])
    &&& forall|i: int, j: int| 0 <= i < j < ms.len() ==> ms[i].2 != ms[j].2
}

/// What the round trip preserves: a well-formed module table and a block
/// list it can encode.
pub open spec fn trace_wf(ms: Seq<(usize, usize, u16, Seq<u8>)>, bs: Seq<BasicBlock>) -> bool {
    modules_wf(ms) && blocks_encodable(ms, bs)
}

/// Reads one line of the module table.
pub open spec fn parse_module_line(s: Seq<u8>) -> Option<((usize, usize, u16, Seq<u8>), Seq<u8>)> {
    match parse_dec(s) {
        None => None,
        Some((id, s1)) => match expect(s1, hex_sep_bytes()) {
            None => None,
            Some(s2) => match parse_hex(s2) {
                None => None,
                Some((start, s3)) => match expect(s3, hex_sep_bytes()) {
                    None => None,
                    Some(s4) => match parse_hex(s4) {
                        None => None,
                        Some((end, s5)) => match expect(s5, fixed_cols_bytes()) {
                            None => None,
                            Some(s6) => match parse_line(s6) {
                                None => None,
                                Some((path, s7)) => if id < 0x10000 && start
                                    <= usize::MAX as nat && end <= usize::MAX as nat {
                                    Some(
                                        ((start as usize, end as usize, id as u16, path), s7),
                                    )
                                } else {
                                    None
                                },
                            },
                        },
                    },
                },
            },
        },
    }
}

/// Reads `n` module table lines.
pub open spec fn parse_modules(s: Seq<u8>, n: nat) -> Option<
    (Seq<(usize, usize, u16, Seq<u8>)>, Seq<u8>),
>
    decreases n,
{
    if n == 0 {
        Some((Seq::<(usize, usize, u16, Seq<u8>)>::empty(), s))
    } else {
        match parse_module_line(s) {
            None => None,
            Some((m, s1)) => match parse_modules(s1, (n - 1) as nat) {
                None => None,
                Some((ms, s2)) => Some((seq![m] + ms, s2)),
            },
        }
    }
}

/// Reads `k` eight-byte block records, resolving each module identifier
/// against the parsed module table.
pub open spec fn parse_blocks(
    ms: Seq<(usize, usize, u16, Seq<u8>)>,
    s: Seq<u8>,
    k: nat,
) -> Option<(Seq<BasicBlock>, Seq<u8>)>
    decreases k,
{
    if k == 0 {
        Some((Seq::<BasicBlock>::empty(), s))
    } else if s.len() < 8 {
        None
    } else {
        let off = s[0] as nat + 0x100 * (s[1] as nat) + 0x10000 * (s[2] as nat) + 0x1000000 * (
        s[3] as nat);
        let size = s[4] as nat + 0x100 * (s[5] as nat);
        let id = s[6] as nat + 0x100 * (s[7] as nat);
        let j = find_by_id(ms, id);
        if j < 0 {
            None
        } else if ms[j].0 as nat + off > usize::MAX as nat {
            None
        } else {
            match parse_blocks(ms, s.skip(8), (k - 1) as nat) {
                None => None,
                Some((bs, rest)) => Some(
                    (
                        seq![
                            (BasicBlock {
                                address: (ms[j].0 as nat + off) as usize,
                                size: size as usize,
                            }),
                        ] + bs,
                        rest,
                    ),
                ),
            }
        }
    }
}

/// Reads a whole trace file back into its module table and block list.
pub open spec fn parse_trace(s: Seq<u8>) -> Option<
    (Seq<(usize, usize, u16, Seq<u8>)>, Seq<BasicBlock>),
> {
    match expect(s, header_bytes()) {
        None => None,
        Some(s1) => match expect(s1, count_prefix_bytes()) {
            None => None,
            Some(s2) => match parse_dec(s2) {
                None => None,
                Some((n, s3)) => match expect(s3, seq![0x0au8]) {
                    None => None,
                    Some(s4) => match expect(s4, columns_bytes()) {
                        None => None,
                        Some(s5) => match parse_modules(s5, n) {
                            None => None,
                            Some((ms, s6)) => match expect(s6, bb_prefix_bytes()) {
                                None => None,
                                Some(s7) => match parse_dec(s7) {
                                    None => None,
                                    Some((k, s8)) => match expect(s8, bb_suffix_bytes()) {
                                        None => None,
                                        Some(s9) => match parse_blocks(ms, s9, k) {
                                            None => None,
                                            Some((bs, rest)) => if rest.len() == 0 {
                                                Some((ms, bs))
                                            } else {
                                                None
                                            },
                                        },
                                    },
                                },
                            },
                        },
                    },
                },
            },
        },
    }
}

pub proof fn lemma_find_by_id_unique(ms: Seq<(usize, usize, u16, Seq<u8>)>, j: int)
    requires
        forall|p: int, q: int| 0 <= p < q < ms.len() ==> ms[p].2 != ms[q].2,
        0 <= j < ms.len(),
    ensures
        find_by_id(ms, ms[j].2 as nat) == j,
    decreases ms.len(),
{
    if j == 0 {
    } else {
        assert(ms[0].2 != ms[j].2);
        assert forall|p: int, q: int|
            0 <= p < q < ms.skip(1).len() implies (#[trigger] ms.skip(1)[p]).2 != (#[trigger] ms.skip(
            1,
        )[q]).2 by {
            assert(ms.skip(1)[p] == ms[p + 1]);
            assert(ms.skip(1)[q] == ms[q + 1]);
        };
        assert(ms.skip(1)[j - 1] == ms[j]);
        lemma_find_by_id_unique(ms.skip(1), j - 1);
    }
}

pub proof fn lemma_le16_roundtrip(n: u16)
    ensures
        (n % 0x100) as nat + 0x100 * (((n / 0x100) % 0x100) as nat) == n as nat,
{
    vstd::arithmetic::div_mod::lemma_fundamental_div_mod(n as int, 0x100);
    vstd::arithmetic::div_mod::lemma_small_mod((n / 0x100) as nat, 0x100);
}

pub proof fn lemma_le32_roundtrip(n: u32)
    ensures
        (n % 0x100) as nat + 0x100 * (((n / 0x100) % 0x100) as nat) + 0x10000 * (((n / 0x10000)
            % 0x100) as nat) + 0x1000000 * (((n / 0x1000000) % 0x100) as nat) == n as nat,
{
    vstd::arithmetic::div_mod::lemma_fundamental_div_mod(n as int, 0x100);
    vstd::arithmetic::div_mod::lemma_fundamental_div_mod(n as int / 0x100, 0x100);
    vstd::arithmetic::div_mod::lemma_fundamental_div_mod(n as int / 0x10000, 0x100);
    vstd::arithmetic::div_mod::lemma_div_denominator(n as int, 0x100, 0x100);
    vstd::arithmetic::div_mod::lemma_div_denominator(n as int, 0x10000, 0x100);
    vstd::arithmetic::div_mod::lemma_small_mod((n / 0x1000000) as nat, 0x100);
}

/// Parsing one rendered module line recovers the module and leaves the
/// remainder untouched.
pub proof fn lemma_parse_module_line_concat(m: (usize, usize, u16, Seq<u8>), rest: Seq<u8>)
    requires
        module_wf(m),
    ensures
        parse_module_line(module_line(m) + rest) == Some((m, rest)),
{
    reveal_strlit(", 0x");
    reveal_strlit(", 0x00000000, 0x00000000, 0x00000000, ");
    let idd = zero_pad(dec_digits(m.2 as nat), 3);
    let sh = hex_sep_bytes();
    let hs = hex_digits(m.0 as nat);
    let he = hex_digits(m.1 as nat);
    let fc = fixed_cols_bytes();
    let nl = seq![0x0au8];
    let s = module_line(m) + rest;
    assert(sh[0] == 0x2c);
    assert(fc[0] == 0x2c);
    lemma_zero_pad_dec(m.2 as nat, 3);
    lemma_hex_digits_value(m.0 as nat);
    lemma_hex_digits_value(m.1 as nat);

    let r1 = sh + hs + sh + he + fc + m.3 + nl + rest;
    assert(s =~= idd + r1);
    assert(r1[0] == sh[0]);
    lemma_parse_dec_concat(idd, r1);
    assert(parse_dec(s) == Some((m.2 as nat, r1)));

    let r2 = hs + sh + he + fc + m.3 + nl + rest;
    assert(r1 =~= sh + r2);
    lemma_expect_prefix(sh, r2);

    let r3 = sh + he + fc + m.3 + nl + rest;
    assert(r2 =~= hs + r3);
    assert(r3[0] == sh[0]);
    assert(!is_hex_digit(0x2c));
    lemma_parse_hex_concat(hs, r3);
    assert(parse_hex(r2) == Some((m.0 as nat, r3)));

    let r4 = he + fc + m.3 + nl + rest;
    assert(r3 =~= sh + r4);
    lemma_expect_prefix(sh, r4);

    let r5 = fc + m.3 + nl + rest;
    assert(r4 =~= he + r5);
    assert(r5[0] == fc[0]);
    lemma_parse_hex_concat(he, r5);
    assert(parse_hex(r4) == Some((m.1 as nat, r5)));

    let r6 = m.3 + nl + rest;
    assert(r5 =~= fc + r6);
    lemma_expect_prefix(fc, r6);

    lemma_parse_line_concat(m.3, rest);
    assert(m.3 + nl + rest == r6);
    assert(parse_line(r6) == Some((m.3, rest)));

    assert((m.2 as nat) < 0x10000);
    assert(((m.2 as nat) as u16) == m.2);
    assert(((m.0 as nat) as usize) == m.0);
    assert(((m.1 as nat) as usize) == m.1);
}

/// Parsing the rendered module table recovers it line by line.
pub proof fn lemma_parse_modules_concat(ms: Seq<(usize, usize, u16, Seq<u8>)>, rest: Seq<u8>)
    requires
        forall|i: int| 0 <= i < ms.len() ==> module_wf(#[trigger] ms[i]),
    ensures
        parse_modules(module_lines(ms) + rest, ms.len()) == Some((ms, rest)),
    decreases ms.len(),
{
    if ms.len() == 0 {
        assert(module_lines(ms) + rest =~= rest);
        assert(Seq::<(usize, usize, u16, Seq<u8>)>::empty() =~= ms);
    } else {
        let tail = module_lines(ms.skip(1)) + rest;
        assert(module_lines(ms) + rest =~= module_line(ms[0]) + tail);
        lemma_parse_module_line_concat(ms[0], tail);
        assert forall|i: int| 0 <= i < ms.skip(1).len() implies module_wf(
            #[trigger] ms.skip(1)[i],
        ) by {
            assert(ms.skip(1)[i] == ms[i + 1]);
        };
        lemma_parse_modules_concat(ms.skip(1), rest);
        assert(seq![ms[0]] + ms.skip(1) =~= ms);
    }
}

/// Parsing the rendered block records recovers each block exactly.
pub proof fn lemma_parse_blocks_concat(
    ms: Seq<(usize, usize, u16, Seq<u8>)>,
    bs: Seq<BasicBlock>,
    rest: Seq<u8>,
)
    requires
        forall|p: int, q: int| 0 <= p < q < ms.len() ==> ms[p].2 != ms[q].2,
        blocks_encodable(ms, bs),
    ensures
        parse_blocks(ms, block_entries(ms, bs) + rest, bs.len()) == Some((bs, rest)),
    decreases bs.len(),
{
    if bs.len() == 0 {
        assert(block_entries(ms, bs) + rest =~= rest);
        assert(Seq::<BasicBlock>::empty() =~= bs);
    } else {
        let b = bs[0];
        assert(block_encodable(ms, b));
        let j = find_module(ms, b.address);
        lemma_find_module_props(ms, b.address);
        let offu = (b.address - ms[j].0) as u32;
        let sizeu = b.size as u16;
        let idu = ms[j].2;
        let e = block_entry(ms, b);
        assert(e == le32(offu) + le16(sizeu) + le16(idu));
        assert(e.len() == 8);
        let tail = block_entries(ms, bs.skip(1)) + rest;
        let s = block_entries(ms, bs) + rest;
        assert(s =~= e + tail);
        assert(s.len() >= 8);
        assert(s[0] == (offu % 0x100) as u8);
        assert(s[1] == ((offu / 0x100) % 0x100) as u8);
        assert(s[2] == ((offu / 0x10000) % 0x100) as u8);
        assert(s[3] == ((offu / 0x1000000) % 0x100) as u8);
        assert(s[4] == (sizeu % 0x100) as u8);
        assert(s[5] == ((sizeu / 0x100) % 0x100) as u8);
        assert(s[6] == (idu % 0x100) as u8);
        assert(s[7] == ((idu / 0x100) % 0x100) as u8);
        lemma_le32_roundtrip(offu);
        lemma_le16_roundtrip(sizeu);
        lemma_le16_roundtrip(idu);
        assert(s[0] as nat + 0x100 * (s[1] as nat) + 0x10000 * (s[2] as nat) + 0x1000000 * (
        s[3] as nat) == offu as nat);
        assert(s[4] as nat + 0x100 * (s[5] as nat) == sizeu as nat);
        assert(s[6] as nat + 0x100 * (s[7] as nat) == idu as nat);
        lemma_find_by_id_unique(ms, j);
        assert(find_by_id(ms, idu as nat) == j);
        assert(ms[j].0 as nat + offu as nat == b.address as nat);
        assert(s.skip(8) =~= tail);
        assert forall|i: int| 0 <= i < bs.skip(1).len() implies block_encodable(
            ms,
            #[trigger] bs.skip(1)[i],
        ) by {
            assert(bs.skip(1)[i] == bs[i + 1]);
        };
        lemma_parse_blocks_concat(ms, bs.skip(1), rest);
        assert((BasicBlock { address: (ms[j].0 as nat + offu as nat) as usize, size: (
        sizeu as nat) as usize }) == b);
        assert(seq![b] + bs.skip(1) =~= bs);
    }
}

/// Round trip: a trace file serialized from a well-formed module table
/// and an encodable block list parses back to exactly that table and
/// list.
#[verifier::rlimit(50)]
pub proof fn lemma_trace_round_trip(ms: Seq<(usize, usize, u16, Seq<u8>)>, bs: Seq<BasicBlock>)
    requires
        trace_wf(ms, bs),
    ensures
        parse_trace(drcov_bytes(ms, bs)) == Some((ms, bs)),
{
    reveal_strlit(" bbs\n");
    let s = drcov_bytes(ms, bs);
    let hb = header_bytes();
    let cp = count_prefix_bytes();
    let dn = dec_digits(ms.len());
    let nl = seq![0x0au8];
    let cb = columns_bytes();
    let ml = module_lines(ms);
    let bp = bb_prefix_bytes();
    let dk = dec_digits(bs.len());
    let bsfx = bb_suffix_bytes();
    let be = block_entries(ms, bs);
    lemma_dec_digits_value(ms.len());
    lemma_dec_digits_value(bs.len());

    let r1 = cp + dn + nl + cb + ml + bp + dk + bsfx + be;
    assert(s =~= hb + r1);
    lemma_expect_prefix(hb, r1);

    let r2 = dn + nl + cb + ml + bp + dk + bsfx + be;
    assert(r1 =~= cp + r2);
    lemma_expect_prefix(cp, r2);

    let r3 = nl + cb + ml + bp + dk + bsfx + be;
    assert(r2 =~= dn + r3);
    assert(r3[0] == 0x0a);
    assert(!is_dec_digit(0x0a));
    lemma_parse_dec_concat(dn, r3);
    assert(parse_dec(r2) == Some((ms.len(), r3)));

    let r4 = cb + ml + bp + dk + bsfx + be;
    assert(r3 =~= nl + r4);
    lemma_expect_prefix(nl, r4);

    let r5 = ml + bp + dk + bsfx + be;
    assert(r4 =~= cb + r5);
    lemma_expect_prefix(cb, r5);

    let r6 = bp + dk + bsfx + be;
    assert(r5 =~= ml + r6);
    lemma_parse_modules_concat(ms, r6);
    assert(parse_modules(r5, ms.len()) == Some((ms, r6)));

    let r7 = dk + bsfx + be;
    assert(r6 =~= bp + r7);
    lemma_expect_prefix(bp, r7);

    let r8 = bsfx + be;
    assert(r7 =~= dk + r8);
    assert(r8[0] == 0x20);
    assert(!is_dec_digit(0x20));
    lemma_parse_dec_concat(dk, r8);
    assert(parse_dec(r7) == Some((bs.len(), r8)));

    assert(r8 =~= bsfx + be);
    lemma_expect_prefix(bsfx, be);

    lemma_parse_blocks_concat(ms, bs, Seq::<u8>::empty());
    assert(be + Seq::<u8>::empty() =~= be);
    assert(parse_blocks(ms, be, bs.len()) == Some((bs, Seq::<u8>::empty())));
}

} // verus!
