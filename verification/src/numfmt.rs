//! Decimal and hexadecimal renderings of machine words as ASCII bytes,
//! together with specification-level parsers and proofs that rendering
//! and parsing invert each other.
use vstd::prelude::*;

verus! {

/// The bytes of an ASCII string, one byte per character.
pub open spec fn ascii_bytes(s: Seq<char>) -> Seq<u8> {
    Seq::new(s.len(), |i: int| s[i] as u8)
}

pub open spec fn is_dec_digit(b: u8) -> bool {
    0x30 <= b <= 0x39
}

pub open spec fn is_hex_digit(b: u8) -> bool {
    is_dec_digit(b) || (0x61 <= b <= 0x66)
}

pub open spec fn dec_digit(d: nat) -> u8
    recommends
        d < 10,
{
    (0x30 + d) as u8
}

pub open spec fn hex_digit(d: nat) -> u8
    recommends
        d < 16,
{
    if d < 10 {
        (0x30 + d) as u8
    } else {
        (0x57 + d) as u8
    }
}

pub open spec fn dec_val(b: u8) -> nat {
    (b - 0x30) as nat
}

pub open spec fn hex_val(b: u8) -> nat {
    if b <= 0x39 {
        (b - 0x30) as nat
    } else {
        (b - 0x57) as nat
    }
}

/// The shortest decimal rendering of `n` (a single `0` for zero).
pub open spec fn dec_digits(n: nat) -> Seq<u8>
    decreases n,
{
    if n < 10 {
        seq![dec_digit(n)]
    } else {
        dec_digits(n / 10).push(dec_digit(n % 10))
    }
}

/// The shortest lower-case hexadecimal rendering of `n`.
pub open spec fn hex_digits(n: nat) -> Seq<u8>
    decreases n,
{
    if n < 16 {
        seq![hex_digit(n)]
    } else {
        hex_digits(n / 16).push(hex_digit(n % 16))
    }
}

/// The value of a decimal digit string, most significant digit first.
pub open spec fn dec_value(s: Seq<u8>) -> nat
    decreases s.len(),
{
    if s.len() == 0 {
        0
    } else {
        dec_value(s.drop_last()) * 10 + dec_val(s.last())
    }
}

/// The value of a hexadecimal digit string, most significant digit first.
pub open spec fn hex_value(s: Seq<u8>) -> nat
    decreases s.len(),
{
    if s.len() == 0 {
        0
    } else {
        hex_value(s.drop_last()) * 16 + hex_val(s.last())
    }
}

pub open spec fn all_dec_digits(s: Seq<u8>) -> bool {
    forall|i: int| 0 <= i < s.len() ==> is_dec_digit(s[i])
}

pub open spec fn all_hex_digits(s: Seq<u8>) -> bool {
    forall|i: int| 0 <= i < s.len() ==> is_hex_digit(s[i])
}

/// `s` left-padded with ASCII zeros up to width `w`.
pub open spec fn zero_pad(s: Seq<u8>, w: nat) -> Seq<u8> {
    if s.len() >= w {
        s
    } else {
        Seq::new((w - s.len()) as nat, |i: int| 0x30u8) + s
    }
}

/// Length of the longest prefix of `s` made of decimal digits.
pub open spec fn dec_run(s: Seq<u8>) -> nat
    decreases s.len(),
{
    if s.len() > 0 && is_dec_digit(s[0]) {
        (1 + dec_run(s.skip(1))) as nat
    } else {
        0
    }
}

/// Length of the longest prefix of `s` made of hexadecimal digits.
pub open spec fn hex_run(s: Seq<u8>) -> nat
    decreases s.len(),
{
    if s.len() > 0 && is_hex_digit(s[0]) {
        (1 + hex_run(s.skip(1))) as nat
    } else {
        0
    }
}

/// Length of the longest prefix of `s` free of newlines.
pub open spec fn line_run(s: Seq<u8>) -> nat
    decreases s.len(),
{
    if s.len() > 0 && s[0] != 0x0a {
        (1 + line_run(s.skip(1))) as nat
    } else {
        0
    }
}

/// Reads a maximal non-empty run of decimal digits and returns its value
/// and the unread remainder.
pub open spec fn parse_dec(s: Seq<u8>) -> Option<(nat, Seq<u8>)> {
    let k = dec_run(s);
    if k == 0 {
        None
    } else {
        Some((dec_value(s.take(k as int)), s.skip(k as int)))
    }
}

/// Reads a maximal non-empty run of hexadecimal digits and returns its
/// value and the unread remainder.
pub open spec fn parse_hex(s: Seq<u8>) -> Option<(nat, Seq<u8>)> {
    let k = hex_run(s);
    if k == 0 {
        None
    } else {
        Some((hex_value(s.take(k as int)), s.skip(k as int)))
    }
}

/// Reads everything up to the first newline and returns it together with
/// what follows the newline; fails when no newline is left.
pub open spec fn parse_line(s: Seq<u8>) -> Option<(Seq<u8>, Seq<u8>)> {
    let k = line_run(s);
    if k < s.len() {
        Some((s.take(k as int), s.skip(k as int + 1)))
    } else {
        None
    }
}

/// Consumes the exact literal `lit` from the front of `s`.
pub open spec fn expect(s: Seq<u8>, lit: Seq<u8>) -> Option<Seq<u8>> {
    if lit.len() <= s.len() && s.take(lit.len() as int) == lit {
        Some(s.skip(lit.len() as int))
    } else {
        None
    }
}

pub proof fn lemma_expect_prefix(lit: Seq<u8>, rest: Seq<u8>)
    ensures
        expect(lit + rest, lit) == Some(rest),
{
    assert((lit + rest).take(lit.len() as int) =~= lit);
    assert((lit + rest).skip(lit.len() as int) =~= rest);
}

pub proof fn lemma_dec_digits_value(n: nat)
    ensures
        dec_value(dec_digits(n)) == n,
        all_dec_digits(dec_digits(n)),
        dec_digits(n).len() >= 1,
    decreases n,
{
    if n < 10 {
        let s = dec_digits(n);
        assert(s.drop_last() =~= Seq::<u8>::empty());
        assert(dec_value(s) == dec_value(Seq::<u8>::empty()) * 10 + dec_val(dec_digit(n)));
    } else {
        lemma_dec_digits_value(n / 10);
        let s = dec_digits(n / 10);
        let d = dec_digit(n % 10);
        assert(dec_digits(n) == s.push(d));
        assert(s.push(d).drop_last() =~= s);
        assert(s.push(d).last() == d);
        assert(dec_value(s.push(d)) == n / 10 * 10 + n % 10);
        assert(n / 10 * 10 + n % 10 == n) by {
            vstd::arithmetic::div_mod::lemma_fundamental_div_mod(n as int, 10);
        };
        assert forall|i: int| 0 <= i < s.push(d).len() implies is_dec_digit(s.push(d)[i]) by {
            if i < s.len() {
                assert(s.push(d)[i] == s[i]);
            }
        };
    }
}

pub proof fn lemma_hex_digits_value(n: nat)
    ensures
        hex_value(hex_digits(n)) == n,
        all_hex_digits(hex_digits(n)),
        hex_digits(n).len() >= 1,
    decreases n,
{
    if n < 16 {
        let s = hex_digits(n);
        assert(s.drop_last() =~= Seq::<u8>::empty());
        assert(hex_value(s) == hex_value(Seq::<u8>::empty()) * 16 + hex_val(hex_digit(n)));
    } else {
        lemma_hex_digits_value(n / 16);
        let s = hex_digits(n / 16);
        let d = hex_digit(n % 16);
        assert(hex_digits(n) == s.push(d));
        assert(s.push(d).drop_last() =~= s);
        assert(s.push(d).last() == d);
        assert(hex_value(s.push(d)) == n / 16 * 16 + n % 16);
        assert(n / 16 * 16 + n % 16 == n) by {
            vstd::arithmetic::div_mod::lemma_fundamental_div_mod(n as int, 16);
        };
        assert forall|i: int| 0 <= i < s.push(d).len() implies is_hex_digit(s.push(d)[i]) by {
            if i < s.len() {
                assert(s.push(d)[i] == s[i]);
            }
        };
    }
}

pub proof fn lemma_dec_value_all_zeros(z: Seq<u8>)
    requires
        forall|i: int| 0 <= i < z.len() ==> z[i] == 0x30u8,
    ensures
        dec_value(z) == 0,
    decreases z.len(),
{
    if z.len() > 0 {
        lemma_dec_value_all_zeros(z.drop_last());
    }
}

pub proof fn lemma_dec_value_leading_zeros(z: Seq<u8>, s: Seq<u8>)
    requires
        forall|i: int| 0 <= i < z.len() ==> z[i] == 0x30u8,
    ensures
        dec_value(z + s) == dec_value(s),
    decreases s.len(),
{
    if s.len() == 0 {
        assert(z + s =~= z);
        lemma_dec_value_all_zeros(z);
    } else {
        assert((z + s).drop_last() =~= z + s.drop_last());
        assert((z + s).last() == s.last());
        lemma_dec_value_leading_zeros(z, s.drop_last());
    }
}

/// Value and digit class of a zero-padded decimal rendering.
pub proof fn lemma_zero_pad_dec(n: nat, w: nat)
    ensures
        dec_value(zero_pad(dec_digits(n), w)) == n,
        all_dec_digits(zero_pad(dec_digits(n), w)),
        zero_pad(dec_digits(n), w).len() >= 1,
{
    lemma_dec_digits_value(n);
    let s = dec_digits(n);
    if s.len() < w {
        let z = Seq::new((w - s.len()) as nat, |i: int| 0x30u8);
        lemma_dec_value_leading_zeros(z, s);
        assert forall|i: int| 0 <= i < (z + s).len() implies is_dec_digit((z + s)[i]) by {
            if i < z.len() {
                assert((z + s)[i] == 0x30u8);
            }
        };
    }
}

pub proof fn lemma_dec_run_concat(d: Seq<u8>, r: Seq<u8>)
    requires
        all_dec_digits(d),
        r.len() == 0 || !is_dec_digit(r[0]),
    ensures
        dec_run(d + r) == d.len(),
    decreases d.len(),
{
    if d.len() == 0 {
        assert(d + r =~= r);
    } else {
        assert((d + r)[0] == d[0]);
        assert((d + r).skip(1) =~= d.skip(1) + r);
        assert(all_dec_digits(d.skip(1)));
        lemma_dec_run_concat(d.skip(1), r);
    }
}

pub proof fn lemma_hex_run_concat(d: Seq<u8>, r: Seq<u8>)
    requires
        all_hex_digits(d),
        r.len() == 0 || !is_hex_digit(r[0]),
    ensures
        hex_run(d + r) == d.len(),
    decreases d.len(),
{
    if d.len() == 0 {
        assert(d + r =~= r);
    } else {
        assert((d + r)[0] == d[0]);
        assert((d + r).skip(1) =~= d.skip(1) + r);
        assert(all_hex_digits(d.skip(1)));
        lemma_hex_run_concat(d.skip(1), r);
    }
}

pub proof fn lemma_line_run_concat(d: Seq<u8>, r: Seq<u8>)
    requires
        forall|i: int| 0 <= i < d.len() ==> d[i] != 0x0a,
        r.len() == 0 || r[0] == 0x0a,
    ensures
        line_run(d + r) == d.len(),
    decreases d.len(),
{
    if d.len() == 0 {
        assert(d + r =~= r);
    } else {
        assert((d + r)[0] == d[0]);
        assert((d + r).skip(1) =~= d.skip(1) + r);
        lemma_line_run_concat(d.skip(1), r);
    }
}

/// Parsing a digit string followed by a non-digit recovers its value.
pub proof fn lemma_parse_dec_concat(d: Seq<u8>, r: Seq<u8>)
    requires
        all_dec_digits(d),
        d.len() > 0,
        r.len() == 0 || !is_dec_digit(r[0]),
    ensures
        parse_dec(d + r) == Some((dec_value(d), r)),
{
    lemma_dec_run_concat(d, r);
    assert((d + r).take(d.len() as int) =~= d);
    assert((d + r).skip(d.len() as int) =~= r);
}

pub proof fn lemma_parse_hex_concat(d: Seq<u8>, r: Seq<u8>)
    requires
        all_hex_digits(d),
        d.len() > 0,
        r.len() == 0 || !is_hex_digit(r[0]),
    ensures
        parse_hex(d + r) == Some((hex_value(d), r)),
{
    lemma_hex_run_concat(d, r);
    assert((d + r).take(d.len() as int) =~= d);
    assert((d + r).skip(d.len() as int) =~= r);
}

/// Parsing up to a newline recovers a newline-free payload exactly.
pub proof fn lemma_parse_line_concat(d: Seq<u8>, r: Seq<u8>)
    requires
        forall|i: int| 0 <= i < d.len() ==> d[i] != 0x0a,
    ensures
        parse_line(d + seq![0x0au8] + r) == Some((d, r)),
{
    let s = d + seq![0x0au8] + r;
    assert(s =~= d + (seq![0x0au8] + r));
    lemma_line_run_concat(d, seq![0x0au8] + r);
    assert(line_run(s) == d.len());
    assert(s.take(d.len() as int) =~= d);
    assert(s.skip(d.len() as int + 1) =~= r);
}

/// Powers of sixteen, for bounding digit counts.
pub open spec fn pow16(k: nat) -> nat
    decreases k,
{
    if k == 0 {
        1
    } else {
        16 * pow16((k - 1) as nat)
    }
}

/// Sixteen hexadecimal digits suffice for any 64-bit value.
pub proof fn lemma_hex_digits_len_u64(n: nat)
    requires
        n < 0x10000000000000000,
    ensures
        hex_digits(n).len() <= 16,
{
    assert(pow16(0) == 1);
    assert(pow16(1) == 16);
    assert(pow16(2) == 0x100);
    assert(pow16(3) == 0x1000);
    assert(pow16(4) == 0x10000);
    assert(pow16(5) == 0x100000);
    assert(pow16(6) == 0x1000000);
    assert(pow16(7) == 0x10000000);
    assert(pow16(8) == 0x100000000);
    assert(pow16(9) == 0x1000000000);
    assert(pow16(10) == 0x10000000000);
    assert(pow16(11) == 0x100000000000);
    assert(pow16(12) == 0x1000000000000);
    assert(pow16(13) == 0x10000000000000);
    assert(pow16(14) == 0x100000000000000);
    assert(pow16(15) == 0x1000000000000000);
    assert(pow16(16) == 0x10000000000000000);
    lemma_hex_digits_len(n, 16);
}

pub proof fn lemma_hex_digits_len(n: nat, k: nat)
    requires
        k >= 1,
        n < pow16(k),
    ensures
        hex_digits(n).len() <= k,
    decreases k,
{
    if n < 16 {
    } else {
        let p = pow16((k - 1) as nat);
        assert(pow16(k) == 16 * p);
        assert(k >= 2) by {
            if k == 1 {
                assert(pow16(1) == 16);
            }
        };
        assert(n / 16 < p) by {
            vstd::arithmetic::div_mod::lemma_fundamental_div_mod(n as int, 16);
        };
        lemma_hex_digits_len(n / 16, (k - 1) as nat);
    }
}

/// Appends the ASCII bytes of an ASCII string slice.
pub fn push_str_bytes(out: &mut Vec<u8>, s: &str)
    requires
        vstd::string::is_ascii(s),
    ensures
        final(out)@ == old(out)@ + ascii_bytes(s@),
{
    proof {
        vstd::string::is_ascii_spec_bytes(s);
    }
    out.extend_from_slice(s.as_bytes());
    proof {
        assert(out@ =~= old(out)@ + ascii_bytes(s@));
    }
}

/// Appends the shortest decimal rendering of `n`.
pub fn push_dec_u64(out: &mut Vec<u8>, n: u64)
    ensures
        final(out)@ == old(out)@ + dec_digits(n as nat),
    decreases n,
{
    if n < 10 {
        out.push(0x30 + n as u8);
        proof {
            assert(out@ =~= old(out)@ + dec_digits(n as nat));
        }
    } else {
        push_dec_u64(out, n / 10);
        out.push(0x30 + (n % 10) as u8);
        proof {
            assert(dec_digit((n as nat) % 10) == 0x30 + (n % 10) as u8);
            assert(out@ =~= old(out)@ + dec_digits(n as nat));
        }
    }
}

/// Appends the shortest lower-case hexadecimal rendering of `n`.
pub fn push_hex_u64(out: &mut Vec<u8>, n: u64)
    ensures
        final(out)@ == old(out)@ + hex_digits(n as nat),
    decreases n,
{
    if n < 16 {
        let d: u8 = if n < 10 {
            0x30 + n as u8
        } else {
            0x57 + n as u8
        };
        out.push(d);
        proof {
            assert(out@ =~= old(out)@ + hex_digits(n as nat));
        }
    } else {
        push_hex_u64(out, n / 16);
        let r: u64 = n % 16;
        let d: u8 = if r < 10 {
            0x30 + r as u8
        } else {
            0x57 + r as u8
        };
        out.push(d);
        proof {
            assert(hex_digit((n as nat) % 16) == d);
            assert(out@ =~= old(out)@ + hex_digits(n as nat));
        }
    }
}

/// Appends the decimal rendering of `n`, zero-padded to at least three
/// digits.
pub fn push_dec_u16_pad3(out: &mut Vec<u8>, n: u16)
    ensures
        final(out)@ == old(out)@ + zero_pad(dec_digits(n as nat), 3),
{
    let ghost pre = out@;
    if n < 10 {
        out.push(0x30);
        out.push(0x30);
    } else if n < 100 {
        out.push(0x30);
    }
    push_dec_u64(out, n as u64);
    proof {
        let nn = n as nat;
        let s = dec_digits(nn);
        if nn < 10 {
            assert(s.len() == 1);
            assert(Seq::new(2nat, |i: int| 0x30u8) =~= seq![0x30u8, 0x30u8]);
            assert(out@ =~= pre + zero_pad(s, 3));
        } else if nn < 100 {
            assert(s == dec_digits(nn / 10).push(dec_digit(nn % 10)));
            assert(dec_digits(nn / 10).len() == 1);
            assert(s.len() == 2);
            assert(Seq::new(1nat, |i: int| 0x30u8) =~= seq![0x30u8]);
            assert(out@ =~= pre + zero_pad(s, 3));
        } else {
            assert(s == dec_digits(nn / 10).push(dec_digit(nn % 10)));
            assert(dec_digits(nn / 10) == dec_digits(nn / 10 / 10).push(
                dec_digit((nn / 10) % 10),
            ));
            assert(s.len() >= 3);
            assert(out@ =~= pre + zero_pad(s, 3));
        }
    }
}

/// Appends the hexadecimal rendering of `h`, zero-padded to sixteen
/// digits.
pub fn push_hex16_u64(out: &mut Vec<u8>, h: u64)
    ensures
        final(out)@ == old(out)@ + zero_pad(hex_digits(h as nat), 16),
{
    let mut digits: Vec<u8> = Vec::new();
    push_hex_u64(&mut digits, h);
    proof {
        lemma_hex_digits_len_u64(h as nat);
    }
    let dl = digits.len();
    let pad: usize = 16 - dl;
    let mut z: usize = 0;
    while z < pad
        invariant
            z <= pad,
            pad == 16 - dl,
            dl == digits@.len(),
            out@ == old(out)@ + Seq::new(z as nat, |i: int| 0x30u8),
        decreases pad - z,
    {
        out.push(0x30);
        z += 1;
        proof {
            assert(out@ =~= old(out)@ + Seq::new(z as nat, |i: int| 0x30u8));
        }
    }
    out.extend_from_slice(digits.as_slice());
    proof {
        let s = hex_digits(h as nat);
        if dl == 16 {
            assert(Seq::new(0nat, |i: int| 0x30u8) =~= Seq::<u8>::empty());
            assert(out@ =~= old(out)@ + zero_pad(s, 16));
        } else {
            assert(out@ =~= old(out)@ + zero_pad(s, 16));
        }
    }
}

} // verus!
