//! Trace file naming: a fixed-seed fingerprint of the input bytes,
//! rendered as sixteen hexadecimal digits, with a decimal probe suffix
//! when the unsuffixed name is already taken.
use core::hash::{BuildHasher, Hasher};

use vstd::prelude::*;

use crate::numfmt::{
    ascii_bytes, dec_digits, dec_value, hex_digits, zero_pad, lemma_dec_digits_value,
    lemma_hex_digits_len_u64, push_str_bytes, push_dec_u64, push_hex16_u64,
};

verus! {

/// Relies on `ahash::RandomState::with_seeds` and the standard `Hasher`
/// trait: hashes the input bytes with the fixed seeds (0, 0, 0, 0) and
/// returns the 64-bit digest. The digest can differ between builds and
/// machines, so nothing is assumed about its value.
#[verifier::external_body]
pub(crate) fn input_fingerprint(input: &[u8]) -> u64 {
    let mut hasher = ahash::RandomState::with_seeds(0, 0, 0, 0).build_hasher();
    hasher.write(input);
    hasher.finish()
}

/// The file name for fingerprint `h`: sixteen lower-case hexadecimal
/// digits, an optional `_<attempt>` probe suffix, and the trace
/// extension.
pub open spec fn spec_trace_name(h: u64, attempt: Option<u64>) -> Seq<u8> {
    zero_pad(hex_digits(h as nat), 16) + (match attempt {
        None => Seq::<u8>::empty(),
        Some(i) => seq![0x5fu8] + dec_digits(i as nat),
    }) + ascii_bytes(".drcov"@)
}

/// Builds the trace file name for fingerprint `h`; `attempt` is `None`
/// for the first candidate and `Some(i)` for the probe after `i` taken
/// names.
pub fn trace_file_name(h: u64, attempt: Option<u64>) -> (r: Vec<u8>)
    ensures
        r@ == spec_trace_name(h, attempt),
{
    let mut out: Vec<u8> = Vec::new();
    push_hex16_u64(&mut out, h);
    match attempt {
        None => {},
        Some(i) => {
            out.push(0x5f);
            push_dec_u64(&mut out, i);
        },
    }
    proof {
        reveal_strlit(".drcov");
        assert(vstd::string::is_ascii(".drcov"));
    }
    push_str_bytes(&mut out, ".drcov");
    proof {
        assert(out@ =~= spec_trace_name(h, attempt));
    }
    out
}

/// Distinct probe attempts give distinct names for the same fingerprint:
/// the unsuffixed name differs from every suffixed one, and suffixes
/// with different indices differ. Together with a probe loop that takes
/// the first free attempt, repeated identical inputs never reuse a
/// name.
pub proof fn lemma_trace_names_distinct(h: u64, a1: Option<u64>, a2: Option<u64>)
    requires
        a1 != a2,
    ensures
        spec_trace_name(h, a1) != spec_trace_name(h, a2),
{
    lemma_hex_digits_len_u64(h as nat);
    let p = zero_pad(hex_digits(h as nat), 16);
    assert(p.len() == 16);
    let ext = ascii_bytes(".drcov"@);
    assert(ext.len() == 6) by {
        reveal_strlit(".drcov");
    };
    match (a1, a2) {
        (None, None) => {
            assert(false);
        },
        (None, Some(j)) => {
            lemma_dec_digits_value(j as nat);
            assert(spec_trace_name(h, a1).len() == 22);
            assert(spec_trace_name(h, a2).len() >= 24);
        },
        (Some(i), None) => {
            lemma_dec_digits_value(i as nat);
            assert(spec_trace_name(h, a1).len() >= 24);
            assert(spec_trace_name(h, a2).len() == 22);
        },
        (Some(i), Some(j)) => {
            lemma_dec_digits_value(i as nat);
            lemma_dec_digits_value(j as nat);
            let di = dec_digits(i as nat);
            let dj = dec_digits(j as nat);
            let s1 = spec_trace_name(h, a1);
            let s2 = spec_trace_name(h, a2);
            if s1 == s2 {
                assert(s1.len() == 23 + di.len());
                assert(s2.len() == 23 + dj.len());
                assert(di.len() == dj.len());
                assert(di =~= dj) by {
                    assert(forall|t: int|
                        0 <= t < di.len() ==> s1[17 + t] == #[trigger] di[t]);
                    assert(forall|t: int|
                        0 <= t < dj.len() ==> s2[17 + t] == #[trigger] dj[t]);
                };
                assert(i as nat == dec_value(di));
                assert(j as nat == dec_value(dj));
                assert(false);
            }
        },
    }
}

} // verus!
