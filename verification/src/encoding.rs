//! Byte-level string utilities: exact string comparison, percent-encoding
//! of query-parameter values, and checked UTF-8 reassembly. URLs and form
//! bodies are assembled as UTF-8 byte vectors whose content is pinned down
//! by the spec functions here, then turned back into `String`s.

use vstd::prelude::*;
use vstd::std_specs::cmp::PartialEqSpec;
use vstd::string::StringSliceAdditionalSpecFns;
use vstd::utf8::{
    decode_utf8, encode_utf8, encode_utf8_decode_utf8, encode_utf8_valid_utf8,
    is_leading_byte_width_1, partial_valid_utf8, partial_valid_utf8_extend_ascii_block,
    valid_utf8, valid_utf8_concat,
};

verus! {

/// Bytes that percent-encoding leaves as they are (RFC 3986 unreserved:
/// ASCII letters, digits, `-`, `.`, `_`, `~`).
pub open spec fn is_unreserved_byte(b: u8) -> bool {
    (0x41 <= b <= 0x5a) || (0x61 <= b <= 0x7a) || (0x30 <= b <= 0x39) || b == 0x2d || b == 0x2e
        || b == 0x5f || b == 0x7e
}

/// The ASCII code of the upper-case hexadecimal digit for `n < 16`.
pub open spec fn hex_digit(n: u8) -> u8 {
    if n < 10 {
        (0x30 + n) as u8
    } else {
        (0x37 + n) as u8
    }
}

/// Percent-encoding of one byte.
pub open spec fn enc_byte(b: u8) -> Seq<u8> {
    if is_unreserved_byte(b) {
        seq![b]
    } else {
        seq![0x25u8, hex_digit(b / 16), hex_digit(b % 16)]
    }
}

/// Percent-encoding of a byte sequence.
pub open spec fn enc_bytes(s: Seq<u8>) -> Seq<u8>
    decreases s.len(),
{
    if s.len() == 0 {
        Seq::empty()
    } else {
        enc_byte(s[0]) + enc_bytes(s.drop_first())
    }
}

/// Percent-encoding of a string, applied to its UTF-8 bytes.
pub open spec fn enc_str(s: Seq<char>) -> Seq<u8> {
    enc_bytes(encode_utf8(s))
}

pub proof fn lemma_enc_bytes_concat(a: Seq<u8>, b: Seq<u8>)
    ensures
        enc_bytes(a + b) == enc_bytes(a) + enc_bytes(b),
    decreases a.len(),
{
    if a.len() == 0 {
        assert(a + b =~= b);
        assert(enc_bytes(a) + enc_bytes(b) =~= enc_bytes(b));
    } else {
        assert((a + b).drop_first() =~= a.drop_first() + b);
        lemma_enc_bytes_concat(a.drop_first(), b);
        assert(enc_bytes(a + b) =~= enc_bytes(a) + enc_bytes(b));
    }
}

pub proof fn lemma_enc_bytes_snoc(s: Seq<u8>, i: int)
    requires
        0 <= i < s.len(),
    ensures
        enc_bytes(s.subrange(0, i + 1)) == enc_bytes(s.subrange(0, i)) + enc_byte(s[i]),
{
    let one = seq![s[i]];
    assert(s.subrange(0, i + 1) =~= s.subrange(0, i) + one);
    lemma_enc_bytes_concat(s.subrange(0, i), one);
    assert(one.drop_first() =~= Seq::<u8>::empty());
    assert(enc_bytes(one) == enc_byte(one[0]) + enc_bytes(one.drop_first()));
    assert(enc_bytes(Seq::<u8>::empty()) =~= Seq::<u8>::empty());
    assert(one[0] == s[i]);
    assert(enc_bytes(one) =~= enc_byte(s[i]));
}

/// Every byte of a percent-encoded sequence is ASCII.
pub proof fn lemma_enc_bytes_ascii(s: Seq<u8>)
    ensures
        forall|i: int| 0 <= i < enc_bytes(s).len() ==> is_leading_byte_width_1(
            #[trigger] enc_bytes(s)[i],
        ),
    decreases s.len(),
{
    if s.len() != 0 {
        lemma_enc_bytes_ascii(s.drop_first());
        let head = enc_byte(s[0]);
        let tail = enc_bytes(s.drop_first());
        assert forall|i: int| 0 <= i < enc_bytes(s).len() implies is_leading_byte_width_1(
            #[trigger] enc_bytes(s)[i],
        ) by {
            assert(enc_bytes(s) == head + tail);
            if i < head.len() {
                assert(enc_bytes(s)[i] == head[i]);
                if !is_unreserved_byte(s[0]) {
                    assert(head[i] == 0x25u8 || head[i] == hex_digit(s[0] / 16) || head[i]
                        == hex_digit(s[0] % 16));
                    assert(s[0] / 16 < 16 && s[0] % 16 < 16);
                }
            } else {
                assert(enc_bytes(s)[i] == tail[i - head.len()]);
            }
        }
    }
}

/// An all-ASCII byte sequence is valid UTF-8.
pub proof fn lemma_ascii_valid_utf8(s: Seq<u8>)
    requires
        forall|i: int| 0 <= i < s.len() ==> is_leading_byte_width_1(#[trigger] s[i]),
    ensures
        valid_utf8(s),
{
    assert(s.subrange(0, 0) =~= Seq::<u8>::empty());
    assert(partial_valid_utf8(s, 0));
    partial_valid_utf8_extend_ascii_block(s, 0, s.len() as int);
    assert(s.subrange(0, s.len() as int) =~= s);
}

/// Exact string equality: `true` iff the two views agree.
pub fn str_eq(a: &str, b: &str) -> (r: bool)
    ensures
        r == (a@ == b@),
{
    let av = a.as_bytes_vec();
    let bv = b.as_bytes_vec();
    let same = av == bv;
    proof {
        if same {
            assert(av@ =~= bv@);
            encode_utf8_decode_utf8(a@);
            encode_utf8_decode_utf8(b@);
        } else {
            if a@ == b@ {
                assert(av@ =~= bv@);
                assert(av.eq_spec(&bv));
            }
        }
    }
    same
}

/// Appends the UTF-8 bytes of `s` unchanged.
pub fn append_lit(out: &mut Vec<u8>, s: &str)
    ensures
        final(out)@ == old(out)@ + s.spec_bytes(),
        valid_utf8(old(out)@) ==> valid_utf8(final(out)@),
{
    let b = s.as_bytes();
    out.extend_from_slice(b);
    proof {
        if valid_utf8(old(out)@) {
            encode_utf8_valid_utf8(s@);
            valid_utf8_concat(old(out)@, s.spec_bytes());
        }
    }
}

/// Appends the percent-encoding of the UTF-8 bytes of `s`.
pub fn append_encoded(out: &mut Vec<u8>, s: &str)
    ensures
        final(out)@ == old(out)@ + enc_str(s@),
        valid_utf8(old(out)@) ==> valid_utf8(final(out)@),
{
    proof {
        if valid_utf8(old(out)@) {
            lemma_enc_str_valid_utf8(s@);
            valid_utf8_concat(old(out)@, enc_str(s@));
        }
    }
    let bytes = s.as_bytes();
    let n = bytes.len();
    let mut i: usize = 0;
    proof {
        assert(out@ =~= old(out)@ + enc_bytes(bytes@.subrange(0, 0)));
    }
    while i < n
        invariant
            n == bytes@.len(),
            i <= n,
            out@ == old(out)@ + enc_bytes(bytes@.subrange(0, i as int)),
        decreases n - i,
    {
        let b = vstd::slice::slice_index_get(bytes, i);
        let b = *b;
        if (0x41 <= b && b <= 0x5a) || (0x61 <= b && b <= 0x7a) || (0x30 <= b && b <= 0x39) || b
            == 0x2d || b == 0x2e || b == 0x5f || b == 0x7e {
            out.push(b);
        } else {
            out.push(0x25);
            let hi = b / 16;
            let lo = b % 16;
            out.push(if hi < 10 { 0x30 + hi } else { 0x37 + hi });
            out.push(if lo < 10 { 0x30 + lo } else { 0x37 + lo });
        }
        proof {
            lemma_enc_bytes_snoc(bytes@, i as int);
            assert(out@ =~= old(out)@ + enc_bytes(bytes@.subrange(0, i as int + 1)));
        }
        i = i + 1;
    }
    proof {
        assert(bytes@.subrange(0, n as int) =~= bytes@);
    }
}

/// Rebuilds a `String` from bytes known to be valid UTF-8.
pub fn utf8_to_string(v: Vec<u8>) -> (r: String)
    requires
        valid_utf8(v@),
    ensures
        encode_utf8(r@) == v@,
        r@ == decode_utf8(v@),
{
    let ghost bytes = v@;
    match crate::crypto::bytes_to_string(v) {
        Some(s) => s,
        None => {
            proof {
                assert(false);
            }
            vstd::pervasive::unreached()
        },
    }
}

/// A percent-encoded value is valid UTF-8 (it is all ASCII), and so is the
/// concatenation of literal UTF-8 pieces with encoded pieces.
pub proof fn lemma_enc_str_valid_utf8(s: Seq<char>)
    ensures
        valid_utf8(enc_str(s)),
{
    lemma_enc_bytes_ascii(encode_utf8(s));
    lemma_ascii_valid_utf8(enc_str(s));
}

} // verus!
