//! Session codec: turns a validated [`Session`] into an opaque,
//! integrity-protected token and back.
//!
//! A session is serialized into length-prefixed byte blocks, framed with
//! its length, authenticated with HMAC-SHA-256 and base64url-encoded.
//! Decoding verifies the tag, re-checks the recorded expiry against the
//! caller's clock, and is proved to invert encoding exactly; a token that
//! does not carry a correct tag for its payload decodes to `None`.

use vstd::prelude::*;
use vstd::bytes::{
    lemma_auto_spec_u64_to_from_le_bytes, spec_u64_from_le_bytes, spec_u64_to_le_bytes,
    u64_from_le_bytes, u64_to_le_bytes,
};
use vstd::std_specs::cmp::PartialEqSpec;
use vstd::string::StringSliceAdditionalSpecFns;
use vstd::utf8::{
    decode_utf8, encode_utf8, encode_utf8_decode_utf8, encode_utf8_valid_utf8, valid_utf8,
};
use crate::crypto;
use crate::crypto::{b64url_of, mac_of};

verus! {

broadcast use encode_utf8_valid_utf8, encode_utf8_decode_utf8;

/// A session established by a completed, fully validated login.
pub struct Session {
    /// Subject claim of the validated identity token.
    pub subject: String,
    /// Issuer that signed the identity token.
    pub issuer: String,
    /// Audience values the identity token was issued for.
    pub audience: Vec<String>,
    /// Expiry, seconds since the epoch.
    pub exp: u64,
    /// Issued-at, seconds since the epoch.
    pub iat: u64,
    /// The access token returned by the exchange, opaque to this crate.
    pub access_token: String,
    /// The refresh token, if the provider returned one.
    pub refresh_token: Option<String>,
}

/// Two sessions that agree in every observable field.
pub open spec fn session_eq(a: Session, b: Session) -> bool {
    &&& a.subject@ == b.subject@
    &&& a.issuer@ == b.issuer@
    &&& a.audience.deep_view() == b.audience.deep_view()
    &&& a.exp == b.exp
    &&& a.iat == b.iat
    &&& a.access_token@ == b.access_token@
    &&& a.refresh_token.deep_view() == b.refresh_token.deep_view()
}

/// One length-prefixed block: the UTF-8 bytes of `s` after their length.
pub open spec fn str_block(s: Seq<char>) -> Seq<u8> {
    spec_u64_to_le_bytes(encode_utf8(s).len() as u64) + encode_utf8(s)
}

/// The length prefix is only faithful while the content fits it.
pub open spec fn str_block_wf(s: Seq<char>) -> bool {
    encode_utf8(s).len() <= u64::MAX
}

/// The blocks of every element of `a`, in order.
pub open spec fn blocks(a: Seq<Seq<char>>) -> Seq<u8>
    decreases a.len(),
{
    if a.len() == 0 {
        Seq::empty()
    } else {
        str_block(a[0]) + blocks(a.drop_first())
    }
}

pub open spec fn blocks_wf(a: Seq<Seq<char>>) -> bool {
    forall|i: int| 0 <= i < a.len() ==> str_block_wf(#[trigger] a[i])
}

/// An optional block: a presence byte, then the block itself.
pub open spec fn opt_block(o: Option<Seq<char>>) -> Seq<u8> {
    match o {
        None => seq![0u8],
        Some(s) => seq![1u8] + str_block(s),
    }
}

pub open spec fn opt_wf(o: Option<Seq<char>>) -> bool {
    o matches Some(s) ==> str_block_wf(s)
}

/// The byte serialization of a session.
pub open spec fn session_bytes(s: Session) -> Seq<u8> {
    str_block(s.subject@) + str_block(s.issuer@) + spec_u64_to_le_bytes(
        s.audience.deep_view().len() as u64,
    ) + blocks(s.audience.deep_view()) + spec_u64_to_le_bytes(s.exp) + spec_u64_to_le_bytes(s.iat)
        + str_block(s.access_token@) + opt_block(s.refresh_token.deep_view())
}

/// The length prefixes inside `session_bytes(s)` are faithful.
pub open spec fn session_len_wf(s: Session) -> bool {
    &&& str_block_wf(s.subject@)
    &&& str_block_wf(s.issuer@)
    &&& s.audience.deep_view().len() <= u64::MAX
    &&& blocks_wf(s.audience.deep_view())
    &&& str_block_wf(s.access_token@)
    &&& opt_wf(s.refresh_token.deep_view())
    &&& session_bytes(s).len() <= u64::MAX
}

/// The signed, encoded form of a byte payload: its length, the payload,
/// and an HMAC-SHA-256 tag over the payload, base64url-encoded.
pub open spec fn blob_token(payload: Seq<u8>, key: Seq<u8>) -> Seq<char> {
    b64url_of(spec_u64_to_le_bytes(payload.len() as u64) + payload + mac_of(key, payload))
}

/// The token that `encode_session` produces.
pub open spec fn session_token(s: Session, key: Seq<u8>) -> Seq<char> {
    blob_token(session_bytes(s), key)
}

/// Splitting a suffix known to be `pre + rest` at the end of `pre`.
proof fn lemma_split_prefix(w: Seq<u8>, pre: Seq<u8>, rest: Seq<u8>, pos: int)
    requires
        0 <= pos <= w.len(),
        w.subrange(pos, w.len() as int) == pre + rest,
    ensures
        pos + pre.len() + rest.len() == w.len(),
        w.subrange(pos, pos + pre.len()) == pre,
        w.subrange(pos + pre.len(), w.len() as int) == rest,
{
    let su = w.subrange(pos, w.len() as int);
    assert(su.len() == w.len() - pos);
    assert(w.subrange(pos, pos + pre.len()) =~= pre);
    assert forall|i: int| 0 <= i < rest.len() implies w[pos + pre.len() + i] == rest[i] by {
        assert(su[pre.len() + i] == rest[i]);
        assert(su[pre.len() + i] == w[pos + pre.len() + i]);
    }
    assert(w.subrange(pos + pre.len(), w.len() as int) =~= rest);
}

/// A subrange taken in two steps equals the one piece.
proof fn lemma_glue(w: Seq<u8>, a: int, b: int, c: int)
    requires
        0 <= a <= b <= c <= w.len(),
    ensures
        w.subrange(a, c) == w.subrange(a, b) + w.subrange(b, c),
{
    assert(w.subrange(a, c) =~= w.subrange(a, b) + w.subrange(b, c));
}

/// `blocks` of a one-element list is that element's block.
proof fn lemma_blocks_singleton(x: Seq<char>)
    ensures
        blocks(seq![x]) == str_block(x),
{
    let one = seq![x];
    assert(one.len() == 1);
    assert(one[0] == x);
    assert(one.drop_first() =~= Seq::<Seq<char>>::empty());
    assert(blocks(Seq::<Seq<char>>::empty()) == Seq::<u8>::empty());
    assert(blocks(one) == str_block(x) + blocks(one.drop_first()));
    assert(str_block(x) + Seq::<u8>::empty() =~= str_block(x));
}

/// Serialization distributes over list concatenation.
proof fn lemma_blocks_concat(x: Seq<Seq<char>>, y: Seq<Seq<char>>)
    ensures
        blocks(x + y) == blocks(x) + blocks(y),
    decreases x.len(),
{
    if x.len() == 0 {
        assert(x + y =~= y);
        assert(blocks(x) + blocks(y) =~= blocks(y));
    } else {
        assert((x + y).drop_first() =~= x.drop_first() + y);
        lemma_blocks_concat(x.drop_first(), y);
        assert(blocks(x + y) =~= blocks(x) + blocks(y));
    }
}

// ---------- offsets of the session fields inside `session_bytes` ----------

pub open spec fn sb_q1(s: Session) -> int {
    str_block(s.subject@).len() as int
}

pub open spec fn sb_q2(s: Session) -> int {
    sb_q1(s) + str_block(s.issuer@).len()
}

pub open spec fn sb_q3(s: Session) -> int {
    sb_q2(s) + 8
}

pub open spec fn sb_q4(s: Session) -> int {
    sb_q3(s) + blocks(s.audience.deep_view()).len()
}

pub open spec fn sb_q5(s: Session) -> int {
    sb_q4(s) + 8
}

pub open spec fn sb_q6(s: Session) -> int {
    sb_q5(s) + 8
}

pub open spec fn sb_q7(s: Session) -> int {
    sb_q6(s) + str_block(s.access_token@).len()
}

/// How `session_bytes(s)` splits at each field boundary, stated in the
/// shapes the block readers trigger on.
proof fn lemma_session_layout(s: Session)
    ensures
        ({
            let w = session_bytes(s);
            let a = s.audience.deep_view();
            &&& 0 <= sb_q1(s) <= sb_q2(s) <= sb_q3(s) <= sb_q4(s) <= sb_q5(s) <= sb_q6(s) <= sb_q7(
                s,
            ) <= w.len()
            &&& w.subrange(0, w.len() as int) == str_block(s.subject@) + w.subrange(
                sb_q1(s),
                w.len() as int,
            )
            &&& w.subrange(sb_q1(s), w.len() as int) == str_block(s.issuer@) + w.subrange(
                sb_q2(s),
                w.len() as int,
            )
            &&& w.subrange(sb_q2(s), sb_q2(s) + 8) == spec_u64_to_le_bytes(a.len() as u64)
            &&& w.subrange(sb_q3(s), w.len() as int) == blocks(a) + w.subrange(
                sb_q4(s),
                w.len() as int,
            )
            &&& w.subrange(sb_q4(s), sb_q4(s) + 8) == spec_u64_to_le_bytes(s.exp)
            &&& w.subrange(sb_q5(s), sb_q5(s) + 8) == spec_u64_to_le_bytes(s.iat)
            &&& w.subrange(sb_q6(s), w.len() as int) == str_block(s.access_token@) + w.subrange(
                sb_q7(s),
                w.len() as int,
            )
            &&& w.subrange(sb_q7(s), w.len() as int) == opt_block(s.refresh_token.deep_view())
                + Seq::<u8>::empty()
            &&& sb_q7(s) + opt_block(s.refresh_token.deep_view()).len() == w.len()
        }),
{
    lemma_auto_spec_u64_to_from_le_bytes();
    let w = session_bytes(s);
    let a = s.audience.deep_view();
    let b1 = str_block(s.subject@);
    let b2 = str_block(s.issuer@);
    let b3 = spec_u64_to_le_bytes(a.len() as u64);
    let b4 = blocks(a);
    let b5 = spec_u64_to_le_bytes(s.exp);
    let b6 = spec_u64_to_le_bytes(s.iat);
    let b7 = str_block(s.access_token@);
    let b8 = opt_block(s.refresh_token.deep_view());
    let r7 = b8;
    let r6 = b7 + r7;
    let r5 = b6 + r6;
    let r4 = b5 + r5;
    let r3 = b4 + r4;
    let r2 = b3 + r3;
    let r1 = b2 + r2;
    assert(w =~= b1 + r1);
    assert(w.subrange(0, w.len() as int) =~= w);
    lemma_split_prefix(w, b1, r1, 0);
    lemma_split_prefix(w, b2, r2, sb_q1(s));
    lemma_split_prefix(w, b3, r3, sb_q2(s));
    lemma_split_prefix(w, b4, r4, sb_q3(s));
    lemma_split_prefix(w, b5, r5, sb_q4(s));
    lemma_split_prefix(w, b6, r6, sb_q5(s));
    lemma_split_prefix(w, b7, r7, sb_q6(s));
    assert(w.subrange(0, w.len() as int) =~= b1 + w.subrange(sb_q1(s), w.len() as int));
    assert(w.subrange(sb_q1(s), w.len() as int) =~= b2 + w.subrange(sb_q2(s), w.len() as int));
    assert(w.subrange(sb_q3(s), w.len() as int) =~= b4 + w.subrange(sb_q4(s), w.len() as int));
    assert(w.subrange(sb_q6(s), w.len() as int) =~= b7 + w.subrange(sb_q7(s), w.len() as int));
    assert(w.subrange(sb_q7(s), w.len() as int) =~= b8 + Seq::<u8>::empty());
}

// ---------- serialization ----------

/// Appends the little-endian bytes of `x`.
fn push_u64(out: &mut Vec<u8>, x: u64)
    ensures
        final(out)@ == old(out)@ + spec_u64_to_le_bytes(x),
{
    let mut b = u64_to_le_bytes(x);
    out.append(&mut b);
}

/// Appends one length-prefixed block.
fn push_str_block(out: &mut Vec<u8>, s: &str)
    ensures
        final(out)@ == old(out)@ + str_block(s@),
        str_block_wf(s@),
{
    let b = s.as_bytes();
    push_u64(out, b.len() as u64);
    out.extend_from_slice(b);
}

/// Serializes a session; the exact content is `session_bytes`.
pub fn session_to_bytes(s: &Session) -> (out: Vec<u8>)
    ensures
        out@ == session_bytes(*s),
        session_len_wf(*s),
{
    let ghost a = s.audience.deep_view();
    let mut out: Vec<u8> = Vec::new();
    push_str_block(&mut out, s.subject.as_str());
    push_str_block(&mut out, s.issuer.as_str());
    push_u64(&mut out, s.audience.len() as u64);
    let ghost base = out@;
    let n = s.audience.len();
    let mut i: usize = 0;
    proof {
        assert(a.len() == n);
        assert(a.subrange(0, 0) =~= Seq::<Seq<char>>::empty());
        assert(out@ =~= base + blocks(a.subrange(0, 0)));
    }
    while i < n
        invariant
            n == s.audience@.len(),
            a == s.audience.deep_view(),
            i <= n,
            out@ == base + blocks(a.subrange(0, i as int)),
            forall|j: int| 0 <= j < i ==> str_block_wf(#[trigger] a[j]),
        decreases n - i,
    {
        push_str_block(&mut out, s.audience[i].as_str());
        proof {
            assert(a[i as int] == s.audience@[i as int]@);
            let one = seq![a[i as int]];
            assert(a.subrange(0, i as int + 1) =~= a.subrange(0, i as int) + one);
            lemma_blocks_concat(a.subrange(0, i as int), one);
            lemma_blocks_singleton(a[i as int]);
            assert(out@ =~= base + blocks(a.subrange(0, i as int + 1)));
        }
        i = i + 1;
    }
    proof {
        assert(a.subrange(0, n as int) =~= a);
    }
    push_u64(&mut out, s.exp);
    push_u64(&mut out, s.iat);
    push_str_block(&mut out, s.access_token.as_str());
    match &s.refresh_token {
        None => {
            out.push(0u8);
            proof {
                assert(s.refresh_token.deep_view() is None);
                assert(opt_block(s.refresh_token.deep_view()) =~= seq![0u8]);
            }
        },
        Some(t) => {
            out.push(1u8);
            push_str_block(&mut out, t.as_str());
            proof {
                assert(s.refresh_token.deep_view() == Some(t@));
                assert(opt_block(s.refresh_token.deep_view()) =~= seq![1u8] + str_block(t@));
            }
        },
    }
    proof {
        lemma_auto_spec_u64_to_from_le_bytes();
        assert(out@ =~= session_bytes(*s));
        let l = out.len();
        assert(session_bytes(*s).len() <= u64::MAX);
    }
    out
}

// ---------- parsing ----------

/// Reads eight bytes as a little-endian integer.
fn read_u64(data: &Vec<u8>, pos: usize) -> (r: Option<(u64, usize)>)
    ensures
        r is None <==> pos + 8 > data@.len(),
        r matches Some(v) ==> pos + 8 <= data@.len() && v.1 == pos + 8 && v.0
            == spec_u64_from_le_bytes(data@.subrange(pos as int, pos as int + 8)),
{
    if pos > data.len() || data.len() - pos < 8 {
        return None;
    }
    let s = vstd::slice::slice_subrange(data.as_slice(), pos, pos + 8);
    let x = u64_from_le_bytes(s);
    Some((x, pos + 8))
}

/// Reads one length-prefixed block. Whenever the input from `pos` on is a
/// faithful block followed by anything, the block's exact content comes
/// back.
fn read_block(data: &Vec<u8>, pos: usize) -> (r: Option<(String, usize)>)
    requires
        pos <= data@.len(),
    ensures
        r matches Some(v) ==> pos <= v.1 <= data@.len() && str_block_wf(v.0@)
            && data@.subrange(pos as int, v.1 as int) == str_block(v.0@),
        forall|x: Seq<char>, rest: Seq<u8>|
            str_block_wf(x) && data@.subrange(pos as int, data@.len() as int) == #[trigger] (
            str_block(x) + rest) ==> (r matches Some(v) && v.0@ == x && v.1 == pos + str_block(
                x,
            ).len()),
{
    proof {
        lemma_auto_spec_u64_to_from_le_bytes();
    }
    let first = read_u64(data, pos);
    let (len64, p) = match first {
        Some(v) => v,
        None => {
            proof {
                assert forall|x: Seq<char>, rest: Seq<u8>|
                    str_block_wf(x) && data@.subrange(pos as int, data@.len() as int) == (str_block(
                        x,
                    ) + rest) implies false by {
                    assert(str_block(x).len() >= 8);
                    assert(data@.subrange(pos as int, data@.len() as int).len() >= 8);
                }
            }
            return None;
        },
    };
    if len64 > (data.len() - p) as u64 {
        proof {
            assert forall|x: Seq<char>, rest: Seq<u8>|
                str_block_wf(x) && data@.subrange(pos as int, data@.len() as int) == (str_block(x)
                    + rest) implies false by {
                assert(str_block(x) + rest =~= spec_u64_to_le_bytes(encode_utf8(x).len() as u64) + (
                encode_utf8(x) + rest));
                lemma_split_prefix(
                    data@,
                    spec_u64_to_le_bytes(encode_utf8(x).len() as u64),
                    encode_utf8(x) + rest,
                    pos as int,
                );
                assert(len64 == encode_utf8(x).len());
                assert(pos + 8 + (encode_utf8(x) + rest).len() == data@.len());
                assert(encode_utf8(x).len() <= data@.len() - p);
            }
        }
        return None;
    }
    let l = len64 as usize;
    let bytes = vstd::slice::slice_to_vec(vstd::slice::slice_subrange(data.as_slice(), p, p + l));
    let ghost consumed = data@.subrange(p as int, p as int + l as int);
    let parsed = crate::crypto::bytes_to_string(bytes);
    match parsed {
        Some(s) => {
            proof {
                assert(spec_u64_to_le_bytes(
                    spec_u64_from_le_bytes(data@.subrange(pos as int, pos as int + 8)),
                ) == data@.subrange(pos as int, pos as int + 8));
                assert(encode_utf8(s@) == consumed);
                assert((encode_utf8(s@).len() as u64) == len64);
                lemma_glue(data@, pos as int, p as int, p as int + l as int);
                assert(data@.subrange(pos as int, (p + l) as int) == str_block(s@));
                assert forall|x: Seq<char>, rest: Seq<u8>|
                    str_block_wf(x) && data@.subrange(pos as int, data@.len() as int) == (str_block(
                        x,
                    ) + rest) implies s@ == x && p + l == pos + str_block(x).len() by {
                    assert(str_block(x) + rest =~= spec_u64_to_le_bytes(
                        encode_utf8(x).len() as u64,
                    ) + (encode_utf8(x) + rest));
                    lemma_split_prefix(
                        data@,
                        spec_u64_to_le_bytes(encode_utf8(x).len() as u64),
                        encode_utf8(x) + rest,
                        pos as int,
                    );
                    assert(len64 == encode_utf8(x).len());
                    lemma_split_prefix(data@, encode_utf8(x), rest, p as int);
                    assert(consumed == encode_utf8(x));
                    assert(s@ == decode_utf8(encode_utf8(x)));
                }
            }
            Some((s, p + l))
        },
        None => {
            proof {
                assert forall|x: Seq<char>, rest: Seq<u8>|
                    str_block_wf(x) && data@.subrange(pos as int, data@.len() as int) == (str_block(
                        x,
                    ) + rest) implies false by {
                    assert(str_block(x) + rest =~= spec_u64_to_le_bytes(
                        encode_utf8(x).len() as u64,
                    ) + (encode_utf8(x) + rest));
                    lemma_split_prefix(
                        data@,
                        spec_u64_to_le_bytes(encode_utf8(x).len() as u64),
                        encode_utf8(x) + rest,
                        pos as int,
                    );
                    assert(len64 == encode_utf8(x).len());
                    lemma_split_prefix(data@, encode_utf8(x), rest, p as int);
                    assert(consumed == encode_utf8(x));
                    assert(valid_utf8(consumed));
                }
            }
            None
        },
    }
}

/// Reads `count` consecutive blocks.
fn read_blocks(data: &Vec<u8>, pos: usize, count: u64) -> (r: Option<(Vec<String>, usize)>)
    requires
        pos <= data@.len(),
    ensures
        r matches Some(v) ==> pos <= v.1 <= data@.len() && v.0@.len() == count && blocks_wf(
            v.0.deep_view(),
        ) && data@.subrange(pos as int, v.1 as int) == blocks(v.0.deep_view()),
        forall|a: Seq<Seq<char>>, rest: Seq<u8>|
            a.len() == count && blocks_wf(a) && data@.subrange(pos as int, data@.len() as int)
                == #[trigger] (blocks(a) + rest) ==> (r matches Some(v) && v.0.deep_view() == a
                && v.1 == pos + blocks(a).len()),
{
    let mut out: Vec<String> = Vec::new();
    let mut p = pos;
    let mut k: u64 = 0;
    proof {
        assert forall|a: Seq<Seq<char>>, rest: Seq<u8>|
            a.len() == count && blocks_wf(a) && data@.subrange(pos as int, data@.len() as int)
                == #[trigger] (blocks(a) + rest) implies {
            &&& out.deep_view() == a.subrange(0, 0)
            &&& p == pos + blocks(a.subrange(0, 0)).len()
            &&& data@.subrange(p as int, data@.len() as int) == blocks(a.skip(0)) + rest
        } by {
            assert(a.subrange(0, 0) =~= Seq::<Seq<char>>::empty());
            assert(blocks(Seq::<Seq<char>>::empty()) == Seq::<u8>::empty());
            assert(out.deep_view() =~= a.subrange(0, 0));
            assert(a.skip(0) =~= a);
        }
    }
    proof {
        assert(out.deep_view() =~= Seq::<Seq<char>>::empty());
        assert(blocks(Seq::<Seq<char>>::empty()) == Seq::<u8>::empty());
        assert(data@.subrange(pos as int, pos as int) =~= Seq::<u8>::empty());
    }
    while k < count
        invariant
            pos <= p <= data@.len(),
            k <= count,
            out@.len() == k,
            blocks_wf(out.deep_view()),
            data@.subrange(pos as int, p as int) == blocks(out.deep_view()),
            forall|a: Seq<Seq<char>>, rest: Seq<u8>|
                a.len() == count && blocks_wf(a) && data@.subrange(pos as int, data@.len() as int)
                    == #[trigger] (blocks(a) + rest) ==> {
                    &&& out.deep_view() == a.subrange(0, k as int)
                    &&& p == pos + blocks(a.subrange(0, k as int)).len()
                    &&& data@.subrange(p as int, data@.len() as int) == blocks(
                        a.skip(k as int),
                    ) + rest
                },
        decreases count - k,
    {
        let step = read_block(data, p);
        match step {
            Some((sv, p2)) => {
                let ghost prev_dv = out.deep_view();
                out.push(sv);
                proof {
                    assert(out.deep_view() =~= prev_dv + seq![sv@]);
                    lemma_blocks_concat(prev_dv, seq![sv@]);
                    lemma_blocks_singleton(sv@);
                    lemma_glue(data@, pos as int, p as int, p2 as int);
                    assert(data@.subrange(pos as int, p2 as int) == blocks(out.deep_view()));
                    assert forall|j: int|
                        0 <= j < out.deep_view().len() implies str_block_wf(
                        #[trigger] out.deep_view()[j],
                    ) by {
                        if j < prev_dv.len() {
                            assert(out.deep_view()[j] == prev_dv[j]);
                        } else {
                            assert(out.deep_view()[j] == sv@);
                        }
                    }
                    assert forall|a: Seq<Seq<char>>, rest: Seq<u8>|
                        a.len() == count && blocks_wf(a) && data@.subrange(
                            pos as int,
                            data@.len() as int,
                        ) == #[trigger] (blocks(a) + rest) implies {
                        &&& out.deep_view() == a.subrange(0, k as int + 1)
                        &&& p2 == pos + blocks(a.subrange(0, k as int + 1)).len()
                        &&& data@.subrange(p2 as int, data@.len() as int) == blocks(
                            a.skip(k as int + 1),
                        ) + rest
                    } by {
                        let tail = a.skip(k as int);
                        assert(tail[0] == a[k as int]);
                        assert(tail.drop_first() =~= a.skip(k as int + 1));
                        assert(blocks(tail) == str_block(a[k as int]) + blocks(
                            a.skip(k as int + 1),
                        ));
                        assert(data@.subrange(p as int, data@.len() as int) =~= str_block(
                            a[k as int],
                        ) + (blocks(a.skip(k as int + 1)) + rest));
                        assert(sv@ == a[k as int] && p2 == p + str_block(a[k as int]).len());
                        lemma_split_prefix(
                            data@,
                            str_block(a[k as int]),
                            blocks(a.skip(k as int + 1)) + rest,
                            p as int,
                        );
                        assert(out.deep_view() =~= a.subrange(0, k as int + 1));
                        let front = a.subrange(0, k as int);
                        let one = seq![a[k as int]];
                        assert(a.subrange(0, k as int + 1) =~= front + one);
                        lemma_blocks_concat(front, one);
                        lemma_blocks_singleton(a[k as int]);
                    }
                }
                p = p2;
            },
            None => {
                proof {
                    assert forall|a: Seq<Seq<char>>, rest: Seq<u8>|
                        a.len() == count && blocks_wf(a) && data@.subrange(
                            pos as int,
                            data@.len() as int,
                        ) == #[trigger] (blocks(a) + rest) implies false by {
                        let tail = a.skip(k as int);
                        assert(tail[0] == a[k as int]);
                        assert(tail.drop_first() =~= a.skip(k as int + 1));
                        assert(blocks(tail) == str_block(a[k as int]) + blocks(
                            a.skip(k as int + 1),
                        ));
                        assert(data@.subrange(p as int, data@.len() as int) =~= str_block(
                            a[k as int],
                        ) + (blocks(a.skip(k as int + 1)) + rest));
                    }
                }
                return None;
            },
        }
        k = k + 1;
    }
    proof {
        assert forall|a: Seq<Seq<char>>, rest: Seq<u8>|
            a.len() == count && blocks_wf(a) && data@.subrange(pos as int, data@.len() as int)
                == #[trigger] (blocks(a) + rest) implies out.deep_view() == a && p == pos + blocks(
            a,
        ).len() by {
            assert(a.subrange(0, k as int) =~= a);
        }
    }
    Some((out, p))
}

/// Reads an optional block.
fn read_opt_block(data: &Vec<u8>, pos: usize) -> (r: Option<(Option<String>, usize)>)
    requires
        pos <= data@.len(),
    ensures
        r matches Some(v) ==> pos <= v.1 <= data@.len() && opt_wf(v.0.deep_view())
            && data@.subrange(pos as int, v.1 as int) == opt_block(v.0.deep_view()),
        forall|o: Option<Seq<char>>, rest: Seq<u8>|
            opt_wf(o) && data@.subrange(pos as int, data@.len() as int) == #[trigger] (opt_block(o)
                + rest) ==> (r matches Some(v) && v.0.deep_view() == o && v.1 == pos + opt_block(
                o,
            ).len()),
{
    if pos >= data.len() {
        proof {
            assert forall|o: Option<Seq<char>>, rest: Seq<u8>|
                opt_wf(o) && data@.subrange(pos as int, data@.len() as int) == (opt_block(o) + rest)
                    implies false by {
                lemma_opt_block_split(data@, pos as int, o, rest);
            }
        }
        return None;
    }
    let tag = data[pos];
    if tag == 0 {
        let r: Option<(Option<String>, usize)> = Some((None, pos + 1));
        proof {
            assert(Option::<String>::None.deep_view() is None);
            assert(data@.subrange(pos as int, pos as int + 1) =~= seq![0u8]);
            assert(opt_block(Option::<Seq<char>>::None) == seq![0u8]);
            assert forall|o: Option<Seq<char>>, rest: Seq<u8>|
                opt_wf(o) && data@.subrange(pos as int, data@.len() as int) == (opt_block(o) + rest)
                    implies (o is None && pos + 1 == pos + opt_block(o).len()) by {
                lemma_opt_block_split(data@, pos as int, o, rest);
            }
        }
        r
    } else if tag == 1 {
        let step = read_block(data, pos + 1);
        match step {
            Some((s, p)) => {
                let r: Option<(Option<String>, usize)> = Some((Some(s), p));
                proof {
                    assert(Option::Some(s).deep_view() == Option::Some(s@));
                    lemma_glue(data@, pos as int, pos as int + 1, p as int);
                    assert(data@.subrange(pos as int, pos as int + 1) =~= seq![1u8]);
                    assert(opt_block(Some(s@)) == seq![1u8] + str_block(s@));
                    assert(data@.subrange(pos as int, p as int) == opt_block(Some(s@)));
                    assert forall|o: Option<Seq<char>>, rest: Seq<u8>|
                        opt_wf(o) && data@.subrange(pos as int, data@.len() as int) == (opt_block(o)
                            + rest) implies (o matches Some(x) && s@ == x && p == pos + opt_block(
                        o,
                    ).len()) by {
                        lemma_opt_block_split(data@, pos as int, o, rest);
                    }
                }
                r
            },
            None => {
                proof {
                    assert forall|o: Option<Seq<char>>, rest: Seq<u8>|
                        opt_wf(o) && data@.subrange(pos as int, data@.len() as int) == (opt_block(o)
                            + rest) implies false by {
                        lemma_opt_block_split(data@, pos as int, o, rest);
                    }
                }
                None
            },
        }
    } else {
        proof {
            assert forall|o: Option<Seq<char>>, rest: Seq<u8>|
                opt_wf(o) && data@.subrange(pos as int, data@.len() as int) == (opt_block(o) + rest)
                    implies false by {
                lemma_opt_block_split(data@, pos as int, o, rest);
            }
        }
        None
    }
}

/// How a suffix that starts with an optional block splits: the presence
/// byte, then (when present) the block itself.
proof fn lemma_opt_block_split(w: Seq<u8>, pos: int, o: Option<Seq<char>>, rest: Seq<u8>)
    requires
        0 <= pos <= w.len(),
        w.subrange(pos, w.len() as int) == opt_block(o) + rest,
    ensures
        pos < w.len(),
        o is None ==> w[pos] == 0u8 && opt_block(o).len() == 1,
        o matches Some(x) ==> w[pos] == 1u8 && w.subrange(pos + 1, w.len() as int) == str_block(x)
            + rest && opt_block(o).len() == 1 + str_block(x).len(),
{
    let su = w.subrange(pos, w.len() as int);
    assert(su.len() == w.len() - pos);
    assert(opt_block(o).len() >= 1);
    assert(su[0] == (opt_block(o) + rest)[0]);
    assert((opt_block(o) + rest)[0] == opt_block(o)[0]);
    assert(w[pos] == su[0]);
    match o {
        Some(x) => {
            assert(opt_block(o) == seq![1u8] + str_block(x));
            assert(opt_block(o)[0] == 1u8);
            assert(opt_block(o) + rest =~= seq![1u8] + (str_block(x) + rest));
            lemma_split_prefix(w, seq![1u8], str_block(x) + rest, pos);
        },
        None => {
            assert(opt_block(o) == seq![0u8]);
            assert(opt_block(o)[0] == 0u8);
        },
    }
}

/// Rebuilds a session from `session_bytes`; any input that is the faithful
/// serialization of a session yields exactly that session.
#[verifier::rlimit(100)]
pub(crate) fn session_from_bytes(data: &Vec<u8>) -> (r: Option<Session>)
    ensures
        r matches Some(s2) ==> session_len_wf(s2) && data@ == session_bytes(s2),
        forall|s: Session|
            session_len_wf(s) && data@ == #[trigger] session_bytes(s) ==> (r matches Some(s2)
                && session_eq(s2, s)),
{
    proof {
        lemma_auto_spec_u64_to_from_le_bytes();
    }
    let n = data.len();
    let r1 = read_block(data, 0);
    let (subject, p1) = match r1 {
        Some(v) => v,
        None => {
            proof {
                assert forall|s: Session|
                    session_len_wf(s) && data@ == #[trigger] session_bytes(s) implies false by {
                    lemma_session_layout(s);
                }
            }
            return None;
        },
    };
    let r2 = read_block(data, p1);
    let (issuer, p2) = match r2 {
        Some(v) => v,
        None => {
            proof {
                assert forall|s: Session|
                    session_len_wf(s) && data@ == #[trigger] session_bytes(s) implies false by {
                    lemma_session_layout(s);
                    assert(p1 == sb_q1(s));
                }
            }
            return None;
        },
    };
    let r3 = read_u64(data, p2);
    let (count, p3) = match r3 {
        Some(v) => v,
        None => {
            proof {
                assert forall|s: Session|
                    session_len_wf(s) && data@ == #[trigger] session_bytes(s) implies false by {
                    lemma_session_layout(s);
                    assert(p1 == sb_q1(s));
                    assert(p2 == sb_q2(s));
                }
            }
            return None;
        },
    };
    let r4 = read_blocks(data, p3, count);
    let (audience, p4) = match r4 {
        Some(v) => v,
        None => {
            proof {
                assert forall|s: Session|
                    session_len_wf(s) && data@ == #[trigger] session_bytes(s) implies false by {
                    lemma_session_layout(s);
                    assert(p1 == sb_q1(s));
                    assert(p2 == sb_q2(s));
                    assert(p3 == sb_q3(s));
                    assert(count == s.audience.deep_view().len());
                }
            }
            return None;
        },
    };
    let r5 = read_u64(data, p4);
    let (exp, p5) = match r5 {
        Some(v) => v,
        None => {
            proof {
                assert forall|s: Session|
                    session_len_wf(s) && data@ == #[trigger] session_bytes(s) implies false by {
                    lemma_session_layout(s);
                    assert(p1 == sb_q1(s));
                    assert(p2 == sb_q2(s));
                    assert(p3 == sb_q3(s));
                    assert(count == s.audience.deep_view().len());
                    assert(p4 == sb_q4(s));
                }
            }
            return None;
        },
    };
    let r6 = read_u64(data, p5);
    let (iat, p6) = match r6 {
        Some(v) => v,
        None => {
            proof {
                assert forall|s: Session|
                    session_len_wf(s) && data@ == #[trigger] session_bytes(s) implies false by {
                    lemma_session_layout(s);
                    assert(p1 == sb_q1(s));
                    assert(p2 == sb_q2(s));
                    assert(p3 == sb_q3(s));
                    assert(count == s.audience.deep_view().len());
                    assert(p4 == sb_q4(s));
                    assert(p5 == sb_q5(s));
                }
            }
            return None;
        },
    };
    let r7 = read_block(data, p6);
    let (access_token, p7) = match r7 {
        Some(v) => v,
        None => {
            proof {
                assert forall|s: Session|
                    session_len_wf(s) && data@ == #[trigger] session_bytes(s) implies false by {
                    lemma_session_layout(s);
                    assert(p1 == sb_q1(s));
                    assert(p2 == sb_q2(s));
                    assert(p3 == sb_q3(s));
                    assert(count == s.audience.deep_view().len());
                    assert(p4 == sb_q4(s));
                    assert(p5 == sb_q5(s));
                    assert(p6 == sb_q6(s));
                }
            }
            return None;
        },
    };
    let r8 = read_opt_block(data, p7);
    let (refresh_token, p8) = match r8 {
        Some(v) => v,
        None => {
            proof {
                assert forall|s: Session|
                    session_len_wf(s) && data@ == #[trigger] session_bytes(s) implies false by {
                    lemma_session_layout(s);
                    assert(p1 == sb_q1(s));
                    assert(p2 == sb_q2(s));
                    assert(p3 == sb_q3(s));
                    assert(count == s.audience.deep_view().len());
                    assert(p4 == sb_q4(s));
                    assert(p5 == sb_q5(s));
                    assert(p6 == sb_q6(s));
                    assert(p7 == sb_q7(s));
                }
            }
            return None;
        },
    };
    if p8 != n {
        proof {
            assert forall|s: Session|
                session_len_wf(s) && data@ == #[trigger] session_bytes(s) implies false by {
                lemma_session_layout(s);
                assert(p1 == sb_q1(s));
                assert(p2 == sb_q2(s));
                assert(p3 == sb_q3(s));
                assert(count == s.audience.deep_view().len());
                assert(p4 == sb_q4(s));
                assert(p5 == sb_q5(s));
                assert(p6 == sb_q6(s));
                assert(p7 == sb_q7(s));
                assert(p8 == session_bytes(s).len());
            }
        }
        return None;
    }
    let result = Session { subject, issuer, audience, exp, iat, access_token, refresh_token };
    proof {
        let w = data@;
        let dv = result.audience.deep_view();
        assert(dv.len() == result.audience@.len());
        assert(spec_u64_to_le_bytes(spec_u64_from_le_bytes(w.subrange(p2 as int, p2 as int + 8)))
            == w.subrange(p2 as int, p2 as int + 8));
        assert(w.subrange(p2 as int, p3 as int) == spec_u64_to_le_bytes(dv.len() as u64));
        assert(spec_u64_to_le_bytes(spec_u64_from_le_bytes(w.subrange(p4 as int, p4 as int + 8)))
            == w.subrange(p4 as int, p4 as int + 8));
        assert(w.subrange(p4 as int, p5 as int) == spec_u64_to_le_bytes(result.exp));
        assert(spec_u64_to_le_bytes(spec_u64_from_le_bytes(w.subrange(p5 as int, p5 as int + 8)))
            == w.subrange(p5 as int, p5 as int + 8));
        assert(w.subrange(p5 as int, p6 as int) == spec_u64_to_le_bytes(result.iat));
        lemma_glue(w, 0, p1 as int, p2 as int);
        lemma_glue(w, 0, p2 as int, p3 as int);
        lemma_glue(w, 0, p3 as int, p4 as int);
        lemma_glue(w, 0, p4 as int, p5 as int);
        lemma_glue(w, 0, p5 as int, p6 as int);
        lemma_glue(w, 0, p6 as int, p7 as int);
        lemma_glue(w, 0, p7 as int, p8 as int);
        assert(w.subrange(0, p8 as int) =~= w);
        assert(w == session_bytes(result));
        assert(session_bytes(result).len() <= u64::MAX);
        assert(session_len_wf(result));
        assert forall|s: Session|
            session_len_wf(s) && data@ == #[trigger] session_bytes(s) implies session_eq(
            result,
            s,
        ) by {
            lemma_session_layout(s);
            assert(p1 == sb_q1(s));
            assert(p2 == sb_q2(s));
            assert(p3 == sb_q3(s));
            assert(count == s.audience.deep_view().len());
            assert(p4 == sb_q4(s));
            assert(p5 == sb_q5(s));
            assert(p6 == sb_q6(s));
            assert(p7 == sb_q7(s));
            assert(exp == s.exp);
            assert(iat == s.iat);
            assert(refresh_token.deep_view() == s.refresh_token.deep_view());
        }
    }
    Some(result)
}

// ---------- the signed envelope ----------

/// Frames, authenticates and encodes a byte payload.
pub fn sign_blob(payload: &Vec<u8>, key: &Vec<u8>) -> (r: String)
    ensures
        r@ == blob_token(payload@, key@),
{
    let mut framed = u64_to_le_bytes(payload.len() as u64);
    framed.extend_from_slice(payload.as_slice());
    let mut tag = crypto::hmac_sha256(key, payload);
    framed.append(&mut tag);
    let r = crypto::b64url_encode(&framed);
    proof {
        assert(framed@ =~= spec_u64_to_le_bytes(payload@.len() as u64) + payload@ + mac_of(
            key@,
            payload@,
        ));
    }
    r
}

/// When raw bytes come from `blob_token(p, key)`, they split into the
/// length, the payload and the tag.
proof fn lemma_blob_shape(raw: Seq<u8>, p: Seq<u8>, key: Seq<u8>)
    requires
        p.len() <= u64::MAX,
        raw == spec_u64_to_le_bytes(p.len() as u64) + p + mac_of(key, p),
    ensures
        raw.len() >= 8,
        spec_u64_from_le_bytes(raw.subrange(0, 8)) == p.len(),
        raw.subrange(8, 8 + p.len() as int) == p,
        raw.subrange(8 + p.len() as int, raw.len() as int) == mac_of(key, p),
{
    lemma_auto_spec_u64_to_from_le_bytes();
    assert(raw =~= spec_u64_to_le_bytes(p.len() as u64) + (p + mac_of(key, p)));
    assert(raw.subrange(0, raw.len() as int) =~= raw);
    lemma_split_prefix(raw, spec_u64_to_le_bytes(p.len() as u64), p + mac_of(key, p), 0);
    lemma_split_prefix(raw, p, mac_of(key, p), 8);
    assert(raw.subrange(0, 8) == spec_u64_to_le_bytes(p.len() as u64));
}

/// Decodes and authenticates a token produced by `sign_blob`; on any such
/// token it returns exactly the framed payload.
pub fn open_blob(token: &str, key: &Vec<u8>) -> (r: Option<Vec<u8>>)
    ensures
        r matches Some(v) ==> v@.len() <= u64::MAX && token@ == blob_token(v@, key@),
        forall|p: Seq<u8>|
            p.len() <= u64::MAX && token@ == #[trigger] blob_token(p, key@) ==> (r matches Some(v)
                && v@ == p),
{
    proof {
        lemma_auto_spec_u64_to_from_le_bytes();
    }
    let tb = token.as_bytes();
    let decoded = crypto::b64url_decode(tb);
    let raw = match decoded {
        Some(v) => v,
        None => {
            return None;
        },
    };
    let ghost rawv = raw@;
    let first = read_u64(&raw, 0);
    let (plen, p1) = match first {
        Some(v) => v,
        None => {
            proof {
                assert forall|p: Seq<u8>|
                    p.len() <= u64::MAX && token@ == #[trigger] blob_token(p, key@) implies false by {
                    lemma_blob_shape(rawv, p, key@);
                }
            }
            return None;
        },
    };
    if plen > (raw.len() - p1) as u64 {
        proof {
            assert forall|p: Seq<u8>|
                p.len() <= u64::MAX && token@ == #[trigger] blob_token(p, key@) implies false by {
                lemma_blob_shape(rawv, p, key@);
            }
        }
        return None;
    }
    let l = plen as usize;
    let payload = vstd::slice::slice_to_vec(vstd::slice::slice_subrange(raw.as_slice(), p1, p1 + l));
    let tag = vstd::slice::slice_to_vec(
        vstd::slice::slice_subrange(raw.as_slice(), p1 + l, raw.len()),
    );
    let computed = crypto::hmac_sha256(key, &payload);
    let ok = tag == computed;
    if !ok {
        proof {
            assert forall|p: Seq<u8>|
                p.len() <= u64::MAX && token@ == #[trigger] blob_token(p, key@) implies false by {
                lemma_blob_shape(rawv, p, key@);
                assert(payload@ =~= p);
                assert(tag@ =~= mac_of(key@, p));
                assert(tag@ =~= computed@);
                assert(tag.eq_spec(&computed));
            }
        }
        return None;
    }
    proof {
        assert(tb@ == encode_utf8(token@));
        assert(tb@ == encode_utf8(b64url_of(rawv)));
        assert(token@ == decode_utf8(encode_utf8(token@)));
        assert(b64url_of(rawv) == decode_utf8(encode_utf8(b64url_of(rawv))));
        assert(token@ == b64url_of(rawv));
        assert(spec_u64_to_le_bytes(spec_u64_from_le_bytes(rawv.subrange(0, 8))) == rawv.subrange(
            0,
            8,
        ));
        assert((payload@.len() as u64) == plen);
        assert(tag.eq_spec(&computed));
        assert(tag@ =~= computed@);
        assert(rawv =~= rawv.subrange(0, 8) + rawv.subrange(8, 8 + payload@.len() as int)
            + rawv.subrange(8 + payload@.len() as int, rawv.len() as int));
        assert(rawv == spec_u64_to_le_bytes(payload@.len() as u64) + payload@ + mac_of(
            key@,
            payload@,
        ));
        assert(token@ == blob_token(payload@, key@));
        assert forall|p: Seq<u8>|
            p.len() <= u64::MAX && token@ == #[trigger] blob_token(p, key@) implies payload@
            == p by {
            lemma_blob_shape(rawv, p, key@);
            assert(payload@ =~= p);
        }
    }
    Some(payload)
}

// ---------- the session codec ----------

/// Encodes a session into an opaque, integrity-protected token.
pub fn encode_session(s: &Session, key: &Vec<u8>) -> (r: String)
    ensures
        r@ == session_token(*s, key@),
        session_len_wf(*s),
{
    let payload = session_to_bytes(s);
    sign_blob(&payload, key)
}

/// Decodes a session token. Returns the session exactly when the token is
/// a faithful encoding under `key` of a session that has not expired by
/// `now`; a tampered, foreign or expired token yields `None`.
pub fn decode_session(token: &str, key: &Vec<u8>, now: u64) -> (r: Option<Session>)
    ensures
        r matches Some(s2) ==> s2.exp > now && session_len_wf(s2) && token@ == session_token(
            s2,
            key@,
        ),
        forall|s: Session|
            session_len_wf(s) && now < s.exp && token@ == #[trigger] session_token(s, key@) ==> (
            r matches Some(s2) && session_eq(s2, s)),
        forall|s: Session|
            session_len_wf(s) && now >= s.exp && token@ == #[trigger] session_token(s, key@)
                ==> r is None,
{
    let opened = open_blob(token, key);
    let payload = match opened {
        Some(v) => v,
        None => {
            return None;
        },
    };
    let parsed = session_from_bytes(&payload);
    let session = match parsed {
        Some(v) => v,
        None => {
            return None;
        },
    };
    if session.exp > now {
        Some(session)
    } else {
        None
    }
}

} // verus!

// ---------- the pending-login codec ----------
//
// A pending login is round-tripped through the client in a signed cookie,
// so no server affinity is needed. Only the verifier is stored; the
// challenge is recomputed from it on decode. The embedded expiry bounds
// how long a captured cookie can be replayed.

use crate::pending::PendingLogin;
use crate::pkce::{derive_challenge, PkcePair};

verus! {

/// The byte serialization of a pending login.
pub open spec fn pending_bytes(p: PendingLogin) -> Seq<u8> {
    str_block(p.state@) + str_block(p.nonce@) + spec_u64_to_le_bytes(p.expires_at) + opt_block(
        pending_verifier_view(p),
    ) + str_block(p.return_to@)
}

/// The stored part of the PKCE pair: the verifier.
pub open spec fn pending_verifier_view(p: PendingLogin) -> Option<Seq<char>> {
    match p.pkce {
        None => None,
        Some(pair) => Some(pair.verifier@),
    }
}

pub open spec fn pending_len_wf(p: PendingLogin) -> bool {
    &&& str_block_wf(p.state@)
    &&& str_block_wf(p.nonce@)
    &&& opt_wf(pending_verifier_view(p))
    &&& str_block_wf(p.return_to@)
    &&& pending_bytes(p).len() <= u64::MAX
}

/// The token that `encode_pending` produces.
pub open spec fn pending_token(p: PendingLogin, key: Seq<u8>) -> Seq<char> {
    blob_token(pending_bytes(p), key)
}

/// Two pending logins that agree in state, nonce, verifier, return URL
/// and expiry.
pub open spec fn pending_eq(a: PendingLogin, b: PendingLogin) -> bool {
    &&& a.state@ == b.state@
    &&& a.nonce@ == b.nonce@
    &&& pending_verifier_view(a) == pending_verifier_view(b)
    &&& a.return_to@ == b.return_to@
    &&& a.expires_at == b.expires_at
}

pub open spec fn pb_q1(p: PendingLogin) -> int {
    str_block(p.state@).len() as int
}

pub open spec fn pb_q2(p: PendingLogin) -> int {
    pb_q1(p) + str_block(p.nonce@).len()
}

pub open spec fn pb_q3(p: PendingLogin) -> int {
    pb_q2(p) + 8
}

pub open spec fn pb_q4(p: PendingLogin) -> int {
    pb_q3(p) + opt_block(pending_verifier_view(p)).len()
}

/// How `pending_bytes(p)` splits at each field boundary.
proof fn lemma_pending_layout(p: PendingLogin)
    ensures
        ({
            let w = pending_bytes(p);
            &&& 0 <= pb_q1(p) <= pb_q2(p) <= pb_q3(p) <= pb_q4(p) <= w.len()
            &&& w.subrange(0, w.len() as int) == str_block(p.state@) + w.subrange(
                pb_q1(p),
                w.len() as int,
            )
            &&& w.subrange(pb_q1(p), w.len() as int) == str_block(p.nonce@) + w.subrange(
                pb_q2(p),
                w.len() as int,
            )
            &&& w.subrange(pb_q2(p), pb_q2(p) + 8) == spec_u64_to_le_bytes(p.expires_at)
            &&& w.subrange(pb_q3(p), w.len() as int) == opt_block(pending_verifier_view(p))
                + w.subrange(pb_q4(p), w.len() as int)
            &&& w.subrange(pb_q4(p), w.len() as int) == str_block(p.return_to@)
                + Seq::<u8>::empty()
            &&& pb_q4(p) + str_block(p.return_to@).len() == w.len()
        }),
{
    let w = pending_bytes(p);
    let b1 = str_block(p.state@);
    let b2 = str_block(p.nonce@);
    let b3 = spec_u64_to_le_bytes(p.expires_at);
    let b4 = opt_block(pending_verifier_view(p));
    let b5 = str_block(p.return_to@);
    let r4 = b5;
    let r3 = b4 + r4;
    let r2 = b3 + r3;
    let r1 = b2 + r2;
    lemma_auto_spec_u64_to_from_le_bytes();
    assert(w =~= b1 + r1);
    assert(w.subrange(0, w.len() as int) =~= w);
    lemma_split_prefix(w, b1, r1, 0);
    lemma_split_prefix(w, b2, r2, pb_q1(p));
    lemma_split_prefix(w, b3, r3, pb_q2(p));
    lemma_split_prefix(w, b4, r4, pb_q3(p));
    assert(w.subrange(0, w.len() as int) =~= b1 + w.subrange(pb_q1(p), w.len() as int));
    assert(w.subrange(pb_q1(p), w.len() as int) =~= b2 + w.subrange(pb_q2(p), w.len() as int));
    assert(w.subrange(pb_q3(p), w.len() as int) =~= b4 + w.subrange(pb_q4(p), w.len() as int));
    assert(w.subrange(pb_q4(p), w.len() as int) =~= b5 + Seq::<u8>::empty());
}

/// Serializes a pending login; the exact content is `pending_bytes`.
fn pending_to_bytes(p: &PendingLogin) -> (out: Vec<u8>)
    ensures
        out@ == pending_bytes(*p),
        pending_len_wf(*p),
{
    let mut out: Vec<u8> = Vec::new();
    push_str_block(&mut out, p.state.as_str());
    push_str_block(&mut out, p.nonce.as_str());
    push_u64(&mut out, p.expires_at);
    match &p.pkce {
        None => {
            out.push(0u8);
            proof {
                assert(pending_verifier_view(*p) is None);
                assert(opt_block(pending_verifier_view(*p)) =~= seq![0u8]);
            }
        },
        Some(pair) => {
            out.push(1u8);
            push_str_block(&mut out, pair.verifier.as_str());
            proof {
                assert(pending_verifier_view(*p) == Some(pair.verifier@));
                assert(opt_block(pending_verifier_view(*p)) =~= seq![1u8] + str_block(
                    pair.verifier@,
                ));
            }
        },
    }
    push_str_block(&mut out, p.return_to.as_str());
    proof {
        assert(out@ =~= pending_bytes(*p));
        let l = out.len();
        assert(pending_bytes(*p).len() <= u64::MAX);
    }
    out
}

/// Encodes a pending login into an opaque, integrity-protected token, for
/// the caller to round-trip through the client.
pub fn encode_pending(p: &PendingLogin, key: &Vec<u8>) -> (r: String)
    ensures
        r@ == pending_token(*p, key@),
        pending_len_wf(*p),
{
    let payload = pending_to_bytes(p);
    sign_blob(&payload, key)
}

/// Decodes a pending-login token. On a faithful encoding under `key` of
/// an attempt that has not timed out by `now`, the original state, nonce,
/// verifier, return URL and expiry come back, with the challenge freshly
/// derived from the verifier; a tampered, foreign or timed-out token
/// yields `None`.
pub fn decode_pending(token: &str, key: &Vec<u8>, now: u64) -> (r: Option<PendingLogin>)
    ensures
        r matches Some(p2) ==> p2.expires_at > now,
        forall|p: PendingLogin|
            pending_len_wf(p) && now < p.expires_at && token@ == #[trigger] pending_token(p, key@)
                ==> (r matches Some(p2) && pending_eq(p2, p)),
        forall|p: PendingLogin|
            pending_len_wf(p) && now >= p.expires_at && token@ == #[trigger] pending_token(p, key@)
                ==> r is None,
        r matches Some(p2) ==> (p2.pkce matches Some(pair) ==> pair.consistent()),
        r matches Some(p2) ==> pending_len_wf(p2) && token@ == pending_token(p2, key@),
{
    proof {
        lemma_auto_spec_u64_to_from_le_bytes();
    }
    let opened = open_blob(token, key);
    let data = match opened {
        Some(v) => v,
        None => {
            return None;
        },
    };
    let r1 = read_block(&data, 0);
    let (state, q1) = match r1 {
        Some(v) => v,
        None => {
            proof {
                assert forall|p: PendingLogin|
                    pending_len_wf(p) && data@ == #[trigger] pending_bytes(p) implies false by {
                    lemma_pending_layout(p);
                }
            }
            return None;
        },
    };
    let r2 = read_block(&data, q1);
    let (nonce, q2) = match r2 {
        Some(v) => v,
        None => {
            proof {
                assert forall|p: PendingLogin|
                    pending_len_wf(p) && data@ == #[trigger] pending_bytes(p) implies false by {
                    lemma_pending_layout(p);
                    assert(q1 == pb_q1(p));
                }
            }
            return None;
        },
    };
    let r3 = read_u64(&data, q2);
    let (expires_at, q3) = match r3 {
        Some(v) => v,
        None => {
            proof {
                assert forall|p: PendingLogin|
                    pending_len_wf(p) && data@ == #[trigger] pending_bytes(p) implies false by {
                    lemma_pending_layout(p);
                    assert(q1 == pb_q1(p));
                    assert(q2 == pb_q2(p));
                }
            }
            return None;
        },
    };
    let r4 = read_opt_block(&data, q3);
    let (verifier, q4) = match r4 {
        Some(v) => v,
        None => {
            proof {
                assert forall|p: PendingLogin|
                    pending_len_wf(p) && data@ == #[trigger] pending_bytes(p) implies false by {
                    lemma_pending_layout(p);
                    assert(q1 == pb_q1(p));
                    assert(q2 == pb_q2(p));
                    assert(q3 == pb_q3(p));
                }
            }
            return None;
        },
    };
    let r5 = read_block(&data, q4);
    let (return_to, q5) = match r5 {
        Some(v) => v,
        None => {
            proof {
                assert forall|p: PendingLogin|
                    pending_len_wf(p) && data@ == #[trigger] pending_bytes(p) implies false by {
                    lemma_pending_layout(p);
                    assert(q1 == pb_q1(p));
                    assert(q2 == pb_q2(p));
                    assert(q3 == pb_q3(p));
                    assert(q4 == pb_q4(p));
                }
            }
            return None;
        },
    };
    if q5 != data.len() {
        proof {
            assert forall|p: PendingLogin|
                pending_len_wf(p) && data@ == #[trigger] pending_bytes(p) implies false by {
                lemma_pending_layout(p);
                assert(q1 == pb_q1(p));
                assert(q2 == pb_q2(p));
                assert(q3 == pb_q3(p));
                assert(q4 == pb_q4(p));
                assert(q5 == pending_bytes(p).len());
            }
        }
        return None;
    }
    let pkce_pair = match verifier {
        None => None,
        Some(v) => {
            let challenge = derive_challenge(v.as_str());
            Some(PkcePair { verifier: v, challenge })
        },
    };
    let result = PendingLogin { state, nonce, pkce: pkce_pair, return_to, expires_at };
    proof {
        let w = data@;
        assert(pending_verifier_view(result) == verifier.deep_view());
        assert(spec_u64_to_le_bytes(spec_u64_from_le_bytes(w.subrange(q2 as int, q2 as int + 8)))
            == w.subrange(q2 as int, q2 as int + 8));
        assert(w.subrange(q2 as int, q3 as int) == spec_u64_to_le_bytes(result.expires_at));
        lemma_glue(w, 0, q1 as int, q2 as int);
        lemma_glue(w, 0, q2 as int, q3 as int);
        lemma_glue(w, 0, q3 as int, q4 as int);
        lemma_glue(w, 0, q4 as int, q5 as int);
        assert(w.subrange(0, q5 as int) =~= w);
        assert(w == pending_bytes(result));
        assert(pending_bytes(result).len() <= u64::MAX);
        assert(pending_len_wf(result));
        assert(token@ == pending_token(result, key@));
        assert forall|p: PendingLogin|
            pending_len_wf(p) && data@ == #[trigger] pending_bytes(p) implies pending_eq(
            result,
            p,
        ) by {
            lemma_pending_layout(p);
            assert(q1 == pb_q1(p));
            assert(q2 == pb_q2(p));
            assert(q3 == pb_q3(p));
            assert(q4 == pb_q4(p));
        }
    }
    if expires_at > now {
        Some(result)
    } else {
        None
    }
}

} // verus!
