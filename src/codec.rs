//! The binary wire format of the signaling socket and of the peer channels.
//!
//! The layout is a tagged union in little-endian fixed-width integers: a
//! variant is a `u32` discriminant followed by its fields in declared order, a
//! string or a sequence is a `u64` length followed by its items, and an option
//! is a one-byte presence flag (0 or 1) followed by the value when present.
//! Decoding accepts exactly the bytes that encoding produces: a truncated
//! input, an unknown discriminant or flag, invalid UTF-8 or trailing bytes are
//! all decode errors.
use vstd::bytes::*;
use vstd::prelude::*;
use vstd::slice::*;
use vstd::string::*;
use vstd::utf8::*;

use crate::message::{
    candidates_view, CandidateView, EnvelopeView, HandshakeView, IceCandidate, MessageEnvelope,
    MessageView, PeerHandshake, PeerMessage, PeerMessageView, WebSocketMessage,
};

verus! {

broadcast use vstd::utf8::encode_utf8_valid_utf8, vstd::utf8::encode_utf8_decode_utf8;

// ---------------------------------------------------------------------------
// Encodings of the primitive fields
// ---------------------------------------------------------------------------
pub open spec fn enc_u16(x: u16) -> Seq<u8> {
    spec_u16_to_le_bytes(x)
}

pub open spec fn enc_u32(x: u32) -> Seq<u8> {
    spec_u32_to_le_bytes(x)
}

pub open spec fn enc_u64(x: u64) -> Seq<u8> {
    spec_u64_to_le_bytes(x)
}

/// A string: its UTF-8 byte length, then its UTF-8 bytes.
pub open spec fn enc_str(s: Seq<char>) -> Seq<u8> {
    enc_u64(encode_utf8(s).len() as u64) + encode_utf8(s)
}

/// Whether the UTF-8 encoding of `s` has a length that a `u64` can hold.
pub open spec fn str_fits(s: Seq<char>) -> bool {
    encode_utf8(s).len() <= u64::MAX
}

pub open spec fn enc_opt_str(o: Option<Seq<char>>) -> Seq<u8> {
    match o {
        None => seq![0u8],
        Some(s) => seq![1u8] + enc_str(s),
    }
}

pub open spec fn enc_opt_u16(o: Option<u16>) -> Seq<u8> {
    match o {
        None => seq![0u8],
        Some(x) => seq![1u8] + enc_u16(x),
    }
}

// ---------------------------------------------------------------------------
// Parsers of the primitive fields: each yields the value and the number of
// bytes it took from the front of its input.
// ---------------------------------------------------------------------------
pub open spec fn parse_u16(s: Seq<u8>) -> Option<(u16, int)> {
    if s.len() >= 2 {
        Some((spec_u16_from_le_bytes(s.take(2)), 2))
    } else {
        None
    }
}

pub open spec fn parse_u32(s: Seq<u8>) -> Option<(u32, int)> {
    if s.len() >= 4 {
        Some((spec_u32_from_le_bytes(s.take(4)), 4))
    } else {
        None
    }
}

pub open spec fn parse_u64(s: Seq<u8>) -> Option<(u64, int)> {
    if s.len() >= 8 {
        Some((spec_u64_from_le_bytes(s.take(8)), 8))
    } else {
        None
    }
}

pub open spec fn parse_str(s: Seq<u8>) -> Option<(Seq<char>, int)> {
    match parse_u64(s) {
        None => None,
        Some((n, k)) => {
            let body = s.subrange(8, 8 + n);
            if n <= s.len() - 8 && valid_utf8(body) {
                Some((decode_utf8(body), 8 + n))
            } else {
                None
            }
        },
    }
}

pub open spec fn parse_opt_str(s: Seq<u8>) -> Option<(Option<Seq<char>>, int)> {
    if s.len() == 0 {
        None
    } else if s[0] == 0 {
        Some((None, 1))
    } else if s[0] == 1 {
        match parse_str(s.skip(1)) {
            None => None,
            Some((v, k)) => Some((Some(v), 1 + k)),
        }
    } else {
        None
    }
}

pub open spec fn parse_opt_u16(s: Seq<u8>) -> Option<(Option<u16>, int)> {
    if s.len() == 0 {
        None
    } else if s[0] == 0 {
        Some((None, 1))
    } else if s[0] == 1 {
        match parse_u16(s.skip(1)) {
            None => None,
            Some((v, k)) => Some((Some(v), 1 + k)),
        }
    } else {
        None
    }
}

// ---------------------------------------------------------------------------
// Each parser takes back exactly what the matching encoding wrote, whatever
// follows it.
// ---------------------------------------------------------------------------
pub proof fn lemma_u16_round_trip(x: u16, rest: Seq<u8>)
    ensures
        enc_u16(x).len() == 2,
        parse_u16(enc_u16(x) + rest) == Some((x, 2int)),
{
    lemma_auto_spec_u16_to_from_le_bytes();
    assert((enc_u16(x) + rest).take(2) =~= enc_u16(x));
}

pub proof fn lemma_u32_round_trip(x: u32, rest: Seq<u8>)
    ensures
        enc_u32(x).len() == 4,
        parse_u32(enc_u32(x) + rest) == Some((x, 4int)),
{
    lemma_auto_spec_u32_to_from_le_bytes();
    assert((enc_u32(x) + rest).take(4) =~= enc_u32(x));
}

pub proof fn lemma_u64_round_trip(x: u64, rest: Seq<u8>)
    ensures
        enc_u64(x).len() == 8,
        parse_u64(enc_u64(x) + rest) == Some((x, 8int)),
{
    lemma_auto_spec_u64_to_from_le_bytes();
    assert((enc_u64(x) + rest).take(8) =~= enc_u64(x));
}

pub proof fn lemma_str_round_trip(s: Seq<char>, rest: Seq<u8>)
    requires
        str_fits(s),
    ensures
        enc_str(s).len() == 8 + encode_utf8(s).len(),
        parse_str(enc_str(s) + rest) == Some((s, enc_str(s).len() as int)),
{
    let b = encode_utf8(s);
    let n = b.len() as u64;
    lemma_u64_round_trip(n, b + rest);
    assert(enc_str(s) + rest =~= enc_u64(n) + (b + rest));
    assert((enc_str(s) + rest).subrange(8, 8 + n) =~= b);
}

pub proof fn lemma_opt_str_round_trip(o: Option<Seq<char>>, rest: Seq<u8>)
    requires
        o matches Some(s) ==> str_fits(s),
    ensures
        parse_opt_str(enc_opt_str(o) + rest) == Some((o, enc_opt_str(o).len() as int)),
{
    match o {
        None => {},
        Some(s) => {
            lemma_str_round_trip(s, rest);
            assert((enc_opt_str(o) + rest).skip(1) =~= enc_str(s) + rest);
        },
    }
}

pub proof fn lemma_opt_u16_round_trip(o: Option<u16>, rest: Seq<u8>)
    ensures
        parse_opt_u16(enc_opt_u16(o) + rest) == Some((o, enc_opt_u16(o).len() as int)),
{
    match o {
        None => {},
        Some(x) => {
            lemma_u16_round_trip(x, rest);
            assert((enc_opt_u16(o) + rest).skip(1) =~= enc_u16(x) + rest);
        },
    }
}

// ---------------------------------------------------------------------------
// Writers: each appends one encoding to the output buffer.
// ---------------------------------------------------------------------------
fn append_bytes(out: &mut Vec<u8>, b: &[u8])
    ensures
        final(out)@ == old(out)@ + b@,
{
    let mut i: usize = 0;
    while i < b.len()
        invariant
            i <= b@.len(),
            out@ == old(out)@ + b@.take(i as int),
        decreases b@.len() - i,
    {
        out.push(b[i]);
        i = i + 1;
        assert(b@.take(i as int) =~= b@.take(i - 1) + seq![b@[i - 1]]);
    }
    assert(b@.take(i as int) =~= b@);
}

fn write_u16(out: &mut Vec<u8>, x: u16)
    ensures
        final(out)@ == old(out)@ + enc_u16(x),
{
    let b = u16_to_le_bytes(x);
    append_bytes(out, b.as_slice());
}

fn write_u32(out: &mut Vec<u8>, x: u32)
    ensures
        final(out)@ == old(out)@ + enc_u32(x),
{
    let b = u32_to_le_bytes(x);
    append_bytes(out, b.as_slice());
}

fn write_u64(out: &mut Vec<u8>, x: u64)
    ensures
        final(out)@ == old(out)@ + enc_u64(x),
{
    let b = u64_to_le_bytes(x);
    append_bytes(out, b.as_slice());
}

fn write_str(out: &mut Vec<u8>, s: &String)
    ensures
        final(out)@ == old(out)@ + enc_str(s@),
        str_fits(s@),
{
    let b = s.as_str().as_bytes();
    write_u64(out, b.len() as u64);
    append_bytes(out, b);
    assert(final(out)@ =~= old(out)@ + enc_str(s@));
}

fn write_opt_str(out: &mut Vec<u8>, o: &Option<String>)
    ensures
        final(out)@ == old(out)@ + enc_opt_str(opt_str_view(*o)),
        opt_str_fits(opt_str_view(*o)),
{
    match o {
        None => {
            out.push(0u8);
            assert(final(out)@ =~= old(out)@ + enc_opt_str(opt_str_view(*o)));
        },
        Some(s) => {
            out.push(1u8);
            write_str(out, s);
            assert(final(out)@ =~= old(out)@ + enc_opt_str(opt_str_view(*o)));
        },
    }
}

fn write_opt_u16(out: &mut Vec<u8>, o: Option<u16>)
    ensures
        final(out)@ == old(out)@ + enc_opt_u16(o),
{
    match o {
        None => {
            out.push(0u8);
            assert(final(out)@ =~= old(out)@ + enc_opt_u16(o));
        },
        Some(x) => {
            out.push(1u8);
            write_u16(out, x);
            assert(final(out)@ =~= old(out)@ + enc_opt_u16(o));
        },
    }
}

pub open spec fn opt_str_view(o: Option<String>) -> Option<Seq<char>> {
    match o {
        None => None,
        Some(s) => Some(s@),
    }
}

pub open spec fn opt_str_fits(o: Option<Seq<char>>) -> bool {
    o matches Some(s) ==> str_fits(s)
}

// ---------------------------------------------------------------------------
// Readers: each parses one field of `buf` at `pos` and returns the value and
// the position after it, in agreement with the matching parser.
// ---------------------------------------------------------------------------
/// What a reader at `pos` returns agrees with the parser `p` run on the bytes
/// from `pos` on.
pub open spec fn agrees<T>(r: Option<(T, usize)>, p: Option<(T, int)>, pos: usize, len: int) -> bool {
    match r {
        None => p is None,
        Some((v, q)) => p == Some((v, q - pos)) && q <= len,
    }
}

/// Relies on `String::from_utf8`: it succeeds exactly when the bytes are
/// valid UTF-8, and the string then holds the characters that they encode.
#[verifier::external_body]
fn string_from_utf8(bytes: Vec<u8>) -> (r: Option<String>)
    ensures
        r is Some <==> valid_utf8(bytes@),
        r matches Some(s) ==> s@ == decode_utf8(bytes@),
{
    String::from_utf8(bytes).ok()
}

fn read_u16(buf: &[u8], pos: usize) -> (r: Option<(u16, usize)>)
    requires
        pos <= buf@.len(),
    ensures
        agrees(r, parse_u16(buf@.skip(pos as int)), pos, buf@.len() as int),
{
    if buf.len() - pos >= 2 {
        let v = u16_from_le_bytes(slice_subrange(buf, pos, pos + 2));
        assert(buf@.skip(pos as int).take(2) =~= buf@.subrange(pos as int, pos + 2));
        Some((v, pos + 2))
    } else {
        None
    }
}

fn read_u32(buf: &[u8], pos: usize) -> (r: Option<(u32, usize)>)
    requires
        pos <= buf@.len(),
    ensures
        agrees(r, parse_u32(buf@.skip(pos as int)), pos, buf@.len() as int),
{
    if buf.len() - pos >= 4 {
        let v = u32_from_le_bytes(slice_subrange(buf, pos, pos + 4));
        assert(buf@.skip(pos as int).take(4) =~= buf@.subrange(pos as int, pos + 4));
        Some((v, pos + 4))
    } else {
        None
    }
}

fn read_u64(buf: &[u8], pos: usize) -> (r: Option<(u64, usize)>)
    requires
        pos <= buf@.len(),
    ensures
        agrees(r, parse_u64(buf@.skip(pos as int)), pos, buf@.len() as int),
{
    if buf.len() - pos >= 8 {
        let v = u64_from_le_bytes(slice_subrange(buf, pos, pos + 8));
        assert(buf@.skip(pos as int).take(8) =~= buf@.subrange(pos as int, pos + 8));
        Some((v, pos + 8))
    } else {
        None
    }
}

fn read_str(buf: &[u8], pos: usize) -> (r: Option<(String, usize)>)
    requires
        pos <= buf@.len(),
    ensures
        agrees(
            match r {
                None => None,
                Some((s, q)) => Some((s@, q)),
            },
            parse_str(buf@.skip(pos as int)),
            pos,
            buf@.len() as int,
        ),
{
    let s = Ghost(buf@.skip(pos as int));
    match read_u64(buf, pos) {
        None => None,
        Some((n, p)) => {
            if n > (buf.len() - p) as u64 {
                return None;
            }
            let end = p + n as usize;
            let bytes = slice_to_vec(slice_subrange(buf, p, end));
            assert(s@.subrange(8, 8 + n) =~= bytes@);
            match string_from_utf8(bytes) {
                None => None,
                Some(text) => Some((text, end)),
            }
        },
    }
}

fn read_opt_str(buf: &[u8], pos: usize) -> (r: Option<(Option<String>, usize)>)
    requires
        pos <= buf@.len(),
    ensures
        agrees(
            match r {
                None => None,
                Some((o, q)) => Some((opt_str_view(o), q)),
            },
            parse_opt_str(buf@.skip(pos as int)),
            pos,
            buf@.len() as int,
        ),
{
    if pos == buf.len() {
        return None;
    }
    let tag = buf[pos];
    if tag == 0 {
        Some((None, pos + 1))
    } else if tag == 1 {
        assert(buf@.skip(pos as int).skip(1) =~= buf@.skip(pos + 1));
        match read_str(buf, pos + 1) {
            None => None,
            Some((s, q)) => Some((Some(s), q)),
        }
    } else {
        None
    }
}

fn read_opt_u16(buf: &[u8], pos: usize) -> (r: Option<(Option<u16>, usize)>)
    requires
        pos <= buf@.len(),
    ensures
        agrees(r, parse_opt_u16(buf@.skip(pos as int)), pos, buf@.len() as int),
{
    if pos == buf.len() {
        return None;
    }
    let tag = buf[pos];
    if tag == 0 {
        Some((None, pos + 1))
    } else if tag == 1 {
        assert(buf@.skip(pos as int).skip(1) =~= buf@.skip(pos + 1));
        match read_u16(buf, pos + 1) {
            None => None,
            Some((x, q)) => Some((Some(x), q)),
        }
    } else {
        None
    }
}

// ---------------------------------------------------------------------------
// Candidates and lists
// ---------------------------------------------------------------------------
pub open spec fn enc_candidate(c: CandidateView) -> Seq<u8> {
    enc_str(c.candidate) + enc_opt_str(c.sdp_mid) + enc_opt_u16(c.sdp_m_line_index)
}

pub open spec fn candidate_fits(c: CandidateView) -> bool {
    str_fits(c.candidate) && opt_str_fits(c.sdp_mid)
}

/// The candidates one after the other, without their count.
pub open spec fn enc_candidate_items(cs: Seq<CandidateView>) -> Seq<u8>
    decreases cs.len(),
{
    if cs.len() == 0 {
        seq![]
    } else {
        enc_candidate_items(cs.drop_last()) + enc_candidate(cs.last())
    }
}

pub open spec fn candidates_fit(cs: Seq<CandidateView>) -> bool {
    cs.len() <= u64::MAX && forall|i: int| 0 <= i < cs.len() ==> #[trigger] candidate_fits(cs[i])
}

/// The identifiers one after the other, without their count.
pub open spec fn enc_id_items(ids: Seq<u32>) -> Seq<u8>
    decreases ids.len(),
{
    if ids.len() == 0 {
        seq![]
    } else {
        enc_id_items(ids.drop_last()) + enc_u32(ids.last())
    }
}

pub open spec fn parse_candidate(s: Seq<u8>) -> Option<(CandidateView, int)> {
    match parse_str(s) {
        None => None,
        Some((c, k1)) => match parse_opt_str(s.skip(k1)) {
            None => None,
            Some((m, k2)) => match parse_opt_u16(s.skip(k1 + k2)) {
                None => None,
                Some((i, k3)) => Some(
                    (CandidateView { candidate: c, sdp_mid: m, sdp_m_line_index: i }, k1 + k2 + k3),
                ),
            },
        },
    }
}

/// The first `n` candidates at the front of `s`.
pub open spec fn parse_candidate_items(s: Seq<u8>, n: nat) -> Option<(Seq<CandidateView>, int)>
    decreases n,
{
    if n == 0 {
        Some((seq![], 0))
    } else {
        match parse_candidate_items(s, (n - 1) as nat) {
            None => None,
            Some((cs, k)) => match parse_candidate(s.skip(k)) {
                None => None,
                Some((c, k2)) => Some((cs.push(c), k + k2)),
            },
        }
    }
}

/// The first `n` identifiers at the front of `s`.
pub open spec fn parse_id_items(s: Seq<u8>, n: nat) -> Option<(Seq<u32>, int)>
    decreases n,
{
    if n == 0 {
        Some((seq![], 0))
    } else {
        match parse_id_items(s, (n - 1) as nat) {
            None => None,
            Some((ids, k)) => match parse_u32(s.skip(k)) {
                None => None,
                Some((x, k2)) => Some((ids.push(x), k + k2)),
            },
        }
    }
}

pub proof fn lemma_candidate_round_trip(c: CandidateView, rest: Seq<u8>)
    requires
        candidate_fits(c),
    ensures
        parse_candidate(enc_candidate(c) + rest) == Some((c, enc_candidate(c).len() as int)),
{
    let a = enc_str(c.candidate);
    let b = enc_opt_str(c.sdp_mid);
    let d = enc_opt_u16(c.sdp_m_line_index);
    let s = enc_candidate(c) + rest;
    lemma_str_round_trip(c.candidate, b + d + rest);
    assert(s =~= a + (b + d + rest));
    assert(s.skip(a.len() as int) =~= b + (d + rest));
    lemma_opt_str_round_trip(c.sdp_mid, d + rest);
    assert(s.skip((a.len() + b.len()) as int) =~= d + rest);
    lemma_opt_u16_round_trip(c.sdp_m_line_index, rest);
}

pub proof fn lemma_candidate_items_round_trip(cs: Seq<CandidateView>, rest: Seq<u8>)
    requires
        forall|i: int| 0 <= i < cs.len() ==> #[trigger] candidate_fits(cs[i]),
    ensures
        parse_candidate_items(enc_candidate_items(cs) + rest, cs.len()) == Some(
            (cs, enc_candidate_items(cs).len() as int),
        ),
    decreases cs.len(),
{
    if cs.len() > 0 {
        let init = cs.drop_last();
        let last = cs.last();
        assert(candidate_fits(cs[cs.len() - 1]));
        let s = enc_candidate_items(cs) + rest;
        assert(s =~= enc_candidate_items(init) + (enc_candidate(last) + rest));
        assert forall|i: int| 0 <= i < init.len() implies #[trigger] candidate_fits(init[i]) by {
            assert(candidate_fits(cs[i]));
        }
        lemma_candidate_items_round_trip(init, enc_candidate(last) + rest);
        assert(s.skip(enc_candidate_items(init).len() as int) =~= enc_candidate(last) + rest);
        lemma_candidate_round_trip(last, rest);
        assert(init.push(last) =~= cs);
    } else {
        assert(cs =~= seq![]);
    }
}

pub proof fn lemma_id_items_round_trip(ids: Seq<u32>, rest: Seq<u8>)
    ensures
        parse_id_items(enc_id_items(ids) + rest, ids.len()) == Some(
            (ids, enc_id_items(ids).len() as int),
        ),
        enc_id_items(ids).len() == 4 * ids.len(),
    decreases ids.len(),
{
    if ids.len() > 0 {
        let init = ids.drop_last();
        let last = ids.last();
        let s = enc_id_items(ids) + rest;
        assert(s =~= enc_id_items(init) + (enc_u32(last) + rest));
        lemma_id_items_round_trip(init, enc_u32(last) + rest);
        assert(s.skip(enc_id_items(init).len() as int) =~= enc_u32(last) + rest);
        lemma_u32_round_trip(last, rest);
        assert(init.push(last) =~= ids);
    } else {
        assert(ids =~= seq![]);
    }
}

/// Once a list parser has failed, asking it for more items fails as well.
proof fn lemma_candidate_items_fail_on(s: Seq<u8>, i: nat, n: nat)
    requires
        i <= n,
        parse_candidate_items(s, i) is None,
    ensures
        parse_candidate_items(s, n) is None,
    decreases n - i,
{
    if i < n {
        lemma_candidate_items_fail_on(s, i + 1, n);
    }
}

proof fn lemma_id_items_fail_on(s: Seq<u8>, i: nat, n: nat)
    requires
        i <= n,
        parse_id_items(s, i) is None,
    ensures
        parse_id_items(s, n) is None,
    decreases n - i,
{
    if i < n {
        lemma_id_items_fail_on(s, i + 1, n);
    }
}

fn write_candidate(out: &mut Vec<u8>, c: &IceCandidate)
    ensures
        final(out)@ == old(out)@ + enc_candidate(c@),
        candidate_fits(c@),
{
    write_str(out, &c.candidate);
    write_opt_str(out, &c.sdp_mid);
    write_opt_u16(out, c.sdp_m_line_index);
    assert(final(out)@ =~= old(out)@ + enc_candidate(c@));
}

fn write_candidates(out: &mut Vec<u8>, cs: &Vec<IceCandidate>)
    ensures
        final(out)@ == old(out)@ + enc_u64(cs@.len() as u64) + enc_candidate_items(
            candidates_view(cs@),
        ),
        candidates_fit(candidates_view(cs@)),
{
    let ghost v = candidates_view(cs@);
    write_u64(out, cs.len() as u64);
    let ghost start = out@;
    let mut i: usize = 0;
    while i < cs.len()
        invariant
            i <= cs@.len(),
            v == candidates_view(cs@),
            out@ == start + enc_candidate_items(v.take(i as int)),
            forall|j: int| 0 <= j < i ==> #[trigger] candidate_fits(v[j]),
        decreases cs@.len() - i,
    {
        write_candidate(out, &cs[i]);
        assert(v.take(i + 1).drop_last() =~= v.take(i as int));
        i = i + 1;
    }
    assert(v.take(i as int) =~= v);
}

fn write_ids(out: &mut Vec<u8>, ids: &Vec<u32>)
    ensures
        final(out)@ == old(out)@ + enc_u64(ids@.len() as u64) + enc_id_items(ids@),
        ids@.len() <= u64::MAX,
{
    write_u64(out, ids.len() as u64);
    let ghost start = out@;
    let mut i: usize = 0;
    while i < ids.len()
        invariant
            i <= ids@.len(),
            out@ == start + enc_id_items(ids@.take(i as int)),
        decreases ids@.len() - i,
    {
        write_u32(out, ids[i]);
        assert(ids@.take(i + 1).drop_last() =~= ids@.take(i as int));
        i = i + 1;
    }
    assert(ids@.take(i as int) =~= ids@);
}

fn read_candidate(buf: &[u8], pos: usize) -> (r: Option<(IceCandidate, usize)>)
    requires
        pos <= buf@.len(),
    ensures
        agrees(
            match r {
                None => None,
                Some((c, q)) => Some((c@, q)),
            },
            parse_candidate(buf@.skip(pos as int)),
            pos,
            buf@.len() as int,
        ),
{
    let ghost s = buf@.skip(pos as int);
    match read_str(buf, pos) {
        None => None,
        Some((candidate, p1)) => {
            assert(s.skip(p1 - pos) =~= buf@.skip(p1 as int));
            match read_opt_str(buf, p1) {
                None => None,
                Some((sdp_mid, p2)) => {
                    assert(s.skip(p2 - pos) =~= buf@.skip(p2 as int));
                    match read_opt_u16(buf, p2) {
                        None => None,
                        Some((sdp_m_line_index, p3)) => Some(
                            (IceCandidate { candidate, sdp_mid, sdp_m_line_index }, p3),
                        ),
                    }
                },
            }
        },
    }
}

fn read_candidates(buf: &[u8], pos: usize, n: u64) -> (r: Option<(Vec<IceCandidate>, usize)>)
    requires
        pos <= buf@.len(),
    ensures
        agrees(
            match r {
                None => None,
                Some((cs, q)) => Some((candidates_view(cs@), q)),
            },
            parse_candidate_items(buf@.skip(pos as int), n as nat),
            pos,
            buf@.len() as int,
        ),
{
    let ghost s = buf@.skip(pos as int);
    let mut out: Vec<IceCandidate> = Vec::new();
    let mut p: usize = pos;
    let mut i: u64 = 0;
    while i < n
        invariant
            pos <= p <= buf@.len(),
            i <= n,
            s == buf@.skip(pos as int),
            parse_candidate_items(s, i as nat) == Some((candidates_view(out@), p - pos)),
        decreases n - i,
    {
        assert(s.skip(p - pos) =~= buf@.skip(p as int));
        match read_candidate(buf, p) {
            None => {
                proof {
                    lemma_candidate_items_fail_on(s, (i + 1) as nat, n as nat);
                }
                return None;
            },
            Some((c, q)) => {
                let ghost prev = out@;
                out.push(c);
                assert(candidates_view(out@) =~= candidates_view(prev).push(out@.last()@));
                p = q;
                i = i + 1;
            },
        }
    }
    Some((out, p))
}

fn read_ids(buf: &[u8], pos: usize, n: u64) -> (r: Option<(Vec<u32>, usize)>)
    requires
        pos <= buf@.len(),
    ensures
        agrees(
            match r {
                None => None,
                Some((ids, q)) => Some((ids@, q)),
            },
            parse_id_items(buf@.skip(pos as int), n as nat),
            pos,
            buf@.len() as int,
        ),
{
    let ghost s = buf@.skip(pos as int);
    let mut out: Vec<u32> = Vec::new();
    let mut p: usize = pos;
    let mut i: u64 = 0;
    while i < n
        invariant
            pos <= p <= buf@.len(),
            i <= n,
            s == buf@.skip(pos as int),
            parse_id_items(s, i as nat) == Some((out@, p - pos)),
        decreases n - i,
    {
        assert(s.skip(p - pos) =~= buf@.skip(p as int));
        match read_u32(buf, p) {
            None => {
                proof {
                    lemma_id_items_fail_on(s, (i + 1) as nat, n as nat);
                }
                return None;
            },
            Some((x, q)) => {
                out.push(x);
                p = q;
                i = i + 1;
            },
        }
    }
    Some((out, p))
}

// ---------------------------------------------------------------------------
// Signaling messages
// ---------------------------------------------------------------------------
pub open spec fn enc_handshake(h: HandshakeView) -> Seq<u8> {
    enc_u32(h.source_id) + enc_u32(h.target_id) + enc_str(h.sdp_description) + enc_u64(
        h.ice_candidates.len() as u64,
    ) + enc_candidate_items(h.ice_candidates)
}

pub open spec fn handshake_fits(h: HandshakeView) -> bool {
    str_fits(h.sdp_description) && candidates_fit(h.ice_candidates)
}

/// The encoding of a signaling message: discriminant 0 for `ConnectSuccess`,
/// 1 for `PeerHandshake`, then the fields.
pub open spec fn enc_message(m: MessageView) -> Seq<u8> {
    match m {
        MessageView::ConnectSuccess { lobby_id, user_id, peers_id } => enc_u32(0) + enc_u64(lobby_id)
            + enc_u32(user_id) + enc_u64(peers_id.len() as u64) + enc_id_items(peers_id),
        MessageView::PeerHandshake(h) => enc_u32(1) + enc_handshake(h),
    }
}

/// Every length in `m` can be written in a `u64`: true of every message that
/// a program holds.
pub open spec fn message_fits(m: MessageView) -> bool {
    match m {
        MessageView::ConnectSuccess { peers_id, .. } => peers_id.len() <= u64::MAX,
        MessageView::PeerHandshake(h) => handshake_fits(h),
    }
}

pub open spec fn parse_handshake(s: Seq<u8>) -> Option<(HandshakeView, int)> {
    match parse_u32(s) {
        None => None,
        Some((source_id, _)) => match parse_u32(s.skip(4)) {
            None => None,
            Some((target_id, _)) => match parse_str(s.skip(8)) {
                None => None,
                Some((sdp_description, k)) => match parse_u64(s.skip(8 + k)) {
                    None => None,
                    Some((n, _)) => match parse_candidate_items(s.skip(16 + k), n as nat) {
                        None => None,
                        Some((ice_candidates, k2)) => Some(
                            (
                                HandshakeView {
                                    source_id,
                                    target_id,
                                    sdp_description,
                                    ice_candidates,
                                },
                                16 + k + k2,
                            ),
                        ),
                    },
                },
            },
        },
    }
}

pub open spec fn parse_connect_success(s: Seq<u8>) -> Option<(MessageView, int)> {
    match parse_u64(s) {
        None => None,
        Some((lobby_id, _)) => match parse_u32(s.skip(8)) {
            None => None,
            Some((user_id, _)) => match parse_u64(s.skip(12)) {
                None => None,
                Some((n, _)) => match parse_id_items(s.skip(20), n as nat) {
                    None => None,
                    Some((peers_id, k)) => Some(
                        (MessageView::ConnectSuccess { lobby_id, user_id, peers_id }, 20 + k),
                    ),
                },
            },
        },
    }
}

pub open spec fn parse_message(s: Seq<u8>) -> Option<(MessageView, int)> {
    match parse_u32(s) {
        None => None,
        Some((tag, _)) => if tag == 0 {
            match parse_connect_success(s.skip(4)) {
                None => None,
                Some((m, k)) => Some((m, 4 + k)),
            }
        } else if tag == 1 {
            match parse_handshake(s.skip(4)) {
                None => None,
                Some((h, k)) => Some((MessageView::PeerHandshake(h), 4 + k)),
            }
        } else {
            None
        },
    }
}

/// The message that `s` holds, if `s` is exactly the encoding of one.
pub open spec fn decoded_message(s: Seq<u8>) -> Option<MessageView> {
    match parse_message(s) {
        Some((m, k)) => if k == s.len() {
            Some(m)
        } else {
            None
        },
        None => None,
    }
}

pub proof fn lemma_handshake_round_trip(h: HandshakeView, rest: Seq<u8>)
    requires
        handshake_fits(h),
    ensures
        parse_handshake(enc_handshake(h) + rest) == Some((h, enc_handshake(h).len() as int)),
{
    let cs = h.ice_candidates;
    let a = enc_str(h.sdp_description);
    let al = a.len() as int;
    let items = enc_candidate_items(cs);
    let s = enc_handshake(h) + rest;
    lemma_u32_round_trip(h.source_id, s.skip(4));
    assert(s =~= enc_u32(h.source_id) + s.skip(4));
    lemma_u32_round_trip(h.target_id, s.skip(8));
    assert(s.skip(4) =~= enc_u32(h.target_id) + s.skip(8));
    lemma_str_round_trip(h.sdp_description, s.skip(8 + al));
    assert(s.skip(8) =~= a + s.skip(8 + al));
    lemma_u64_round_trip(cs.len() as u64, items + rest);
    assert(s.skip(8 + al) =~= enc_u64(cs.len() as u64) + (items + rest));
    assert(s.skip(16 + al) =~= items + rest);
    lemma_candidate_items_round_trip(cs, rest);
}

pub proof fn lemma_connect_success_round_trip(lobby_id: u64, user_id: u32, peers_id: Seq<u32>, rest: Seq<u8>)
    requires
        peers_id.len() <= u64::MAX,
    ensures
        ({
            let e = enc_u64(lobby_id) + enc_u32(user_id) + enc_u64(peers_id.len() as u64)
                + enc_id_items(peers_id);
            parse_connect_success(e + rest) == Some(
                (MessageView::ConnectSuccess { lobby_id, user_id, peers_id }, e.len() as int),
            )
        }),
{
    let items = enc_id_items(peers_id);
    let s = enc_u64(lobby_id) + enc_u32(user_id) + enc_u64(peers_id.len() as u64) + items + rest;
    lemma_u64_round_trip(lobby_id, s.skip(8));
    assert(s =~= enc_u64(lobby_id) + s.skip(8));
    lemma_u32_round_trip(user_id, s.skip(12));
    assert(s.skip(8) =~= enc_u32(user_id) + s.skip(12));
    lemma_u64_round_trip(peers_id.len() as u64, items + rest);
    assert(s.skip(12) =~= enc_u64(peers_id.len() as u64) + (items + rest));
    assert(s.skip(20) =~= items + rest);
    lemma_id_items_round_trip(peers_id, rest);
}

/// Decoding the encoding of any signaling message, `ConnectSuccess` or
/// `PeerHandshake`, gives back an equal message, field for field.
pub proof fn lemma_message_round_trip(m: MessageView)
    requires
        message_fits(m),
    ensures
        decoded_message(enc_message(m)) == Some(m),
{
    let e = enc_message(m);
    match m {
        MessageView::ConnectSuccess { lobby_id, user_id, peers_id } => {
            let body = enc_u64(lobby_id) + enc_u32(user_id) + enc_u64(peers_id.len() as u64)
                + enc_id_items(peers_id);
            assert(e =~= enc_u32(0) + body);
            lemma_u32_round_trip(0, body);
            lemma_connect_success_round_trip(lobby_id, user_id, peers_id, seq![]);
            assert(e.skip(4) =~= body + seq![]);
        },
        MessageView::PeerHandshake(h) => {
            lemma_u32_round_trip(1, enc_handshake(h));
            lemma_handshake_round_trip(h, seq![]);
            assert(e.skip(4) =~= enc_handshake(h) + seq![]);
        },
    }
}

fn write_handshake(out: &mut Vec<u8>, h: &PeerHandshake)
    ensures
        final(out)@ == old(out)@ + enc_handshake(h@),
        handshake_fits(h@),
{
    write_u32(out, h.source_id);
    write_u32(out, h.target_id);
    write_str(out, &h.sdp_description);
    write_candidates(out, &h.ice_candidates);
    assert(final(out)@ =~= old(out)@ + enc_handshake(h@));
}

/// The bytes that carry `m` over the signaling socket.
pub fn encode_message(m: &WebSocketMessage) -> (r: Vec<u8>)
    ensures
        r@ == enc_message(m@),
        message_fits(m@),
{
    let mut out: Vec<u8> = Vec::new();
    match m {
        WebSocketMessage::ConnectSuccess { lobby_id, user_id, peers_id } => {
            write_u32(&mut out, 0);
            write_u64(&mut out, *lobby_id);
            write_u32(&mut out, *user_id);
            write_ids(&mut out, peers_id);
        },
        WebSocketMessage::PeerHandshake(h) => {
            write_u32(&mut out, 1);
            write_handshake(&mut out, h);
        },
    }
    assert(out@ =~= enc_message(m@));
    out
}

fn read_handshake(buf: &[u8], pos: usize) -> (r: Option<(PeerHandshake, usize)>)
    requires
        pos <= buf@.len(),
    ensures
        agrees(
            match r {
                None => None,
                Some((h, q)) => Some((h@, q)),
            },
            parse_handshake(buf@.skip(pos as int)),
            pos,
            buf@.len() as int,
        ),
{
    let ghost s = buf@.skip(pos as int);
    let (source_id, p1) = match read_u32(buf, pos) {
        None => return None,
        Some(v) => v,
    };
    assert(s.skip(4) =~= buf@.skip(p1 as int));
    let (target_id, p2) = match read_u32(buf, p1) {
        None => return None,
        Some(v) => v,
    };
    assert(s.skip(8) =~= buf@.skip(p2 as int));
    let (sdp_description, p3) = match read_str(buf, p2) {
        None => return None,
        Some(v) => v,
    };
    assert(s.skip(p3 - pos) =~= buf@.skip(p3 as int));
    let (n, p4) = match read_u64(buf, p3) {
        None => return None,
        Some(v) => v,
    };
    assert(s.skip(p4 - pos) =~= buf@.skip(p4 as int));
    let (ice_candidates, p5) = match read_candidates(buf, p4, n) {
        None => return None,
        Some(v) => v,
    };
    Some((PeerHandshake { source_id, target_id, sdp_description, ice_candidates }, p5))
}

fn read_connect_success(buf: &[u8], pos: usize) -> (r: Option<(WebSocketMessage, usize)>)
    requires
        pos <= buf@.len(),
    ensures
        agrees(
            match r {
                None => None,
                Some((m, q)) => Some((m@, q)),
            },
            parse_connect_success(buf@.skip(pos as int)),
            pos,
            buf@.len() as int,
        ),
{
    let ghost s = buf@.skip(pos as int);
    let (lobby_id, p1) = match read_u64(buf, pos) {
        None => return None,
        Some(v) => v,
    };
    assert(s.skip(8) =~= buf@.skip(p1 as int));
    let (user_id, p2) = match read_u32(buf, p1) {
        None => return None,
        Some(v) => v,
    };
    assert(s.skip(12) =~= buf@.skip(p2 as int));
    let (n, p3) = match read_u64(buf, p2) {
        None => return None,
        Some(v) => v,
    };
    assert(s.skip(20) =~= buf@.skip(p3 as int));
    let (peers_id, p4) = match read_ids(buf, p3, n) {
        None => return None,
        Some(v) => v,
    };
    Some((WebSocketMessage::ConnectSuccess { lobby_id, user_id, peers_id }, p4))
}

/// The signaling message that `buf` holds; `None` unless `buf` is exactly the
/// encoding of one.
pub fn decode_message(buf: &[u8]) -> (r: Option<WebSocketMessage>)
    ensures
        match r {
            None => decoded_message(buf@) is None,
            Some(m) => decoded_message(buf@) == Some(m@),
        },
{
    assert(buf@.skip(0) =~= buf@);
    let (tag, p) = match read_u32(buf, 0) {
        None => return None,
        Some(v) => v,
    };
    assert(buf@.skip(4) =~= buf@.skip(p as int));
    let (m, q) = if tag == 0 {
        match read_connect_success(buf, p) {
            None => return None,
            Some(v) => v,
        }
    } else if tag == 1 {
        match read_handshake(buf, p) {
            None => return None,
            Some((h, q)) => (WebSocketMessage::PeerHandshake(h), q),
        }
    } else {
        return None;
    };
    if q == buf.len() {
        Some(m)
    } else {
        None
    }
}

// ---------------------------------------------------------------------------
// Peer channel messages
// ---------------------------------------------------------------------------
pub open spec fn enc_peer_message(p: PeerMessageView) -> Seq<u8> {
    match p {
        PeerMessageView::Ping => enc_u32(0),
        PeerMessageView::Pong(name) => enc_u32(1) + enc_str(name),
    }
}

pub open spec fn peer_message_fits(p: PeerMessageView) -> bool {
    p matches PeerMessageView::Pong(name) ==> str_fits(name)
}

/// The envelope: the sender's identifier, then the application message.
pub open spec fn enc_envelope(e: EnvelopeView) -> Seq<u8> {
    enc_u32(e.sender_id) + enc_peer_message(e.payload)
}

pub open spec fn parse_peer_message(s: Seq<u8>) -> Option<(PeerMessageView, int)> {
    match parse_u32(s) {
        None => None,
        Some((tag, _)) => if tag == 0 {
            Some((PeerMessageView::Ping, 4))
        } else if tag == 1 {
            match parse_str(s.skip(4)) {
                None => None,
                Some((name, k)) => Some((PeerMessageView::Pong(name), 4 + k)),
            }
        } else {
            None
        },
    }
}

/// The envelope that `s` holds, if `s` is exactly the encoding of one.
pub open spec fn decoded_envelope(s: Seq<u8>) -> Option<EnvelopeView> {
    match parse_u32(s) {
        None => None,
        Some((sender_id, _)) => match parse_peer_message(s.skip(4)) {
            None => None,
            Some((payload, k)) => if 4 + k == s.len() {
                Some(EnvelopeView { sender_id, payload })
            } else {
                None
            },
        },
    }
}

/// Decoding the encoding of any envelope gives back an equal envelope.
pub proof fn lemma_envelope_round_trip(e: EnvelopeView)
    requires
        peer_message_fits(e.payload),
    ensures
        decoded_envelope(enc_envelope(e)) == Some(e),
{
    let body = enc_peer_message(e.payload);
    let s = enc_envelope(e);
    lemma_u32_round_trip(e.sender_id, body);
    assert(s.skip(4) =~= body);
    match e.payload {
        PeerMessageView::Ping => {
            lemma_u32_round_trip(0, seq![]);
            assert(body =~= enc_u32(0) + seq![]);
        },
        PeerMessageView::Pong(name) => {
            lemma_u32_round_trip(1, enc_str(name));
            lemma_str_round_trip(name, seq![]);
            assert(body.skip(4) =~= enc_str(name) + seq![]);
        },
    }
}

/// The bytes that carry `payload` from `sender_id` over a peer channel.
pub fn encode_envelope(sender_id: u32, payload: &PeerMessage) -> (r: Vec<u8>)
    ensures
        r@ == enc_envelope(EnvelopeView { sender_id, payload: payload@ }),
        peer_message_fits(payload@),
{
    let mut out: Vec<u8> = Vec::new();
    write_u32(&mut out, sender_id);
    match payload {
        PeerMessage::Ping => {
            write_u32(&mut out, 0);
        },
        PeerMessage::Pong(name) => {
            write_u32(&mut out, 1);
            write_str(&mut out, name);
        },
    }
    assert(out@ =~= enc_envelope(EnvelopeView { sender_id, payload: payload@ }));
    out
}

/// The envelope that `buf` holds; `None` unless `buf` is exactly the
/// encoding of one.
pub fn decode_envelope(buf: &[u8]) -> (r: Option<MessageEnvelope>)
    ensures
        match r {
            None => decoded_envelope(buf@) is None,
            Some(e) => decoded_envelope(buf@) == Some(e@),
        },
{
    assert(buf@.skip(0) =~= buf@);
    let (sender_id, p) = match read_u32(buf, 0) {
        None => return None,
        Some(v) => v,
    };
    let ghost s = buf@.skip(4);
    assert(s =~= buf@.skip(p as int));
    let (tag, q) = match read_u32(buf, p) {
        None => return None,
        Some(v) => v,
    };
    let (payload, end) = if tag == 0 {
        (PeerMessage::Ping, q)
    } else if tag == 1 {
        assert(s.skip(4) =~= buf@.skip(q as int));
        match read_str(buf, q) {
            None => return None,
            Some((name, end)) => (PeerMessage::Pong(name), end),
        }
    } else {
        return None;
    };
    if end == buf.len() {
        Some(MessageEnvelope { sender_id, payload })
    } else {
        None
    }
}

} // verus!
