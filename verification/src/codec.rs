//! The framing codec: one message is a header block of CRLF-separated
//! ASCII lines ending in a blank line, whose mandatory `Content-Length`
//! header gives the byte count of the JSON body that follows.
//!
//! Decoding is given as a mathematical definition over the buffered
//! bytes, with executable functions proved to return exactly what it
//! says, and a proof that decoding an encoded message yields the message
//! back whatever bytes follow it.

use vstd::prelude::*;

verus! {

use crate::bytes_util::{dec_digits, push_dec, lemma_dec_digits_are_digits, copy_range};
use crate::json::Json;
use crate::json_ser::{json_ser, write_json};
use crate::json_parse::{is_digit, digits_end, digits_val, p_document};
use crate::json_parse_exec::x_document;
use crate::json_round_trip::{
    bytes_at, lemma_bytes_at_split, lemma_bytes_at_index, lemma_byte_at, lemma_digits_end_exact,
    lemma_digits_val_dec, lemma_parse_document_ser,
};
use crate::message::{
    Message, MessageData, msg_json, json_to_msg, msg_wf, lemma_msg_json_wf, lemma_json_msg_round,
    msg_to_json, json_to_message,
};

/// The bytes of the mandatory header name, colon and space included.
pub open spec fn cl_prefix() -> Seq<u8> {
    seq![
        0x43u8, 0x6f, 0x6e, 0x74, 0x65, 0x6e, 0x74, 0x2d, 0x4c, 0x65, 0x6e, 0x67, 0x74, 0x68,
        0x3a, 0x20,
    ]
}

/// The header block terminator: two CRLF pairs.
pub open spec fn crlf2() -> Seq<u8> {
    seq![0x0du8, 0x0a, 0x0d, 0x0a]
}

/// The framed bytes of a body: header, terminator, body.
pub open spec fn frame_bytes(body: Seq<u8>) -> Seq<u8> {
    cl_prefix() + dec_digits(body.len()) + crlf2() + body
}

/// The encoded bytes of a message.
pub open spec fn encode_msg(m: MessageData) -> Seq<u8> {
    frame_bytes(json_ser(msg_json(m)))
}

/// The first position at or after `i` where the header terminator
/// stands, if any.
pub open spec fn find_delim(s: Seq<u8>, i: int) -> Option<int>
    decreases s.len() - i when 0 <= i
{
    if i + 4 > s.len() {
        None
    } else if s[i] == 0x0d && s[i + 1] == 0x0a && s[i + 2] == 0x0d && s[i + 3] == 0x0a {
        Some(i)
    } else {
        find_delim(s, i + 1)
    }
}

/// The first position at or after `i` where a CRLF pair stands, if any.
pub open spec fn find_crlf(s: Seq<u8>, i: int) -> Option<int>
    decreases s.len() - i when 0 <= i
{
    if i + 2 > s.len() {
        None
    } else if s[i] == 0x0d && s[i + 1] == 0x0a {
        Some(i)
    } else {
        find_crlf(s, i + 1)
    }
}

/// A found CRLF lies at or after `i`, within the input.
pub proof fn lemma_find_crlf_bounds(s: Seq<u8>, i: int)
    requires
        0 <= i,
    ensures
        find_crlf(s, i) matches Some(p) ==> i <= p && p + 2 <= s.len(),
    decreases s.len() - i,
{
    if i + 2 <= s.len() && !(s[i] == 0x0d && s[i + 1] == 0x0a) {
        lemma_find_crlf_bounds(s, i + 1);
    }
}

/// The content length announced by the header block, scanned line by
/// line from `i`.  The first line bearing the prefix decides: its value
/// is the digits that fill the rest of the line, and a line whose rest
/// is empty, holds a non-digit, or names a count beyond the address
/// space is unparsable.
pub open spec fn find_cl(hdr: Seq<u8>, i: int) -> Option<int>
    decreases hdr.len() - i when 0 <= i
{
    let e = match find_crlf(hdr, i) {
        Some(p) => p,
        None => hdr.len() as int,
    };
    if i + 16 <= e <= hdr.len() && hdr.subrange(i, i + 16) == cl_prefix() {
        if e > i + 16 && digits_end(hdr, i + 16) == e && digits_val(hdr, i + 16, e)
            <= usize::MAX as nat {
            Some(digits_val(hdr, i + 16, e) as int)
        } else {
            None
        }
    } else {
        match find_crlf(hdr, i) {
            Some(p) => {
                proof {
                    lemma_find_crlf_bounds(hdr, i);
                }
                if p + 2 <= i {
                    None
                } else {
                    find_cl(hdr, p + 2)
                }
            },
            None => None,
        }
    }
}

/// What decoding a buffer yields: too few bytes so far, a header
/// failure, a body failure, or a message and the count of bytes it
/// occupied.
pub enum DecodeSpec {
    Incomplete,
    BadHeader,
    BadBody,
    Done(MessageData, int),
}

/// The decoding of a buffer.  Without a complete header block, or with a
/// body shorter than announced, more bytes are needed; a header block
/// without a parsable content length is a framing failure; a body that
/// is not a well-formed message is a serialization failure.
pub open spec fn spec_decode(s: Seq<u8>) -> DecodeSpec {
    match find_delim(s, 0) {
        None => DecodeSpec::Incomplete,
        Some(d) => {
            let hdr = s.subrange(0, d);
            match find_cl(hdr, 0) {
                None => DecodeSpec::BadHeader,
                Some(n) => {
                    let bs = d + 4;
                    if bs + n > s.len() {
                        DecodeSpec::Incomplete
                    } else {
                        let body = s.subrange(bs, bs + n);
                        match p_document(body) {
                            None => DecodeSpec::BadBody,
                            Some(j) => match json_to_msg(j) {
                                None => DecodeSpec::BadBody,
                                Some(m) => DecodeSpec::Done(m, bs + n),
                            },
                        }
                    }
                },
            }
        },
    }
}

/// The result of decoding a buffer.
#[derive(Debug)]
pub enum Decoded {
    /// The buffer does not yet hold a whole message.
    NeedMore,
    /// The header block is complete but carries no parsable content
    /// length: a framing failure.
    BadHeader,
    /// The body is complete but is not a well-formed message: a
    /// serialization failure.
    BadBody,
    /// One message, and the count of buffer bytes it occupied.
    Msg(Message, usize),
}

/// Frames a body: header naming its byte count, terminator, body.
pub fn frame(body: &Vec<u8>) -> (r: Vec<u8>)
    ensures
        r@ == frame_bytes(body@),
{
    let mut out: Vec<u8> = Vec::new();
    out.push(0x43);
    out.push(0x6f);
    out.push(0x6e);
    out.push(0x74);
    out.push(0x65);
    out.push(0x6e);
    out.push(0x74);
    out.push(0x2d);
    out.push(0x4c);
    out.push(0x65);
    out.push(0x6e);
    out.push(0x67);
    out.push(0x74);
    out.push(0x68);
    out.push(0x3a);
    out.push(0x20);
    assert(out@ =~= cl_prefix());
    push_dec(body.len() as u64, &mut out);
    out.push(0x0d);
    out.push(0x0a);
    out.push(0x0d);
    out.push(0x0a);
    let mut bi: usize = 0;
    while bi < body.len()
        invariant
            bi <= body@.len(),
            out@ == cl_prefix() + dec_digits(body@.len()) + crlf2() + body@.take(bi as int),
        decreases body@.len() - bi,
    {
        out.push(body[bi]);
        assert(out@ =~= cl_prefix() + dec_digits(body@.len()) + crlf2() + body@.take(bi + 1));
        bi += 1;
    }
    assert(body@.take(body@.len() as int) =~= body@);
    out
}

/// The encoded bytes of a message.
pub fn encode(m: &Message) -> (r: Vec<u8>)
    ensures
        r@ == encode_msg(m@),
{
    let j = msg_to_json(m);
    let mut body: Vec<u8> = Vec::new();
    write_json(&j, &mut body);
    frame(&body)
}

/// Finds the header terminator.
fn x_find_delim(s: &Vec<u8>) -> (r: Option<usize>)
    ensures
        (match r {
            Some(d) => find_delim(s@, 0) == Some(d as int) && d + 4 <= s@.len(),
            None => find_delim(s@, 0) is None,
        }),
{
    let slen = s.len();
    if slen < 4 {
        return None;
    }
    let mut i: usize = 0;
    while i <= slen - 4
        invariant
            slen == s@.len(),
            4 <= slen,
            i <= slen,
            find_delim(s@, 0) == find_delim(s@, i as int),
        decreases s@.len() - i,
    {
        if s[i] == 0x0d && s[i + 1] == 0x0a && s[i + 2] == 0x0d && s[i + 3] == 0x0a {
            return Some(i);
        }
        i += 1;
    }
    None
}

/// Finds the next CRLF pair at or after `i`.
fn x_find_crlf(s: &Vec<u8>, i: usize) -> (r: Option<usize>)
    requires
        i <= s@.len(),
    ensures
        (match r {
            Some(p) => find_crlf(s@, i as int) == Some(p as int) && i <= p && p + 2 <= s@.len()
                && s@[p as int] == 0x0d,
            None => find_crlf(s@, i as int) is None,
        }),
{
    let slen = s.len();
    if slen < 2 {
        return None;
    }
    let mut k = i;
    while k <= slen - 2
        invariant
            slen == s@.len(),
            2 <= slen,
            i <= k <= s@.len(),
            find_crlf(s@, i as int) == find_crlf(s@, k as int),
        decreases s@.len() - k,
    {
        if s[k] == 0x0d && s[k + 1] == 0x0a {
            return Some(k);
        }
        k += 1;
    }
    None
}

/// Growing a digit run only grows its value.
proof fn lemma_digits_val_monotone(s: Seq<u8>, a: int, k: int, e: int)
    requires
        a <= k <= e,
    ensures
        digits_val(s, a, k) <= digits_val(s, a, e),
    decreases e - k,
{
    if k < e {
        lemma_digits_val_monotone(s, a, k + 1, e);
        assert(digits_val(s, a, k + 1) == digits_val(s, a, k) * 10 + (s[k] - 0x30) as nat);
        assert(digits_val(s, a, k) * 10 >= digits_val(s, a, k));
    }
}

/// The value of a digit run, or nothing when it exceeds the address
/// space.
fn x_digits_value(s: &Vec<u8>, a: usize, b: usize) -> (r: Option<usize>)
    requires
        a <= b <= s@.len(),
        forall|w: int| a <= w < b ==> is_digit(#[trigger] s@[w]),
    ensures
        (match r {
            Some(v) => v as nat == digits_val(s@, a as int, b as int) && v <= usize::MAX,
            None => digits_val(s@, a as int, b as int) > usize::MAX as nat,
        }),
{
    let mut acc: u64 = 0;
    let mut over = false;
    let mut k = a;
    while k < b
        invariant
            a <= k <= b <= s@.len(),
            forall|w: int| a <= w < b ==> is_digit(#[trigger] s@[w]),
            !over ==> acc as nat == digits_val(s@, a as int, k as int),
            over ==> digits_val(s@, a as int, k as int) > u64::MAX as nat,
        decreases b - k,
    {
        let byte = s[k];
        let d: u64 = (byte - 0x30) as u64;
        proof {
            assert(is_digit(s@[k as int]));
            assert(digits_val(s@, a as int, k + 1) == digits_val(s@, a as int, k as int) * 10 + (
            s@[k as int] - 0x30) as nat);
        }
        if !over {
            if acc > 1844674407370955161u64 || (acc == 1844674407370955161u64 && d > 5) {
                over = true;
            } else {
                acc = acc * 10 + d;
            }
        } else {
            proof {
                assert(digits_val(s@, a as int, k as int) * 10 >= digits_val(
                    s@,
                    a as int,
                    k as int,
                ));
            }
        }
        k += 1;
    }
    if over {
        return None;
    }
    if acc > usize::MAX as u64 {
        return None;
    }
    Some(acc as usize)
}

/// The header name, colon and space, as a byte vector.
fn cl_prefix_bytes() -> (r: Vec<u8>)
    ensures
        r@ == cl_prefix(),
{
    let mut v: Vec<u8> = Vec::new();
    v.push(0x43);
    v.push(0x6f);
    v.push(0x6e);
    v.push(0x74);
    v.push(0x65);
    v.push(0x6e);
    v.push(0x74);
    v.push(0x2d);
    v.push(0x4c);
    v.push(0x65);
    v.push(0x6e);
    v.push(0x67);
    v.push(0x74);
    v.push(0x68);
    v.push(0x3a);
    v.push(0x20);
    assert(v@ =~= cl_prefix());
    v
}

/// Whether the bytes of `pat` stand at position `at` of `s`.
fn region_matches(s: &Vec<u8>, at: usize, pat: &Vec<u8>) -> (r: bool)
    requires
        at + pat@.len() <= s@.len(),
    ensures
        r == (s@.subrange(at as int, at + pat@.len()) == pat@),
{
    let slen = s.len();
    let plen = pat.len();
    let mut q: usize = 0;
    while q < plen
        invariant
            slen == s@.len(),
            plen == pat@.len(),
            q <= pat@.len(),
            at + pat@.len() <= s@.len(),
            forall|w: int| 0 <= w < q ==> s@[at + w] == pat@[w],
        decreases pat@.len() - q,
    {
        if s[at + q] != pat[q] {
            assert(s@.subrange(at as int, at + pat@.len())[q as int] == s@[at + q]);
            assert(s@.subrange(at as int, at + pat@.len()) != pat@);
            return false;
        }
        q += 1;
    }
    assert forall|w: int|
        0 <= w < pat@.len() implies s@.subrange(at as int, at + pat@.len())[w] == pat@[w] by {
        assert(s@.subrange(at as int, at + pat@.len())[w] == s@[at + w]);
    }
    assert(s@.subrange(at as int, at + pat@.len()) =~= pat@);
    true
}

/// The content length announced by a header block.
fn x_find_cl(hdr: &Vec<u8>) -> (r: Option<usize>)
    ensures
        (match r {
            Some(n) => find_cl(hdr@, 0) == Some(n as int),
            None => find_cl(hdr@, 0) is None,
        }),
{
    let pfx = cl_prefix_bytes();
    let hl = hdr.len();
    let mut li: usize = 0;
    loop
        invariant
            hl == hdr@.len(),
            li <= hdr@.len(),
            pfx@ == cl_prefix(),
            find_cl(hdr@, 0) == find_cl(hdr@, li as int),
        decreases hdr@.len() - li,
    {
        let crlf = x_find_crlf(hdr, li);
        let e = match crlf {
            Some(p) => p,
            None => hdr.len(),
        };
        let has_prefix = if e - li >= 16 {
            region_matches(hdr, li, &pfx)
        } else {
            false
        };
        if has_prefix {
            let ds = li + 16;
            let mut de = ds;
            while de < e && 0x30 <= hdr[de] && hdr[de] <= 0x39
                invariant
                    ds <= de <= e <= hdr@.len(),
                    digits_end(hdr@, ds as int) == digits_end(hdr@, de as int),
                    forall|w: int| ds <= w < de ==> is_digit(#[trigger] hdr@[w]),
                decreases e - de,
            {
                de += 1;
            }
            if de < e {
                // a non-digit before the line end: unparsable
                assert(digits_end(hdr@, de as int) == de as int);
                return None;
            }
            // the run reaches the line end, which is a CR or the block end
            proof {
                match crlf {
                    Some(p) => {
                        assert(hdr@[e as int] == 0x0d);
                        assert(digits_end(hdr@, e as int) == e as int);
                    },
                    None => {
                        assert(digits_end(hdr@, e as int) == e as int);
                    },
                }
            }
            if e == ds {
                return None;
            }
            match x_digits_value(hdr, ds, e) {
                Some(v) => {
                    return Some(v);
                },
                None => {
                    return None;
                },
            }
        } else {
            match crlf {
                Some(p) => {
                    li = p + 2;
                },
                None => {
                    return None;
                },
            }
        }
    }
}

/// Decodes one message from the front of the buffer.
pub fn decode(s: &Vec<u8>) -> (r: Decoded)
    ensures
        (match r {
            Decoded::NeedMore => spec_decode(s@) is Incomplete,
            Decoded::BadHeader => spec_decode(s@) is BadHeader,
            Decoded::BadBody => spec_decode(s@) is BadBody,
            Decoded::Msg(m, used) => spec_decode(s@) == DecodeSpec::Done(m@, used as int),
        }),
{
    let slen = s.len();
    let d = match x_find_delim(s) {
        Some(d) => d,
        None => {
            return Decoded::NeedMore;
        },
    };
    let hdr = copy_range(s, 0, d);
    let n = match x_find_cl(&hdr) {
        Some(n) => n,
        None => {
            return Decoded::BadHeader;
        },
    };
    let bs = d + 4;
    if n > s.len() - bs {
        return Decoded::NeedMore;
    }
    let body = copy_range(s, bs, bs + n);
    let j = match x_document(&body) {
        Some(j) => j,
        None => {
            return Decoded::BadBody;
        },
    };
    match json_to_message(&j) {
        Some(m) => Decoded::Msg(m, bs + n),
        None => Decoded::BadBody,
    }
}

/// The terminator is found exactly where it first stands.
proof fn lemma_find_delim_exact(s: Seq<u8>, i: int, d: int)
    requires
        0 <= i <= d,
        d + 4 <= s.len(),
        s[d] == 0x0d && s[d + 1] == 0x0a && s[d + 2] == 0x0d && s[d + 3] == 0x0a,
        forall|w: int| i <= w < d ==> s[w] != 0x0d,
    ensures
        find_delim(s, i) == Some(d),
    decreases d - i,
{
    if i < d {
        lemma_find_delim_exact(s, i + 1, d);
    }
}

/// A region without carriage returns holds no CRLF.
proof fn lemma_find_crlf_none(s: Seq<u8>, i: int)
    requires
        0 <= i,
        forall|w: int| i <= w < s.len() ==> s[w] != 0x0d,
    ensures
        find_crlf(s, i) is None,
    decreases s.len() - i,
{
    if i + 2 <= s.len() {
        lemma_find_crlf_none(s, i + 1);
    }
}

/// No byte of the header name is a carriage return or a digit boundary
/// surprise: each one is listed.
proof fn lemma_cl_prefix_bytes()
    ensures
        cl_prefix().len() == 16,
        forall|w: int| 0 <= w < 16 ==> cl_prefix()[w] != 0x0d,
        forall|w: int| 0 <= w < 16 ==> !is_digit(cl_prefix()[w]) || w >= 16,
{
    assert forall|w: int| 0 <= w < 16 implies cl_prefix()[w] != 0x0d && !is_digit(
        cl_prefix()[w],
    ) by {
        if w == 0 {
            assert(cl_prefix()[0] == 0x43);
        } else if w == 1 {
            assert(cl_prefix()[1] == 0x6f);
        } else if w == 2 {
            assert(cl_prefix()[2] == 0x6e);
        } else if w == 3 {
            assert(cl_prefix()[3] == 0x74);
        } else if w == 4 {
            assert(cl_prefix()[4] == 0x65);
        } else if w == 5 {
            assert(cl_prefix()[5] == 0x6e);
        } else if w == 6 {
            assert(cl_prefix()[6] == 0x74);
        } else if w == 7 {
            assert(cl_prefix()[7] == 0x2d);
        } else if w == 8 {
            assert(cl_prefix()[8] == 0x4c);
        } else if w == 9 {
            assert(cl_prefix()[9] == 0x65);
        } else if w == 10 {
            assert(cl_prefix()[10] == 0x6e);
        } else if w == 11 {
            assert(cl_prefix()[11] == 0x67);
        } else if w == 12 {
            assert(cl_prefix()[12] == 0x74);
        } else if w == 13 {
            assert(cl_prefix()[13] == 0x68);
        } else if w == 14 {
            assert(cl_prefix()[14] == 0x3a);
        } else {
            assert(cl_prefix()[15] == 0x20);
        }
    }
}

/// The canonical header block parses to the length it names.
proof fn lemma_find_cl_canonical(nv: nat)
    requires
        nv <= usize::MAX as nat,
    ensures
        find_cl(cl_prefix() + dec_digits(nv), 0) == Some(nv as int),
{
    let hdr = cl_prefix() + dec_digits(nv);
    let d = hdr.len() as int;
    lemma_dec_digits_are_digits(nv);
    lemma_cl_prefix_bytes();
    assert forall|w: int| 0 <= w < hdr.len() implies hdr[w] != 0x0d by {
        if w < 16 {
            assert(hdr[w] == cl_prefix()[w]);
        } else {
            assert(hdr[w] == dec_digits(nv)[w - 16]);
            assert(is_digit(hdr[w]));
        }
    }
    lemma_find_crlf_none(hdr, 0);
    assert(hdr.subrange(0, 16) =~= cl_prefix());
    assert(bytes_at(hdr, 16, dec_digits(nv))) by {
        assert(hdr.subrange(16, hdr.len() as int) =~= dec_digits(nv));
    }
    assert forall|w: int| 16 <= w < d implies is_digit(#[trigger] hdr[w]) by {
        assert(hdr[w] == dec_digits(nv)[w - 16]);
    }
    lemma_digits_end_exact(hdr, 16, d);
    lemma_digits_val_dec(hdr, 16, nv);
}

/// The terminator of a framed message is found at the header's end.
proof fn lemma_find_delim_canonical(s: Seq<u8>, hdr: Seq<u8>, d: int)
    requires
        d == hdr.len(),
        bytes_at(s, 0, hdr),
        d + 4 <= s.len(),
        s[d] == 0x0d && s[d + 1] == 0x0a && s[d + 2] == 0x0d && s[d + 3] == 0x0a,
        forall|w: int| 0 <= w < d ==> hdr[w] != 0x0d,
    ensures
        find_delim(s, 0) == Some(d),
{
    assert forall|w: int| 0 <= w < d implies s[w] != 0x0d by {
        lemma_byte_at(s, 0, hdr, w);
    }
    lemma_find_delim_exact(s, 0, d);
}

/// The round trip: decoding the encoded bytes of a well-formed message,
/// whatever bytes follow them in the buffer, yields exactly that message
/// and consumes exactly its bytes.
#[verifier::rlimit(80)]
pub proof fn lemma_decode_encode(m: MessageData, rest: Seq<u8>)
    requires
        msg_wf(m),
        json_ser(msg_json(m)).len() <= usize::MAX as nat,
    ensures
        spec_decode(encode_msg(m) + rest) == DecodeSpec::Done(m, encode_msg(m).len() as int),
{
    let body = json_ser(msg_json(m));
    let n = body.len() as int;
    let hdr = cl_prefix() + dec_digits(body.len());
    let d = hdr.len() as int;
    let s = encode_msg(m) + rest;
    lemma_dec_digits_are_digits(body.len());
    lemma_cl_prefix_bytes();
    assert(encode_msg(m) == hdr + crlf2() + body);
    // place the pieces
    assert(bytes_at(s, 0, hdr + crlf2() + body)) by {
        assert(s.subrange(0, (hdr + crlf2() + body).len() as int) =~= hdr + crlf2() + body);
    }
    lemma_bytes_at_split(s, 0, hdr + crlf2(), body);
    lemma_bytes_at_split(s, 0, hdr, crlf2());
    // the terminator stands right after the header
    lemma_byte_at(s, d, crlf2(), 0);
    lemma_byte_at(s, d, crlf2(), 1);
    lemma_byte_at(s, d, crlf2(), 2);
    lemma_byte_at(s, d, crlf2(), 3);
    assert forall|w: int| 0 <= w < d implies hdr[w] != 0x0d by {
        if w < 16 {
            assert(hdr[w] == cl_prefix()[w]);
        } else {
            assert(hdr[w] == dec_digits(body.len())[w - 16]);
            assert(is_digit(hdr[w]));
        }
    }
    lemma_find_delim_canonical(s, hdr, d);
    assert(s.subrange(0, d) =~= hdr);
    lemma_find_cl_canonical(body.len());
    // the body region is exactly the serialized message
    let bs = d + 4;
    assert(bs + n <= s.len());
    assert(s.subrange(bs, bs + n) =~= body) by {
        lemma_bytes_at_index(s, bs, body);
        assert forall|w: int| 0 <= w < n implies s.subrange(bs, bs + n)[w] == body[w] by {
            assert(s[bs + w] == body[w]);
        }
    }
    lemma_msg_json_wf(m);
    lemma_parse_document_ser(msg_json(m), body);
    lemma_json_msg_round(m);
    assert(spec_decode(s) == DecodeSpec::Done(m, bs + n));
}


/// The frame of a valid UTF-8 body is valid UTF-8: the header is
/// ASCII.
pub proof fn lemma_frame_valid_utf8(b: Seq<u8>)
    requires
        vstd::utf8::valid_utf8(b),
    ensures
        vstd::utf8::valid_utf8(frame_bytes(b)),
{
    broadcast use vstd::utf8::valid_utf8_concat;

    let hdr = cl_prefix() + dec_digits(b.len()) + crlf2();
    lemma_dec_digits_are_digits(b.len());
    lemma_cl_prefix_ascii();
    assert forall|i: int| 0 <= i < hdr.len() implies #[trigger] hdr[i] < 0x80 by {
        if i < 16 {
            assert(hdr[i] == cl_prefix()[i]);
        } else if i < 16 + dec_digits(b.len()).len() {
            assert(hdr[i] == dec_digits(b.len())[i - 16]);
        } else {
            assert(hdr[i] == crlf2()[i - 16 - dec_digits(b.len()).len()]);
            assert(crlf2()[0] == 0x0d && crlf2()[1] == 0x0a && crlf2()[2] == 0x0d && crlf2()[3]
                == 0x0a);
        }
    }
    crate::bytes_util::lemma_ascii_valid_utf8(hdr);
    assert(frame_bytes(b) == hdr + b);
}

/// Every byte of the header name is ASCII.
proof fn lemma_cl_prefix_ascii()
    ensures
        forall|w: int| 0 <= w < 16 ==> #[trigger] cl_prefix()[w] < 0x80,
{
    assert forall|w: int| 0 <= w < 16 implies #[trigger] cl_prefix()[w] < 0x80 by {
        if w == 0 {
            assert(cl_prefix()[0] == 0x43);
        } else if w == 1 {
            assert(cl_prefix()[1] == 0x6f);
        } else if w == 2 {
            assert(cl_prefix()[2] == 0x6e);
        } else if w == 3 {
            assert(cl_prefix()[3] == 0x74);
        } else if w == 4 {
            assert(cl_prefix()[4] == 0x65);
        } else if w == 5 {
            assert(cl_prefix()[5] == 0x6e);
        } else if w == 6 {
            assert(cl_prefix()[6] == 0x74);
        } else if w == 7 {
            assert(cl_prefix()[7] == 0x2d);
        } else if w == 8 {
            assert(cl_prefix()[8] == 0x4c);
        } else if w == 9 {
            assert(cl_prefix()[9] == 0x65);
        } else if w == 10 {
            assert(cl_prefix()[10] == 0x6e);
        } else if w == 11 {
            assert(cl_prefix()[11] == 0x67);
        } else if w == 12 {
            assert(cl_prefix()[12] == 0x74);
        } else if w == 13 {
            assert(cl_prefix()[13] == 0x68);
        } else if w == 14 {
            assert(cl_prefix()[14] == 0x3a);
        } else {
            assert(cl_prefix()[15] == 0x20);
        }
    }
}

} // verus!
