//! The executable JSON parser.  Each function returns exactly what the
//! mathematical parser definition says for its input.

use vstd::prelude::*;

verus! {

use crate::json::{
    Json, JsonData, jsons_view, pairs_view, lemma_jsons_view_snoc, lemma_pairs_view_snoc,
};
use crate::json_parse::{
    is_ws, is_digit, skip_ws, digits_end, digits_val, hex_val, num_token_end, p_number, p_string,
    p_value, p_elements, p_members, p_document, lemma_skip_ws_bounds, lemma_p_string_bounds,
    lemma_p_value_bounds,
};

/// Whether the byte is JSON whitespace.
fn ws_b(b: u8) -> (r: bool)
    ensures
        r == is_ws(b),
{
    b == 0x20 || b == 0x09 || b == 0x0a || b == 0x0d
}

/// Whether the byte is an ASCII digit.
fn digit_b(b: u8) -> (r: bool)
    ensures
        r == is_digit(b),
{
    0x30 <= b && b <= 0x39
}

/// The value of a hex digit byte.
fn hex_b(b: u8) -> (r: Option<u32>)
    ensures
        r == hex_val(b),
{
    if 0x30 <= b && b <= 0x39 {
        Some((b - 0x30) as u32)
    } else if 0x61 <= b && b <= 0x66 {
        Some((b - 0x61 + 10) as u32)
    } else if 0x41 <= b && b <= 0x46 {
        Some((b - 0x41 + 10) as u32)
    } else {
        None
    }
}

/// Advances past whitespace.
pub fn x_skip_ws(s: &Vec<u8>, i: usize) -> (r: usize)
    requires
        i <= s@.len(),
    ensures
        r as int == skip_ws(s@, i as int),
        i <= r <= s@.len(),
        r < s@.len() ==> !is_ws(s@[r as int]),
    decreases s@.len() - i,
{
    let mut k = i;
    while k < s.len() && ws_b(s[k])
        invariant
            i <= k <= s@.len(),
            skip_ws(s@, i as int) == skip_ws(s@, k as int),
        decreases s@.len() - k,
    {
        k += 1;
    }
    proof {
        lemma_skip_ws_bounds(s@, k as int);
    }
    k
}

/// Parses a number starting at `i`: an integer in the signed 64-bit
/// range becomes an integer value; any other token keeps its bytes.
#[verifier::rlimit(60)]
fn x_number(s: &Vec<u8>, i: usize) -> (r: Option<(Json, usize)>)
    requires
        i < s@.len(),
        s@[i as int] == 0x2d || is_digit(s@[i as int]),
    ensures
        (match r {
            Some((v, e)) => p_number(s@, i as int) == Some((v@, e as int)) && i < e <= s@.len(),
            None => p_number(s@, i as int) is None,
        }),
{
    let slen = s.len();
    let neg = s[i] == 0x2d;
    let di = if neg {
        i + 1
    } else {
        i
    };
    if di >= slen || !digit_b(s[di]) {
        return None;
    }
    // the integer digit run
    let mut ie = di;
    while ie < slen && digit_b(s[ie])
        invariant
            slen == s@.len(),
            di <= ie <= s@.len(),
            digits_end(s@, di as int) == digits_end(s@, ie as int),
            forall|k: int| di <= k < ie ==> is_digit(#[trigger] s@[k]),
        decreases s@.len() - ie,
    {
        ie += 1;
    }
    assert(digits_end(s@, di as int) == ie as int);
    if ie > di + 1 && s[di] == 0x30 {
        return None;
    }
    // the fraction, if any
    let mut e: usize = ie;
    let mut plain = true;
    if ie < slen && s[ie] == 0x2e {
        let mut fe = ie + 1;
        while fe < slen && digit_b(s[fe])
            invariant
                slen == s@.len(),
                ie + 1 <= fe <= s@.len(),
                digits_end(s@, ie + 1) == digits_end(s@, fe as int),
            decreases s@.len() - fe,
        {
            fe += 1;
        }
        assert(digits_end(s@, ie + 1) == fe as int);
        if fe <= ie + 1 {
            return None;
        }
        e = fe;
        plain = false;
    }
    let ghost gfe = e as int;
    // the exponent, if any
    if e < slen && (s[e] == 0x65 || s[e] == 0x45) {
        let se = if e + 1 < slen && (s[e + 1] == 0x2b || s[e + 1] == 0x2d) {
            e + 2
        } else {
            e + 1
        };
        let mut ee = se;
        while ee < slen && digit_b(s[ee])
            invariant
                slen == s@.len(),
                se <= ee <= s@.len(),
                digits_end(s@, se as int) == digits_end(s@, ee as int),
            decreases s@.len() - ee,
        {
            ee += 1;
        }
        assert(digits_end(s@, se as int) == ee as int);
        if ee <= se {
            return None;
        }
        e = ee;
        plain = false;
    }
    assert(num_token_end(s@, i as int) == Some(e as int));
    if !plain {
        let raw = crate::bytes_util::copy_range(s, i, e);
        return Some((Json::Num(raw), e));
    }
    // a plain integer: accumulate its value, capped one above the
    // signed maximum, and keep the bytes when it does not fit
    assert(e == ie);
    let mut acc: u64 = 0;
    let mut over = false;
    let mut k = di;
    while k < e
        invariant
            di <= k <= e <= s@.len(),
            forall|q: int| di <= q < e ==> is_digit(#[trigger] s@[q]),
            !over ==> acc as nat == digits_val(s@, di as int, k as int)
                && acc <= 9223372036854775808u64,
            over ==> digits_val(s@, di as int, k as int) > 9223372036854775808nat,
        decreases e - k,
    {
        let d = s[k] - 0x30;
        if !over {
            if acc > 922337203685477580u64 || (acc == 922337203685477580u64 && d > 8) {
                over = true;
                proof {
                    assert(digits_val(s@, di as int, k + 1) == digits_val(
                        s@,
                        di as int,
                        k as int,
                    ) * 10 + (s@[k as int] - 0x30) as nat);
                }
            } else {
                acc = acc * 10 + (d as u64);
            }
        } else {
            proof {
                assert(digits_val(s@, di as int, k + 1) == digits_val(s@, di as int, k as int)
                    * 10 + (s@[k as int] - 0x30) as nat);
                assert(digits_val(s@, di as int, k as int) * 10 >= digits_val(
                    s@,
                    di as int,
                    k as int,
                ));
            }
        }
        k += 1;
    }
    if over {
        let raw = crate::bytes_util::copy_range(s, i, e);
        return Some((Json::Num(raw), e));
    }
    if neg {
        if acc == 9223372036854775808u64 {
            Some((Json::Int(i64::MIN), e))
        } else {
            Some((Json::Int(-(acc as i64)), e))
        }
    } else {
        if acc > 9223372036854775807u64 {
            let raw = crate::bytes_util::copy_range(s, i, e);
            Some((Json::Num(raw), e))
        } else {
            Some((Json::Int(acc as i64), e))
        }
    }
}

/// Parses string content at `i`, after the opening quote.
#[verifier::rlimit(60)]
fn x_string(s: &Vec<u8>, i: usize) -> (r: Option<(Vec<u8>, usize)>)
    requires
        i <= s@.len(),
    ensures
        (match r {
            Some((cs, e)) => p_string(s@, i as int) == Some((cs@, e as int)) && i < e <= s@.len(),
            None => p_string(s@, i as int) is None,
        }),
{
    let mut acc: Vec<u8> = Vec::new();
    let mut cur = i;
    loop
        invariant
            i <= cur <= s@.len(),
            (match p_string(s@, cur as int) {
                Some((rest, e)) => p_string(s@, i as int) == Some((acc@ + rest, e)),
                None => p_string(s@, i as int) is None,
            }),
        decreases s@.len() - cur,
    {
        proof {
            lemma_p_string_bounds(s@, cur as int);
            lemma_p_string_bounds(s@, i as int);
        }
        if cur >= s.len() {
            return None;
        }
        let b = s[cur];
        if b == 0x22 {
            proof {
                assert(acc@ + Seq::<u8>::empty() =~= acc@);
            }
            return Some((acc, cur + 1));
        } else if b == 0x5c {
            if s.len() - cur < 2 {
                return None;
            }
            let c = s[cur + 1];
            if c == 0x75 {
                if s.len() - cur < 6 {
                    return None;
                }
                let h3 = hex_b(s[cur + 2]);
                let h2 = hex_b(s[cur + 3]);
                let h1 = hex_b(s[cur + 4]);
                let h0 = hex_b(s[cur + 5]);
                if h3.is_none() || h2.is_none() || h1.is_none() || h0.is_none() {
                    return None;
                }
                let cp: u32 = h3.unwrap() * 0x1000 + h2.unwrap() * 0x100 + h1.unwrap() * 0x10
                    + h0.unwrap();
                if 0xd800 <= cp && cp <= 0xdfff {
                    return None;
                }
                let ghost pre = acc@;
                if cp < 0x80 {
                    acc.push(cp as u8);
                    proof {
                        assert(((cp & 0x7F) as u8) == cp as u8) by (bit_vector)
                            requires cp < 0x80u32;
                        assert(acc@ =~= pre + vstd::utf8::encode_scalar(cp));
                    }
                } else if cp < 0x800 {
                    acc.push(0xC0 | ((cp >> 6) & 0x1F) as u8);
                    acc.push(0x80 | (cp & 0x3F) as u8);
                    proof {
                        assert(acc@ =~= pre + vstd::utf8::encode_scalar(cp));
                    }
                } else {
                    acc.push(0xE0 | ((cp >> 12) & 0x0F) as u8);
                    acc.push(0x80 | ((cp >> 6) & 0x3F) as u8);
                    acc.push(0x80 | (cp & 0x3F) as u8);
                    proof {
                        assert(cp <= 0xffff);
                        assert(acc@ =~= pre + vstd::utf8::encode_scalar(cp));
                    }
                }
                proof {
                    match p_string(s@, cur + 6) {
                        Some((rest, e)) => {
                            assert(acc@ + rest =~= pre + (vstd::utf8::encode_scalar(cp) + rest));
                        },
                        None => {},
                    }
                }
                cur = cur + 6;
            } else {
                let mb: Option<u8> = if c == 0x22 {
                    Some(0x22)
                } else if c == 0x5c {
                    Some(0x5c)
                } else if c == 0x2f {
                    Some(0x2f)
                } else if c == 0x62 {
                    Some(0x08)
                } else if c == 0x66 {
                    Some(0x0c)
                } else if c == 0x6e {
                    Some(0x0a)
                } else if c == 0x72 {
                    Some(0x0d)
                } else if c == 0x74 {
                    Some(0x09)
                } else {
                    None
                };
                match mb {
                    None => {
                        return None;
                    },
                    Some(mbv) => {
                        let ghost pre = acc@;
                        acc.push(mbv);
                        proof {
                            match p_string(s@, cur + 2) {
                                Some((rest, e)) => {
                                    assert(acc@ + rest =~= pre + (seq![mbv] + rest));
                                },
                                None => {},
                            }
                        }
                        cur = cur + 2;
                    },
                }
            }
        } else if b < 0x20 {
            return None;
        } else {
            let ghost pre = acc@;
            acc.push(b);
            proof {
                match p_string(s@, cur + 1) {
                    Some((rest, e)) => {
                        assert(acc@ + rest =~= pre + (seq![b] + rest));
                    },
                    None => {},
                }
            }
            cur = cur + 1;
        }
    }
}

/// Parses one JSON value starting exactly at `i`.
pub fn x_value(s: &Vec<u8>, i: usize) -> (r: Option<(Json, usize)>)
    requires
        i <= s@.len(),
    ensures
        (match r {
            Some((v, e)) => p_value(s@, i as int) == Some((v@, e as int)) && i < e <= s@.len(),
            None => p_value(s@, i as int) is None,
        }),
    decreases s@.len() - i,
{
    proof {
        lemma_p_value_bounds(s@, i as int);
    }
    if i >= s.len() {
        return None;
    }
    let b = s[i];
    if b == 0x6e {
        if s.len() - i >= 4 && s[i + 1] == 0x75 && s[i + 2] == 0x6c && s[i + 3] == 0x6c {
            Some((Json::Null, i + 4))
        } else {
            None
        }
    } else if b == 0x74 {
        if s.len() - i >= 4 && s[i + 1] == 0x72 && s[i + 2] == 0x75 && s[i + 3] == 0x65 {
            Some((Json::Bool(true), i + 4))
        } else {
            None
        }
    } else if b == 0x66 {
        if s.len() - i >= 5 && s[i + 1] == 0x61 && s[i + 2] == 0x6c && s[i + 3] == 0x73 && s[i + 4]
            == 0x65 {
            Some((Json::Bool(false), i + 5))
        } else {
            None
        }
    } else if b == 0x22 {
        match x_string(s, i + 1) {
            Some((cs, e)) => Some((Json::Str(cs), e)),
            None => None,
        }
    } else if b == 0x2d || digit_b(b) {
        x_number(s, i)
    } else if b == 0x5b {
        let j = x_skip_ws(s, i + 1);
        if j < s.len() && s[j] == 0x5d {
            let items: Vec<Json> = Vec::new();
            proof {
                assert(jsons_view(items@) =~= Seq::<JsonData>::empty());
            }
            return Some((Json::Arr(items), j + 1));
        }
        let mut items: Vec<Json> = Vec::new();
        let mut cur = j;
        proof {
            assert(jsons_view(items@) =~= Seq::<JsonData>::empty());
            match p_elements(s@, j as int) {
                Some((rest, e)) => {
                    assert(jsons_view(items@) + rest =~= rest);
                },
                None => {},
            }
        }
        loop
            invariant
                i < j <= cur <= s@.len(),
                i < s@.len(),
                s@[i as int] == 0x5b,
                j as int == skip_ws(s@, i + 1),
                !(j < s@.len() && s@[j as int] == 0x5d),
                (match p_elements(s@, cur as int) {
                    Some((rest, e)) => p_elements(s@, j as int) == Some((
                        jsons_view(items@) + rest,
                        e,
                    )),
                    None => p_elements(s@, j as int) is None,
                }),
            decreases s@.len() - cur,
        {
            match x_value(s, cur) {
                None => {
                    return None;
                },
                Some((v, e)) => {
                    let k = x_skip_ws(s, e);
                    if k < s.len() && s[k] == 0x2c {
                        let m = x_skip_ws(s, k + 1);
                        let ghost pre = items@;
                        items.push(v);
                        proof {
                            lemma_jsons_view_snoc(pre, v);
                            match p_elements(s@, m as int) {
                                Some((rest, e2)) => {
                                    assert(jsons_view(items@) + rest =~= jsons_view(pre) + (
                                    seq![v@] + rest));
                                },
                                None => {},
                            }
                        }
                        cur = m;
                    } else if k < s.len() && s[k] == 0x5d {
                        let ghost pre = items@;
                        items.push(v);
                        proof {
                            lemma_jsons_view_snoc(pre, v);
                            assert(jsons_view(items@) =~= jsons_view(pre) + seq![v@]);
                        }
                        return Some((Json::Arr(items), k + 1));
                    } else {
                        return None;
                    }
                },
            }
        }
    } else if b == 0x7b {
        let j = x_skip_ws(s, i + 1);
        if j < s.len() && s[j] == 0x7d {
            let items: Vec<(Vec<u8>, Json)> = Vec::new();
            proof {
                assert(pairs_view(items@) =~= Seq::<(Seq<u8>, JsonData)>::empty());
            }
            return Some((Json::Obj(items), j + 1));
        }
        let mut items: Vec<(Vec<u8>, Json)> = Vec::new();
        let mut cur = j;
        proof {
            assert(pairs_view(items@) =~= Seq::<(Seq<u8>, JsonData)>::empty());
            match p_members(s@, j as int) {
                Some((rest, e)) => {
                    assert(pairs_view(items@) + rest =~= rest);
                },
                None => {},
            }
        }
        loop
            invariant
                i < j <= cur <= s@.len(),
                i < s@.len(),
                s@[i as int] == 0x7b,
                j as int == skip_ws(s@, i + 1),
                !(j < s@.len() && s@[j as int] == 0x7d),
                (match p_members(s@, cur as int) {
                    Some((rest, e)) => p_members(s@, j as int) == Some((
                        pairs_view(items@) + rest,
                        e,
                    )),
                    None => p_members(s@, j as int) is None,
                }),
            decreases s@.len() - cur,
        {
            if cur >= s.len() || s[cur] != 0x22 {
                return None;
            }
            match x_string(s, cur + 1) {
                None => {
                    return None;
                },
                Some((key, j2)) => {
                    let k = x_skip_ws(s, j2);
                    if !(k < s.len() && s[k] == 0x3a) {
                        return None;
                    }
                    let m = x_skip_ws(s, k + 1);
                    match x_value(s, m) {
                        None => {
                            return None;
                        },
                        Some((v, e)) => {
                            let k2 = x_skip_ws(s, e);
                            if k2 < s.len() && s[k2] == 0x2c {
                                let m2 = x_skip_ws(s, k2 + 1);
                                let ghost pre = items@;
                                let ghost gk = key@;
                                let ghost gv = v@;
                                items.push((key, v));
                                proof {
                                    lemma_pairs_view_snoc(pre, items@[items@.len() - 1].0,
                                        items@[items@.len() - 1].1);
                                    match p_members(s@, m2 as int) {
                                        Some((rest, e2)) => {
                                            assert(pairs_view(items@) + rest =~= pairs_view(pre)
                                                + (seq![(gk, gv)] + rest));
                                        },
                                        None => {},
                                    }
                                }
                                cur = m2;
                            } else if k2 < s.len() && s[k2] == 0x7d {
                                let ghost pre = items@;
                                let ghost gk = key@;
                                let ghost gv = v@;
                                items.push((key, v));
                                proof {
                                    lemma_pairs_view_snoc(pre, items@[items@.len() - 1].0,
                                        items@[items@.len() - 1].1);
                                    assert(pairs_view(items@) =~= pairs_view(pre) + seq![
                                        (gk, gv),
                                    ]);
                                }
                                return Some((Json::Obj(items), k2 + 1));
                            } else {
                                return None;
                            }
                        },
                    }
                },
            }
        }
    } else {
        None
    }
}

/// Parses a whole JSON document spanning the input.
pub fn x_document(s: &Vec<u8>) -> (r: Option<Json>)
    ensures
        (match r {
            Some(v) => p_document(s@) == Some(v@),
            None => p_document(s@) is None,
        }),
{
    let i = x_skip_ws(s, 0);
    if i >= s.len() {
        return None;
    }
    match x_value(s, i) {
        None => None,
        Some((v, e)) => {
            let e2 = x_skip_ws(s, e);
            if e2 == s.len() {
                Some(v)
            } else {
                None
            }
        },
    }
}

} // verus!
