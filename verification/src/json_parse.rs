//! A parser for JSON bodies, given as a mathematical definition over byte
//! sequences and an executable function proved to return exactly what the
//! definition says.
//!
//! The parser accepts general JSON with arbitrary whitespace and string
//! escapes.  An integer in the signed 64-bit range becomes an integer
//! value; any other number — a fraction, an exponent, or an integer
//! beyond that range — keeps its literal bytes verbatim.  One bound is
//! set by the value model: a `\u` escape must not be a surrogate half.
//! Input that crosses it is rejected, as is any input that is not
//! JSON.

use vstd::prelude::*;

verus! {

use vstd::utf8::encode_scalar;
use crate::json::JsonData;

/// JSON insignificant whitespace.
pub open spec fn is_ws(b: u8) -> bool {
    b == 0x20 || b == 0x09 || b == 0x0a || b == 0x0d
}

/// An ASCII decimal digit.
pub open spec fn is_digit(b: u8) -> bool {
    0x30 <= b <= 0x39
}

/// The first position at or after `i` holding a byte that is not
/// whitespace, or the end of the input.
pub open spec fn skip_ws(s: Seq<u8>, i: int) -> int
    decreases s.len() - i when 0 <= i <= s.len()
{
    if i < s.len() && is_ws(s[i]) {
        skip_ws(s, i + 1)
    } else {
        i
    }
}

/// Skipping whitespace stays within the input and moves forward.
pub proof fn lemma_skip_ws_bounds(s: Seq<u8>, i: int)
    requires
        0 <= i <= s.len(),
    ensures
        i <= skip_ws(s, i) <= s.len(),
        skip_ws(s, i) < s.len() ==> !is_ws(s[skip_ws(s, i)]),
    decreases s.len() - i,
{
    if i < s.len() && is_ws(s[i]) {
        lemma_skip_ws_bounds(s, i + 1);
    }
}

/// The first position at or after `i` holding a byte that is not a
/// digit, or the end of the input.
pub open spec fn digits_end(s: Seq<u8>, i: int) -> int
    decreases s.len() - i when 0 <= i <= s.len()
{
    if i < s.len() && is_digit(s[i]) {
        digits_end(s, i + 1)
    } else {
        i
    }
}

/// The digit run stays within the input and holds digits only.
pub proof fn lemma_digits_end_bounds(s: Seq<u8>, i: int)
    requires
        0 <= i <= s.len(),
    ensures
        i <= digits_end(s, i) <= s.len(),
        forall|k: int| i <= k < digits_end(s, i) ==> is_digit(#[trigger] s[k]),
        digits_end(s, i) < s.len() ==> !is_digit(s[digits_end(s, i)]),
    decreases s.len() - i,
{
    if i < s.len() && is_digit(s[i]) {
        lemma_digits_end_bounds(s, i + 1);
    }
}

/// The value of the digits between `i` and `e`, read in base ten.
pub open spec fn digits_val(s: Seq<u8>, i: int, e: int) -> nat
    decreases e - i when i <= e
{
    if i >= e {
        0
    } else {
        digits_val(s, i, e - 1) * 10 + (s[e - 1] - 0x30) as nat
    }
}

/// The numeric value of a hex digit byte, lower or upper case.
pub open spec fn hex_val(b: u8) -> Option<u32> {
    if 0x30 <= b <= 0x39 {
        Some((b - 0x30) as u32)
    } else if 0x61 <= b <= 0x66 {
        Some((b - 0x61 + 10) as u32)
    } else if 0x41 <= b <= 0x46 {
        Some((b - 0x41 + 10) as u32)
    } else {
        None
    }
}

/// A byte that would extend a just-parsed number if it followed it:
/// a further digit, a decimal point, or an exponent marker.
pub open spec fn extends_number(b: u8) -> bool {
    is_digit(b) || b == 0x2e || b == 0x65 || b == 0x45
}

/// Where the number token starting at `i` ends, if one does: an
/// optional minus sign, a digit run without a leading zero, an
/// optional point with a digit run, and an optional exponent marker
/// with an optional sign and a digit run.
pub open spec fn num_token_end(s: Seq<u8>, i: int) -> Option<int>
    recommends
        0 <= i < s.len(),
{
    let di: int = if s[i] == 0x2d {
        i + 1
    } else {
        i
    };
    if di >= s.len() || !is_digit(s[di]) {
        None
    } else {
        let ie = digits_end(s, di);
        if ie > di + 1 && s[di] == 0x30 {
            None
        } else {
            let fe = if ie < s.len() && s[ie] == 0x2e {
                digits_end(s, ie + 1)
            } else {
                ie
            };
            if ie < s.len() && s[ie] == 0x2e && fe <= ie + 1 {
                None
            } else {
                let se: int = if fe < s.len() && (s[fe] == 0x65 || s[fe] == 0x45) {
                    if fe + 1 < s.len() && (s[fe + 1] == 0x2b || s[fe + 1] == 0x2d) {
                        fe + 2
                    } else {
                        fe + 1
                    }
                } else {
                    fe
                };
                if se == fe {
                    Some(fe)
                } else {
                    let ee = digits_end(s, se);
                    if ee <= se {
                        None
                    } else {
                        Some(ee)
                    }
                }
            }
        }
    }
}

/// Parses a number at `i`: the token's integer value when it is a
/// plain integer in the signed 64-bit range, else the token's own
/// bytes, kept verbatim.
pub open spec fn p_number(s: Seq<u8>, i: int) -> Option<(JsonData, int)>
    recommends
        0 <= i < s.len(),
{
    match num_token_end(s, i) {
        None => None,
        Some(e) => {
            let neg = s[i] == 0x2d;
            let di = if neg {
                i + 1
            } else {
                i
            };
            let ie = digits_end(s, di);
            if e == ie {
                let v = digits_val(s, di, ie);
                let iv: int = if neg {
                    -(v as int)
                } else {
                    v as int
                };
                if i64::MIN as int <= iv <= i64::MAX as int {
                    Some((JsonData::Int(iv), e))
                } else {
                    Some((JsonData::Num(s.subrange(i, e)), e))
                }
            } else {
                Some((JsonData::Num(s.subrange(i, e)), e))
            }
        },
    }
}

/// A genuine kept number literal: the parser reads the whole token
/// back as exactly these bytes, not as an integer.
pub open spec fn num_token_wf(raw: Seq<u8>) -> bool {
    raw.len() >= 1 && p_number(raw, 0) == Some((JsonData::Num(raw), raw.len() as int))
}

/// A found number token starts at `i` and ends after it, within the
/// input.
pub proof fn lemma_num_token_end_bounds(s: Seq<u8>, i: int)
    requires
        0 <= i < s.len(),
    ensures
        num_token_end(s, i) matches Some(e) ==> i < e <= s.len(),
{
    let di: int = if s[i] == 0x2d {
        i + 1
    } else {
        i
    };
    if di < s.len() && is_digit(s[di]) {
        lemma_digits_end_bounds(s, di);
        let ie = digits_end(s, di);
        assert(ie > di) by {
            assert(digits_end(s, di) == digits_end(s, di + 1));
            lemma_digits_end_bounds(s, di + 1);
        }
        if ie < s.len() && s[ie] == 0x2e {
            lemma_digits_end_bounds(s, ie + 1);
        }
        let fe = if ie < s.len() && s[ie] == 0x2e {
            digits_end(s, ie + 1)
        } else {
            ie
        };
        if fe < s.len() && (s[fe] == 0x65 || s[fe] == 0x45) {
            let se: int = if fe + 1 < s.len() && (s[fe + 1] == 0x2b || s[fe + 1] == 0x2d) {
                fe + 2
            } else {
                fe + 1
            };
            lemma_digits_end_bounds(s, se);
        }
    }
}

/// Parses string content at `i`, just after the opening quote, up to and
/// including the closing quote.  Escapes are decoded to the bytes they
/// stand for; a `\u` escape becomes the UTF-8 encoding of its code point.
pub open spec fn p_string(s: Seq<u8>, i: int) -> Option<(Seq<u8>, int)>
    decreases s.len() - i when 0 <= i
{
    if i >= s.len() {
        None
    } else {
        let b = s[i];
        if b == 0x22 {
            Some((Seq::empty(), i + 1))
        } else if b == 0x5c {
            if i + 2 > s.len() {
                None
            } else {
                let c = s[i + 1];
                if c == 0x75 {
                    if i + 6 > s.len() {
                        None
                    } else {
                        if hex_val(s[i + 2]) is Some && hex_val(s[i + 3]) is Some && hex_val(
                            s[i + 4],
                        ) is Some && hex_val(s[i + 5]) is Some {
                            let cp = hex_val(s[i + 2])->0 * 0x1000 + hex_val(s[i + 3])->0 * 0x100
                                + hex_val(s[i + 4])->0 * 0x10 + hex_val(s[i + 5])->0;
                            if 0xd800 <= cp <= 0xdfff {
                                None
                            } else {
                                match p_string(s, i + 6) {
                                    Some((rest, e)) => Some((encode_scalar(cp as u32) + rest, e)),
                                    None => None,
                                }
                            }
                        } else {
                            None
                        }
                    }
                } else {
                    let mapped: Option<u8> = if c == 0x22 {
                        Some(0x22)
                    } else if c == 0x5c {
                        Some(0x5c)
                    } else if c == 0x2f {
                        Some(0x2f)
                    } else if c == 0x62 {
                        Some(0x08)
                    } else if c == 0x66 {
                        Some(0x0c)
                    } else if c == 0x6e {
                        Some(0x0a)
                    } else if c == 0x72 {
                        Some(0x0d)
                    } else if c == 0x74 {
                        Some(0x09)
                    } else {
                        None
                    };
                    match mapped {
                        Some(mb) => match p_string(s, i + 2) {
                            Some((rest, e)) => Some((seq![mb] + rest, e)),
                            None => None,
                        },
                        None => None,
                    }
                }
            }
        } else if b < 0x20 {
            None
        } else {
            match p_string(s, i + 1) {
                Some((rest, e)) => Some((seq![b] + rest, e)),
                None => None,
            }
        }
    }
}

/// A parsed string ends after `i` and within the input.
pub proof fn lemma_p_string_bounds(s: Seq<u8>, i: int)
    requires
        0 <= i,
    ensures
        p_string(s, i) matches Some((cs, e)) ==> i < e <= s.len(),
    decreases s.len() - i,
{
    if i < s.len() {
        let b = s[i];
        if b == 0x5c && i + 2 <= s.len() {
            if s[i + 1] == 0x75 {
                if i + 6 <= s.len() {
                    lemma_p_string_bounds(s, i + 6);
                }
            } else {
                lemma_p_string_bounds(s, i + 2);
            }
        } else if b != 0x22 && b >= 0x20 {
            lemma_p_string_bounds(s, i + 1);
        }
    }
}

/// Parses one JSON value starting exactly at `i`.
pub open spec fn p_value(s: Seq<u8>, i: int) -> Option<(JsonData, int)>
    decreases s.len() - i, 0int when 0 <= i
{
    if i >= s.len() {
        None
    } else {
        let b = s[i];
        if b == 0x6e {  // null
            if i + 4 <= s.len() && s[i + 1] == 0x75 && s[i + 2] == 0x6c && s[i + 3] == 0x6c {
                Some((JsonData::Null, i + 4))
            } else {
                None
            }
        } else if b == 0x74 {  // true
            if i + 4 <= s.len() && s[i + 1] == 0x72 && s[i + 2] == 0x75 && s[i + 3] == 0x65 {
                Some((JsonData::Bool(true), i + 4))
            } else {
                None
            }
        } else if b == 0x66 {  // false
            if i + 5 <= s.len() && s[i + 1] == 0x61 && s[i + 2] == 0x6c && s[i + 3] == 0x73 && s[i
                + 4] == 0x65 {
                Some((JsonData::Bool(false), i + 5))
            } else {
                None
            }
        } else if b == 0x22 {  // string
            match p_string(s, i + 1) {
                Some((cs, e)) => Some((JsonData::Str(cs), e)),
                None => None,
            }
        } else if b == 0x2d || is_digit(b) {
            p_number(s, i)
        } else if b == 0x5b {  // array
            let j = {
                proof {
                    lemma_skip_ws_bounds(s, i + 1);
                }
                skip_ws(s, i + 1)
            };
            if j < s.len() && s[j] == 0x5d {
                Some((JsonData::Arr(Seq::empty()), j + 1))
            } else {
                match p_elements(s, j) {
                    Some((es, e)) => Some((JsonData::Arr(es), e)),
                    None => None,
                }
            }
        } else if b == 0x7b {  // object
            let j = {
                proof {
                    lemma_skip_ws_bounds(s, i + 1);
                }
                skip_ws(s, i + 1)
            };
            if j < s.len() && s[j] == 0x7d {
                Some((JsonData::Obj(Seq::empty()), j + 1))
            } else {
                match p_members(s, j) {
                    Some((ps, e)) => Some((JsonData::Obj(ps), e)),
                    None => None,
                }
            }
        } else {
            None
        }
    }
}

/// Parses the elements of a non-empty array starting at the first
/// element, up to and including the closing bracket.
pub open spec fn p_elements(s: Seq<u8>, i: int) -> Option<(Seq<JsonData>, int)>
    decreases s.len() - i, 1int when 0 <= i
{
    match p_value(s, i) {
        None => None,
        Some((v, j)) => {
            if j <= i || j > s.len() {
                None
            } else {
                let k = {
                    proof {
                        lemma_skip_ws_bounds(s, j);
                    }
                    skip_ws(s, j)
                };
                if k < s.len() && s[k] == 0x2c {
                    let m = {
                        proof {
                            lemma_skip_ws_bounds(s, k + 1);
                        }
                        skip_ws(s, k + 1)
                    };
                    match p_elements(s, m) {
                        Some((es, e)) => Some((seq![v] + es, e)),
                        None => None,
                    }
                } else if k < s.len() && s[k] == 0x5d {
                    Some((seq![v], k + 1))
                } else {
                    None
                }
            }
        },
    }
}

/// Parses the members of a non-empty object starting at the first key,
/// up to and including the closing brace.
pub open spec fn p_members(s: Seq<u8>, i: int) -> Option<(Seq<(Seq<u8>, JsonData)>, int)>
    decreases s.len() - i, 1int when 0 <= i
{
    if i >= s.len() || s[i] != 0x22 {
        None
    } else {
        match p_string(s, i + 1) {
            None => None,
            Some((key, j)) => {
                if j <= i || j > s.len() {
                    None
                } else {
                    let k = {
                        proof {
                            lemma_skip_ws_bounds(s, j);
                        }
                        skip_ws(s, j)
                    };
                    if k < s.len() && s[k] == 0x3a {
                        let m = {
                            proof {
                                lemma_skip_ws_bounds(s, k + 1);
                            }
                            skip_ws(s, k + 1)
                        };
                        match p_value(s, m) {
                            None => None,
                            Some((v, e)) => {
                                if e <= m || e > s.len() {
                                    None
                                } else {
                                    let k2 = {
                                        proof {
                                            lemma_skip_ws_bounds(s, e);
                                        }
                                        skip_ws(s, e)
                                    };
                                    if k2 < s.len() && s[k2] == 0x2c {
                                        let m2 = {
                                            proof {
                                                lemma_skip_ws_bounds(s, k2 + 1);
                                            }
                                            skip_ws(s, k2 + 1)
                                        };
                                        match p_members(s, m2) {
                                            Some((ps, e2)) => Some((seq![(key, v)] + ps, e2)),
                                            None => None,
                                        }
                                    } else if k2 < s.len() && s[k2] == 0x7d {
                                        Some((seq![(key, v)], k2 + 1))
                                    } else {
                                        None
                                    }
                                }
                            },
                        }
                    } else {
                        None
                    }
                }
            },
        }
    }
}

/// A whole JSON document: one value, surrounded by optional whitespace,
/// spanning the input exactly.
pub open spec fn p_document(s: Seq<u8>) -> Option<JsonData> {
    let i = skip_ws(s, 0);
    if i >= s.len() {
        None
    } else {
        match p_value(s, i) {
            Some((v, e)) => {
                if 0 <= e <= s.len() && skip_ws(s, e) == s.len() {
                    Some(v)
                } else {
                    None
                }
            },
            None => None,
        }
    }
}

/// A parsed value ends after `i` and within the input; so do parsed
/// element and member lists.
pub proof fn lemma_p_value_bounds(s: Seq<u8>, i: int)
    requires
        0 <= i,
    ensures
        p_value(s, i) matches Some((v, e)) ==> i < e <= s.len(),
        p_elements(s, i) matches Some((es, e)) ==> i < e <= s.len(),
        p_members(s, i) matches Some((ps, e)) ==> i < e <= s.len(),
    decreases s.len() - i, 2int,
{
    if i >= s.len() {
        return ;
    }
    let b = s[i];
    // the value cases
    if b == 0x22 {
        lemma_p_string_bounds(s, i + 1);
    } else if b == 0x2d || is_digit(b) {
        lemma_num_token_end_bounds(s, i);
    } else if b == 0x5b {
        lemma_skip_ws_bounds(s, i + 1);
        let j = skip_ws(s, i + 1);
        if !(j < s.len() && s[j] == 0x5d) {
            lemma_p_elements_bounds(s, j);
        }
    } else if b == 0x7b {
        lemma_skip_ws_bounds(s, i + 1);
        let j = skip_ws(s, i + 1);
        if !(j < s.len() && s[j] == 0x7d) {
            lemma_p_members_bounds(s, j);
        }
    }
    // the element-list case
    lemma_p_elements_bounds_body(s, i);
    // the member-list case
    lemma_p_members_bounds_body(s, i);
}

/// Bound for a parsed element list alone.
pub proof fn lemma_p_elements_bounds(s: Seq<u8>, i: int)
    requires
        0 <= i,
    ensures
        p_elements(s, i) matches Some((es, e)) ==> i < e <= s.len(),
    decreases s.len() - i, 3int,
{
    lemma_p_elements_bounds_body(s, i);
}

/// Bound for a parsed member list alone.
pub proof fn lemma_p_members_bounds(s: Seq<u8>, i: int)
    requires
        0 <= i,
    ensures
        p_members(s, i) matches Some((ps, e)) ==> i < e <= s.len(),
    decreases s.len() - i, 3int,
{
    lemma_p_members_bounds_body(s, i);
}

proof fn lemma_p_elements_bounds_body(s: Seq<u8>, i: int)
    requires
        0 <= i,
    ensures
        p_elements(s, i) matches Some((es, e)) ==> i < e <= s.len(),
    decreases s.len() - i, 1int,
{
    match p_value(s, i) {
        Some((v, j)) => {
            if i < j <= s.len() {
                lemma_skip_ws_bounds(s, j);
                let k = skip_ws(s, j);
                if k < s.len() && s[k] == 0x2c {
                    lemma_skip_ws_bounds(s, k + 1);
                    let m = skip_ws(s, k + 1);
                    lemma_p_elements_bounds_body(s, m);
                }
            }
        },
        None => {},
    }
}

proof fn lemma_p_members_bounds_body(s: Seq<u8>, i: int)
    requires
        0 <= i,
    ensures
        p_members(s, i) matches Some((ps, e)) ==> i < e <= s.len(),
    decreases s.len() - i, 1int,
{
    if i < s.len() && s[i] == 0x22 {
        match p_string(s, i + 1) {
            Some((key, j)) => {
                lemma_p_string_bounds(s, i + 1);
                if i < j <= s.len() {
                    lemma_skip_ws_bounds(s, j);
                    let k = skip_ws(s, j);
                    if k < s.len() && s[k] == 0x3a {
                        lemma_skip_ws_bounds(s, k + 1);
                        let m = skip_ws(s, k + 1);
                        match p_value(s, m) {
                            Some((v, e)) => {
                                if m < e <= s.len() {
                                    lemma_skip_ws_bounds(s, e);
                                    let k2 = skip_ws(s, e);
                                    if k2 < s.len() && s[k2] == 0x2c {
                                        lemma_skip_ws_bounds(s, k2 + 1);
                                        let m2 = skip_ws(s, k2 + 1);
                                        lemma_p_members_bounds_body(s, m2);
                                    }
                                }
                            },
                            None => {},
                        }
                    }
                }
            },
            None => {},
        }
    }
}

} // verus!
