//! The round trip: parsing the canonical serialized form of a
//! well-formed value yields exactly that value.

use vstd::prelude::*;

verus! {

use vstd::utf8::encode_scalar;
use crate::bytes_util::{dec_digits, lemma_dec_digits_are_digits, lemma_dec_digits_leading};
use crate::json::{JsonData, json_wf, jsons_wf, pairs_wf};
use crate::json_ser::{
    esc_byte, esc_bytes, str_ser, int_ser, json_ser, arr_ser, obj_ser, hex_digit,
};
use crate::json_parse::{
    is_ws, is_digit, skip_ws, digits_end, digits_val, hex_val, extends_number, num_token_end,
    num_token_wf, p_number, p_string, p_value, p_elements, p_members, p_document,
    lemma_digits_end_bounds,
};

/// The bytes `t` stand at position `i` of `s`.
pub open spec fn bytes_at(s: Seq<u8>, i: int, t: Seq<u8>) -> bool {
    0 <= i && i + t.len() <= s.len() && s.subrange(i, i + t.len() as int) == t
}

/// A region splits into its two halves.
pub proof fn lemma_bytes_at_split(s: Seq<u8>, i: int, t1: Seq<u8>, t2: Seq<u8>)
    requires
        bytes_at(s, i, t1 + t2),
    ensures
        bytes_at(s, i, t1),
        bytes_at(s, i + t1.len(), t2),
{
    let t = t1 + t2;
    assert(s.subrange(i, i + t1.len() as int) =~= t1) by {
        assert forall|k: int| 0 <= k < t1.len() implies s.subrange(i, i + t1.len() as int)[k]
            == t1[k] by {
            assert(s.subrange(i, i + t.len() as int)[k] == t[k]);
        }
    }
    assert(s.subrange(i + t1.len(), i + t1.len() + t2.len() as int) =~= t2) by {
        assert forall|k: int|
            0 <= k < t2.len() implies s.subrange(
            i + t1.len(),
            i + t1.len() + t2.len() as int,
        )[k] == t2[k] by {
            assert(s.subrange(i, i + t.len() as int)[t1.len() + k] == t[t1.len() + k]);
        }
    }
}

/// Each byte of a region equals the corresponding byte of `s`.
pub proof fn lemma_bytes_at_index(s: Seq<u8>, i: int, t: Seq<u8>)
    requires
        bytes_at(s, i, t),
    ensures
        forall|k: int| 0 <= k < t.len() ==> s[i + k] == #[trigger] t[k],
{
    assert forall|k: int| 0 <= k < t.len() implies s[i + k] == #[trigger] t[k] by {
        assert(s.subrange(i, i + t.len() as int)[k] == t[k]);
    }
}

/// One byte of a region equals the corresponding byte of `s`.
pub proof fn lemma_byte_at(s: Seq<u8>, i: int, t: Seq<u8>, k: int)
    requires
        bytes_at(s, i, t),
        0 <= k < t.len(),
    ensures
        s[i + k] == t[k],
{
    assert(s.subrange(i, i + t.len() as int)[k] == t[k]);
}

/// A run of digits followed by a non-digit ends exactly there.
pub proof fn lemma_digits_end_exact(s: Seq<u8>, a: int, b: int)
    requires
        0 <= a <= b <= s.len(),
        forall|k: int| a <= k < b ==> is_digit(#[trigger] s[k]),
        b == s.len() || !is_digit(s[b]),
    ensures
        digits_end(s, a) == b,
    decreases b - a,
{
    if a < b {
        lemma_digits_end_exact(s, a + 1, b);
    }
}

/// The digits of a formatted number read back as that number.
pub proof fn lemma_digits_val_dec(s: Seq<u8>, a: int, m: nat)
    requires
        bytes_at(s, a, dec_digits(m)),
    ensures
        digits_val(s, a, a + dec_digits(m).len()) == m,
    decreases m,
{
    lemma_bytes_at_index(s, a, dec_digits(m));
    if m < 10 {
        assert(dec_digits(m).len() == 1);
        lemma_byte_at(s, a, dec_digits(m), 0);
        assert(s[a] == dec_digits(m)[0] == (0x30 + m) as u8);
        assert(digits_val(s, a, a) == 0);
        assert(digits_val(s, a, a + 1) == (s[a] - 0x30) as nat);
    } else {
        let pre = dec_digits(m / 10);
        let e = a + dec_digits(m).len();
        assert(dec_digits(m) == pre.push((0x30 + m % 10) as u8));
        assert(pre.push((0x30 + m % 10) as u8) =~= pre + seq![(0x30 + m % 10) as u8]);
        lemma_bytes_at_split(s, a, pre, seq![(0x30 + m % 10) as u8]);
        lemma_digits_val_dec(s, a, m / 10);
        lemma_byte_at(s, a + pre.len(), seq![(0x30 + m % 10) as u8], 0);
        assert(e - 1 == a + pre.len());
        assert(s[e - 1] == (0x30 + m % 10) as u8);
        assert(digits_val(s, a, e) == digits_val(s, a, e - 1) * 10 + (s[e - 1] - 0x30) as nat);
        assert(digits_val(s, a, e) == (m / 10) * 10 + m % 10);
    }
}

/// A hex digit byte reads back as its value.
pub proof fn lemma_hex_val_digit(n: nat)
    requires
        n < 16,
    ensures
        hex_val(hex_digit(n)) == Some(n as u32),
{
}

/// Equal byte regions read back as equal digit values.
proof fn lemma_digits_val_region(s: Seq<u8>, off: int, raw: Seq<u8>, a: int, b: int)
    requires
        bytes_at(s, off, raw),
        0 <= a <= b <= raw.len(),
    ensures
        digits_val(s, off + a, off + b) == digits_val(raw, a, b),
    decreases b - a,
{
    if a < b {
        lemma_digits_val_region(s, off, raw, a, b - 1);
        lemma_byte_at(s, off, raw, b - 1);
    }
}

/// A whole number token, embedded in a larger input with a boundary
/// that cannot extend it, is found with the same end and the same
/// integer-part end.
proof fn lemma_num_token_end_embed(raw: Seq<u8>, s: Seq<u8>, i: int)
    requires
        raw.len() >= 1,
        bytes_at(s, i, raw),
        num_token_end(raw, 0) == Some(raw.len() as int),
        i + raw.len() == s.len() || !extends_number(s[i + raw.len()]),
    ensures
        num_token_end(s, i) == Some(i + raw.len() as int),
        digits_end(
            s,
            i + (if raw[0] == 0x2d {
                1int
            } else {
                0int
            }),
        ) == i + digits_end(
            raw,
            (if raw[0] == 0x2d {
                1int
            } else {
                0int
            }),
        ),
    decreases 0int,
{
    let ln = raw.len() as int;
    lemma_bytes_at_index(s, i, raw);
    lemma_byte_at(s, i, raw, 0);
    let di: int = if raw[0] == 0x2d {
        1
    } else {
        0
    };
    // the raw token is made of its components; pull their bounds out
    assert(di < ln && is_digit(raw[di]));
    lemma_digits_end_bounds(raw, di);
    let ie = digits_end(raw, di);
    // the integer digits land at the same place in s
    assert forall|k: int| i + di <= k < i + ie implies is_digit(#[trigger] s[k]) by {
        lemma_byte_at(s, i, raw, k - i);
    }
    if ie < ln {
        lemma_byte_at(s, i, raw, ie);
    }
    lemma_digits_end_exact(s, i + di, i + ie);
    // the fraction, if any
    let fe = if ie < ln && raw[ie] == 0x2e {
        digits_end(raw, ie + 1)
    } else {
        ie
    };
    if ie < ln && raw[ie] == 0x2e {
        lemma_digits_end_bounds(raw, ie + 1);
        assert forall|k: int| i + ie + 1 <= k < i + fe implies is_digit(#[trigger] s[k]) by {
            lemma_byte_at(s, i, raw, k - i);
        }
        if fe < ln {
            lemma_byte_at(s, i, raw, fe);
        }
        lemma_digits_end_exact(s, i + ie + 1, i + fe);
    }
    // the exponent, if any
    let se: int = if fe < ln && (raw[fe] == 0x65 || raw[fe] == 0x45) {
        if fe + 1 < ln && (raw[fe + 1] == 0x2b || raw[fe + 1] == 0x2d) {
            fe + 2
        } else {
            fe + 1
        }
    } else {
        fe
    };
    if fe < ln && (raw[fe] == 0x65 || raw[fe] == 0x45) {
        lemma_byte_at(s, i, raw, fe);
        let ee = digits_end(raw, se);
        lemma_digits_end_bounds(raw, se);
        assert(ee == ln);
        if fe + 1 < ln {
            lemma_byte_at(s, i, raw, fe + 1);
        }
        assert forall|k: int| i + se <= k < i + ee implies is_digit(#[trigger] s[k]) by {
            lemma_byte_at(s, i, raw, k - i);
        }
        lemma_digits_end_exact(s, i + se, i + ee);
    } else {
        if fe < ln {
            lemma_byte_at(s, i, raw, fe);
        }
        assert(se == fe && fe == ln);
    }
}

/// Parsing a serialized kept number literal inside a value.
proof fn lemma_parse_num_ser(raw: Seq<u8>, s: Seq<u8>, i: int)
    requires
        num_token_wf(raw),
        bytes_at(s, i, raw),
        i + raw.len() == s.len() || !extends_number(s[i + raw.len()]),
    ensures
        p_value(s, i) == Some((JsonData::Num(raw), i + raw.len() as int)),
{
    let ln = raw.len() as int;
    assert(num_token_end(raw, 0) == Some(ln));
    lemma_num_token_end_embed(raw, s, i);
    lemma_byte_at(s, i, raw, 0);
    let di: int = if raw[0] == 0x2d {
        1
    } else {
        0
    };
    assert(di < ln && is_digit(raw[di]));
    let ie = digits_end(raw, di);
    assert(digits_end(s, i + di) == i + ie);
    if i + ln == i + ie {
        // a plain integer form kept verbatim: its value leaves the range
        lemma_digits_val_region(s, i, raw, di, ie);
        assert(p_number(s, i) == Some((JsonData::Num(s.subrange(i, i + ln)), i + ln)));
    } else {
        assert(p_number(s, i) == Some((JsonData::Num(s.subrange(i, i + ln)), i + ln)));
    }
    assert(s.subrange(i, i + ln) == raw);
    // the dispatching byte is a sign or a digit, so the number branch runs
    assert(s[i] == 0x2d || is_digit(s[i]));
    assert(!is_ws(s[i]) && s[i] != 0x22 && s[i] != 0x6e && s[i] != 0x74 && s[i] != 0x66 && s[i]
        != 0x5b && s[i] != 0x7b);
    assert(p_value(s, i) == p_number(s, i));
}

/// Parsing a serialized integer inside a value.
proof fn lemma_parse_int_ser(iv: int, s: Seq<u8>, i: int)
    requires
        i64::MIN as int <= iv <= i64::MAX as int,
        bytes_at(s, i, int_ser(iv)),
        i + int_ser(iv).len() == s.len() || !extends_number(s[i + int_ser(iv).len()]),
    ensures
        p_value(s, i) == Some((JsonData::Int(iv), i + int_ser(iv).len() as int)),
{
    let n = int_ser(iv).len() as int;
    let e = i + n;
    lemma_bytes_at_index(s, i, int_ser(iv));
    if iv < 0 {
        let m = (-iv) as nat;
        lemma_dec_digits_are_digits(m);
        lemma_bytes_at_split(s, i, seq![0x2du8], dec_digits(m));
        lemma_byte_at(s, i, seq![0x2du8], 0);
        assert(s[i] == 0x2d);
        assert forall|k: int| i + 1 <= k < e implies is_digit(#[trigger] s[k]) by {
            lemma_byte_at(s, i + 1, dec_digits(m), k - (i + 1));
            assert(s[k] == dec_digits(m)[k - (i + 1)]);
        }
        assert(e == s.len() || !is_digit(s[e]));
        lemma_digits_end_exact(s, i + 1, e);
        lemma_digits_val_dec(s, i + 1, m);
        // the token is the digit run alone: no leading zero, and the
        // boundary byte is neither a point nor an exponent marker
        assert(e > i + 2 ==> s[i + 1] != 0x30) by {
            if dec_digits(m).len() > 1 {
                lemma_dec_digits_leading(m);
                lemma_byte_at(s, i + 1, dec_digits(m), 0);
            }
        }
        assert(num_token_end(s, i) == Some(e));
        assert(!is_ws(s[i]) && s[i] != 0x22 && s[i] != 0x6e && s[i] != 0x74 && s[i] != 0x66
            && s[i] != 0x5b && s[i] != 0x7b);
        assert(p_value(s, i) == p_number(s, i));
        assert(p_number(s, i) == Some((JsonData::Int(iv), e)));
    } else {
        let m = iv as nat;
        lemma_dec_digits_are_digits(m);
        assert forall|k: int| i <= k < e implies is_digit(#[trigger] s[k]) by {
            lemma_byte_at(s, i, dec_digits(m), k - i);
            assert(s[k] == dec_digits(m)[k - i]);
        }
        assert(is_digit(s[i]));
        assert(s[i] != 0x2d);
        lemma_digits_end_exact(s, i, e);
        lemma_digits_val_dec(s, i, m);
        assert(e > i + 1 ==> s[i] != 0x30) by {
            if dec_digits(m).len() > 1 {
                lemma_dec_digits_leading(m);
                lemma_byte_at(s, i, dec_digits(m), 0);
            }
        }
        assert(num_token_end(s, i) == Some(e));
        assert(p_value(s, i) == p_number(s, i));
        assert(p_number(s, i) == Some((JsonData::Int(iv), e)));
    }
}

/// Parsing escaped string content followed by a closing quote.
proof fn lemma_parse_string_esc(cs: Seq<u8>, s: Seq<u8>, i: int)
    requires
        bytes_at(s, i, esc_bytes(cs)),
        i + esc_bytes(cs).len() < s.len(),
        s[i + esc_bytes(cs).len()] == 0x22,
    ensures
        p_string(s, i) == Some((cs, i + esc_bytes(cs).len() + 1)),
    decreases cs.len(),
{
    if cs.len() == 0 {
        assert(esc_bytes(cs).len() == 0);
        assert(s[i] == 0x22);
    } else {
        let b = cs[0];
        let rest = cs.subrange(1, cs.len() as int);
        assert(esc_bytes(cs) == esc_byte(b) + esc_bytes(rest));
        lemma_bytes_at_split(s, i, esc_byte(b), esc_bytes(rest));
        let i2 = i + esc_byte(b).len();
        lemma_bytes_at_index(s, i, esc_byte(b));
        lemma_parse_string_esc(rest, s, i2);
        assert(seq![b] + rest =~= cs);
        if b == 0x22 || b == 0x5c || b == 0x08 || b == 0x09 || b == 0x0a || b == 0x0c || b
            == 0x0d {
            assert(s[i] == 0x5c);
            assert(p_string(s, i) == Some((cs, i + esc_bytes(cs).len() + 1)));
        } else if b < 0x20 {
            // the \u00XX escape
            assert(s[i] == 0x5c && s[i + 1] == 0x75 && s[i + 2] == 0x30 && s[i + 3] == 0x30);
            assert(s[i + 4] == hex_digit((b / 16) as nat));
            assert(s[i + 5] == hex_digit((b % 16) as nat));
            lemma_hex_val_digit((b / 16) as nat);
            lemma_hex_val_digit((b % 16) as nat);
            assert(hex_val(s[i + 2]) == Some(0u32) && hex_val(s[i + 3]) == Some(0u32));
            let cp = hex_val(s[i + 2])->0 * 0x1000 + hex_val(s[i + 3])->0 * 0x100 + hex_val(
                s[i + 4],
            )->0 * 0x10 + hex_val(s[i + 5])->0;
            assert(cp == (b / 16) * 16 + (b % 16));
            assert(cp == b);
            assert(!(0xd800 <= cp <= 0xdfff));
            assert(encode_scalar(cp as u32) =~= seq![b]) by {
                assert(b < 0x80);
                assert(((b as u32) & 0x7F) as u8 == b) by (bit_vector)
                    requires b < 0x80u8;
            }
            assert(p_string(s, i) == Some((encode_scalar(cp as u32) + rest, i + esc_bytes(
                cs,
            ).len() + 1)));
            assert(encode_scalar(cp as u32) + rest =~= cs);
        } else {
            // a byte copied through unchanged
            assert(esc_byte(b) == seq![b]);
            assert(s[i] == b);
            assert(b != 0x22 && b != 0x5c && !(b < 0x20));
            assert(p_string(s, i) == Some((cs, i + esc_bytes(cs).len() + 1)));
        }
    }
}

/// Parsing a whole serialized string inside a value.
proof fn lemma_parse_str_ser(cs: Seq<u8>, s: Seq<u8>, i: int)
    requires
        bytes_at(s, i, str_ser(cs)),
    ensures
        p_value(s, i) == Some((JsonData::Str(cs), i + str_ser(cs).len() as int)),
{
    assert(str_ser(cs) == seq![0x22u8] + esc_bytes(cs) + seq![0x22u8]);
    lemma_bytes_at_split(s, i, seq![0x22u8] + esc_bytes(cs), seq![0x22u8]);
    lemma_bytes_at_split(s, i, seq![0x22u8], esc_bytes(cs));
    lemma_byte_at(s, i, seq![0x22u8], 0);
    lemma_byte_at(s, i + 1 + esc_bytes(cs).len(), seq![0x22u8], 0);
    assert(s[i] == 0x22);
    assert(s[i + 1 + esc_bytes(cs).len()] == 0x22);
    lemma_parse_string_esc(cs, s, i + 1);
    assert(p_string(s, i + 1) == Some((cs, i + str_ser(cs).len() as int)));
}

/// The bytes a serialized value can begin with.
pub open spec fn is_value_start(b: u8) -> bool {
    b == 0x6e || b == 0x74 || b == 0x66 || b == 0x22 || b == 0x2d || is_digit(b) || b == 0x5b
        || b == 0x7b
}

/// A serialized well-formed value is nonempty and begins with a
/// value-start byte, never with whitespace, a closer, a comma or a
/// colon.
pub proof fn lemma_ser_starts(v: JsonData)
    requires
        json_wf(v),
    ensures
        json_ser(v).len() >= 1,
        is_value_start(json_ser(v)[0]),
        !is_ws(json_ser(v)[0]),
        json_ser(v)[0] != 0x5d && json_ser(v)[0] != 0x7d && json_ser(v)[0] != 0x2c && json_ser(
            v,
        )[0] != 0x3a,
{
    match v {
        JsonData::Int(iv) => {
            if iv < 0 {
                assert(int_ser(iv)[0] == 0x2d);
            } else {
                lemma_dec_digits_are_digits(iv as nat);
                assert(int_ser(iv)[0] == dec_digits(iv as nat)[0]);
                assert(is_digit(int_ser(iv)[0]));
            }
        },
        JsonData::Num(raw) => {
            assert(num_token_wf(raw));
            assert(num_token_end(raw, 0) is Some);
            assert(raw[0] == 0x2d || is_digit(raw[0]));
        },
        JsonData::Str(cs) => {
            assert(str_ser(cs)[0] == 0x22);
        },
        JsonData::Arr(es) => {
            assert(json_ser(v)[0] == 0x5b);
        },
        JsonData::Obj(ps) => {
            assert(json_ser(v)[0] == 0x7b);
        },
        _ => {},
    }
}

/// A serialized well-formed element list begins like its first
/// element.
pub proof fn lemma_arr_ser_head(es: Seq<JsonData>)
    requires
        es.len() >= 1,
        jsons_wf(es),
    ensures
        arr_ser(es).len() >= 1,
        arr_ser(es)[0] == json_ser(es[0])[0],
{
    lemma_ser_starts(es[0]);
}

/// A serialized member list begins with a quote.
pub proof fn lemma_obj_ser_head(ps: Seq<(Seq<u8>, JsonData)>)
    requires
        ps.len() >= 1,
    ensures
        obj_ser(ps).len() >= 1,
        obj_ser(ps)[0] == 0x22,
{
    assert(str_ser(ps[0].0)[0] == 0x22);
}

/// Parsing the serialized form of a well-formed value yields that value
/// and consumes exactly its bytes.
pub proof fn lemma_parse_value_ser(v: JsonData, s: Seq<u8>, i: int)
    requires
        json_wf(v),
        bytes_at(s, i, json_ser(v)),
        i + json_ser(v).len() == s.len() || !extends_number(s[i + json_ser(v).len()]),
    ensures
        p_value(s, i) == Some((v, i + json_ser(v).len() as int)),
    decreases v, 0int,
{
    let n = json_ser(v).len() as int;
    lemma_bytes_at_index(s, i, json_ser(v));
    match v {
        JsonData::Null => {
            lemma_byte_at(s, i, json_ser(v), 0);
            lemma_byte_at(s, i, json_ser(v), 1);
            lemma_byte_at(s, i, json_ser(v), 2);
            lemma_byte_at(s, i, json_ser(v), 3);
            assert(s[i] == 0x6e && s[i + 1] == 0x75 && s[i + 2] == 0x6c && s[i + 3] == 0x6c);
        },
        JsonData::Bool(b) => {
            lemma_byte_at(s, i, json_ser(v), 0);
            lemma_byte_at(s, i, json_ser(v), 1);
            lemma_byte_at(s, i, json_ser(v), 2);
            lemma_byte_at(s, i, json_ser(v), 3);
            if !b {
                lemma_byte_at(s, i, json_ser(v), 4);
            }
        },
        JsonData::Int(iv) => {
            lemma_parse_int_ser(iv, s, i);
        },
        JsonData::Num(raw) => {
            lemma_parse_num_ser(raw, s, i);
        },
        JsonData::Str(cs) => {
            lemma_parse_str_ser(cs, s, i);
        },
        JsonData::Arr(es) => {
            assert(json_ser(v) == seq![0x5bu8] + arr_ser(es) + seq![0x5du8]);
            lemma_bytes_at_split(s, i, seq![0x5bu8] + arr_ser(es), seq![0x5du8]);
            lemma_bytes_at_split(s, i, seq![0x5bu8], arr_ser(es));
            lemma_byte_at(s, i, seq![0x5bu8], 0);
            lemma_byte_at(s, i + 1 + arr_ser(es).len(), seq![0x5du8], 0);
            assert(s[i] == 0x5b);
            assert(s[i + 1 + arr_ser(es).len()] == 0x5d);
            if es.len() == 0 {
                assert(arr_ser(es).len() == 0);
                assert(s[i + 1] == 0x5d);
                assert(skip_ws(s, i + 1) == i + 1);
                assert(Seq::<JsonData>::empty() =~= es);
            } else {
                lemma_arr_ser_head(es);
                lemma_ser_starts(es[0]);
                lemma_byte_at(s, i + 1, arr_ser(es), 0);
                assert(!is_ws(s[i + 1]) && s[i + 1] != 0x5d);
                assert(skip_ws(s, i + 1) == i + 1);
                lemma_parse_elems_ser(es, s, i + 1);
            }
        },
        JsonData::Obj(ps) => {
            assert(json_ser(v) == seq![0x7bu8] + obj_ser(ps) + seq![0x7du8]);
            lemma_bytes_at_split(s, i, seq![0x7bu8] + obj_ser(ps), seq![0x7du8]);
            lemma_bytes_at_split(s, i, seq![0x7bu8], obj_ser(ps));
            lemma_byte_at(s, i, seq![0x7bu8], 0);
            lemma_byte_at(s, i + 1 + obj_ser(ps).len(), seq![0x7du8], 0);
            assert(s[i] == 0x7b);
            assert(s[i + 1 + obj_ser(ps).len()] == 0x7d);
            if ps.len() == 0 {
                assert(obj_ser(ps).len() == 0);
                assert(s[i + 1] == 0x7d);
                assert(skip_ws(s, i + 1) == i + 1);
                assert(Seq::<(Seq<u8>, JsonData)>::empty() =~= ps);
            } else {
                lemma_obj_ser_head(ps);
                lemma_byte_at(s, i + 1, obj_ser(ps), 0);
                assert(!is_ws(s[i + 1]) && s[i + 1] != 0x7d);
                assert(skip_ws(s, i + 1) == i + 1);
                lemma_parse_membs_ser(ps, s, i + 1);
            }
        },
    }
}

/// Parsing the serialized elements of a non-empty array, with the
/// closing bracket standing right after them.
pub proof fn lemma_parse_elems_ser(es: Seq<JsonData>, s: Seq<u8>, i: int)
    requires
        es.len() >= 1,
        jsons_wf(es),
        bytes_at(s, i, arr_ser(es)),
        i + arr_ser(es).len() < s.len(),
        s[i + arr_ser(es).len()] == 0x5d,
    ensures
        p_elements(s, i) == Some((es, i + arr_ser(es).len() + 1)),
    decreases es, 1int,
{
    let v0 = es[0];
    let n0 = json_ser(v0).len() as int;
    lemma_ser_starts(v0);
    if es.len() == 1 {
        assert(arr_ser(es) == json_ser(v0));
        lemma_parse_value_ser(v0, s, i);
        assert(skip_ws(s, i + n0) == i + n0);
        assert(seq![v0] =~= es);
    } else {
        let rest = es.subrange(1, es.len() as int);
        assert(arr_ser(es) == json_ser(v0) + seq![0x2cu8] + arr_ser(rest));
        lemma_bytes_at_split(s, i, json_ser(v0) + seq![0x2cu8], arr_ser(rest));
        lemma_bytes_at_split(s, i, json_ser(v0), seq![0x2cu8]);
        lemma_byte_at(s, i + n0, seq![0x2cu8], 0);
        assert(s[i + n0] == 0x2c);
        lemma_parse_value_ser(v0, s, i);
        assert(skip_ws(s, i + n0) == i + n0);
        assert(crate::json::jsons_wf(rest));
        lemma_arr_ser_head(rest);
        lemma_ser_starts(rest[0]);
        lemma_byte_at(s, i + n0 + 1, arr_ser(rest), 0);
        assert(!is_ws(s[i + n0 + 1]));
        assert(skip_ws(s, i + n0 + 1) == i + n0 + 1);
        lemma_parse_elems_ser(rest, s, i + n0 + 1);
        assert(seq![v0] + rest =~= es);
    }
}

/// Parsing the serialized members of a non-empty object, with the
/// closing brace standing right after them.
pub proof fn lemma_parse_membs_ser(ps: Seq<(Seq<u8>, JsonData)>, s: Seq<u8>, i: int)
    requires
        ps.len() >= 1,
        pairs_wf(ps),
        bytes_at(s, i, obj_ser(ps)),
        i + obj_ser(ps).len() < s.len(),
        s[i + obj_ser(ps).len()] == 0x7d,
    ensures
        p_members(s, i) == Some((ps, i + obj_ser(ps).len() + 1)),
    decreases ps, 1int,
{
    let k0 = ps[0].0;
    let v0 = ps[0].1;
    let ks = str_ser(k0);
    let n0 = json_ser(v0).len() as int;
    lemma_ser_starts(v0);
    let head = ks + seq![0x3au8] + json_ser(v0);
    if ps.len() == 1 {
        assert(obj_ser(ps) == head);
    } else {
        let rest = ps.subrange(1, ps.len() as int);
        assert(obj_ser(ps) == head + seq![0x2cu8] + obj_ser(rest));
        lemma_bytes_at_split(s, i, head + seq![0x2cu8], obj_ser(rest));
        lemma_bytes_at_split(s, i, head, seq![0x2cu8]);
    }
    // the shared head: key, colon, value
    lemma_bytes_at_split(s, i, ks + seq![0x3au8], json_ser(v0));
    lemma_bytes_at_split(s, i, ks, seq![0x3au8]);
    // the key string
    assert(ks == seq![0x22u8] + esc_bytes(k0) + seq![0x22u8]);
    lemma_bytes_at_split(s, i, seq![0x22u8] + esc_bytes(k0), seq![0x22u8]);
    lemma_bytes_at_split(s, i, seq![0x22u8], esc_bytes(k0));
    lemma_byte_at(s, i, seq![0x22u8], 0);
    lemma_byte_at(s, i + 1 + esc_bytes(k0).len(), seq![0x22u8], 0);
    assert(s[i] == 0x22);
    assert(s[i + 1 + esc_bytes(k0).len()] == 0x22);
    lemma_parse_string_esc(k0, s, i + 1);
    let j = i + ks.len() as int;
    assert(p_string(s, i + 1) == Some((k0, j)));
    // the colon
    lemma_byte_at(s, i + ks.len(), seq![0x3au8], 0);
    assert(s[j] == 0x3a);
    assert(skip_ws(s, j) == j);
    // the value
    let m = j + 1;
    let e = m + n0;
    if ps.len() == 1 {
        lemma_parse_value_ser(v0, s, m);
        assert(skip_ws(s, e) == e);
        assert(s[e] == 0x7d);
        assert(seq![(k0, v0)] =~= ps);
    } else {
        let rest = ps.subrange(1, ps.len() as int);
        lemma_byte_at(s, i + head.len(), seq![0x2cu8], 0);
        assert(s[e] == 0x2c);
        lemma_parse_value_ser(v0, s, m);
        assert(skip_ws(s, e) == e);
        lemma_obj_ser_head(rest);
        lemma_byte_at(s, e + 1, obj_ser(rest), 0);
        assert(s[e + 1] == 0x22);
        assert(skip_ws(s, e + 1) == e + 1);
        lemma_parse_membs_ser(rest, s, e + 1);
        assert(seq![(k0, v0)] + rest =~= ps);
    }
}

/// Parsing a whole serialized document yields the value back.
pub proof fn lemma_parse_document_ser(v: JsonData, s: Seq<u8>)
    requires
        json_wf(v),
        s == json_ser(v),
    ensures
        p_document(s) == Some(v),
{
    lemma_ser_starts(v);
    assert(s.subrange(0, s.len() as int) =~= s);
    assert(bytes_at(s, 0, json_ser(v)));
    assert(skip_ws(s, 0) == 0);
    lemma_parse_value_ser(v, s, 0);
    assert(skip_ws(s, s.len() as int) == s.len());
}


} // verus!
