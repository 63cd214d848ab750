//! The canonical serialized form of a JSON value, and a writer that
//! produces it.
//!
//! The form is compact: no whitespace, object members in their stored
//! order, strings with the shortest escapes (`\"`, `\\`, `\b`, `\t`,
//! `\n`, `\f`, `\r`, and `\u00XX` for the remaining control bytes), and
//! all other bytes copied through unchanged.

use vstd::prelude::*;

verus! {

use crate::bytes_util::{dec_digits, push_dec};
use crate::json::{Json, JsonData, json_view, jsons_view, pairs_view};
use crate::json::{lemma_jsons_view_index, lemma_pairs_view_index};

/// The lower-case hex digit for a value below sixteen.
pub open spec fn hex_digit(n: nat) -> u8 {
    if n < 10 {
        (0x30 + n) as u8
    } else {
        (0x61 + (n - 10)) as u8
    }
}

/// The escaped form of one string byte.
pub open spec fn esc_byte(b: u8) -> Seq<u8> {
    if b == 0x22 {  // quote
        seq![0x5c, 0x22]
    } else if b == 0x5c {  // backslash
        seq![0x5c, 0x5c]
    } else if b == 0x08 {
        seq![0x5c, 0x62]  // \b
    } else if b == 0x09 {
        seq![0x5c, 0x74]  // \t
    } else if b == 0x0a {
        seq![0x5c, 0x6e]  // \n
    } else if b == 0x0c {
        seq![0x5c, 0x66]  // \f
    } else if b == 0x0d {
        seq![0x5c, 0x72]  // \r
    } else if b < 0x20 {
        seq![0x5c, 0x75, 0x30, 0x30, hex_digit((b / 16) as nat), hex_digit((b % 16) as nat)]
    } else {
        seq![b]
    }
}

/// The escaped form of a string's bytes.
pub open spec fn esc_bytes(s: Seq<u8>) -> Seq<u8>
    decreases s.len(),
{
    if s.len() == 0 {
        Seq::empty()
    } else {
        esc_byte(s[0]) + esc_bytes(s.subrange(1, s.len() as int))
    }
}

/// A serialized JSON string: quote, escaped content, quote.
pub open spec fn str_ser(s: Seq<u8>) -> Seq<u8> {
    seq![0x22u8] + esc_bytes(s) + seq![0x22u8]
}

/// A serialized JSON integer: optional minus sign, then decimal digits.
pub open spec fn int_ser(i: int) -> Seq<u8> {
    if i < 0 {
        seq![0x2du8] + dec_digits((-i) as nat)
    } else {
        dec_digits(i as nat)
    }
}

/// The canonical serialized bytes of a JSON value.
pub open spec fn json_ser(j: JsonData) -> Seq<u8>
    decreases j,
{
    match j {
        JsonData::Null => seq![0x6eu8, 0x75, 0x6c, 0x6c],  // null
        JsonData::Bool(b) => if b {
            seq![0x74u8, 0x72, 0x75, 0x65]  // true
        } else {
            seq![0x66u8, 0x61, 0x6c, 0x73, 0x65]  // false
        },
        JsonData::Int(i) => int_ser(i),
        JsonData::Num(raw) => raw,
        JsonData::Str(s) => str_ser(s),
        JsonData::Arr(es) => seq![0x5bu8] + arr_ser(es) + seq![0x5du8],
        JsonData::Obj(ps) => seq![0x7bu8] + obj_ser(ps) + seq![0x7du8],
    }
}

/// The serialized elements of an array, separated by commas.
pub open spec fn arr_ser(es: Seq<JsonData>) -> Seq<u8>
    decreases es,
{
    if es.len() == 0 {
        Seq::empty()
    } else if es.len() == 1 {
        json_ser(es[0])
    } else {
        json_ser(es[0]) + seq![0x2cu8] + arr_ser(es.subrange(1, es.len() as int))
    }
}

/// The serialized members of an object, separated by commas.
pub open spec fn obj_ser(ps: Seq<(Seq<u8>, JsonData)>) -> Seq<u8>
    decreases ps,
{
    if ps.len() == 0 {
        Seq::empty()
    } else if ps.len() == 1 {
        str_ser(ps[0].0) + seq![0x3au8] + json_ser(ps[0].1)
    } else {
        str_ser(ps[0].0) + seq![0x3au8] + json_ser(ps[0].1) + seq![0x2cu8] + obj_ser(
            ps.subrange(1, ps.len() as int),
        )
    }
}

/// Escaping distributes over appending one byte.
pub proof fn lemma_esc_bytes_snoc(s: Seq<u8>, b: u8)
    ensures
        esc_bytes(s.push(b)) == esc_bytes(s) + esc_byte(b),
    decreases s.len(),
{
    if s.len() == 0 {
        assert(s.push(b).subrange(1, s.push(b).len() as int) =~= Seq::<u8>::empty());
        assert(s.push(b)[0] == b);
        assert(esc_bytes(Seq::<u8>::empty()) == Seq::<u8>::empty());
        assert(esc_bytes(s.push(b)) =~= esc_bytes(s) + esc_byte(b));
    } else {
        assert(s.push(b).subrange(1, s.push(b).len() as int) =~= s.subrange(
            1,
            s.len() as int,
        ).push(b));
        lemma_esc_bytes_snoc(s.subrange(1, s.len() as int), b);
        assert(esc_bytes(s.push(b)) =~= esc_bytes(s) + esc_byte(b));
    }
}

/// Array serialization distributes over appending one element.
pub proof fn lemma_arr_ser_snoc(es: Seq<JsonData>, v: JsonData)
    requires
        es.len() >= 1,
    ensures
        arr_ser(es.push(v)) == arr_ser(es) + seq![0x2cu8] + json_ser(v),
    decreases es.len(),
{
    let full = es.push(v);
    assert(full.subrange(1, full.len() as int) =~= es.subrange(1, es.len() as int).push(v));
    if es.len() == 1 {
        assert(es.subrange(1, 1) =~= Seq::<JsonData>::empty());
        assert(arr_ser(full.subrange(1, full.len() as int)) == json_ser(v));
        assert(arr_ser(full) =~= arr_ser(es) + seq![0x2cu8] + json_ser(v));
    } else {
        lemma_arr_ser_snoc(es.subrange(1, es.len() as int), v);
        assert(arr_ser(full) =~= arr_ser(es) + seq![0x2cu8] + json_ser(v));
    }
}

/// Object serialization distributes over appending one member.
#[verifier::rlimit(60)]
pub proof fn lemma_obj_ser_snoc(ps: Seq<(Seq<u8>, JsonData)>, k: Seq<u8>, v: JsonData)
    requires
        ps.len() >= 1,
    ensures
        obj_ser(ps.push((k, v))) == obj_ser(ps) + seq![0x2cu8] + str_ser(k) + seq![0x3au8]
            + json_ser(v),
    decreases ps.len(),
{
    let full = ps.push((k, v));
    assert(full.subrange(1, full.len() as int) =~= ps.subrange(1, ps.len() as int).push((k, v)));
    assert(full[0] == ps[0]);
    assert(full[full.len() - 1] == (k, v));
    if ps.len() == 1 {
        assert(ps.subrange(1, 1) =~= Seq::<(Seq<u8>, JsonData)>::empty());
        let single = full.subrange(1, full.len() as int);
        assert(single.len() == 1 && single[0] == (k, v));
        assert(obj_ser(single) == str_ser(k) + seq![0x3au8] + json_ser(v));
        assert(obj_ser(full) =~= obj_ser(ps) + seq![0x2cu8] + str_ser(k) + seq![0x3au8]
            + json_ser(v));
    } else {
        lemma_obj_ser_snoc(ps.subrange(1, ps.len() as int), k, v);
        assert(full[0].0 == ps[0].0 && full[0].1 == ps[0].1);
        assert(obj_ser(full) == str_ser(ps[0].0) + seq![0x3au8] + json_ser(ps[0].1)
            + seq![0x2cu8] + obj_ser(full.subrange(1, full.len() as int)));
        assert(obj_ser(ps) == str_ser(ps[0].0) + seq![0x3au8] + json_ser(ps[0].1) + seq![0x2cu8]
            + obj_ser(ps.subrange(1, ps.len() as int)));
        assert(obj_ser(full) =~= obj_ser(ps) + seq![0x2cu8] + str_ser(k) + seq![0x3au8]
            + json_ser(v));
    }
}

/// Appends the escaped form of one byte to `out`.
fn push_esc_byte(b: u8, out: &mut Vec<u8>)
    ensures
        final(out)@ == old(out)@ + esc_byte(b),
{
    if b == 0x22 {
        out.push(0x5c);
        out.push(0x22);
    } else if b == 0x5c {
        out.push(0x5c);
        out.push(0x5c);
    } else if b == 0x08 {
        out.push(0x5c);
        out.push(0x62);
    } else if b == 0x09 {
        out.push(0x5c);
        out.push(0x74);
    } else if b == 0x0a {
        out.push(0x5c);
        out.push(0x6e);
    } else if b == 0x0c {
        out.push(0x5c);
        out.push(0x66);
    } else if b == 0x0d {
        out.push(0x5c);
        out.push(0x72);
    } else if b < 0x20 {
        out.push(0x5c);
        out.push(0x75);
        out.push(0x30);
        out.push(0x30);
        let hi = b / 16;
        let lo = b % 16;
        out.push(if hi < 10 { 0x30 + hi } else { 0x61 + (hi - 10) });
        out.push(if lo < 10 { 0x30 + lo } else { 0x61 + (lo - 10) });
    } else {
        out.push(b);
    }
    assert(out@ =~= old(out)@ + esc_byte(b));
}

/// Appends a serialized JSON string to `out`.
pub fn write_json_str(s: &Vec<u8>, out: &mut Vec<u8>)
    ensures
        final(out)@ == old(out)@ + str_ser(s@),
{
    out.push(0x22);
    let mut i: usize = 0;
    while i < s.len()
        invariant
            i <= s.len(),
            out@ == old(out)@ + seq![0x22u8] + esc_bytes(s@.take(i as int)),
        decreases s.len() - i,
    {
        proof {
            lemma_esc_bytes_snoc(s@.take(i as int), s@[i as int]);
            assert(s@.take(i as int).push(s@[i as int]) =~= s@.take(i + 1));
        }
        push_esc_byte(s[i], out);
        i += 1;
    }
    assert(s@.take(s@.len() as int) =~= s@);
    out.push(0x22);
    assert(out@ =~= old(out)@ + str_ser(s@));
}

/// Appends a serialized JSON integer to `out`.
pub fn write_json_int(i: i64, out: &mut Vec<u8>)
    ensures
        final(out)@ == old(out)@ + int_ser(i as int),
{
    if i < 0 {
        out.push(0x2d);
        let mag: u64 = if i == i64::MIN {
            9223372036854775808u64
        } else {
            (-i) as u64
        };
        assert(mag as nat == (-(i as int)) as nat);
        push_dec(mag, out);
        assert(out@ =~= old(out)@ + int_ser(i as int));
    } else {
        push_dec(i as u64, out);
        assert(out@ =~= old(out)@ + int_ser(i as int));
    }
}

/// Appends the canonical serialized bytes of `j` to `out`.
pub fn write_json(j: &Json, out: &mut Vec<u8>)
    ensures
        final(out)@ == old(out)@ + json_ser(j@),
    decreases j,
{
    broadcast use vstd::std_specs::vec::axiom_vec_decreases_to_view;

    match j {
        Json::Null => {
            out.push(0x6e);
            out.push(0x75);
            out.push(0x6c);
            out.push(0x6c);
            assert(out@ =~= old(out)@ + json_ser(j@));
        },
        Json::Bool(b) => {
            if *b {
                out.push(0x74);
                out.push(0x72);
                out.push(0x75);
                out.push(0x65);
            } else {
                out.push(0x66);
                out.push(0x61);
                out.push(0x6c);
                out.push(0x73);
                out.push(0x65);
            }
            assert(out@ =~= old(out)@ + json_ser(j@));
        },
        Json::Int(i) => {
            write_json_int(*i, out);
        },
        Json::Num(raw) => {
            let mut bi: usize = 0;
            while bi < raw.len()
                invariant
                    bi <= raw@.len(),
                    *j is Num,
                    *raw == (*j)->Num_0,
                    out@ == old(out)@ + raw@.take(bi as int),
                decreases raw@.len() - bi,
            {
                out.push(raw[bi]);
                assert(out@ =~= old(out)@ + raw@.take(bi + 1));
                bi += 1;
            }
            assert(raw@.take(raw@.len() as int) =~= raw@);
        },
        Json::Str(s) => {
            write_json_str(s, out);
        },
        Json::Arr(es) => {
            proof {
                lemma_jsons_view_index(es@);
            }
            out.push(0x5b);
            let mut i: usize = 0;
            while i < es.len()
                invariant
                    i <= es.len(),
                    *j is Arr,
                    *es == (*j)->Arr_0,
                    jsons_view(es@).len() == es@.len(),
                    forall|k: int| 0 <= k < es@.len() ==> #[trigger] jsons_view(es@)[k]
                        == json_view(es@[k]),
                    out@ == old(out)@ + seq![0x5bu8] + arr_ser(jsons_view(es@).take(i as int)),
                decreases es.len() - i,
            {
                if i > 0 {
                    out.push(0x2c);
                    proof {
                        lemma_arr_ser_snoc(
                            jsons_view(es@).take(i as int),
                            jsons_view(es@)[i as int],
                        );
                    }
                } else {
                    assert(arr_ser(jsons_view(es@).take(0)) =~= Seq::<u8>::empty());
                }
                proof {
                    assert(decreases_to!(*j => (*j)->Arr_0));
                    assert(decreases_to!((*j)->Arr_0 => es@));
                    assert(decreases_to!(es@ => es@[i as int]));
                    assert(jsons_view(es@).take(i as int).push(jsons_view(es@)[i as int])
                        =~= jsons_view(es@).take(i + 1));
                }
                write_json(&es[i], out);
                proof {
                    if i == 0 {
                        assert(arr_ser(jsons_view(es@).take(1)) == json_ser(
                            jsons_view(es@)[0],
                        ));
                    }
                    assert(out@ =~= old(out)@ + seq![0x5bu8] + arr_ser(
                        jsons_view(es@).take(i + 1),
                    ));
                }
                i += 1;
            }
            assert(jsons_view(es@).take(es@.len() as int) =~= jsons_view(es@));
            out.push(0x5d);
            assert(out@ =~= old(out)@ + json_ser(j@));
        },
        Json::Obj(ps) => {
            proof {
                lemma_pairs_view_index(ps@);
            }
            out.push(0x7b);
            let mut i: usize = 0;
            while i < ps.len()
                invariant
                    i <= ps.len(),
                    *j is Obj,
                    *ps == (*j)->Obj_0,
                    pairs_view(ps@).len() == ps@.len(),
                    forall|k: int| 0 <= k < ps@.len() ==> #[trigger] pairs_view(ps@)[k] == (
                        ps@[k].0@,
                        json_view(ps@[k].1),
                    ),
                    out@ == old(out)@ + seq![0x7bu8] + obj_ser(pairs_view(ps@).take(i as int)),
                decreases ps.len() - i,
            {
                if i > 0 {
                    out.push(0x2c);
                    proof {
                        lemma_obj_ser_snoc(
                            pairs_view(ps@).take(i as int),
                            pairs_view(ps@)[i as int].0,
                            pairs_view(ps@)[i as int].1,
                        );
                    }
                } else {
                    assert(obj_ser(pairs_view(ps@).take(0)) =~= Seq::<u8>::empty());
                }
                write_json_str(&ps[i].0, out);
                out.push(0x3a);
                proof {
                    assert(decreases_to!(*j => (*j)->Obj_0));
                    assert(decreases_to!((*j)->Obj_0 => ps@));
                    assert(decreases_to!(ps@ => ps@[i as int]));
                    assert(decreases_to!(ps@[i as int] => ps@[i as int].1));
                    assert(pairs_view(ps@).take(i as int).push(pairs_view(ps@)[i as int])
                        =~= pairs_view(ps@).take(i + 1));
                }
                write_json(&ps[i].1, out);
                proof {
                    if i == 0 {
                        assert(obj_ser(pairs_view(ps@).take(1)) == str_ser(pairs_view(ps@)[0].0)
                            + seq![0x3au8] + json_ser(pairs_view(ps@)[0].1));
                    }
                    assert(out@ =~= old(out)@ + seq![0x7bu8] + obj_ser(
                        pairs_view(ps@).take(i + 1),
                    ));
                }
                i += 1;
            }
            assert(pairs_view(ps@).take(ps@.len() as int) =~= pairs_view(ps@));
            out.push(0x7d);
            assert(out@ =~= old(out)@ + json_ser(j@));
        },
    }
}

/// A byte the escaper copies through unchanged.
pub open spec fn esc_plain(b: u8) -> bool {
    b != 0x22 && b != 0x5c && b >= 0x20
}

/// Escaping leaves a run of plain bytes in place.
proof fn lemma_esc_bytes_plain_prefix(pre: Seq<u8>, rest: Seq<u8>)
    requires
        forall|i: int| 0 <= i < pre.len() ==> esc_plain(#[trigger] pre[i]),
    ensures
        esc_bytes(pre + rest) == pre + esc_bytes(rest),
    decreases pre.len(),
{
    if pre.len() == 0 {
        assert(pre + rest =~= rest);
        assert(pre + esc_bytes(rest) =~= esc_bytes(rest));
    } else {
        let s = pre + rest;
        assert(s[0] == pre[0]);
        assert(esc_plain(pre[0]));
        assert(esc_byte(s[0]) == seq![pre[0]]);
        assert(s.subrange(1, s.len() as int) =~= pre.subrange(1, pre.len() as int) + rest);
        assert(forall|i: int|
            0 <= i < pre.len() - 1 ==> esc_plain(#[trigger] pre.subrange(1, pre.len() as int)[i]));
        lemma_esc_bytes_plain_prefix(pre.subrange(1, pre.len() as int), rest);
        assert(esc_bytes(pre + rest) =~= pre + esc_bytes(rest));
    }
}

/// Every escaped form of an ASCII byte is ASCII.
proof fn lemma_esc_byte_ascii(b: u8)
    requires
        b < 0x80,
    ensures
        forall|i: int| 0 <= i < esc_byte(b).len() ==> #[trigger] esc_byte(b)[i] < 0x80,
{
    if !(b == 0x22 || b == 0x5c || b == 0x08 || b == 0x09 || b == 0x0a || b == 0x0c || b == 0x0d)
        && b < 0x20 {
        assert(hex_digit((b / 16) as nat) < 0x80);
        assert(hex_digit((b % 16) as nat) < 0x80);
    }
}

/// Escaped valid UTF-8 is valid UTF-8: ASCII bytes escape to ASCII
/// runs, and the bytes of a wider scalar pass through together.
pub proof fn lemma_esc_bytes_valid(s: Seq<u8>)
    requires
        vstd::utf8::valid_utf8(s),
    ensures
        vstd::utf8::valid_utf8(esc_bytes(s)),
    decreases s.len(),
{
    broadcast use vstd::utf8::valid_utf8_concat;

    if s.len() == 0 {
    } else {
        let len = vstd::utf8::length_of_first_scalar(s);
        let rest = vstd::utf8::pop_first_scalar(s);
        assert(vstd::utf8::valid_first_scalar(s));
        assert(vstd::utf8::valid_utf8(rest));
        if vstd::utf8::is_leading_byte_width_1(s[0]) {
            // an ASCII scalar: its escaped form is an ASCII run
            assert(len == 1);
            assert(rest =~= s.subrange(1, s.len() as int));
            assert(esc_bytes(s) == esc_byte(s[0]) + esc_bytes(rest));
            lemma_esc_byte_ascii(s[0]);
            crate::bytes_util::lemma_ascii_valid_utf8(esc_byte(s[0]));
            lemma_esc_bytes_valid(rest);
        } else {
            // a wider scalar: every one of its bytes is 0x80 or above
            assert(2 <= len <= 4);
            let first = s.subrange(0, len);
            assert(forall|i: int| 0 <= i < len ==> esc_plain(#[trigger] first[i])) by {
                assert(vstd::utf8::valid_leading_and_continuation_bytes_first_codepoint(s));
                assert(forall|i: int| 1 <= i < len ==> vstd::utf8::is_continuation_byte(
                    #[trigger] s[i],
                ));
                assert(s[0] >= 0xc0);
                assert(forall|i: int| 0 <= i < len ==> first[i] == s[i]);
            }
            assert(s =~= first + rest);
            lemma_esc_bytes_plain_prefix(first, rest);
            assert(esc_bytes(s) == first + esc_bytes(rest));
            // the scalar's own bytes are valid UTF-8 on their own
            assert(vstd::utf8::valid_first_scalar(first)) by {
                assert(forall|i: int| 0 <= i < len ==> first[i] == s[i]);
                assert(vstd::utf8::decode_first_codepoint(first)
                    == vstd::utf8::decode_first_codepoint(s));
                assert(vstd::utf8::length_of_first_codepoint(first)
                    == vstd::utf8::length_of_first_codepoint(s));
            }
            assert(vstd::utf8::valid_utf8(first)) by {
                assert(vstd::utf8::length_of_first_scalar(first) == len);
                assert(vstd::utf8::pop_first_scalar(first) =~= Seq::<u8>::empty());
                assert(vstd::utf8::valid_utf8(Seq::<u8>::empty()));
            }
            lemma_esc_bytes_valid(rest);
        }
    }
}

/// A serialized text well-formed value is valid UTF-8: the structure is
/// ASCII and every string is escaped valid UTF-8.
pub proof fn lemma_json_ser_valid(j: JsonData)
    requires
        crate::json::json_text_wf(j),
    ensures
        vstd::utf8::valid_utf8(json_ser(j)),
    decreases j, 0int,
{
    broadcast use vstd::utf8::valid_utf8_concat;

    match j {
        JsonData::Null => {
            lemma_small_ascii_valid(json_ser(j));
        },
        JsonData::Bool(b) => {
            lemma_small_ascii_valid(json_ser(j));
        },
        JsonData::Int(iv) => {
            crate::bytes_util::lemma_dec_digits_are_digits(if iv < 0 {
                (-iv) as nat
            } else {
                iv as nat
            });
            lemma_small_ascii_valid(json_ser(j));
        },
        JsonData::Num(raw) => {
            lemma_small_ascii_valid(raw);
        },
        JsonData::Str(s) => {
            lemma_str_ser_valid(s);
        },
        JsonData::Arr(es) => {
            lemma_arr_ser_valid(es);
            lemma_small_ascii_valid(seq![0x5bu8]);
            lemma_small_ascii_valid(seq![0x5du8]);
            vstd::utf8::valid_utf8_concat(seq![0x5bu8], arr_ser(es));
            vstd::utf8::valid_utf8_concat(seq![0x5bu8] + arr_ser(es), seq![0x5du8]);
        },
        JsonData::Obj(ps) => {
            lemma_obj_ser_valid(ps);
            lemma_small_ascii_valid(seq![0x7bu8]);
            lemma_small_ascii_valid(seq![0x7du8]);
            vstd::utf8::valid_utf8_concat(seq![0x7bu8], obj_ser(ps));
            vstd::utf8::valid_utf8_concat(seq![0x7bu8] + obj_ser(ps), seq![0x7du8]);
        },
    }
}

/// A short all-ASCII sequence is valid UTF-8.
proof fn lemma_small_ascii_valid(s: Seq<u8>)
    requires
        forall|i: int| 0 <= i < s.len() ==> #[trigger] s[i] < 0x80,
    ensures
        vstd::utf8::valid_utf8(s),
{
    crate::bytes_util::lemma_ascii_valid_utf8(s);
}

/// A serialized text well-formed string is valid UTF-8.
proof fn lemma_str_ser_valid(s: Seq<u8>)
    requires
        vstd::utf8::valid_utf8(s),
    ensures
        vstd::utf8::valid_utf8(str_ser(s)),
{
    broadcast use vstd::utf8::valid_utf8_concat;

    lemma_esc_bytes_valid(s);
    lemma_small_ascii_valid(seq![0x22u8]);
    vstd::utf8::valid_utf8_concat(seq![0x22u8], esc_bytes(s));
    vstd::utf8::valid_utf8_concat(seq![0x22u8] + esc_bytes(s), seq![0x22u8]);
}

/// Serialized text well-formed elements are valid UTF-8.
proof fn lemma_arr_ser_valid(es: Seq<JsonData>)
    requires
        crate::json::jsons_text_wf(es),
    ensures
        vstd::utf8::valid_utf8(arr_ser(es)),
    decreases es, 1int,
{
    broadcast use vstd::utf8::valid_utf8_concat;

    if es.len() == 0 {
    } else if es.len() == 1 {
        lemma_json_ser_valid(es[0]);
    } else {
        lemma_json_ser_valid(es[0]);
        lemma_small_ascii_valid(seq![0x2cu8]);
        lemma_arr_ser_valid(es.subrange(1, es.len() as int));
        vstd::utf8::valid_utf8_concat(json_ser(es[0]), seq![0x2cu8]);
        vstd::utf8::valid_utf8_concat(
            json_ser(es[0]) + seq![0x2cu8],
            arr_ser(es.subrange(1, es.len() as int)),
        );
    }
}

/// Serialized text well-formed members are valid UTF-8.
proof fn lemma_obj_ser_valid(ps: Seq<(Seq<u8>, JsonData)>)
    requires
        crate::json::pairs_text_wf(ps),
    ensures
        vstd::utf8::valid_utf8(obj_ser(ps)),
    decreases ps, 1int,
{
    broadcast use vstd::utf8::valid_utf8_concat;

    if ps.len() == 0 {
    } else {
        lemma_str_ser_valid(ps[0].0);
        lemma_small_ascii_valid(seq![0x3au8]);
        lemma_json_ser_valid(ps[0].1);
        vstd::utf8::valid_utf8_concat(str_ser(ps[0].0), seq![0x3au8]);
        vstd::utf8::valid_utf8_concat(str_ser(ps[0].0) + seq![0x3au8], json_ser(ps[0].1));
        if ps.len() > 1 {
            lemma_small_ascii_valid(seq![0x2cu8]);
            lemma_obj_ser_valid(ps.subrange(1, ps.len() as int));
            vstd::utf8::valid_utf8_concat(
                str_ser(ps[0].0) + seq![0x3au8] + json_ser(ps[0].1),
                seq![0x2cu8],
            );
            vstd::utf8::valid_utf8_concat(
                str_ser(ps[0].0) + seq![0x3au8] + json_ser(ps[0].1) + seq![0x2cu8],
                obj_ser(ps.subrange(1, ps.len() as int)),
            );
        }
    }
}

} // verus!
