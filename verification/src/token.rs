//! Restore tokens: fresh random strings in the textual shape of a
//! version-4 random unique identifier.

use vstd::prelude::*;

verus! {

use crate::json_parse::is_digit;
use crate::outside::random_in;

/// A lower-case hex digit byte.
pub open spec fn is_hex_lower(b: u8) -> bool {
    is_digit(b) || 0x61 <= b <= 0x66
}

/// What may stand at place `i` of a token: a dash at the four fixed
/// places, the version digit four after the second dash, a variant
/// digit in `8`, `9`, `a` or `b` after the third, and a lower-case hex
/// digit everywhere else.
pub open spec fn token_byte_ok(s: Seq<u8>, i: int) -> bool {
    if i == 8 || i == 13 || i == 18 || i == 23 {
        s[i] == 0x2d
    } else if i == 14 {
        s[i] == 0x34
    } else if i == 19 {
        s[i] == 0x38 || s[i] == 0x39 || s[i] == 0x61 || s[i] == 0x62
    } else {
        is_hex_lower(s[i])
    }
}

/// The shape of a restore token: thirty-six bytes, each place as
/// `token_byte_ok` says.
pub open spec fn is_restore_token(s: Seq<u8>) -> bool {
    s.len() == 36 && (forall|i: int| 0 <= i < 36 ==> #[trigger] token_byte_ok(s, i))
}

/// The lower-case hex digit byte for a value below sixteen.
fn hex_lower_byte(v: u32) -> (r: u8)
    requires
        v < 16,
    ensures
        is_hex_lower(r),
        v < 10 ==> r == 0x30 + v,
        v >= 10 ==> r == 0x61 + (v - 10),
{
    if v < 10 {
        0x30 + (v as u8)
    } else {
        0x61 + ((v as u8) - 10)
    }
}

/// A fresh token in the shape `is_restore_token` describes.  Each hex
/// place is drawn at random; the dashes, the version digit and the
/// variant range are fixed by the shape.
pub fn generate_restore_token() -> (r: Vec<u8>)
    ensures
        is_restore_token(r@),
{
    let mut out: Vec<u8> = Vec::new();
    let mut i: usize = 0;
    while i < 36
        invariant
            i <= 36,
            out@.len() == i,
            forall|k: int| 0 <= k < i ==> #[trigger] token_byte_ok(out@, k),
        decreases 36 - i,
    {
        let b: u8 = if i == 8 || i == 13 || i == 18 || i == 23 {
            0x2d
        } else if i == 14 {
            0x34
        } else if i == 19 {
            let v = random_in(8, 12);
            hex_lower_byte(v)
        } else {
            let v = random_in(0, 16);
            hex_lower_byte(v)
        };
        let ghost pre = out@;
        out.push(b);
        proof {
            assert forall|k: int| 0 <= k < i + 1 implies #[trigger] token_byte_ok(out@, k) by {
                if k < i {
                    assert(out@[k] == pre[k]);
                    assert(token_byte_ok(pre, k));
                } else {
                    assert(out@[k] == b);
                }
            }
        }
        i += 1;
    }
    out
}

/// One fixed token-shaped byte sequence, for reasoning about runs in
/// which no token was drawn.
pub open spec fn spec_sample_token() -> Seq<u8> {
    Seq::new(36, |i: int|
        if i == 8 || i == 13 || i == 18 || i == 23 {
            0x2du8
        } else if i == 14 {
            0x34u8
        } else if i == 19 {
            0x38u8
        } else {
            0x30u8
        })
}

/// The fixed sequence has the token shape.
pub proof fn lemma_sample_token()
    ensures
        is_restore_token(spec_sample_token()),
{
    assert forall|i: int| 0 <= i < 36 implies #[trigger] token_byte_ok(spec_sample_token(), i) by {
        assert(spec_sample_token()[i] == (if i == 8 || i == 13 || i == 18 || i == 23 {
            0x2du8
        } else if i == 14 {
            0x34u8
        } else if i == 19 {
            0x38u8
        } else {
            0x30u8
        }));
    }
}

} // verus!
