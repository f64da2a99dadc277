//! The text forms of bytes: base64 for what travels, in two alphabets, and hexadecimal for
//! what is stored of a login password.

use vstd::prelude::*;

use crate::text;

verus! {

// ---------------------------------------------------------------------------
// Base64
// ---------------------------------------------------------------------------

/// The character of a number below 64.
pub open spec fn base64_char(v: int) -> char {
    if v < 26 {
        (v + 65) as char
    } else if v < 52 {
        (v + 71) as char
    } else if v < 62 {
        (v - 4) as char
    } else if v == 62 {
        '+'
    } else {
        '/'
    }
}

/// The canonical base64 text of some bytes: four characters for each three bytes, six
/// bits in each character, the last four filled up with `=`.
pub open spec fn base64_text(b: Seq<u8>) -> Seq<char>
    decreases b.len(),
{
    if b.len() == 0 {
        Seq::empty()
    } else if b.len() == 1 {
        seq![base64_char(b[0] as int / 4), base64_char(b[0] as int % 4 * 16), '=', '=']
    } else if b.len() == 2 {
        seq![
            base64_char(b[0] as int / 4),
            base64_char(b[0] as int % 4 * 16 + b[1] as int / 16),
            base64_char(b[1] as int % 16 * 4),
            '=',
        ]
    } else {
        seq![
            base64_char(b[0] as int / 4),
            base64_char(b[0] as int % 4 * 16 + b[1] as int / 16),
            base64_char(b[1] as int % 16 * 4 + b[2] as int / 64),
            base64_char(b[2] as int % 64),
        ] + base64_text(b.skip(3))
    }
}

/// How long the base64 text of `n` bytes is.
pub open spec fn base64_len(n: int) -> int {
    (n + 2) / 3 * 4
}

/// The words with which the `base64` crate refuses a text that is no base64 text.
pub uninterp spec fn base64_fault(s: Seq<char>) -> Seq<char>;

/// `base64::Engine::encode` of the standard engine: the canonical text. It aborts where
/// the text does not fit in memory.
#[verifier::external_body]
pub(crate) fn base64_encode(bytes: &[u8]) -> (r: String)
    requires
        base64_len(bytes@.len() as int) <= isize::MAX,
    ensures
        r@ == base64_text(bytes@),
{
    base64::Engine::encode(&base64::engine::general_purpose::STANDARD, bytes)
}

/// `base64::Engine::decode` of the standard engine: it demands canonical padding and no
/// trailing bits, so it accepts the canonical texts and no others. What it says of
/// another text depends on the text alone.
#[verifier::external_body]
fn base64_decode(s: &str) -> (r: Result<Vec<u8>, String>)
    ensures
        match r {
            Ok(v) => s@ == base64_text(v@),
            Err(e) => e@ == base64_fault(s@) && forall|b: Seq<u8>| s@ != #[trigger] base64_text(
                b,
            ),
        },
{
    base64::Engine::decode(&base64::engine::general_purpose::STANDARD, s).map_err(
        |e| e.to_string(),
    )
}

/// The bytes that have a base64 text.
pub fn base64_decoded(s: &str) -> (r: Result<Vec<u8>, String>)
    ensures
        match r {
            Ok(v) => base64_bytes(s@) == Ok::<Seq<u8>, Seq<char>>(v@),
            Err(e) => base64_bytes(s@) == Err::<Seq<u8>, Seq<char>>(e@),
        },
{
    match base64_decode(s) {
        Ok(v) => {
            proof {
                law_base64_roundtrip(v@);
            }
            Ok(v)
        },
        Err(e) => Err(e),
    }
}

/// What decoding gives: the bytes that have this text, or the refusal.
pub open spec fn base64_bytes(s: Seq<char>) -> Result<Seq<u8>, Seq<char>> {
    if exists|b: Seq<u8>| s == #[trigger] base64_text(b) {
        Ok(choose|b: Seq<u8>| s == #[trigger] base64_text(b))
    } else {
        Err(base64_fault(s))
    }
}

proof fn lemma_base64_char_injective(v: int, w: int)
    requires
        0 <= v < 64,
        0 <= w < 64,
        base64_char(v) == base64_char(w),
    ensures
        v == w,
{
}

proof fn lemma_base64_char_plain(v: int)
    requires
        0 <= v < 64,
    ensures
        base64_char(v) != '=',
        base64_char(v) != ':',
{
}

proof fn lemma_base64_text_len(b: Seq<u8>)
    ensures
        base64_text(b).len() == base64_len(b.len() as int),
    decreases b.len(),
{
    if b.len() >= 3 {
        lemma_base64_text_len(b.skip(3));
    }
}

/// Different bytes have different base64 texts.
pub proof fn law_base64_text_is_unique(a: Seq<u8>, b: Seq<u8>)
    requires
        base64_text(a) == base64_text(b),
    ensures
        a == b,
    decreases a.len(),
{
    let s = base64_text(a);
    let t = base64_text(b);
    lemma_base64_text_len(a);
    lemma_base64_text_len(b);
    if a.len() > 0 {
        assert(b.len() > 0);
        let a0 = a[0] as int;
        let b0 = b[0] as int;
        let a1 = if a.len() > 1 {
            a[1] as int
        } else {
            0
        };
        let b1 = if b.len() > 1 {
            b[1] as int
        } else {
            0
        };
        let a2 = if a.len() > 2 {
            a[2] as int
        } else {
            0
        };
        let b2 = if b.len() > 2 {
            b[2] as int
        } else {
            0
        };
        assert(s[0] == base64_char(a0 / 4) && t[0] == base64_char(b0 / 4));
        assert(s[1] == base64_char(a0 % 4 * 16 + a1 / 16));
        assert(t[1] == base64_char(b0 % 4 * 16 + b1 / 16));
        lemma_base64_char_injective(a0 / 4, b0 / 4);
        lemma_base64_char_injective(a0 % 4 * 16 + a1 / 16, b0 % 4 * 16 + b1 / 16);
        lemma_base64_char_plain(a1 % 16 * 4 + a2 / 64);
        lemma_base64_char_plain(b1 % 16 * 4 + b2 / 64);
        lemma_base64_char_plain(a2 % 64);
        lemma_base64_char_plain(b2 % 64);
        if a.len() == 1 {
            assert(s[2] == '=');
            if b.len() >= 2 {
                assert(t[2] == base64_char(b1 % 16 * 4 + b2 / 64));
            }
            assert(b.len() == 1);
            assert(a =~= b);
        } else {
            assert(s[2] == base64_char(a1 % 16 * 4 + a2 / 64));
            if b.len() == 1 {
                assert(t[2] == '=');
            }
            assert(t[2] == base64_char(b1 % 16 * 4 + b2 / 64));
            lemma_base64_char_injective(a1 % 16 * 4 + a2 / 64, b1 % 16 * 4 + b2 / 64);
            if a.len() == 2 {
                assert(s[3] == '=');
                if b.len() >= 3 {
                    assert(t[3] == base64_char(b2 % 64));
                }
                assert(a =~= b);
            } else {
                assert(s[3] == base64_char(a2 % 64));
                if b.len() == 2 {
                    assert(t[3] == '=');
                }
                assert(t[3] == base64_char(b2 % 64));
                lemma_base64_char_injective(a2 % 64, b2 % 64);
                assert(s.skip(4) =~= base64_text(a.skip(3)));
                assert(t.skip(4) =~= base64_text(b.skip(3)));
                law_base64_text_is_unique(a.skip(3), b.skip(3));
                assert(a =~= seq![a[0], a[1], a[2]] + a.skip(3));
                assert(b =~= seq![b[0], b[1], b[2]] + b.skip(3));
            }
        }
    }
}

/// Decoding gives back the bytes that were encoded.
pub proof fn law_base64_roundtrip(b: Seq<u8>)
    ensures
        base64_bytes(base64_text(b)) == Ok::<Seq<u8>, Seq<char>>(b),
{
    let s = base64_text(b);
    let c = choose|c: Seq<u8>| s == #[trigger] base64_text(c);
    law_base64_text_is_unique(b, c);
}

/// A base64 text holds no colon.
pub proof fn law_base64_text_holds_no_colon(b: Seq<u8>)
    ensures
        !base64_text(b).contains(':'),
    decreases b.len(),
{
    let s = base64_text(b);
    if b.len() > 0 {
        let b0 = b[0] as int;
        let b1 = if b.len() > 1 {
            b[1] as int
        } else {
            0
        };
        let b2 = if b.len() > 2 {
            b[2] as int
        } else {
            0
        };
        lemma_base64_char_plain(b0 / 4);
        lemma_base64_char_plain(b0 % 4 * 16 + b1 / 16);
        lemma_base64_char_plain(b1 % 16 * 4 + b2 / 64);
        lemma_base64_char_plain(b2 % 64);
        if b.len() >= 3 {
            let rest = base64_text(b.skip(3));
            law_base64_text_holds_no_colon(b.skip(3));
            assert forall|i: int| 0 <= i < s.len() implies s[i] != ':' by {
                if i >= 4 {
                    assert(s[i] == rest[i - 4]);
                    assert(rest.contains(rest[i - 4]));
                }
            }
        }
    }
}

// ---------------------------------------------------------------------------
// Base64 for addresses
// ---------------------------------------------------------------------------

/// The character of a number below 64, in the alphabet for addresses.
pub open spec fn base64url_char(v: int) -> char {
    if v == 62 {
        '-'
    } else if v == 63 {
        '_'
    } else {
        base64_char(v)
    }
}

/// The base64 text of some bytes in the alphabet for addresses, without padding.
pub open spec fn base64url_text(b: Seq<u8>) -> Seq<char>
    decreases b.len(),
{
    if b.len() == 0 {
        Seq::empty()
    } else if b.len() == 1 {
        seq![base64url_char(b[0] as int / 4), base64url_char(b[0] as int % 4 * 16)]
    } else if b.len() == 2 {
        seq![
            base64url_char(b[0] as int / 4),
            base64url_char(b[0] as int % 4 * 16 + b[1] as int / 16),
            base64url_char(b[1] as int % 16 * 4),
        ]
    } else {
        seq![
            base64url_char(b[0] as int / 4),
            base64url_char(b[0] as int % 4 * 16 + b[1] as int / 16),
            base64url_char(b[1] as int % 16 * 4 + b[2] as int / 64),
            base64url_char(b[2] as int % 64),
        ] + base64url_text(b.skip(3))
    }
}

/// What decoding gives: the bytes that have this text, where there are any.
pub open spec fn base64url_bytes(s: Seq<char>) -> Option<Seq<u8>> {
    if exists|b: Seq<u8>| s == #[trigger] base64url_text(b) {
        Some(choose|b: Seq<u8>| s == #[trigger] base64url_text(b))
    } else {
        None
    }
}

/// `base64::Engine::decode` of the engine for addresses: it demands that there be no
/// padding and no trailing bits, so it accepts the texts that it would write and no
/// others.
#[verifier::external_body]
fn base64url_decode(s: &str) -> (r: Option<Vec<u8>>)
    ensures
        match r {
            Some(v) => s@ == base64url_text(v@),
            None => forall|b: Seq<u8>| s@ != #[trigger] base64url_text(b),
        },
{
    base64::Engine::decode(&base64::engine::general_purpose::URL_SAFE_NO_PAD, s).ok()
}

/// The bytes that have a base64 text in the alphabet for addresses.
pub fn base64url_decoded(s: &str) -> (r: Option<Vec<u8>>)
    ensures
        match r {
            Some(v) => base64url_bytes(s@) == Some(v@),
            None => base64url_bytes(s@) is None,
        },
{
    let r = base64url_decode(s);
    proof {
        if r is Some {
            law_base64url_roundtrip(r->0@);
        }
    }
    r
}

proof fn lemma_base64url_char_injective(v: int, w: int)
    requires
        0 <= v < 64,
        0 <= w < 64,
        base64url_char(v) == base64url_char(w),
    ensures
        v == w,
{
}

proof fn lemma_base64url_char_plain(v: int)
    requires
        0 <= v < 64,
    ensures
        base64url_char(v) != '.',
{
}

proof fn lemma_base64url_text_len(b: Seq<u8>)
    ensures
        b.len() == 0 <==> base64url_text(b).len() == 0,
        b.len() == 1 <==> base64url_text(b).len() == 2,
        b.len() == 2 <==> base64url_text(b).len() == 3,
        b.len() >= 3 <==> base64url_text(b).len() >= 4,
{
}

/// Different bytes have different texts in the alphabet for addresses.
pub proof fn law_base64url_text_is_unique(a: Seq<u8>, b: Seq<u8>)
    requires
        base64url_text(a) == base64url_text(b),
    ensures
        a == b,
    decreases a.len(),
{
    let s = base64url_text(a);
    let t = base64url_text(b);
    lemma_base64url_text_len(a);
    lemma_base64url_text_len(b);
    if a.len() == 0 {
        assert(a =~= b);
    } else {
        let a0 = a[0] as int;
        let b0 = b[0] as int;
        let a1 = if a.len() > 1 {
            a[1] as int
        } else {
            0
        };
        let b1 = if b.len() > 1 {
            b[1] as int
        } else {
            0
        };
        let a2 = if a.len() > 2 {
            a[2] as int
        } else {
            0
        };
        let b2 = if b.len() > 2 {
            b[2] as int
        } else {
            0
        };
        assert(s[0] == base64url_char(a0 / 4) && t[0] == base64url_char(b0 / 4));
        assert(s[1] == base64url_char(a0 % 4 * 16 + a1 / 16));
        assert(t[1] == base64url_char(b0 % 4 * 16 + b1 / 16));
        lemma_base64url_char_injective(a0 / 4, b0 / 4);
        lemma_base64url_char_injective(a0 % 4 * 16 + a1 / 16, b0 % 4 * 16 + b1 / 16);
        if a.len() >= 2 {
            assert(s[2] == base64url_char(a1 % 16 * 4 + a2 / 64));
            assert(t[2] == base64url_char(b1 % 16 * 4 + b2 / 64));
            lemma_base64url_char_injective(a1 % 16 * 4 + a2 / 64, b1 % 16 * 4 + b2 / 64);
        }
        if a.len() >= 3 {
            assert(s[3] == base64url_char(a2 % 64));
            assert(t[3] == base64url_char(b2 % 64));
            lemma_base64url_char_injective(a2 % 64, b2 % 64);
            assert(s.skip(4) =~= base64url_text(a.skip(3)));
            assert(t.skip(4) =~= base64url_text(b.skip(3)));
            law_base64url_text_is_unique(a.skip(3), b.skip(3));
            assert(a =~= seq![a[0], a[1], a[2]] + a.skip(3));
            assert(b =~= seq![b[0], b[1], b[2]] + b.skip(3));
        }
        assert(a =~= b);
    }
}

/// Decoding gives back the bytes that were encoded, in the alphabet for addresses.
pub proof fn law_base64url_roundtrip(b: Seq<u8>)
    ensures
        base64url_bytes(base64url_text(b)) == Some(b),
{
    let s = base64url_text(b);
    let c = choose|c: Seq<u8>| s == #[trigger] base64url_text(c);
    law_base64url_text_is_unique(b, c);
}

/// A base64 text in the alphabet for addresses holds no dot.
pub proof fn law_base64url_text_holds_no_dot(b: Seq<u8>)
    ensures
        !base64url_text(b).contains('.'),
    decreases b.len(),
{
    let s = base64url_text(b);
    if b.len() > 0 {
        let b0 = b[0] as int;
        let b1 = if b.len() > 1 {
            b[1] as int
        } else {
            0
        };
        let b2 = if b.len() > 2 {
            b[2] as int
        } else {
            0
        };
        lemma_base64url_char_plain(b0 / 4);
        lemma_base64url_char_plain(b0 % 4 * 16 + b1 / 16);
        lemma_base64url_char_plain(b1 % 16 * 4 + b2 / 64);
        lemma_base64url_char_plain(b2 % 64);
        if b.len() >= 3 {
            let rest = base64url_text(b.skip(3));
            law_base64url_text_holds_no_dot(b.skip(3));
            assert forall|i: int| 0 <= i < s.len() implies s[i] != '.' by {
                if i >= 4 {
                    assert(s[i] == rest[i - 4]);
                    assert(rest.contains(rest[i - 4]));
                }
            }
        }
    }
}

// ---------------------------------------------------------------------------
// Hexadecimal
// ---------------------------------------------------------------------------

/// The hexadecimal text of some bytes: two lower-case digits for each.
pub open spec fn hex_text(b: Seq<u8>) -> Seq<char> {
    Seq::new(
        2 * b.len(),
        |i: int|
            if i % 2 == 0 {
                text::digit(b[i / 2] as int / 16)
            } else {
                text::digit(b[i / 2] as int % 16)
            },
    )
}

/// The value of a hexadecimal digit of either case.
pub open spec fn hex_value(c: char) -> Option<int> {
    if '0' <= c && c <= '9' {
        Some(c as int - '0' as int)
    } else if 'a' <= c && c <= 'f' {
        Some(c as int - 'a' as int + 10)
    } else if 'A' <= c && c <= 'F' {
        Some(c as int - 'A' as int + 10)
    } else {
        None
    }
}

/// Whether a text is made of pairs of hexadecimal digits.
pub open spec fn is_hex(s: Seq<char>) -> bool {
    &&& s.len() % 2 == 0
    &&& forall|i: int| 0 <= i < s.len() ==> hex_value(#[trigger] s[i]) is Some
}

/// The words with which the `hex` crate refuses a text that is not made of pairs of
/// hexadecimal digits.
pub uninterp spec fn hex_fault(s: Seq<char>) -> Seq<char>;

/// What decoding gives: the byte of each pair of digits, or the refusal.
pub open spec fn hex_bytes(s: Seq<char>) -> Result<Seq<u8>, Seq<char>> {
    if is_hex(s) {
        Ok(
            Seq::new(
                s.len() / 2,
                |i: int| (16 * hex_value(s[2 * i])->0 + hex_value(s[2 * i + 1])->0) as u8,
            ),
        )
    } else {
        Err(hex_fault(s))
    }
}

/// `hex::encode`: two lower-case digits for each byte. It aborts where the text does
/// not fit in memory.
#[verifier::external_body]
pub(crate) fn hex_encode(bytes: &[u8]) -> (r: String)
    requires
        2 * bytes@.len() <= isize::MAX,
    ensures
        r@ == hex_text(bytes@),
{
    hex::encode(bytes)
}

/// `hex::decode`: it takes pairs of digits of either case and nothing else. What it says
/// of another text depends on the text alone.
#[verifier::external_body]
pub(crate) fn hex_decode(s: &str) -> (r: Result<Vec<u8>, String>)
    ensures
        match r {
            Ok(v) => hex_bytes(s@) == Ok::<Seq<u8>, Seq<char>>(v@),
            Err(e) => hex_bytes(s@) == Err::<Seq<u8>, Seq<char>>(e@) && e@ == hex_fault(s@),
        },
{
    hex::decode(s).map_err(|e| e.to_string())
}

proof fn lemma_digit_value(d: int)
    requires
        0 <= d < 16,
    ensures
        hex_value(text::digit(d)) == Some(d),
        text::digit(d) != '$',
{
}

/// Decoding gives back the bytes that were encoded.
pub proof fn law_hex_roundtrip(b: Seq<u8>)
    ensures
        hex_bytes(hex_text(b)) == Ok::<Seq<u8>, Seq<char>>(b),
{
    let s = hex_text(b);
    assert forall|i: int| 0 <= i < s.len() implies hex_value(#[trigger] s[i]) is Some by {
        lemma_digit_value(b[i / 2] as int / 16);
        lemma_digit_value(b[i / 2] as int % 16);
    }
    let r = hex_bytes(s)->Ok_0;
    assert forall|i: int| 0 <= i < b.len() implies r[i] == b[i] by {
        lemma_digit_value(b[i] as int / 16);
        lemma_digit_value(b[i] as int % 16);
        assert((2 * i) / 2 == i);
        assert((2 * i + 1) / 2 == i);
    }
    assert(r =~= b);
}

/// A hexadecimal text holds no dollar sign.
pub proof fn law_hex_text_holds_no_dollar(b: Seq<u8>)
    ensures
        !hex_text(b).contains('$'),
{
    let s = hex_text(b);
    assert forall|i: int| 0 <= i < s.len() implies s[i] != '$' by {
        lemma_digit_value(b[i / 2] as int / 16);
        lemma_digit_value(b[i / 2] as int % 16);
    }
}

} // verus!
