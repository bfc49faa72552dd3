//! The textual envelope of the cipher: URL-safe base64 (RFC 4648, section 5)
//! with `=` padding, as produced and accepted by the `base64` crate's
//! `URL_SAFE` engine.
use base64::engine::general_purpose;
use base64::Engine;
use vstd::prelude::*;

verus! {

/// The symbol that stands for a six-bit value `v` (`0 <= v < 64`).
pub open spec fn url_safe_symbol(v: int) -> char {
    if v < 26 {
        (v + 65) as u32 as char
    } else if v < 52 {
        (v + 71) as u32 as char
    } else if v < 62 {
        (v - 4) as u32 as char
    } else if v == 62 {
        '-'
    } else {
        '_'
    }
}

/// `A`-`Z`, `a`-`z`, `0`-`9`, `-` and `_`.
pub open spec fn is_url_safe_symbol(c: char) -> bool {
    ||| 65 <= c as u32 <= 90
    ||| 97 <= c as u32 <= 122
    ||| 48 <= c as u32 <= 57
    ||| c == '-'
    ||| c == '_'
}

/// The padded URL-safe base64 text of `b`: each group of three bytes becomes
/// four symbols; a last group of one or two bytes is padded with `=` to four.
pub open spec fn url_safe_b64(b: Seq<u8>) -> Seq<char>
    decreases b.len(),
{
    if b.len() == 0 {
        seq![]
    } else if b.len() == 1 {
        seq![url_safe_symbol((b[0] as int) / 4), url_safe_symbol(((b[0] as int) % 4) * 16), '=', '=']
    } else if b.len() == 2 {
        seq![
            url_safe_symbol((b[0] as int) / 4),
            url_safe_symbol(((b[0] as int) % 4) * 16 + (b[1] as int) / 16),
            url_safe_symbol(((b[1] as int) % 16) * 4),
            '=',
        ]
    } else {
        seq![
            url_safe_symbol((b[0] as int) / 4),
            url_safe_symbol(((b[0] as int) % 4) * 16 + (b[1] as int) / 16),
            url_safe_symbol(((b[1] as int) % 16) * 4 + (b[2] as int) / 64),
            url_safe_symbol((b[2] as int) % 64),
        ] + url_safe_b64(b.subrange(3, b.len() as int))
    }
}

/// The bytes whose padded URL-safe base64 text is `s`, if there are any.
/// There is at most one such byte sequence (`lemma_url_safe_b64_injective`).
pub open spec fn url_safe_b64_decoded(s: Seq<char>) -> Option<Seq<u8>> {
    if exists|x: Seq<u8>| url_safe_b64(x) == s {
        Some(choose|x: Seq<u8>| url_safe_b64(x) == s)
    } else {
        None
    }
}

proof fn lemma_symbol_injective(a: int, b: int)
    requires
        0 <= a < 64,
        0 <= b < 64,
        url_safe_symbol(a) == url_safe_symbol(b),
    ensures
        a == b,
{
}

proof fn lemma_symbol_in_alphabet(a: int)
    requires
        0 <= a < 64,
    ensures
        is_url_safe_symbol(url_safe_symbol(a)),
        url_safe_symbol(a) != '=',
{
}

proof fn lemma_group_determined(a0: u8, a1: u8, a2: u8, b0: u8, b1: u8, b2: u8)
    requires
        a0 / 4 == b0 / 4,
        (a0 % 4) * 16 + a1 / 16 == (b0 % 4) * 16 + b1 / 16,
        (a1 % 16) * 4 + a2 / 64 == (b1 % 16) * 4 + b2 / 64,
        a2 % 64 == b2 % 64,
    ensures
        a0 == b0,
        a1 == b1,
        a2 == b2,
{
}

/// No two byte sequences have the same URL-safe base64 text.
pub proof fn lemma_url_safe_b64_injective(x: Seq<u8>, y: Seq<u8>)
    requires
        url_safe_b64(x) == url_safe_b64(y),
    ensures
        x == y,
    decreases x.len(),
{
    let ex = url_safe_b64(x);
    let ey = url_safe_b64(y);
    if x.len() == 0 || y.len() == 0 {
        assert(ex.len() == 0 && ey.len() == 0);
        assert(x =~= y);
    } else {
        assert(ex.len() >= 4);
        let x0 = x[0] as int;
        let y0 = y[0] as int;
        lemma_symbol_in_alphabet(x0 / 4);
        lemma_symbol_in_alphabet(y0 / 4);
        assert(ex[0] == url_safe_symbol(x0 / 4));
        assert(ey[0] == url_safe_symbol(y0 / 4));
        lemma_symbol_injective(x0 / 4, y0 / 4);
        if x.len() == 1 || y.len() == 1 {
            if x.len() >= 2 {
                lemma_symbol_in_alphabet(((x[1] as int) % 16) * 4 + if x.len() == 2 { 0 } else { (x[2] as int) / 64 });
                assert(ex[2] != '=');
            }
            if y.len() >= 2 {
                lemma_symbol_in_alphabet(((y[1] as int) % 16) * 4 + if y.len() == 2 { 0 } else { (y[2] as int) / 64 });
                assert(ey[2] != '=');
            }
            assert(x.len() == 1 && y.len() == 1);
            assert(ex[1] == ey[1]);
            lemma_symbol_injective((x0 % 4) * 16, (y0 % 4) * 16);
            assert(x =~= y);
        } else if x.len() == 2 || y.len() == 2 {
            if x.len() >= 3 {
                lemma_symbol_in_alphabet((x[2] as int) % 64);
                assert(ex[3] != '=');
            }
            if y.len() >= 3 {
                lemma_symbol_in_alphabet((y[2] as int) % 64);
                assert(ey[3] != '=');
            }
            assert(x.len() == 2 && y.len() == 2);
            assert(ex[1] == ey[1] && ex[2] == ey[2]);
            lemma_symbol_injective((x0 % 4) * 16 + (x[1] as int) / 16, (y0 % 4) * 16 + (y[1] as int) / 16);
            lemma_symbol_injective(((x[1] as int) % 16) * 4, ((y[1] as int) % 16) * 4);
            lemma_group_determined(x[0], x[1], 0, y[0], y[1], 0);
            assert(x =~= y);
        } else {
            assert(ex[1] == ey[1] && ex[2] == ey[2] && ex[3] == ey[3]);
            lemma_symbol_injective((x0 % 4) * 16 + (x[1] as int) / 16, (y0 % 4) * 16 + (y[1] as int) / 16);
            lemma_symbol_injective(((x[1] as int) % 16) * 4 + (x[2] as int) / 64, ((y[1] as int) % 16) * 4 + (y[2] as int) / 64);
            lemma_symbol_injective((x[2] as int) % 64, (y[2] as int) % 64);
            lemma_group_determined(x[0], x[1], x[2], y[0], y[1], y[2]);
            let xr = x.subrange(3, x.len() as int);
            let yr = y.subrange(3, y.len() as int);
            assert(url_safe_b64(xr) =~= ex.subrange(4, ex.len() as int));
            assert(url_safe_b64(yr) =~= ey.subrange(4, ey.len() as int));
            lemma_url_safe_b64_injective(xr, yr);
            assert(x.len() == y.len());
            assert forall|i: int| 3 <= i < x.len() implies x[i] == y[i] by {
                assert(x[i] == xr[i - 3] && y[i] == yr[i - 3]);
            }
            assert(x =~= y);
        }
    }
}

/// Decoding the text of `x` gives back `x`.
pub proof fn lemma_url_safe_b64_decoded(x: Seq<u8>)
    ensures
        url_safe_b64_decoded(url_safe_b64(x)) == Some(x),
{
    let s = url_safe_b64(x);
    assert(exists|y: Seq<u8>| url_safe_b64(y) == s);
    let y = choose|y: Seq<u8>| url_safe_b64(y) == s;
    lemma_url_safe_b64_injective(x, y);
}

/// Every character of the text is a symbol of the URL-safe alphabet or `=`.
pub proof fn lemma_url_safe_b64_alphabet(x: Seq<u8>)
    ensures
        forall|i: int|
            0 <= i < url_safe_b64(x).len() ==> is_url_safe_symbol(#[trigger] url_safe_b64(x)[i])
                || url_safe_b64(x)[i] == '=',
    decreases x.len(),
{
    let e = url_safe_b64(x);
    if x.len() == 0 {
    } else if x.len() == 1 {
        lemma_symbol_in_alphabet((x[0] as int) / 4);
        lemma_symbol_in_alphabet(((x[0] as int) % 4) * 16);
    } else if x.len() == 2 {
        lemma_symbol_in_alphabet((x[0] as int) / 4);
        lemma_symbol_in_alphabet(((x[0] as int) % 4) * 16 + (x[1] as int) / 16);
        lemma_symbol_in_alphabet(((x[1] as int) % 16) * 4);
    } else {
        lemma_symbol_in_alphabet((x[0] as int) / 4);
        lemma_symbol_in_alphabet(((x[0] as int) % 4) * 16 + (x[1] as int) / 16);
        lemma_symbol_in_alphabet(((x[1] as int) % 16) * 4 + (x[2] as int) / 64);
        lemma_symbol_in_alphabet((x[2] as int) % 64);
        let xr = x.subrange(3, x.len() as int);
        lemma_url_safe_b64_alphabet(xr);
        assert forall|i: int| 4 <= i < e.len() implies e[i] == url_safe_b64(xr)[i - 4] by {}
    }
}

#[verifier::external_type_specification]
#[verifier::external_body]
pub struct ExDecodeError(base64::DecodeError);

/// Relies on `base64::engine::general_purpose::URL_SAFE.encode`: the padded
/// URL-safe base64 text of the bytes.
#[verifier::external_body]
pub(crate) fn url_safe_encode(data: &[u8]) -> (r: String)
    ensures
        r@ == url_safe_b64(data@),
{
    general_purpose::URL_SAFE.encode(data)
}

/// Relies on `base64::engine::general_purpose::URL_SAFE.decode`, whose
/// configuration requires canonical padding and zero trailing bits: it accepts
/// exactly the texts that its `encode` produces, and gives back their bytes.
#[verifier::external_body]
pub(crate) fn url_safe_decode(text: &str) -> (r: Result<Vec<u8>, base64::DecodeError>)
    ensures
        r matches Ok(v) ==> url_safe_b64(v@) == text@,
        r is Err ==> forall|x: Seq<u8>| url_safe_b64(x) != text@,
{
    general_purpose::URL_SAFE.decode(text)
}

} // verus!
