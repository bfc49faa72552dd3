//! The Vigenère transform over bytes, and `encode` / `decode` of text under a key.
use crate::envelope::{
    is_url_safe_symbol, lemma_url_safe_b64_alphabet, lemma_url_safe_b64_decoded,
    lemma_url_safe_b64_injective, url_safe_b64, url_safe_b64_decoded, url_safe_decode,
    url_safe_encode,
};
use vstd::prelude::*;
use vstd::utf8::{decode_utf8, encode_utf8, valid_utf8};

verus! {

/// Why `encode` or `decode` failed.
#[derive(Debug, Clone, Copy, PartialEq, Eq, Structural)]
pub enum CipherError {
    /// The key is empty.
    InvalidKey,
    /// The encoded text is not padded URL-safe base64.
    MalformedInput,
    /// The deciphered bytes are not UTF-8.
    InvalidEncoding,
}

/// The key byte applied at position `i` of the data: the key is used cyclically.
pub open spec fn key_byte(key: Seq<u8>, i: int) -> int
    recommends
        key.len() > 0,
{
    key[i % (key.len() as int)] as int
}

/// Each byte of `data` plus its key byte, modulo 256.
pub open spec fn shifted(key: Seq<u8>, data: Seq<u8>) -> Seq<u8> {
    Seq::new(data.len(), |i: int| ((data[i] + key_byte(key, i)) % 256) as u8)
}

/// Each byte of `data` minus its key byte, modulo 256.
pub open spec fn unshifted(key: Seq<u8>, data: Seq<u8>) -> Seq<u8> {
    Seq::new(data.len(), |i: int| ((256 + data[i] - key_byte(key, i)) % 256) as u8)
}

/// What `encode(key, clear)` returns, over the characters of both.
pub open spec fn encoded(key: Seq<char>, clear: Seq<char>) -> Result<Seq<char>, CipherError> {
    if key.len() == 0 {
        Err(CipherError::InvalidKey)
    } else {
        Ok(url_safe_b64(shifted(encode_utf8(key), encode_utf8(clear))))
    }
}

/// What `decode(key, enc)` returns, over the characters of both.
pub open spec fn decoded(key: Seq<char>, enc: Seq<char>) -> Result<Seq<char>, CipherError> {
    if key.len() == 0 {
        Err(CipherError::InvalidKey)
    } else {
        match url_safe_b64_decoded(enc) {
            None => Err(CipherError::MalformedInput),
            Some(raw) => {
                let clear = unshifted(encode_utf8(key), raw);
                if valid_utf8(clear) {
                    Ok(decode_utf8(clear))
                } else {
                    Err(CipherError::InvalidEncoding)
                }
            },
        }
    }
}

/// A `String` result seen through the characters of the string.
pub open spec fn text_result(r: Result<String, CipherError>) -> Result<Seq<char>, CipherError> {
    match r {
        Ok(s) => Ok(s@),
        Err(e) => Err(e),
    }
}

proof fn lemma_utf8_nonempty(s: Seq<char>)
    requires
        s.len() > 0,
    ensures
        encode_utf8(s).len() > 0,
{
    assert(encode_utf8(s) == vstd::utf8::encode_scalar(s[0] as u32) + encode_utf8(s.drop_first()));
}

/// Adds the key cyclically to the data, byte by byte, modulo 256.
pub fn shift_bytes(key: &[u8], data: &[u8]) -> (r: Vec<u8>)
    requires
        key@.len() > 0,
    ensures
        r@ == shifted(key@, data@),
{
    let mut out: Vec<u8> = Vec::with_capacity(data.len());
    let mut i: usize = 0;
    while i < data.len()
        invariant
            key@.len() > 0,
            i <= data@.len(),
            out@ == shifted(key@, data@.take(i as int)),
        decreases data@.len() - i,
    {
        let k = key[i % key.len()];
        out.push(((data[i] as u16 + k as u16) % 256) as u8);
        i += 1;
        assert(out@ =~= shifted(key@, data@.take(i as int)));
    }
    assert(data@.take(i as int) =~= data@);
    out
}

/// Subtracts the key cyclically from the data, byte by byte, modulo 256.
pub fn unshift_bytes(key: &[u8], data: &[u8]) -> (r: Vec<u8>)
    requires
        key@.len() > 0,
    ensures
        r@ == unshifted(key@, data@),
{
    let mut out: Vec<u8> = Vec::with_capacity(data.len());
    let mut i: usize = 0;
    while i < data.len()
        invariant
            key@.len() > 0,
            i <= data@.len(),
            out@ == unshifted(key@, data@.take(i as int)),
        decreases data@.len() - i,
    {
        let k = key[i % key.len()];
        out.push(((256 + data[i] as u16 - k as u16) % 256) as u8);
        i += 1;
        assert(out@ =~= unshifted(key@, data@.take(i as int)));
    }
    assert(data@.take(i as int) =~= data@);
    out
}

/// Relies on `String::from_utf8`: it succeeds exactly on valid UTF-8, and the
/// string then holds the characters that the bytes encode.
#[verifier::external_body]
fn string_from_utf8(bytes: Vec<u8>) -> (r: Option<String>)
    ensures
        r is Some <==> valid_utf8(bytes@),
        r matches Some(s) ==> s@ == decode_utf8(bytes@),
{
    String::from_utf8(bytes).ok()
}

/// Enciphers `clear` under `key` and renders the bytes as padded URL-safe base64.
/// Fails with `InvalidKey` exactly when the key is empty.
pub fn encode(key: &str, clear: &str) -> (r: Result<String, CipherError>)
    ensures
        text_result(r) == encoded(key@, clear@),
        r matches Ok(e) ==> forall|i: int|
            0 <= i < e@.len() ==> is_url_safe_symbol(#[trigger] e@[i]) || e@[i] == '=',
{
    if key.is_empty() {
        return Err(CipherError::InvalidKey);
    }
    proof {
        lemma_utf8_nonempty(key@);
    }
    let enc = shift_bytes(key.as_bytes(), clear.as_bytes());
    let text = url_safe_encode(enc.as_slice());
    proof {
        lemma_url_safe_b64_alphabet(enc@);
    }
    Ok(text)
}

/// Reads `enc` as padded URL-safe base64 and deciphers the bytes under `key`.
/// Fails with `InvalidKey` when the key is empty, else with `MalformedInput`
/// when `enc` is not such base64, else with `InvalidEncoding` when the
/// deciphered bytes are not UTF-8.
pub fn decode(key: &str, enc: &str) -> (r: Result<String, CipherError>)
    ensures
        text_result(r) == decoded(key@, enc@),
{
    if key.is_empty() {
        return Err(CipherError::InvalidKey);
    }
    proof {
        lemma_utf8_nonempty(key@);
    }
    let raw = match url_safe_decode(enc) {
        Ok(raw) => raw,
        Err(_) => {
            return Err(CipherError::MalformedInput);
        },
    };
    proof {
        let x = choose|x: Seq<u8>| url_safe_b64(x) == enc@;
        lemma_url_safe_b64_injective(x, raw@);
    }
    let clear = unshift_bytes(key.as_bytes(), raw.as_slice());
    match string_from_utf8(clear) {
        Some(s) => Ok(s),
        None => Err(CipherError::InvalidEncoding),
    }
}

/// Deciphering what was enciphered under the same non-empty key gives back the text.
pub proof fn lemma_round_trip(key: Seq<char>, clear: Seq<char>)
    requires
        key.len() > 0,
    ensures
        encoded(key, clear) matches Ok(e) && decoded(key, e) == Ok::<Seq<char>, CipherError>(clear),
{
    let kb = encode_utf8(key);
    let cb = encode_utf8(clear);
    lemma_utf8_nonempty(key);
    let sh = shifted(kb, cb);
    lemma_url_safe_b64_decoded(sh);
    lemma_unshift_shift(kb, cb);
    vstd::utf8::encode_utf8_valid_utf8(clear);
    vstd::utf8::encode_utf8_decode_utf8(clear);
}

proof fn lemma_unshift_shift(key: Seq<u8>, data: Seq<u8>)
    requires
        key.len() > 0,
    ensures
        unshifted(key, shifted(key, data)) == data,
{
    assert(unshifted(key, shifted(key, data)) =~= data);
}

/// Enciphering is a pure function: equal keys and equal texts give equal results.
pub proof fn lemma_encode_deterministic(
    key1: Seq<char>,
    clear1: Seq<char>,
    key2: Seq<char>,
    clear2: Seq<char>,
)
    requires
        key1 == key2,
        clear1 == clear2,
    ensures
        encoded(key1, clear1) == encoded(key2, clear2),
{
}

/// The enciphered text holds only symbols of the URL-safe base64 alphabet and `=`.
pub proof fn lemma_encoded_alphabet(key: Seq<char>, clear: Seq<char>)
    ensures
        encoded(key, clear) matches Ok(e) ==> forall|i: int|
            0 <= i < e.len() ==> is_url_safe_symbol(#[trigger] e[i]) || e[i] == '=',
{
    if key.len() > 0 {
        lemma_url_safe_b64_alphabet(shifted(encode_utf8(key), encode_utf8(clear)));
    }
}

/// Deciphering under a key whose bytes differ, at some position of the text,
/// from those of the key it was enciphered under does not give back the text:
/// it fails with `InvalidEncoding` or gives another text.
pub proof fn lemma_key_mismatch(key1: Seq<char>, key2: Seq<char>, clear: Seq<char>)
    requires
        key1.len() > 0,
        key2.len() > 0,
        exists|i: int|
            0 <= i < encode_utf8(clear).len() && key_byte(encode_utf8(key1), i) != key_byte(
                encode_utf8(key2),
                i,
            ),
    ensures
        encoded(key1, clear) matches Ok(e) && (decoded(key2, e) == Err::<Seq<char>, CipherError>(
            CipherError::InvalidEncoding,
        ) || (decoded(key2, e) matches Ok(t) && t != clear)),
{
    let kb1 = encode_utf8(key1);
    let kb2 = encode_utf8(key2);
    let cb = encode_utf8(clear);
    lemma_utf8_nonempty(key1);
    lemma_utf8_nonempty(key2);
    let sh = shifted(kb1, cb);
    lemma_url_safe_b64_decoded(sh);
    let back = unshifted(kb2, sh);
    let i = choose|i: int| 0 <= i < cb.len() && key_byte(kb1, i) != key_byte(kb2, i);
    lemma_unshift_other_key(kb1, kb2, cb, i);
    if valid_utf8(back) && decode_utf8(back) == clear {
        vstd::utf8::decode_utf8_encode_utf8(back);
    }
}

proof fn lemma_unshift_other_key(key1: Seq<u8>, key2: Seq<u8>, data: Seq<u8>, i: int)
    requires
        key1.len() > 0,
        key2.len() > 0,
        0 <= i < data.len(),
        key_byte(key1, i) != key_byte(key2, i),
    ensures
        unshifted(key2, shifted(key1, data)) != data,
{
    let c = data[i] as int;
    let a = key_byte(key1, i);
    let b = key_byte(key2, i);
    assert(0 <= a < 256 && 0 <= b < 256);
    assert((256 + (c + a) % 256 - b) % 256 != c);
    assert(unshifted(key2, shifted(key1, data))[i] != data[i]);
}

} // verus!
