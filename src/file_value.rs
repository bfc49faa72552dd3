//! What a configuration value read from a file comes to: the file's text,
//! trimmed or not, a default when the file could not be read, or the read
//! error when the caller asks for it.
use vstd::prelude::*;

verus! {

/// The characters with the Unicode `White_Space` property.
pub open spec fn is_white_space(c: char) -> bool {
    let u = c as u32;
    ||| 0x09 <= u <= 0x0D
    ||| u == 0x20
    ||| u == 0x85
    ||| u == 0xA0
    ||| u == 0x1680
    ||| 0x2000 <= u <= 0x200A
    ||| u == 0x2028
    ||| u == 0x2029
    ||| u == 0x202F
    ||| u == 0x205F
    ||| u == 0x3000
}

/// `s` without its leading white space.
pub open spec fn trim_start(s: Seq<char>) -> Seq<char>
    decreases s.len(),
{
    if s.len() > 0 && is_white_space(s[0]) {
        trim_start(s.drop_first())
    } else {
        s
    }
}

/// `s` without its trailing white space.
pub open spec fn trim_end(s: Seq<char>) -> Seq<char>
    decreases s.len(),
{
    if s.len() > 0 && is_white_space(s.last()) {
        trim_end(s.drop_last())
    } else {
        s
    }
}

/// `s` without its leading and trailing white space.
pub open spec fn trimmed(s: Seq<char>) -> Seq<char> {
    trim_end(trim_start(s))
}

/// What `get_file_value` returns, over the characters of the strings: the
/// text (trimmed unless `strip` is `Some(false)`) when the file was read;
/// otherwise the read error when `raise_error` is `Some(true)`, else the
/// default (empty when none is given).
pub open spec fn file_value(
    read: Result<Seq<char>, Seq<char>>,
    default: Option<Seq<char>>,
    raise_error: Option<bool>,
    strip: Option<bool>,
) -> Result<Seq<char>, Seq<char>> {
    match read {
        Ok(text) => if strip != Some(false) {
            Ok(trimmed(text))
        } else {
            Ok(text)
        },
        Err(message) => if raise_error == Some(true) {
            Err(message)
        } else {
            match default {
                Some(d) => Ok(d),
                None => Ok(Seq::empty()),
            }
        },
    }
}

/// A result of strings seen through the characters of the strings.
pub open spec fn chars_result(r: Result<String, String>) -> Result<Seq<char>, Seq<char>> {
    match r {
        Ok(s) => Ok(s@),
        Err(e) => Err(e@),
    }
}

/// An optional string slice seen through its characters.
pub open spec fn chars_option(o: Option<&str>) -> Option<Seq<char>> {
    match o {
        Some(s) => Some(s@),
        None => None,
    }
}

/// Relies on `str::trim`: the slice without the leading and trailing
/// characters that have the Unicode `White_Space` property.
#[verifier::external_body]
fn trim(s: &str) -> (r: &str)
    ensures
        r@ == trimmed(s@),
{
    s.trim()
}

/// Turns the outcome of reading a file (its text, or the message of the read
/// error) into the configuration value: `default` defaults to empty,
/// `raise_error` to `false` and `strip` to `true`.
pub fn get_file_value(
    read: Result<String, String>,
    default: Option<&str>,
    raise_error: Option<bool>,
    strip: Option<bool>,
) -> (r: Result<String, String>)
    ensures
        chars_result(r) == file_value(
            chars_result(read),
            chars_option(default),
            raise_error,
            strip,
        ),
{
    let raise_error = match raise_error {
        Some(b) => b,
        None => false,
    };
    let strip = match strip {
        Some(b) => b,
        None => true,
    };
    match read {
        Ok(text) => {
            if strip {
                Ok(trim(text.as_str()).to_owned())
            } else {
                Ok(text)
            }
        },
        Err(message) => {
            if raise_error {
                Err(message)
            } else {
                match default {
                    Some(d) => Ok(d.to_owned()),
                    None => Ok(String::new()),
                }
            }
        },
    }
}

} // verus!
