use vstutils_utils::file_value::get_file_value;

#[test]
fn read_text_is_trimmed_by_default() {
    let r = get_file_value(Ok("  value \n".to_string()), None, None, None);
    assert_eq!(r, Ok("value".to_string()));
}

#[test]
fn read_text_kept_when_strip_is_false() {
    let r = get_file_value(Ok("  value \n".to_string()), Some("d"), None, Some(false));
    assert_eq!(r, Ok("  value \n".to_string()));
}

#[test]
fn unicode_white_space_is_trimmed() {
    let r = get_file_value(Ok("\u{3000}\u{a0} a b\u{2028}\t".to_string()), None, None, Some(true));
    assert_eq!(r, Ok("a b".to_string()));
    let r = get_file_value(Ok(" \n\t ".to_string()), None, None, None);
    assert_eq!(r, Ok(String::new()));
}

#[test]
fn read_error_gives_default() {
    let r = get_file_value(Err("no such file".to_string()), Some("fallback"), None, None);
    assert_eq!(r, Ok("fallback".to_string()));
    let r = get_file_value(Err("no such file".to_string()), None, Some(false), None);
    assert_eq!(r, Ok(String::new()));
}

#[test]
fn read_error_raised_on_request() {
    let r = get_file_value(Err("no such file".to_string()), Some("fallback"), Some(true), None);
    assert_eq!(r, Err("no such file".to_string()));
}
