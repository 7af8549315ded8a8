use redirector::redirector::{Redirect, RedirectParseError};
use url::ParseError;

#[test]
fn redirector_it_handles_missing_version() {
    assert_eq!(Err(RedirectParseError::MissingVersion), Redirect::parse(""));
}

#[test]
fn redirector_it_handles_invalid_version() {
    assert_eq!(Err(RedirectParseError::InvalidVersion), Redirect::parse("v=junk;"));
}

#[test]
fn redirector_it_handles_unsupported_versions() {
    assert_eq!(Err(RedirectParseError::UnsupportedVersion(0)), Redirect::parse("v=0"));
    assert_eq!(Err(RedirectParseError::UnsupportedVersion(2)), Redirect::parse("v=2"));
}

#[test]
fn redirector_it_handles_missing_target() {
    assert_eq!(Err(RedirectParseError::MissingTarget), Redirect::parse("v=1;"));
}

#[test]
fn redirector_it_handles_invalid_target() {
    assert_eq!(
        Err(RedirectParseError::InvalidTarget(ParseError::RelativeUrlWithoutBase)),
        Redirect::parse("v=1; target=junk")
    );
}

#[test]
fn redirector_it_parses_configuration() {
    let configuration = Redirect::parse("v=1; target=https://google.com").unwrap();
    assert_eq!(
        url::Url::parse("https://google.com").unwrap().as_str(),
        configuration.target.as_string()
    );
    assert_eq!(false, configuration.replace_path);

    let configuration = Redirect::parse("v=1; target=https://google.com; replace_path=true").unwrap();
    assert_eq!(true, configuration.replace_path);
}

#[test]
fn mod_it_handles_missing_version() {
    assert_eq!(Err(RedirectParseError::MissingVersion), Redirect::parse(""));
}

#[test]
fn mod_it_handles_invalid_version() {
    assert_eq!(Err(RedirectParseError::InvalidVersion), Redirect::parse("v=junk;"));
}

#[test]
fn mod_it_handles_unsupported_versions() {
    assert_eq!(Err(RedirectParseError::UnsupportedVersion(0)), Redirect::parse("v=0"));
    assert_eq!(Err(RedirectParseError::UnsupportedVersion(2)), Redirect::parse("v=2"));
}

#[test]
fn mod_it_handles_missing_target() {
    assert_eq!(Err(RedirectParseError::MissingTarget), Redirect::parse("v=1;"));
}

#[test]
fn mod_it_handles_invalid_target() {
    assert_eq!(
        Err(RedirectParseError::InvalidTarget(ParseError::RelativeUrlWithoutBase)),
        Redirect::parse("v=1; target=junk")
    );
}

#[test]
fn mod_it_parses_configuration() {
    let configuration = Redirect::parse("v=1; target=https://google.com").unwrap();
    assert_eq!(
        url::Url::parse("https://google.com").unwrap().as_str(),
        configuration.target.as_string()
    );
    assert_eq!(false, configuration.replace_path);

    let configuration = Redirect::parse("v=1; target=https://google.com; replace_path=true").unwrap();
    assert_eq!(true, configuration.replace_path);
}

#[test]
fn it_splits_fields_at_the_first_equals_sign() {
    let configuration = Redirect::parse("v=1; target=https://example.com/search?q=a=b").unwrap();
    assert_eq!("https://example.com/search?q=a=b", configuration.target.as_string());
}

#[test]
fn it_lets_the_last_duplicate_key_win() {
    let configuration = Redirect::parse("v=2; v=1; target=https://example.com").unwrap();
    assert_eq!("https://example.com/", configuration.target.as_string());
}

#[test]
fn it_ignores_unknown_keys() {
    let configuration = Redirect::parse("v=1; target=https://example.com; ttl=60").unwrap();
    assert_eq!("https://example.com/", configuration.target.as_string());
}

#[test]
fn it_treats_other_replace_path_values_as_false() {
    let configuration =
        Redirect::parse("v=1; target=https://example.com; replace_path=yes").unwrap();
    assert_eq!(false, configuration.replace_path);
}

#[test]
fn it_rejects_an_empty_version_numeral() {
    assert_eq!(Err(RedirectParseError::InvalidVersion), Redirect::parse("v=; target=https://example.com"));
}

#[test]
fn it_rejects_a_version_that_overflows_eight_bits() {
    assert_eq!(Err(RedirectParseError::InvalidVersion), Redirect::parse("v=256"));
}

#[test]
fn it_accepts_a_version_with_leading_zeros() {
    let configuration = Redirect::parse("v=01; target=https://example.com").unwrap();
    assert_eq!("https://example.com/", configuration.target.as_string());
}
