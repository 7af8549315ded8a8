use redirector::redirector::Redirect;
use redirector::target::TargetUrl;
use url::Url;

#[test]
fn it_returns_target_if_replace_path_is_false() {
    let source = "/";
    let redirect = Redirect {
        target: TargetUrl::parse("https://example.com/test/").unwrap(),
        replace_path: false,
    };

    let expected = Url::parse("https://example.com/test/").unwrap();
    assert_eq!(expected.as_str(), redirect.target_from(source))
}

#[test]
fn it_returns_target_with_replaced_path_if_replace_path_is_true() {
    let source = "/source-path";
    let redirect = Redirect {
        target: TargetUrl::parse("https://example.com/test/").unwrap(),
        replace_path: true,
    };

    let expected = Url::parse("https://example.com/source-path").unwrap();
    assert_eq!(expected.as_str(), redirect.target_from(source))
}

#[test]
fn it_keeps_the_query_string_when_replacing_the_path() {
    let redirect = Redirect {
        target: TargetUrl::parse("https://example.com/old?tag=1").unwrap(),
        replace_path: true,
    };

    assert_eq!("https://example.com/new?tag=1", redirect.target_from("/new"));
}

#[test]
fn it_rejects_text_that_is_not_an_absolute_url() {
    assert!(TargetUrl::parse("not-a-url").is_err());
}

#[test]
fn it_keeps_the_whole_target_for_an_empty_source_path() {
    let redirect = Redirect {
        target: TargetUrl::parse("https://example.com/test/").unwrap(),
        replace_path: false,
    };

    assert_eq!("https://example.com/test/", redirect.target_from(""));
}
