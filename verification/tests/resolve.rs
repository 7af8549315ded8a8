use redirector::redirector::{
    lookup_name, resolve_records, RedirectorError, ResolverFailure,
};

#[test]
fn it_builds_the_lookup_name_from_the_hostname() {
    assert_eq!("_redirect.example.com", lookup_name("example.com"));
}

#[test]
fn it_returns_resolver_error_when_the_lookup_fails() {
    assert_eq!(
        Err(RedirectorError::ResolverError),
        resolve_records(Err(ResolverFailure))
    );
}

#[test]
fn it_returns_no_valid_redirect_for_an_empty_answer() {
    assert_eq!(
        Err(RedirectorError::NoValidRedirect),
        resolve_records(Ok(Vec::new()))
    );
}

#[test]
fn it_returns_no_valid_redirect_when_every_payload_is_malformed() {
    let records = vec![
        String::from(""),
        String::from("v=junk;"),
        String::from("v=1; target=junk"),
        String::from("v=2; target=https://example.com"),
    ];
    assert_eq!(
        Err(RedirectorError::NoValidRedirect),
        resolve_records(Ok(records))
    );
}

#[test]
fn it_returns_the_single_well_formed_payload() {
    let records = vec![
        String::from("v=junk;"),
        String::from("v=1; target=https://example.com"),
        String::from("not a record"),
    ];
    let redirect = resolve_records(Ok(records)).unwrap();
    assert_eq!("https://example.com/", redirect.target.as_string());
    assert_eq!(false, redirect.replace_path);
}

#[test]
fn it_picks_the_first_well_formed_payload_deterministically() {
    let records = vec![
        String::from("v=1; target=https://first.example.com"),
        String::from("v=1; target=https://second.example.com"),
    ];
    let once = resolve_records(Ok(records.clone())).unwrap();
    let again = resolve_records(Ok(records)).unwrap();
    assert_eq!(once, again);
    assert_eq!("https://first.example.com/", once.target.as_string());
}
