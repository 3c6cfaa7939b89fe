//! Where an endpoint is dialled.

use mint::transport::{endpoint_url, parse_target, Target};

#[test]
fn parse_target_splits_on_unix_prefix() {
    assert_eq!(
        parse_target("unix:/tmp/x.sock"),
        Target::Uds("/tmp/x.sock".into())
    );
    assert_eq!(
        parse_target("unix:rel/x.sock"),
        Target::Uds("rel/x.sock".into())
    );
    assert_eq!(
        parse_target("http://127.0.0.1:8085"),
        Target::Tcp("http://127.0.0.1:8085".into())
    );
}

#[test]
fn endpoints_are_appended_to_the_base() {
    assert_eq!(
        endpoint_url("http://h:1", "/v1/enroll"),
        "http://h:1/v1/enroll"
    );
}
