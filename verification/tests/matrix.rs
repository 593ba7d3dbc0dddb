use paseo_downsizer::matrix::{alias_url, matrix_config, needs_alias_resolution, send_url};

fn s(x: &str) -> Option<String> {
    Some(x.to_string())
}

#[test]
fn notifier_needs_all_three_settings() {
    let c = matrix_config(s("https://matrix.org//"), s("tok"), s("#room:matrix.org")).unwrap();
    assert_eq!((c.homeserver.as_str(), c.token.as_str(), c.room.as_str()), ("https://matrix.org", "tok", "#room:matrix.org"));
    assert!(matrix_config(None, s("tok"), s("!r")).is_none());
    assert!(matrix_config(s("https://m"), s(""), s("!r")).is_none());
    assert!(matrix_config(s("https://m"), s("tok"), None).is_none());
    let bare = matrix_config(s("https://m"), s("t"), s("!r")).unwrap();
    assert_eq!(bare.homeserver, "https://m");
}

#[test]
fn aliases_are_resolved_ids_are_not() {
    assert!(needs_alias_resolution("#paseo:matrix.org"));
    assert!(!needs_alias_resolution("!abc:matrix.org"));
    assert!(needs_alias_resolution(""));
}

#[test]
fn client_server_urls() {
    assert_eq!(
        alias_url("https://matrix.org", "#paseo:matrix.org"),
        "https://matrix.org/_matrix/client/v3/directory/room/%23paseo%3Amatrix.org"
    );
    assert_eq!(
        send_url("https://matrix.org", "!abc:matrix.org", 7),
        "https://matrix.org/_matrix/client/v3/rooms/%21abc%3Amatrix.org/send/m.room.message/paseo-7"
    );
}
