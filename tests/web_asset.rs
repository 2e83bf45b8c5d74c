use map_bridge::web_asset::is_http;

#[test]
fn http_and_https_locators_are_remote() {
    assert!(is_http("http://example.com/map.png"));
    assert!(is_http("https://example.com/map.png"));
    assert!(is_http("https://"));
}

#[test]
fn scheme_as_first_component_is_remote() {
    assert!(is_http("http:/example.com"));
    assert!(is_http("http:"));
    assert!(is_http("https:"));
    assert!(is_http("http:/"));
}

#[test]
fn other_locators_are_local() {
    assert!(!is_http("maps/dungeon.png"));
    assert!(!is_http("ftp://example.com/map.png"));
    assert!(!is_http("http:example.com"));
    assert!(!is_http("httpx://example.com"));
    assert!(!is_http("HTTP://example.com"));
    assert!(!is_http("/http://example.com"));
    assert!(!is_http(""));
    assert!(!is_http("http"));
}
