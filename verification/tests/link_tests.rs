use friends_connect::link::{build_shareable_url, extract_link_id_from_search};

#[test]
fn extracts_the_link_parameter() {
    assert_eq!(
        extract_link_id_from_search("?link=abc123").as_deref(),
        Some("abc123")
    );
}

#[test]
fn empty_input_yields_nothing() {
    assert_eq!(extract_link_id_from_search(""), None);
}

#[test]
fn other_parameters_yield_nothing() {
    assert_eq!(extract_link_id_from_search("?other=x"), None);
}

#[test]
fn finds_the_link_among_other_parameters() {
    assert_eq!(
        extract_link_id_from_search("?a=1&link=xyz&b=2").as_deref(),
        Some("xyz")
    );
}

#[test]
fn works_without_a_question_mark() {
    assert_eq!(
        extract_link_id_from_search("link=test-link-123").as_deref(),
        Some("test-link-123")
    );
}

#[test]
fn the_key_must_match_exactly() {
    assert_eq!(extract_link_id_from_search("?slink=x"), None);
    assert_eq!(extract_link_id_from_search("?link2=x"), None);
    assert_eq!(extract_link_id_from_search("?lin=x"), None);
}

#[test]
fn a_link_pair_without_a_value_is_empty() {
    assert_eq!(extract_link_id_from_search("?link").as_deref(), Some(""));
    assert_eq!(extract_link_id_from_search("?link=").as_deref(), Some(""));
}

#[test]
fn the_first_link_pair_wins() {
    assert_eq!(
        extract_link_id_from_search("?link=first&link=second").as_deref(),
        Some("first")
    );
}

#[test]
fn malformed_input_never_errors() {
    assert_eq!(extract_link_id_from_search("?&&==&"), None);
    assert_eq!(extract_link_id_from_search("???"), None);
    assert_eq!(extract_link_id_from_search("&"), None);
}

#[test]
fn builds_the_shareable_url() {
    assert_eq!(
        build_shareable_url("https://example.test", "/play", "L1"),
        "https://example.test/play?link=L1"
    );
}
