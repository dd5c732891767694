use kvstore::accept::accept_header_matches;

#[test]
fn test_accept_header_matches() {
    assert!(accept_header_matches("text/plain", "text/plain"));
    assert!(accept_header_matches("text/*", "text/plain"));
    assert!(accept_header_matches("*/*", "text/plain"));
    assert!(accept_header_matches("application/json", "application/*"));
    assert!(!accept_header_matches("application/json", "text/plain"));
    assert!(!accept_header_matches("text/html", "application/json"));
    assert!(!accept_header_matches("text/*", "application/json"));
    assert!(!accept_header_matches("text/html", "application/html"));
    assert!(!accept_header_matches("text/html", "application/*"));
}

#[test]
fn wildcard_mime_requires_matching_base() {
    assert!(accept_header_matches("text/html", "text/*"));
    assert!(!accept_header_matches("application/json", "text/*"));
}
