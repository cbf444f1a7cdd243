//! The JSON decoder and encoder on concrete payloads.

use github_status::codec::int_to_string;
use github_status::pulls::decode_pulls;
use github_status::pulls::encode_pulls;
use github_status::pulls::PullRequest;
use github_status::pulls::User;

fn pr(
    id: i64,
    number: i32,
    title: Option<&str>,
    login: Option<&str>,
    html_url: Option<&str>,
    updated_at: Option<&str>,
    state: Option<&str>,
) -> PullRequest {
    PullRequest {
        id,
        number,
        title: title.map(|s| s.to_string()),
        user: login.map(|s| User { login: s.to_string() }),
        html_url: html_url.map(|s| s.to_string()),
        updated_at: updated_at.map(|s| s.to_string()),
        state: state.map(|s| s.to_string()),
    }
}

#[test]
fn empty_object_and_empty_list_agree() {
    let a = decode_pulls("{}").unwrap();
    let b = decode_pulls("[]").unwrap();
    assert_eq!(a.len(), 0);
    assert_eq!(b.len(), 0);
}

#[test]
fn whitespace_around_payload_is_accepted() {
    let a = decode_pulls("  \n\t{ }  ").unwrap();
    assert_eq!(a.len(), 0);
    let b = decode_pulls(" [ ] ").unwrap();
    assert_eq!(b.len(), 0);
}

#[test]
fn one_pull_request_with_every_field() {
    let body = r#"[{"id": 17, "number": 4, "title": "Fix build",
        "user": {"login": "octocat"}, "html_url": "https://example.test/pr/4",
        "updated_at": "2022-11-02T08:00:00Z", "state": "open"}]"#;
    let prs = decode_pulls(body).unwrap();
    assert_eq!(prs.len(), 1);
    assert_eq!(prs[0].id, 17);
    assert_eq!(prs[0].number, 4);
    assert_eq!(prs[0].title.as_deref(), Some("Fix build"));
    assert_eq!(prs[0].user.as_ref().map(|u| u.login.as_str()), Some("octocat"));
    assert_eq!(prs[0].html_url.as_deref(), Some("https://example.test/pr/4"));
    assert_eq!(prs[0].updated_at.as_deref(), Some("2022-11-02T08:00:00Z"));
    assert_eq!(prs[0].state.as_deref(), Some("open"));
}

#[test]
fn optional_fields_may_be_absent_or_null() {
    let body = r#"[{"id": 1, "number": 2, "title": null, "user": null}]"#;
    let prs = decode_pulls(body).unwrap();
    assert_eq!(prs.len(), 1);
    assert!(prs[0].title.is_none());
    assert!(prs[0].user.is_none());
    assert!(prs[0].html_url.is_none());
}

#[test]
fn unknown_fields_are_skipped() {
    let body = r#"[{"id": 1, "number": 2,
        "head": {"ref": "main", "sha": "abc", "repo": {"id": 9, "url": "u", "name": "n"}},
        "draft": false, "labels": [1, 2, 3], "score": null}]"#;
    let prs = decode_pulls(body).unwrap();
    assert_eq!(prs.len(), 1);
    assert_eq!(prs[0].id, 1);
}

#[test]
fn missing_required_field_is_a_decode_error() {
    assert!(decode_pulls(r#"[{"number": 2}]"#).is_none());
    assert!(decode_pulls(r#"[{"id": 1}]"#).is_none());
}

#[test]
fn wrong_types_are_decode_errors() {
    assert!(decode_pulls(r#"[{"id": "1", "number": 2}]"#).is_none());
    assert!(decode_pulls(r#"[{"id": 1, "number": 2, "title": 3}]"#).is_none());
    assert!(decode_pulls(r#"[{"id": 1, "number": 2, "user": "octocat"}]"#).is_none());
    assert!(decode_pulls("17").is_none());
    assert!(decode_pulls("true").is_none());
}

#[test]
fn malformed_json_is_a_decode_error() {
    assert!(decode_pulls("").is_none());
    assert!(decode_pulls("[").is_none());
    assert!(decode_pulls(r#"[{"id": 1,}]"#).is_none());
    assert!(decode_pulls(r#"[{"id" 1}]"#).is_none());
    assert!(decode_pulls("[] []").is_none());
}

#[test]
fn numbers_at_the_edges() {
    let prs = decode_pulls(r#"[{"id": 9223372036854775807, "number": 2147483647}]"#).unwrap();
    assert_eq!(prs[0].id, i64::MAX);
    assert_eq!(prs[0].number, i32::MAX);
    let prs = decode_pulls(r#"[{"id": -9223372036854775808, "number": -2147483648}]"#).unwrap();
    assert_eq!(prs[0].id, i64::MIN);
    assert_eq!(prs[0].number, i32::MIN);
    // one past either end no longer decodes
    assert!(decode_pulls(r#"[{"id": 9223372036854775808, "number": 1}]"#).is_none());
    assert!(decode_pulls(r#"[{"id": 1, "number": 2147483648}]"#).is_none());
    // fractions and exponents are outside the grammar the dashboard reads
    assert!(decode_pulls(r#"[{"id": 1.5, "number": 1}]"#).is_none());
    assert!(decode_pulls(r#"[{"id": 1e3, "number": 1}]"#).is_none());
}

#[test]
fn string_escapes_decode() {
    let body = "[{\"id\": 1, \"number\": 2, \"title\": \"a\\n\\t\\\"b\\\\c\\u0041\\u00e9\"}]";
    let prs = decode_pulls(body).unwrap();
    assert_eq!(prs[0].title.as_deref(), Some("a\n\t\"b\\cA\u{e9}"));
}

#[test]
fn raw_unicode_text_decodes() {
    let body = "[{\"id\": 1, \"number\": 2, \"title\": \"smørbrød på bordet\"}]";
    let prs = decode_pulls(body).unwrap();
    assert_eq!(prs[0].title.as_deref(), Some("smørbrød på bordet"));
}

#[test]
fn surrogate_escape_is_rejected() {
    let body = "[{\"id\": 1, \"number\": 2, \"title\": \"\\ud800\"}]";
    assert!(decode_pulls(body).is_none());
}

#[test]
fn encoding_has_the_expected_exact_text() {
    let prs = vec![pr(7, 3, Some("Hi"), Some("ada"), None, None, None)];
    let text = encode_pulls(&prs);
    assert_eq!(
        text,
        "[{\"id\":7,\"number\":3,\"title\":\"Hi\",\"user\":{\"login\":\"ada\"},\
         \"html_url\":null,\"updated_at\":null,\"state\":null}]"
    );
}

#[test]
fn empty_list_encodes_as_empty_array() {
    let prs: Vec<PullRequest> = vec![];
    assert_eq!(encode_pulls(&prs), "[]");
}

#[test]
fn decode_inverts_encode() {
    let prs = vec![
        pr(
            1,
            10,
            Some("A title with \"quotes\" and \\slashes\\ and\nnewlines"),
            Some("octocat"),
            Some("https://example.test/1"),
            Some("2023-01-01T00:00:00Z"),
            Some("open"),
        ),
        pr(-5, -1, None, None, None, None, None),
        pr(i64::MAX, i32::MAX, Some("æøå—🦀"), Some("smørbrød"), None, Some("t"), None),
        pr(i64::MIN, i32::MIN, Some("control \u{1} char"), None, None, None, Some("closed")),
    ];
    let text = encode_pulls(&prs);
    let back = decode_pulls(&text).expect("re-encoded payload must decode");
    assert_eq!(back.len(), prs.len());
    for (a, b) in prs.iter().zip(back.iter()) {
        assert_eq!(a.id, b.id);
        assert_eq!(a.number, b.number);
        assert_eq!(a.title, b.title);
        assert_eq!(a.user.as_ref().map(|u| &u.login), b.user.as_ref().map(|u| &u.login));
        assert_eq!(a.html_url, b.html_url);
        assert_eq!(a.updated_at, b.updated_at);
        assert_eq!(a.state, b.state);
    }
}

#[test]
fn integers_print_in_decimal() {
    assert_eq!(int_to_string(0), "0");
    assert_eq!(int_to_string(42), "42");
    assert_eq!(int_to_string(-7), "-7");
    assert_eq!(int_to_string(i64::MAX), "9223372036854775807");
    assert_eq!(int_to_string(i64::MIN), "-9223372036854775808");
}
