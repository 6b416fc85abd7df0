use rdapx::present::{field_or_dash, join_with, status_text, summary_lines, DocSummary};

#[test]
fn absent_field_shows_a_dash() {
    assert_eq!(field_or_dash(&None), "-");
    assert_eq!(field_or_dash(&Some("X".to_string())), "X");
}

#[test]
fn join_cases() {
    let empty: Vec<String> = vec![];
    assert_eq!(join_with(&empty, ", "), "");
    assert_eq!(join_with(&vec!["a".to_string()], ", "), "a");
    assert_eq!(join_with(&vec!["a".to_string(), "b".to_string()], ", "), "a, b");
}

#[test]
fn status_is_dash_when_empty() {
    let empty: Vec<String> = vec![];
    assert_eq!(status_text(&empty), "-");
    assert_eq!(
        status_text(&vec!["active".to_string(), "locked".to_string()]),
        "active,locked"
    );
}

#[test]
fn summary_without_roles_has_five_lines() {
    let s = DocSummary {
        kind: Some("domain".to_string()),
        handle: None,
        name: Some("EXAMPLE.COM".to_string()),
        country: None,
        status: vec!["active".to_string()],
        roles: vec![],
    };
    let lines = summary_lines(&s);
    assert_eq!(
        lines,
        vec![
            "Type: domain".to_string(),
            "Handle: -".to_string(),
            "Name: EXAMPLE.COM".to_string(),
            "Country: -".to_string(),
            "Status: active".to_string(),
        ]
    );
}

#[test]
fn summary_with_roles_appends_a_roles_line() {
    let s = DocSummary {
        kind: Some("autnum".to_string()),
        handle: Some("AS13335".to_string()),
        name: None,
        country: Some("US".to_string()),
        status: vec![],
        roles: vec!["abuse".to_string(), "registrant".to_string()],
    };
    let lines = summary_lines(&s);
    assert_eq!(lines.len(), 6);
    assert_eq!(lines[4], "Status: -");
    assert_eq!(lines[5], "Roles: abuse, registrant");
}
