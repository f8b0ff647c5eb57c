use scener::reference::{parse_index, resolve_reference, resolve_references, ReferenceError};

fn names(list: &[&str]) -> Vec<String> {
    list.iter().map(|name| name.to_string()).collect()
}

#[test]
fn test_parse_index_bare() {
    assert_eq!(parse_index("@"), Some(0));
}

#[test]
fn test_parse_index_zero() {
    assert_eq!(parse_index("@0"), None);
}

#[test]
fn test_parse_index_one() {
    assert_eq!(parse_index("@1"), Some(0));
}

#[test]
fn test_parse_index_five() {
    assert_eq!(parse_index("@5"), Some(4));
}

#[test]
fn test_parse_index_invalid() {
    assert_eq!(parse_index("@abc"), None);
}

#[test]
fn test_parse_index_forms_of_a_number() {
    assert_eq!(parse_index("@+5"), Some(4));
    assert_eq!(parse_index("@007"), Some(6));
    assert_eq!(parse_index("@12"), Some(11));
    assert_eq!(parse_index("@+"), None);
    assert_eq!(parse_index("@-1"), None);
    assert_eq!(parse_index("@1 "), None);
    assert_eq!(parse_index("@ 1"), None);
    assert_eq!(parse_index("@+0"), None);
    assert_eq!(parse_index("@000"), None);
    assert_eq!(parse_index("@1x"), None);
    assert_eq!(parse_index("@++1"), None);
}

#[test]
fn test_parse_index_without_at() {
    assert_eq!(parse_index(""), None);
    assert_eq!(parse_index("1"), None);
    assert_eq!(parse_index("x@1"), None);
    assert_eq!(parse_index("\u{ff20}1"), None);
}

#[test]
fn test_parse_index_at_the_limit() {
    let max = format!("@{}", usize::MAX);
    assert_eq!(parse_index(&max), Some(usize::MAX - 1));
    let beyond = format!("@{}0", usize::MAX);
    assert_eq!(parse_index(&beyond), None);
    let padded = format!("@0000000000000000000000000000000000000000{}", 42);
    assert_eq!(parse_index(&padded), Some(41));
    assert_eq!(parse_index("@99999999999999999999999999999999999999999999"), None);
}

#[test]
fn test_resolve_reference_by_index() {
    let names = names(&["test1", "test2"]);
    assert_eq!(resolve_reference("@2", &names), Ok("test2".to_string()));
}

#[test]
fn test_resolve_reference_index_out_of_range() {
    let names = names(&["test1", "test2"]);
    assert_eq!(
        resolve_reference("@3", &names),
        Err(ReferenceError::IndexOutOfRange { reference: "@3".into() })
    );
}

#[test]
fn test_resolve_reference_by_name() {
    let names = names(&["test1", "test2"]);
    assert_eq!(resolve_reference("test1", &names), Ok("test1".to_string()));
}

#[test]
fn test_resolve_reference_name_not_found() {
    let names = names(&["test1", "test2"]);
    assert_eq!(
        resolve_reference("test3", &names),
        Err(ReferenceError::SessionNotFound { reference: "test3".into() })
    );
}

#[test]
fn test_resolve_references_ok() {
    let names = names(&["test1", "test2"]);
    let references = vec!["@1".to_string(), "@2".to_string()];
    assert_eq!(
        resolve_references(&references, &names),
        Ok(vec!["test1".to_string(), "test2".to_string()])
    );
}

#[test]
fn test_resolve_references_first_error() {
    let names = names(&["test1", "test2"]);
    let references = vec!["@1".to_string(), "@3".to_string(), "invalid".to_string()];
    assert_eq!(
        resolve_references(&references, &names),
        Err(ReferenceError::IndexOutOfRange { reference: "@3".into() })
    );
}

#[test]
fn test_bare_and_first_name_the_latest() {
    let names = names(&["20200103-c", "20200102-b", "20200101-a"]);
    assert_eq!(resolve_reference("@", &names), Ok("20200103-c".to_string()));
    assert_eq!(resolve_reference("@1", &names), resolve_reference("@", &names));
}

#[test]
fn test_bare_without_sessions() {
    let names: Vec<String> = Vec::new();
    assert_eq!(
        resolve_reference("@", &names),
        Err(ReferenceError::IndexOutOfRange { reference: "@".into() })
    );
    assert_eq!(
        resolve_reference("x", &names),
        Err(ReferenceError::SessionNotFound { reference: "x".into() })
    );
}

#[test]
fn test_zero_is_no_position() {
    let names = names(&["A", "B"]);
    assert_eq!(
        resolve_reference("@0", &names),
        Err(ReferenceError::SessionNotFound { reference: "@0".into() })
    );
}

#[test]
fn test_zero_as_a_name() {
    let names = names(&["A", "@0"]);
    assert_eq!(resolve_reference("@0", &names), Ok("@0".to_string()));
}

#[test]
fn test_position_beyond_the_list_as_a_name() {
    let names = names(&["@5", "B"]);
    assert_eq!(resolve_reference("@5", &names), Ok("@5".to_string()));
    assert_eq!(resolve_reference("@1", &names), Ok("@5".to_string()));
}

#[test]
fn test_resolve_references_in_the_order_asked() {
    let names = names(&["A", "B"]);
    let references = vec!["@2".to_string(), "@1".to_string()];
    assert_eq!(
        resolve_references(&references, &names),
        Ok(vec!["B".to_string(), "A".to_string()])
    );
}

#[test]
fn test_resolve_references_fails_as_a_whole() {
    let names = names(&["A", "B"]);
    let first = vec!["nope".to_string(), "@1".to_string(), "@9".to_string()];
    assert_eq!(
        resolve_references(&first, &names),
        Err(ReferenceError::SessionNotFound { reference: "nope".into() })
    );
    let last = vec!["@1".to_string(), "B".to_string(), "@9".to_string()];
    assert_eq!(
        resolve_references(&last, &names),
        Err(ReferenceError::IndexOutOfRange { reference: "@9".into() })
    );
    let none: Vec<String> = Vec::new();
    assert_eq!(resolve_references(&none, &names), Ok(Vec::new()));
}

#[test]
fn test_reference_error_message() {
    assert_eq!(
        ReferenceError::IndexOutOfRange { reference: "@3".into() }.message(),
        "index out of range (ref = @3)"
    );
    assert_eq!(
        ReferenceError::SessionNotFound { reference: "test3".into() }.message(),
        "session not found (ref = test3)"
    );
}
