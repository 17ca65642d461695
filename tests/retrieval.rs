use filedrop::retrieval::{download_target, identifier_accepted, AccessDenied};

#[test]
fn too_short_identifier_is_denied() {
    assert!(!identifier_accepted("ab"));
    assert_eq!(download_target("ab", true, Some("a.txt".to_string())), Err(AccessDenied::Denied));
}

#[test]
fn identifier_with_dot_is_denied() {
    assert!(!identifier_accepted("a.bcd"));
    assert_eq!(download_target("a.bcd", true, Some("a.txt".to_string())), Err(AccessDenied::Denied));
}

#[test]
fn identifier_with_separator_is_denied() {
    assert!(!identifier_accepted("ab/cd"));
    assert!(!identifier_accepted("ab\\cd"));
}

#[test]
fn too_long_identifier_is_denied() {
    assert!(!identifier_accepted("ABCDEF"));
}

#[test]
fn missing_workspace_is_denied() {
    assert!(identifier_accepted("ZZZZZ"));
    assert_eq!(download_target("ZZZZZ", false, None), Err(AccessDenied::Denied));
}

#[test]
fn empty_workspace_is_denied() {
    assert_eq!(download_target("ABCDE", true, None), Err(AccessDenied::Denied));
}

#[test]
fn first_entry_of_existing_workspace_is_served() {
    assert_eq!(download_target("ABCDE", true, Some("a.txt".to_string())), Ok("a.txt".to_string()));
}
