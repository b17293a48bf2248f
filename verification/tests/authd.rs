use safe_api::authd::{remove_notif_endpoint_from_list, Error, ErrorKind, NotifEndpointsList};

#[test]
fn error_kinds() {
    assert_eq!(ErrorKind::GeneralError.error_code(), 1);
    assert_eq!(ErrorKind::AuthdAlreadyStarted.error_code(), 10);
    assert_eq!(ErrorKind::Unexpected.error_code(), 20);
    assert_eq!(ErrorKind::Unknown.error_code(), 1);
    assert_eq!(ErrorKind::AuthdAlreadyStarted.description(), "AuthdAlreadyStarted");
    assert_eq!(ErrorKind::Unknown.description(), "Unknown");
}

#[test]
fn errors_from_codes() {
    assert_eq!(Error::from_code(10, "m".to_string()).code(), 10);
    assert_eq!(Error::from_code(20, "m".to_string()).code(), 20);
    assert_eq!(Error::from_code(1, "m".to_string()).code(), 1);
    assert_eq!(Error::from_code(42, "m".to_string()).code(), 1);
    assert_eq!(
        Error::from_code(42, "m".to_string()).to_display_string(),
        "Unknown - Unknown - m"
    );
}

#[test]
fn error_rendering() {
    let e = Error::from_message(ErrorKind::Unexpected, "boom".to_string());
    assert_eq!(e.to_display_string(), "Unexpected - Unexpected - boom");
    let e = Error::from_message_with_suggestions(
        ErrorKind::GeneralError,
        "bad".to_string(),
        vec!["try a".to_string(), "try b".to_string()],
    );
    assert_eq!(
        e.to_display_string(),
        "GeneralError - GeneralError - bad\nSuggestions --- \ntry a\ntry b"
    );
    let e = Error::from_code_with_suggestion(10, "up".to_string(), vec![]);
    assert_eq!(e.to_display_string(), "AuthdAlreadyStarted - AuthdAlreadyStarted - up\nSuggestions --- ");
}

#[test]
fn notif_endpoint_removal() {
    let mut list: NotifEndpointsList = vec![
        ("https://a".to_string(), None),
        ("https://b".to_string(), Some("x".to_string())),
        ("https://a".to_string(), Some("y".to_string())),
    ];
    remove_notif_endpoint_from_list(&mut list, "https://a");
    assert_eq!(list, vec![("https://b".to_string(), Some("x".to_string()))]);
    remove_notif_endpoint_from_list(&mut list, "https://none");
    assert_eq!(list.len(), 1);
}
