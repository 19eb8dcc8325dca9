use discord_callsign_bot::qrz::{CallsignInfo, QrzClient};

#[test]
fn test_display_name_nickname_priority() {
    let info = CallsignInfo {
        fname: Some("John".to_string()),
        name: Some("Smith".to_string()),
        nickname: Some("Jay".to_string()),
    };
    assert_eq!(QrzClient::get_display_name(&info), Some("Jay".to_string()));
}

#[test]
fn test_display_name_fname_fallback() {
    let info = CallsignInfo {
        fname: Some("John".to_string()),
        name: Some("Smith".to_string()),
        nickname: None,
    };
    assert_eq!(QrzClient::get_display_name(&info), Some("John".to_string()));
}

#[test]
fn test_display_name_name_fallback() {
    let info = CallsignInfo {
        fname: None,
        name: Some("Smith".to_string()),
        nickname: None,
    };
    assert_eq!(
        QrzClient::get_display_name(&info),
        Some("Smith".to_string())
    );
}

#[test]
fn test_display_name_empty() {
    let info = CallsignInfo {
        fname: None,
        name: None,
        nickname: None,
    };
    assert_eq!(QrzClient::get_display_name(&info), None);
}

#[test]
fn test_display_name_empty_strings() {
    let info = CallsignInfo {
        fname: Some("".to_string()),
        name: Some("".to_string()),
        nickname: Some("".to_string()),
    };
    assert_eq!(QrzClient::get_display_name(&info), None);
}

#[test]
fn display_name_skips_empty_nickname() {
    let info = CallsignInfo {
        fname: Some("John".to_string()),
        name: Some("John Smith".to_string()),
        nickname: Some("".to_string()),
    };
    assert_eq!(QrzClient::get_display_name(&info), Some("John".to_string()));
}
