use adbmdns::wlan::{
    acm_code_to_str, classify_notification, get_notification_description,
    get_string_from_wchar_array, WlanNotification,
};

#[test]
fn acm_codes() {
    assert_eq!(acm_code_to_str(10), "Connection Complete");
    assert_eq!(acm_code_to_str(1), "Autoconf Enabled");
    assert_eq!(acm_code_to_str(27), "Operational State Change");
    assert_eq!(acm_code_to_str(0), "Unknown Code: 0");
    assert_eq!(acm_code_to_str(-12), "Unknown Code: -12");
    assert_eq!(acm_code_to_str(i32::MIN), "Unknown Code: -2147483648");
}

#[test]
fn notification_descriptions() {
    assert_eq!(get_notification_description(8, 21), "ACM: Disconnected");
    assert_eq!(get_notification_description(4, 21), "Other source: 4");
}

#[test]
fn only_successful_connections_count() {
    assert_eq!(classify_notification(8, 10, Some(0)), WlanNotification::Connected);
    assert_eq!(classify_notification(8, 10, Some(5)), WlanNotification::Failed { reason: 5 });
    assert_eq!(classify_notification(8, 10, None), WlanNotification::MissingData);
    assert_eq!(classify_notification(8, 9, Some(0)), WlanNotification::Other);
    assert_eq!(classify_notification(2, 10, Some(0)), WlanNotification::Other);
}

#[test]
fn profile_name_stops_at_the_first_zero() {
    let mut array = [0u16; 8];
    for (i, c) in "home".encode_utf16().enumerate() {
        array[i] = c;
    }
    array[6] = 'x' as u16;
    assert_eq!(get_string_from_wchar_array(&array), "home");
    let full: Vec<u16> = "caf\u{e9}".encode_utf16().collect();
    assert_eq!(get_string_from_wchar_array(&full), "caf\u{e9}");
    // An unpaired surrogate becomes U+FFFD.
    assert_eq!(get_string_from_wchar_array(&[0x61, 0xd800, 0x62]), "a\u{fffd}b");
    assert_eq!(get_string_from_wchar_array(&[]), "");
}
