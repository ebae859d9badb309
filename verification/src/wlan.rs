//! Wi-Fi connection notifications (Windows WLAN API): which notifications
//! mean that a connection to a network completed, and their text for the log.
use crate::text::{decimal, decimal_text, signed_decimal, signed_decimal_text};
use vstd::prelude::*;

verus! {

/// The notification source of the auto configuration module (`wlanapi.h`).
pub const WLAN_NOTIFICATION_SOURCE_ACM: u32 = 8;

/// The code of an auto configuration notification telling that a connection
/// attempt completed.
pub const WLAN_NOTIFICATION_ACM_CONNECTION_COMPLETE: i32 = 10;

/// The reason code of a success.
pub const WLAN_REASON_CODE_SUCCESS: u32 = 0;

/// The name of an auto configuration notification code, if it is one.
pub open spec fn acm_code_name(code: i32) -> Option<Seq<char>> {
    match code {
        1 => Some("Autoconf Enabled"@),
        2 => Some("Autoconf Disabled"@),
        3 => Some("Background Scan Enabled"@),
        4 => Some("Background Scan Disabled"@),
        5 => Some("BSS Type Change"@),
        6 => Some("Power Setting Change"@),
        7 => Some("Scan Complete"@),
        8 => Some("Scan Fail"@),
        9 => Some("Connection Start"@),
        10 => Some("Connection Complete"@),
        11 => Some("Connection Attempt Fail"@),
        12 => Some("Filter List Change"@),
        13 => Some("Interface Arrival"@),
        14 => Some("Interface Removal"@),
        15 => Some("Profile Change"@),
        16 => Some("Profile Name Change"@),
        17 => Some("Profiles Exhausted"@),
        18 => Some("Network Not Available"@),
        19 => Some("Network Available"@),
        20 => Some("Disconnecting"@),
        21 => Some("Disconnected"@),
        22 => Some("Adhoc Network State Change"@),
        23 => Some("Profile Unblocked"@),
        24 => Some("Screen Power Change"@),
        25 => Some("Profile Blocked"@),
        26 => Some("Scan List Refresh"@),
        27 => Some("Operational State Change"@),
        _ => None,
    }
}

/// The text of an auto configuration notification code: its name, or
/// `Unknown Code: ` and its number.
pub open spec fn acm_code_text(code: i32) -> Seq<char> {
    match acm_code_name(code) {
        Some(name) => name,
        None => "Unknown Code: "@ + signed_decimal_text(code as int),
    }
}

/// Converts a WLAN auto configuration notification code to its text.
pub fn acm_code_to_str(code: i32) -> (s: String)
    ensures
        s@ == acm_code_text(code),
{
    match code {
        1 => "Autoconf Enabled".to_owned(),
        2 => "Autoconf Disabled".to_owned(),
        3 => "Background Scan Enabled".to_owned(),
        4 => "Background Scan Disabled".to_owned(),
        5 => "BSS Type Change".to_owned(),
        6 => "Power Setting Change".to_owned(),
        7 => "Scan Complete".to_owned(),
        8 => "Scan Fail".to_owned(),
        9 => "Connection Start".to_owned(),
        10 => "Connection Complete".to_owned(),
        11 => "Connection Attempt Fail".to_owned(),
        12 => "Filter List Change".to_owned(),
        13 => "Interface Arrival".to_owned(),
        14 => "Interface Removal".to_owned(),
        15 => "Profile Change".to_owned(),
        16 => "Profile Name Change".to_owned(),
        17 => "Profiles Exhausted".to_owned(),
        18 => "Network Not Available".to_owned(),
        19 => "Network Available".to_owned(),
        20 => "Disconnecting".to_owned(),
        21 => "Disconnected".to_owned(),
        22 => "Adhoc Network State Change".to_owned(),
        23 => "Profile Unblocked".to_owned(),
        24 => "Screen Power Change".to_owned(),
        25 => "Profile Blocked".to_owned(),
        26 => "Scan List Refresh".to_owned(),
        27 => "Operational State Change".to_owned(),
        _ => {
            let mut s = "Unknown Code: ".to_owned();
            s.append(signed_decimal(code as i64).as_str());
            s
        },
    }
}

/// The text of a notification, for the log.
pub open spec fn notification_text(source: u32, code: i32) -> Seq<char> {
    if source == WLAN_NOTIFICATION_SOURCE_ACM {
        "ACM: "@ + acm_code_text(code)
    } else {
        "Other source: "@ + decimal_text(source as nat)
    }
}

/// Describes a notification from `source` with `code`, for the log.
pub fn get_notification_description(source: u32, code: i32) -> (s: String)
    ensures
        s@ == notification_text(source, code),
{
    if source == WLAN_NOTIFICATION_SOURCE_ACM {
        let mut s = "ACM: ".to_owned();
        s.append(acm_code_to_str(code).as_str());
        s
    } else {
        let mut s = "Other source: ".to_owned();
        s.append(decimal(source as u64).as_str());
        s
    }
}

/// What a notification means for the network watcher.
#[derive(Debug, PartialEq, Eq, Clone, Copy)]
pub enum WlanNotification {
    /// Not the completion of a connection attempt: ignored.
    Other,
    /// A completion of a connection attempt that carries no data.
    MissingData,
    /// A connection attempt that completed without success, with its reason code.
    Failed { reason: u32 },
    /// A connection attempt that completed with success: the network changed.
    Connected,
}

/// What the notification from `source` with `code` means, given the reason
/// code of its connection data (`None` where it carries none).
pub open spec fn notification_meaning(source: u32, code: i32, reason: Option<u32>) -> WlanNotification {
    if source != WLAN_NOTIFICATION_SOURCE_ACM || code != WLAN_NOTIFICATION_ACM_CONNECTION_COMPLETE {
        WlanNotification::Other
    } else {
        match reason {
            None => WlanNotification::MissingData,
            Some(r) => if r != WLAN_REASON_CODE_SUCCESS {
                WlanNotification::Failed { reason: r }
            } else {
                WlanNotification::Connected
            },
        }
    }
}

/// Tells what a notification means: only the successful completion of a
/// connection attempt counts as a network change.
pub fn classify_notification(source: u32, code: i32, reason: Option<u32>) -> (n: WlanNotification)
    ensures
        n == notification_meaning(source, code, reason),
{
    if source != WLAN_NOTIFICATION_SOURCE_ACM || code != WLAN_NOTIFICATION_ACM_CONNECTION_COMPLETE {
        return WlanNotification::Other;
    }
    match reason {
        None => WlanNotification::MissingData,
        Some(r) => if r != WLAN_REASON_CODE_SUCCESS {
            WlanNotification::Failed { reason: r }
        } else {
            WlanNotification::Connected
        },
    }
}

/// The position of the first zero of `a`, or its length where it holds none.
pub open spec fn first_nul(a: Seq<u16>) -> int {
    if exists|i: int| 0 <= i < a.len() && a[i] == 0 {
        choose|i: int| 0 <= i < a.len() && a[i] == 0 && forall|j: int| 0 <= j < i ==> a[j] != 0
    } else {
        a.len() as int
    }
}

/// The text that std's `String::from_utf16_lossy` decodes from `units`.
pub uninterp spec fn utf16_lossy(units: Seq<u16>) -> Seq<char>;

/// Decodes UTF-16 with std's `String::from_utf16_lossy`, which replaces each
/// invalid unit with U+FFFD. The contract claims only that the result is the
/// named function of the units.
#[verifier::external_body]
fn from_utf16_lossy(units: &[u16]) -> (s: String)
    ensures
        s@ == utf16_lossy(units@),
{
    String::from_utf16_lossy(units)
}

/// Extracts a string from a zero-terminated array of UTF-16 units: the units
/// before the first zero (all of them where there is none).
pub fn get_string_from_wchar_array(array: &[u16]) -> (s: String)
    ensures
        s@ == utf16_lossy(array@.take(first_nul(array@))),
{
    let mut end: usize = 0;
    while end < array.len()
        invariant
            end <= array@.len(),
            forall|j: int| 0 <= j < end ==> array@[j] != 0,
        ensures
            end <= array@.len(),
            forall|j: int| 0 <= j < end ==> array@[j] != 0,
            end < array@.len() ==> array@[end as int] == 0,
        decreases array@.len() - end,
    {
        if array[end] == 0 {
            break;
        }
        end = end + 1;
    }
    proof {
        if end < array@.len() {
            assert(array@[end as int] == 0);
            let i = choose|i: int|
                0 <= i < array@.len() && array@[i] == 0 && forall|j: int| 0 <= j < i ==> array@[j] != 0;
            assert(i == end);
        } else {
            assert(!exists|i: int| 0 <= i < array@.len() && array@[i] == 0);
        }
    }
    let units = &array[0..end];
    assert(units@ =~= array@.take(first_nul(array@)));
    from_utf16_lossy(units)
}


/// Only the successful completion of a connection attempt counts as a network
/// change: the answer is `Connected` exactly for source 8 (the auto
/// configuration module), code 10 (connection complete) and reason 0 (success);
/// every other source or code is `Other`, whatever the data; a completion
/// without data is `MissingData`, one with another reason `Failed` with it.
pub proof fn lemma_only_completed_connections(source: u32, code: i32, reason: Option<u32>)
    ensures
        (notification_meaning(source, code, reason) == WlanNotification::Connected) == (source == 8
            && code == 10 && reason == Some(0u32)),
        (notification_meaning(source, code, reason) == WlanNotification::Other) == (source != 8
            || code != 10),
        (notification_meaning(source, code, reason) == WlanNotification::MissingData) == (source
            == 8 && code == 10 && reason is None),
        reason matches Some(x) ==> (source == 8 && code == 10 && x != 0 ==> notification_meaning(
            source,
            code,
            reason,
        ) == (WlanNotification::Failed { reason: x })),
{
}

} // verus!
