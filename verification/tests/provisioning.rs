use alarm_sync::credentials::{decode_credentials, encode_credentials};
use alarm_sync::provisioning::{classify_request, find_form_value, SetupRequest};

/// The fields of a request that is a submission.
fn submitted(request: &[u8]) -> ([u8; 256], String, String) {
    match classify_request(request) {
        SetupRequest::Submit { record, ssid, password } => {
            (record, ssid.as_str().to_string(), password.as_str().to_string())
        }
        other => panic!("unexpected request {:?}", other),
    }
}

#[test]
fn finds_both_fields() {
    let body = b"ssid=home&pw=secret12";
    assert_eq!(find_form_value(body, b"ssid"), Some(&b"home"[..]));
    assert_eq!(find_form_value(body, b"pw"), Some(&b"secret12"[..]));
}

#[test]
fn finds_a_field_in_any_position() {
    let body = b"a=1&pw=x&ssid=net&b=2";
    assert_eq!(find_form_value(body, b"ssid"), Some(&b"net"[..]));
    assert_eq!(find_form_value(body, b"pw"), Some(&b"x"[..]));
    assert_eq!(find_form_value(body, b"a"), Some(&b"1"[..]));
    assert_eq!(find_form_value(body, b"b"), Some(&b"2"[..]));
}

#[test]
fn missing_key_gives_none() {
    assert_eq!(find_form_value(b"ssid=home&pw=x", b"user"), None);
    assert_eq!(find_form_value(b"", b"ssid"), None);
}

#[test]
fn first_matching_pair_wins() {
    assert_eq!(find_form_value(b"pw=one&pw=two", b"pw"), Some(&b"one"[..]));
}

#[test]
fn value_may_be_empty() {
    assert_eq!(find_form_value(b"ssid=&pw=x", b"ssid"), Some(&b""[..]));
    assert_eq!(find_form_value(b"pw=", b"pw"), Some(&b""[..]));
}

#[test]
fn value_keeps_later_equals_signs() {
    assert_eq!(find_form_value(b"pw=a=b=c&x=1", b"pw"), Some(&b"a=b=c"[..]));
}

#[test]
fn pair_without_equals_has_no_key() {
    assert_eq!(find_form_value(b"ssid&pw=x", b"ssid"), None);
    assert_eq!(find_form_value(b"ssid", b"ssid"), None);
}

#[test]
fn key_must_match_whole() {
    assert_eq!(find_form_value(b"ssid2=a&xssid=b", b"ssid"), None);
    assert_eq!(find_form_value(b"ssi=a", b"ssid"), None);
}

#[test]
fn empty_key_matches_a_pair_that_starts_with_equals() {
    assert_eq!(find_form_value(b"a=1&=v", b""), Some(&b"v"[..]));
}

#[test]
fn empty_pairs_are_skipped() {
    assert_eq!(find_form_value(b"&&pw=x&", b"pw"), Some(&b"x"[..]));
}

#[test]
fn values_are_not_unescaped() {
    assert_eq!(find_form_value(b"ssid=my+net%21", b"ssid"), Some(&b"my+net%21"[..]));
}

#[test]
fn get_request_shows_the_form() {
    assert_eq!(classify_request(b"GET / HTTP/1.1\r\nHost: x\r\n\r\n"), SetupRequest::ShowForm);
}

#[test]
fn empty_request_shows_the_form() {
    assert_eq!(classify_request(b""), SetupRequest::ShowForm);
}

#[test]
fn post_with_both_fields_is_a_submit() {
    let request = b"POST / HTTP/1.1\r\nContent-Length: 21\r\n\r\nssid=home&pw=secret12";
    let (record, ssid, password) = submitted(request);
    assert_eq!(ssid, "home");
    assert_eq!(password, "secret12");
    assert_eq!(record, encode_credentials("home", "secret12"));
}

#[test]
fn submit_hands_out_what_the_record_holds() {
    let bodies = [
        "ssid=home&pw=secret12".to_string(),
        "ssid=&pw=".to_string(),
        format!("ssid={}&pw={}", "s".repeat(63), "p".repeat(63)),
        format!("ssid={}&pw={}", "s".repeat(64), "p".repeat(64)),
        format!("ssid={}&pw={}", "s".repeat(65), "p".repeat(300)),
        "pw=p\u{e4}ss&ssid=Caf\u{e9}".to_string(),
    ];
    for body in bodies.iter() {
        let request = format!("POST / HTTP/1.1\r\n\r\n{}", body);
        match classify_request(request.as_bytes()) {
            SetupRequest::Submit { record, ssid, password } => {
                assert_eq!(decode_credentials(&record), Some((ssid, password)));
            }
            other => panic!("unexpected request {:?}", other),
        }
    }
}

#[test]
fn submit_of_a_field_of_64_bytes_keeps_63() {
    let request = format!("POST /\r\n\r\nssid={}&pw=short", "k".repeat(64));
    let (record, ssid, password) = submitted(request.as_bytes());
    assert_eq!(ssid, "k".repeat(63));
    assert_eq!(password, "short");
    assert_eq!(record[8], 63);
    assert_eq!(record, encode_credentials(&"k".repeat(64), "short"));
}

#[test]
fn submit_of_a_long_field_keeps_its_first_63_bytes() {
    let request = format!("POST /\r\n\r\nssid=net&pw={}", "k".repeat(65));
    let (record, ssid, password) = submitted(request.as_bytes());
    assert_eq!(ssid, "net");
    assert_eq!(password, "k".repeat(63));
    assert_eq!(record[72], 63);
}

#[test]
fn submit_whose_field_is_cut_inside_a_character_is_incomplete() {
    // 62 ASCII bytes and a character of two bytes: the cut at 63 splits it.
    let request = format!("POST /\r\n\r\nssid={}\u{e9}&pw=short", "a".repeat(62));
    assert_eq!(classify_request(request.as_bytes()), SetupRequest::Incomplete);
    let request = format!("POST /\r\n\r\nssid=net&pw={}\u{e9}", "a".repeat(62));
    assert_eq!(classify_request(request.as_bytes()), SetupRequest::Incomplete);
}

#[test]
fn submit_capacity_counts_bytes_not_characters() {
    // 31 characters of two bytes each are 62 bytes and fit; 32 are 64 bytes,
    // and the cut at 63 splits the last of them.
    let request = format!("POST /\r\n\r\nssid={}&pw=x", "\u{e9}".repeat(31));
    let (_, ssid, _) = submitted(request.as_bytes());
    assert_eq!(ssid, "\u{e9}".repeat(31));
    let request = format!("POST /\r\n\r\nssid={}&pw=x", "\u{e9}".repeat(32));
    assert_eq!(classify_request(request.as_bytes()), SetupRequest::Incomplete);
}

#[test]
fn post_body_starts_after_the_first_blank_line() {
    let request = b"POST /\r\n\r\nssid=a&pw=b\r\n\r\nssid=c&pw=d";
    let (_, ssid, password) = submitted(request);
    assert_eq!(ssid, "a");
    assert_eq!(password, "b\r\n\r\nssid=c");
}

#[test]
fn post_without_blank_line_is_incomplete() {
    assert_eq!(classify_request(b"POST / HTTP/1.1\r\nssid=a&pw=b"), SetupRequest::Incomplete);
    assert_eq!(classify_request(b"POST"), SetupRequest::Incomplete);
}

#[test]
fn post_with_a_missing_field_is_incomplete() {
    assert_eq!(classify_request(b"POST /\r\n\r\nssid=a"), SetupRequest::Incomplete);
    assert_eq!(classify_request(b"POST /\r\n\r\npw=b"), SetupRequest::Incomplete);
    assert_eq!(classify_request(b"POST /\r\n\r\n"), SetupRequest::Incomplete);
}

#[test]
fn post_that_ends_with_the_blank_line_has_an_empty_body() {
    assert_eq!(classify_request(b"POST\r\n\r\n"), SetupRequest::Incomplete);
}

#[test]
fn post_is_matched_at_the_start_only() {
    assert_eq!(classify_request(b" POST /\r\n\r\nssid=a&pw=b"), SetupRequest::ShowForm);
    assert_eq!(classify_request(b"post /\r\n\r\nssid=a&pw=b"), SetupRequest::ShowForm);
    assert_eq!(classify_request(b"POS"), SetupRequest::ShowForm);
}

#[test]
fn request_that_is_not_utf8_shows_the_form() {
    assert_eq!(classify_request(b"POST /\r\n\r\nssid=a&pw=\xFF"), SetupRequest::ShowForm);
}

#[test]
fn submit_keeps_non_ascii_values() {
    let request = "POST /\r\n\r\nssid=Caf\u{e9}&pw=p\u{e4}ss".as_bytes();
    let (_, ssid, password) = submitted(request);
    assert_eq!(ssid, "Caf\u{e9}");
    assert_eq!(password, "p\u{e4}ss");
}
