use rustc_serialize::base64::{ToBase64, STANDARD};
use xmppd::account_storer::{AccountStorer, JsonAccountStorer};
use xmppd::auth::{
    extract_real_username_password, find_login_credentials, find_payload_credentials, split_sasl_plain, treat_login,
};

fn storer() -> JsonAccountStorer {
    JsonAccountStorer::from_json("{\"juliet\": \"r0m30\", \"romeo\": \"capulet\"}").expect("valid json")
}

fn auth_element(message: &[u8]) -> String {
    format!("<auth xmlns='urn:ietf:params:xml:ns:xmpp-sasl' mechanism='PLAIN'>{}</auth>", message.to_base64(STANDARD))
}

#[test]
fn json_accounts_are_checked() {
    let s = storer();
    assert!(s.is_login_correct("juliet", "r0m30"));
    assert!(s.is_login_correct("romeo", "capulet"));
    assert!(!s.is_login_correct("juliet", "capulet"));
    assert!(!s.is_login_correct("tybalt", "x"));
    assert!(!s.is_login_correct("juliet", "r0m3"));
}

#[test]
fn account_file_opens_through_the_trait() {
    let text = "{\"juliet\": \"r0m30\"}";
    let s: JsonAccountStorer = AccountStorer::new(text);
    assert!(s.is_login_correct("juliet", "r0m30"));
    assert!(!s.is_login_correct("juliet", "r0m3"));
}

#[test]
fn json_that_is_not_an_object_of_strings_is_refused() {
    assert!(JsonAccountStorer::from_json("not json").is_none());
    assert!(JsonAccountStorer::from_json("[\"a\"]").is_none());
    assert!(JsonAccountStorer::from_json("{\"a\": 1}").is_none());
    let empty = JsonAccountStorer::from_json("{}").expect("empty object");
    assert!(!empty.is_login_correct("", ""));
}

#[test]
fn json_holding_a_number_is_refused_before_decoding() {
    assert!(JsonAccountStorer::from_json("{\"a\": 1e99999999999999999999}").is_none());
    assert!(JsonAccountStorer::from_json("{\"a\": \"b\", \"n\": -7}").is_none());
    // digits inside string literals, also after escaped quotes, are fine
    let s = JsonAccountStorer::from_json("{\"a\\\"1\": \"2\\\\\", \"b9\": \"e99\"}").expect("object of strings");
    assert!(s.is_login_correct("a\"1", "2\\"));
    assert!(s.is_login_correct("b9", "e99"));
}

#[test]
fn from_members_last_listing_wins() {
    let s = JsonAccountStorer::from_members(vec![
        ("a".to_string(), "1".to_string()),
        ("b".to_string(), "2".to_string()),
        ("a".to_string(), "3".to_string()),
    ]);
    assert!(s.is_login_correct("a", "3"));
    assert!(!s.is_login_correct("a", "1"));
    assert!(s.is_login_correct("b", "2"));
    assert!(!s.is_login_correct("c", ""));
}

#[test]
fn cloned_storer_keeps_accounts() {
    let s = storer();
    let c = s.clone();
    assert!(c.is_login_correct("juliet", "r0m30"));
    assert!(!c.is_login_correct("juliet", "x"));
}

#[test]
fn sasl_plain_message_is_split_at_zero_bytes() {
    assert_eq!(
        split_sasl_plain(b"realm\0juliet\0r0m30"),
        Some(("realm".to_string(), "juliet".to_string(), "r0m30".to_string()))
    );
    assert_eq!(split_sasl_plain(b"\0juliet\0"), Some(("".to_string(), "juliet".to_string(), "".to_string())));
    // the password ends at a third zero byte
    assert_eq!(split_sasl_plain(b"\0a\0b\0c"), Some(("".to_string(), "a".to_string(), "b".to_string())));
}

#[test]
fn sasl_plain_message_refused() {
    assert_eq!(split_sasl_plain(b"juliet\0r0m30"), None);
    assert_eq!(split_sasl_plain(b""), None);
    assert_eq!(split_sasl_plain(b"\0\xff\0x"), None);
    // what follows a third zero byte is not read
    assert_eq!(split_sasl_plain(b"\0a\0b\0\xff"), Some(("".to_string(), "a".to_string(), "b".to_string())));
}

#[test]
fn base64_payload_is_decoded() {
    // "\0juliet\0r0m30" in base64
    assert_eq!(
        extract_real_username_password("AGp1bGlldAByMG0zMA=="),
        ("".to_string(), "juliet".to_string(), "r0m30".to_string())
    );
    assert_eq!(
        find_payload_credentials("AGp1bGlldAByMG0zMA=="),
        Some(("".to_string(), "juliet".to_string(), "r0m30".to_string()))
    );
    assert_eq!(find_payload_credentials("not base64!"), None);
    // valid base64 of text without zero bytes
    assert_eq!(find_payload_credentials("aGVsbG8="), None);
    assert_eq!(find_payload_credentials("YWJj"), None);
}

#[test]
fn login_succeeds_with_the_stored_password() {
    let outcome = treat_login(&storer(), &auth_element(b"\0juliet\0r0m30"));
    assert_eq!(outcome.username, "juliet");
    assert_eq!(outcome.answer, "<success xmlns='urn:ietf:params:xml:ns:xmpp-sasl'/>");
}

#[test]
fn login_fails_with_another_password() {
    let outcome = treat_login(&storer(), &auth_element(b"\0juliet\0capulet"));
    assert_eq!(outcome.username, "");
    assert_eq!(outcome.answer, "<failure xmlns='urn:ietf:params:xml:ns:xmpp-sasl'><not-authorized/></failure>");
    let unknown = treat_login(&storer(), &auth_element(b"\0tybalt\0x"));
    assert_eq!(unknown.username, "");
}

#[test]
fn login_without_credentials_is_unreadable() {
    assert!(find_login_credentials("<auth mechanism='PLAIN'/").is_none());
    assert!(find_login_credentials("<auth>!!!</auth>").is_none());
    assert!(find_login_credentials(&auth_element(b"juliet")).is_none());
    assert_eq!(
        find_login_credentials(&auth_element(b"\0juliet\0r0m30")),
        Some(("".to_string(), "juliet".to_string(), "r0m30".to_string()))
    );
}

#[test]
fn law_sasl_roundtrip_on_examples() {
    for (realm, user, pass) in [("", "juliet", "r0m30"), ("localhost", "ünïcode", "pässwörd ✓"), ("r", "", "")] {
        let message = format!("{}\0{}\0{}", realm, user, pass);
        assert_eq!(
            split_sasl_plain(message.as_bytes()),
            Some((realm.to_string(), user.to_string(), pass.to_string()))
        );
        assert_eq!(
            extract_real_username_password(&message.as_bytes().to_base64(STANDARD)),
            (realm.to_string(), user.to_string(), pass.to_string())
        );
    }
}
