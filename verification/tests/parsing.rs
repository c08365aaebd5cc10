use xmppd::iq_parser::{find_iq_first_child, find_iq_id, get_iq_first_child, get_iq_id};
use xmppd::stanza_parser::{find_inside, get_inside, get_root_attribute};

const PING: &str = "<iq from='juliet@localhost/balcony' to='localhost' id='c2s1' type='get'><ping xmlns='urn:xmpp:ping'/></iq>";
const BIND: &str = "<iq type='set' id='bind_1'><bind xmlns='urn:ietf:params:xml:ns:xmpp-bind'><resource>balcony</resource></bind></iq>";
const SESSION: &str = "<iq type='set' id='sess_1'><session xmlns='urn:ietf:params:xml:ns:xmpp-session'/></iq>";

#[test]
fn iq_id_is_read_from_the_opening_tag() {
    assert_eq!(get_iq_id(BIND), "bind_1");
    assert_eq!(get_iq_id(SESSION), "sess_1");
    assert_eq!(get_iq_id("<iq id='x'/>"), "x");
}

#[test]
fn iq_id_is_looked_for_in_the_first_four_pieces_only() {
    // The opening tag is cut at spaces at most three times.
    assert_eq!(get_iq_id(PING), "c2s1");
    assert_eq!(find_iq_id("<iq a='1' b='2' c='3' id='4'><ping/></iq>"), None);
    // the fourth piece keeps the rest of the tag, spaces included
    assert_eq!(get_iq_id("<iq a b id='p q'>"), "p q");
}

#[test]
fn iq_id_missing_or_unquoted() {
    assert_eq!(find_iq_id("<iq type='get'><ping/></iq>"), None);
    assert_eq!(find_iq_id("<iq id=x><ping/></iq>"), None);
    // a single quote: the value runs to the end of the piece
    assert_eq!(find_iq_id("<iq id='abc><ping/></iq>"), Some("abc".to_string()));
}

#[test]
fn iq_id_ignores_attributes_after_the_tag() {
    assert_eq!(find_iq_id("<iq type='get'><ping id='inner'/></iq>"), None);
}

#[test]
fn first_child_of_iq() {
    assert_eq!(get_iq_first_child(PING), "ping");
    assert_eq!(get_iq_first_child(BIND), "bind");
    assert_eq!(get_iq_first_child(SESSION), "session");
    assert_eq!(get_iq_first_child("<iq id='1'><query/></iq>"), "query/");
}

#[test]
fn first_child_missing() {
    assert_eq!(find_iq_first_child("<iq id='1'/>"), None);
    assert_eq!(find_iq_first_child("no tag at all"), None);
    assert_eq!(find_iq_first_child("<iq id='1'>text</iq>"), Some("/iq".to_string()));
}

#[test]
fn root_attribute_values() {
    let m = "<message to='romeo@localhost' type='chat'><body>hi</body></message>";
    assert_eq!(get_root_attribute(m, "to"), Some("romeo@localhost".to_string()));
    assert_eq!(get_root_attribute(m, "type"), Some("chat".to_string()));
    assert_eq!(get_root_attribute(m, "from"), None);
    assert_eq!(get_root_attribute("<presence/>", "to"), None);
}

#[test]
fn root_attribute_matches_by_prefix() {
    // `to` is found as the first piece that begins with it
    let m = "<message token='t1' to='x'><body/></message>";
    assert_eq!(get_root_attribute(m, "to"), Some("t1".to_string()));
    assert_eq!(get_root_attribute("<message to=x>", "to"), None);
}

#[test]
fn root_attribute_in_a_tag_without_close() {
    assert_eq!(get_root_attribute("<message to='a' ", "to"), Some("a".to_string()));
}

#[test]
fn inside_of_a_stanza() {
    let m = "<message to='romeo@localhost'><body>hi</body></message>";
    assert_eq!(get_inside(m), "<body>hi</body>");
    assert_eq!(get_inside("<a></a>"), "");
    assert_eq!(find_inside("<a/>"), None);
    assert_eq!(find_inside("no tag"), None);
}

#[test]
fn inside_keeps_non_ascii_text() {
    assert_eq!(get_inside("<message to='é'><body>héllo ✓</body></message>"), "<body>héllo ✓</body>");
    assert_eq!(get_root_attribute("<message to='é@localhost'>", "to"), Some("é@localhost".to_string()));
}
