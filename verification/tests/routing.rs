use xmppd::iq_parser::get_iq_id;
use xmppd::iq_router::{route_iq, send_dummy_iq_result, treat_ping, treat_session, IqHandling};
use xmppd::message_router::{bare_jid_of, message_is_readable, route_message, MessageRoute};
use xmppd::presence_router::route_presence;
use xmppd::session_manager::{InMemorySessionManager, SessionManager};
use xmppd::stanza_parser::{get_inside, get_root_attribute};

#[test]
fn iq_result_has_the_request_id() {
    let iq = "<iq type='get' id='p1'><ping xmlns='urn:xmpp:ping'/></iq>";
    assert_eq!(send_dummy_iq_result(iq), "<iq from='localhost' type='result' id='p1'/>");
    assert_eq!(treat_ping(iq), "<iq from='localhost' type='result' id='p1'/>");
    assert_eq!(treat_session("<iq id='s9'><session/></iq>"), "<iq from='localhost' type='result' id='s9'/>");
}

#[test]
fn route_iq_by_first_child() {
    let ping = route_iq("<iq type='get' id='p1'><ping xmlns='urn:xmpp:ping'/></iq>");
    assert_eq!(ping.handling, IqHandling::Ping);
    assert_eq!(ping.reply, "<iq from='localhost' type='result' id='p1'/>");
    let session = route_iq("<iq type='set' id='s1'><session xmlns='urn:ietf:params:xml:ns:xmpp-session'/></iq>");
    assert_eq!(session.handling, IqHandling::Session);
    assert_eq!(session.reply, "<iq from='localhost' type='result' id='s1'/>");
    let other = route_iq("<iq type='get' id='r1'><query xmlns='jabber:iq:roster'/></iq>");
    assert_eq!(other.handling, IqHandling::Unhandled);
    assert_eq!(other.reply, "<iq from='localhost' type='result' id='r1'/>");
}

#[test]
fn law_result_carries_request_id_on_examples() {
    for iq in ["<iq type='get' id='abc'><ping/></iq>", "<iq id='42'><session/></iq>", "<iq x='1' y='2' id='é'><a/></iq>"] {
        let reply = send_dummy_iq_result(iq);
        assert_eq!(get_iq_id(&reply), get_iq_id(iq));
    }
    // an id with a space, read from the fourth piece, is read back whole too
    let iq = "<iq a b id='p q'>";
    assert_eq!(get_iq_id(&send_dummy_iq_result(iq)), "p q");
}

#[test]
fn bare_jid_drops_the_resource() {
    assert_eq!(bare_jid_of("juliet@localhost/balcony"), "juliet@localhost");
    assert_eq!(bare_jid_of("juliet@localhost"), "juliet@localhost");
    assert_eq!(bare_jid_of("juliet"), "juliet@");
    assert_eq!(bare_jid_of("a@b/c/d"), "a@b");
}

#[test]
fn message_without_recipient_is_ignored() {
    let mut sessions = InMemorySessionManager::new();
    let route = route_message("juliet@localhost/balcony", &mut sessions, "<message type='chat'><body>x</body></message>");
    assert!(matches!(route, MessageRoute::Ignore));
}

#[test]
fn message_to_own_bare_jid_comes_back() {
    let mut sessions = InMemorySessionManager::new();
    let route = route_message("juliet@localhost/balcony", &mut sessions, "<message to='juliet@localhost'><body>note</body></message>");
    match route {
        MessageRoute::DeliverToSelf(stanza) => assert_eq!(
            stanza,
            "<message from='juliet@localhost/balcony' to='juliet@localhost' type='chat'><body>note</body></message>"
        ),
        _ => panic!("expected delivery to self"),
    }
}

#[test]
fn message_to_own_full_jid_comes_back() {
    let mut sessions = InMemorySessionManager::new();
    let route = route_message("juliet@localhost/balcony", &mut sessions, "<message to='juliet@localhost/balcony'><body>n</body></message>");
    assert!(matches!(route, MessageRoute::DeliverToSelf(_)));
}

#[test]
fn message_to_someone_else_is_forwarded() {
    let mut sessions = InMemorySessionManager::new();
    let route = route_message("juliet@localhost/balcony", &mut sessions, "<message to='romeo@localhost' type='chat'><body>hi</body></message>");
    match route {
        MessageRoute::Forward { to, stanza, delivered } => {
            assert_eq!(to, "romeo@localhost");
            assert!(!delivered);
            assert_eq!(stanza, "<message from='juliet@localhost/balcony' to='romeo@localhost' type='chat'><body>hi</body></message>");
            // the rebuilt stanza names sender and recipient and keeps the content
            assert_eq!(get_root_attribute(&stanza, "from"), Some("juliet@localhost/balcony".to_string()));
            assert_eq!(get_root_attribute(&stanza, "to"), Some("romeo@localhost".to_string()));
            assert_eq!(get_inside(&stanza), "<body>hi</body>");
        }
        _ => panic!("expected forwarding"),
    }
}

#[test]
fn message_readability() {
    assert!(message_is_readable("<message to='a'><body/></message>"));
    assert!(message_is_readable("<message type='chat'/>"));
    assert!(!message_is_readable("<message to='a'/>"));
}

#[test]
fn presence_to_self_is_echoed() {
    let sessions = InMemorySessionManager::new();
    assert!(route_presence("juliet@localhost/balcony", &sessions, "<presence to='juliet@localhost/balcony'/>"));
    assert!(!route_presence("juliet@localhost/balcony", &sessions, "<presence to='romeo@localhost'/>"));
    assert!(!route_presence("juliet@localhost/balcony", &sessions, "<presence/>"));
    assert!(route_presence("", &sessions, "<presence/>"));
}

#[test]
fn message_to_a_bound_full_address_is_delivered() {
    let mut sessions = InMemorySessionManager::new();
    sessions.add_domain("localhost");
    sessions.add_user("localhost", "romeo");
    sessions.add_session_resource("localhost", "romeo", "orchard");
    let route = route_message(
        "juliet@localhost/balcony",
        &mut sessions,
        "<message to='romeo@localhost/orchard'><body>hi</body></message>",
    );
    let expected = "<message from='juliet@localhost/balcony' to='romeo@localhost/orchard' type='chat'><body>hi</body></message>";
    match route {
        MessageRoute::Forward { to, stanza, delivered } => {
            assert_eq!(to, "romeo@localhost/orchard");
            assert_eq!(stanza, expected);
            assert!(delivered);
        }
        _ => panic!("expected forwarding"),
    }
    assert_eq!(sessions.take_pending("localhost", "romeo", "orchard"), vec![expected.to_string()]);
}
