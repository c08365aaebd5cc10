use rustc_serialize::base64::{ToBase64, STANDARD};
use xmppd::account_storer::{AccountStorer, JsonAccountStorer};
use xmppd::iq_router::IqHandling;
use xmppd::message_router::MessageRoute;
use xmppd::resource_binding::{bind_request_is_readable, find_bind_resource, send_resource_binding_result, start, treat};
use xmppd::session_manager::{InMemorySessionManager, SessionManager};
use xmppd::stream::{bind_step, dispatch_stanza, full_jid_of, login_step, send_initial_stream, BindStep, LoginStep, StanzaAction};

const BIND: &str = "<iq type='set' id='bind_1'><bind xmlns='urn:ietf:params:xml:ns:xmpp-bind'><resource>balcony</resource></bind></iq>";

fn storer() -> JsonAccountStorer {
    JsonAccountStorer::from_json("{\"juliet\": \"r0m30\", \"\": \"nobody\"}").expect("valid json")
}

fn auth_element(message: &[u8]) -> String {
    format!("<auth mechanism='PLAIN'>{}</auth>", message.to_base64(STANDARD))
}

#[test]
fn initial_stream_offers_plain() {
    assert_eq!(
        send_initial_stream(),
        "<?xml version='1.0' ?><stream:stream from='127.0.0.1' id='someid' xmlns='jabber:client' xmlns:stream='http://etherx.jabber.org/streams' version='1.0' ><stream:features><mechanisms xmlns='urn:ietf:params:xml:ns:xmpp-sasl'><mechanism>PLAIN</mechanism></mechanisms></stream:features>"
    );
}

#[test]
fn binding_stream_offers_bind() {
    assert_eq!(
        start(),
        "<stream:stream xmlns='jabber:client' xmlns:stream='http://etherx.jabber.org/streams' id='c2s_345' from='localhost' version='1.0'\n        ><stream:features> <bind xmlns='urn:ietf:params:xml:ns:xmpp-bind'/> </stream:features>"
    );
}

#[test]
fn bind_request_binds_its_resource() {
    let b = treat(BIND).expect("a bind request");
    assert_eq!(b.resource, "balcony");
    assert_eq!(
        b.reply,
        "<iq type='result' id='bind_1'><bind xmlns='urn:ietf:params:xml:ns:xmpp-bind'><jid>him@localhost/balcony</jid></bind></iq>"
    );
    assert!(treat("<iq type='set' id='s'><session/></iq>").is_none());
}

#[test]
fn bind_resource_and_readability() {
    assert_eq!(find_bind_resource(BIND), Some("balcony".to_string()));
    assert_eq!(find_bind_resource("<iq id='1'><bind/></iq>"), Some("".to_string()));
    assert_eq!(find_bind_resource("<iq id='1'><bind/>"), None);
    assert!(bind_request_is_readable(BIND));
    assert!(!bind_request_is_readable("<iq id='1'><bind xmlns='b'/>"));
    assert!(bind_request_is_readable("<iq id='1'><session/></iq>"));
    assert!(!bind_request_is_readable("<iq id='1'/>"));
    assert_eq!(
        send_resource_binding_result("r", "7"),
        "<iq type='result' id='7'><bind xmlns='urn:ietf:params:xml:ns:xmpp-bind'><jid>him@localhost/r</jid></bind></iq>"
    );
}

#[test]
fn login_phase_steps() {
    let s = storer();
    match login_step(&s, "<stream:stream to='localhost'>") {
        LoginStep::Send(out) => assert_eq!(out, send_initial_stream()),
        _ => panic!("expected the stream header"),
    }
    assert!(matches!(login_step(&s, "</stream:stream>"), LoginStep::Close));
    assert!(matches!(login_step(&s, "<presence/>"), LoginStep::Ignore));
    assert!(matches!(login_step(&s, "<auth>???</auth>"), LoginStep::Malformed));
}

#[test]
fn law_stored_account_logs_in_on_example() {
    match login_step(&storer(), &auth_element(b"\0juliet\0r0m30")) {
        LoginStep::LoggedIn { username, answer } => {
            assert_eq!(username, "juliet");
            assert_eq!(answer, "<success xmlns='urn:ietf:params:xml:ns:xmpp-sasl'/>");
        }
        _ => panic!("expected a login"),
    }
}

#[test]
fn wrong_password_stays_in_login_phase() {
    match login_step(&storer(), &auth_element(b"\0juliet\0nope")) {
        LoginStep::Send(answer) => assert_eq!(answer, "<failure xmlns='urn:ietf:params:xml:ns:xmpp-sasl'><not-authorized/></failure>"),
        _ => panic!("expected a failure answer"),
    }
}

#[test]
fn empty_user_name_does_not_end_login_phase() {
    match login_step(&storer(), &auth_element(b"\0\0nobody")) {
        LoginStep::Send(answer) => assert_eq!(answer, "<success xmlns='urn:ietf:params:xml:ns:xmpp-sasl'/>"),
        _ => panic!("expected a success answer without login"),
    }
}

#[test]
fn binding_phase_steps() {
    assert!(matches!(bind_step("<stream:stream>"), BindStep::Send(_)));
    match bind_step(BIND) {
        BindStep::Bound { resource, reply } => {
            assert_eq!(resource, "balcony");
            assert!(reply.contains("him@localhost/balcony"));
        }
        _ => panic!("expected a binding"),
    }
    assert!(matches!(bind_step("<iq id='1'><session/></iq>"), BindStep::Close));
    assert!(matches!(bind_step("<message/>"), BindStep::Close));
    assert!(matches!(bind_step("<iq id='1'/>"), BindStep::Malformed));
}

#[test]
fn bound_address() {
    assert_eq!(full_jid_of("juliet", "balcony"), "juliet@localhost/balcony");
}

#[test]
fn bound_phase_dispatch() {
    let mut sessions = InMemorySessionManager::new();
    let me = "juliet@localhost/balcony";
    match dispatch_stanza(me, &mut sessions, "<iq type='get' id='p'><ping xmlns='urn:xmpp:ping'/></iq>") {
        StanzaAction::Iq(route) => {
            assert_eq!(route.handling, IqHandling::Ping);
            assert_eq!(route.reply, "<iq from='localhost' type='result' id='p'/>");
        }
        _ => panic!("expected an iq"),
    }
    assert!(matches!(dispatch_stanza(me, &mut sessions, "<iq type='get'/>"), StanzaAction::Malformed));
    // a first child written `<ping/>` is read as `ping/`, which is not handled
    match dispatch_stanza(me, &mut sessions, "<iq type='get' id='q'><ping/></iq>") {
        StanzaAction::Iq(route) => assert_eq!(route.handling, IqHandling::Unhandled),
        _ => panic!("expected an iq"),
    }
    match dispatch_stanza(me, &mut sessions, "<message to='juliet@localhost'><body>x</body></message>") {
        StanzaAction::Message(MessageRoute::DeliverToSelf(_)) => {}
        _ => panic!("expected a message to self"),
    }
    assert!(matches!(dispatch_stanza(me, &mut sessions, "<message to='a'/>"), StanzaAction::Malformed));
    assert!(matches!(dispatch_stanza(me, &mut sessions, "<presence/>"), StanzaAction::Presence));
    assert!(matches!(dispatch_stanza(me, &mut sessions, "<presence type='away'/>"), StanzaAction::Presence));
    assert!(matches!(dispatch_stanza(me, &mut sessions, "<presenceX/>"), StanzaAction::Unhandled));
    assert!(matches!(dispatch_stanza(me, &mut sessions, "</stream:stream>"), StanzaAction::Unhandled));
}

#[test]
fn law_message_to_self_comes_back_on_example() {
    let mut sessions = InMemorySessionManager::new();
    let me = full_jid_of("romeo", "orchard");
    for to in ["romeo@localhost", "romeo@localhost/orchard"] {
        let stanza = format!("<message to='{}'><body>b</body></message>", to);
        assert!(matches!(
            dispatch_stanza(&me, &mut sessions, &stanza),
            StanzaAction::Message(MessageRoute::DeliverToSelf(_))
        ));
    }
}

#[test]
fn law_message_reaches_bound_recipient_on_example() {
    let mut sessions = InMemorySessionManager::new();
    sessions.add_domain("localhost");
    sessions.add_user("localhost", "bob");
    sessions.add_session_resource("localhost", "bob", "work");
    let me = full_jid_of("alice", "home");
    let action = dispatch_stanza(&me, &mut sessions, "<message to='bob@localhost/work'><body>hi</body></message>");
    assert!(matches!(action, StanzaAction::Message(MessageRoute::Forward { delivered: true, .. })));
    assert_eq!(
        sessions.take_pending("localhost", "bob", "work"),
        vec!["<message from='alice@localhost/home' to='bob@localhost/work' type='chat'><body>hi</body></message>".to_string()]
    );
    // anything else leaves the sessions alone
    dispatch_stanza(&me, &mut sessions, "<iq type='get' id='p'><ping/></iq>");
    assert!(sessions.take_pending("localhost", "bob", "work").is_empty());
}
