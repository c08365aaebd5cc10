use xmppd::session_manager::{InMemorySessionManager, Session, SessionManager};

#[test]
fn session_addresses_are_user_first() {
    let s = Session::new("localhost", "alice", "home");
    assert_eq!(s.jid, "alice@localhost");
    assert_eq!(s.full_jid, "alice@localhost/home");
}

#[test]
fn law_full_jid_extends_jid_on_example() {
    let s = Session::new("example.org", "romeo", "orchard");
    assert_eq!(s.full_jid, format!("{}/{}", s.jid, "orchard"));
}

#[test]
fn add_user_needs_a_hosted_domain() {
    let mut m = InMemorySessionManager::new();
    assert!(!m.add_user("localhost", "juliet"));
    assert!(m.add_domain("localhost"));
    assert!(m.add_user("localhost", "juliet"));
    assert!(!m.add_user("example.org", "juliet"));
}

#[test]
fn binding_needs_a_registered_user() {
    let mut m = InMemorySessionManager::new();
    assert!(m.add_session_resource("localhost", "juliet", "balcony").is_none());
    m.add_domain("localhost");
    assert!(m.add_session_resource("localhost", "juliet", "balcony").is_none());
    m.add_user("localhost", "juliet");
    let s = m.add_session_resource("localhost", "juliet", "balcony").expect("bound");
    assert_eq!(s.full_jid, "juliet@localhost/balcony");
    assert!(m.add_session_resource("localhost", "romeo", "balcony").is_none());
}

#[test]
fn rehosting_a_domain_forgets_its_users() {
    let mut m = InMemorySessionManager::new();
    m.add_domain("localhost");
    m.add_user("localhost", "juliet");
    m.add_domain("localhost");
    assert!(m.add_session_resource("localhost", "juliet", "balcony").is_none());
}

#[test]
fn domains_are_independent() {
    let mut m = InMemorySessionManager::new();
    m.add_domain("a");
    m.add_domain("b");
    m.add_user("a", "u");
    assert!(m.add_session_resource("a", "u", "r").is_some());
    assert!(m.add_session_resource("b", "u", "r").is_none());
    m.add_domain("b");
    assert!(m.add_session_resource("a", "u", "r2").is_some());
}

#[test]
fn push_to_delivers_to_the_addressed_session() {
    let mut m = InMemorySessionManager::new();
    m.add_domain("localhost");
    m.add_user("localhost", "bob");
    m.add_user("localhost", "alice");
    let q = m.add_session_resource("localhost", "bob", "work").expect("bound");
    m.add_session_resource("localhost", "alice", "home").expect("bound");
    let s = "<message from='alice@localhost/home' to='bob@localhost/work' type='chat'><body>hi</body></message>";
    assert!(m.push_to(&q.full_jid, s));
    assert!(m.push_to("bob@localhost/work", "second"));
    assert!(m.take_pending("localhost", "alice", "home").is_empty());
    assert_eq!(m.take_pending("localhost", "bob", "work"), vec![s.to_string(), "second".to_string()]);
    assert!(m.take_pending("localhost", "bob", "work").is_empty());
}

#[test]
fn push_to_an_unbound_address_delivers_nothing() {
    let mut m = InMemorySessionManager::new();
    m.add_domain("localhost");
    m.add_user("localhost", "juliet");
    assert!(!m.push_to("juliet@localhost", "<message/>"));
    assert!(!m.push_to("juliet@localhost/r", "<message/>"));
    assert!(!m.push_to("juliet", "<message/>"));
    let s = m.add_session_resource("localhost", "juliet", "r");
    assert!(s.is_some());
    assert!(m.take_pending("localhost", "juliet", "r").is_empty());
    assert!(m.take_pending("localhost", "romeo", "r").is_empty());
}

#[test]
fn rebinding_a_resource_starts_with_nothing_waiting() {
    let mut m = InMemorySessionManager::new();
    m.add_domain("localhost");
    m.add_user("localhost", "bob");
    m.add_session_resource("localhost", "bob", "work");
    assert!(m.push_to("bob@localhost/work", "x"));
    m.add_session_resource("localhost", "bob", "work");
    assert!(m.take_pending("localhost", "bob", "work").is_empty());
}
