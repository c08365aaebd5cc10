//! The life of a client connection: before login, while binding a resource,
//! and once bound. For each piece of input the functions here decide what to
//! send back and where the connection goes next.
use vstd::prelude::*;
use crate::account_storer::{AccountStorer, JsonAccountStorer};
use crate::auth;
use crate::iq_parser;
use crate::iq_router;
use crate::message_router;
use crate::resource_binding;
use crate::session_manager;
use crate::session_manager::SessionManager;
use crate::stanza_parser;
use crate::text;

verus! {

/// The server's stream header and the login mechanisms it offers (PLAIN).
pub open spec fn initial_stream() -> Seq<char> {
    "\
        <?xml version='1.0' ?>\
        <stream:stream \
            from='127.0.0.1' \
            id='someid' \
            xmlns='jabber:client' \
            xmlns:stream='http://etherx.jabber.org/streams' \
            version='1.0' \
        >"@ + "\
        <stream:features>\
            <mechanisms xmlns='urn:ietf:params:xml:ns:xmpp-sasl'>\
                <mechanism>PLAIN</mechanism>\
            </mechanisms>\
        </stream:features>"@
}

/// The server's stream header and the login mechanisms it offers.
pub fn send_initial_stream() -> (out: String)
    ensures
        out@ == initial_stream(),
{
    let mut out = String::from_str(
        "\
        <?xml version='1.0' ?>\
        <stream:stream \
            from='127.0.0.1' \
            id='someid' \
            xmlns='jabber:client' \
            xmlns:stream='http://etherx.jabber.org/streams' \
            version='1.0' \
        >",
    );
    out.append(
        "\
        <stream:features>\
            <mechanisms xmlns='urn:ietf:params:xml:ns:xmpp-sasl'>\
                <mechanism>PLAIN</mechanism>\
            </mechanisms>\
        </stream:features>",
    );
    out
}

/// What to do with input received before login.
pub enum LoginStep {
    /// Send this and keep waiting for a login.
    Send(String),
    /// Send `answer`: `username` is logged in and binding starts.
    LoggedIn { username: String, answer: String },
    /// The client closed its stream: close the connection.
    Close,
    /// Nothing to do.
    Ignore,
    /// An `<auth>` without readable SASL PLAIN credentials: the connection is dropped.
    Malformed,
}

/// `username` with `password` is a stored account.
pub open spec fn login_correct(accounts: Map<Seq<char>, Seq<char>>, username: Seq<char>, password: Seq<char>) -> bool {
    accounts.contains_key(username) && accounts[username] == password
}

/// The step taken on `input` before login, against `accounts`.
pub open spec fn login_step_is(step: LoginStep, accounts: Map<Seq<char>, Seq<char>>, input: Seq<char>) -> bool {
    if text::starts_with(input, "<stream:stream"@) {
        step matches LoginStep::Send(s) && s@ == initial_stream()
    } else if text::starts_with(input, "<auth"@) {
        match auth::login_credentials(input) {
            None => step is Malformed,
            Some((realm, username, password)) => if login_correct(accounts, username, password)
                && username.len() > 0 {
                step matches LoginStep::LoggedIn { username: u, answer: a } && u@ == username && a@
                    == auth::sasl_success()
            } else if login_correct(accounts, username, password) {
                step matches LoginStep::Send(s) && s@ == auth::sasl_success()
            } else {
                step matches LoginStep::Send(s) && s@ == auth::sasl_failure()
            },
        }
    } else if text::starts_with(input, "</stream:stream>"@) {
        step is Close
    } else {
        step is Ignore
    }
}

/// An `<auth>` element is no stream opening.
proof fn lemma_auth_is_not_stream_opening(input: Seq<char>)
    requires
        text::starts_with(input, "<auth"@),
    ensures
        !text::starts_with(input, "<stream:stream"@),
{
    reveal_strlit("<auth");
    reveal_strlit("<stream:stream");
    assert(input.take(5)[1] == 'a');
    if text::starts_with(input, "<stream:stream"@) {
        assert(input.take(14)[1] == 's');
        assert(input[1] == 'a');
    }
}

/// The realm an `<auth>` carries plays no part in the login: two `<auth>`
/// elements with the same user name and password, whatever their realms, lead
/// to the same steps.
pub proof fn law_login_step_ignores_realm(
    step: LoginStep,
    accounts: Map<Seq<char>, Seq<char>>,
    a: Seq<char>,
    b: Seq<char>,
    realm_a: Seq<char>,
    realm_b: Seq<char>,
    username: Seq<char>,
    password: Seq<char>,
)
    requires
        text::starts_with(a, "<auth"@),
        text::starts_with(b, "<auth"@),
        auth::login_credentials(a) == Some((realm_a, username, password)),
        auth::login_credentials(b) == Some((realm_b, username, password)),
    ensures
        login_step_is(step, accounts, a) <==> login_step_is(step, accounts, b),
{
    lemma_auth_is_not_stream_opening(a);
    lemma_auth_is_not_stream_opening(b);
}

/// An `<auth>` whose user name is not empty and is stored with its password
/// logs in, whatever its realm: the step is `LoggedIn` with that user name and
/// the success answer. With any other password it stays in the login phase
/// with the failure answer.
pub proof fn law_stored_account_logs_in(
    step: LoginStep,
    accounts: Map<Seq<char>, Seq<char>>,
    input: Seq<char>,
    realm: Seq<char>,
    username: Seq<char>,
    password: Seq<char>,
)
    requires
        text::starts_with(input, "<auth"@),
        auth::login_credentials(input) == Some((realm, username, password)),
        username.len() > 0,
        accounts.contains_key(username),
        login_step_is(step, accounts, input),
    ensures
        accounts[username] == password ==> (step matches LoginStep::LoggedIn { username: u, answer: a } && u@
            == username && a@ == auth::sasl_success()),
        accounts[username] != password ==> (step matches LoginStep::Send(s) && s@ == auth::sasl_failure()),
{
    lemma_auth_is_not_stream_opening(input);
}

/// Decides what to do with `input` received before login: a stream opening is
/// answered with the server's stream and mechanisms, an `<auth>` is checked
/// against `account_storer` (a successful login with a non-empty user name
/// ends this phase), a stream end closes the connection, anything else is ignored.
pub fn login_step(account_storer: &JsonAccountStorer, input: &str) -> (step: LoginStep)
    ensures
        login_step_is(step, account_storer.accounts(), input@),
{
    if text::str_starts_with(input, "<stream:stream") {
        LoginStep::Send(send_initial_stream())
    } else if text::str_starts_with(input, "<auth") {
        if auth::find_login_credentials(input).is_none() {
            LoginStep::Malformed
        } else {
            let outcome = auth::treat_login(account_storer, input);
            if outcome.username.as_str().unicode_len() > 0 {
                LoginStep::LoggedIn { username: outcome.username, answer: outcome.answer }
            } else {
                LoginStep::Send(outcome.answer)
            }
        }
    } else if text::str_starts_with(input, "</stream:stream>") {
        LoginStep::Close
    } else {
        LoginStep::Ignore
    }
}

/// What to do with input received while binding a resource.
pub enum BindStep {
    /// Send this and keep waiting for the bind request.
    Send(String),
    /// Send `reply`: `resource` is bound and the session starts.
    Bound { resource: String, reply: String },
    /// Close the connection.
    Close,
    /// A request that cannot be read: the connection is dropped.
    Malformed,
}

/// The step taken on `input` while binding.
pub open spec fn bind_step_is(step: BindStep, input: Seq<char>) -> bool {
    if text::starts_with(input, "<stream:stream"@) {
        step matches BindStep::Send(s) && s@ == resource_binding::binding_stream_start()
    } else if text::starts_with(input, "<iq "@) {
        if !resource_binding::bind_request_readable(input) {
            step is Malformed
        } else if iq_parser::iq_first_child_of(input) == Some("bind"@) {
            step matches BindStep::Bound { resource: r, reply: p } && Some(r@)
                == resource_binding::bind_resource_of(input) && p@
                == resource_binding::binding_result_of(r@, iq_parser::iq_id_of(input).unwrap())
        } else {
            step is Close
        }
    } else {
        step is Close
    }
}

/// Decides what to do with `input` received while binding: a stream opening is
/// answered with the binding features, a bind request binds its resource, any
/// other request or input closes the connection.
pub fn bind_step(input: &str) -> (step: BindStep)
    ensures
        bind_step_is(step, input@),
{
    if text::str_starts_with(input, "<stream:stream") {
        BindStep::Send(resource_binding::start())
    } else if text::str_starts_with(input, "<iq ") {
        if !resource_binding::bind_request_is_readable(input) {
            BindStep::Malformed
        } else {
            match resource_binding::treat(input) {
                Some(binding) => BindStep::Bound { resource: binding.resource, reply: binding.reply },
                None => BindStep::Close,
            }
        }
    } else {
        BindStep::Close
    }
}

/// The address of `username` once `resource` is bound: `username@localhost/resource`.
pub open spec fn bound_jid(username: Seq<char>, resource: Seq<char>) -> Seq<char> {
    username + "@"@ + iq_router::DOMAIN@ + "/"@ + resource
}

/// The full address of `username` bound to `resource`.
pub fn full_jid_of(username: &str, resource: &str) -> (jid: String)
    ensures
        jid@ == bound_jid(username@, resource@),
{
    let mut jid = String::from_str(username);
    jid.append("@");
    jid.append(iq_router::DOMAIN);
    jid.append("/");
    jid.append(resource);
    jid
}

/// A message that a bound user sends to their own bare address
/// (`username@localhost`) or to their full address comes back on their own stream.
pub proof fn law_message_to_self_comes_back(
    username: Seq<char>,
    resource: Seq<char>,
    message: Seq<char>,
    route: message_router::MessageRoute,
)
    requires
        !text::occurs(username, '@'),
        stanza_parser::root_attribute_of(message, "to"@) == Some(username + "@"@ + iq_router::DOMAIN@)
            || stanza_parser::root_attribute_of(message, "to"@) == Some(
            bound_jid(username, resource),
        ),
        message_router::message_route_is(route, bound_jid(username, resource), message),
    ensures
        route is DeliverToSelf,
{
    reveal_strlit("@");
    reveal_strlit("/");
    reveal_strlit("localhost");
    let domain = iq_router::DOMAIN@;
    assert(!text::occurs(domain, '/'));
    assert("@"@ =~= seq!['@']);
    assert("/"@ =~= seq!['/']);
    let jid = bound_jid(username, resource);
    assert(jid =~= username + seq!['@'] + domain + seq!['/'] + resource);
    message_router::law_bare_jid_drops_resource(username, domain, resource);
    assert(username + "@"@ + domain =~= username + seq!['@'] + domain);
}

/// A message that a bound user sends to the full address of another bound
/// session is forwarded and kept in that session, after what waited there,
/// as the chat message from the sender carrying the message's content.
pub proof fn law_message_reaches_bound_recipient(
    sender: Seq<char>,
    message: Seq<char>,
    route: message_router::MessageRoute,
    before: session_manager::Registry,
    after: session_manager::Registry,
    domain: Seq<char>,
    username: Seq<char>,
    resource: Seq<char>,
)
    requires
        session_manager::sessions_match_keys(before),
        session_manager::registry_has_session(before, domain, username, resource),
        !text::occurs(username, '@'),
        !text::occurs(domain, '/'),
        stanza_parser::root_attribute_of(message, "to"@) == Some(before[domain][username][resource].full_jid),
        message_router::message_readable(message),
        sender != before[domain][username][resource].full_jid,
        message_router::bare_jid(sender) != before[domain][username][resource].full_jid,
        message_router::message_route_is(route, sender, message),
        message_router::route_delivers(route, before, after),
    ensures
        route matches message_router::MessageRoute::Forward { delivered, .. } && delivered,
        session_manager::pending_of(after, domain, username, resource) == session_manager::pending_of(
            before,
            domain,
            username,
            resource,
        ).push(
            message_router::chat_message_of(
                sender,
                before[domain][username][resource].full_jid,
                stanza_parser::inside_of(message).unwrap(),
            ),
        ),
{
    let stanza = message_router::chat_message_of(
        sender,
        before[domain][username][resource].full_jid,
        stanza_parser::inside_of(message).unwrap(),
    );
    session_manager::law_delivery_reaches_addressed_session(
        before,
        domain,
        username,
        resource,
        stanza,
        domain,
        username,
        resource,
    );
}

/// What to do with a stanza from a bound client.
pub enum StanzaAction {
    /// An `<iq>`: send back the reply of this route.
    Iq(iq_router::IqRoute),
    /// A `<message>`, routed so.
    Message(message_router::MessageRoute),
    /// A `<presence>`: it is not routed.
    Presence,
    /// Anything else: nothing to do.
    Unhandled,
    /// A stanza that cannot be read: the connection is dropped.
    Malformed,
}

/// A stanza that opens a `<presence>`.
pub open spec fn is_presence(stanza: Seq<char>) -> bool {
    text::starts_with(stanza, "<presence>"@) || text::starts_with(stanza, "<presence "@)
        || text::starts_with(stanza, "<presence/>"@)
}

/// The action taken on `stanza` from the client bound as `full_jid`.
pub open spec fn stanza_action_is(action: StanzaAction, full_jid: Seq<char>, stanza: Seq<char>) -> bool {
    if text::starts_with(stanza, "<iq "@) {
        if iq_parser::iq_first_child_of(stanza) is Some && iq_parser::iq_id_of(stanza) is Some {
            action matches StanzaAction::Iq(route) && route.handling == iq_router::iq_handling_of(
                iq_parser::iq_first_child_of(stanza).unwrap(),
            ) && route.reply@ == iq_router::dummy_iq_result_of(iq_parser::iq_id_of(stanza).unwrap())
        } else {
            action is Malformed
        }
    } else if text::starts_with(stanza, "<message "@) {
        if message_router::message_readable(stanza) {
            action matches StanzaAction::Message(route) && message_router::message_route_is(
                route,
                full_jid,
                stanza,
            )
        } else {
            action is Malformed
        }
    } else if is_presence(stanza) {
        action is Presence
    } else {
        action is Unhandled
    }
}

/// Decides what to do with `stanza` from the client bound as `full_jid`:
/// `<iq>` stanzas are answered, `<message>` stanzas routed through `sessions`
/// (a message for another user is kept for their session),
/// `<presence>` stanzas left alone, anything else ignored.
pub fn dispatch_stanza<S: SessionManager>(full_jid: &str, sessions: &mut S, stanza: &str) -> (action:
    StanzaAction)
    ensures
        stanza_action_is(action, full_jid@, stanza@),
        match action {
            StanzaAction::Message(route) => message_router::route_delivers(
                route,
                old(sessions).sessions(),
                final(sessions).sessions(),
            ),
            _ => final(sessions).sessions() == old(sessions).sessions(),
        },
{
    if text::str_starts_with(stanza, "<iq ") {
        if iq_parser::find_iq_first_child(stanza).is_some() && iq_parser::find_iq_id(stanza).is_some() {
            StanzaAction::Iq(iq_router::route_iq(stanza))
        } else {
            StanzaAction::Malformed
        }
    } else if text::str_starts_with(stanza, "<message ") {
        if message_router::message_is_readable(stanza) {
            StanzaAction::Message(message_router::route_message(full_jid, sessions, stanza))
        } else {
            StanzaAction::Malformed
        }
    } else if text::str_starts_with(stanza, "<presence>") || text::str_starts_with(
        stanza,
        "<presence ",
    ) || text::str_starts_with(stanza, "<presence/>") {
        StanzaAction::Presence
    } else {
        StanzaAction::Unhandled
    }
}


} // verus!
