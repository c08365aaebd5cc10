//! Routing a `<message>` stanza sent by the connected user.
use vstd::prelude::*;
use crate::session_manager;
use crate::session_manager::SessionManager;
use crate::stanza_parser;
use crate::text;

verus! {

/// The user part of an address: the text before the first `@`.
pub open spec fn jid_user(jid: Seq<char>) -> Seq<char> {
    text::before_first(jid, '@')
}

/// The domain part of an address: after the first `@` (nothing when there is
/// none), up to the first `/`.
pub open spec fn jid_domain(jid: Seq<char>) -> Seq<char> {
    match text::after_first(jid, '@') {
        Some(tail) => text::before_first(tail, '/'),
        None => Seq::empty(),
    }
}

/// The bare form `user@domain` of an address.
pub open spec fn bare_jid(jid: Seq<char>) -> Seq<char> {
    jid_user(jid) + seq!['@'] + jid_domain(jid)
}

/// The chat message from `from` to `to` that carries `content`.
pub open spec fn chat_message_of(from: Seq<char>, to: Seq<char>, content: Seq<char>) -> Seq<char> {
    "<message from='"@ + from + "' to='"@ + to + "' type='chat'>"@ + content + "</message>"@
}

/// `message` can be routed as `route_message` reads it: when it names a
/// recipient, its content can be read too.
pub open spec fn message_readable(message: Seq<char>) -> bool {
    stanza_parser::root_attribute_of(message, "to"@) is Some ==> stanza_parser::inside_of(message) is Some
}

/// Where a message goes.
pub enum MessageRoute {
    /// It names no recipient and is dropped.
    Ignore,
    /// It is addressed to the sender's own bare or full address, and this
    /// stanza goes back on the sender's stream.
    DeliverToSelf(String),
    /// It is addressed to someone else and was handed to the session manager
    /// as this stanza; `delivered` tells whether a bound session has that
    /// full address and now holds it.
    Forward { to: String, stanza: String, delivered: bool },
}

/// The route of `message` sent by `current_user` (a full address).
pub open spec fn message_route_is(route: MessageRoute, current_user: Seq<char>, message: Seq<char>) -> bool {
    match stanza_parser::root_attribute_of(message, "to"@) {
        None => route is Ignore,
        Some(to) => {
            let stanza = chat_message_of(current_user, to, stanza_parser::inside_of(message).unwrap());
            if bare_jid(current_user) == to || current_user == to {
                route matches MessageRoute::DeliverToSelf(s) && s@ == stanza
            } else {
                route matches MessageRoute::Forward { to: t, stanza: s, .. } && t@ == to && s@ == stanza
            }
        },
    }
}

/// The bare address `user@domain` of `jid`.
pub fn bare_jid_of(jid: &str) -> (bare: String)
    ensures
        bare@ == bare_jid(jid@),
{
    let v = text::chars_of(jid);
    let n = v.len();
    proof {
        assert(v@.subrange(0, n as int) =~= v@);
    }
    let user_end = text::end_before_first(&v, 0, n, '@');
    let mut bare = text::substring(jid, 0, user_end);
    bare.append("@");
    match text::find_first(&v, 0, n, '@') {
        Some(at) => {
            proof {
                text::lemma_window_cut(v@, 0, n as int, '@', at as int);
            }
            let domain_end = text::end_before_first(&v, at + 1, n, '/');
            let domain = text::substring(jid, at + 1, domain_end);
            bare.append(domain.as_str());
        },
        None => {},
    }
    proof {
        reveal_strlit("@");
        assert("@"@ =~= seq!['@']);
        assert(bare@ =~= bare_jid(jid@));
    }
    bare
}

/// The message rebuilt for routing names its sender and its recipient: its
/// `from` and `to` attributes read back as given.
pub proof fn law_chat_message_names_sender_and_recipient(
    from: Seq<char>,
    to: Seq<char>,
    content: Seq<char>,
)
    requires
        stanza_parser::plain_value(from),
        stanza_parser::plain_value(to),
    ensures
        stanza_parser::root_attribute_of(chat_message_of(from, to, content), "from"@) == Some(from),
        stanza_parser::root_attribute_of(chat_message_of(from, to, content), "to"@) == Some(to),
{
    reveal_strlit("<message from='");
    reveal_strlit("' to='");
    reveal_strlit("' type='chat'>");
    reveal_strlit("from");
    reveal_strlit("to");
    let q = seq!['\''];
    let a0 = seq!['<', 'm', 'e', 's', 's', 'a', 'g', 'e'];
    let fp = seq!['f', 'r', 'o', 'm', '='];
    let tp = seq!['t', 'o', '='];
    let a3 = seq!['t', 'y', 'p', 'e', '=', '\'', 'c', 'h', 'a', 't', '\''];
    let a1 = fp + q + from + q;
    let a2 = tp + q + to + q;
    let t2 = a2 + seq![' '] + a3;
    let t1 = a1 + seq![' '] + t2;
    let tag = a0 + seq![' '] + t1;
    let s = chat_message_of(from, to, content);
    assert(s =~= tag + seq!['>'] + (content + "</message>"@));
    assert(!text::occurs(a0, '>') && !text::occurs(a0, ' '));
    assert(!text::occurs(fp, '>') && !text::occurs(fp, ' ') && !text::occurs(fp, '\''));
    assert(!text::occurs(tp, '>') && !text::occurs(tp, ' ') && !text::occurs(tp, '\''));
    assert(!text::occurs(a3, '>') && !text::occurs(a3, ' '));
    assert(!text::occurs(q, '>') && !text::occurs(q, ' '));
    assert(!text::occurs(seq![' '], '>'));
    text::lemma_occurs_concat(fp, q, '>');
    text::lemma_occurs_concat(fp + q, from, '>');
    text::lemma_occurs_concat(fp + q + from, q, '>');
    text::lemma_occurs_concat(fp, q, ' ');
    text::lemma_occurs_concat(fp + q, from, ' ');
    text::lemma_occurs_concat(fp + q + from, q, ' ');
    text::lemma_occurs_concat(tp, q, '>');
    text::lemma_occurs_concat(tp + q, to, '>');
    text::lemma_occurs_concat(tp + q + to, q, '>');
    text::lemma_occurs_concat(tp, q, ' ');
    text::lemma_occurs_concat(tp + q, to, ' ');
    text::lemma_occurs_concat(tp + q + to, q, ' ');
    text::lemma_occurs_concat(a2, seq![' '], '>');
    text::lemma_occurs_concat(a2 + seq![' '], a3, '>');
    text::lemma_occurs_concat(a1, seq![' '], '>');
    text::lemma_occurs_concat(a1 + seq![' '], t2, '>');
    text::lemma_occurs_concat(a0, seq![' '], '>');
    text::lemma_occurs_concat(a0 + seq![' '], t1, '>');
    text::lemma_cut_join(tag, '>', content + "</message>"@);
    let from_name = "from"@;
    let to_name = "to"@;
    assert(from_name =~= seq!['f', 'r', 'o', 'm']);
    assert(to_name =~= seq!['t', 'o']);
    assert(!text::starts_with(a0, from_name)) by {
        assert(a0.take(4)[0] != from_name[0]);
    }
    assert(!text::starts_with(a0, to_name)) by {
        assert(a0.take(2)[0] != to_name[0]);
    }
    assert(!text::starts_with(a1, to_name)) by {
        assert(a1.take(2)[0] != to_name[0]);
    }
    assert(a1.take(4) =~= from_name);
    assert(a2.take(2) =~= to_name);
    text::lemma_piece_skip(a0, ' ', t1, from_name);
    text::lemma_piece_found(a1, ' ', t2, from_name);
    text::lemma_piece_skip(a0, ' ', t1, to_name);
    text::lemma_piece_skip(a1, ' ', t2, to_name);
    text::lemma_piece_found(a2, ' ', a3, to_name);
    assert(a1 =~= fp + q + (from + q));
    text::lemma_cut_join(fp, '\'', from + q);
    assert(from + q =~= from + q + Seq::<char>::empty());
    text::lemma_cut_join(from, '\'', Seq::<char>::empty());
    assert(a2 =~= tp + q + (to + q));
    text::lemma_cut_join(tp, '\'', to + q);
    assert(to + q =~= to + q + Seq::<char>::empty());
    text::lemma_cut_join(to, '\'', Seq::<char>::empty());
}

/// Routing keeps a message's content: the content of the rebuilt message is
/// the content it was built around, when neither address holds a `>`.
pub proof fn law_chat_message_keeps_content(from: Seq<char>, to: Seq<char>, content: Seq<char>)
    requires
        !text::occurs(from, '>'),
        !text::occurs(to, '>'),
    ensures
        stanza_parser::inside_of(chat_message_of(from, to, content)) == Some(content),
{
    reveal_strlit("<message from='");
    reveal_strlit("' to='");
    reveal_strlit("' type='chat'>");
    reveal_strlit("</message>");
    let tag = "<message from='"@ + from + "' to='"@ + to + "' type='chat'"@;
    let s = chat_message_of(from, to, content);
    let closing = seq!['/', 'm', 'e', 's', 's', 'a', 'g', 'e', '>'];
    reveal_strlit("' type='chat'");
    assert("' type='chat'>"@ =~= "' type='chat'"@ + seq!['>']);
    assert("</message>"@ =~= seq!['<'] + closing);
    assert(s =~= tag + seq!['>'] + (content + seq!['<'] + closing));
    let l0 = "<message from='"@;
    let l1 = "' to='"@;
    let l2 = "' type='chat'"@;
    assert(!text::occurs(l0, '>'));
    assert(!text::occurs(l1, '>'));
    assert(!text::occurs(l2, '>'));
    text::lemma_occurs_concat(l0, from, '>');
    text::lemma_occurs_concat(l0 + from, l1, '>');
    text::lemma_occurs_concat(l0 + from + l1, to, '>');
    text::lemma_occurs_concat(l0 + from + l1 + to, l2, '>');
    text::lemma_cut_join(tag, '>', content + seq!['<'] + closing);
    assert(!text::occurs(closing, '<'));
    text::lemma_cut_last_join(content, '<', closing);
}

/// The bare form of `user@domain/resource` is `user@domain`.
pub proof fn law_bare_jid_drops_resource(user: Seq<char>, domain: Seq<char>, resource: Seq<char>)
    requires
        !text::occurs(user, '@'),
        !text::occurs(domain, '/'),
    ensures
        bare_jid(user + seq!['@'] + domain + seq!['/'] + resource) == user + seq!['@'] + domain,
{
    let jid = user + seq!['@'] + domain + seq!['/'] + resource;
    assert(jid =~= user + seq!['@'] + (domain + seq!['/'] + resource));
    text::lemma_cut_join(user, '@', domain + seq!['/'] + resource);
    text::lemma_cut_join(domain, '/', resource);
}

/// Whether `message` is as `route_message` reads it (`message_readable`).
pub fn message_is_readable(message: &str) -> (readable: bool)
    ensures
        readable == message_readable(message@),
{
    match stanza_parser::get_root_attribute(message, "to") {
        None => true,
        Some(_) => stanza_parser::find_inside(message).is_some(),
    }
}

/// How routing changed the registry: a forwarded stanza was pushed to its
/// recipient's address (`delivered` telling whether a bound session has it);
/// any other route leaves the registry as it was.
pub open spec fn route_delivers(
    route: MessageRoute,
    before: session_manager::Registry,
    after: session_manager::Registry,
) -> bool {
    match route {
        MessageRoute::Forward { to, stanza, delivered } => delivered == session_manager::registry_addresses(
            before,
            to@,
        ) && after == session_manager::registry_deliver(before, to@, stanza@),
        _ => after == before,
    }
}

/// Routes `message` sent by `current_user`: a message without a `to` is
/// dropped; one addressed to the sender comes back on their stream; any other
/// is pushed to `sessions`, which keeps it for the session bound at that full
/// address. The stanza is rebuilt as a chat message from the
/// sender to the recipient around the content it received.
pub fn route_message<S: SessionManager>(current_user: &str, sessions: &mut S, message: &str) -> (route:
    MessageRoute)
    requires
        message_readable(message@),
    ensures
        message_route_is(route, current_user@, message@),
        route_delivers(route, old(sessions).sessions(), final(sessions).sessions()),
{
    let to = match stanza_parser::get_root_attribute(message, "to") {
        Some(to) => to,
        None => {
            return MessageRoute::Ignore;
        },
    };
    let content = stanza_parser::get_inside(message);
    let mut stanza = String::from_str("<message from='");
    stanza.append(current_user);
    stanza.append("' to='");
    stanza.append(to.as_str());
    stanza.append("' type='chat'>");
    stanza.append(content.as_str());
    stanza.append("</message>");
    let bare = bare_jid_of(current_user);
    if text::str_equal(bare.as_str(), to.as_str()) || text::str_equal(current_user, to.as_str()) {
        MessageRoute::DeliverToSelf(stanza)
    } else {
        let delivered = sessions.push_to(to.as_str(), stanza.as_str());
        MessageRoute::Forward { to, stanza, delivered }
    }
}

} // verus!
