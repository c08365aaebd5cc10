//! What the server answers to an `<iq>` stanza once the session is bound.
use vstd::prelude::*;
use crate::iq_parser;
use crate::text;

verus! {

/// The domain this server answers for.
pub const DOMAIN: &'static str = "localhost";

/// The result stanza answering the request with id `id`: an empty `<iq>` of
/// type `result` from the server's domain, with the same id.
pub open spec fn dummy_iq_result_of(id: Seq<char>) -> Seq<char> {
    "<iq from='"@ + DOMAIN@ + "' type='result' id='"@ + id + "'/>"@
}

/// How an `<iq>` is handled, by the name of its first child.
#[derive(PartialEq, Eq, Structural, Debug)]
pub enum IqHandling {
    /// `<session/>`: session establishment.
    Session,
    /// `<ping/>` (XEP-0199).
    Ping,
    /// Anything else; it is still answered with an empty result.
    Unhandled,
}

/// The handling of an `<iq>` whose first child is named `child`.
pub open spec fn iq_handling_of(child: Seq<char>) -> IqHandling {
    if child == "session"@ {
        IqHandling::Session
    } else if child == "ping"@ {
        IqHandling::Ping
    } else {
        IqHandling::Unhandled
    }
}

/// The decision taken for an `<iq>`: how it was handled and the stanza to send back.
pub struct IqRoute {
    pub handling: IqHandling,
    pub reply: String,
}

/// An id read from a request holds no `'` and no `>`.
pub proof fn lemma_read_id_is_quotable(iq: Seq<char>)
    ensures
        iq_parser::iq_id_of(iq) matches Some(id) ==> !text::occurs(id, '\'') && !text::occurs(
            id,
            '>',
        ),
{
    let tag = text::before_first(iq, '>');
    text::lemma_cut_parts_lack(iq, '>', '>');
    text::lemma_piece_lacks(tag, ' ', 3, seq!['i', 'd', '='], '>');
    match text::piece_with_prefix_limited(tag, ' ', 3, seq!['i', 'd', '=']) {
        Some(attr) => text::lemma_quoted_value_lacks(attr, '>'),
        None => {},
    }
}

/// The result answering a request carries the request's id: reading the id of
/// the result gives back the id of the request.
pub proof fn law_result_carries_request_id(iq: Seq<char>)
    requires
        iq_parser::iq_id_of(iq) is Some,
    ensures
        iq_parser::iq_id_of(dummy_iq_result_of(iq_parser::iq_id_of(iq).unwrap())) == iq_parser::iq_id_of(iq),
{
    lemma_read_id_is_quotable(iq);
    lemma_result_id(iq_parser::iq_id_of(iq).unwrap());
}

/// Reading the id of the result for `id` gives `id` back.
proof fn lemma_result_id(id: Seq<char>)
    requires
        !text::occurs(id, '\''),
        !text::occurs(id, '>'),
    ensures
        iq_parser::iq_id_of(dummy_iq_result_of(id)) == Some(id),
{
    let a0 = seq!['<', 'i', 'q'];
    let a1 = seq!['f', 'r', 'o', 'm', '=', '\'', 'l', 'o', 'c', 'a', 'l', 'h', 'o', 's', 't', '\''];
    let a2 = seq!['t', 'y', 'p', 'e', '=', '\'', 'r', 'e', 's', 'u', 'l', 't', '\''];
    let idp = seq!['i', 'd', '='];
    let tail = seq!['\'', '/'];
    let t3 = idp + seq!['\''] + (id + tail);
    let t2 = a2 + seq![' '] + t3;
    let t1 = a1 + seq![' '] + t2;
    let tag = a0 + seq![' '] + t1;
    let s = dummy_iq_result_of(id);
    assert(s =~= tag + seq!['>'] + Seq::<char>::empty()) by {
        reveal_strlit("<iq from='");
        reveal_strlit("localhost");
        reveal_strlit("' type='result' id='");
        reveal_strlit("'/>");
    }
    assert(!text::occurs(tag, '>')) by {
        assert(!text::occurs(a0, '>'));
        assert(!text::occurs(a1, '>'));
        assert(!text::occurs(a2, '>'));
        assert(!text::occurs(idp, '>'));
        assert(!text::occurs(tail, '>'));
        assert(!text::occurs(seq![' '], '>'));
        assert(!text::occurs(seq!['\''], '>'));
        text::lemma_occurs_concat(id, tail, '>');
        text::lemma_occurs_concat(idp, seq!['\''], '>');
        text::lemma_occurs_concat(idp + seq!['\''], id + tail, '>');
        text::lemma_occurs_concat(a2, seq![' '], '>');
        text::lemma_occurs_concat(a2 + seq![' '], t3, '>');
        text::lemma_occurs_concat(a1, seq![' '], '>');
        text::lemma_occurs_concat(a1 + seq![' '], t2, '>');
        text::lemma_occurs_concat(a0, seq![' '], '>');
        text::lemma_occurs_concat(a0 + seq![' '], t1, '>');
    }
    assert(!text::occurs(a0, ' '));
    assert(!text::occurs(a1, ' '));
    assert(!text::occurs(a2, ' '));
    assert(!text::occurs(idp, '\''));
    text::lemma_cut_join(tag, '>', Seq::<char>::empty());
    assert(!text::starts_with(a0, idp)) by {
        assert(a0.take(3)[0] != idp[0]);
    }
    assert(!text::starts_with(a1, idp)) by {
        assert(a1.take(3)[0] != idp[0]);
    }
    assert(!text::starts_with(a2, idp)) by {
        assert(a2.take(3)[0] != idp[0]);
    }
    assert(t3.take(3) =~= idp);
    text::lemma_fourth_piece(a0, a1, a2, t3, idp);
    text::lemma_cut_join(idp, '\'', id + tail);
    assert(id + tail =~= id + seq!['\''] + seq!['/']);
    text::lemma_cut_join(id, '\'', seq!['/']);
}

/// The empty result answering `iq`, carrying its id.
pub fn send_dummy_iq_result(iq: &str) -> (reply: String)
    requires
        iq_parser::iq_id_of(iq@) is Some,
    ensures
        reply@ == dummy_iq_result_of(iq_parser::iq_id_of(iq@).unwrap()),
{
    let id = iq_parser::get_iq_id(iq);
    let mut reply = String::from_str("<iq from='");
    reply.append(DOMAIN);
    reply.append("' type='result' id='");
    reply.append(id.as_str());
    reply.append("'/>");
    reply
}

/// The answer to a session establishment request.
pub fn treat_session(session_iq: &str) -> (reply: String)
    requires
        iq_parser::iq_id_of(session_iq@) is Some,
    ensures
        reply@ == dummy_iq_result_of(iq_parser::iq_id_of(session_iq@).unwrap()),
{
    send_dummy_iq_result(session_iq)
}

/// The answer to a ping: as XEP-0199 says, a pong is an empty result.
pub fn treat_ping(ping_iq: &str) -> (reply: String)
    requires
        iq_parser::iq_id_of(ping_iq@) is Some,
    ensures
        reply@ == dummy_iq_result_of(iq_parser::iq_id_of(ping_iq@).unwrap()),
{
    send_dummy_iq_result(ping_iq)
}

/// Routes an `<iq>` by its first child: every request is answered with an
/// empty result carrying its id; the handling says which kind it was.
pub fn route_iq(iq: &str) -> (route: IqRoute)
    requires
        iq_parser::iq_first_child_of(iq@) is Some,
        iq_parser::iq_id_of(iq@) is Some,
    ensures
        route.handling == iq_handling_of(iq_parser::iq_first_child_of(iq@).unwrap()),
        route.reply@ == dummy_iq_result_of(iq_parser::iq_id_of(iq@).unwrap()),
{
    let child = iq_parser::get_iq_first_child(iq);
    if text::str_equal(child.as_str(), "session") {
        IqRoute { handling: IqHandling::Session, reply: treat_session(iq) }
    } else if text::str_equal(child.as_str(), "ping") {
        IqRoute { handling: IqHandling::Ping, reply: treat_ping(iq) }
    } else {
        IqRoute { handling: IqHandling::Unhandled, reply: send_dummy_iq_result(iq) }
    }
}

} // verus!
