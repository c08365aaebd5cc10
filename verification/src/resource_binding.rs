//! Resource binding: after login the client opens a new stream and binds a
//! resource, which completes its address.
use vstd::prelude::*;
use crate::iq_parser;
use crate::iq_router::DOMAIN;
use crate::text;

verus! {

/// The stream header and the features (resource binding) sent when the client
/// opens its stream after login.
pub open spec fn binding_stream_start() -> Seq<char> {
    "\
        <stream:stream xmlns='jabber:client' \
            xmlns:stream='http://etherx.jabber.org/streams' \
            id='c2s_345' \
            from='localhost' \
            version='1.0'
        >"@ + "\
        <stream:features> \
            <bind xmlns='urn:ietf:params:xml:ns:xmpp-bind'/> \
        </stream:features>"@
}

/// The resource a bind request asks for: the text after the third `>` up to
/// the next `<`; nothing when the request holds fewer than three `>`.
pub open spec fn bind_resource_of(iq: Seq<char>) -> Option<Seq<char>> {
    match text::after_first(iq, '>') {
        Some(r1) => match text::after_first(r1, '>') {
            Some(r2) => match text::after_first(r2, '>') {
                Some(r3) => Some(text::before_first(r3, '<')),
                None => None,
            },
            None => None,
        },
        None => None,
    }
}

/// Cutting `a > b > c > tail` three times at `>` leaves `tail`.
proof fn lemma_third_tag_tail(a: Seq<char>, b: Seq<char>, c: Seq<char>, tail: Seq<char>)
    requires
        !text::occurs(a, '>'),
        !text::occurs(b, '>'),
        !text::occurs(c, '>'),
    ensures
        bind_resource_of(a + seq!['>'] + b + seq!['>'] + c + seq!['>'] + tail) == Some(
            text::before_first(tail, '<'),
        ),
{
    let t2 = c + seq!['>'] + tail;
    let t1 = b + seq!['>'] + t2;
    assert(a + seq!['>'] + b + seq!['>'] + c + seq!['>'] + tail =~= a + seq!['>'] + t1);
    text::lemma_cut_join(a, '>', t1);
    text::lemma_cut_join(b, '>', t2);
    text::lemma_cut_join(c, '>', tail);
}

/// The resource asked for is the whole text after the third `>`, up to the
/// next `<` (to the end when none follows), whatever it holds, spaces included.
pub proof fn law_bind_resource_is_text_after_third_tag(
    a: Seq<char>,
    b: Seq<char>,
    c: Seq<char>,
    resource: Seq<char>,
    rest: Seq<char>,
)
    requires
        !text::occurs(a, '>'),
        !text::occurs(b, '>'),
        !text::occurs(c, '>'),
        !text::occurs(resource, '<'),
    ensures
        bind_resource_of(
            a + seq!['>'] + b + seq!['>'] + c + seq!['>'] + resource + seq!['<'] + rest,
        ) == Some(resource),
        bind_resource_of(a + seq!['>'] + b + seq!['>'] + c + seq!['>'] + resource) == Some(resource),
{
    let tail = resource + seq!['<'] + rest;
    lemma_third_tag_tail(a, b, c, tail);
    assert(a + seq!['>'] + b + seq!['>'] + c + seq!['>'] + resource + seq!['<'] + rest =~= a + seq!['>'] + b
        + seq!['>'] + c + seq!['>'] + tail);
    text::lemma_cut_join(resource, '<', rest);
    lemma_third_tag_tail(a, b, c, resource);
    text::lemma_no_cut(resource, '<');
}

/// The resource a bind request asks for, or `None` when it holds fewer than three `>`.
pub fn find_bind_resource(iq: &str) -> (r: Option<String>)
    ensures
        match r {
            Some(resource) => bind_resource_of(iq@) == Some(resource@),
            None => bind_resource_of(iq@) is None,
        },
{
    let v = text::chars_of(iq);
    let n = v.len();
    proof {
        assert(v@.subrange(0, n as int) =~= v@);
    }
    let k1 = match text::find_first(&v, 0, n, '>') {
        Some(k) => k,
        None => {
            return None;
        },
    };
    proof {
        text::lemma_window_cut(v@, 0, n as int, '>', k1 as int);
    }
    let k2 = match text::find_first(&v, k1 + 1, n, '>') {
        Some(k) => k,
        None => {
            return None;
        },
    };
    proof {
        text::lemma_window_cut(v@, k1 + 1, n as int, '>', k2 as int);
    }
    let k3 = match text::find_first(&v, k2 + 1, n, '>') {
        Some(k) => k,
        None => {
            return None;
        },
    };
    proof {
        text::lemma_window_cut(v@, k2 + 1, n as int, '>', k3 as int);
    }
    let end = text::end_before_first(&v, k3 + 1, n, '<');
    proof {
        assert(v@.subrange(k3 + 1, end as int) == iq@.subrange(k3 + 1, end as int));
    }
    Some(text::substring(iq, k3 + 1, end))
}

/// The result of a bind carries the request's id: reading its id gives it back.
pub proof fn law_binding_result_carries_request_id(resource: Seq<char>, id: Seq<char>)
    requires
        crate::stanza_parser::plain_value(id),
    ensures
        iq_parser::iq_id_of(binding_result_of(resource, id)) == Some(id),
{
    reveal_strlit("<iq type='result' id='");
    reveal_strlit("'><bind xmlns='urn:ietf:params:xml:ns:xmpp-bind'><jid>him@");
    let lit = "'><bind xmlns='urn:ietf:params:xml:ns:xmpp-bind'><jid>him@"@;
    let after = lit.skip(2) + DOMAIN@ + "/"@ + resource + "</jid></bind></iq>"@;
    let a0 = seq!['<', 'i', 'q'];
    let a1 = seq!['t', 'y', 'p', 'e', '=', '\'', 'r', 'e', 's', 'u', 'l', 't', '\''];
    let idp = seq!['i', 'd', '='];
    let q = seq!['\''];
    let t3 = idp + q + (id + q);
    let t2 = a1 + seq![' '] + t3;
    let tag = a0 + seq![' '] + t2;
    assert(lit =~= seq!['\'', '>'] + lit.skip(2));
    assert(binding_result_of(resource, id) =~= tag + seq!['>'] + after);
    assert(!text::occurs(a0, '>') && !text::occurs(a0, ' '));
    assert(!text::occurs(a1, '>') && !text::occurs(a1, ' '));
    assert(!text::occurs(idp, '>') && !text::occurs(idp, ' ') && !text::occurs(idp, '\''));
    assert(!text::occurs(q, '>') && !text::occurs(q, ' '));
    assert(!text::occurs(seq![' '], '>'));
    text::lemma_occurs_concat(id, q, '>');
    text::lemma_occurs_concat(id, q, ' ');
    text::lemma_occurs_concat(idp, q, '>');
    text::lemma_occurs_concat(idp, q, ' ');
    text::lemma_occurs_concat(idp + q, id + q, '>');
    text::lemma_occurs_concat(idp + q, id + q, ' ');
    text::lemma_occurs_concat(a1, seq![' '], '>');
    text::lemma_occurs_concat(a1 + seq![' '], t3, '>');
    text::lemma_occurs_concat(a0, seq![' '], '>');
    text::lemma_occurs_concat(a0 + seq![' '], t2, '>');
    text::lemma_cut_join(tag, '>', after);
    text::lemma_cut_join(a0, ' ', t2);
    text::lemma_cut_join(a1, ' ', t3);
    text::lemma_no_cut(t3, ' ');
    assert(!text::starts_with(a0, idp)) by {
        assert(a0.take(3)[0] != idp[0]);
    }
    assert(!text::starts_with(a1, idp)) by {
        assert(a1.take(3)[0] != idp[0]);
    }
    assert(t3.take(3) =~= idp);
    assert(text::piece_with_prefix_limited(tag, ' ', 3, idp) == text::piece_with_prefix_limited(
        t2,
        ' ',
        2,
        idp,
    ));
    assert(text::piece_with_prefix_limited(t2, ' ', 2, idp) == text::piece_with_prefix_limited(
        t3,
        ' ',
        1,
        idp,
    ));
    assert(text::piece_with_prefix_limited(t3, ' ', 1, idp) == Some(t3));
    text::lemma_cut_join(idp, '\'', id + q);
    assert(id + q =~= id + q + Seq::<char>::empty());
    text::lemma_cut_join(id, '\'', Seq::<char>::empty());
}

/// Whether `iq` is as `treat` reads it (`bind_request_readable`).
pub fn bind_request_is_readable(iq: &str) -> (readable: bool)
    ensures
        readable == bind_request_readable(iq@),
{
    match iq_parser::find_iq_first_child(iq) {
        None => false,
        Some(child) => {
            if text::str_equal(child.as_str(), "bind") {
                find_bind_resource(iq).is_some() && iq_parser::find_iq_id(iq).is_some()
            } else {
                true
            }
        },
    }
}

/// The result of binding `resource` for the request with id `id`: the bound
/// address is `him@` the domain, then `/` and the resource.
pub open spec fn binding_result_of(resource: Seq<char>, id: Seq<char>) -> Seq<char> {
    "<iq type='result' id='"@ + id + "'><bind xmlns='urn:ietf:params:xml:ns:xmpp-bind'><jid>him@"@
        + DOMAIN@ + "/"@ + resource + "</jid></bind></iq>"@
}

/// `iq` can be treated as `treat` reads it: it has a first child and, when
/// that child is `bind`, a resource and an id.
pub open spec fn bind_request_readable(iq: Seq<char>) -> bool {
    &&& iq_parser::iq_first_child_of(iq) is Some
    &&& iq_parser::iq_first_child_of(iq) == Some("bind"@) ==> {
        &&& bind_resource_of(iq) is Some
        &&& iq_parser::iq_id_of(iq) is Some
    }
}

/// What binding a resource gives: the resource, and the result to send back.
pub struct Binding {
    pub resource: String,
    pub reply: String,
}

/// The stream header and features sent when the client restarts its stream
/// after login.
pub fn start() -> (out: String)
    ensures
        out@ == binding_stream_start(),
{
    let mut out = String::from_str(
        "\
        <stream:stream xmlns='jabber:client' \
            xmlns:stream='http://etherx.jabber.org/streams' \
            id='c2s_345' \
            from='localhost' \
            version='1.0'
        >",
    );
    out.append(
        "\
        <stream:features> \
            <bind xmlns='urn:ietf:params:xml:ns:xmpp-bind'/> \
        </stream:features>",
    );
    out
}

/// Treats an `<iq>` sent while binding: a request whose first child is `bind`
/// binds the resource it names; any other request is refused with `None`.
pub fn treat(iq: &str) -> (r: Option<Binding>)
    requires
        bind_request_readable(iq@),
    ensures
        r is Some == (iq_parser::iq_first_child_of(iq@) == Some("bind"@)),
        r matches Some(b) ==> {
            &&& Some(b.resource@) == bind_resource_of(iq@)
            &&& b.reply@ == binding_result_of(b.resource@, iq_parser::iq_id_of(iq@).unwrap())
        },
{
    let child = iq_parser::get_iq_first_child(iq);
    if !text::str_equal(child.as_str(), "bind") {
        return None;
    }
    let resource = match find_bind_resource(iq) {
        Some(resource) => resource,
        None => {
            assert(false);
            return None;
        },
    };
    let id = iq_parser::get_iq_id(iq);
    let reply = send_resource_binding_result(resource.as_str(), id.as_str());
    Some(Binding { resource, reply })
}

/// The result of binding `resource` for the request with id `id`.
pub fn send_resource_binding_result(resource: &str, id: &str) -> (reply: String)
    ensures
        reply@ == binding_result_of(resource@, id@),
{
    let mut reply = String::from_str("<iq type='result' id='");
    reply.append(id);
    reply.append("'><bind xmlns='urn:ietf:params:xml:ns:xmpp-bind'><jid>him@");
    reply.append(DOMAIN);
    reply.append("/");
    reply.append(resource);
    reply.append("</jid></bind></iq>");
    reply
}

} // verus!
