//! Routing a `<presence>` stanza sent by the connected user.
use vstd::prelude::*;
use crate::session_manager::SessionManager;
use crate::stanza_parser;

verus! {

/// The value of attribute `name` on the root of `stanza`, empty when absent.
pub open spec fn attribute_or_empty(stanza: Seq<char>, name: Seq<char>) -> Seq<char> {
    match stanza_parser::root_attribute_of(stanza, name) {
        Some(value) => value,
        None => Seq::empty(),
    }
}

/// Whether a presence from `current_user` comes back on their own stream: its
/// `to` (empty when absent) is exactly `current_user`.
pub open spec fn presence_to_self(current_user: Seq<char>, presence: Seq<char>) -> bool {
    attribute_or_empty(presence, "to"@) == current_user
}

/// A presence comes back to its sender exactly when its `to` reads back as
/// the sender's own address, character for character: a presence to any other
/// address (another resource, the bare address) is not echoed.
pub proof fn law_presence_to_self_is_exact_address(current_user: Seq<char>, presence: Seq<char>, to: Seq<char>)
    requires
        stanza_parser::root_attribute_of(presence, "to"@) == Some(to),
    ensures
        presence_to_self(current_user, presence) <==> to == current_user,
{
}

/// Routes `presence` sent by `current_user`: `true` when it is addressed to
/// the user themselves and goes back on their stream as it is. A presence
/// without `to` and `type` is meant for everyone in the user's roster; there
/// is no roster, so it goes nowhere, like any presence for someone else.
pub fn route_presence<S: SessionManager>(current_user: &str, sessions: &S, presence: &str) -> (to_self:
    bool)
    ensures
        to_self == presence_to_self(current_user@, presence@),
{
    let to = match stanza_parser::get_root_attribute(presence, "to") {
        Some(to) => to,
        None => String::new(),
    };
    crate::text::str_equal(to.as_str(), current_user)
}

} // verus!
