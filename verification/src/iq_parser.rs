//! Reading the `id` attribute and the first child element of an `<iq>` stanza.
use vstd::prelude::*;
use crate::text;

verus! {

/// The `id` of an `<iq>` stanza: in the opening tag (the text before the first
/// `>`), cut at spaces at most three times, the first piece beginning with
/// `id=`; its value is the text between its first and second `'`.
/// Nothing when no such piece exists or it holds no `'`.
pub open spec fn iq_id_of(iq: Seq<char>) -> Option<Seq<char>> {
    match text::piece_with_prefix_limited(text::before_first(iq, '>'), ' ', 3, seq!['i', 'd', '=']) {
        Some(attr) => text::quoted_value(attr),
        None => None,
    }
}

/// The name of the first child of an `<iq>` stanza: the text between the
/// first and the second `>` (to the end when there is one `>` only), up to its
/// first space, after its first `<`. Nothing when the stanza holds no `>` or
/// that text holds no `<`.
pub open spec fn iq_first_child_of(iq: Seq<char>) -> Option<Seq<char>> {
    match text::after_first(iq, '>') {
        Some(rest) => text::after_first(text::before_first(text::before_first(rest, '>'), ' '), '<'),
        None => None,
    }
}

/// Only the opening tag is read for the `id`: whatever follows the first `>`
/// does not change it.
pub proof fn law_iq_id_reads_opening_tag_only(tag: Seq<char>, rest1: Seq<char>, rest2: Seq<char>)
    requires
        !text::occurs(tag, '>'),
    ensures
        iq_id_of(tag + seq!['>'] + rest1) == iq_id_of(tag + seq!['>'] + rest2),
        iq_id_of(tag + seq!['>'] + rest1) == iq_id_of(tag),
{
    text::lemma_cut_join(tag, '>', rest1);
    text::lemma_cut_join(tag, '>', rest2);
    text::lemma_no_cut(tag, '>');
}

/// The `id` of `iq`, or `None` for a stanza that has none in its opening tag.
pub fn find_iq_id(iq: &str) -> (r: Option<String>)
    ensures
        match r {
            Some(id) => iq_id_of(iq@) == Some(id@),
            None => iq_id_of(iq@) is None,
        },
{
    let v = text::chars_of(iq);
    let n = v.len();
    let prefix = text::chars_of("id=");
    proof {
        reveal_strlit("id=");
        assert(prefix@ =~= seq!['i', 'd', '=']);
        assert(v@.subrange(0, n as int) =~= v@);
    }
    let tag_end = text::end_before_first(&v, 0, n, '>');
    match text::find_piece_with_prefix(&v, 0, tag_end, ' ', 3, &prefix) {
        None => None,
        Some((a, b)) => match text::find_quoted_value(&v, a, b) {
            None => None,
            Some((x, y)) => {
                proof {
                    assert(v@.subrange(x as int, y as int) == iq@.subrange(x as int, y as int));
                }
                Some(text::substring(iq, x, y))
            },
        },
    }
}

/// The `id` attribute of an `<iq>` stanza.
pub fn get_iq_id(iq: &str) -> (id: String)
    requires
        iq_id_of(iq@) is Some,
    ensures
        iq_id_of(iq@) == Some(id@),
{
    match find_iq_id(iq) {
        Some(id) => id,
        None => {
            assert(false);
            String::new()
        },
    }
}

/// The name of the first child element of `iq`, or `None` for a stanza
/// without one in the shape `iq_first_child_of` reads.
pub fn find_iq_first_child(iq: &str) -> (r: Option<String>)
    ensures
        match r {
            Some(name) => iq_first_child_of(iq@) == Some(name@),
            None => iq_first_child_of(iq@) is None,
        },
{
    let v = text::chars_of(iq);
    let n = v.len();
    proof {
        assert(v@.subrange(0, n as int) =~= v@);
    }
    match text::find_first(&v, 0, n, '>') {
        None => None,
        Some(k) => {
            proof {
                text::lemma_window_cut(v@, 0, n as int, '>', k as int);
            }
            let seg_end = text::end_before_first(&v, k + 1, n, '>');
            let head_end = text::end_before_first(&v, k + 1, seg_end, ' ');
            match text::find_first(&v, k + 1, head_end, '<') {
                None => None,
                Some(j) => {
                    proof {
                        text::lemma_window_cut(v@, k + 1, head_end as int, '<', j as int);
                        assert(v@.subrange(j + 1, head_end as int) == iq@.subrange(
                            j + 1,
                            head_end as int,
                        ));
                    }
                    Some(text::substring(iq, j + 1, head_end))
                },
            }
        },
    }
}

/// The name of the first child element of an `<iq>` stanza, such as `bind`,
/// `session` or `ping`.
pub fn get_iq_first_child(iq: &str) -> (name: String)
    requires
        iq_first_child_of(iq@) is Some,
    ensures
        iq_first_child_of(iq@) == Some(name@),
{
    match find_iq_first_child(iq) {
        Some(name) => name,
        None => {
            assert(false);
            String::new()
        },
    }
}

} // verus!
