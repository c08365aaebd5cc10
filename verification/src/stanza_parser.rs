//! Reading attributes of a stanza's root element and the content inside it.
use vstd::prelude::*;
use crate::text;

verus! {

/// The value of the attribute `name` on the root element: in the opening tag
/// (the text before the first `>`), cut at every space, the first piece that
/// begins with `name`; its value is the text between its first and second `'`.
/// Nothing when no piece begins with `name` or that piece holds no `'`.
pub open spec fn root_attribute_of(stanza: Seq<char>, name: Seq<char>) -> Option<Seq<char>> {
    match text::piece_with_prefix(text::before_first(stanza, '>'), ' ', name) {
        Some(attr) => text::quoted_value(attr),
        None => None,
    }
}

/// The content of the root element: the text after the first `>`, up to its
/// last `<`. Nothing when the stanza holds no `>`, or no `<` after it.
pub open spec fn inside_of(stanza: Seq<char>) -> Option<Seq<char>> {
    match text::after_first(stanza, '>') {
        Some(rest) => text::before_last(rest, '<'),
        None => None,
    }
}

/// A value that stays a single attribute value when written into a tag: it
/// holds no space, no `'` and no `>`.
pub open spec fn plain_value(v: Seq<char>) -> bool {
    !text::occurs(v, ' ') && !text::occurs(v, '\'') && !text::occurs(v, '>')
}

/// Any attribute value read from a stanza can be written back into a tag:
/// it holds no space, no `'` and no `>`.
pub proof fn law_attribute_values_are_plain(stanza: Seq<char>, name: Seq<char>)
    ensures
        root_attribute_of(stanza, name) matches Some(v) ==> plain_value(v),
{
    let tag = text::before_first(stanza, '>');
    text::lemma_cut_parts_lack(stanza, '>', '>');
    text::lemma_piece_lacks(tag, ' ', tag.len(), name, '>');
    text::lemma_piece_lacks_separator(tag, ' ', tag.len(), name);
    match text::piece_with_prefix(tag, ' ', name) {
        Some(attr) => {
            text::lemma_quoted_value_lacks(attr, '>');
            text::lemma_quoted_value_lacks(attr, ' ');
        },
        None => {},
    }
}

/// The value of the root element's attribute `attribute_name`, if present.
pub fn get_root_attribute(stanza: &str, attribute_name: &str) -> (r: Option<String>)
    ensures
        match r {
            Some(value) => root_attribute_of(stanza@, attribute_name@) == Some(value@),
            None => root_attribute_of(stanza@, attribute_name@) is None,
        },
{
    let v = text::chars_of(stanza);
    let n = v.len();
    let name = text::chars_of(attribute_name);
    proof {
        assert(v@.subrange(0, n as int) =~= v@);
    }
    let tag_end = text::end_before_first(&v, 0, n, '>');
    proof {
        text::lemma_piece_unlimited(v@.subrange(0, tag_end as int), ' ', tag_end as nat, name@);
    }
    match text::find_piece_with_prefix(&v, 0, tag_end, ' ', tag_end, &name) {
        None => None,
        Some((a, b)) => match text::find_quoted_value(&v, a, b) {
            None => None,
            Some((x, y)) => {
                proof {
                    assert(v@.subrange(x as int, y as int) == stanza@.subrange(x as int, y as int));
                }
                Some(text::substring(stanza, x, y))
            },
        },
    }
}

/// The content of the root element, or `None` when the stanza does not have
/// the shape `inside_of` reads.
pub fn find_inside(stanza: &str) -> (r: Option<String>)
    ensures
        match r {
            Some(content) => inside_of(stanza@) == Some(content@),
            None => inside_of(stanza@) is None,
        },
{
    let v = text::chars_of(stanza);
    let n = v.len();
    proof {
        assert(v@.subrange(0, n as int) =~= v@);
    }
    match text::find_first(&v, 0, n, '>') {
        None => None,
        Some(k) => {
            proof {
                text::lemma_window_cut(v@, 0, n as int, '>', k as int);
            }
            match text::find_last(&v, k + 1, n, '<') {
                None => None,
                Some(j) => {
                    proof {
                        text::lemma_window_cut_last(v@, k + 1, n as int, '<', j as int);
                        assert(v@.subrange(k + 1, j as int) == stanza@.subrange(k + 1, j as int));
                    }
                    Some(text::substring(stanza, k + 1, j))
                },
            }
        },
    }
}

/// The content of the root element, such as the `<body>` of a `<message>`.
pub fn get_inside(stanza: &str) -> (content: String)
    requires
        inside_of(stanza@) is Some,
    ensures
        inside_of(stanza@) == Some(content@),
{
    match find_inside(stanza) {
        Some(content) => content,
        None => {
            assert(false);
            String::new()
        },
    }
}

} // verus!
