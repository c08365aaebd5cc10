//! Where accounts (user name and password) are kept, and the check of a login
//! against them.
use vstd::prelude::*;
use std::collections::BTreeMap;
use crate::name_map::NameMap;

verus! {

/// What `rustc_serialize::json::decode` makes of `text` as a JSON object whose
/// members are all strings: its members, name and value, in name order; nothing
/// when `text` is not such an object.
pub uninterp spec fn json_string_members(text: Seq<char>) -> Option<Seq<(Seq<char>, Seq<char>)>>;

/// Where a JSON text stands after its first `n` characters: whether inside a
/// string literal, and whether right after a backslash there.
pub open spec fn json_lex_state(text: Seq<char>, n: nat) -> (bool, bool)
    decreases n,
{
    if n == 0 {
        (false, false)
    } else {
        let (inside, escaped) = json_lex_state(text, (n - 1) as nat);
        let c = text[n - 1];
        if !inside {
            (c == '"', false)
        } else if escaped {
            (true, false)
        } else if c == '\\' {
            (true, true)
        } else if c == '"' {
            (false, false)
        } else {
            (true, false)
        }
    }
}

/// `text` holds an ASCII digit outside its string literals, that is, a JSON
/// number or the start of one. A JSON object whose members are all strings
/// holds none.
pub open spec fn digit_outside_strings(text: Seq<char>) -> bool {
    exists|i: int|
        0 <= i < text.len() && !json_lex_state(text, i as nat).0 && '0' <= #[trigger] text[i] <= '9'
}

/// One step of `json_lex_state`: where the text stands after `c`, from `state`.
pub open spec fn lex_step(state: (bool, bool), c: char) -> (bool, bool) {
    let (inside, escaped) = state;
    if !inside {
        (c == '"', false)
    } else if escaped {
        (true, false)
    } else if c == '\\' {
        (true, true)
    } else if c == '"' {
        (false, false)
    } else {
        (true, false)
    }
}

/// Where a text stands after all of `s`, starting from `state`.
pub open spec fn lex_run(state: (bool, bool), s: Seq<char>) -> (bool, bool)
    decreases s.len(),
{
    if s.len() == 0 {
        state
    } else {
        lex_step(lex_run(state, s.drop_last()), s.last())
    }
}

/// `s`, read from `state`, holds a digit at a place outside string literals.
pub open spec fn digit_outside_from(state: (bool, bool), s: Seq<char>) -> bool {
    exists|i: int| 0 <= i < s.len() && !lex_run(state, s.take(i)).0 && '0' <= #[trigger] s[i] <= '9'
}

/// A string that can stand between quotes in JSON as it is: no `"`, no
/// backslash, no control character.
pub open spec fn plain_json_string(s: Seq<char>) -> bool {
    forall|i: int| 0 <= i < s.len() ==> #[trigger] s[i] != '"' && s[i] != '\\' && s[i] > '\u{1F}'
}

/// Members with plain names and values, no name listed twice.
pub open spec fn plain_json_members(members: Seq<(Seq<char>, Seq<char>)>) -> bool {
    &&& forall|i: int| 0 <= i < members.len() ==> plain_json_string(#[trigger] members[i].0) && plain_json_string(
        members[i].1,
    )
    &&& forall|i: int, j: int| 0 <= i < j < members.len() ==> #[trigger] members[i].0 != #[trigger] members[j].0
}

/// The member `"name": "value"` of a JSON object.
pub open spec fn json_member_text(name: Seq<char>, value: Seq<char>) -> Seq<char> {
    seq!['"'] + name + seq!['"'] + seq![':'] + seq![' '] + seq!['"'] + value + seq!['"']
}

/// The members, in order, separated by `, `.
pub open spec fn json_members_text(members: Seq<(Seq<char>, Seq<char>)>) -> Seq<char>
    decreases members.len(),
{
    if members.len() == 0 {
        Seq::empty()
    } else if members.len() == 1 {
        json_member_text(members[0].0, members[0].1)
    } else {
        json_members_text(members.drop_last()) + seq![','] + seq![' '] + json_member_text(
            members.last().0,
            members.last().1,
        )
    }
}

/// The JSON object `{"n1": "v1", "n2": "v2", ...}` listing `members`.
pub open spec fn json_object_text(members: Seq<(Seq<char>, Seq<char>)>) -> Seq<char> {
    seq!['{'] + json_members_text(members) + seq!['}']
}

/// Reading a text from its start is reading it from outside any string.
proof fn lemma_lex_state_is_run(text: Seq<char>, n: nat)
    requires
        n <= text.len(),
    ensures
        json_lex_state(text, n) == lex_run((false, false), text.take(n as int)),
    decreases n,
{
    if n > 0 {
        lemma_lex_state_is_run(text, (n - 1) as nat);
        assert(text.take(n as int).drop_last() =~= text.take(n - 1));
    }
}

/// Reading `a + b` is reading `a`, then `b` from where `a` left off; and
/// neither holding a digit outside strings, the whole does not either.
proof fn lemma_lex_append(state: (bool, bool), a: Seq<char>, b: Seq<char>)
    ensures
        lex_run(state, a + b) == lex_run(lex_run(state, a), b),
        !digit_outside_from(state, a) && !digit_outside_from(lex_run(state, a), b) ==> !digit_outside_from(
            state,
            a + b,
        ),
    decreases b.len(),
{
    if b.len() == 0 {
        assert(a + b =~= a);
    } else {
        lemma_lex_append(state, a, b.drop_last());
        assert((a + b).drop_last() =~= a + b.drop_last());
    }
    if !digit_outside_from(state, a) && !digit_outside_from(lex_run(state, a), b) && digit_outside_from(state, a + b) {
        let i = choose|i: int|
            0 <= i < (a + b).len() && !lex_run(state, (a + b).take(i)).0 && '0' <= #[trigger] (a + b)[i] <= '9';
        if i < a.len() {
            assert((a + b).take(i) =~= a.take(i));
            assert(a[i] == (a + b)[i]);
        } else {
            let j = i - a.len();
            assert((a + b).take(i) =~= a + b.take(j));
            lemma_lex_append(state, a, b.take(j));
            assert(b[j] == (a + b)[i]);
        }
    }
}

/// A text without digits holds none outside strings, from any state.
proof fn lemma_no_digits(state: (bool, bool), s: Seq<char>)
    requires
        forall|i: int| 0 <= i < s.len() ==> !('0' <= #[trigger] s[i] <= '9'),
    ensures
        !digit_outside_from(state, s),
{
}

/// Reading one character is one step.
proof fn lemma_lex_one(state: (bool, bool), c: char)
    ensures
        lex_run(state, seq![c]) == lex_step(state, c),
{
    let s = seq![c];
    assert(s.drop_last() =~= Seq::<char>::empty());
    assert(lex_run(state, Seq::<char>::empty()) == state);
    assert(s.last() == c);
    assert(lex_run(state, s) == lex_step(lex_run(state, s.drop_last()), s.last()));
}

/// A plain string read inside a string literal stays inside, and no digit of
/// it is outside strings.
proof fn lemma_plain_inside(s: Seq<char>)
    requires
        plain_json_string(s),
    ensures
        lex_run((true, false), s) == (true, false),
        !digit_outside_from((true, false), s),
    decreases s.len(),
{
    if s.len() > 0 {
        lemma_plain_inside(s.drop_last());
        assert(s.last() == s[s.len() - 1]);
    }
    assert forall|i: int| 0 <= i <= s.len() implies lex_run((true, false), #[trigger] s.take(i)) == (true, false) by {
        if i < s.len() {
            lemma_plain_inside(s.take(i));
        } else {
            assert(s.take(i) =~= s);
        }
    }
}

/// A member with a plain name and value is read from outside strings back to
/// outside, with no digit outside strings.
proof fn lemma_member_text(name: Seq<char>, value: Seq<char>)
    requires
        plain_json_string(name),
        plain_json_string(value),
    ensures
        lex_run((false, false), json_member_text(name, value)) == (false, false),
        !digit_outside_from((false, false), json_member_text(name, value)),
{
    let out = (false, false);
    let inn = (true, false);
    let q = seq!['"'];
    let colon = seq![':'];
    let sp = seq![' '];
    lemma_lex_one(out, '"');
    lemma_lex_one(inn, '"');
    lemma_lex_one(out, ':');
    lemma_lex_one(out, ' ');
    lemma_no_digits(out, q);
    lemma_no_digits(inn, q);
    lemma_no_digits(out, colon);
    lemma_no_digits(out, sp);
    lemma_plain_inside(name);
    lemma_plain_inside(value);
    let s1 = q + name;
    lemma_lex_append(out, q, name);
    let s2 = s1 + q;
    lemma_lex_append(out, s1, q);
    let s3 = s2 + colon;
    lemma_lex_append(out, s2, colon);
    let s4 = s3 + sp;
    lemma_lex_append(out, s3, sp);
    let s5 = s4 + q;
    lemma_lex_append(out, s4, q);
    let s6 = s5 + value;
    lemma_lex_append(out, s5, value);
    let s7 = s6 + q;
    lemma_lex_append(out, s6, q);
}

/// The members of a plain listing are read from outside strings back to
/// outside, with no digit outside strings.
proof fn lemma_members_text(members: Seq<(Seq<char>, Seq<char>)>)
    requires
        plain_json_members(members),
    ensures
        lex_run((false, false), json_members_text(members)) == (false, false),
        !digit_outside_from((false, false), json_members_text(members)),
    decreases members.len(),
{
    let out = (false, false);
    if members.len() == 0 {
        lemma_no_digits(out, Seq::<char>::empty());
    } else if members.len() == 1 {
        assert(plain_json_string(members[0].0));
        lemma_member_text(members[0].0, members[0].1);
    } else {
        let rest = members.drop_last();
        assert(plain_json_members(rest)) by {
            assert forall|i: int| 0 <= i < rest.len() implies plain_json_string(#[trigger] rest[i].0)
                && plain_json_string(rest[i].1) by {
                assert(rest[i] == members[i]);
            }
            assert forall|i: int, j: int| 0 <= i < j < rest.len() implies #[trigger] rest[i].0 != #[trigger] rest[j].0 by {
                assert(rest[i] == members[i]);
                assert(rest[j] == members[j]);
            }
        }
        lemma_members_text(rest);
        let last = members.last();
        assert(plain_json_string(members[members.len() - 1].0));
        lemma_member_text(last.0, last.1);
        let comma = seq![','];
        let sp = seq![' '];
        lemma_lex_one(out, ',');
        lemma_lex_one(out, ' ');
        lemma_no_digits(out, comma);
        lemma_no_digits(out, sp);
        let s0 = json_members_text(rest);
        lemma_lex_append(out, s0, comma);
        lemma_lex_append(out, s0 + comma, sp);
        lemma_lex_append(out, s0 + comma + sp, json_member_text(last.0, last.1));
    }
}

/// The JSON object of a plain listing holds no digit outside its strings.
pub proof fn lemma_object_text_has_no_outside_digit(members: Seq<(Seq<char>, Seq<char>)>)
    requires
        plain_json_members(members),
    ensures
        !digit_outside_strings(json_object_text(members)),
{
    let out = (false, false);
    let t = json_object_text(members);
    lemma_members_text(members);
    lemma_lex_one(out, '{');
    lemma_lex_one(out, '}');
    lemma_no_digits(out, seq!['{']);
    lemma_no_digits(out, seq!['}']);
    lemma_lex_append(out, seq!['{'], json_members_text(members));
    lemma_lex_append(out, seq!['{'] + json_members_text(members), seq!['}']);
    if digit_outside_strings(t) {
        let i = choose|i: int| 0 <= i < t.len() && !json_lex_state(t, i as nat).0 && '0' <= #[trigger] t[i] <= '9';
        lemma_lex_state_is_run(t, i as nat);
    }
}

/// Whether `text` holds a digit outside its string literals.
fn has_digit_outside_strings(text: &str) -> (r: bool)
    ensures
        r == digit_outside_strings(text@),
{
    let v = crate::text::chars_of(text);
    let n = v.len();
    let mut inside = false;
    let mut escaped = false;
    let mut i: usize = 0;
    while i < n
        invariant
            i <= n,
            n == text@.len(),
            v@ == text@,
            (inside, escaped) == json_lex_state(text@, i as nat),
            forall|j: int|
                0 <= j < i ==> !(!json_lex_state(text@, j as nat).0 && '0' <= #[trigger] text@[j] <= '9'),
        decreases n - i,
    {
        let c = v[i];
        if !inside && '0' <= c && c <= '9' {
            assert(text@[i as int] == c);
            return true;
        }
        if !inside {
            inside = c == '"';
            escaped = false;
        } else if escaped {
            escaped = false;
        } else if c == '\\' {
            escaped = true;
        } else if c == '"' {
            inside = false;
        }
        i = i + 1;
    }
    false
}

/// Decodes `text` as a JSON object of strings with
/// `rustc_serialize::json::decode::<BTreeMap<String, String>>` and lists its
/// members in the map's order. The contract names the outcome
/// (`json_string_members`), and states that an object written as
/// `{"n1": "v1", "n2": "v2", ...}` with plain names and values, no name twice,
/// decodes to exactly those members, names and values as written (in the
/// map's order). The rest of the JSON grammar is not stated. The parser reads a
/// number's exponent into a `usize` without overflow checks, so a long
/// exponent would panic: texts with a digit outside string literals, where
/// every number starts, are not handed to it.
#[verifier::external_body]
fn decode_string_members(text: &str) -> (r: Option<Vec<(String, String)>>)
    requires
        !digit_outside_strings(text@),
    ensures
        match r {
            Some(members) => json_string_members(text@) == Some(
                members@.map_values(|m: (String, String)| (m.0@, m.1@)),
            ),
            None => json_string_members(text@) is None,
        },
        r matches Some(members) ==> forall|listed: Seq<(Seq<char>, Seq<char>)>|
            #[trigger] json_object_text(listed) == text@ && plain_json_members(listed) ==> members@.len()
                == listed.len() && accounts_of_members(
                members@.map_values(|m: (String, String)| (m.0@, m.1@)),
            ) == accounts_of_members(listed),
        r is None ==> forall|listed: Seq<(Seq<char>, Seq<char>)>|
            #[trigger] json_object_text(listed) == text@ ==> !plain_json_members(listed),
{
    match rustc_serialize::json::decode::<BTreeMap<String, String>>(text) {
        Ok(map) => Some(map.into_iter().collect()),
        Err(_) => None,
    }
}

/// The accounts named by `members`, a later member overriding an earlier one
/// with the same name.
pub open spec fn accounts_of_members(members: Seq<(Seq<char>, Seq<char>)>) -> Map<Seq<char>, Seq<char>>
    decreases members.len(),
{
    if members.len() == 0 {
        Map::empty()
    } else {
        accounts_of_members(members.drop_last()).insert(members.last().0, members.last().1)
    }
}

/// Every listed account is stored with the password of its last listing.
pub proof fn law_listed_account_password(members: Seq<(Seq<char>, Seq<char>)>, i: int)
    requires
        0 <= i < members.len(),
        forall|j: int| i < j < members.len() ==> members[j].0 != members[i].0,
    ensures
        accounts_of_members(members).contains_key(members[i].0),
        accounts_of_members(members)[members[i].0] == members[i].1,
    decreases members.len(),
{
    if i < members.len() - 1 {
        assert(members.last().0 != members[i].0);
        law_listed_account_password(members.drop_last(), i);
    }
}

/// Only listed names are stored.
pub proof fn law_only_listed_accounts(members: Seq<(Seq<char>, Seq<char>)>, name: Seq<char>)
    ensures
        accounts_of_members(members).contains_key(name) <==> exists|j: int|
            0 <= j < members.len() && members[j].0 == name,
    decreases members.len(),
{
    if members.len() > 0 {
        let rest = members.drop_last();
        law_only_listed_accounts(rest, name);
        if exists|j: int| 0 <= j < members.len() && members[j].0 == name {
            let j = choose|j: int| 0 <= j < members.len() && members[j].0 == name;
            if j < members.len() - 1 {
                assert(rest[j].0 == name);
            }
        }
        if exists|j: int| 0 <= j < rest.len() && rest[j].0 == name {
            let j = choose|j: int| 0 <= j < rest.len() && rest[j].0 == name;
            assert(members[j].0 == name);
        }
    }
}

/// An account file written as a JSON object of plain members lists its
/// accounts exactly: each listed name is stored with its listed password, as
/// written, and no other name is stored.
pub proof fn law_plain_account_file_lists_its_accounts(
    listed: Seq<(Seq<char>, Seq<char>)>,
    i: int,
    name: Seq<char>,
)
    requires
        plain_json_members(listed),
        0 <= i < listed.len(),
    ensures
        accounts_of_members(listed).contains_key(listed[i].0),
        accounts_of_members(listed)[listed[i].0] == listed[i].1,
        accounts_of_members(listed).contains_key(name) <==> exists|j: int|
            0 <= j < listed.len() && listed[j].0 == name,
{
    assert forall|j: int| i < j < listed.len() implies listed[j].0 != listed[i].0 by {
        assert(listed[i].0 != listed[j].0);
    }
    law_listed_account_password(listed, i);
    law_only_listed_accounts(listed, name);
}

/// A place that stores accounts and tells whether a login is correct.
pub trait AccountStorer: Sized {
    /// The stored accounts: user name to password.
    spec fn accounts(&self) -> Map<Seq<char>, Seq<char>>;

    /// The storage descriptions that `new` can open.
    spec fn opens(storage: Seq<char>) -> bool;

    /// The accounts held by the storage that `storage` describes.
    spec fn accounts_in(storage: Seq<char>) -> Map<Seq<char>, Seq<char>>;

    /// Opens the storage that `storage` describes, which must be one it can open.
    fn new(storage: &str) -> (s: Self)
        requires
            Self::opens(storage@),
        ensures
            s.accounts() == Self::accounts_in(storage@),
    ;

    /// Whether `username` is stored with exactly `password`.
    fn is_login_correct(&self, username: &str, password: &str) -> (correct: bool)
        ensures
            correct == (self.accounts().contains_key(username@) && self.accounts()[username@]
                == password@),
    ;
}

/// Accounts loaded from a JSON object mapping user names to passwords, held in memory.
pub struct JsonAccountStorer {
    storage: NameMap<String>,
}

impl JsonAccountStorer {
    /// The accounts of the JSON account file text `storage`: an object whose
    /// members map user names to passwords. `None` when it is not such an
    /// object; a text holding a number is never one and is refused before
    /// decoding.
    pub fn from_json(storage: &str) -> (r: Option<JsonAccountStorer>)
        ensures
            r is Some == (!digit_outside_strings(storage@) && json_string_members(storage@) is Some),
            r matches Some(s) ==> s.accounts() == accounts_of_members(
                json_string_members(storage@).unwrap(),
            ),
            forall|listed: Seq<(Seq<char>, Seq<char>)>|
                #[trigger] json_object_text(listed) == storage@ && plain_json_members(listed) ==> (r matches Some(
                s,
            ) && s.accounts() == accounts_of_members(listed)),
    {
        if has_digit_outside_strings(storage) {
            proof {
                assert forall|listed: Seq<(Seq<char>, Seq<char>)>|
                    #[trigger] json_object_text(listed) == storage@ && plain_json_members(listed) implies false by {
                    lemma_object_text_has_no_outside_digit(listed);
                }
            }
            return None;
        }
        match decode_string_members(storage) {
            Some(members) => Some(JsonAccountStorer::from_members(members)),
            None => None,
        }
    }

    /// The accounts listed by `members`, in order (a later member with the same
    /// name overrides an earlier one).
    pub fn from_members(members: Vec<(String, String)>) -> (s: JsonAccountStorer)
        ensures
            s.accounts() == accounts_of_members(
                members@.map_values(|m: (String, String)| (m.0@, m.1@)),
            ),
    {
        let ghost listed = members@.map_values(|m: (String, String)| (m.0@, m.1@));
        let mut storage: NameMap<String> = NameMap::new();
        let mut i: usize = 0;
        proof {
            assert(listed.take(0) =~= Seq::<(Seq<char>, Seq<char>)>::empty());
            assert(storage@.map_values(|p: String| p@) =~= Map::<Seq<char>, Seq<char>>::empty());
        }
        while i < members.len()
            invariant
                i <= members@.len(),
                listed == members@.map_values(|m: (String, String)| (m.0@, m.1@)),
                storage@.map_values(|p: String| p@) == accounts_of_members(listed.take(i as int)),
            decreases members@.len() - i,
        {
            let name = members[i].0.clone();
            let password = members[i].1.clone();
            let ghost before = storage@;
            storage.insert(name, password);
            proof {
                assert(listed.take(i + 1).drop_last() =~= listed.take(i as int));
                assert(listed.take(i + 1).last() == listed[i as int]);
                assert(storage@.map_values(|p: String| p@) =~= before.map_values(|p: String| p@).insert(
                    listed[i as int].0,
                    listed[i as int].1,
                ));
            }
            i = i + 1;
        }
        assert(listed.take(members@.len() as int) =~= listed);
        JsonAccountStorer { storage }
    }
}

impl AccountStorer for JsonAccountStorer {
    closed spec fn accounts(&self) -> Map<Seq<char>, Seq<char>> {
        self.storage@.map_values(|p: String| p@)
    }

    /// The JSON text of an account file: an object whose members all map user
    /// names to passwords (such a text holds no digit outside its strings).
    open spec fn opens(storage: Seq<char>) -> bool {
        !digit_outside_strings(storage) && json_string_members(storage) is Some
    }

    /// The accounts that the members of the account file list.
    open spec fn accounts_in(storage: Seq<char>) -> Map<Seq<char>, Seq<char>> {
        accounts_of_members(json_string_members(storage).unwrap())
    }

    /// `storage` is the JSON text of the account file.
    fn new(storage: &str) -> (s: JsonAccountStorer) {
        match JsonAccountStorer::from_json(storage) {
            Some(s) => s,
            None => {
                assert(false);
                JsonAccountStorer::from_members(Vec::new())
            },
        }
    }

    fn is_login_correct(&self, username: &str, password: &str) -> (correct: bool) {
        let name = String::from_str(username);
        match self.storage.get(&name) {
            Some(stored) => crate::text::str_equal(stored.as_str(), password),
            None => false,
        }
    }
}

impl Clone for JsonAccountStorer {
    /// A copy holding the same accounts.
    fn clone(&self) -> (c: Self)
        ensures
            c.accounts() == self.accounts(),
    {
        JsonAccountStorer { storage: self.storage.copy() }
    }
}

} // verus!
