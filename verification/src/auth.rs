//! SASL PLAIN login: the `<auth>` element carries, in base64, the bytes
//! `realm NUL username NUL password`, which are checked against the accounts.
use vstd::prelude::*;
use rustc_serialize::base64::FromBase64;
use crate::account_storer::{AccountStorer, JsonAccountStorer};
use crate::text;

verus! {

/// What `rustc_serialize`'s `FromBase64::from_base64` decodes from `text`;
/// nothing when it reports an error.
pub uninterp spec fn base64_decoding(text: Seq<char>) -> Option<Seq<u8>>;

/// The 64 symbols of standard base64 (RFC 4648): `A`-`Z`, `a`-`z`, `0`-`9`,
/// `+` and `/`, the symbol for value `v` at position `v`.
pub open spec fn base64_alphabet() -> Seq<char> {
    seq![
        'A', 'B', 'C', 'D', 'E', 'F', 'G', 'H', 'I', 'J', 'K', 'L', 'M', 'N', 'O', 'P',
        'Q', 'R', 'S', 'T', 'U', 'V', 'W', 'X', 'Y', 'Z', 'a', 'b', 'c', 'd', 'e', 'f',
        'g', 'h', 'i', 'j', 'k', 'l', 'm', 'n', 'o', 'p', 'q', 'r', 's', 't', 'u', 'v',
        'w', 'x', 'y', 'z', '0', '1', '2', '3', '4', '5', '6', '7', '8', '9', '+', '/',
    ]
}

/// The standard base64 encoding of `bytes`, padded with `=`: every three bytes
/// become four symbols of six bits each; a last group of one or two bytes
/// becomes two or three symbols and `=` up to four.
pub open spec fn base64_encoding(bytes: Seq<u8>) -> Seq<char>
    decreases bytes.len(),
{
    let a = base64_alphabet();
    if bytes.len() == 0 {
        Seq::empty()
    } else if bytes.len() == 1 {
        seq![a[(bytes[0] / 4) as int], a[(bytes[0] % 4) * 16], '=', '=']
    } else if bytes.len() == 2 {
        seq![a[(bytes[0] / 4) as int], a[(bytes[0] % 4) * 16 + bytes[1] / 16], a[(bytes[1] % 16) * 4], '=']
    } else {
        seq![
            a[(bytes[0] / 4) as int],
            a[(bytes[0] % 4) * 16 + bytes[1] / 16],
            a[(bytes[1] % 16) * 4 + bytes[2] / 64],
            a[(bytes[2] % 64) as int],
        ] + base64_encoding(bytes.skip(3))
    }
}

/// Calls `<str as rustc_serialize::base64::FromBase64>::from_base64`. The
/// contract names the outcome (`base64_decoding`), and states that the
/// standard padded encoding of any bytes decodes to those bytes. It does not
/// state the rest of the decoding, which also takes the URL-safe symbols,
/// tolerates line breaks and stops at the first `=`.
#[verifier::external_body]
fn decode_base64(text: &str) -> (r: Option<Vec<u8>>)
    ensures
        match r {
            Some(bytes) => base64_decoding(text@) == Some(bytes@),
            None => base64_decoding(text@) is None,
        },
        r matches Some(decoded) ==> forall|bytes: Seq<u8>| #[trigger] base64_encoding(bytes) == text@ ==> decoded@
            == bytes,
        r is None ==> forall|bytes: Seq<u8>| #[trigger] base64_encoding(bytes) != text@,
{
    match text.from_base64() {
        Ok(bytes) => Some(bytes),
        Err(_) => None,
    }
}

/// Calls `std::str::from_utf8` and copies the text it yields into a `String`.
/// As std documents, it succeeds exactly on well-formed UTF-8, and the text
/// holds the characters those bytes encode.
#[verifier::external_body]
fn string_from_utf8(bytes: &[u8]) -> (r: Option<String>)
    ensures
        match r {
            Some(s) => vstd::utf8::valid_utf8(bytes@) && s@ == vstd::utf8::decode_utf8(bytes@),
            None => !vstd::utf8::valid_utf8(bytes@),
        },
{
    match std::str::from_utf8(bytes) {
        Ok(s) => Some(s.to_string()),
        Err(_) => None,
    }
}

/// The three fields of a SASL PLAIN message cut at zero bytes: the bytes
/// before the first zero, between the first and the second, and between the
/// second and the third (or the end). Nothing when fewer than two zeros occur.
pub open spec fn sasl_plain_fields(message: Seq<u8>) -> Option<(Seq<u8>, Seq<u8>, Seq<u8>)> {
    match text::after_first(message, 0u8) {
        Some(rest) => match text::after_first(rest, 0u8) {
            Some(last) => Some(
                (
                    text::before_first(message, 0u8),
                    text::before_first(rest, 0u8),
                    text::before_first(last, 0u8),
                ),
            ),
            None => None,
        },
        None => None,
    }
}

/// Realm, user name and password of a SASL PLAIN message, each decoded from
/// UTF-8. Nothing when the fields are missing or one is not UTF-8.
pub open spec fn sasl_plain_credentials(message: Seq<u8>) -> Option<(Seq<char>, Seq<char>, Seq<char>)> {
    match sasl_plain_fields(message) {
        Some((realm, username, password)) => if vstd::utf8::valid_utf8(realm) && vstd::utf8::valid_utf8(username)
            && vstd::utf8::valid_utf8(password) {
            Some((vstd::utf8::decode_utf8(realm), vstd::utf8::decode_utf8(username), vstd::utf8::decode_utf8(password)))
        } else {
            None
        },
        None => None,
    }
}

/// The base64 text of an `<auth>` element: after the first `>`, up to the next `<`.
pub open spec fn auth_payload(sasl_auth: Seq<char>) -> Option<Seq<char>> {
    match text::after_first(sasl_auth, '>') {
        Some(rest) => Some(text::before_first(rest, '<')),
        None => None,
    }
}

/// Realm, user name and password that a base64 SASL PLAIN payload carries.
pub open spec fn payload_credentials(payload: Seq<char>) -> Option<(Seq<char>, Seq<char>, Seq<char>)> {
    match base64_decoding(payload) {
        Some(message) => sasl_plain_credentials(message),
        None => None,
    }
}

/// Realm, user name and password that an `<auth>` element carries.
pub open spec fn login_credentials(sasl_auth: Seq<char>) -> Option<(Seq<char>, Seq<char>, Seq<char>)> {
    match auth_payload(sasl_auth) {
        Some(payload) => payload_credentials(payload),
        None => None,
    }
}

/// The answer to a successful login.
pub open spec fn sasl_success() -> Seq<char> {
    "<success xmlns='urn:ietf:params:xml:ns:xmpp-sasl'/>"@
}

/// The answer to a failed login.
pub open spec fn sasl_failure() -> Seq<char> {
    "<failure xmlns='urn:ietf:params:xml:ns:xmpp-sasl'><not-authorized/></failure>"@
}

/// Cutting `realm + [0] + username + [0] + password` gives the three parts
/// back when none of them holds a zero byte.
pub proof fn law_sasl_plain_fields_roundtrip(realm: Seq<u8>, username: Seq<u8>, password: Seq<u8>)
    requires
        !text::occurs(realm, 0u8),
        !text::occurs(username, 0u8),
        !text::occurs(password, 0u8),
    ensures
        sasl_plain_fields(realm + seq![0u8] + username + seq![0u8] + password) == Some(
            (realm, username, password),
        ),
{
    let message = realm + seq![0u8] + username + seq![0u8] + password;
    assert(message =~= realm + seq![0u8] + (username + seq![0u8] + password));
    text::lemma_cut_join(realm, 0u8, username + seq![0u8] + password);
    text::lemma_cut_join(username, 0u8, password);
    text::lemma_no_cut(password, 0u8);
}

proof fn lemma_scalar_has_no_zero_byte(c: char)
    requires
        c != '\0',
    ensures
        !text::occurs(vstd::utf8::encode_scalar(c as u32), 0u8),
{
    let v = c as u32;
    assert(v != 0);
    if vstd::utf8::has_width_1_encoding(v) {
        assert((v & 0x7F) as u8 != 0) by (bit_vector)
            requires
                v <= 0x7F,
                v != 0,
        ;
    } else {
        assert(0xC0u8 | ((v >> 6) & 0x1F) as u8 != 0) by (bit_vector);
        assert(0xE0u8 | ((v >> 12) & 0x0F) as u8 != 0) by (bit_vector);
        assert(0xF0u8 | ((v >> 18) & 0x7) as u8 != 0) by (bit_vector);
        assert(0x80u8 | (v & 0x3F) as u8 != 0) by (bit_vector);
        assert(0x80u8 | ((v >> 6) & 0x3F) as u8 != 0) by (bit_vector);
        assert(0x80u8 | ((v >> 12) & 0x3F) as u8 != 0) by (bit_vector);
    }
}

/// The UTF-8 encoding of a text without NUL holds no zero byte.
pub proof fn lemma_encoding_has_no_zero_byte(chars: Seq<char>)
    requires
        !text::occurs(chars, '\0'),
    ensures
        !text::occurs(vstd::utf8::encode_utf8(chars), 0u8),
    decreases chars.len(),
{
    if chars.len() > 0 {
        assert(chars[0] != '\0');
        lemma_scalar_has_no_zero_byte(chars[0]);
        let rest = chars.drop_first();
        assert(!text::occurs(rest, '\0')) by {
            if text::occurs(rest, '\0') {
                let i = choose|i: int| 0 <= i < rest.len() && rest[i] == '\0';
                assert(chars[i + 1] == '\0');
            }
        }
        lemma_encoding_has_no_zero_byte(rest);
        text::lemma_occurs_concat(
            vstd::utf8::encode_scalar(chars[0] as u32),
            vstd::utf8::encode_utf8(rest),
            0u8,
        );
    }
}

/// The SASL PLAIN message `realm NUL username NUL password`, each part in UTF-8.
pub open spec fn sasl_plain_message(realm: Seq<char>, username: Seq<char>, password: Seq<char>) -> Seq<u8> {
    vstd::utf8::encode_utf8(realm) + seq![0u8] + vstd::utf8::encode_utf8(username) + seq![0u8]
        + vstd::utf8::encode_utf8(password)
}

/// A SASL PLAIN message made of the UTF-8 encodings of a realm, a user name and
/// a password, none holding NUL, yields those three back; and a payload whose
/// base64 decoding is that message carries them.
pub proof fn law_sasl_plain_credentials_roundtrip(
    payload: Seq<char>,
    realm: Seq<char>,
    username: Seq<char>,
    password: Seq<char>,
)
    requires
        !text::occurs(realm, '\0'),
        !text::occurs(username, '\0'),
        !text::occurs(password, '\0'),
    ensures
        sasl_plain_credentials(
            vstd::utf8::encode_utf8(realm) + seq![0u8] + vstd::utf8::encode_utf8(username) + seq![0u8]
                + vstd::utf8::encode_utf8(password),
        ) == Some((realm, username, password)),
        base64_decoding(payload) == Some(
            vstd::utf8::encode_utf8(realm) + seq![0u8] + vstd::utf8::encode_utf8(username) + seq![0u8]
                + vstd::utf8::encode_utf8(password),
        ) ==> payload_credentials(payload) == Some((realm, username, password)),
{
    broadcast use vstd::utf8::encode_utf8_valid_utf8, vstd::utf8::encode_utf8_decode_utf8;

    lemma_encoding_has_no_zero_byte(realm);
    lemma_encoding_has_no_zero_byte(username);
    lemma_encoding_has_no_zero_byte(password);
    law_sasl_plain_fields_roundtrip(
        vstd::utf8::encode_utf8(realm),
        vstd::utf8::encode_utf8(username),
        vstd::utf8::encode_utf8(password),
    );
}

/// Position of the first zero byte in `bytes[lo..hi]`, counted in `bytes`.
fn find_zero(bytes: &[u8], lo: usize, hi: usize) -> (r: Option<usize>)
    requires
        lo <= hi <= bytes@.len(),
    ensures
        match r {
            Some(k) => lo <= k < hi && text::first_index_of(
                bytes@.subrange(lo as int, hi as int),
                0u8,
            ) == Some(k - lo),
            None => text::first_index_of(bytes@.subrange(lo as int, hi as int), 0u8) is None,
        },
{
    let ghost s = bytes@.subrange(lo as int, hi as int);
    let mut k = lo;
    while k < hi
        invariant
            lo <= k <= hi,
            hi <= bytes@.len(),
            s == bytes@.subrange(lo as int, hi as int),
            forall|j: int| lo <= j < k ==> bytes@[j] != 0u8,
        decreases hi - k,
    {
        if bytes[k] == 0u8 {
            proof {
                assert forall|j: int| 0 <= j < k - lo implies s[j] != 0u8 by {
                    assert(s[j] == bytes@[lo + j]);
                }
                assert(text::is_first_index(s, 0u8, k - lo));
                text::lemma_first_index_is(s, 0u8, k - lo);
            }
            return Some(k);
        }
        k = k + 1;
    }
    proof {
        assert forall|j: int| 0 <= j < s.len() implies s[j] != 0u8 by {
            assert(s[j] == bytes@[lo + j]);
        }
        text::lemma_first_index_absent(s, 0u8);
    }
    None
}

/// Realm, user name and password of the decoded SASL PLAIN message `message`;
/// `None` when it has fewer than two zero bytes or a field is not UTF-8.
pub fn split_sasl_plain(message: &[u8]) -> (r: Option<(String, String, String)>)
    ensures
        match r {
            Some((realm, username, password)) => sasl_plain_credentials(message@) == Some(
                (realm@, username@, password@),
            ),
            None => sasl_plain_credentials(message@) is None,
        },
{
    let n = message.len();
    proof {
        assert(message@.subrange(0, n as int) =~= message@);
    }
    let first = match find_zero(message, 0, n) {
        Some(k) => k,
        None => {
            return None;
        },
    };
    proof {
        text::lemma_window_cut(message@, 0, n as int, 0u8, first as int);
    }
    let second = match find_zero(message, first + 1, n) {
        Some(k) => k,
        None => {
            return None;
        },
    };
    proof {
        text::lemma_window_cut(message@, first + 1, n as int, 0u8, second as int);
    }
    let third = match find_zero(message, second + 1, n) {
        Some(k) => {
            proof {
                text::lemma_window_cut(message@, second + 1, n as int, 0u8, k as int);
            }
            k
        },
        None => n,
    };
    let realm = string_from_utf8(vstd::slice::slice_subrange(message, 0, first));
    let username = string_from_utf8(vstd::slice::slice_subrange(message, first + 1, second));
    let password = string_from_utf8(vstd::slice::slice_subrange(message, second + 1, third));
    match (realm, username, password) {
        (Some(realm), Some(username), Some(password)) => Some((realm, username, password)),
        _ => None,
    }
}

/// Decodes the base64 SASL PLAIN payload and extracts realm, user name and
/// password; `None` when the payload is not base64 or the decoded message is
/// not as `split_sasl_plain` requires.
pub fn find_payload_credentials(payload: &str) -> (r: Option<(String, String, String)>)
    ensures
        match r {
            Some((realm, username, password)) => payload_credentials(payload@) == Some(
                (realm@, username@, password@),
            ),
            None => payload_credentials(payload@) is None,
        },
        forall|message: Seq<u8>| #[trigger] base64_encoding(message) == payload@ ==> match sasl_plain_credentials(
            message,
        ) {
            Some((x, y, z)) => r matches Some((realm, username, password)) && realm@ == x && username@ == y
                && password@ == z,
            None => r is None,
        },
        forall|realm: Seq<char>, username: Seq<char>, password: Seq<char>|
            #![trigger base64_encoding(sasl_plain_message(realm, username, password))]
            !text::occurs(realm, '\0') && !text::occurs(username, '\0') && !text::occurs(password, '\0')
                && base64_encoding(sasl_plain_message(realm, username, password)) == payload@ ==> (r matches Some(
                (x, y, z),
            ) && x@ == realm && y@ == username && z@ == password),
{
    let r = match decode_base64(payload) {
        Some(message) => split_sasl_plain(message.as_slice()),
        None => None,
    };
    proof {
        assert forall|realm: Seq<char>, username: Seq<char>, password: Seq<char>|
            !text::occurs(realm, '\0') && !text::occurs(username, '\0') && !text::occurs(password, '\0')
                && #[trigger] base64_encoding(sasl_plain_message(realm, username, password)) == payload@ implies (r matches Some(
            (x, y, z),
        ) && x@ == realm && y@ == username && z@ == password) by {
            law_sasl_plain_credentials_roundtrip(payload@, realm, username, password);
        }
    }
    r
}

/// Realm, user name and password carried by the base64 SASL PLAIN payload
/// `plain_sasl_base64_auth`, which must decode to a readable SASL PLAIN message.
pub fn extract_real_username_password(plain_sasl_base64_auth: &str) -> (r: (String, String, String))
    requires
        payload_credentials(plain_sasl_base64_auth@) is Some,
    ensures
        payload_credentials(plain_sasl_base64_auth@) == Some((r.0@, r.1@, r.2@)),
{
    match find_payload_credentials(plain_sasl_base64_auth) {
        Some(credentials) => credentials,
        None => {
            assert(false);
            (String::new(), String::new(), String::new())
        },
    }
}

/// The base64 payload of the `<auth>` element `sasl_auth`: the text after its
/// first `>`, up to the next `<`; `None` when it holds no `>`.
fn find_auth_payload(sasl_auth: &str) -> (r: Option<String>)
    ensures
        match r {
            Some(payload) => auth_payload(sasl_auth@) == Some(payload@),
            None => auth_payload(sasl_auth@) is None,
        },
{
    let v = text::chars_of(sasl_auth);
    let n = v.len();
    proof {
        assert(v@.subrange(0, n as int) =~= v@);
    }
    let start = match text::find_first(&v, 0, n, '>') {
        Some(k) => k + 1,
        None => {
            return None;
        },
    };
    proof {
        text::lemma_window_cut(v@, 0, n as int, '>', start - 1);
    }
    let end = text::end_before_first(&v, start, n, '<');
    let payload = text::substring(sasl_auth, start, end);
    proof {
        assert(payload@ == v@.subrange(start as int, end as int));
    }
    Some(payload)
}

/// Realm, user name and password carried by the `<auth>` element `sasl_auth`;
/// `None` when it carries no readable SASL PLAIN credentials.
pub fn find_login_credentials(sasl_auth: &str) -> (r: Option<(String, String, String)>)
    ensures
        match r {
            Some((realm, username, password)) => login_credentials(sasl_auth@) == Some(
                (realm@, username@, password@),
            ),
            None => login_credentials(sasl_auth@) is None,
        },
{
    match find_auth_payload(sasl_auth) {
        Some(payload) => find_payload_credentials(payload.as_str()),
        None => None,
    }
}

/// The outcome of a login: the user name when it succeeded (empty when it
/// failed) and the answer to send back.
pub struct LoginOutcome {
    pub username: String,
    pub answer: String,
}

/// Treats an `<auth>` element that carries readable SASL PLAIN credentials:
/// checks them with `account_storer` and gives the user name (empty when the
/// login fails) and the answer to send.
pub fn treat_login(account_storer: &JsonAccountStorer, sasl_auth: &str) -> (outcome: LoginOutcome)
    requires
        login_credentials(sasl_auth@) is Some,
    ensures
        ({
            let (realm, username, password) = login_credentials(sasl_auth@).unwrap();
            let accounts = account_storer.accounts();
            if accounts.contains_key(username) && accounts[username] == password {
                outcome.username@ == username && outcome.answer@ == sasl_success()
            } else {
                outcome.username@ == Seq::<char>::empty() && outcome.answer@ == sasl_failure()
            }
        }),
{
    let payload = match find_auth_payload(sasl_auth) {
        Some(payload) => payload,
        None => {
            assert(false);
            String::new()
        },
    };
    let (_realm, username, password) = extract_real_username_password(payload.as_str());
    if account_storer.is_login_correct(username.as_str(), password.as_str()) {
        LoginOutcome {
            username,
            answer: String::from_str("<success xmlns='urn:ietf:params:xml:ns:xmpp-sasl'/>"),
        }
    } else {
        LoginOutcome {
            username: String::new(),
            answer: String::from_str(
                "<failure xmlns='urn:ietf:params:xml:ns:xmpp-sasl'><not-authorized/></failure>",
            ),
        }
    }
}

} // verus!
