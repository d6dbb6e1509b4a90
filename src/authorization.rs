use vstd::prelude::*;
use vstd::string::StrSliceExecFns;
use vstd::utf8::{decode_utf8, valid_utf8};

verus! {

/// The bytes that a standard base64 text encodes, or none when it is not valid base64.
pub uninterp spec fn base64_decoded(s: Seq<char>) -> Option<Seq<u8>>;

/// Relies on `base64::decode` (standard alphabet, padded): the decoded bytes, or an error
/// when the input is not valid base64. The result depends on the input alone.
#[verifier::external_body]
fn decode_base64(s: &str) -> (r: Option<Vec<u8>>)
    ensures
        match r {
            Some(v) => base64_decoded(s@) == Some(v@),
            None => base64_decoded(s@) is None,
        },
{
    base64::decode(s).ok()
}

/// Relies on `String::from_utf8`: the text when the bytes are valid UTF-8, an error otherwise.
#[verifier::external_body]
fn utf8_text(bytes: Vec<u8>) -> (r: Option<String>)
    ensures
        match r {
            Some(t) => valid_utf8(bytes@) && t@ == decode_utf8(bytes@),
            None => !valid_utf8(bytes@),
        },
{
    String::from_utf8(bytes).ok()
}

/// A user name and password taken from a Basic authorization header.
pub struct Credentials {
    pub username: String,
    pub password: String,
}

/// The payload of a header could not be read as credentials.
#[derive(Clone, Copy, Debug, PartialEq, Eq, Structural)]
pub struct CredentialsError;

/// The characters of `s` before its first colon (all of them when it has none).
pub open spec fn until_colon(s: Seq<char>) -> Seq<char>
    decreases s.len(),
{
    if s.len() == 0 {
        s
    } else if s[0] == ':' {
        Seq::empty()
    } else {
        seq![s[0]] + until_colon(s.drop_first())
    }
}

/// `user:password` read from text: the user name ends at the first colon, the password
/// at the next one or at the end. None when the text has no colon.
pub open spec fn credentials_of(t: Seq<char>) -> Option<(Seq<char>, Seq<char>)> {
    let user = until_colon(t);
    if user.len() == t.len() {
        None
    } else {
        Some((user, until_colon(t.skip(user.len() as int + 1))))
    }
}

/// The credentials that decoded bytes hold, when they are UTF-8 text with a colon.
pub open spec fn credentials_of_bytes(b: Seq<u8>) -> Option<(Seq<char>, Seq<char>)> {
    if valid_utf8(b) {
        credentials_of(decode_utf8(b))
    } else {
        None
    }
}

/// The text after `Basic` and one separating character.
pub open spec fn basic_payload(h: Seq<char>) -> Option<Seq<char>> {
    if h.len() > 6 && h.take(5) == seq!['B', 'a', 's', 'i', 'c'] {
        Some(h.skip(6))
    } else {
        None
    }
}

/// The credentials that a Basic payload encodes.
pub open spec fn credentials_of_payload(p: Seq<char>) -> Option<(Seq<char>, Seq<char>)> {
    match base64_decoded(p) {
        Some(b) => credentials_of_bytes(b),
        None => None,
    }
}

/// The credentials that an authorization header carries.
pub open spec fn credentials_of_header(h: Seq<char>) -> Option<(Seq<char>, Seq<char>)> {
    match basic_payload(h) {
        Some(p) => credentials_of_payload(p),
        None => None,
    }
}

pub open spec fn found(r: Option<Credentials>, c: Option<(Seq<char>, Seq<char>)>) -> bool {
    match r {
        Some(x) => c == Some((x.username@, x.password@)),
        None => c is None,
    }
}

proof fn lemma_until_colon(s: Seq<char>, p: int)
    requires
        0 <= p <= s.len(),
        forall|k: int| 0 <= k < p ==> #[trigger] s[k] != ':',
        p == s.len() || s[p] == ':',
    ensures
        until_colon(s) == s.take(p),
    decreases p,
{
    if p == 0 {
        assert(s.take(0) =~= Seq::<char>::empty());
    } else {
        let t = s.drop_first();
        assert forall|k: int| 0 <= k < p - 1 implies #[trigger] t[k] != ':' by {
            assert(t[k] == s[k + 1]);
        }
        lemma_until_colon(t, p - 1);
        assert(s.take(p) =~= seq![s[0]] + t.take(p - 1));
    }
}

/// Position of the first colon of `s` at or after `from`, or the length of `s`.
fn next_colon(s: &str, from: usize, len: usize) -> (r: usize)
    requires
        len == s@.len(),
        from <= len,
    ensures
        from <= r <= len,
        forall|k: int| from <= k < r ==> #[trigger] s@[k] != ':',
        r == len || s@[r as int] == ':',
{
    let mut i = from;
    while i < len && s.get_char(i) != ':'
        invariant
            from <= i <= len,
            len == s@.len(),
            forall|k: int| from <= k < i ==> #[trigger] s@[k] != ':',
        decreases len - i,
    {
        i = i + 1;
    }
    i
}

impl Credentials {
    /// Reads `user:password` from text; see `credentials_of`.
    pub fn from_text(text: &str) -> (r: Option<Credentials>)
        ensures
            found(r, credentials_of(text@)),
    {
        let len = text.unicode_len();
        let p = next_colon(text, 0, len);
        proof {
            lemma_until_colon(text@, p as int);
        }
        if p == len {
            return None;
        }
        let q = next_colon(text, p + 1, len);
        proof {
            let rest = text@.skip(p + 1);
            assert forall|k: int| 0 <= k < q - (p + 1) implies #[trigger] rest[k] != ':' by {
                assert(rest[k] == text@[k + p + 1]);
            }
            if q < len {
                assert(rest[q - (p + 1)] == text@[q as int]);
            }
            lemma_until_colon(rest, q - (p + 1));
            assert(rest.take(q - (p + 1)) =~= text@.subrange(p + 1, q as int));
        }
        let username = text.substring_char(0, p).to_owned();
        let password = text.substring_char(p + 1, q).to_owned();
        proof {
            assert(text@.take(p as int) =~= text@.subrange(0, p as int));
        }
        Some(Credentials { username, password })
    }

    /// Reads credentials from decoded bytes; see `credentials_of_bytes`.
    pub fn from_decoded(bytes: Vec<u8>) -> (r: Option<Credentials>)
        ensures
            found(r, credentials_of_bytes(bytes@)),
    {
        match utf8_text(bytes) {
            Some(text) => Credentials::from_text(text.as_str()),
            None => None,
        }
    }

    /// Reads credentials from a base64 payload; see `credentials_of_payload`.
    pub fn from_payload(payload: &str) -> (r: Option<Credentials>)
        ensures
            found(r, credentials_of_payload(payload@)),
    {
        match decode_base64(payload) {
            Some(bytes) => Credentials::from_decoded(bytes),
            None => None,
        }
    }
}

impl std::str::FromStr for Credentials {
    type Err = CredentialsError;

    fn from_str(s: &str) -> Result<Credentials, CredentialsError> {
        match Credentials::from_payload(s) {
            Some(c) => Ok(c),
            None => Err(CredentialsError),
        }
    }
}

/// The credentials of a `Basic` authorization header, if it carries any.
pub fn decrypt_basic_header(header: String) -> (r: Option<Credentials>)
    ensures
        found(r, credentials_of_header(header@)),
{
    let h = header.as_str();
    let len = h.unicode_len();
    if len <= 6 {
        return None;
    }
    let scheme = h.substring_char(0, 5);
    let ghost expected = seq!['B', 'a', 's', 'i', 'c'];
    if scheme.get_char(0) != 'B' || scheme.get_char(1) != 'a' || scheme.get_char(2) != 's'
        || scheme.get_char(3) != 'i' || scheme.get_char(4) != 'c' {
        proof {
            assert(h@.take(5) != expected) by {
                assert(h@.take(5) =~= scheme@);
                if h@.take(5) == expected {
                    assert(scheme@[0] == 'B' && scheme@[1] == 'a' && scheme@[2] == 's');
                    assert(scheme@[3] == 'i' && scheme@[4] == 'c');
                }
            }
        }
        return None;
    }
    assert(h@.take(5) =~= expected);
    let payload = h.substring_char(6, len);
    assert(payload@ =~= h@.skip(6));
    Credentials::from_payload(payload)
}

} // verus!
