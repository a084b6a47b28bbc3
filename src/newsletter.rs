use vstd::prelude::*;
use vstd::utf8::{decode_utf8, valid_utf8};

use argon2::PasswordVerifier;

use crate::http::{Header, Response, ResponseView};

verus! {

/// The body of a publish request.
#[derive(Debug)]
pub struct BodyData {
    pub title: String,
    pub content: Content,
}

/// An issue's content in both renderings.
#[derive(Debug)]
pub struct Content {
    pub html: String,
    pub text: String,
}

/// Why a publish request was refused.
#[derive(Debug)]
pub enum PublishError {
    /// The caller could not be authenticated; the message says why.
    AuthError(String),
    /// Something failed on the server side.
    UnexpectedError(String),
}

pub const UNAUTHORIZED: u16 = 401;

pub const INTERNAL_SERVER_ERROR: u16 = 500;

/// The response for each error: 500 with nothing else, or 401 with a
/// `WWW-Authenticate` challenge for the `publish` realm.
pub open spec fn error_response_spec(e: PublishError) -> ResponseView {
    match e {
        PublishError::UnexpectedError(_) => ResponseView {
            status: INTERNAL_SERVER_ERROR,
            headers: Seq::empty(),
            body: Seq::empty(),
        },
        PublishError::AuthError(_) => ResponseView {
            status: UNAUTHORIZED,
            headers: seq![("WWW-Authenticate"@, "Basic realm=\"publish\""@)],
            body: Seq::empty(),
        },
    }
}

impl PublishError {
    pub fn error_response(&self) -> (r: Response)
        ensures
            r@ == error_response_spec(*self),
    {
        match self {
            PublishError::UnexpectedError(_) => {
                let r = Response { status: INTERNAL_SERVER_ERROR, headers: Vec::new(), body: Vec::new() };
                assert(r@.headers =~= Seq::empty());
                r
            },
            PublishError::AuthError(_) => {
                let mut headers: Vec<Header> = Vec::new();
                headers.push(
                    Header {
                        name: String::from_str("WWW-Authenticate"),
                        value: String::from_str("Basic realm=\"publish\""),
                    },
                );
                let r = Response { status: UNAUTHORIZED, headers, body: Vec::new() };
                assert(r@.headers =~= seq![("WWW-Authenticate"@, "Basic realm=\"publish\""@)]);
                r
            },
        }
    }
}

/// A username and password taken from a `Basic` authorization header.
#[derive(Debug)]
pub struct Credentials {
    pub username: String,
    pub password: String,
}

/// Why an authorization header did not yield credentials.
#[derive(Debug, Clone, Copy, PartialEq, Eq, Structural)]
pub enum CredentialsError {
    MissingHeader,
    NotBasicScheme,
    NotBase64,
    NotUtf8,
    MissingPassword,
}

/// What standard base64 decoding makes of `s`, if it is valid base64.
pub uninterp spec fn base64_standard_decode(s: Seq<char>) -> Option<Seq<u8>>;

/// Relies on base64::decode (standard alphabet, padded): the decoded bytes, or
/// an error for input that is not base64.
#[verifier::external_body]
fn decode_base64(s: &str) -> (r: Option<Vec<u8>>)
    ensures
        r is Some <==> base64_standard_decode(s@) is Some,
        r matches Some(v) ==> base64_standard_decode(s@) == Some(v@),
{
    base64::decode(s).ok()
}

/// Relies on `String::from_utf8`: succeeds exactly on valid UTF-8 and keeps
/// the characters it encodes.
#[verifier::external_body]
pub(crate) fn string_from_utf8(b: Vec<u8>) -> (r: Option<String>)
    ensures
        r is Some <==> valid_utf8(b@),
        r matches Some(s) ==> s@ == decode_utf8(b@),
{
    String::from_utf8(b).ok()
}

pub open spec fn is_first_colon(t: Seq<char>, i: int) -> bool {
    &&& 0 <= i < t.len()
    &&& t[i] == ':'
    &&& forall|j: int| 0 <= j < i ==> #[trigger] t[j] != ':'
}

/// `user:password`, split at the first colon; the password may hold colons.
pub open spec fn split_credentials(t: Seq<char>) -> Result<(Seq<char>, Seq<char>), CredentialsError> {
    if exists|i: int| is_first_colon(t, i) {
        let i = choose|i: int| is_first_colon(t, i);
        Ok((t.take(i), t.skip(i + 1)))
    } else {
        Err(CredentialsError::MissingPassword)
    }
}

pub open spec fn decoded_credentials(b: Seq<u8>) -> Result<(Seq<char>, Seq<char>), CredentialsError> {
    if !valid_utf8(b) {
        Err(CredentialsError::NotUtf8)
    } else {
        split_credentials(decode_utf8(b))
    }
}

pub open spec fn basic_scheme() -> Seq<char> {
    "Basic "@
}

/// The credentials that an `Authorization` header value carries.
pub open spec fn basic_credentials(h: Option<Seq<char>>) -> Result<(Seq<char>, Seq<char>), CredentialsError> {
    match h {
        None => Err(CredentialsError::MissingHeader),
        Some(h) => if !(h.len() >= 6 && h.take(6) == basic_scheme()) {
            Err(CredentialsError::NotBasicScheme)
        } else {
            match base64_standard_decode(h.skip(6)) {
                None => Err(CredentialsError::NotBase64),
                Some(b) => decoded_credentials(b),
            }
        },
    }
}

pub open spec fn credentials_match(
    r: Result<Credentials, CredentialsError>,
    v: Result<(Seq<char>, Seq<char>), CredentialsError>,
) -> bool {
    match r {
        Ok(c) => v == Ok::<_, CredentialsError>((c.username@, c.password@)),
        Err(e) => v == Err::<(Seq<char>, Seq<char>), _>(e),
    }
}

/// Splits decoded `user:password` bytes into credentials.
#[verifier::loop_isolation(false)]
pub fn credentials_from_decoded(bytes: Vec<u8>) -> (r: Result<Credentials, CredentialsError>)
    ensures
        credentials_match(r, decoded_credentials(bytes@)),
{
    let ghost b = bytes@;
    let pair = match string_from_utf8(bytes) {
        None => {
            return Err(CredentialsError::NotUtf8);
        },
        Some(s) => s,
    };
    let t = pair.as_str();
    let n = t.unicode_len();
    let mut i: usize = 0;
    while i < n
        invariant
            n == t@.len(),
            t@ == decode_utf8(b),
            valid_utf8(b),
            i <= n,
            forall|j: int| 0 <= j < i ==> #[trigger] t@[j] != ':',
        decreases n - i,
    {
        if t.get_char(i) == ':' {
            proof {
                assert(is_first_colon(t@, i as int));
                let k = choose|k: int| is_first_colon(t@, k);
                assert(k == i) by {
                    if k < i {
                        assert(t@[k] != ':');
                    } else if k > i {
                        assert(t@[i as int] != ':');
                    }
                }
            }
            let username = String::from_str(t.substring_char(0, i));
            let password = String::from_str(t.substring_char(i + 1, n));
            assert(username@ =~= t@.take(i as int));
            assert(password@ =~= t@.skip(i + 1));
            return Ok(Credentials { username, password });
        }
        i = i + 1;
    }
    proof {
        assert forall|k: int| !is_first_colon(t@, k) by {
            if is_first_colon(t@, k) {
                assert(t@[k] != ':');
            }
        }
    }
    Err(CredentialsError::MissingPassword)
}

/// Reads `Basic <base64 of user:password>` credentials from the value of an
/// `Authorization` header, if there is one.
#[verifier::loop_isolation(false)]
pub fn basic_authentication(auth_header: Option<&str>) -> (r: Result<Credentials, CredentialsError>)
    ensures
        credentials_match(
            r,
            basic_credentials(
                match auth_header {
                    Some(h) => Some(h@),
                    None => None,
                },
            ),
        ),
{
    let h = match auth_header {
        None => {
            return Err(CredentialsError::MissingHeader);
        },
        Some(h) => h,
    };
    let scheme = "Basic ";
    proof {
        reveal_strlit("Basic ");
    }
    let n = h.unicode_len();
    if n < 6 {
        return Err(CredentialsError::NotBasicScheme);
    }
    let mut i: usize = 0;
    while i < 6
        invariant
            n == h@.len(),
            n >= 6,
            scheme@ == basic_scheme(),
            scheme@.len() == 6,
            i <= 6,
            forall|j: int| 0 <= j < i ==> #[trigger] h@[j] == scheme@[j],
        decreases 6 - i,
    {
        if h.get_char(i) != scheme.get_char(i) {
            assert(h@.take(6)[i as int] != basic_scheme()[i as int]);
            return Err(CredentialsError::NotBasicScheme);
        }
        i = i + 1;
    }
    assert(h@.take(6) =~= basic_scheme());
    let encoded = h.substring_char(6, n);
    assert(encoded@ =~= h@.skip(6));
    match decode_base64(encoded) {
        None => Err(CredentialsError::NotBase64),
        Some(bytes) => credentials_from_decoded(bytes),
    }
}

/// Whether `s` parses as a PHC password hash string.
pub uninterp spec fn phc_string_parses(s: Seq<char>) -> bool;

/// Whether Argon2, with default parameters, accepts `password` for the PHC
/// hash string `phc`.
pub uninterp spec fn argon2_accepts(phc: Seq<char>, password: Seq<char>) -> bool;

/// Relies on `PasswordHash::new`, which fails exactly on a malformed PHC
/// string, and on `Argon2::verify_password` with default parameters, whose
/// verdict depends on the stored hash and the candidate alone.
#[verifier::external_body]
fn argon2_check(phc: &str, candidate: &str) -> (r: Option<bool>)
    ensures
        r is Some <==> phc_string_parses(phc@),
        r matches Some(b) ==> b == argon2_accepts(phc@, candidate@),
{
    match argon2::PasswordHash::new(phc) {
        Err(_) => None,
        Ok(h) => Some(argon2::Argon2::default().verify_password(candidate.as_bytes(), &h).is_ok()),
    }
}

/// Checks `password_candidate` against the stored PHC string: a malformed
/// stored hash is a server-side error, a mismatch an authentication error.
pub fn verify_password_hash(expected_password_hash: &str, password_candidate: &str) -> (r: Result<
    (),
    PublishError,
>)
    ensures
        !phc_string_parses(expected_password_hash@) ==> r matches Err(
            PublishError::UnexpectedError(_),
        ),
        phc_string_parses(expected_password_hash@) ==> (r is Ok <==> argon2_accepts(
            expected_password_hash@,
            password_candidate@,
        )),
        phc_string_parses(expected_password_hash@) && !argon2_accepts(
            expected_password_hash@,
            password_candidate@,
        ) ==> r matches Err(PublishError::AuthError(_)),
{
    match argon2_check(expected_password_hash, password_candidate) {
        None => Err(
            PublishError::UnexpectedError(
                String::from_str("Unable to parse hash in PHC string format."),
            ),
        ),
        Some(true) => Ok(()),
        Some(false) => Err(PublishError::AuthError(String::from_str("Invalid password."))),
    }
}

} // verus!
