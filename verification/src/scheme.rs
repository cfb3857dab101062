//! Credential schemes: pure functions from a raw header parameter to a typed
//! credential request, one per authentication scheme (Basic, Bearer). Each
//! scheme declares its header name, its prefix token and its policy flags.

use vstd::prelude::*;
use vstd::string::StrSliceExecFns;
use vstd::utf8::decode_utf8;
use vstd::utf8::valid_utf8;
use crate::storage::Storage;
use crate::AuthError;
use crate::SchemePolicy;

verus! {

/// A hard failure while decoding a credential parameter: the client sent a
/// malformed credential, distinct from a credential that merely fails lookup.
#[derive(Clone, Copy, Debug, PartialEq, Eq, Structural)]
pub enum DecodeError {
    /// The Basic credential parameter was not valid base64.
    InvalidBase64,
    /// The base64 payload of a Basic credential was not valid UTF-8 text.
    InvalidUtf8,
}

/// What `base64::decode` yields on a given input: `None` where the input is
/// not valid base64 as `base64::decode` accepts it (standard alphabet; padded
/// or unpadded canonical input), otherwise the decoded bytes. The decoding is
/// a function of the input characters alone.
pub uninterp spec fn base64_decoding(s: Seq<char>) -> Option<Seq<u8>>;

/// Relies on `base64::decode`: it returns the base64 decoding of its input
/// (standard alphabet; padded or unpadded canonical input), or an error where
/// the input is not valid base64; the result depends on the input alone.
#[verifier::external_body]
fn base64_decode(s: &str) -> (r: Option<Vec<u8>>)
    ensures
        r is Some <==> base64_decoding(s@) is Some,
        r is Some ==> r->Some_0@ == base64_decoding(s@)->Some_0,
{
    match base64::decode(s) {
        Ok(bytes) => Some(bytes),
        Err(_) => None,
    }
}

/// Relies on `String::from_utf8`: it returns `Ok` exactly when the bytes are
/// valid UTF-8, and the resulting string is their decoding.
#[verifier::external_body]
fn utf8_decode(bytes: Vec<u8>) -> (r: Option<String>)
    ensures
        r is Some <==> valid_utf8(bytes@),
        r is Some ==> r->Some_0@ == decode_utf8(bytes@),
{
    match String::from_utf8(bytes) {
        Ok(text) => Some(text),
        Err(_) => None,
    }
}

/// Does `s` start with `prefix`?
fn str_starts_with(s: &str, prefix: &str) -> (r: bool)
    ensures
        r == prefix@.is_prefix_of(s@),
{
    let n = prefix.unicode_len();
    let m = s.unicode_len();
    if n > m {
        return false;
    }
    let mut i: usize = 0;
    while i < n
        invariant
            n == prefix@.len(),
            m == s@.len(),
            n <= m,
            i <= n,
            forall|j: int| 0 <= j < i ==> s@[j] == prefix@[j],
        decreases n - i,
    {
        if s.get_char(i) != prefix.get_char(i) {
            proof {
                assert(!prefix@.is_prefix_of(s@)) by {
                    if prefix@.is_prefix_of(s@) {
                        assert(prefix@[i as int] == s@.subrange(0, n as int)[i as int]);
                    }
                }
            }
            return false;
        }
        i += 1;
    }
    proof {
        assert(prefix@ =~= s@.subrange(0, n as int));
    }
    true
}

/// If `value` belongs to the scheme whose prefix token is `prefix`, the
/// parameter after the prefix; `None` where the value is another scheme's and
/// is to be skipped.
pub fn match_scheme_prefix<'a>(prefix: &str, value: &'a str) -> (r: Option<&'a str>)
    ensures
        r is Some <==> prefix@.is_prefix_of(value@),
        r is Some ==> r->Some_0@ == value@.skip(prefix@.len() as int),
{
    if str_starts_with(value, prefix) {
        let n = prefix.unicode_len();
        let m = value.unicode_len();
        let rest = value.substring_char(n, m);
        proof {
            assert(rest@ =~= value@.skip(n as int));
        }
        Some(rest)
    } else {
        None
    }
}

/// The index of the first colon in `s`, if any.
fn find_colon(s: &str) -> (r: Option<usize>)
    ensures
        match r {
            Some(i) => s@.index_of_first(':') == Some(i as int),
            None => s@.index_of_first(':') is None,
        },
{
    let n = s.unicode_len();
    let mut i: usize = 0;
    while i < n
        invariant
            n == s@.len(),
            i <= n,
            forall|j: int| 0 <= j < i ==> s@[j] != ':',
        decreases n - i,
    {
        if s.get_char(i) == ':' {
            proof {
                s@.index_of_first_ensures(':');
                assert(s@.contains(':')) by {
                    assert(s@[i as int] == ':');
                }
                let idx = s@.index_of_first(':')->Some_0;
                assert(idx == i as int) by {
                    assert(s@[idx] == ':');
                    assert(forall|j: int| 0 <= j < idx ==> s@[j] != ':');
                }
            }
            return Some(i);
        }
        i += 1;
    }
    proof {
        s@.index_of_first_ensures(':');
        assert(!s@.contains(':')) by {
            assert(forall|j: int| 0 <= j < s@.len() ==> s@[j] != ':');
        }
    }
    None
}

/// Split decoded credential text at its first colon into username and
/// password. The split point is the first colon only: the password may itself
/// contain colons. `None` where no colon is present: the credential is
/// absent, a recoverable no-match rather than a hard error.
pub fn split_credentials(text: &str) -> (r: Option<BasicAuthRequest>)
    ensures
        ({
            match text@.index_of_first(':') {
                Option::Some(i) => {
                    &&& r is Some
                    &&& r->Some_0.username@ == text@.take(i)
                    &&& r->Some_0.password@ == text@.skip(i + 1)
                },
                Option::None => r is None,
            }
        }),
{
    let i = match find_colon(text) {
        Some(i) => i,
        None => {
            return None;
        },
    };
    let n = text.unicode_len();
    proof {
        text@.index_of_first_ensures(':');
        assert(0 <= i < n);
    }
    let username = text.substring_char(0, i).to_owned();
    let password = text.substring_char(i + 1, n).to_owned();
    proof {
        assert(username@ =~= text@.take(i as int));
        assert(password@ =~= text@.skip(i + 1));
    }
    Some(BasicAuthRequest { username, password })
}

/// The spec-level outcome of decoding a Basic credential parameter.
pub enum BasicDecoding {
    /// The parameter is not valid base64: a hard failure.
    BadBase64,
    /// The base64 payload is not valid UTF-8: a hard failure.
    BadUtf8,
    /// Well-formed text without a colon: the credential is absent, a
    /// recoverable no-match rather than a failure.
    Missing,
    /// Username and password, split at the first colon; the password may
    /// itself contain colons.
    Credentials { username: Seq<char>, password: Seq<char> },
}

/// What decoding a Basic credential parameter must yield: base64-decode,
/// read the bytes as UTF-8 text, split the text at its first colon.
pub open spec fn basic_decoding(p: Seq<char>) -> BasicDecoding {
    match base64_decoding(p) {
        Option::None => BasicDecoding::BadBase64,
        Option::Some(bytes) => if !valid_utf8(bytes) {
            BasicDecoding::BadUtf8
        } else {
            let text = decode_utf8(bytes);
            match text.index_of_first(':') {
                Option::None => BasicDecoding::Missing,
                Option::Some(i) => BasicDecoding::Credentials {
                    username: text.take(i),
                    password: text.skip(i + 1),
                },
            }
        },
    }
}

/// Exactly the results a Basic decode may return on parameter `p`.
pub open spec fn basic_decode_ok(p: Seq<char>, r: Result<Option<BasicAuthRequest>, DecodeError>) -> bool {
    match basic_decoding(p) {
        BasicDecoding::BadBase64 => r == Result::<Option<BasicAuthRequest>, DecodeError>::Err(DecodeError::InvalidBase64),
        BasicDecoding::BadUtf8 => r == Result::<Option<BasicAuthRequest>, DecodeError>::Err(DecodeError::InvalidUtf8),
        BasicDecoding::Missing => r is Ok && r->Ok_0 is None,
        BasicDecoding::Credentials { username, password } => {
            &&& r is Ok
            &&& r->Ok_0 is Some
            &&& r->Ok_0->Some_0.username@ == username
            &&& r->Ok_0->Some_0.password@ == password
        },
    }
}

/// Decoding a Basic parameter is a pure function of the parameter: any two
/// results on the same parameter agree.
pub proof fn lemma_basic_decode_deterministic(
    p: Seq<char>,
    r1: Result<Option<BasicAuthRequest>, DecodeError>,
    r2: Result<Option<BasicAuthRequest>, DecodeError>,
)
    requires
        basic_decode_ok(p, r1),
        basic_decode_ok(p, r2),
    ensures
        r1 is Ok <==> r2 is Ok,
        r1 is Err ==> r1 == r2,
        r1 is Ok && r2 is Ok ==> (r1->Ok_0 is Some <==> r2->Ok_0 is Some),
        r1 is Ok && r1->Ok_0 is Some && r2 is Ok && r2->Ok_0 is Some
            ==> r1->Ok_0->Some_0.username@ == r2->Ok_0->Some_0.username@
            && r1->Ok_0->Some_0.password@ == r2->Ok_0->Some_0.password@,
{
}

/// The Basic authentication scheme: `Authorization: Basic base64(user:pass)`.
#[derive(Clone, Copy, Debug)]
pub struct BasicAuthScheme {
    /// How the middleware reacts to multiple header values and failed auth.
    pub policy: SchemePolicy,
}

impl Default for BasicAuthScheme {
    /// A Basic scheme with the default policy.
    fn default() -> (r: Self)
        ensures
            r.policy == SchemePolicy::default_policy(),
    {
        BasicAuthScheme { policy: SchemePolicy::default() }
    }
}

/// The credential a Basic header value decodes to.
#[derive(Debug, PartialEq, Eq)]
pub struct BasicAuthRequest {
    pub username: String,
    pub password: String,
}

impl BasicAuthScheme {
    /// Authenticate one raw parameter: decode it as a Basic credential and
    /// resolve the credential against the storage backend. A malformed
    /// parameter is a hard failure; a parameter without a colon carries no
    /// credential and yields `Ok(None)` without invoking storage; otherwise
    /// the backend decides, and its own failure propagates.
    pub fn authenticate<User, S: Storage<User, BasicAuthRequest>>(
        &self,
        state: &S,
        auth_param: &str,
    ) -> (r: Result<Option<User>, AuthError>)
        ensures
            ({
                let d = basic_decoding(auth_param@);
                &&& d is BadBase64 <==> r == Err::<Option<User>, AuthError>(
                    AuthError::Decode(DecodeError::InvalidBase64),
                )
                &&& d is BadUtf8 <==> r == Err::<Option<User>, AuthError>(
                    AuthError::Decode(DecodeError::InvalidUtf8),
                )
                &&& d is Missing ==> r == Ok::<Option<User>, AuthError>(None)
                &&& r matches Ok(Some(_)) ==> d is Credentials
                &&& r matches Err(AuthError::Storage(_)) ==> d is Credentials
            }),
    {
        let request = match self.decode(auth_param) {
            Err(e) => {
                return Err(AuthError::Decode(e));
            },
            Ok(None) => {
                return Ok(None);
            },
            Ok(Some(request)) => request,
        };
        match state.get_user(request) {
            Ok(user) => Ok(user),
            Err(e) => Err(AuthError::Storage(e)),
        }
    }
}

/// The Bearer authentication scheme: `Authorization: Bearer token`, with a
/// configurable internal prefix that the token itself must start with.
#[derive(Debug)]
pub struct BearerAuthScheme {
    /// The internal prefix, distinct from the header scheme prefix; a token
    /// that does not start with it is no match for this scheme.
    pub prefix: String,
    /// How the middleware reacts to multiple header values and failed auth.
    pub policy: SchemePolicy,
}

impl Default for BearerAuthScheme {
    /// A Bearer scheme with an empty internal prefix and the default policy.
    fn default() -> (r: Self)
        ensures
            r.prefix@ == Seq::<char>::empty(),
            r.policy == SchemePolicy::default_policy(),
    {
        BearerAuthScheme { prefix: String::new(), policy: SchemePolicy::default() }
    }
}

/// The credential a Bearer header value decodes to.
#[derive(Debug, PartialEq, Eq)]
pub struct BearerAuthRequest {
    pub token: String,
}

impl BearerAuthScheme {
    /// Authenticate one raw parameter: a parameter that does not start with
    /// the configured internal prefix carries no credential for this scheme
    /// and yields `Ok(None)` without invoking storage; otherwise the token
    /// after the prefix goes to the backend, whose own failure propagates.
    pub fn authenticate<User, S: Storage<User, BearerAuthRequest>>(
        &self,
        state: &S,
        auth_param: &str,
    ) -> (r: Result<Option<User>, AuthError>)
        ensures
            ({
                let d = bearer_decoding(self.prefix@, auth_param@);
                &&& d is None ==> r == Ok::<Option<User>, AuthError>(None)
                &&& r is Err ==> (r matches Err(AuthError::Storage(_))) && d is Some
                &&& r matches Ok(Some(_)) ==> d is Some
            }),
    {
        let request = match self.decode(auth_param) {
            Err(e) => {
                return Err(AuthError::Decode(e));
            },
            Ok(None) => {
                return Ok(None);
            },
            Ok(Some(request)) => request,
        };
        match state.get_user(request) {
            Ok(user) => Ok(user),
            Err(e) => Err(AuthError::Storage(e)),
        }
    }
}

/// What decoding a Bearer parameter against internal prefix `prefix` must
/// yield: the token after the prefix, or no match.
pub open spec fn bearer_decoding(prefix: Seq<char>, p: Seq<char>) -> Option<Seq<char>> {
    if prefix.is_prefix_of(p) {
        Some(p.skip(prefix.len() as int))
    } else {
        None
    }
}

/// Exactly the results a Bearer decode may return on parameter `p`.
pub open spec fn bearer_decode_ok(prefix: Seq<char>, p: Seq<char>, r: Result<Option<BearerAuthRequest>, DecodeError>) -> bool {
    match bearer_decoding(prefix, p) {
        Option::None => r is Ok && r->Ok_0 is None,
        Option::Some(token) => {
            &&& r is Ok
            &&& r->Ok_0 is Some
            &&& r->Ok_0->Some_0.token@ == token
        },
    }
}

/// With an empty internal prefix, every parameter matches the Bearer scheme
/// and the token is the whole parameter.
pub proof fn lemma_bearer_empty_prefix(p: Seq<char>)
    ensures
        bearer_decoding(Seq::<char>::empty(), p) == Some(p),
{
    assert(Seq::<char>::empty().is_prefix_of(p)) by {
        assert(Seq::<char>::empty() =~= p.subrange(0, 0));
    }
    assert(p.skip(0) =~= p);
}

/// Decoding a Bearer parameter is a pure function of the parameter and the
/// configured internal prefix: any two results on the same parameter agree.
pub proof fn lemma_bearer_decode_deterministic(
    prefix: Seq<char>,
    p: Seq<char>,
    r1: Result<Option<BearerAuthRequest>, DecodeError>,
    r2: Result<Option<BearerAuthRequest>, DecodeError>,
)
    requires
        bearer_decode_ok(prefix, p, r1),
        bearer_decode_ok(prefix, p, r2),
    ensures
        r1 is Ok && r2 is Ok,
        r1->Ok_0 is Some <==> r2->Ok_0 is Some,
        r1->Ok_0 is Some && r2->Ok_0 is Some ==> r1->Ok_0->Some_0.token@
            == r2->Ok_0->Some_0.token@,
{
}

/// An authentication scheme: its header, its prefix token, its policy, and
/// how a raw header parameter decodes into a typed credential request.
pub trait Scheme: Sized {
    /// The typed credential this scheme decodes a header value into.
    type Request;

    /// The name of the header this scheme inspects.
    spec fn spec_header_name(&self) -> Seq<char>;

    /// The literal prefix a header value must start with to belong to this
    /// scheme (case-sensitive, includes the trailing separator).
    spec fn spec_scheme_name(&self) -> Seq<char>;

    /// The scheme's policy flags.
    spec fn spec_policy(&self) -> SchemePolicy;

    /// Exactly the results `decode` may return on `param`: a predicate that
    /// pins the result down to the decoding of the parameter.
    spec fn decode_ok(&self, param: Seq<char>, r: Result<Option<Self::Request>, DecodeError>) -> bool;

    /// The name of the header this scheme inspects.
    fn header_name(&self) -> (r: &'static str)
        ensures
            r@ == self.spec_header_name(),
    ;

    /// The scheme's prefix token.
    fn scheme_name(&self) -> (r: &'static str)
        ensures
            r@ == self.spec_scheme_name(),
    ;

    /// The scheme's policy flags.
    fn policy(&self) -> (r: SchemePolicy)
        ensures
            r == self.spec_policy(),
    ;

    /// Decode a raw header parameter (the value after the scheme prefix) into
    /// a typed credential request: `Ok(None)` where the parameter carries no
    /// credential for this scheme, `Err` where it is malformed.
    fn decode(&self, auth_param: &str) -> (r: Result<Option<Self::Request>, DecodeError>)
        ensures
            self.decode_ok(auth_param@, r),
    ;

    /// Decoding is a pure function of the parameter: any two results that
    /// `decode_ok` admits on the same parameter have the same shape, and a
    /// hard failure is the same failure. Every scheme owes this proof.
    proof fn lemma_decode_functional(
        &self,
        param: Seq<char>,
        r1: Result<Option<Self::Request>, DecodeError>,
        r2: Result<Option<Self::Request>, DecodeError>,
    )
        requires
            self.decode_ok(param, r1),
            self.decode_ok(param, r2),
        ensures
            r1 is Ok <==> r2 is Ok,
            r1 is Err ==> r1 == r2,
            r1 is Ok && r2 is Ok ==> (r1->Ok_0 is Some <==> r2->Ok_0 is Some),
    ;
}

impl Scheme for BasicAuthScheme {
    type Request = BasicAuthRequest;

    open spec fn spec_header_name(&self) -> Seq<char> {
        "Authorization"@
    }

    open spec fn spec_scheme_name(&self) -> Seq<char> {
        "Basic "@
    }

    open spec fn spec_policy(&self) -> SchemePolicy {
        self.policy
    }

    open spec fn decode_ok(&self, param: Seq<char>, r: Result<Option<BasicAuthRequest>, DecodeError>) -> bool {
        basic_decode_ok(param, r)
    }

    fn header_name(&self) -> (r: &'static str) {
        "Authorization"
    }

    fn scheme_name(&self) -> (r: &'static str) {
        "Basic "
    }

    fn policy(&self) -> (r: SchemePolicy) {
        self.policy
    }

    proof fn lemma_decode_functional(
        &self,
        param: Seq<char>,
        r1: Result<Option<BasicAuthRequest>, DecodeError>,
        r2: Result<Option<BasicAuthRequest>, DecodeError>,
    ) {
        lemma_basic_decode_deterministic(param, r1, r2);
    }

    fn decode(&self, auth_param: &str) -> (r: Result<Option<BasicAuthRequest>, DecodeError>) {
        let bytes = match base64_decode(auth_param) {
            Some(bytes) => bytes,
            None => {
                return Err(DecodeError::InvalidBase64);
            },
        };
        let text = match utf8_decode(bytes) {
            Some(text) => text,
            None => {
                return Err(DecodeError::InvalidUtf8);
            },
        };
        match split_credentials(text.as_str()) {
            Some(request) => Ok(Some(request)),
            None => Ok(None),
        }
    }
}

impl Scheme for BearerAuthScheme {
    type Request = BearerAuthRequest;

    open spec fn spec_header_name(&self) -> Seq<char> {
        "Authorization"@
    }

    open spec fn spec_scheme_name(&self) -> Seq<char> {
        "Bearer "@
    }

    open spec fn spec_policy(&self) -> SchemePolicy {
        self.policy
    }

    open spec fn decode_ok(&self, param: Seq<char>, r: Result<Option<BearerAuthRequest>, DecodeError>) -> bool {
        bearer_decode_ok(self.prefix@, param, r)
    }

    fn header_name(&self) -> (r: &'static str) {
        "Authorization"
    }

    fn scheme_name(&self) -> (r: &'static str) {
        "Bearer "
    }

    fn policy(&self) -> (r: SchemePolicy) {
        self.policy
    }

    proof fn lemma_decode_functional(
        &self,
        param: Seq<char>,
        r1: Result<Option<BearerAuthRequest>, DecodeError>,
        r2: Result<Option<BearerAuthRequest>, DecodeError>,
    ) {
        lemma_bearer_decode_deterministic(self.prefix@, param, r1, r2);
    }

    fn decode(&self, auth_param: &str) -> (r: Result<Option<BearerAuthRequest>, DecodeError>) {
        match match_scheme_prefix(self.prefix.as_str(), auth_param) {
            Some(rest) => Ok(Some(BearerAuthRequest { token: rest.to_owned() })),
            None => Ok(None),
        }
    }
}

} // verus!
