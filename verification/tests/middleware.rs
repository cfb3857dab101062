use std::cell::Cell;

use tide_http_auth::AuthError;
use tide_http_auth::Authentication;
use tide_http_auth::BasicAuthRequest;
use tide_http_auth::BasicAuthScheme;
use tide_http_auth::BearerAuthRequest;
use tide_http_auth::BearerAuthScheme;
use tide_http_auth::DecodeError;
use tide_http_auth::Outcome;
use tide_http_auth::SchemePolicy;
use tide_http_auth::Storage;
use tide_http_auth::StorageError;
use tide_http_auth::ValueVerdict;
use tide_http_auth::lookup_verdict;

#[derive(Debug, PartialEq, Eq)]
struct User {
    name: String,
}

/// A Basic backend recognizing `user`/`pass`, counting its invocations.
struct BasicBackend {
    calls: Cell<usize>,
}

impl BasicBackend {
    fn new() -> Self {
        BasicBackend { calls: Cell::new(0) }
    }
}

impl Storage<User, BasicAuthRequest> for BasicBackend {
    fn get_user(&self, request: BasicAuthRequest) -> Result<Option<User>, StorageError> {
        self.calls.set(self.calls.get() + 1);
        if request.username == "user" && request.password == "pass" {
            Ok(Some(User { name: String::from("user") }))
        } else {
            Ok(None)
        }
    }
}

/// A Bearer backend recognizing the token `abc123`, counting its invocations.
struct BearerBackend {
    calls: Cell<usize>,
}

impl BearerBackend {
    fn new() -> Self {
        BearerBackend { calls: Cell::new(0) }
    }
}

impl Storage<User, BearerAuthRequest> for BearerBackend {
    fn get_user(&self, request: BearerAuthRequest) -> Result<Option<User>, StorageError> {
        self.calls.set(self.calls.get() + 1);
        if request.token == "abc123" {
            Ok(Some(User { name: String::from("bearer-user") }))
        } else {
            Ok(None)
        }
    }
}

/// A backend whose lookup mechanism itself fails.
struct BrokenBackend;

impl Storage<User, BasicAuthRequest> for BrokenBackend {
    fn get_user(&self, _request: BasicAuthRequest) -> Result<Option<User>, StorageError> {
        Err(StorageError { message: String::from("backend unreachable") })
    }
}

fn basic_header(credentials: &str) -> String {
    format!("Basic {}", base64::encode(credentials))
}

#[test]
fn no_header_forwards_unauthenticated() {
    let auth = Authentication::<User, _>::new(BasicAuthScheme::default());
    let backend = BasicBackend::new();
    let values: Vec<String> = Vec::new();
    let outcome = auth.handle(&values, &backend);
    assert_eq!(outcome, Ok(Outcome::Forward(None)));
    assert_eq!(backend.calls.get(), 0);
}

#[test]
fn other_scheme_value_is_skipped_without_storage_call() {
    let auth = Authentication::<User, _>::new(BasicAuthScheme::default());
    let backend = BasicBackend::new();
    let values = vec![String::from("Bearer abc123")];
    let outcome = auth.handle(&values, &backend);
    assert_eq!(outcome, Ok(Outcome::Forward(None)));
    assert_eq!(backend.calls.get(), 0);
}

#[test]
fn basic_valid_credentials_attach_identity() {
    let auth = Authentication::<User, _>::new(BasicAuthScheme::default());
    let backend = BasicBackend::new();
    let values = vec![basic_header("user:pass")];
    let outcome = auth.handle(&values, &backend);
    assert_eq!(
        outcome,
        Ok(Outcome::Forward(Some(User { name: String::from("user") })))
    );
    assert_eq!(backend.calls.get(), 1);
}

#[test]
fn basic_wrong_password_is_unauthorized_by_default() {
    let auth = Authentication::<User, _>::new(BasicAuthScheme::default());
    let backend = BasicBackend::new();
    let values = vec![basic_header("user:wrong")];
    let outcome = auth.handle(&values, &backend);
    assert_eq!(outcome, Ok(Outcome::Unauthorized));
    assert_eq!(backend.calls.get(), 1);
}

#[test]
fn basic_no_colon_skips_storage_and_applies_policy() {
    let auth = Authentication::<User, _>::new(BasicAuthScheme::default());
    let backend = BasicBackend::new();
    let values = vec![basic_header("user")];
    let outcome = auth.handle(&values, &backend);
    assert_eq!(outcome, Ok(Outcome::Unauthorized));
    assert_eq!(backend.calls.get(), 0);
}

#[test]
fn basic_invalid_base64_is_a_decode_failure_not_a_verdict() {
    let auth = Authentication::<User, _>::new(BasicAuthScheme::default());
    let backend = BasicBackend::new();
    let values = vec![String::from("Basic !!!")];
    let outcome = auth.handle(&values, &backend);
    assert_eq!(outcome, Err(AuthError::Decode(DecodeError::InvalidBase64)));
    assert_eq!(backend.calls.get(), 0);
}

#[test]
fn basic_invalid_utf8_is_a_decode_failure() {
    let auth = Authentication::<User, _>::new(BasicAuthScheme::default());
    let backend = BasicBackend::new();
    let values = vec![format!("Basic {}", base64::encode([0xffu8, 0xfe]))];
    let outcome = auth.handle(&values, &backend);
    assert_eq!(outcome, Err(AuthError::Decode(DecodeError::InvalidUtf8)));
    assert_eq!(backend.calls.get(), 0);
}

#[test]
fn multiple_values_reject_without_storage_call() {
    let auth = Authentication::<User, _>::new(BasicAuthScheme::default());
    let backend = BasicBackend::new();
    let values = vec![basic_header("user:pass"), basic_header("user:pass")];
    let outcome = auth.handle(&values, &backend);
    assert_eq!(outcome, Ok(Outcome::Unauthorized));
    assert_eq!(backend.calls.get(), 0);
}

#[test]
fn multiple_values_tolerated_when_policy_allows() {
    let scheme = BasicAuthScheme {
        policy: SchemePolicy {
            reject_on_multiple_values: false,
            reject_on_failed_auth: false,
            forbidden_on_failed_auth: false,
        },
    };
    let auth = Authentication::<User, _>::new(scheme);
    let backend = BasicBackend::new();
    let values = vec![basic_header("user:wrong"), basic_header("user:pass")];
    let outcome = auth.handle(&values, &backend);
    assert_eq!(
        outcome,
        Ok(Outcome::Forward(Some(User { name: String::from("user") })))
    );
    assert_eq!(backend.calls.get(), 2);
}

#[test]
fn failed_lookup_with_forbidden_policy_is_forbidden() {
    let scheme = BasicAuthScheme {
        policy: SchemePolicy {
            reject_on_multiple_values: true,
            reject_on_failed_auth: true,
            forbidden_on_failed_auth: true,
        },
    };
    let auth = Authentication::<User, _>::new(scheme);
    let backend = BasicBackend::new();
    let values = vec![basic_header("user:wrong")];
    let outcome = auth.handle(&values, &backend);
    assert_eq!(outcome, Ok(Outcome::Forbidden));
    assert_eq!(backend.calls.get(), 1);
}

#[test]
fn failed_lookup_with_lenient_policy_forwards_unauthenticated() {
    let scheme = BasicAuthScheme {
        policy: SchemePolicy {
            reject_on_multiple_values: true,
            reject_on_failed_auth: false,
            forbidden_on_failed_auth: false,
        },
    };
    let auth = Authentication::<User, _>::new(scheme);
    let backend = BasicBackend::new();
    let values = vec![basic_header("user:wrong")];
    let outcome = auth.handle(&values, &backend);
    assert_eq!(outcome, Ok(Outcome::Forward(None)));
    assert_eq!(backend.calls.get(), 1);
}

#[test]
fn storage_failure_propagates_not_a_verdict() {
    let auth = Authentication::<User, _>::new(BasicAuthScheme::default());
    let values = vec![basic_header("user:pass")];
    let outcome = auth.handle(&values, &BrokenBackend);
    assert_eq!(
        outcome,
        Err(AuthError::Storage(StorageError {
            message: String::from("backend unreachable")
        }))
    );
}

#[test]
fn bearer_token_with_empty_prefix_attaches_identity() {
    let auth = Authentication::<User, _>::new(BearerAuthScheme::default());
    let backend = BearerBackend::new();
    let values = vec![String::from("Bearer abc123")];
    let outcome = auth.handle(&values, &backend);
    assert_eq!(
        outcome,
        Ok(Outcome::Forward(Some(User { name: String::from("bearer-user") })))
    );
    assert_eq!(backend.calls.get(), 1);
}

#[test]
fn bearer_internal_prefix_mismatch_applies_failed_auth_policy() {
    let scheme = BearerAuthScheme {
        prefix: String::from("tok-"),
        policy: SchemePolicy::default(),
    };
    let auth = Authentication::<User, _>::new(scheme);
    let backend = BearerBackend::new();
    let values = vec![String::from("Bearer abc123")];
    let outcome = auth.handle(&values, &backend);
    assert_eq!(outcome, Ok(Outcome::Unauthorized));
    assert_eq!(backend.calls.get(), 0);
}

#[test]
fn lookup_verdict_maps_every_outcome() {
    let default_policy = SchemePolicy::default();
    let user = User { name: String::from("u") };
    assert_eq!(
        lookup_verdict(&default_policy, Ok(Some(user))),
        ValueVerdict::Attach(User { name: String::from("u") })
    );
    assert_eq!(
        lookup_verdict::<User>(&default_policy, Ok(None)),
        ValueVerdict::Reject(Outcome::Unauthorized)
    );
    let forbidden_policy = SchemePolicy {
        reject_on_multiple_values: true,
        reject_on_failed_auth: true,
        forbidden_on_failed_auth: true,
    };
    assert_eq!(
        lookup_verdict::<User>(&forbidden_policy, Ok(None)),
        ValueVerdict::Reject(Outcome::Forbidden)
    );
    let lenient_policy = SchemePolicy {
        reject_on_multiple_values: false,
        reject_on_failed_auth: false,
        forbidden_on_failed_auth: false,
    };
    assert_eq!(
        lookup_verdict::<User>(&lenient_policy, Ok(None)),
        ValueVerdict::Continue
    );
    let failure = StorageError { message: String::from("down") };
    assert_eq!(
        lookup_verdict::<User>(&default_policy, Err(failure)),
        ValueVerdict::Fail(StorageError { message: String::from("down") })
    );
}

#[test]
fn values_are_tried_in_header_list_order() {
    let scheme = BasicAuthScheme {
        policy: SchemePolicy {
            reject_on_multiple_values: false,
            reject_on_failed_auth: false,
            forbidden_on_failed_auth: false,
        },
    };
    let auth = Authentication::<User, _>::new(scheme);
    let backend = BasicBackend::new();
    // The Bearer value belongs to another scheme layered on the same header:
    // it is skipped, and only the Basic value reaches the backend.
    let values = vec![String::from("Bearer abc123"), basic_header("user:pass")];
    let outcome = auth.handle(&values, &backend);
    assert_eq!(
        outcome,
        Ok(Outcome::Forward(Some(User { name: String::from("user") })))
    );
    assert_eq!(backend.calls.get(), 1);
}

#[test]
fn decode_failure_at_first_matching_value_propagates() {
    let scheme = BasicAuthScheme {
        policy: SchemePolicy {
            reject_on_multiple_values: false,
            reject_on_failed_auth: true,
            forbidden_on_failed_auth: false,
        },
    };
    let auth = Authentication::<User, _>::new(scheme);
    let backend = BasicBackend::new();
    // The Bearer value is another scheme's and is skipped; the first value of
    // the Basic scheme is malformed, and that failure propagates.
    let values = vec![String::from("Bearer abc123"), String::from("Basic !!!")];
    let outcome = auth.handle(&values, &backend);
    assert_eq!(outcome, Err(AuthError::Decode(DecodeError::InvalidBase64)));
    assert_eq!(backend.calls.get(), 0);
}

/// A backend that keeps the trait's default lookup: it recognizes nothing.
struct DefaultBackend;

impl Storage<User, BasicAuthRequest> for DefaultBackend {}

#[test]
fn default_storage_recognizes_no_credential() {
    let request = BasicAuthRequest {
        username: String::from("user"),
        password: String::from("pass"),
    };
    assert_eq!(DefaultBackend.get_user(request), Ok(None));
    let auth = Authentication::<User, _>::new(BasicAuthScheme::default());
    let values = vec![basic_header("user:pass")];
    assert_eq!(auth.handle(&values, &DefaultBackend), Ok(Outcome::Unauthorized));
}
