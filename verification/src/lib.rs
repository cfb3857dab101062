//! HTTP authentication middleware: extracts a scheme-specific credential from a
//! request's authorization header, resolves it against a pluggable storage
//! backend, and decides whether to forward the request (with or without an
//! attached identity) or to reject it.

pub mod scheme;
pub mod storage;

pub use scheme::BasicAuthRequest;
pub use scheme::BasicAuthScheme;
pub use scheme::BearerAuthRequest;
pub use scheme::BearerAuthScheme;
pub use scheme::DecodeError;
pub use scheme::Scheme;
pub use storage::Storage;
pub use storage::StorageError;

use vstd::prelude::*;

verus! {

/// Policy flags of a scheme: how the middleware reacts to multiple header
/// values and to a credential that fails to resolve.
#[derive(Clone, Copy, Debug, PartialEq, Eq, Structural)]
pub struct SchemePolicy {
    /// Reject the request outright when the header carries more than one value.
    pub reject_on_multiple_values: bool,
    /// Reject when a value matched the scheme but did not resolve to an identity;
    /// when false, remaining header values are still tried.
    pub reject_on_failed_auth: bool,
    /// Rejection strength for failed auth: forbidden instead of unauthorized.
    pub forbidden_on_failed_auth: bool,
}

impl SchemePolicy {
    /// The default policy as a spec value: reject on multiple values, reject
    /// failed auth with an unauthorized verdict.
    pub open spec fn default_policy() -> SchemePolicy {
        SchemePolicy {
            reject_on_multiple_values: true,
            reject_on_failed_auth: true,
            forbidden_on_failed_auth: false,
        }
    }
}

impl Default for SchemePolicy {
    /// The default policy: reject on multiple values, reject failed auth
    /// with an unauthorized verdict.
    fn default() -> (r: Self)
        ensures
            r == SchemePolicy::default_policy(),
    {
        SchemePolicy {
            reject_on_multiple_values: true,
            reject_on_failed_auth: true,
            forbidden_on_failed_auth: false,
        }
    }
}

/// The middleware's verdict on one request.
#[derive(Debug, PartialEq, Eq)]
pub enum Outcome<User> {
    /// Forward the request downstream; `Some` carries the identity attached
    /// to the request context, `None` leaves it unauthenticated.
    Forward(Option<User>),
    /// Reject the request with an unauthorized verdict.
    Unauthorized,
    /// Reject the request with a forbidden verdict.
    Forbidden,
}

/// A hard failure of request handling, distinct from an authentication
/// verdict. The client sent a malformed credential, or the lookup backend
/// itself failed.
#[derive(Debug, PartialEq, Eq)]
pub enum AuthError {
    /// A malformed credential: a broken or hostile client, not an absent one.
    Decode(DecodeError),
    /// The storage backend failed; never silently converted to a verdict.
    Storage(StorageError),
}

/// What the middleware does with one header value, before any storage call.
#[derive(Debug, PartialEq, Eq)]
pub enum ValueStep<Request> {
    /// The value belongs to another scheme layered on the same header: skip
    /// it without invoking storage.
    Skip,
    /// The value matched the scheme but is malformed: a hard decode failure.
    Fail(DecodeError),
    /// The value matched the scheme but carries no credential: failed auth,
    /// decided without invoking storage.
    NoCredential,
    /// A decoded credential, ready for the storage lookup.
    Lookup(Request),
}

/// Classify one header value: skip it if it belongs to another scheme, else
/// strip the scheme prefix and decode the parameter.
pub fn step_value<S: Scheme>(scheme: &S, value: &str) -> (r: ValueStep<S::Request>)
    ensures
        ({
            let pre = scheme.spec_scheme_name();
            let v = value@;
            match r {
                ValueStep::Skip => !pre.is_prefix_of(v),
                ValueStep::Fail(e) => pre.is_prefix_of(v) && scheme.decode_ok(
                    v.skip(pre.len() as int),
                    Err(e),
                ),
                ValueStep::NoCredential => pre.is_prefix_of(v) && scheme.decode_ok(
                    v.skip(pre.len() as int),
                    Ok(None),
                ),
                ValueStep::Lookup(req) => pre.is_prefix_of(v) && scheme.decode_ok(
                    v.skip(pre.len() as int),
                    Ok(Some(req)),
                ),
            }
        }),
{
    match scheme::match_scheme_prefix(scheme.scheme_name(), value) {
        None => ValueStep::Skip,
        Some(param) => match scheme.decode(param) {
            Err(e) => ValueStep::Fail(e),
            Ok(None) => ValueStep::NoCredential,
            Ok(Some(req)) => ValueStep::Lookup(req),
        },
    }
}

/// The verdict when a value matched the scheme but no identity resolved:
/// reject with the policy's strength, or `None` to keep trying the remaining
/// header values.
pub fn failed_auth_verdict<User>(policy: &SchemePolicy) -> (r: Option<Outcome<User>>)
    ensures
        policy.reject_on_failed_auth && policy.forbidden_on_failed_auth ==> r == Some(
            Outcome::<User>::Forbidden,
        ),
        policy.reject_on_failed_auth && !policy.forbidden_on_failed_auth ==> r == Some(
            Outcome::<User>::Unauthorized,
        ),
        !policy.reject_on_failed_auth ==> r is None,
{
    if policy.reject_on_failed_auth {
        if policy.forbidden_on_failed_auth {
            Some(Outcome::Forbidden)
        } else {
            Some(Outcome::Unauthorized)
        }
    } else {
        None
    }
}

/// How one storage lookup outcome drives the middleware.
#[derive(Debug, PartialEq, Eq)]
pub enum ValueVerdict<User> {
    /// Attach the identity to the request and forward it downstream.
    Attach(User),
    /// No identity and the policy tolerates it: try the next header value.
    Continue,
    /// No identity and the policy demands rejection.
    Reject(Outcome<User>),
    /// The lookup backend itself failed: propagate the failure.
    Fail(StorageError),
}

/// Decide what one storage lookup outcome means under a policy: a resolved
/// identity is attached; no identity is rejected with the policy's strength
/// (forbidden where configured, unauthorized otherwise) or passed over; a
/// backend failure propagates, never converted to a verdict.
pub fn lookup_verdict<User>(policy: &SchemePolicy, looked_up: Result<Option<User>, StorageError>) -> (r:
    ValueVerdict<User>)
    ensures
        ({
            match looked_up {
                Ok(Some(user)) => r == ValueVerdict::Attach(user),
                Ok(None) => if policy.reject_on_failed_auth {
                    r == ValueVerdict::Reject(
                        if policy.forbidden_on_failed_auth {
                            Outcome::<User>::Forbidden
                        } else {
                            Outcome::<User>::Unauthorized
                        },
                    )
                } else {
                    r == ValueVerdict::<User>::Continue
                },
                Err(e) => r == ValueVerdict::<User>::Fail(e),
            }
        }),
{
    match looked_up {
        Ok(Some(user)) => ValueVerdict::Attach(user),
        Ok(None) => match failed_auth_verdict(policy) {
            Some(outcome) => ValueVerdict::Reject(outcome),
            None => ValueVerdict::Continue,
        },
        Err(e) => ValueVerdict::Fail(e),
    }
}

/// `j` is the first index in `vals` whose value starts with the scheme prefix
/// `pre`: every earlier value belongs to another scheme and is skipped.
pub open spec fn is_first_match(pre: Seq<char>, vals: Seq<Seq<char>>, j: int) -> bool {
    &&& 0 <= j < vals.len()
    &&& pre.is_prefix_of(vals[j])
    &&& forall|k: int| 0 <= k < j ==> !(#[trigger] pre.is_prefix_of(vals[k]))
}

/// The outcomes of the middleware that the header values decide by
/// themselves, before any storage lookup: a hard decode failure at the first
/// value of the scheme propagates as that failure (never converted into a
/// verdict), and an absent credential there is rejected with the policy's
/// strength where the policy demands rejection.
pub open spec fn first_match_decided<User, S: Scheme>(
    scheme: S,
    vals: Seq<Seq<char>>,
    r: Result<Outcome<User>, AuthError>,
) -> bool {
    let pre = scheme.spec_scheme_name();
    let pol = scheme.spec_policy();
    &&& forall|j: int, e: DecodeError|
        is_first_match(pre, vals, j) && #[trigger] scheme.decode_ok(
            vals[j].skip(pre.len() as int),
            Err(e),
        ) ==> r == Err::<Outcome<User>, AuthError>(AuthError::Decode(e))
    &&& pol.reject_on_failed_auth ==> forall|j: int|
        is_first_match(pre, vals, j) && #[trigger] scheme.decode_ok(
            vals[j].skip(pre.len() as int),
            Ok(None),
        ) ==> r == Ok::<Outcome<User>, AuthError>(
            if pol.forbidden_on_failed_auth {
                Outcome::Forbidden
            } else {
                Outcome::Unauthorized
            },
        )
}

/// Where the value at `i` matches the scheme and decodes to `actual`, and
/// every earlier matching value admits an `Ok` decoding, a first matching
/// index whose parameter decodes to the hard failure `e` can only be `i`
/// itself, and `actual` is that same failure.
proof fn lemma_first_match_err<S: Scheme>(
    scheme: &S,
    vals: Seq<Seq<char>>,
    i: int,
    actual: Result<Option<S::Request>, DecodeError>,
    j: int,
    e: DecodeError,
)
    requires
        0 <= i < vals.len(),
        scheme.spec_scheme_name().is_prefix_of(vals[i]),
        scheme.decode_ok(vals[i].skip(scheme.spec_scheme_name().len() as int), actual),
        forall|k: int|
            0 <= k < i && #[trigger] scheme.spec_scheme_name().is_prefix_of(vals[k])
                ==> exists|opt: Option<S::Request>|
                scheme.decode_ok(
                    vals[k].skip(scheme.spec_scheme_name().len() as int),
                    Ok(opt),
                ),
        is_first_match(scheme.spec_scheme_name(), vals, j),
        scheme.decode_ok(vals[j].skip(scheme.spec_scheme_name().len() as int), Err(e)),
    ensures
        j == i,
        actual == Err::<Option<S::Request>, DecodeError>(e),
{
    let plen = scheme.spec_scheme_name().len() as int;
    if j < i {
        let opt = choose|opt: Option<S::Request>| scheme.decode_ok(vals[j].skip(plen), Ok(opt));
        scheme.lemma_decode_functional(vals[j].skip(plen), Err(e), Ok(opt));
    }
    if j > i {
        assert(false);
    }
    scheme.lemma_decode_functional(vals[i].skip(plen), Err(e), actual);
}

/// Where the value at `i` matches the scheme and decodes to `actual`, and no
/// earlier value matches at all, a first matching index whose parameter
/// decodes to an absent credential can only be `i` itself, and `actual` too
/// carries no credential.
proof fn lemma_first_match_none<S: Scheme>(
    scheme: &S,
    vals: Seq<Seq<char>>,
    i: int,
    actual: Result<Option<S::Request>, DecodeError>,
    j: int,
)
    requires
        0 <= i < vals.len(),
        scheme.spec_scheme_name().is_prefix_of(vals[i]),
        scheme.decode_ok(vals[i].skip(scheme.spec_scheme_name().len() as int), actual),
        forall|k: int| 0 <= k < i ==> !(#[trigger] scheme.spec_scheme_name().is_prefix_of(vals[k])),
        is_first_match(scheme.spec_scheme_name(), vals, j),
        scheme.decode_ok(
            vals[j].skip(scheme.spec_scheme_name().len() as int),
            Ok::<Option<S::Request>, DecodeError>(None),
        ),
    ensures
        j == i,
        actual is Ok,
        actual->Ok_0 is None,
{
    let plen = scheme.spec_scheme_name().len() as int;
    assert(j == i);
    scheme.lemma_decode_functional(
        vals[i].skip(plen),
        Ok::<Option<S::Request>, DecodeError>(None),
        actual,
    );
}

/// Middleware implementing a given scheme (Basic, Bearer) backed by a given
/// storage backend.
pub struct Authentication<User, ImplScheme: Scheme> {
    /// The scheme this middleware authenticates, fixed at construction.
    pub scheme: ImplScheme,
    /// Marker for the identity type the storage backend resolves to.
    pub user_type: core::marker::PhantomData<User>,
}

impl<User, ImplScheme: Scheme> Authentication<User, ImplScheme> {
    /// Create a new authentication middleware with a scheme.
    pub fn new(scheme: ImplScheme) -> (r: Self)
        ensures
            r.scheme == scheme,
    {
        Authentication { scheme, user_type: core::marker::PhantomData }
    }

    /// Decide one request: walk the header values in order; skip values of
    /// other schemes; decode each matching value and resolve it against the
    /// storage capability; attach the first resolved identity, reject per
    /// policy, or forward the request unauthenticated.
    pub fn handle<State: Storage<User, ImplScheme::Request>>(
        &self,
        values: &Vec<String>,
        state: &State,
    ) -> (r: Result<Outcome<User>, AuthError>)
        ensures
            ({
                let vals = values.deep_view();
                let pre = self.scheme.spec_scheme_name();
                let pol = self.scheme.spec_policy();
                &&& vals.len() == 0 ==> r == Ok::<Outcome<User>, AuthError>(Outcome::Forward(None))
                &&& vals.len() > 1 && pol.reject_on_multiple_values ==> r == Ok::<Outcome<User>, AuthError>(
                    Outcome::Unauthorized,
                )
                &&& !(vals.len() > 1 && pol.reject_on_multiple_values) && (forall|j: int|
                    0 <= j < vals.len() ==> !(#[trigger] pre.is_prefix_of(vals[j]))) ==> r == Ok::<Outcome<User>, AuthError>(
                    Outcome::Forward(None),
                )
                &&& r matches Ok(Outcome::Forward(Some(_))) ==> exists|j: int|
                    0 <= j < vals.len() && #[trigger] pre.is_prefix_of(vals[j])
                &&& r == Ok::<Outcome<User>, AuthError>(Outcome::Forbidden) ==> pol.reject_on_failed_auth
                    && pol.forbidden_on_failed_auth && exists|j: int|
                    0 <= j < vals.len() && #[trigger] pre.is_prefix_of(vals[j])
                &&& r == Ok::<Outcome<User>, AuthError>(Outcome::Unauthorized) ==> (vals.len() > 1
                    && pol.reject_on_multiple_values) || (pol.reject_on_failed_auth
                    && !pol.forbidden_on_failed_auth && exists|j: int|
                    0 <= j < vals.len() && #[trigger] pre.is_prefix_of(vals[j]))
                &&& r is Err ==> exists|j: int|
                    0 <= j < vals.len() && #[trigger] pre.is_prefix_of(vals[j])
                &&& !pol.reject_on_failed_auth && !(vals.len() > 1
                    && pol.reject_on_multiple_values) ==> (r matches Ok(Outcome::Forward(_)))
                    || r is Err
                &&& !(vals.len() > 1 && pol.reject_on_multiple_values)
                    ==> first_match_decided::<User, ImplScheme>(self.scheme, vals, r)
                &&& r matches Err(AuthError::Decode(e)) ==> (pol.reject_on_failed_auth && !(
                vals.len() > 1 && pol.reject_on_multiple_values) ==> exists|j: int|
                    is_first_match(pre, vals, j) && #[trigger] self.scheme.decode_ok(
                        vals[j].skip(pre.len() as int),
                        Err(e),
                    ))
            }),
    {
        if values.len() == 0 {
            return Ok(Outcome::Forward(None));
        }
        let policy = self.scheme.policy();
        if values.len() > 1 && policy.reject_on_multiple_values {
            return Ok(Outcome::Unauthorized);
        }
        let ghost vals = values.deep_view();
        let ghost pre = self.scheme.spec_scheme_name();
        let ghost plen = pre.len() as int;
        let mut i: usize = 0;
        while i < values.len()
            invariant
                i <= values.len(),
                policy == self.scheme.spec_policy(),
                vals == values.deep_view(),
                pre == self.scheme.spec_scheme_name(),
                plen == pre.len() as int,
                !(vals.len() > 1 && policy.reject_on_multiple_values),
                vals.len() >= 1,
                policy.reject_on_failed_auth ==> forall|k: int|
                    0 <= k < i ==> !(#[trigger] pre.is_prefix_of(vals[k])),
                forall|k: int|
                    0 <= k < i && #[trigger] pre.is_prefix_of(vals[k])
                        ==> exists|opt: Option<ImplScheme::Request>|
                        self.scheme.decode_ok(vals[k].skip(plen), Ok(opt)),
            decreases values.len() - i,
        {
            let value = &values[i];
            proof {
                assert(vals[i as int] == value@);
            }
            match step_value(&self.scheme, value.as_str()) {
                ValueStep::Skip => {},
                ValueStep::Fail(e) => {
                    proof {
                        assert forall|j: int, e2: DecodeError|
                            is_first_match(pre, vals, j) && #[trigger] self.scheme.decode_ok(
                                vals[j].skip(plen),
                                Err(e2),
                            ) implies Err::<Outcome<User>, AuthError>(AuthError::Decode(e))
                            == Err::<Outcome<User>, AuthError>(AuthError::Decode(e2)) by {
                            lemma_first_match_err(
                                &self.scheme,
                                vals,
                                i as int,
                                Err::<Option<ImplScheme::Request>, DecodeError>(e),
                                j,
                                e2,
                            );
                        }
                        if policy.reject_on_failed_auth {
                            assert forall|j: int|
                                is_first_match(pre, vals, j) && #[trigger] self.scheme.decode_ok(
                                    vals[j].skip(plen),
                                    Ok(None),
                                ) implies false by {
                                lemma_first_match_none(
                                    &self.scheme,
                                    vals,
                                    i as int,
                                    Err::<Option<ImplScheme::Request>, DecodeError>(e),
                                    j,
                                );
                            }
                            assert(is_first_match(pre, vals, i as int));
                            assert(self.scheme.decode_ok(
                                vals[i as int].skip(plen),
                                Err::<Option<ImplScheme::Request>, DecodeError>(e),
                            ));
                        }
                    }
                    return Err(AuthError::Decode(e));
                },
                ValueStep::NoCredential => {
                    match failed_auth_verdict::<User>(&policy) {
                        Some(outcome) => {
                            proof {
                                assert forall|j: int, e2: DecodeError|
                                    is_first_match(pre, vals, j)
                                        && #[trigger] self.scheme.decode_ok(
                                        vals[j].skip(plen),
                                        Err(e2),
                                    ) implies false by {
                                    lemma_first_match_err(
                                        &self.scheme,
                                        vals,
                                        i as int,
                                        Ok::<Option<ImplScheme::Request>, DecodeError>(None),
                                        j,
                                        e2,
                                    );
                                }
                                assert forall|j: int|
                                    is_first_match(pre, vals, j)
                                        && #[trigger] self.scheme.decode_ok(
                                        vals[j].skip(plen),
                                        Ok(None),
                                    ) implies Ok::<Outcome<User>, AuthError>(outcome) == Ok::<
                                    Outcome<User>,
                                    AuthError,
                                >(
                                    if policy.forbidden_on_failed_auth {
                                        Outcome::Forbidden
                                    } else {
                                        Outcome::Unauthorized
                                    },
                                ) by {
                                    lemma_first_match_none(
                                        &self.scheme,
                                        vals,
                                        i as int,
                                        Ok::<Option<ImplScheme::Request>, DecodeError>(None),
                                        j,
                                    );
                                }
                            }
                            return Ok(outcome);
                        },
                        None => {
                            proof {
                                assert(self.scheme.decode_ok(
                                    vals[i as int].skip(plen),
                                    Ok::<Option<ImplScheme::Request>, DecodeError>(None),
                                ));
                            }
                        },
                    }
                },
                ValueStep::Lookup(request) => {
                    let ghost request_snapshot = request;
                    match lookup_verdict(&policy, state.get_user(request)) {
                        ValueVerdict::Attach(user) => {
                            proof {
                                self.lemma_matched_value_decided(
                                    vals,
                                    i as int,
                                    request_snapshot,
                                    policy,
                                );
                            }
                            return Ok(Outcome::Forward(Some(user)));
                        },
                        ValueVerdict::Continue => {
                            proof {
                                assert(self.scheme.decode_ok(
                                    vals[i as int].skip(plen),
                                    Ok(Some(request_snapshot)),
                                ));
                            }
                        },
                        ValueVerdict::Reject(outcome) => {
                            proof {
                                self.lemma_matched_value_decided(
                                    vals,
                                    i as int,
                                    request_snapshot,
                                    policy,
                                );
                            }
                            return Ok(outcome);
                        },
                        ValueVerdict::Fail(e) => {
                            proof {
                                self.lemma_matched_value_decided(
                                    vals,
                                    i as int,
                                    request_snapshot,
                                    policy,
                                );
                            }
                            return Err(AuthError::Storage(e));
                        },
                    }
                },
            }
            i += 1;
        }
        proof {
            assert forall|j: int, e2: DecodeError|
                is_first_match(pre, vals, j) && #[trigger] self.scheme.decode_ok(
                    vals[j].skip(plen),
                    Err(e2),
                ) implies false by {
                let opt = choose|opt: Option<ImplScheme::Request>|
                    self.scheme.decode_ok(vals[j].skip(plen), Ok(opt));
                self.scheme.lemma_decode_functional(vals[j].skip(plen), Err(e2), Ok(opt));
            }
            if policy.reject_on_failed_auth {
                assert forall|j: int|
                    is_first_match(pre, vals, j) && #[trigger] self.scheme.decode_ok(
                        vals[j].skip(plen),
                        Ok(None),
                    ) implies false by {
                    assert(!pre.is_prefix_of(vals[j]));
                }
            }
        }
        Ok(Outcome::Forward(None))
    }

    /// In the middleware's loop, once the value at `i` matched the scheme and
    /// decoded to the credential `request`, neither input-decided obligation
    /// of `first_match_decided` applies: the first matching index is `i`, and
    /// its decoding is neither a hard failure nor an absent credential.
    proof fn lemma_matched_value_decided(
        &self,
        vals: Seq<Seq<char>>,
        i: int,
        request: ImplScheme::Request,
        policy: SchemePolicy,
    )
        requires
            policy == self.scheme.spec_policy(),
            0 <= i < vals.len(),
            self.scheme.spec_scheme_name().is_prefix_of(vals[i]),
            self.scheme.decode_ok(
                vals[i].skip(self.scheme.spec_scheme_name().len() as int),
                Ok(Some(request)),
            ),
            forall|k: int|
                0 <= k < i && #[trigger] self.scheme.spec_scheme_name().is_prefix_of(vals[k])
                    ==> exists|opt: Option<ImplScheme::Request>|
                    self.scheme.decode_ok(
                        vals[k].skip(self.scheme.spec_scheme_name().len() as int),
                        Ok(opt),
                    ),
            policy.reject_on_failed_auth ==> forall|k: int|
                0 <= k < i ==> !(#[trigger] self.scheme.spec_scheme_name().is_prefix_of(vals[k])),
        ensures
            forall|j: int, e: DecodeError|
                !(is_first_match(self.scheme.spec_scheme_name(), vals, j)
                    && #[trigger] self.scheme.decode_ok(
                    vals[j].skip(self.scheme.spec_scheme_name().len() as int),
                    Err(e),
                )),
            policy.reject_on_failed_auth ==> forall|j: int|
                !(is_first_match(self.scheme.spec_scheme_name(), vals, j)
                    && #[trigger] self.scheme.decode_ok(
                    vals[j].skip(self.scheme.spec_scheme_name().len() as int),
                    Ok(None),
                )),
    {
        let pre = self.scheme.spec_scheme_name();
        let plen = pre.len() as int;
        assert forall|j: int, e: DecodeError|
            is_first_match(pre, vals, j) && #[trigger] self.scheme.decode_ok(
                vals[j].skip(plen),
                Err(e),
            ) implies false by {
            lemma_first_match_err(
                &self.scheme,
                vals,
                i,
                Ok::<Option<ImplScheme::Request>, DecodeError>(Some(request)),
                j,
                e,
            );
        }
        if policy.reject_on_failed_auth {
            assert forall|j: int|
                is_first_match(pre, vals, j) && #[trigger] self.scheme.decode_ok(
                    vals[j].skip(plen),
                    Ok(None),
                ) implies false by {
                lemma_first_match_none(
                    &self.scheme,
                    vals,
                    i,
                    Ok::<Option<ImplScheme::Request>, DecodeError>(Some(request)),
                    j,
                );
            }
        }
    }
}

} // verus!
