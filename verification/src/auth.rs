//! The authorization flow's decisions. The flow itself lives with its
//! collaborators — a local redirect listener, the browser opener, the
//! code-for-token exchange — but every decision it takes is a pure step
//! here: from the current state and an observed event to the next state
//! and the action the caller must perform.

use vstd::prelude::*;

use crate::codec::push_bytes;

verus! {

/// Why an authorization attempt failed.
#[derive(Clone, Copy, Debug, PartialEq, Eq, Structural)]
pub enum AuthError {
    /// No redirect callback arrived within the caller's timeout.
    Timeout,
    /// The provider reported that authorization was refused.
    Denied,
    /// The code-for-token exchange did not succeed.
    TransportError,
}

/// One authorization attempt, as the caller frames it.
pub struct AuthorizationRequest {
    pub client_id: Vec<u8>,
    pub scopes: Vec<Vec<u8>>,
    pub force_reapprove: bool,
    pub timeout_secs: u64,
}

/// Where the flow stands.
pub enum AuthState {
    /// The listener is bound and the flow waits for the provider's
    /// redirect, up to the request's timeout.
    AwaitingRedirect,
    /// A code arrived in time and is being exchanged for a token.
    Exchanging,
    /// The exchange succeeded; the token is ready to persist and return.
    Done { token: Vec<u8> },
    /// The attempt failed; nothing further happens.
    Failed { error: AuthError },
}

/// What the collaborators observed.
pub enum AuthEvent {
    /// The redirect arrived, `elapsed_secs` seconds into the wait.
    RedirectCaptured { code: Vec<u8>, elapsed_secs: u64 },
    /// The wait reached the timeout with no redirect.
    ListenerTimedOut,
    /// The provider's redirect reported refusal instead of a code.
    RedirectDenied,
    /// The user triggered the prompt's action.
    PromptActed,
    /// The user dismissed the prompt without acting.
    PromptDismissed,
    /// The code-for-token exchange returned a token.
    ExchangeSucceeded { token: Vec<u8> },
    /// The code-for-token exchange did not succeed.
    ExchangeFailed,
}

/// What the caller must do next.
pub enum AuthAction {
    /// Open the authorization URL in the user's browser.
    OpenUrl,
    /// Exchange this code, with the client secret, for a token.
    ExchangeCode { code: Vec<u8> },
    /// Persist the token now held in `AuthState::Done` and return it.
    PersistToken,
    /// Report the failure now held in `AuthState::Failed`.
    ReportFailure { error: AuthError },
    /// Nothing: keep waiting, or stay in a terminal state.
    Ignore,
}

/// The flow's transition function. A redirect captured within the timeout
/// is exchanged at once, however much of the timeout is left; a missed
/// timeout fails with `Timeout` and nothing else does; dismissing the
/// prompt never fails the flow by itself.
pub open spec fn auth_step_spec(state: AuthState, timeout_secs: u64, event: AuthEvent) -> (
    AuthState,
    AuthAction,
) {
    match state {
        AuthState::AwaitingRedirect => match event {
            AuthEvent::RedirectCaptured { code, elapsed_secs } => {
                if elapsed_secs <= timeout_secs {
                    (AuthState::Exchanging, AuthAction::ExchangeCode { code })
                } else {
                    (
                        AuthState::Failed { error: AuthError::Timeout },
                        AuthAction::ReportFailure { error: AuthError::Timeout },
                    )
                }
            },
            AuthEvent::ListenerTimedOut => (
                AuthState::Failed { error: AuthError::Timeout },
                AuthAction::ReportFailure { error: AuthError::Timeout },
            ),
            AuthEvent::RedirectDenied => (
                AuthState::Failed { error: AuthError::Denied },
                AuthAction::ReportFailure { error: AuthError::Denied },
            ),
            AuthEvent::PromptActed => (AuthState::AwaitingRedirect, AuthAction::OpenUrl),
            AuthEvent::PromptDismissed => (AuthState::AwaitingRedirect, AuthAction::Ignore),
            _ => (AuthState::AwaitingRedirect, AuthAction::Ignore),
        },
        AuthState::Exchanging => match event {
            AuthEvent::ExchangeSucceeded { token } => (
                AuthState::Done { token },
                AuthAction::PersistToken,
            ),
            AuthEvent::ExchangeFailed => (
                AuthState::Failed { error: AuthError::TransportError },
                AuthAction::ReportFailure { error: AuthError::TransportError },
            ),
            _ => (AuthState::Exchanging, AuthAction::Ignore),
        },
        AuthState::Done { token } => (AuthState::Done { token }, AuthAction::Ignore),
        AuthState::Failed { error } => (AuthState::Failed { error }, AuthAction::Ignore),
    }
}

/// Take one step of the authorization flow.
pub fn auth_step(state: AuthState, timeout_secs: u64, event: AuthEvent) -> (r: (
    AuthState,
    AuthAction,
))
    ensures
        r == auth_step_spec(state, timeout_secs, event),
{
    match state {
        AuthState::AwaitingRedirect => match event {
            AuthEvent::RedirectCaptured { code, elapsed_secs } => {
                if elapsed_secs <= timeout_secs {
                    (AuthState::Exchanging, AuthAction::ExchangeCode { code })
                } else {
                    (
                        AuthState::Failed { error: AuthError::Timeout },
                        AuthAction::ReportFailure { error: AuthError::Timeout },
                    )
                }
            },
            AuthEvent::ListenerTimedOut => (
                AuthState::Failed { error: AuthError::Timeout },
                AuthAction::ReportFailure { error: AuthError::Timeout },
            ),
            AuthEvent::RedirectDenied => (
                AuthState::Failed { error: AuthError::Denied },
                AuthAction::ReportFailure { error: AuthError::Denied },
            ),
            AuthEvent::PromptActed => (AuthState::AwaitingRedirect, AuthAction::OpenUrl),
            AuthEvent::PromptDismissed => (AuthState::AwaitingRedirect, AuthAction::Ignore),
            _ => (AuthState::AwaitingRedirect, AuthAction::Ignore),
        },
        AuthState::Exchanging => match event {
            AuthEvent::ExchangeSucceeded { token } => (
                AuthState::Done { token },
                AuthAction::PersistToken,
            ),
            AuthEvent::ExchangeFailed => (
                AuthState::Failed { error: AuthError::TransportError },
                AuthAction::ReportFailure { error: AuthError::TransportError },
            ),
            _ => (AuthState::Exchanging, AuthAction::Ignore),
        },
        AuthState::Done { token } => (AuthState::Done { token }, AuthAction::Ignore),
        AuthState::Failed { error } => (AuthState::Failed { error }, AuthAction::Ignore),
    }
}

/// Timeout determinism: while the flow awaits the redirect, reaching the
/// timeout — or a capture delivered late — fails the attempt with
/// `Timeout`, and only then.
pub proof fn lemma_no_redirect_times_out(timeout_secs: u64, event: AuthEvent)
    ensures
        (match event {
            AuthEvent::ListenerTimedOut => true,
            AuthEvent::RedirectCaptured { elapsed_secs, .. } => elapsed_secs > timeout_secs,
            _ => false,
        }) <==> auth_step_spec(AuthState::AwaitingRedirect, timeout_secs, event) == (
            AuthState::Failed { error: AuthError::Timeout },
            AuthAction::ReportFailure { error: AuthError::Timeout },
        ),
{
}

/// A redirect captured within the timeout is exchanged at once: the flow
/// proceeds on the capture, not on the rest of the timeout.
pub proof fn lemma_early_redirect_exchanges(timeout_secs: u64, code: Vec<u8>, elapsed_secs: u64)
    requires
        elapsed_secs <= timeout_secs,
    ensures
        auth_step_spec(
            AuthState::AwaitingRedirect,
            timeout_secs,
            AuthEvent::RedirectCaptured { code, elapsed_secs },
        ) == (AuthState::Exchanging, AuthAction::ExchangeCode { code }),
{
}

/// Dismissing the prompt never fails the flow by itself: the listener
/// keeps waiting, and only its own timeout ends the attempt.
pub proof fn lemma_dismissal_keeps_waiting(timeout_secs: u64)
    ensures
        auth_step_spec(AuthState::AwaitingRedirect, timeout_secs, AuthEvent::PromptDismissed) == (
            AuthState::AwaitingRedirect,
            AuthAction::Ignore,
        ),
{
}

/// The scheme, host and path the provider's authorization page lives at.
pub open spec fn auth_base() -> Seq<u8> {
    seq![
        104u8, 116, 116, 112, 115, 58, 47, 47, 103, 105, 116, 104, 117, 98, 46, 99, 111, 109, 47,
        108, 111, 103, 105, 110, 47, 111, 97, 117, 116, 104, 47, 97, 117, 116, 104, 111, 114, 105,
        122, 101,
    ]
}

/// `?client_id=`
pub open spec fn lit_client_id() -> Seq<u8> {
    seq![63u8, 99, 108, 105, 101, 110, 116, 95, 105, 100, 61]
}

/// `&scope=`
pub open spec fn lit_scope() -> Seq<u8> {
    seq![38u8, 115, 99, 111, 112, 101, 61]
}

/// `&force=true`
pub open spec fn lit_force() -> Seq<u8> {
    seq![38u8, 102, 111, 114, 99, 101, 61, 116, 114, 117, 101]
}

/// The requested scopes joined with commas, in order.
pub open spec fn scopes_joined(scopes: Seq<Seq<u8>>) -> Seq<u8>
    decreases scopes.len(),
{
    if scopes.len() == 0 {
        Seq::empty()
    } else if scopes.len() == 1 {
        scopes.last()
    } else {
        scopes_joined(scopes.drop_last()) + seq![44u8] + scopes.last()
    }
}

/// The authorization URL built from a client identifier, the requested
/// scopes, and the force-reapprove flag.
pub open spec fn auth_url_of(client_id: Seq<u8>, scopes: Seq<Seq<u8>>, force: bool) -> Seq<u8> {
    auth_base() + lit_client_id() + client_id + lit_scope() + scopes_joined(scopes) + (if force {
        lit_force()
    } else {
        Seq::empty()
    })
}

/// Build the authorization URL for a request.
pub fn build_authorization_url(req: &AuthorizationRequest) -> (r: Vec<u8>)
    ensures
        r@ == auth_url_of(
            req.client_id@,
            req.scopes@.map_values(|s: Vec<u8>| s@),
            req.force_reapprove,
        ),
{
    let ghost sv = req.scopes@.map_values(|s: Vec<u8>| s@);
    let mut out: Vec<u8> = Vec::new();
    let base: Vec<u8> = vec![
        104u8, 116, 116, 112, 115, 58, 47, 47, 103, 105, 116, 104, 117, 98, 46, 99, 111, 109, 47,
        108, 111, 103, 105, 110, 47, 111, 97, 117, 116, 104, 47, 97, 117, 116, 104, 111, 114, 105,
        122, 101,
    ];
    proof {
        assert(base@ =~= auth_base());
    }
    push_bytes(&mut out, &base);
    let lit1: Vec<u8> = vec![63u8, 99, 108, 105, 101, 110, 116, 95, 105, 100, 61];
    proof {
        assert(lit1@ =~= lit_client_id());
    }
    push_bytes(&mut out, &lit1);
    push_bytes(&mut out, &req.client_id);
    let lit2: Vec<u8> = vec![38u8, 115, 99, 111, 112, 101, 61];
    proof {
        assert(lit2@ =~= lit_scope());
    }
    push_bytes(&mut out, &lit2);
    let ghost mid = out@;
    let mut i: usize = 0;
    while i < req.scopes.len()
        invariant
            i <= req.scopes.len(),
            sv == req.scopes@.map_values(|s: Vec<u8>| s@),
            sv.len() == req.scopes.len(),
            mid == auth_base() + lit_client_id() + req.client_id@ + lit_scope(),
            out@ == mid + scopes_joined(sv.take(i as int)),
        decreases req.scopes.len() - i,
    {
        proof {
            assert(sv.take(i + 1).drop_last() =~= sv.take(i as int));
            assert(sv.take(i + 1).last() == sv[i as int]);
            assert(sv[i as int] == req.scopes@[i as int]@);
        }
        if i > 0 {
            let comma: Vec<u8> = vec![44u8];
            proof {
                assert(comma@ =~= seq![44u8]);
            }
            push_bytes(&mut out, &comma);
        }
        push_bytes(&mut out, &req.scopes[i]);
        proof {
            if i == 0 {
                assert(out@ =~= mid + scopes_joined(sv.take(1)));
            } else {
                assert(out@ =~= mid + scopes_joined(sv.take(i + 1)));
            }
        }
        i += 1;
    }
    proof {
        assert(sv.take(req.scopes.len() as int) =~= sv);
    }
    if req.force_reapprove {
        let lit3: Vec<u8> = vec![38u8, 102, 111, 114, 99, 101, 61, 116, 114, 117, 101];
        proof {
            assert(lit3@ =~= lit_force());
        }
        push_bytes(&mut out, &lit3);
    }
    proof {
        assert(out@ =~= auth_url_of(req.client_id@, sv, req.force_reapprove));
    }
    out
}

} // verus!
