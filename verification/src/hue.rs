use vstd::prelude::*;

verus! {

/// Seconds waited between pairing attempts while the link button has not been
/// pressed.
pub const PAIRING_BACKOFF_SECS: u64 = 5;

/// An authenticated handle: the bridge address together with the credential
/// under which commands are sent.
pub struct BridgeHandle {
    pub ip: String,
    pub user: String,
}

/// One answer of the bridge to a pairing request.
#[derive(Debug, PartialEq, Eq)]
pub enum RegisterResponse {
    /// The bridge accepted the request and returned a credential.
    Success(String),
    /// The link button has not been pressed yet; expected, never fatal.
    LinkButtonNotPressed,
    /// Any other bridge error; fatal.
    OtherError,
}

/// The pairing states. `Authenticated` and `Failed` are terminal.
#[derive(Debug, PartialEq, Eq)]
pub enum SessionState {
    Unauthenticated,
    Registering,
    Authenticated { user: String },
    Failed,
}

/// The outside work the caller owes after a transition; the transitions
/// themselves perform none.
#[derive(Debug, PartialEq, Eq, Clone, Copy, Structural)]
pub enum PairingAction {
    /// A stored credential was used: no bridge round-trip at all.
    UseStored,
    /// Send one pairing request to the bridge.
    SendRegister,
    /// Persist the credential of the now authenticated session.
    StoreCredential,
    /// Wait the fixed backoff, then send the next pairing request.
    WaitRetry,
    /// Report the fatal pairing error; no session is possible.
    ReportFailure,
}

/// First transition, out of `Unauthenticated`: with a stored credential the
/// session is authenticated directly, otherwise registering begins.
pub open spec fn spec_start(loaded: Option<String>) -> (SessionState, PairingAction) {
    match loaded {
        Option::Some(user) => (SessionState::Authenticated { user }, PairingAction::UseStored),
        Option::None => (SessionState::Registering, PairingAction::SendRegister),
    }
}

/// Transition out of `Registering` for one bridge answer: success
/// authenticates under the returned credential and owes its persistence, a
/// link-button answer stays registering and owes a backed-off retry, anything
/// else fails the pairing.
pub open spec fn spec_register_step(resp: RegisterResponse) -> (SessionState, PairingAction) {
    match resp {
        RegisterResponse::Success(user) => (
            SessionState::Authenticated { user },
            PairingAction::StoreCredential,
        ),
        RegisterResponse::LinkButtonNotPressed => (
            SessionState::Registering,
            PairingAction::WaitRetry,
        ),
        RegisterResponse::OtherError => (SessionState::Failed, PairingAction::ReportFailure),
    }
}

/// The state after answering each response in turn from `Registering`,
/// stopping at the first terminal state.
pub open spec fn spec_register_run(resps: Seq<RegisterResponse>) -> SessionState
    decreases resps.len(),
{
    if resps.len() == 0 {
        SessionState::Registering
    } else {
        let stepped = spec_register_step(resps[0]);
        if stepped.0 is Registering {
            spec_register_run(resps.drop_first())
        } else {
            stepped.0
        }
    }
}

/// Begin a session: a previously stored credential, when there is one,
/// authenticates at once with no network call; without one the session enters
/// `Registering` and owes the first pairing request.
pub fn start(loaded: Option<String>) -> (r: (SessionState, PairingAction))
    ensures
        r == spec_start(loaded),
{
    match loaded {
        Option::Some(user) => (SessionState::Authenticated { user }, PairingAction::UseStored),
        Option::None => (SessionState::Registering, PairingAction::SendRegister),
    }
}

/// Answer one pairing response while registering.
pub fn on_register_response(state: &SessionState, resp: RegisterResponse) -> (r: (
    SessionState,
    PairingAction,
))
    requires
        state is Registering,
    ensures
        r == spec_register_step(resp),
{
    match resp {
        RegisterResponse::Success(user) => (
            SessionState::Authenticated { user },
            PairingAction::StoreCredential,
        ),
        RegisterResponse::LinkButtonNotPressed => (
            SessionState::Registering,
            PairingAction::WaitRetry,
        ),
        RegisterResponse::OtherError => (SessionState::Failed, PairingAction::ReportFailure),
    }
}

/// Build the authenticated handle for a bridge address and credential.
pub fn connect_to_bridge(ip: String, user: String) -> (bridge: BridgeHandle)
    ensures
        bridge.ip == ip,
        bridge.user == user,
{
    BridgeHandle { ip, user }
}

/// A stored credential authenticates with zero network calls: the very first
/// transition is terminal and its only owed action uses the stored value.
pub proof fn lemma_stored_credential_authenticates(user: String)
    ensures
        spec_start(Option::Some(user)).0 == (SessionState::Authenticated { user }),
        spec_start(Option::Some(user)).1 == PairingAction::UseStored,
{
}

/// Any run of link-button answers followed by one success authenticates under
/// the returned credential; every link-button answer owed exactly a
/// backed-off retry, and the success owed persisting the credential.
pub proof fn lemma_link_button_retry(resps: Seq<RegisterResponse>, user: String)
    requires
        resps.len() >= 1,
        forall|i: int|
            0 <= i < resps.len() - 1 ==> resps[i] == RegisterResponse::LinkButtonNotPressed,
        resps.last() == RegisterResponse::Success(user),
    ensures
        spec_register_run(resps) == (SessionState::Authenticated { user }),
        forall|i: int|
            0 <= i < resps.len() - 1 ==> spec_register_step(#[trigger] resps[i]).1
                == PairingAction::WaitRetry,
        spec_register_step(resps.last()).1 == PairingAction::StoreCredential,
    decreases resps.len(),
{
    if resps.len() == 1 {
        assert(resps[0] == RegisterResponse::Success(user));
    } else {
        assert(resps[0] == RegisterResponse::LinkButtonNotPressed);
        let rest = resps.drop_first();
        assert(rest.last() == resps.last());
        assert(forall|i: int|
            0 <= i < rest.len() - 1 ==> #[trigger] rest[i] == resps[i + 1]);
        lemma_link_button_retry(rest, user);
    }
}

} // verus!
