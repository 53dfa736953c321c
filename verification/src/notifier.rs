//! The change notifier's decisions: bounded-backoff connection retries,
//! the exchange topology, and how a publish outcome reaches the caller.
//!
//! The notifier itself talks to a message broker; everything it decides is
//! here, as pure functions of state and outcome.  A publish happens after
//! the store mutation committed, as an independent operation: its failure
//! is reported, never rolled into the mutation.

use vstd::prelude::*;

use crate::errors::ApiError;
use crate::projection::FlightView;

verus! {

/// Connection retries stop after this many failed reattempts.
pub const MAX_CONNECT_ATTEMPTS: u64 = 10;

/// First reattempt delay, doubled each round.
pub const BASE_BACKOFF_MS: u64 = 1000;

/// Ceiling on any reattempt delay.
pub const MAX_BACKOFF_MS: u64 = 60_000;

/// Exponential backoff with a ceiling.
pub open spec fn backoff_ms(attempt: nat) -> nat
    decreases attempt,
{
    if attempt == 0 {
        BASE_BACKOFF_MS as nat
    } else if backoff_ms((attempt - 1) as nat) * 2 >= MAX_BACKOFF_MS {
        MAX_BACKOFF_MS as nat
    } else {
        backoff_ms((attempt - 1) as nat) * 2
    }
}

/// The delay before the reattempt following the given number of failures.
pub fn backoff_delay_ms(attempt: u64) -> (r: u64)
    ensures
        r == backoff_ms(attempt as nat),
        r <= MAX_BACKOFF_MS,
{
    let mut cur: u64 = BASE_BACKOFF_MS;
    let mut i: u64 = 0;
    while i < attempt
        invariant
            i <= attempt,
            cur == backoff_ms(i as nat),
            cur <= MAX_BACKOFF_MS,
        decreases attempt - i,
    {
        if cur * 2 >= MAX_BACKOFF_MS {
            cur = MAX_BACKOFF_MS;
        } else {
            cur = cur * 2;
        }
        i += 1;
    }
    cur
}

/// Where the notifier's connection stands.
#[derive(Clone, Copy, Debug, PartialEq, Eq, Structural)]
pub enum NotifierState {
    Disconnected,
    Connecting { attempts: u64 },
    Connected,
    Failed,
}

/// What the runner of the connection loop does next.
#[derive(Clone, Copy, Debug, PartialEq, Eq, Structural)]
pub enum ConnectAction {
    Proceed,
    RetryAfter { delay_ms: u64 },
    GiveUp,
}

/// Starting a connection: the first attempt is due at once.
pub fn connect_started() -> (s: NotifierState)
    ensures
        s == (NotifierState::Connecting { attempts: 0u64 }),
{
    NotifierState::Connecting { attempts: 0 }
}

/// One connection attempt came back: success connects; a failure retries
/// with exponential backoff until the attempts are spent.
pub fn on_connect_outcome(s: &NotifierState, success: bool) -> (r: (NotifierState, ConnectAction))
    requires
        s matches NotifierState::Connecting { .. },
    ensures
        success ==> r == (NotifierState::Connected, ConnectAction::Proceed),
        !success ==> (*s matches NotifierState::Connecting { attempts } ==> if attempts
            < MAX_CONNECT_ATTEMPTS {
            r == (
                NotifierState::Connecting { attempts: (attempts + 1) as u64 },
                ConnectAction::RetryAfter { delay_ms: backoff_ms(attempts as nat) as u64 },
            )
        } else {
            r == (NotifierState::Failed, ConnectAction::GiveUp)
        }),
{
    let attempts = match s {
        NotifierState::Connecting { attempts } => *attempts,
        _ => 0,
    };
    if success {
        (NotifierState::Connected, ConnectAction::Proceed)
    } else if attempts < MAX_CONNECT_ATTEMPTS {
        let delay_ms = backoff_delay_ms(attempts);
        (NotifierState::Connecting { attempts: attempts + 1 }, ConnectAction::RetryAfter {
            delay_ms,
        })
    } else {
        (NotifierState::Failed, ConnectAction::GiveUp)
    }
}

/// How the exchange is declared: idempotently, durable and never
/// auto-deleted, so a redeclaration on reconnect is harmless.
pub struct ExchangeSpec {
    pub name: String,
    pub kind: String,
    pub durable: bool,
    pub auto_delete: bool,
}

/// The topology of the flight-update exchange.
pub fn exchange_declaration(name: String, kind: String) -> (r: ExchangeSpec)
    ensures
        r.durable,
        !r.auto_delete,
        r.name@ == name@,
        r.kind@ == kind@,
{
    ExchangeSpec { name, kind, durable: true, auto_delete: false }
}

/// The caller's outcome of a post-commit notification: the mutation is
/// already durable, so a successful publish hands the view back and a
/// failed one surfaces as `Internal` without undoing anything.
pub fn notify_result(view: FlightView, publish_ok: bool) -> (r: Result<FlightView, ApiError>)
    ensures
        publish_ok ==> r == Ok::<FlightView, ApiError>(view),
        !publish_ok ==> (r matches Err(e) && e is Internal),
{
    if publish_ok {
        Ok(view)
    } else {
        Err(ApiError::Internal("notification publish failed".to_owned()))
    }
}

} // verus!
