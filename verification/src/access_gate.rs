//! Access gates: pluggable admission preconditions (payment, credential,
//! membership tier) that an external verifier must pass before a join is
//! admitted. The check itself is a remote call owned by the embedding
//! program; this core only snapshots gate parameters for that call and
//! interprets its outcome.

use crate::ids::{TimestampMillis, UserId};
use vstd::prelude::*;

verus! {

/// One non-composite admission precondition.
#[derive(Clone, Copy, PartialEq, Eq, Structural, Debug)]
pub enum SimpleGate {
    /// The subject must hold the diamond membership tier.
    DiamondMember,
    /// The subject must pay `amount` (plus `fee`) on the given ledger; on a
    /// committed join this additionally queues a payout side effect.
    Payment { ledger: u64, amount: u64, fee: u64 },
    /// The subject must present the named credential.
    Credential { credential_id: u64 },
}

/// A gate: one precondition, or a composite of several (all of them, or any
/// one of them, depending on `require_all`).
pub enum AccessGate {
    Simple(SimpleGate),
    Composite { gates: Vec<SimpleGate>, require_all: bool },
}

/// The payment parameters of a payment gate: `(ledger, amount, fee)`.
pub open spec fn spec_payment_params(g: AccessGate) -> Option<(u64, u64, u64)> {
    match g {
        AccessGate::Simple(SimpleGate::Payment { ledger, amount, fee }) => Some(
            (ledger, amount, fee),
        ),
        _ => None,
    }
}

/// The two gates hold the same parameters. (Stated over views, since two
/// vectors with equal contents are distinct objects.)
pub open spec fn gate_matches(a: AccessGate, b: AccessGate) -> bool {
    match (a, b) {
        (AccessGate::Simple(x), AccessGate::Simple(y)) => x == y,
        (
            AccessGate::Composite { gates: g1, require_all: r1 },
            AccessGate::Composite { gates: g2, require_all: r2 },
        ) => g1@ == g2@ && r1 == r2,
        _ => false,
    }
}

impl AccessGate {
    /// An owned copy of this gate, taken when the admission protocol suspends
    /// so the external check runs against the parameters seen in phase one.
    pub fn snapshot(&self) -> (g: AccessGate)
        ensures
            gate_matches(g, *self),
    {
        match self {
            AccessGate::Simple(s) => AccessGate::Simple(*s),
            AccessGate::Composite { gates, require_all } => {
                let n = gates.len();
                let mut copied: Vec<SimpleGate> = Vec::new();
                for i in 0..n
                    invariant
                        n == gates@.len(),
                        copied@ == gates@.take(i as int),
                {
                    copied.push(gates[i]);
                    proof {
                        assert(gates@.take(i + 1) =~= gates@.take(i as int).push(gates@[i as int]));
                    }
                }
                proof {
                    assert(gates@.take(n as int) =~= gates@);
                }
                AccessGate::Composite { gates: copied, require_all: *require_all }
            },
        }
    }
}

/// Executable form of [`spec_payment_params`].
pub fn payment_params(g: &AccessGate) -> (r: Option<(u64, u64, u64)>)
    ensures
        r == spec_payment_params(*g),
{
    match g {
        AccessGate::Simple(SimpleGate::Payment { ledger, amount, fee }) => Some(
            (*ledger, *amount, *fee),
        ),
        _ => None,
    }
}

/// Everything the external verifier needs: gate parameters snapshotted
/// in phase one, the subject, and the time of the attempt.
pub struct CheckGateArgs {
    pub gate: AccessGate,
    pub user_id: UserId,
    pub now: TimestampMillis,
}

/// What the external check reported. `Failed` is a legitimate rejection;
/// `InternalError` means the collaborator itself had trouble (a timeout is
/// reported this way too). Both are terminal for the attempt and recoverable
/// by retrying.
pub enum GateCheckResult {
    Success,
    Failed(String),
    InternalError(String),
}

} // verus!
