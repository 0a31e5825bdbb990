//! Outcomes of a lock run, their exit codes, and the rendered artifact.

use vstd::prelude::*;
use crate::canonical::{canon, to_canonical_text};
use crate::lockfile::{lockfile_json, lockfile_value, Lockfile};

verus! {

/// The outcome of a lock run.
#[derive(Debug, Clone, Copy, PartialEq, Eq, Structural)]
pub enum DomainOutcome {
    LockCreated,
    LockPartial,
    Refusal,
}

/// The process exit code of an outcome.
pub open spec fn outcome_exit_code(o: DomainOutcome) -> u8 {
    match o {
        DomainOutcome::LockCreated => 0,
        DomainOutcome::LockPartial => 1,
        DomainOutcome::Refusal => 2,
    }
}

/// The wire name of an outcome.
pub open spec fn outcome_name(o: DomainOutcome) -> Seq<char> {
    match o {
        DomainOutcome::LockCreated => "LOCK_CREATED"@,
        DomainOutcome::LockPartial => "LOCK_PARTIAL"@,
        DomainOutcome::Refusal => "REFUSAL"@,
    }
}

impl DomainOutcome {
    /// `LOCK_CREATED` exits 0, `LOCK_PARTIAL` 1, a refusal 2.
    pub fn exit_code(self) -> (r: u8)
        ensures
            r == outcome_exit_code(self),
    {
        match self {
            DomainOutcome::LockCreated => 0,
            DomainOutcome::LockPartial => 1,
            DomainOutcome::Refusal => 2,
        }
    }

    /// The wire name: `LOCK_CREATED`, `LOCK_PARTIAL` or `REFUSAL`.
    pub fn as_str(self) -> (r: &'static str)
        ensures
            r@ == outcome_name(self),
    {
        match self {
            DomainOutcome::LockCreated => "LOCK_CREATED",
            DomainOutcome::LockPartial => "LOCK_PARTIAL",
            DomainOutcome::Refusal => "REFUSAL",
        }
    }
}

/// A rendered lockfile and the outcome it stands for.
#[derive(Debug, Clone)]
pub struct ArtifactOutput {
    pub outcome: DomainOutcome,
    pub json: String,
}

/// `LOCK_CREATED` when nothing was skipped, else `LOCK_PARTIAL`.
pub open spec fn lockfile_outcome(skipped_len: nat) -> DomainOutcome {
    if skipped_len == 0 {
        DomainOutcome::LockCreated
    } else {
        DomainOutcome::LockPartial
    }
}

/// The outcome of a lockfile: partial exactly when it has skipped entries.
pub fn outcome_from_lockfile(lockfile: &Lockfile) -> (r: DomainOutcome)
    ensures
        r == lockfile_outcome(lockfile.skipped@.len()),
{
    if lockfile.skipped.len() == 0 {
        DomainOutcome::LockCreated
    } else {
        DomainOutcome::LockPartial
    }
}

/// The lockfile's canonical JSON text and its outcome.
pub fn render_lockfile(lockfile: &Lockfile) -> (r: ArtifactOutput)
    ensures
        r.outcome == lockfile_outcome(lockfile.skipped@.len()),
        r.json@ == canon(lockfile_json(lockfile@)),
{
    let v = lockfile_value(lockfile);
    ArtifactOutput { outcome: outcome_from_lockfile(lockfile), json: to_canonical_text(&v) }
}

} // verus!
