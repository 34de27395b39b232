//! Cross-device sync: the results reported to the user interface and the
//! conflict resolutions a user can choose.
use vstd::prelude::*;

verus! {

/// Result of pairing a device.
#[derive(Debug, Clone)]
pub struct SyncPairResult {
    /// The new configuration code (first device only, shown once).
    pub config_code: Option<String>,
    /// Whether this device created the account.
    pub is_first_device: bool,
}

/// Result of resetting the sync account.
#[derive(Debug, Clone)]
pub struct SyncResetResult {
    pub success: bool,
    pub error: Option<String>,
}

/// A paired device.
#[derive(Debug, Clone)]
pub struct SyncDeviceInfoDto {
    pub device_id: String,
    pub platform: String,
    pub last_seen_at: String,
}

/// A conflict resolution as the user interface sends it.
#[derive(Debug, Clone, PartialEq, Eq)]
pub enum ConflictActionDto {
    /// Keep the local value (and push it).
    Ours,
    /// Take the remote value.
    Theirs,
    /// Skip this time.
    SkipOnce,
    /// Exclude the key from sync for good.
    SkipForever,
    /// Use a value typed by the user (and push it).
    Custom { value: String },
    /// Keep the local conversation and save the remote one as a new one.
    Fork,
}

/// A conflict resolution as the sync engine applies it.
#[derive(Debug, Clone, PartialEq, Eq)]
pub enum ConflictAction {
    UseOurs,
    UseTheirs,
    SkipOnce,
    SkipForever,
    UseCustom(String),
    Fork,
}

impl ConflictActionDto {
    /// The engine action the choice stands for.
    pub fn into_engine_action(self) -> (r: ConflictAction)
        ensures
            match self {
                ConflictActionDto::Ours => r == ConflictAction::UseOurs,
                ConflictActionDto::Theirs => r == ConflictAction::UseTheirs,
                ConflictActionDto::SkipOnce => r == ConflictAction::SkipOnce,
                ConflictActionDto::SkipForever => r == ConflictAction::SkipForever,
                ConflictActionDto::Custom { value } => r == ConflictAction::UseCustom(value),
                ConflictActionDto::Fork => r == ConflictAction::Fork,
            },
    {
        match self {
            ConflictActionDto::Ours => ConflictAction::UseOurs,
            ConflictActionDto::Theirs => ConflictAction::UseTheirs,
            ConflictActionDto::SkipOnce => ConflictAction::SkipOnce,
            ConflictActionDto::SkipForever => ConflictAction::SkipForever,
            ConflictActionDto::Custom { value } => ConflictAction::UseCustom(value),
            ConflictActionDto::Fork => ConflictAction::Fork,
        }
    }
}

/// What resolving a conflict did.
#[derive(Debug, Clone, Copy, PartialEq, Eq, Structural)]
pub enum ResolveOutcome {
    PushNeeded,
    AppliedTheirs,
    Skipped,
    Excluded,
}

/// The resolution result reported to the user interface.
#[derive(Debug, Clone)]
pub struct ResolveResult {
    /// `pushNeeded` / `appliedTheirs` / `skipped` / `excluded`
    pub outcome: String,
    /// Whether a push has been triggered: true exactly for `pushNeeded`
    /// (our or a custom value won), for which a push is scheduled.
    pub push_triggered: bool,
}

/// The wire name of an outcome.
pub open spec fn outcome_wire(o: ResolveOutcome) -> Seq<char> {
    match o {
        ResolveOutcome::PushNeeded => "pushNeeded"@,
        ResolveOutcome::AppliedTheirs => "appliedTheirs"@,
        ResolveOutcome::Skipped => "skipped"@,
        ResolveOutcome::Excluded => "excluded"@,
    }
}

impl ResolveResult {
    /// The report of an outcome: a push is triggered when our or a custom
    /// value won (`pushNeeded`).
    pub fn from_outcome(outcome: ResolveOutcome) -> (r: Self)
        ensures
            r.outcome@ == outcome_wire(outcome),
            r.push_triggered == (outcome == ResolveOutcome::PushNeeded),
    {
        let name = match outcome {
            ResolveOutcome::PushNeeded => "pushNeeded",
            ResolveOutcome::AppliedTheirs => "appliedTheirs",
            ResolveOutcome::Skipped => "skipped",
            ResolveOutcome::Excluded => "excluded",
        };
        let pushed = match outcome {
            ResolveOutcome::PushNeeded => true,
            _ => false,
        };
        ResolveResult { outcome: String::from_str(name), push_triggered: pushed }
    }

    /// Whether the outcome asks for a push to be scheduled.
    pub fn needs_push(&self) -> (r: bool)
        ensures
            r == (self.outcome@ == "pushNeeded"@),
    {
        crate::text::str_eq(self.outcome.as_str(), "pushNeeded")
    }
}

} // verus!
