use marcel_ssh::{ConflictAction, ConflictActionDto, CrashType, ResolveOutcome, ResolveResult};

#[test]
fn conflict_choices_map_to_engine_actions() {
    assert_eq!(ConflictActionDto::Ours.into_engine_action(), ConflictAction::UseOurs);
    assert_eq!(ConflictActionDto::Theirs.into_engine_action(), ConflictAction::UseTheirs);
    assert_eq!(ConflictActionDto::SkipOnce.into_engine_action(), ConflictAction::SkipOnce);
    assert_eq!(ConflictActionDto::SkipForever.into_engine_action(), ConflictAction::SkipForever);
    assert_eq!(
        ConflictActionDto::Custom { value: "v".into() }.into_engine_action(),
        ConflictAction::UseCustom("v".into())
    );
    assert_eq!(ConflictActionDto::Fork.into_engine_action(), ConflictAction::Fork);
}

#[test]
fn resolve_outcomes_have_stable_names() {
    let r = ResolveResult::from_outcome(ResolveOutcome::PushNeeded);
    assert_eq!(r.outcome, "pushNeeded");
    assert!(r.push_triggered);
    assert!(r.needs_push());
    assert_eq!(ResolveResult::from_outcome(ResolveOutcome::AppliedTheirs).outcome, "appliedTheirs");
    assert_eq!(ResolveResult::from_outcome(ResolveOutcome::Skipped).outcome, "skipped");
    assert!(!ResolveResult::from_outcome(ResolveOutcome::Excluded).needs_push());
    assert!(!ResolveResult::from_outcome(ResolveOutcome::AppliedTheirs).push_triggered);
    assert!(!ResolveResult::from_outcome(ResolveOutcome::Skipped).push_triggered);
    assert!(!ResolveResult::from_outcome(ResolveOutcome::Excluded).push_triggered);
}

#[test]
fn crash_type_names_roundtrip() {
    for t in [
        CrashType::ConfigCorrupted,
        CrashType::StartupFailure,
        CrashType::RuntimePanic,
        CrashType::DatabaseError,
        CrashType::Unknown,
    ] {
        assert_eq!(CrashType::from_str(t.as_str()), t);
    }
    assert_eq!(CrashType::from_str("whatever"), CrashType::Unknown);
    assert_eq!(CrashType::RuntimePanic.as_str(), "runtime_panic");
}
