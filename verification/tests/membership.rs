use crab_city::keys::PublicKey;
use crab_city::membership::{
    MembershipState, MembershipTransition, StateWithContext, SuspensionSource, TransitionError,
};

fn ctx(state: MembershipState) -> StateWithContext {
    StateWithContext::new(state)
}

fn suspended_by_admin() -> StateWithContext {
    StateWithContext::suspended(SuspensionSource::Admin)
}

fn suspended_by_blocklist() -> StateWithContext {
    StateWithContext::suspended(SuspensionSource::Blocklist { scope: "global".to_string() })
}

fn all_transitions() -> Vec<MembershipTransition> {
    vec![
        MembershipTransition::Activate,
        MembershipTransition::Suspend { reason: "test".to_string(), source: SuspensionSource::Admin },
        MembershipTransition::Reinstate,
        MembershipTransition::Remove,
        MembershipTransition::Expire,
        MembershipTransition::BlocklistHit { scope: "global".to_string() },
        MembershipTransition::BlocklistLift,
        MembershipTransition::Replace { new_pubkey: PublicKey::from_bytes([99u8; 32]) },
    ]
}

#[test]
fn invited_activate() {
    let result = ctx(MembershipState::Invited).apply(MembershipTransition::Activate).unwrap();
    assert_eq!(result.state, MembershipState::Active);
}

#[test]
fn invited_expire() {
    let result = ctx(MembershipState::Invited).apply(MembershipTransition::Expire).unwrap();
    assert_eq!(result.state, MembershipState::Removed);
}

#[test]
fn active_suspend() {
    let result = ctx(MembershipState::Active)
        .apply(MembershipTransition::Suspend { reason: "test".to_string(), source: SuspensionSource::Admin })
        .unwrap();
    assert_eq!(result.state, MembershipState::Suspended);
}

#[test]
fn active_remove() {
    let result = ctx(MembershipState::Active).apply(MembershipTransition::Remove).unwrap();
    assert_eq!(result.state, MembershipState::Removed);
}

#[test]
fn active_blocklist_hit() {
    let result = ctx(MembershipState::Active)
        .apply(MembershipTransition::BlocklistHit { scope: "org:acme".to_string() })
        .unwrap();
    assert_eq!(result.state, MembershipState::Suspended);
    assert!(matches!(result.suspension_source, Some(SuspensionSource::Blocklist { .. })));
}

#[test]
fn suspended_reinstate() {
    let result = suspended_by_admin().apply(MembershipTransition::Reinstate).unwrap();
    assert_eq!(result.state, MembershipState::Active);
}

#[test]
fn suspended_remove() {
    let result = suspended_by_admin().apply(MembershipTransition::Remove).unwrap();
    assert_eq!(result.state, MembershipState::Removed);
}

#[test]
fn suspended_blocklist_lift() {
    let result = suspended_by_blocklist().apply(MembershipTransition::BlocklistLift).unwrap();
    assert_eq!(result.state, MembershipState::Active);
}

#[test]
fn replace_from_any_non_removed() {
    let pk = PublicKey::from_bytes([99u8; 32]);
    for state in [MembershipState::Invited, MembershipState::Active, MembershipState::Suspended] {
        let ctx = if state == MembershipState::Suspended {
            suspended_by_admin()
        } else {
            StateWithContext::new(state)
        };
        let result = ctx.apply(MembershipTransition::Replace { new_pubkey: pk }).unwrap();
        assert_eq!(result.state, MembershipState::Removed);
    }
}

#[test]
fn invited_suspend_fails() {
    let result = ctx(MembershipState::Invited)
        .apply(MembershipTransition::Suspend { reason: "nope".to_string(), source: SuspensionSource::Admin });
    assert!(result.is_err());
}

#[test]
fn active_activate_fails() {
    let result = ctx(MembershipState::Active).apply(MembershipTransition::Activate);
    assert!(result.is_err());
}

#[test]
fn active_reinstate_fails() {
    let result = ctx(MembershipState::Active).apply(MembershipTransition::Reinstate);
    assert!(result.is_err());
}

#[test]
fn suspended_admin_blocklist_lift_fails() {
    let result = suspended_by_admin().apply(MembershipTransition::BlocklistLift);
    assert!(result.is_err());
}

#[test]
fn removed_is_terminal() {
    let transitions = vec![
        MembershipTransition::Activate,
        MembershipTransition::Reinstate,
        MembershipTransition::Remove,
        MembershipTransition::Expire,
        MembershipTransition::BlocklistLift,
    ];
    for t in transitions {
        let result = ctx(MembershipState::Removed).apply(t);
        assert!(result.is_err(), "removed should be terminal");
    }
}

#[test]
fn state_display_fromstr() {
    for state in [
        MembershipState::Invited,
        MembershipState::Active,
        MembershipState::Suspended,
        MembershipState::Removed,
    ] {
        let s = state.as_str();
        let back = MembershipState::parse(s).unwrap();
        assert_eq!(state, back);
    }
}

#[test]
fn all_valid_transitions_produce_valid_states() {
    for state in [
        MembershipState::Invited,
        MembershipState::Active,
        MembershipState::Suspended,
        MembershipState::Removed,
    ] {
        for transition in all_transitions() {
            let ctx = if state == MembershipState::Suspended {
                StateWithContext::suspended(SuspensionSource::Admin)
            } else {
                StateWithContext::new(state)
            };
            if let Ok(result) = ctx.apply(transition) {
                assert_eq!(
                    result.state == MembershipState::Suspended,
                    result.suspension_source.is_some()
                );
            }
        }
    }
}

#[test]
fn removed_is_always_terminal() {
    let ctx = StateWithContext::new(MembershipState::Removed);
    for t in all_transitions() {
        assert!(matches!(ctx.apply(t), Err(TransitionError::TerminalState)));
    }
}

#[test]
fn invalid_transition_reports_current_state() {
    match ctx(MembershipState::Invited).apply(MembershipTransition::Reinstate) {
        Err(TransitionError::InvalidTransition { from, .. }) => assert_eq!(from, MembershipState::Invited),
        other => panic!("unexpected {other:?}"),
    }
    assert!(MembershipState::parse("gone").is_err());
}

fn refusal(s: StateWithContext, t: MembershipTransition) -> String {
    match s.apply(t) {
        Err(crab_city::membership::TransitionError::InvalidTransition { reason, .. }) => reason,
        other => panic!("expected an invalid transition, got {:?}", other),
    }
}

#[test]
fn refusal_reason_is_debug_text_and_state() {
    assert_eq!(
        refusal(StateWithContext::new(MembershipState::Invited), MembershipTransition::Reinstate),
        "Reinstate not valid from invited"
    );
    assert_eq!(
        refusal(
            StateWithContext::new(MembershipState::Invited),
            MembershipTransition::Suspend { reason: "spam \"x\"".to_string(), source: SuspensionSource::Admin }
        ),
        "Suspend { reason: \"spam \\\"x\\\"\", source: Admin } not valid from invited"
    );
    assert_eq!(
        refusal(
            StateWithContext::suspended(SuspensionSource::Admin),
            MembershipTransition::BlocklistHit { scope: "org".to_string() }
        ),
        "BlocklistHit { scope: \"org\" } not valid from suspended"
    );
    assert_eq!(
        refusal(StateWithContext::suspended(SuspensionSource::Admin), MembershipTransition::BlocklistLift),
        "blocklist lift only applies to blocklist-sourced suspensions"
    );
}
