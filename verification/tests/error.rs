use crab_city::error::{AuthError, ErrorResponse, RecoveryAction};

#[test]
fn error_codes() {
    assert_eq!(AuthError::NotAMember.error_code(), "not_a_member");
    assert_eq!(AuthError::HandleTaken.error_code(), "handle_taken");
    assert_eq!(AuthError::RateLimited { retry_after_secs: 30 }.error_code(), "rate_limited");
}

#[test]
fn recovery_actions() {
    let r = AuthError::NotAMember.recovery();
    assert!(matches!(r.action, RecoveryAction::RedeemInvite));

    let r = AuthError::AlreadyAMember.recovery();
    assert!(matches!(r.action, RecoveryAction::Reconnect));

    let r = AuthError::RateLimited { retry_after_secs: 10 }.recovery();
    assert!(matches!(r.action, RecoveryAction::Retry { retry_after_secs: 10 }));
}

#[test]
fn error_messages() {
    assert_eq!(AuthError::InvalidInvite("x".to_string()).message(), "invalid invite: x");
    assert_eq!(
        AuthError::InsufficientAccess {
            required_type: "members".to_string(),
            required_action: "invite".to_string(),
        }
        .message(),
        "insufficient access: requires members:invite"
    );
    assert_eq!(AuthError::RateLimited { retry_after_secs: 3 }.message(), "rate limited");
}

#[test]
fn blocklisted_recovery_contacts_admin() {
    let r = AuthError::Blocklisted { reason: "spam".to_string() }.recovery();
    match r.action {
        RecoveryAction::ContactAdmin { admin_fingerprints, reason } => {
            assert!(admin_fingerprints.is_empty());
            assert_eq!(reason, "spam");
        }
        other => panic!("unexpected {other:?}"),
    }
    assert!(matches!(AuthError::InvalidSignature.recovery().action, RecoveryAction::NoAction));
}

#[test]
fn error_response_carries_code_and_message() {
    let err = AuthError::GrantNotActive { reason: "suspended".to_string() };
    let resp = ErrorResponse::from_error(&err);
    assert_eq!(resp.error, "grant_not_active");
    assert_eq!(resp.message, "grant not active: suspended");
}
