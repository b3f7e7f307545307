//! Error types, error codes, and machine-actionable recovery hints.

use vstd::prelude::*;
use crate::text::push_str;

verus! {

/// What a client should do after an error.
#[derive(Debug, Clone, PartialEq, Eq)]
pub enum RecoveryAction {
    Reconnect,
    Retry { retry_after_secs: u64 },
    ContactAdmin { admin_fingerprints: Vec<String>, reason: String },
    RedeemInvite,
    NoAction,
}

/// A recovery hint.
#[derive(Debug, Clone, PartialEq, Eq)]
pub struct Recovery {
    pub action: RecoveryAction,
}

/// Authentication and authorization errors.
#[derive(Debug, Clone)]
pub enum AuthError {
    InvalidInvite(String),
    InvalidIdentityProof(String),
    InvalidSignature,
    NotAMember,
    GrantNotActive { reason: String },
    InsufficientAccess { required_type: String, required_action: String },
    Blocklisted { reason: String },
    HandleTaken,
    AlreadyAMember,
    RateLimited { retry_after_secs: u64 },
}

/// The machine-readable code of an error.
pub open spec fn error_code_of(e: AuthError) -> Seq<char> {
    match e {
        AuthError::InvalidInvite(_) => "invalid_invite"@,
        AuthError::InvalidIdentityProof(_) => "invalid_identity_proof"@,
        AuthError::InvalidSignature => "invalid_signature"@,
        AuthError::NotAMember => "not_a_member"@,
        AuthError::GrantNotActive { .. } => "grant_not_active"@,
        AuthError::InsufficientAccess { .. } => "insufficient_access"@,
        AuthError::Blocklisted { .. } => "blocklisted"@,
        AuthError::HandleTaken => "handle_taken"@,
        AuthError::AlreadyAMember => "already_a_member"@,
        AuthError::RateLimited { .. } => "rate_limited"@,
    }
}

/// The human-readable message of an error.
pub open spec fn message_of(e: AuthError) -> Seq<char> {
    match e {
        AuthError::InvalidInvite(s) => "invalid invite: "@ + s@,
        AuthError::InvalidIdentityProof(s) => "invalid identity proof: "@ + s@,
        AuthError::InvalidSignature => "invalid signature"@,
        AuthError::NotAMember => "not a member"@,
        AuthError::GrantNotActive { reason } => "grant not active: "@ + reason@,
        AuthError::InsufficientAccess { required_type, required_action } => "insufficient access: requires "@
            + required_type@ + ":"@ + required_action@,
        AuthError::Blocklisted { reason } => "blocklisted: "@ + reason@,
        AuthError::HandleTaken => "handle taken"@,
        AuthError::AlreadyAMember => "already a member"@,
        AuthError::RateLimited { .. } => "rate limited"@,
    }
}

/// `a` is the recovery action advised for `e`.
pub open spec fn advises(e: AuthError, a: RecoveryAction) -> bool {
    match e {
        AuthError::NotAMember => a is RedeemInvite,
        AuthError::AlreadyAMember => a is Reconnect,
        AuthError::RateLimited { retry_after_secs } => a matches RecoveryAction::Retry { retry_after_secs: r }
            && r == retry_after_secs,
        AuthError::GrantNotActive { reason } => a matches RecoveryAction::ContactAdmin {
            admin_fingerprints,
            reason: r,
        } && admin_fingerprints@.len() == 0 && r@ == reason@,
        AuthError::Blocklisted { reason } => a matches RecoveryAction::ContactAdmin {
            admin_fingerprints,
            reason: r,
        } && admin_fingerprints@.len() == 0 && r@ == reason@,
        _ => a is NoAction,
    }
}

impl AuthError {
    /// The machine-readable error code.
    pub fn error_code(&self) -> (res: &str)
        ensures
            res@ == error_code_of(*self),
    {
        match self {
            AuthError::InvalidInvite(_) => "invalid_invite",
            AuthError::InvalidIdentityProof(_) => "invalid_identity_proof",
            AuthError::InvalidSignature => "invalid_signature",
            AuthError::NotAMember => "not_a_member",
            AuthError::GrantNotActive { .. } => "grant_not_active",
            AuthError::InsufficientAccess { .. } => "insufficient_access",
            AuthError::Blocklisted { .. } => "blocklisted",
            AuthError::HandleTaken => "handle_taken",
            AuthError::AlreadyAMember => "already_a_member",
            AuthError::RateLimited { .. } => "rate_limited",
        }
    }

    /// The recovery hint for this error.
    pub fn recovery(&self) -> (res: Recovery)
        ensures
            advises(*self, res.action),
    {
        let action = match self {
            AuthError::InvalidInvite(_) => RecoveryAction::NoAction,
            AuthError::InvalidIdentityProof(_) => RecoveryAction::NoAction,
            AuthError::InvalidSignature => RecoveryAction::NoAction,
            AuthError::NotAMember => RecoveryAction::RedeemInvite,
            AuthError::GrantNotActive { reason } => RecoveryAction::ContactAdmin {
                admin_fingerprints: Vec::new(),
                reason: reason.clone(),
            },
            AuthError::InsufficientAccess { .. } => RecoveryAction::NoAction,
            AuthError::Blocklisted { reason } => RecoveryAction::ContactAdmin {
                admin_fingerprints: Vec::new(),
                reason: reason.clone(),
            },
            AuthError::HandleTaken => RecoveryAction::NoAction,
            AuthError::AlreadyAMember => RecoveryAction::Reconnect,
            AuthError::RateLimited { retry_after_secs } => RecoveryAction::Retry {
                retry_after_secs: *retry_after_secs,
            },
        };
        Recovery { action }
    }

    /// The human-readable message (the error's display text).
    pub fn message(&self) -> (res: String)
        ensures
            res@ == message_of(*self),
    {
        let mut m = String::new();
        match self {
            AuthError::InvalidInvite(s) => {
                push_str(&mut m, "invalid invite: ");
                push_str(&mut m, s.as_str());
            },
            AuthError::InvalidIdentityProof(s) => {
                push_str(&mut m, "invalid identity proof: ");
                push_str(&mut m, s.as_str());
            },
            AuthError::InvalidSignature => push_str(&mut m, "invalid signature"),
            AuthError::NotAMember => push_str(&mut m, "not a member"),
            AuthError::GrantNotActive { reason } => {
                push_str(&mut m, "grant not active: ");
                push_str(&mut m, reason.as_str());
            },
            AuthError::InsufficientAccess { required_type, required_action } => {
                push_str(&mut m, "insufficient access: requires ");
                push_str(&mut m, required_type.as_str());
                push_str(&mut m, ":");
                push_str(&mut m, required_action.as_str());
            },
            AuthError::Blocklisted { reason } => {
                push_str(&mut m, "blocklisted: ");
                push_str(&mut m, reason.as_str());
            },
            AuthError::HandleTaken => push_str(&mut m, "handle taken"),
            AuthError::AlreadyAMember => push_str(&mut m, "already a member"),
            AuthError::RateLimited { .. } => push_str(&mut m, "rate limited"),
        }
        m
    }
}

/// Serializable error response for a stream or an HTTP reply.
#[derive(Debug, Clone)]
pub struct ErrorResponse {
    pub error: String,
    pub message: String,
    pub recovery: Recovery,
}

impl ErrorResponse {
    /// The response describing `err`.
    pub fn from_error(err: &AuthError) -> (res: Self)
        ensures
            res.error@ == error_code_of(*err),
            res.message@ == message_of(*err),
            advises(*err, res.recovery.action),
    {
        let mut code = String::new();
        push_str(&mut code, err.error_code());
        ErrorResponse { error: code, message: err.message(), recovery: err.recovery() }
    }
}

} // verus!
