//! The decisions of password sign-in over the WebSocket: a returning user
//! whose password checks out signs in with the grant of their linked key,
//! or gets a new key with collaborate access; a new user needs an invite
//! token to register.

use vstd::prelude::*;
use crate::capability::{capability_name, Capability};
use crate::text::push_str;

verus! {

/// What sign-in reads of a stored user: their display name and the public
/// key linked to them, if any.
#[derive(Debug, Clone, PartialEq, Eq)]
pub struct StoredUser {
    pub display_name: String,
    pub public_key: Option<Vec<u8>>,
}

/// What password sign-in does next.
#[derive(Debug, PartialEq, Eq)]
pub enum PasswordAuthAction {
    /// Refuse, with this message.
    Refuse(String),
    /// Sign in with the active grant of the user's linked key, under the
    /// user's display name; when the key has no grant, go on as
    /// `LinkNewKey` with `fallback_name`.
    UseLinkedKey { key: [u8; 32], display_name: String, fallback_name: String },
    /// Generate a key for the user, link it, create its identity under this
    /// display name and grant it collaborate access, then sign in.
    LinkNewKey { display_name: String, capability: Capability },
    /// Register a new user under this display name with a new key, then
    /// redeem the invite token for it.
    Register { token: String, display_name: String },
}

/// The requested display name, or `otherwise`.
pub open spec fn name_or(requested: Option<&str>, otherwise: Seq<char>) -> Seq<char> {
    match requested {
        Some(n) => n@,
        None => otherwise,
    }
}

/// The requested display name, or `otherwise`.
fn choose_name(requested: Option<&str>, otherwise: &str) -> (res: String)
    ensures
        res@ == name_or(requested, otherwise@),
{
    let mut out = String::new();
    match requested {
        Some(n) => push_str(&mut out, n),
        None => push_str(&mut out, otherwise),
    }
    out
}

/// Decides password sign-in for `username`: `user` is the stored user of
/// that name, if any, and `password_ok` whether the password matched it;
/// `invite_token` and `display_name` are what the client sent.
pub fn password_auth_step(
    user: Option<StoredUser>,
    password_ok: bool,
    username: &str,
    invite_token: Option<&str>,
    display_name: Option<&str>,
) -> (res: PasswordAuthAction)
    ensures
        match user {
            Some(u) => {
                let linked = u.public_key matches Some(k) && k@.len() == 32;
                &&& !password_ok ==> (res matches PasswordAuthAction::Refuse(m) && m@
                    == "invalid username or password"@)
                &&& password_ok && linked ==> (res matches PasswordAuthAction::UseLinkedKey {
                    key,
                    display_name: n,
                    fallback_name,
                } && key@ == u.public_key->0@ && n@ == u.display_name@ && fallback_name@ == name_or(
                    display_name,
                    u.display_name@,
                ))
                &&& password_ok && !linked ==> (res matches PasswordAuthAction::LinkNewKey { display_name: n, capability }
                    && n@ == name_or(display_name, u.display_name@) && capability == Capability::Collaborate)
            },
            None => match invite_token {
                None => res matches PasswordAuthAction::Refuse(m) && m@
                    == "user not found; invite token required for registration"@,
                Some(t) => res matches PasswordAuthAction::Register { token, display_name: n } && token@ == t@ && n@
                    == name_or(display_name, username@),
            },
        },
{
    match user {
        Some(u) => {
            if !password_ok {
                let mut m = String::new();
                push_str(&mut m, "invalid username or password");
                return PasswordAuthAction::Refuse(m);
            }
            let fallback = choose_name(display_name, u.display_name.as_str());
            match &u.public_key {
                Some(k) => {
                    if k.len() == 32 {
                        let mut key = [0u8; 32];
                        let mut i: usize = 0;
                        while i < 32
                            invariant
                                0 <= i <= 32,
                                k@.len() == 32,
                                forall|j: int| 0 <= j < i ==> key@[j] == k@[j],
                            decreases 32 - i,
                        {
                            key[i] = k[i];
                            i = i + 1;
                        }
                        assert(key@ =~= k@);
                        let n = u.display_name.clone();
                        return PasswordAuthAction::UseLinkedKey { key, display_name: n, fallback_name: fallback };
                    }
                },
                None => {},
            }
            PasswordAuthAction::LinkNewKey { display_name: fallback, capability: Capability::Collaborate }
        },
        None => match invite_token {
            None => {
                let mut m = String::new();
                push_str(&mut m, "user not found; invite token required for registration");
                PasswordAuthAction::Refuse(m)
            },
            Some(t) => {
                let mut token = String::new();
                push_str(&mut token, t);
                PasswordAuthAction::Register { token, display_name: choose_name(display_name, username) }
            },
        },
    }
}

/// The capability a stored grant names; a name that is no capability
/// (a corrupted record) counts as view access.
pub fn grant_capability(raw: &str) -> (res: Capability)
    ensures
        (exists|c: Capability| capability_name(c) == raw@) ==> capability_name(res) == raw@,
        (forall|c: Capability| capability_name(c) != raw@) ==> res == Capability::View,
{
    match Capability::parse(raw) {
        Ok(c) => c,
        Err(_) => Capability::View,
    }
}

} // verus!
