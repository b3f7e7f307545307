//! Identity nouns: human-readable account references and their validation.

use vstd::prelude::*;
use vstd::utf8::encode_utf8;
use crate::text::{chars_of, push_str, strip_prefix};

verus! {

/// A human-readable reference to an account.
#[derive(Debug, Clone, PartialEq, Eq, Hash)]
pub enum IdentityNoun {
    Handle(String),
    GitHub(String),
    Google(String),
    Email(String),
}

/// Why a noun is not valid.
#[derive(Debug, Clone)]
pub enum NounError {
    UnknownFormat(String),
    InvalidHandle(String),
    InvalidGitHub(String),
    InvalidEmail { provider: String, reason: String },
}

/// The provider of a noun, 0 to 3 for handle, GitHub, Google and email.
pub open spec fn noun_kind(n: IdentityNoun) -> u8 {
    match n {
        IdentityNoun::Handle(_) => 0,
        IdentityNoun::GitHub(_) => 1,
        IdentityNoun::Google(_) => 2,
        IdentityNoun::Email(_) => 3,
    }
}

/// The subject of a noun.
pub open spec fn noun_subject(n: IdentityNoun) -> Seq<char> {
    match n {
        IdentityNoun::Handle(s) => s@,
        IdentityNoun::GitHub(s) => s@,
        IdentityNoun::Google(s) => s@,
        IdentityNoun::Email(s) => s@,
    }
}

/// The provider name of each kind.
pub open spec fn provider_name(kind: u8) -> Seq<char> {
    if kind == 0 {
        "handle"@
    } else if kind == 1 {
        "github"@
    } else if kind == 2 {
        "google"@
    } else {
        "email"@
    }
}

/// The text prefix of each kind in the display form.
pub open spec fn kind_prefix(kind: u8) -> Seq<char> {
    if kind == 0 {
        "@"@
    } else if kind == 1 {
        "github:"@
    } else if kind == 2 {
        "google:"@
    } else {
        "email:"@
    }
}

/// The display form of a noun: `@handle`, `github:user`, `google:addr`, `email:addr`.
pub open spec fn display_text(n: IdentityNoun) -> Seq<char> {
    kind_prefix(noun_kind(n)) + noun_subject(n)
}

/// The byte length of the UTF-8 encoding of `s`.
pub open spec fn byte_len(s: Seq<char>) -> int {
    encode_utf8(s).len() as int
}

/// A character allowed in a handle.
pub open spec fn is_handle_char(c: char) -> bool {
    ('a' <= c && c <= 'z') || ('0' <= c && c <= '9') || c == '-'
}

/// A character allowed in a GitHub user name.
pub open spec fn is_github_char(c: char) -> bool {
    ('a' <= c && c <= 'z') || ('A' <= c && c <= 'Z') || ('0' <= c && c <= '9') || c == '-'
}

/// What is wrong with a handle, if anything.
pub open spec fn handle_problem(h: Seq<char>) -> Option<Seq<char>> {
    if byte_len(h) < 3 || byte_len(h) > 30 {
        Some("must be 3-30 characters"@)
    } else if h[0] == '-' || h.last() == '-' {
        Some("cannot start or end with hyphen"@)
    } else if !(forall|i: int| 0 <= i < h.len() ==> is_handle_char(#[trigger] h[i])) {
        Some("must be lowercase alphanumeric + hyphens"@)
    } else {
        None
    }
}

/// What is wrong with a GitHub user name, if anything.
pub open spec fn github_problem(u: Seq<char>) -> Option<Seq<char>> {
    if u.len() == 0 || byte_len(u) > 39 {
        Some("must be 1-39 characters"@)
    } else if u[0] == '-' {
        Some("cannot start with hyphen"@)
    } else if !(forall|i: int| 0 <= i < u.len() ==> is_github_char(#[trigger] u[i])) {
        Some("must be alphanumeric + hyphens"@)
    } else {
        None
    }
}

/// What is wrong with an email address, if anything. The local part is
/// what precedes the first `@`, the domain what follows it.
pub open spec fn email_problem(e: Seq<char>) -> Option<Seq<char>> {
    if e.len() == 0 {
        Some("empty"@)
    } else if !e.contains('@') {
        Some("missing @"@)
    } else {
        let at = e.index_of_first('@')->0;
        let domain = e.skip(at + 1);
        if at == 0 {
            Some("empty local part"@)
        } else if domain.len() == 0 {
            Some("empty domain"@)
        } else if !domain.contains('.') {
            Some("domain must contain a dot"@)
        } else {
            None
        }
    }
}

/// What is wrong with a noun, if anything.
pub open spec fn noun_problem(n: IdentityNoun) -> Option<Seq<char>> {
    match n {
        IdentityNoun::Handle(h) => handle_problem(h@),
        IdentityNoun::GitHub(u) => github_problem(u@),
        IdentityNoun::Google(e) => email_problem(e@),
        IdentityNoun::Email(e) => email_problem(e@),
    }
}

/// `e` is the error that reports problem `msg` of a noun of kind `kind`.
pub open spec fn reports(kind: u8, msg: Seq<char>, e: NounError) -> bool {
    if kind == 0 {
        e matches NounError::InvalidHandle(m) && m@ == msg
    } else if kind == 1 {
        e matches NounError::InvalidGitHub(m) && m@ == msg
    } else {
        e matches NounError::InvalidEmail { provider, reason } && provider@ == provider_name(kind)
            && reason@ == msg
    }
}

fn owned(s: &str) -> (res: String)
    ensures
        res@ == s@,
{
    s.to_owned()
}

fn validate_handle(h: &str) -> (res: Result<(), NounError>)
    ensures
        match handle_problem(h@) {
            None => res is Ok,
            Some(msg) => res matches Err(e) && reports(0, msg, e),
        },
{
    let n = h.as_bytes().len();
    if n < 3 || n > 30 {
        return Err(NounError::InvalidHandle(owned("must be 3-30 characters")));
    }
    let cs = chars_of(h);
    if cs.len() == 0 {
        assert(encode_utf8(h@) =~= Seq::<u8>::empty());
    }
    if cs[0] == '-' || cs[cs.len() - 1] == '-' {
        return Err(NounError::InvalidHandle(owned("cannot start or end with hyphen")));
    }
    let mut i: usize = 0;
    while i < cs.len()
        invariant
            0 <= i <= cs.len(),
            cs@ == h@,
            !(byte_len(h@) < 3 || byte_len(h@) > 30),
            !(h@[0] == '-' || h@.last() == '-'),
            forall|k: int| 0 <= k < i ==> is_handle_char(#[trigger] h@[k]),
        decreases cs.len() - i,
    {
        let c = cs[i];
        if !(('a' <= c && c <= 'z') || ('0' <= c && c <= '9') || c == '-') {
            assert(!is_handle_char(h@[i as int]));
            return Err(NounError::InvalidHandle(owned("must be lowercase alphanumeric + hyphens")));
        }
        i = i + 1;
    }
    Ok(())
}

fn validate_github(u: &str) -> (res: Result<(), NounError>)
    ensures
        match github_problem(u@) {
            None => res is Ok,
            Some(msg) => res matches Err(e) && reports(1, msg, e),
        },
{
    let cs = chars_of(u);
    if cs.len() == 0 || u.as_bytes().len() > 39 {
        return Err(NounError::InvalidGitHub(owned("must be 1-39 characters")));
    }
    if cs[0] == '-' {
        return Err(NounError::InvalidGitHub(owned("cannot start with hyphen")));
    }
    let mut i: usize = 0;
    while i < cs.len()
        invariant
            0 <= i <= cs.len(),
            cs@ == u@,
            !(u@.len() == 0 || byte_len(u@) > 39),
            u@[0] != '-',
            forall|k: int| 0 <= k < i ==> is_github_char(#[trigger] u@[k]),
        decreases cs.len() - i,
    {
        let c = cs[i];
        if !(('a' <= c && c <= 'z') || ('A' <= c && c <= 'Z') || ('0' <= c && c <= '9') || c == '-') {
            assert(!is_github_char(u@[i as int]));
            return Err(NounError::InvalidGitHub(owned("must be alphanumeric + hyphens")));
        }
        i = i + 1;
    }
    Ok(())
}

fn email_error(provider: &str, reason: &str) -> (e: NounError)
    ensures
        e matches NounError::InvalidEmail { provider: p, reason: r } && p@ == provider@ && r@ == reason@,
{
    NounError::InvalidEmail { provider: owned(provider), reason: owned(reason) }
}

fn validate_email(e: &str, provider: &str) -> (res: Result<(), NounError>)
    ensures
        match email_problem(e@) {
            None => res is Ok,
            Some(msg) => res matches Err(err) && err matches NounError::InvalidEmail { provider: p, reason: r }
                && p@ == provider@ && r@ == msg,
        },
{
    let cs = chars_of(e);
    if cs.len() == 0 {
        return Err(email_error(provider, "empty"));
    }
    let mut at: usize = 0;
    while at < cs.len() && cs[at] != '@'
        invariant
            0 <= at <= cs.len(),
            cs@ == e@,
            forall|k: int| 0 <= k < at ==> e@[k] != '@',
        decreases cs.len() - at,
    {
        at = at + 1;
    }
    if at == cs.len() {
        assert(!e@.contains('@'));
        return Err(email_error(provider, "missing @"));
    }
    proof {
        assert(e@.contains('@')) by {
            assert(e@[at as int] == '@');
        }
        e@.index_of_first_ensures('@');
        let f = e@.index_of_first('@')->0;
        assert(f == at as int) by {
            if f < at {
                assert(e@[f] == '@');
            }
            if f > at {
                assert(e@[at as int] == '@');
            }
        }
    }
    if at == 0 {
        return Err(email_error(provider, "empty local part"));
    }
    if at + 1 == cs.len() {
        assert(e@.skip(at + 1).len() == 0);
        return Err(email_error(provider, "empty domain"));
    }
    let mut k: usize = at + 1;
    while k < cs.len() && cs[k] != '.'
        invariant
            at + 1 <= k <= cs.len(),
            cs@ == e@,
            forall|j: int| at + 1 <= j < k ==> e@[j] != '.',
        decreases cs.len() - k,
    {
        k = k + 1;
    }
    if k == cs.len() {
        assert(!e@.skip(at + 1).contains('.')) by {
            if e@.skip(at + 1).contains('.') {
                let d = e@.skip(at + 1);
                let j = choose|j: int| 0 <= j < d.len() && d[j] == '.';
                assert(e@[at + 1 + j] == '.');
            }
        }
        return Err(email_error(provider, "domain must contain a dot"));
    }
    assert(e@.skip(at + 1).contains('.')) by {
        assert(e@.skip(at + 1)[k - at - 1] == '.');
    }
    Ok(())
}

impl IdentityNoun {
    /// The provider string: `"handle"`, `"github"`, `"google"`, or `"email"`.
    pub fn provider(&self) -> (res: &str)
        ensures
            res@ == provider_name(noun_kind(*self)),
    {
        match self {
            IdentityNoun::Handle(_) => "handle",
            IdentityNoun::GitHub(_) => "github",
            IdentityNoun::Google(_) => "google",
            IdentityNoun::Email(_) => "email",
        }
    }

    /// The inner subject value.
    pub fn subject(&self) -> (res: &str)
        ensures
            res@ == noun_subject(*self),
    {
        match self {
            IdentityNoun::Handle(s) => s.as_str(),
            IdentityNoun::GitHub(s) => s.as_str(),
            IdentityNoun::Google(s) => s.as_str(),
            IdentityNoun::Email(s) => s.as_str(),
        }
    }

    /// Validates the subject against the provider's rules.
    pub fn validate(&self) -> (res: Result<(), NounError>)
        ensures
            match noun_problem(*self) {
                None => res is Ok,
                Some(msg) => res matches Err(e) && reports(noun_kind(*self), msg, e),
            },
    {
        match self {
            IdentityNoun::Handle(h) => validate_handle(h.as_str()),
            IdentityNoun::GitHub(u) => validate_github(u.as_str()),
            IdentityNoun::Google(e) => validate_email(e.as_str(), "google"),
            IdentityNoun::Email(e) => validate_email(e.as_str(), "email"),
        }
    }

    /// The display form (`@handle`, `github:user`, `google:addr`, `email:addr`).
    pub fn to_display_string(&self) -> (res: String)
        ensures
            res@ == display_text(*self),
    {
        let mut out = String::new();
        match self {
            IdentityNoun::Handle(h) => {
                push_str(&mut out, "@");
                push_str(&mut out, h.as_str());
            },
            IdentityNoun::GitHub(u) => {
                push_str(&mut out, "github:");
                push_str(&mut out, u.as_str());
            },
            IdentityNoun::Google(e) => {
                push_str(&mut out, "google:");
                push_str(&mut out, e.as_str());
            },
            IdentityNoun::Email(e) => {
                push_str(&mut out, "email:");
                push_str(&mut out, e.as_str());
            },
        }
        out
    }
}

/// The kind and subject that text names, trying `@`, `github:`, `google:`
/// and `email:` in that order.
pub open spec fn parse_text(s: Seq<char>) -> Option<(u8, Seq<char>)> {
    if crate::text::has_prefix(s, "@"@) {
        Some((0u8, s.skip(1)))
    } else if crate::text::has_prefix(s, "github:"@) {
        Some((1u8, s.skip(7)))
    } else if crate::text::has_prefix(s, "google:"@) {
        Some((2u8, s.skip(7)))
    } else if crate::text::has_prefix(s, "email:"@) {
        Some((3u8, s.skip(6)))
    } else {
        None
    }
}

impl IdentityNoun {
    /// Parses the display form and validates it.
    pub fn parse(s: &str) -> (res: Result<IdentityNoun, NounError>)
        ensures
            match parse_text(s@) {
                None => res matches Err(e) && e matches NounError::UnknownFormat(m) && m@ == s@,
                Some((kind, subject)) => match res {
                    Ok(n) => noun_kind(n) == kind && noun_subject(n) == subject && noun_problem(n) is None,
                    Err(e) => {
                        &&& kind <= 3
                        &&& kind == 0 ==> (handle_problem(subject) matches Some(msg) && reports(kind, msg, e))
                        &&& kind == 1 ==> (github_problem(subject) matches Some(msg) && reports(kind, msg, e))
                        &&& kind >= 2 ==> (email_problem(subject) matches Some(msg) && reports(kind, msg, e))
                    },
                },
            },
    {
        proof {
            reveal_strlit("@");
            reveal_strlit("github:");
            reveal_strlit("google:");
            reveal_strlit("email:");
        }
        let noun = if let Some(h) = strip_prefix(s, "@") {
            IdentityNoun::Handle(h)
        } else if let Some(u) = strip_prefix(s, "github:") {
            IdentityNoun::GitHub(u)
        } else if let Some(e) = strip_prefix(s, "google:") {
            IdentityNoun::Google(e)
        } else if let Some(e) = strip_prefix(s, "email:") {
            IdentityNoun::Email(e)
        } else {
            return Err(NounError::UnknownFormat(owned(s)));
        };
        match noun.validate() {
            Ok(()) => Ok(noun),
            Err(e) => Err(e),
        }
    }
}

/// Parsing the display form of a noun gives back its kind and subject.
pub proof fn law_display_parse_roundtrip(n: IdentityNoun)
    ensures
        parse_text(display_text(n)) == Some((noun_kind(n), noun_subject(n))),
{
    reveal_strlit("@");
    reveal_strlit("github:");
    reveal_strlit("google:");
    reveal_strlit("email:");
    let d = display_text(n);
    let p = kind_prefix(noun_kind(n));
    assert(d.take(p.len() as int) =~= p);
    assert(d.skip(p.len() as int) =~= noun_subject(n));
    if noun_kind(n) != 0 {
        assert(d[0] != '@');
        assert(!crate::text::has_prefix(d, "@"@)) by {
            if crate::text::has_prefix(d, "@"@) {
                assert(d.take(1)[0] == d[0]);
            }
        }
    }
    if noun_kind(n) >= 2 {
        assert(!crate::text::has_prefix(d, "github:"@)) by {
            if crate::text::has_prefix(d, "github:"@) {
                assert(d.take(7)[1] == d[1]);
            }
        }
    }
    if noun_kind(n) == 3 {
        assert(!crate::text::has_prefix(d, "google:"@)) by {
            if crate::text::has_prefix(d, "google:"@) {
                assert(d.take(7)[0] == d[0]);
            }
        }
    }
}

} // verus!
