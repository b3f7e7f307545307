use crab_city::noun::IdentityNoun;

fn parse(s: &str) -> Result<IdentityNoun, crab_city::noun::NounError> {
    IdentityNoun::parse(s)
}

#[test]
fn handle_roundtrip() {
    let noun = parse("@alex").unwrap();
    assert_eq!(noun, IdentityNoun::Handle("alex".to_string()));
    assert_eq!(noun.to_display_string(), "@alex");
    assert_eq!(noun.provider(), "handle");
    assert_eq!(noun.subject(), "alex");
}

#[test]
fn github_roundtrip() {
    let noun = parse("github:octocat").unwrap();
    assert_eq!(noun, IdentityNoun::GitHub("octocat".to_string()));
    assert_eq!(noun.to_display_string(), "github:octocat");
    assert_eq!(noun.provider(), "github");
    assert_eq!(noun.subject(), "octocat");
}

#[test]
fn google_roundtrip() {
    let noun = parse("google:alice@acme.com").unwrap();
    assert_eq!(noun, IdentityNoun::Google("alice@acme.com".to_string()));
    assert_eq!(noun.to_display_string(), "google:alice@acme.com");
}

#[test]
fn email_roundtrip() {
    let noun = parse("email:bob@bar.com").unwrap();
    assert_eq!(noun, IdentityNoun::Email("bob@bar.com".to_string()));
    assert_eq!(noun.to_display_string(), "email:bob@bar.com");
}

#[test]
fn handle_too_short() {
    assert!(parse("@ab").is_err());
}

#[test]
fn handle_too_long() {
    let long = "@".to_string() + &"a".repeat(31);
    assert!(parse(&long).is_err());
}

#[test]
fn handle_leading_hyphen() {
    assert!(parse("@-foo").is_err());
}

#[test]
fn handle_trailing_hyphen() {
    assert!(parse("@foo-").is_err());
}

#[test]
fn handle_uppercase_rejected() {
    assert!(parse("@Alex").is_err());
}

#[test]
fn handle_special_chars_rejected() {
    assert!(parse("@foo_bar").is_err());
}

#[test]
fn handle_valid_with_hyphens() {
    assert!(parse("@foo-bar").is_ok());
}

#[test]
fn handle_valid_with_digits() {
    assert!(parse("@user42").is_ok());
}

#[test]
fn github_empty() {
    assert!(parse("github:").is_err());
}

#[test]
fn github_too_long() {
    let long = "github:".to_string() + &"a".repeat(40);
    assert!(parse(&long).is_err());
}

#[test]
fn github_leading_hyphen() {
    assert!(parse("github:-foo").is_err());
}

#[test]
fn github_valid_with_hyphens() {
    assert!(parse("github:octo-cat").is_ok());
}

#[test]
fn email_empty() {
    assert!(parse("email:").is_err());
}

#[test]
fn email_no_at() {
    assert!(parse("email:nope").is_err());
}

#[test]
fn email_no_domain_dot() {
    assert!(parse("email:foo@bar").is_err());
}

#[test]
fn google_valid() {
    assert!(parse("google:foo@gmail.com").is_ok());
}

#[test]
fn unknown_format() {
    assert!(parse("unknown:foo").is_err());
}

#[test]
fn bare_at() {
    assert!(parse("@").is_err());
}

#[test]
fn display_parse_roundtrip_examples() {
    for noun in [
        IdentityNoun::Handle("abc".to_string()),
        IdentityNoun::Handle("a-b-c-123".to_string()),
        IdentityNoun::GitHub("X".to_string()),
        IdentityNoun::Email("c@d.com".to_string()),
    ] {
        assert_eq!(parse(&noun.to_display_string()).unwrap(), noun);
        assert!(noun.validate().is_ok());
    }
}

#[test]
fn handle_length_bounds() {
    assert!(parse(&("@".to_string() + &"a".repeat(3))).is_ok());
    assert!(parse(&("@".to_string() + &"a".repeat(30))).is_ok());
    assert!(parse(&("github:".to_string() + &"a".repeat(39))).is_ok());
}
