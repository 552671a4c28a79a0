use std::collections::HashSet;

use hugh::config::RoleGuardConfig;
use hugh::detection::{unapproved_invite, unauthorized_protected_roles, Violation};

#[test]
fn invite_detection_handles_all_supported_forms() {
    let allowed = vec!["our-server".to_owned()];
    assert_eq!(
        unapproved_invite("join https://discord.gg/Evil_Code!", &allowed).as_deref(),
        Some("evil_code")
    );
    assert_eq!(
        unapproved_invite("discord.com/invite/our-server", &allowed),
        None
    );
    assert_eq!(unapproved_invite("no invite here", &allowed), None);
}

#[test]
fn role_guard_is_an_explicit_allowlist() {
    let config = RoleGuardConfig {
        enabled: true,
        protected_role_ids: HashSet::from([7, 8]),
        authorized_member_ids: HashSet::from([42]),
    };
    assert_eq!(
        unauthorized_protected_roles(1, &[5, 7, 8], &config),
        vec![7, 8]
    );
    assert!(unauthorized_protected_roles(42, &[7], &config).is_empty());
}

#[test]
fn allowed_codes_match_without_ascii_case() {
    let allowed = vec!["Our-Server".to_owned()];
    assert_eq!(unapproved_invite("DISCORDAPP.COM/INVITE/OUR-SERVER", &allowed), None);
    assert_eq!(
        unapproved_invite("see discordapp.com/invite/other", &allowed).as_deref(),
        Some("other")
    );
}

#[test]
fn empty_codes_and_allowed_links_do_not_stop_the_search() {
    let allowed = vec!["ok".to_owned()];
    assert_eq!(
        unapproved_invite("discord.gg/ discord.gg/ok discord.gg/bad", &allowed).as_deref(),
        Some("bad")
    );
    assert_eq!(unapproved_invite("discord.gg/", &allowed), None);
}

#[test]
fn the_earliest_link_is_reported_whatever_its_form() {
    let allowed: Vec<String> = Vec::new();
    assert_eq!(
        unapproved_invite("discord.com/invite/aaa discord.gg/bbb", &allowed).as_deref(),
        Some("aaa")
    );
    assert_eq!(
        unapproved_invite("discord.gg/first discordapp.com/invite/second", &allowed).as_deref(),
        Some("first")
    );
    assert_eq!(
        unapproved_invite("discordapp.com/invite/one discord.com/invite/two", &allowed).as_deref(),
        Some("one")
    );
}

#[test]
fn non_ascii_text_is_kept_and_ends_a_code() {
    let allowed: Vec<String> = Vec::new();
    assert_eq!(
        unapproved_invite("Ünïcode discord.gg/abcÉ", &allowed).as_deref(),
        Some("abc")
    );
}

#[test]
fn a_link_inside_an_allowed_code_is_still_reported() {
    let allowed = vec!["discord".to_owned()];
    assert_eq!(unapproved_invite("discord.gg/discord.gg/x", &allowed).as_deref(), Some("x"));
    assert_eq!(unapproved_invite("discord.gg/discord", &allowed), None);
}

#[test]
fn disabled_role_guard_strips_nothing() {
    let config = RoleGuardConfig {
        enabled: false,
        protected_role_ids: HashSet::from([7]),
        authorized_member_ids: HashSet::new(),
    };
    assert!(unauthorized_protected_roles(1, &[7], &config).is_empty());
}

#[test]
fn violation_names() {
    assert_eq!(Violation::MassMention.as_str(), "mass_mention");
    assert_eq!(Violation::EveryoneMention.as_str(), "everyone_mention");
    assert_eq!(Violation::ProtectedRolePing.as_str(), "protected_role_ping");
    assert_eq!(Violation::MessageFlood.as_str(), "message_flood");
    assert_eq!(Violation::DuplicateSpam.as_str(), "duplicate_spam");
    assert_eq!(Violation::UnapprovedInvite.as_str(), "unapproved_invite");
}
