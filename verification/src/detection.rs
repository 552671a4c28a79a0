use vstd::prelude::*;

use crate::config::RoleGuardConfig;
use crate::text::{ascii_lower, ascii_lowercase, ascii_lowercase_chars, chars_of, string_of, to_ascii_lower};

verus! {

broadcast use vstd::std_specs::hash::group_hash_axioms;

/// A reason to act on a message.
#[derive(Debug, Clone, Copy, PartialEq, Eq, Structural)]
pub enum Violation {
    MassMention,
    EveryoneMention,
    ProtectedRolePing,
    MessageFlood,
    DuplicateSpam,
    UnapprovedInvite,
}

/// The detector name recorded for each violation.
pub open spec fn violation_name(v: Violation) -> Seq<char> {
    match v {
        Violation::MassMention => "mass_mention"@,
        Violation::EveryoneMention => "everyone_mention"@,
        Violation::ProtectedRolePing => "protected_role_ping"@,
        Violation::MessageFlood => "message_flood"@,
        Violation::DuplicateSpam => "duplicate_spam"@,
        Violation::UnapprovedInvite => "unapproved_invite"@,
    }
}

impl Violation {
    /// The detector name recorded for this violation.
    pub fn as_str(self) -> (r: &'static str)
        ensures
            r@ == violation_name(self),
    {
        match self {
            Violation::MassMention => "mass_mention",
            Violation::EveryoneMention => "everyone_mention",
            Violation::ProtectedRolePing => "protected_role_ping",
            Violation::MessageFlood => "message_flood",
            Violation::DuplicateSpam => "duplicate_spam",
            Violation::UnapprovedInvite => "unapproved_invite",
        }
    }
}

/// A character that can be part of an invite code: an ASCII letter or digit,
/// `-` or `_`.
pub open spec fn is_code_char(c: char) -> bool {
    ||| 'a' <= c && c <= 'z'
    ||| 'A' <= c && c <= 'Z'
    ||| '0' <= c && c <= '9'
    ||| c == '-'
    ||| c == '_'
}

/// The number of invite-code characters at the start of `s`.
pub open spec fn code_len(s: Seq<char>) -> nat
    decreases s.len(),
{
    if s.len() > 0 && is_code_char(s[0]) {
        1 + code_len(s.drop_first())
    } else {
        0
    }
}

/// The leading code run is a run of code characters, ended by a non-code one.
pub proof fn lemma_code_len(s: Seq<char>)
    ensures
        code_len(s) <= s.len(),
        forall|i: int| 0 <= i < code_len(s) ==> is_code_char(#[trigger] s[i]),
        code_len(s) < s.len() ==> !is_code_char(s[code_len(s) as int]),
    decreases s.len(),
{
    if s.len() > 0 && is_code_char(s[0]) {
        lemma_code_len(s.drop_first());
        assert forall|i: int| 0 <= i < code_len(s) implies is_code_char(#[trigger] s[i]) by {
            if i > 0 {
                assert(s[i] == s.drop_first()[i - 1]);
            }
        }
        if code_len(s) < s.len() {
            assert(s[code_len(s) as int] == s.drop_first()[code_len(s.drop_first()) as int]);
        }
    }
}

/// The invite code at the start of `s`.
pub open spec fn code_at(s: Seq<char>) -> Seq<char> {
    s.take(code_len(s) as int)
}

/// `p` occurs in `s` starting at index `k`.
pub open spec fn occurs_at(s: Seq<char>, p: Seq<char>, k: int) -> bool {
    0 <= k && k + p.len() <= s.len() && s.subrange(k, k + p.len()) == p
}

/// Two strings are equal once ASCII letters are compared without case.
pub open spec fn eq_ignore_ascii_case(a: Seq<char>, b: Seq<char>) -> bool {
    ascii_lowercase(a) == ascii_lowercase(b)
}

/// `code` matches one of the allowed codes, ignoring ASCII case.
pub open spec fn is_allowed_code(code: Seq<char>, allowed: Seq<Seq<char>>) -> bool {
    exists|j: int| 0 <= j < allowed.len() && eq_ignore_ascii_case(#[trigger] allowed[j], code)
}

/// The invite link forms that are recognized.
pub open spec fn invite_prefixes() -> Seq<Seq<char>> {
    seq!["discord.gg/"@, "discord.com/invite/"@, "discordapp.com/invite/"@]
}

/// The code of the invite link that starts at index `k` of `s`, if one of
/// the link forms starts there. (No two forms can start at the same place.)
pub open spec fn link_at(s: Seq<char>, k: int) -> Option<Seq<char>> {
    if occurs_at(s, invite_prefixes()[0], k) {
        Some(code_at(s.skip(k + invite_prefixes()[0].len())))
    } else if occurs_at(s, invite_prefixes()[1], k) {
        Some(code_at(s.skip(k + invite_prefixes()[1].len())))
    } else if occurs_at(s, invite_prefixes()[2], k) {
        Some(code_at(s.skip(k + invite_prefixes()[2].len())))
    } else {
        None
    }
}

/// The link starting at `k` has a non-empty code that is not allowed.
pub open spec fn reported_at(s: Seq<char>, allowed: Seq<Seq<char>>, k: int) -> bool {
    link_at(s, k) matches Some(code) && code.len() > 0 && !is_allowed_code(code, allowed)
}

/// Scans `s` left to right from index `k`, trying every link form at each
/// position; the result is the code of the first link whose code is
/// non-empty and not allowed.
pub open spec fn scan_invites(s: Seq<char>, allowed: Seq<Seq<char>>, k: nat) -> Option<Seq<char>>
    decreases s.len() - k,
{
    if k >= s.len() {
        None
    } else if reported_at(s, allowed, k as int) {
        link_at(s, k as int)
    } else {
        scan_invites(s, allowed, k + 1)
    }
}

/// The invite code that `unapproved_invite` reports: in the content lowered
/// to ASCII lower case, the code of the unapproved link that starts first.
pub open spec fn first_unapproved_invite(content: Seq<char>, allowed: Seq<Seq<char>>) -> Option<Seq<char>> {
    scan_invites(ascii_lowercase(content), allowed, 0)
}

proof fn lemma_scan_is_earliest(s: Seq<char>, allowed: Seq<Seq<char>>, k: nat)
    ensures
        match scan_invites(s, allowed, k) {
            Some(code) => exists|i: int|
                k <= i < s.len() && #[trigger] reported_at(s, allowed, i) && link_at(s, i) == Some(code)
                    && forall|j: int| k <= j < i ==> !reported_at(s, allowed, j),
            None => forall|j: int| k <= j < s.len() ==> !reported_at(s, allowed, j),
        },
    decreases s.len() - k,
{
    if k < s.len() && !reported_at(s, allowed, k as int) {
        lemma_scan_is_earliest(s, allowed, k + 1);
        match scan_invites(s, allowed, k + 1) {
            Some(code) => {
                let i = choose|i: int|
                    k + 1 <= i < s.len() && #[trigger] reported_at(s, allowed, i) && link_at(s, i) == Some(code)
                        && forall|j: int| k + 1 <= j < i ==> !reported_at(s, allowed, j);
                assert(forall|j: int| k <= j < i ==> !reported_at(s, allowed, j));
            },
            None => {},
        }
    } else if k < s.len() {
        assert(reported_at(s, allowed, k as int));
    }
}

/// The reported invite is the earliest one: it is the code of an unapproved
/// link, and no unapproved link starts before it in the lower-cased content.
/// Nothing is reported exactly when the content holds no unapproved link.
pub proof fn lemma_reported_invite_is_earliest(content: Seq<char>, allowed: Seq<Seq<char>>)
    ensures
        match first_unapproved_invite(content, allowed) {
            Some(code) => exists|i: int|
                0 <= i < content.len() && #[trigger] reported_at(ascii_lowercase(content), allowed, i)
                    && link_at(ascii_lowercase(content), i) == Some(code)
                    && forall|j: int| 0 <= j < i ==> !reported_at(ascii_lowercase(content), allowed, j),
            None => forall|j: int| 0 <= j < content.len() ==> !reported_at(ascii_lowercase(content), allowed, j),
        },
{
    lemma_scan_is_earliest(ascii_lowercase(content), allowed, 0);
}

/// A character of an invite code as Discord writes it, by code point: an
/// ASCII digit (0x30-0x39), an upper-case (0x41-0x5A) or lower-case
/// (0x61-0x7A) ASCII letter, `-` (0x2D) or `_` (0x5F).
pub open spec fn in_code_alphabet(c: char) -> bool {
    let u = c as u32;
    (0x30 <= u && u <= 0x39) || (0x41 <= u && u <= 0x5A) || (0x61 <= u && u <= 0x7A) || u == 0x2D || u == 0x5F
}

proof fn lemma_lowered_code(code: Seq<char>)
    requires
        forall|i: int| 0 <= i < code.len() ==> in_code_alphabet(#[trigger] code[i]),
    ensures
        code_at(ascii_lowercase(code)) == ascii_lowercase(code),
        ascii_lowercase(ascii_lowercase(code)) == ascii_lowercase(code),
        forall|i: int| 0 <= i < code.len() ==> #[trigger] ascii_lowercase(code)[i] != '.' && ascii_lowercase(code)[i] != '/',
{
    let lc = ascii_lowercase(code);
    assert forall|i: int| 0 <= i < lc.len() implies is_code_char(#[trigger] lc[i]) by {
        assert(in_code_alphabet(code[i]));
    }
    lemma_code_len_exact(lc, lc.len());
    assert(lc.take(lc.len() as int) == lc);
    assert(ascii_lowercase(lc) =~= lc);
    assert forall|i: int| 0 <= i < code.len() implies #[trigger] lc[i] != '.' && lc[i] != '/' by {
        assert(in_code_alphabet(code[i]));
    }
}

/// The code of a link is the whole run of code characters after it, digits
/// included. For a message that is a `discord.gg/` link followed by a code
/// made of ASCII letters, digits, `-` and `_`: when the code matches no
/// allowed code, whatever the ASCII case, the reported invite is the whole
/// code in lower case; when it matches one, nothing is reported.
pub proof fn lemma_whole_code_is_judged(code: Seq<char>, allowed: Seq<Seq<char>>)
    requires
        code.len() > 0,
        forall|i: int| 0 <= i < code.len() ==> in_code_alphabet(#[trigger] code[i]),
    ensures
        (forall|j: int| 0 <= j < allowed.len() ==> ascii_lowercase(#[trigger] allowed[j]) != ascii_lowercase(code))
            ==> first_unapproved_invite("discord.gg/"@ + code, allowed) == Some(ascii_lowercase(code)),
        (exists|j: int| 0 <= j < allowed.len() && ascii_lowercase(#[trigger] allowed[j]) == ascii_lowercase(code))
            ==> first_unapproved_invite("discord.gg/"@ + code, allowed) is None,
{
    reveal_strlit("discord.gg/");
    reveal_strlit("discord.com/invite/");
    reveal_strlit("discordapp.com/invite/");
    let p = "discord.gg/"@;
    let content = p + code;
    let lc = ascii_lowercase(code);
    let lower = ascii_lowercase(content);
    lemma_lowered_code(code);
    assert(lower =~= p + lc);
    assert(lower.subrange(0, 11) =~= p);
    assert(occurs_at(lower, invite_prefixes()[0], 0));
    assert(lower.skip(11) =~= lc);
    assert(link_at(lower, 0) == Some(lc));
    assert(is_allowed_code(lc, allowed) == exists|j: int| 0 <= j < allowed.len() && ascii_lowercase(#[trigger] allowed[j]) == ascii_lowercase(code)) by {
        if is_allowed_code(lc, allowed) {
            let j = choose|j: int| 0 <= j < allowed.len() && eq_ignore_ascii_case(#[trigger] allowed[j], lc);
            assert(ascii_lowercase(allowed[j]) == ascii_lowercase(code));
        }
        if exists|j: int| 0 <= j < allowed.len() && ascii_lowercase(#[trigger] allowed[j]) == ascii_lowercase(code) {
            let j = choose|j: int| 0 <= j < allowed.len() && ascii_lowercase(#[trigger] allowed[j]) == ascii_lowercase(code);
            assert(eq_ignore_ascii_case(allowed[j], lc));
        }
    }
    if is_allowed_code(lc, allowed) {
        assert forall|k: int| 0 <= k < lower.len() implies !reported_at(lower, allowed, k) by {
            if k > 0 {
                // Every link form has a '.' at index 7 or 10, where this
                // message holds a letter, a digit, '-', '_' or '/'.
                if occurs_at(lower, invite_prefixes()[0], k) {
                    assert(lower.subrange(k, k + 11)[7] == lower[k + 7]);
                    assert(invite_prefixes()[0][7] == '.');
                }
                if occurs_at(lower, invite_prefixes()[1], k) {
                    assert(lower.subrange(k, k + 19)[7] == lower[k + 7]);
                    assert(invite_prefixes()[1][7] == '.');
                }
                if occurs_at(lower, invite_prefixes()[2], k) {
                    assert(lower.subrange(k, k + 22)[10] == lower[k + 10]);
                    assert(invite_prefixes()[2][10] == '.');
                }
                if k + 7 < lower.len() {
                    if k + 7 >= 11 {
                        assert(lower[k + 7] == lc[k + 7 - 11]);
                    }
                }
                if k + 10 < lower.len() {
                    assert(lower[k + 10] == lc[k + 10 - 11]);
                }
            }
        }
        lemma_scan_is_earliest(lower, allowed, 0);
    }
}

/// The whole code is reported after every link form. For a message that
/// is a `discord.gg/`, `discord.com/invite/` or `discordapp.com/invite/`
/// link followed by a code of ASCII letters, digits, `-` and `_` that matches
/// no allowed code whatever the ASCII case, the reported invite is the whole
/// code in lower case.
pub proof fn lemma_every_link_form_reports_its_code(form: Seq<char>, code: Seq<char>, allowed: Seq<Seq<char>>)
    requires
        form == "discord.gg/"@ || form == "discord.com/invite/"@ || form == "discordapp.com/invite/"@,
        code.len() > 0,
        forall|i: int| 0 <= i < code.len() ==> in_code_alphabet(#[trigger] code[i]),
        forall|j: int| 0 <= j < allowed.len() ==> ascii_lowercase(#[trigger] allowed[j]) != ascii_lowercase(code),
    ensures
        first_unapproved_invite(form + code, allowed) == Some(ascii_lowercase(code)),
{
    reveal_strlit("discord.gg/");
    reveal_strlit("discord.com/invite/");
    reveal_strlit("discordapp.com/invite/");
    let lc = ascii_lowercase(code);
    let lower = ascii_lowercase(form + code);
    lemma_lowered_code(code);
    let n = form.len() as int;
    assert(ascii_lowercase(form) =~= form);
    assert(lower =~= form + lc);
    assert(lower.subrange(0, n) =~= form);
    assert(lower.skip(n) =~= lc);
    if form == "discord.gg/"@ {
        assert(occurs_at(lower, invite_prefixes()[0], 0));
    } else if form == "discord.com/invite/"@ {
        assert(lower.subrange(0, 11)[8] != invite_prefixes()[0][8]);
        assert(!occurs_at(lower, invite_prefixes()[0], 0));
        assert(occurs_at(lower, invite_prefixes()[1], 0));
    } else {
        assert(lower.subrange(0, 11)[7] != invite_prefixes()[0][7]);
        assert(!occurs_at(lower, invite_prefixes()[0], 0));
        assert(lower.subrange(0, 19)[7] != invite_prefixes()[1][7]);
        assert(!occurs_at(lower, invite_prefixes()[1], 0));
        assert(occurs_at(lower, invite_prefixes()[2], 0));
    }
    assert(link_at(lower, 0) == Some(lc));
    if is_allowed_code(lc, allowed) {
        let j = choose|j: int| 0 <= j < allowed.len() && eq_ignore_ascii_case(#[trigger] allowed[j], lc);
        assert(ascii_lowercase(allowed[j]) == ascii_lowercase(code));
    }
}

/// A reported invite code is never one of the allowed codes: it is a
/// non-empty run of invite-code characters that matches no allowed code,
/// whatever the ASCII case.
pub proof fn lemma_reported_invite_is_not_allowed(content: Seq<char>, allowed: Seq<Seq<char>>)
    ensures
        first_unapproved_invite(content, allowed) matches Some(code) ==> {
            &&& code.len() > 0
            &&& !is_allowed_code(code, allowed)
            &&& forall|i: int| 0 <= i < code.len() ==> is_code_char(#[trigger] code[i])
        },
{
    let lower = ascii_lowercase(content);
    lemma_scan_is_earliest(lower, allowed, 0);
    match first_unapproved_invite(content, allowed) {
        Some(code) => {
            let i = choose|i: int|
                0 <= i < lower.len() && #[trigger] reported_at(lower, allowed, i) && link_at(lower, i) == Some(code)
                    && forall|j: int| 0 <= j < i ==> !reported_at(lower, allowed, j);
            let p = if occurs_at(lower, invite_prefixes()[0], i) {
                invite_prefixes()[0]
            } else if occurs_at(lower, invite_prefixes()[1], i) {
                invite_prefixes()[1]
            } else {
                invite_prefixes()[2]
            };
            let after = lower.skip(i + p.len());
            lemma_code_len(after);
            assert(code == code_at(after));
            assert forall|j: int| 0 <= j < code.len() implies is_code_char(#[trigger] code[j]) by {
                assert(code[j] == after[j]);
            }
        },
        None => {},
    }
}

/// The views of a list of strings.
pub open spec fn string_views(v: Seq<String>) -> Seq<Seq<char>> {
    v.map_values(|s: String| s@)
}

fn lower_chars(s: &str) -> (r: Vec<char>)
    ensures
        r@ == ascii_lowercase(s@),
{
    ascii_lowercase_chars(&chars_of(s))
}

fn code_char(c: char) -> (r: bool)
    ensures
        r == is_code_char(c),
{
    ('a' <= c && c <= 'z') || ('A' <= c && c <= 'Z') || ('0' <= c && c <= '9') || c == '-' || c == '_'
}

fn occurs_at_exec(s: &Vec<char>, p: &Vec<char>, k: usize) -> (r: bool)
    requires
        k + p@.len() <= s@.len(),
    ensures
        r == occurs_at(s@, p@, k as int),
{
    let slen = s.len();
    let mut j: usize = 0;
    while j < p.len()
        invariant
            slen == s@.len(),
            k + p@.len() <= s@.len(),
            j <= p@.len(),
            forall|i: int| 0 <= i < j ==> s@[k + i] == p@[i],
        decreases p.len() - j,
    {
        if s[k + j] != p[j] {
            assert(s@.subrange(k as int, k + p@.len())[j as int] != p@[j as int]);
            return false;
        }
        j = j + 1;
    }
    assert(s@.subrange(k as int, k + p@.len()) =~= p@);
    true
}

fn matches_ignore_ascii_case(a: &Vec<char>, b: &Vec<char>) -> (r: bool)
    ensures
        r == eq_ignore_ascii_case(a@, b@),
{
    if a.len() != b.len() {
        assert(ascii_lowercase(a@).len() != ascii_lowercase(b@).len());
        return false;
    }
    let mut j: usize = 0;
    while j < a.len()
        invariant
            a@.len() == b@.len(),
            j <= a@.len(),
            forall|i: int| 0 <= i < j ==> ascii_lower(a@[i]) == ascii_lower(b@[i]),
        decreases a.len() - j,
    {
        if to_ascii_lower(a[j]) != to_ascii_lower(b[j]) {
            assert(ascii_lowercase(a@)[j as int] != ascii_lowercase(b@)[j as int]);
            return false;
        }
        j = j + 1;
    }
    assert(ascii_lowercase(a@) =~= ascii_lowercase(b@));
    true
}

fn allowed_code(code: &Vec<char>, allowed: &Vec<String>) -> (r: bool)
    ensures
        r == is_allowed_code(code@, string_views(allowed@)),
{
    let ghost views = string_views(allowed@);
    let mut j: usize = 0;
    while j < allowed.len()
        invariant
            views == string_views(allowed@),
            j <= allowed@.len(),
            forall|i: int| 0 <= i < j ==> !eq_ignore_ascii_case(#[trigger] views[i], code@),
        decreases allowed.len() - j,
    {
        let a = chars_of(allowed[j].as_str());
        if matches_ignore_ascii_case(&a, code) {
            assert(views[j as int] == a@);
            return true;
        }
        j = j + 1;
    }
    false
}

fn code_after(s: &Vec<char>, start: usize) -> (code: Vec<char>)
    requires
        start <= s@.len(),
    ensures
        code@ == code_at(s@.skip(start as int)),
{
    let ghost after = s@.skip(start as int);
    proof {
        lemma_code_len(after);
    }
    let mut code: Vec<char> = Vec::new();
    let mut j: usize = start;
    while j < s.len() && code_char(s[j])
        invariant
            start <= j <= s@.len(),
            after == s@.skip(start as int),
            code@ == after.take(j - start),
            forall|i: int| 0 <= i < j - start ==> is_code_char(#[trigger] after[i]),
        decreases s.len() - j,
    {
        code.push(s[j]);
        assert(after.take(j + 1 - start) == after.take(j - start).push(after[j - start]));
        j = j + 1;
    }
    proof {
        lemma_code_len_exact(after, (j - start) as nat);
    }
    code
}

fn starts_with_at(s: &Vec<char>, p: &Vec<char>, k: usize) -> (r: bool)
    requires
        k <= s@.len(),
    ensures
        r == occurs_at(s@, p@, k as int),
{
    if p.len() > s.len() - k {
        return false;
    }
    occurs_at_exec(s, p, k)
}

fn link_at_exec(s: &Vec<char>, p0: &Vec<char>, p1: &Vec<char>, p2: &Vec<char>, k: usize) -> (r: Option<Vec<char>>)
    requires
        k <= s@.len(),
        p0@ == invite_prefixes()[0],
        p1@ == invite_prefixes()[1],
        p2@ == invite_prefixes()[2],
    ensures
        match r {
            Some(code) => link_at(s@, k as int) == Some(code@),
            None => link_at(s@, k as int) is None,
        },
{
    // The length read here bounds the view's length for the sums below.
    let _len: usize = s.len();
    if starts_with_at(s, p0, k) {
        assert(k + p0@.len() <= s@.len());
        Some(code_after(s, k + p0.len()))
    } else if starts_with_at(s, p1, k) {
        assert(k + p1@.len() <= s@.len());
        Some(code_after(s, k + p1.len()))
    } else if starts_with_at(s, p2, k) {
        assert(k + p2@.len() <= s@.len());
        Some(code_after(s, k + p2.len()))
    } else {
        None
    }
}

proof fn lemma_code_len_exact(s: Seq<char>, n: nat)
    requires
        n <= s.len(),
        forall|i: int| 0 <= i < n ==> is_code_char(#[trigger] s[i]),
        n == s.len() || !is_code_char(s[n as int]),
    ensures
        code_len(s) == n,
    decreases n,
{
    if n > 0 {
        let t = s.drop_first();
        assert forall|i: int| 0 <= i < n - 1 implies is_code_char(#[trigger] t[i]) by {
            assert(t[i] == s[i + 1]);
        }
        if n < s.len() {
            assert(t[n - 1] == s[n as int]);
        }
        lemma_code_len_exact(t, (n - 1) as nat);
    }
}

/// Returns the first non-allowlisted Discord invite code in `content`: the
/// code of the unapproved link that starts earliest.
pub fn unapproved_invite(content: &str, allowed_codes: &Vec<String>) -> (r: Option<String>)
    ensures
        match r {
            Some(code) => first_unapproved_invite(content@, string_views(allowed_codes@)) == Some(code@),
            None => first_unapproved_invite(content@, string_views(allowed_codes@)) is None,
        },
{
    let lower = lower_chars(content);
    let p0 = chars_of("discord.gg/");
    let p1 = chars_of("discord.com/invite/");
    let p2 = chars_of("discordapp.com/invite/");
    assert(invite_prefixes()[0] == p0@);
    assert(invite_prefixes()[1] == p1@);
    assert(invite_prefixes()[2] == p2@);
    let ghost views = string_views(allowed_codes@);
    let mut k: usize = 0;
    while k < lower.len()
        invariant
            k <= lower@.len(),
            lower@ == ascii_lowercase(content@),
            views == string_views(allowed_codes@),
            p0@ == invite_prefixes()[0],
            p1@ == invite_prefixes()[1],
            p2@ == invite_prefixes()[2],
            scan_invites(lower@, views, 0) == scan_invites(lower@, views, k as nat),
        decreases lower.len() - k,
    {
        match link_at_exec(&lower, &p0, &p1, &p2, k) {
            Some(code) => {
                if code.len() > 0 && !allowed_code(&code, allowed_codes) {
                    return Some(string_of(&code));
                }
            },
            None => {},
        }
        k = k + 1;
    }
    None
}

/// The roles in `roles`, in order, that the role guard forbids `user_id` to hold.
pub open spec fn forbidden_roles(user_id: u64, roles: Seq<u64>, config: RoleGuardConfig) -> Seq<u64> {
    if !config.enabled || config.authorized_member_ids@.contains(user_id) {
        Seq::empty()
    } else {
        roles.filter(|role: u64| config.protected_role_ids@.contains(role))
    }
}

/// The protected roles that `user_id` holds without being authorized to.
pub fn unauthorized_protected_roles(user_id: u64, roles: &[u64], config: &RoleGuardConfig) -> (r: Vec<u64>)
    ensures
        r@ == forbidden_roles(user_id, roles@, *config),
{
    if !config.enabled || config.authorized_member_ids.contains(&user_id) {
        return Vec::new();
    }
    let ghost pred = |role: u64| config.protected_role_ids@.contains(role);
    let mut r: Vec<u64> = Vec::new();
    for i in 0..roles.len()
        invariant
            pred == (|role: u64| config.protected_role_ids@.contains(role)),
            r@ == roles@.take(i as int).filter(pred),
    {
        if config.protected_role_ids.contains(&roles[i]) {
            r.push(roles[i]);
        }
        proof {
            reveal(Seq::filter);
            assert(roles@.take(i + 1).drop_last() == roles@.take(i as int));
        }
    }
    assert(roles@.take(roles@.len() as int) == roles@);
    r
}

} // verus!
