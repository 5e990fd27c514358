//! Extension policy: command mediation, secret detection and hostcall hashing.

use vstd::prelude::*;
use vstd::utf8::encode_utf8;
use sha2::Digest;
use crate::message::join_seq;
use crate::json::{JsonValue, json_display_text};
use crate::text::{
    chars_of, ends_with_chars, eq_ignore_ascii_case, lowercase_chars, lowercase_seq, push_char,
    push_str, starts_with_chars, string_from_chars, uppercase_chars, uppercase_seq,
};

verus! {

#[derive(Clone, Copy, Debug, PartialEq, Eq, Structural)]
pub enum ExtensionPolicyMode {
    Strict,
    Prompt,
    Permissive,
}

#[derive(Debug)]
pub struct ExtensionOverride {
    pub mode: Option<ExtensionPolicyMode>,
    pub allow: Vec<String>,
    pub deny: Vec<String>,
}

impl Default for ExtensionOverride {
    fn default() -> (r: Self)
        ensures
            r.mode is None,
            r.allow@.len() == 0,
            r.deny@.len() == 0,
    {
        ExtensionOverride { mode: None, allow: Vec::new(), deny: Vec::new() }
    }
}

#[derive(Debug)]
pub struct ExecMediationPolicy {
    pub enabled: bool,
    pub deny_patterns: Vec<String>,
    pub allow_patterns: Vec<String>,
}

impl Default for ExecMediationPolicy {
    fn default() -> (r: Self)
        ensures
            r.enabled,
            r.deny_patterns@.len() == 0,
            r.allow_patterns@.len() == 0,
    {
        ExecMediationPolicy { enabled: true, deny_patterns: Vec::new(), allow_patterns: Vec::new() }
    }
}

#[derive(Clone, Copy, Debug, PartialEq, Eq, Structural)]
pub enum DangerousCommandClass {
    PolicyMatch,
}

impl DangerousCommandClass {
    pub fn label(self) -> (r: &'static str)
        ensures
            r@ == "policy_match"@,
    {
        "policy_match"
    }
}

#[derive(Debug)]
#[allow(inconsistent_fields)]
pub enum ExecMediationResult {
    Allow,
    AllowWithAudit { class: DangerousCommandClass, reason: String },
    Deny { class: Option<DangerousCommandClass>, reason: String },
}

pub open spec fn string_views(v: Seq<String>) -> Seq<Seq<char>> {
    v.map_values(|s: String| s@)
}

/// The command line mediation looks at: the command and its arguments joined
/// by spaces, in ASCII lowercase.
pub open spec fn command_line(cmd: Seq<char>, args: Seq<String>) -> Seq<char> {
    lowercase_seq(join_seq(seq![cmd] + string_views(args), seq![' ']))
}

/// Index of the first pattern whose lowercase form starts `command`.
pub open spec fn first_prefix_match(patterns: Seq<String>, command: Seq<char>) -> Option<int>
    decreases patterns.len(),
{
    if patterns.len() == 0 {
        None
    } else if lowercase_seq(patterns[0]@).is_prefix_of(command) {
        Some(0)
    } else {
        match first_prefix_match(patterns.drop_first(), command) {
            Some(i) => Some(i + 1),
            None => None,
        }
    }
}

/// What mediation decides for a command: allowed when disabled or when an allow
/// pattern matches; otherwise denied by the first matching deny pattern.
pub open spec fn mediation_denies(policy: ExecMediationPolicy, cmd: Seq<char>, args: Seq<String>) -> Option<int> {
    let command = command_line(cmd, args);
    if !policy.enabled || first_prefix_match(policy.allow_patterns@, command) is Some {
        None
    } else {
        first_prefix_match(policy.deny_patterns@, command)
    }
}

proof fn lemma_first_prefix_match(patterns: Seq<String>, command: Seq<char>, k: int)
    requires
        0 <= k <= patterns.len(),
        forall|j: int| 0 <= j < k ==> !lowercase_seq((#[trigger] patterns[j])@).is_prefix_of(command),
    ensures
        k == patterns.len() ==> first_prefix_match(patterns, command) is None,
        k < patterns.len() && lowercase_seq(patterns[k]@).is_prefix_of(command)
            ==> first_prefix_match(patterns, command) == Some(k),
    decreases k,
{
    if k > 0 {
        let t = patterns.drop_first();
        assert forall|j: int| 0 <= j < k - 1 implies !lowercase_seq((#[trigger] t[j])@).is_prefix_of(command) by {
            assert(t[j] == patterns[j + 1]);
        }
        if k < patterns.len() {
            assert(t[k - 1] == patterns[k]);
        }
        lemma_first_prefix_match(t, command, k - 1);
    }
}

fn find_prefix_match(patterns: &Vec<String>, command: &Vec<char>) -> (r: Option<usize>)
    ensures
        r matches Some(i) ==> first_prefix_match(patterns@, command@) == Some(i as int) && i < patterns@.len(),
        r is None ==> first_prefix_match(patterns@, command@) is None,
{
    let mut i: usize = 0;
    while i < patterns.len()
        invariant
            i <= patterns@.len(),
            forall|j: int| 0 <= j < i ==> !lowercase_seq((#[trigger] patterns@[j])@).is_prefix_of(command@),
        decreases patterns@.len() - i,
    {
        let p = lowercase_chars(&chars_of(patterns[i].as_str()));
        if starts_with_chars(command, &p) {
            proof {
                lemma_first_prefix_match(patterns@, command@, i as int);
            }
            return Some(i);
        }
        i += 1;
    }
    proof {
        lemma_first_prefix_match(patterns@, command@, i as int);
    }
    None
}

/// The command and arguments joined by spaces.
fn join_command(cmd: &str, args: &[String]) -> (r: Vec<char>)
    ensures
        r@ == join_seq(seq![cmd@] + string_views(args@), seq![' ']),
{
    let ghost parts = seq![cmd@] + string_views(args@);
    let mut line = String::new();
    push_str(&mut line, cmd);
    assert(parts.take(1) =~= seq![cmd@]);
    let mut i: usize = 0;
    while i < args.len()
        invariant
            i <= args@.len(),
            parts == seq![cmd@] + string_views(args@),
            line@ == join_seq(parts.take(i + 1), seq![' ']),
        decreases args@.len() - i,
    {
        push_char(&mut line, ' ');
        push_str(&mut line, args[i].as_str());
        assert(parts.take(i + 2).drop_last() =~= parts.take(i + 1));
        assert(parts[i + 1] == args@[i as int]@);
        i += 1;
    }
    assert(parts.take(args@.len() + 1int) =~= parts);
    chars_of(line.as_str())
}

/// Decide whether a command may run under the mediation policy.
pub fn evaluate_exec_mediation(policy: &ExecMediationPolicy, cmd: &str, args: &[String]) -> (r:
    ExecMediationResult)
    ensures
        mediation_denies(*policy, cmd@, args@) is None ==> r is Allow,
        mediation_denies(*policy, cmd@, args@) matches Some(i) ==> (r matches
            ExecMediationResult::Deny { class, reason } && class == Some(
            DangerousCommandClass::PolicyMatch,
        ) && reason@ == "Command matches deny pattern: "@ + policy.deny_patterns@[i]@),
{
    if !policy.enabled {
        return ExecMediationResult::Allow;
    }
    let command = lowercase_chars(&join_command(cmd, args));
    if find_prefix_match(&policy.allow_patterns, &command).is_some() {
        return ExecMediationResult::Allow;
    }
    match find_prefix_match(&policy.deny_patterns, &command) {
        Some(i) => {
            let mut reason = "Command matches deny pattern: ".to_owned();
            push_str(&mut reason, policy.deny_patterns[i].as_str());
            ExecMediationResult::Deny { class: Some(DangerousCommandClass::PolicyMatch), reason }
        },
        None => ExecMediationResult::Allow,
    }
}

#[derive(Debug)]
pub struct SecretBrokerPolicy {
    pub enabled: bool,
    pub disclosure_allowlist: Vec<String>,
}

impl Default for SecretBrokerPolicy {
    fn default() -> (r: Self)
        ensures
            r.enabled,
            r.disclosure_allowlist@.len() == 0,
    {
        SecretBrokerPolicy { enabled: true, disclosure_allowlist: Vec::new() }
    }
}

/// Name suffixes that mark an environment variable as a secret.
pub open spec fn secret_suffixes() -> Seq<Seq<char>> {
    seq![
        "_KEY"@,
        "_SECRET"@,
        "_TOKEN"@,
        "_PASSWORD"@,
        "_PASSWD"@,
        "_CREDENTIAL"@,
        "_CREDENTIALS"@,
        "_AUTH"@,
        "DATABASE_URL"@,
        "REDIS_URL"@,
    ]
}

/// A name is secret when the broker is on, the name is not on the disclosure
/// allowlist (ignoring ASCII case), and its uppercase form ends with a secret suffix.
pub open spec fn spec_is_secret(policy: SecretBrokerPolicy, name: Seq<char>) -> bool {
    &&& policy.enabled
    &&& !(exists|i: int| 0 <= i < policy.disclosure_allowlist@.len() && lowercase_seq(
        (#[trigger] policy.disclosure_allowlist@[i])@,
    ) == lowercase_seq(name))
    &&& exists|k: int| 0 <= k < secret_suffixes().len() && (#[trigger] secret_suffixes()[k]).is_suffix_of(
        uppercase_seq(name),
    )
}

fn secret_suffix(k: usize) -> (r: &'static str)
    requires
        k < 10,
    ensures
        r@ == secret_suffixes()[k as int],
{
    if k == 0 {
        "_KEY"
    } else if k == 1 {
        "_SECRET"
    } else if k == 2 {
        "_TOKEN"
    } else if k == 3 {
        "_PASSWORD"
    } else if k == 4 {
        "_PASSWD"
    } else if k == 5 {
        "_CREDENTIAL"
    } else if k == 6 {
        "_CREDENTIALS"
    } else if k == 7 {
        "_AUTH"
    } else if k == 8 {
        "DATABASE_URL"
    } else {
        "REDIS_URL"
    }
}

impl SecretBrokerPolicy {
    pub fn is_secret(&self, name: &str) -> (r: bool)
        ensures
            r == spec_is_secret(*self, name@),
    {
        if !self.enabled {
            return false;
        }
        let name_chars = chars_of(name);
        let mut i: usize = 0;
        while i < self.disclosure_allowlist.len()
            invariant
                i <= self.disclosure_allowlist@.len(),
                name_chars@ == name@,
                forall|j: int| 0 <= j < i ==> lowercase_seq((#[trigger] self.disclosure_allowlist@[j])@)
                    != lowercase_seq(name@),
            decreases self.disclosure_allowlist@.len() - i,
        {
            if eq_ignore_ascii_case(&chars_of(self.disclosure_allowlist[i].as_str()), &name_chars) {
                return false;
            }
            i += 1;
        }
        let upper = uppercase_chars(&name_chars);
        let mut k: usize = 0;
        while k < 10
            invariant
                k <= 10,
                self.enabled,
                upper@ == uppercase_seq(name@),
                forall|j: int| 0 <= j < self.disclosure_allowlist@.len() ==> lowercase_seq(
                    (#[trigger] self.disclosure_allowlist@[j])@,
                ) != lowercase_seq(name@),
                forall|j: int| 0 <= j < k ==> !(#[trigger] secret_suffixes()[j]).is_suffix_of(upper@),
            decreases 10 - k,
        {
            if ends_with_chars(&upper, &chars_of(secret_suffix(k))) {
                return true;
            }
            k += 1;
        }
        false
    }
}

#[derive(Debug)]
pub struct ExtensionPolicy {
    pub mode: ExtensionPolicyMode,
    pub default_caps: Vec<String>,
    pub deny_caps: Vec<String>,
    pub per_extension: Vec<(String, ExtensionOverride)>,
    pub exec_mediation: ExecMediationPolicy,
    pub secret_broker: SecretBrokerPolicy,
}

impl Default for ExtensionPolicy {
    /// Prompt mode; read, write, http, events and session by default; exec and env denied.
    fn default() -> (r: Self)
        ensures
            r.mode == ExtensionPolicyMode::Prompt,
            string_views(r.default_caps@) == seq!["read"@, "write"@, "http"@, "events"@, "session"@],
            string_views(r.deny_caps@) == seq!["exec"@, "env"@],
            r.per_extension@.len() == 0,
            r.exec_mediation.enabled && r.exec_mediation.deny_patterns@.len() == 0
                && r.exec_mediation.allow_patterns@.len() == 0,
            r.secret_broker.enabled && r.secret_broker.disclosure_allowlist@.len() == 0,
    {
        let mut default_caps = Vec::new();
        default_caps.push("read".to_owned());
        default_caps.push("write".to_owned());
        default_caps.push("http".to_owned());
        default_caps.push("events".to_owned());
        default_caps.push("session".to_owned());
        let mut deny_caps = Vec::new();
        deny_caps.push("exec".to_owned());
        deny_caps.push("env".to_owned());
        assert(string_views(default_caps@) =~= seq!["read"@, "write"@, "http"@, "events"@, "session"@]);
        assert(string_views(deny_caps@) =~= seq!["exec"@, "env"@]);
        ExtensionPolicy {
            mode: ExtensionPolicyMode::Prompt,
            default_caps,
            deny_caps,
            per_extension: Vec::new(),
            exec_mediation: ExecMediationPolicy::default(),
            secret_broker: SecretBrokerPolicy::default(),
        }
    }
}

/// The SHA-256 digest of a byte string.
pub uninterp spec fn sha256_digest(data: Seq<u8>) -> Seq<u8>;

/// `sha2::Sha256::digest`: the 32-byte SHA-256 digest of `data`.
#[verifier::external_body]
fn sha256(data: &[u8]) -> (r: Vec<u8>)
    ensures
        r@ == sha256_digest(data@),
        r@.len() == 32,
{
    sha2::Sha256::digest(data).to_vec()
}

pub open spec fn hex_digit(d: u8) -> char {
    if d < 10 {
        ((48 + d) as u32) as char
    } else {
        ((87 + d) as u32) as char
    }
}

/// Lowercase hexadecimal, two digits per byte, as `{:x}` formats a digest.
pub open spec fn hex_lower(bytes: Seq<u8>) -> Seq<char>
    decreases bytes.len(),
{
    if bytes.len() == 0 {
        seq![]
    } else {
        hex_lower(bytes.drop_last()) + seq![hex_digit(bytes.last() / 16), hex_digit(bytes.last() % 16)]
    }
}

fn hex_char(d: u8) -> (r: char)
    requires
        d < 16,
    ensures
        r == hex_digit(d),
{
    if d < 10 {
        crate::text::char_from_ascii(48 + d)
    } else {
        crate::text::char_from_ascii(87 + d)
    }
}

pub fn to_hex_lower(bytes: &[u8]) -> (r: String)
    ensures
        r@ == hex_lower(bytes@),
{
    let mut r = String::new();
    let mut i: usize = 0;
    while i < bytes.len()
        invariant
            i <= bytes@.len(),
            r@ == hex_lower(bytes@.take(i as int)),
        decreases bytes@.len() - i,
    {
        push_char(&mut r, hex_char(bytes[i] / 16));
        push_char(&mut r, hex_char(bytes[i] % 16));
        assert(bytes@.take(i + 1).drop_last() =~= bytes@.take(i as int));
        assert(r@ =~= hex_lower(bytes@.take(i + 1)));
        i += 1;
    }
    assert(bytes@.take(bytes@.len() as int) =~= bytes@);
    r
}

/// The hash identifying a hostcall: lowercase hex SHA-256 of the method name's
/// UTF-8 bytes followed by the compact JSON text of the parameters.
pub fn hostcall_params_hash(method: &str, params: &JsonValue) -> (r: String)
    ensures
        r@ == hex_lower(sha256_digest(encode_utf8(method@) + encode_utf8(json_display_text(*params)))),
{
    let text = params.to_json_text();
    let params_json = text.as_str().as_bytes();
    let m = method.as_bytes();
    let mut data: Vec<u8> = Vec::new();
    let mut i: usize = 0;
    while i < m.len()
        invariant
            i <= m@.len(),
            data@ == m@.take(i as int),
        decreases m@.len() - i,
    {
        data.push(m[i]);
        assert(m@.take(i + 1) =~= m@.take(i as int).push(m@[i as int]));
        i += 1;
    }
    let mut j: usize = 0;
    while j < params_json.len()
        invariant
            j <= params_json@.len(),
            data@ == m@ + params_json@.take(j as int),
        decreases params_json@.len() - j,
    {
        data.push(params_json[j]);
        assert(params_json@.take(j + 1) =~= params_json@.take(j as int).push(params_json@[j as int]));
        j += 1;
    }
    assert(m@.take(m@.len() as int) =~= m@);
    assert(params_json@.take(params_json@.len() as int) =~= params_json@);
    to_hex_lower(sha256(data.as_slice()).as_slice())
}

/// On the targets this library builds for a canonical path carries no UNC
/// prefix, so the path is returned as it is.
pub fn strip_unc_prefix(path: std::path::PathBuf) -> (r: std::path::PathBuf)
    ensures
        r == path,
{
    path
}

/// The text of a path without a Windows verbatim prefix (`\\?\` or `//?/`)
/// at its start.
pub open spec fn verbatim_stripped(p: Seq<char>) -> Seq<char> {
    if p.len() >= 4 && (p.take(4) == seq!['\\', '\\', '?', '\\'] || p.take(4) == seq!['/', '/', '?', '/']) {
        p.skip(4)
    } else {
        p
    }
}

/// A path's text with a verbatim prefix taken off, as Windows builds strip
/// canonical paths.
pub fn strip_verbatim_prefix(path: &str) -> (r: String)
    ensures
        r@ == verbatim_stripped(path@),
{
    let chars = chars_of(path);
    if chars.len() >= 4 && chars[2] == '?' && ((chars[0] == '\\' && chars[1] == '\\' && chars[3] == '\\') || (
    chars[0] == '/' && chars[1] == '/' && chars[3] == '/')) {
        let ghost p = path@;
        assert(p.take(4) == seq![p[0], p[1], p[2], p[3]]);
        let mut r = String::new();
        let mut i: usize = 4;
        while i < chars.len()
            invariant
                4 <= i <= chars@.len(),
                chars@ == p,
                r@ == p.subrange(4, i as int),
            decreases chars@.len() - i,
        {
            push_char(&mut r, chars[i]);
            assert(p.subrange(4, i + 1) =~= p.subrange(4, i as int).push(p[i as int]));
            i += 1;
        }
        assert(p.skip(4) =~= p.subrange(4, p.len() as int));
        r
    } else {
        let ghost p = path@;
        proof {
            if p.len() >= 4 {
                assert(p.take(4)[0] == p[0] && p.take(4)[1] == p[1] && p.take(4)[2] == p[2] && p.take(4)[3] == p[3]);
            }
        }
        string_from_chars(chars.as_slice())
    }
}

/// One component of a path after its root.
#[derive(Debug)]
pub enum PathStep {
    /// `.`
    Current,
    /// `..`
    Parent,
    /// Any other component.
    Name(String),
}

/// The names an absolute path keeps after its root once `.` is dropped and
/// `..` takes back the name before it (and does nothing at the root).
pub open spec fn normalized_names(steps: Seq<PathStep>) -> Seq<Seq<char>>
    decreases steps.len(),
{
    if steps.len() == 0 {
        seq![]
    } else {
        let before = normalized_names(steps.drop_last());
        match steps.last() {
            PathStep::Current => before,
            PathStep::Parent => if before.len() > 0 {
                before.drop_last()
            } else {
                before
            },
            PathStep::Name(n) => before.push(n@),
        }
    }
}

pub open spec fn names_view(v: Seq<String>) -> Seq<Seq<char>> {
    v.map_values(|s: String| s@)
}

/// The names left of `steps`, in order (see [`normalized_names`]).
pub fn normalize_path_steps(steps: &[PathStep]) -> (r: Vec<String>)
    ensures
        names_view(r@) == normalized_names(steps@),
{
    let mut names: Vec<String> = Vec::new();
    let mut i: usize = 0;
    while i < steps.len()
        invariant
            i <= steps@.len(),
            names_view(names@) == normalized_names(steps@.take(i as int)),
        decreases steps@.len() - i,
    {
        proof {
            assert(steps@.take(i + 1).drop_last() =~= steps@.take(i as int));
        }
        match &steps[i] {
            PathStep::Current => {},
            PathStep::Parent => {
                if names.len() > 0 {
                    let _ = names.pop();
                    assert(names_view(names@) =~= normalized_names(steps@.take(i as int)).drop_last());
                }
            },
            PathStep::Name(n) => {
                names.push(n.clone());
                assert(names_view(names@) =~= normalized_names(steps@.take(i as int)).push(n@));
            },
        }
        i += 1;
    }
    assert(steps@.take(steps@.len() as int) =~= steps@);
    names
}

} // verus!
