//! Portal protocol and policy types: what the host portal may be asked, how
//! it answers, and the configuration that decides which requests it allows.

use vstd::prelude::*;
use crate::named_map::NamedMap;
use crate::text::{
    chars_between, chars_of, find_in, find_seq, lemma_find_from_spec, lemma_line_end, line_end, line_text,
    occurs_at, string_from_chars, views,
};

verus! {

/// Default for `enabled`.
pub fn default_true() -> (b: bool)
    ensures
        b,
{
    true
}

/// Default for `global`.
pub fn default_global() -> (b: bool)
    ensures
        !b,
{
    false
}

/// The decimal digit of a number below ten.
pub open spec fn digit_char(d: nat) -> char {
    if d == 0 {
        '0'
    } else if d == 1 {
        '1'
    } else if d == 2 {
        '2'
    } else if d == 3 {
        '3'
    } else if d == 4 {
        '4'
    } else if d == 5 {
        '5'
    } else if d == 6 {
        '6'
    } else if d == 7 {
        '7'
    } else if d == 8 {
        '8'
    } else {
        '9'
    }
}

/// The decimal notation of a natural number, without leading zeros.
pub open spec fn decimal(n: nat) -> Seq<char>
    decreases n,
{
    if n < 10 {
        seq![digit_char(n)]
    } else {
        decimal(n / 10).push(digit_char(n % 10))
    }
}

/// The decimal notation of an integer, with `-` before a negative one.
pub open spec fn signed_decimal(n: int) -> Seq<char> {
    if n < 0 {
        seq!['-'] + decimal((-n) as nat)
    } else {
        decimal(n as nat)
    }
}

fn digit_of(d: u128) -> (c: char)
    requires
        d < 10,
    ensures
        c == digit_char(d as nat),
{
    if d == 0 {
        '0'
    } else if d == 1 {
        '1'
    } else if d == 2 {
        '2'
    } else if d == 3 {
        '3'
    } else if d == 4 {
        '4'
    } else if d == 5 {
        '5'
    } else if d == 6 {
        '6'
    } else if d == 7 {
        '7'
    } else if d == 8 {
        '8'
    } else {
        '9'
    }
}

/// The decimal digits of `n`.
pub fn decimal_chars(n: u128) -> (r: Vec<char>)
    ensures
        r@ == decimal(n as nat),
    decreases n,
{
    if n < 10 {
        let mut v: Vec<char> = Vec::new();
        v.push(digit_of(n));
        assert(v@ =~= seq![digit_char(n as nat)]);
        v
    } else {
        let mut v = decimal_chars(n / 10);
        v.push(digit_of(n % 10));
        v
    }
}

/// The decimal notation of a signed number.
pub fn signed_decimal_chars(n: i64) -> (r: Vec<char>)
    ensures
        r@ == signed_decimal(n as int),
{
    if n < 0 {
        let m: u64 = if n == i64::MIN {
            9223372036854775808u64
        } else {
            (-n) as u64
        };
        let mut v: Vec<char> = Vec::new();
        v.push('-');
        let d = decimal_chars(m as u128);
        crate::text::push_all(&mut v, d.as_slice());
        assert(v@ =~= seq!['-'] + decimal((-(n as int)) as nat));
        v
    } else {
        decimal_chars(n as u128)
    }
}

/// The real user id of this process (`nix::unistd::getuid`). The value
/// depends on the process, so nothing is promised of it.
#[verifier::external_body]
fn current_uid() -> (uid: u32) {
    nix::unistd::getuid().as_raw()
}

/// The socket path under the runtime directory of user `uid`.
pub open spec fn socket_path_for(uid: nat) -> Seq<char> {
    "/run/user/"@ + decimal(uid) + "/agent-portal/portal.sock"@
}

/// Socket path for a user id: `/run/user/<uid>/agent-portal/portal.sock`.
pub fn socket_path_for_uid(uid: u32) -> (r: String)
    ensures
        r@ == socket_path_for(uid as nat),
{
    let mut r = String::from_str("/run/user/");
    let d = decimal_chars(uid as u128);
    r.append(string_from_chars(d.as_slice()).as_str());
    r.append("/agent-portal/portal.sock");
    r
}

/// Default socket path: `/run/user/<uid>/agent-portal/portal.sock` for the
/// user running this process.
pub fn default_socket_path() -> (r: String)
    ensures
        exists|uid: u32| r@ == socket_path_for(uid as nat),
{
    let uid = current_uid();
    socket_path_for_uid(uid)
}

/// Default for `clipboard.allowed_mime`.
pub fn default_allowed_mime() -> (r: Vec<String>)
    ensures
        views(r@) == seq!["image/png"@, "image/jpeg"@, "image/webp"@],
{
    let mut r: Vec<String> = Vec::new();
    r.push(String::from_str("image/png"));
    r.push(String::from_str("image/jpeg"));
    r.push(String::from_str("image/webp"));
    assert(views(r@) =~= seq!["image/png"@, "image/jpeg"@, "image/webp"@]);
    r
}

/// Default for `limits.max_clipboard_bytes` (20 MiB).
pub fn default_max_clipboard_bytes() -> (n: usize)
    ensures
        n == 20971520,
{
    20 * 1024 * 1024
}

/// Default for `limits.max_inflight`.
pub fn default_max_inflight() -> (n: usize)
    ensures
        n == 32,
{
    32
}

/// Default for `limits.prompt_queue`.
pub fn default_prompt_queue() -> (n: usize)
    ensures
        n == 64,
{
    64
}

/// Default for `limits.rate_per_minute`.
pub fn default_rate_per_minute() -> (n: u32)
    ensures
        n == 60,
{
    60
}

/// Default for `limits.rate_burst`.
pub fn default_rate_burst() -> (n: u32)
    ensures
        n == 10,
{
    10
}

/// A policy decision for a portal method.
#[derive(Debug, Clone, Copy, PartialEq, Eq, Structural)]
pub enum PolicyDecision {
    Allow,
    Ask,
    Deny,
}

/// Default for `policy.*.clipboard_read_image`.
pub fn default_clipboard_policy() -> (d: PolicyDecision)
    ensures
        d == PolicyDecision::Allow,
{
    PolicyDecision::Allow
}

/// When `gh.exec` requests need a prompt.
#[derive(Debug, Clone, Copy, PartialEq, Eq, Structural)]
pub enum GhExecPolicyMode {
    AskForNone,
    AskForWrites,
    AskForAll,
    DenyAll,
}

/// Default for `policy.*.gh_exec`.
pub fn default_gh_exec_policy() -> (m: GhExecPolicyMode)
    ensures
        m == GhExecPolicyMode::AskForWrites,
{
    GhExecPolicyMode::AskForWrites
}

/// The policy for each portal method.
#[derive(Debug, Clone, Copy, PartialEq, Eq, Structural)]
pub struct MethodPolicy {
    pub clipboard_read_image: PolicyDecision,
    pub gh_exec: GhExecPolicyMode,
}

impl Default for MethodPolicy {
    fn default() -> (p: MethodPolicy)
        ensures
            p.clipboard_read_image == PolicyDecision::Allow,
            p.gh_exec == GhExecPolicyMode::AskForWrites,
    {
        MethodPolicy {
            clipboard_read_image: default_clipboard_policy(),
            gh_exec: default_gh_exec_policy(),
        }
    }
}

/// Default method policies and per-container overrides.
#[derive(Debug, Clone)]
pub struct PolicyConfig {
    pub defaults: MethodPolicy,
    pub containers: NamedMap<MethodPolicy>,
}

impl Default for PolicyConfig {
    fn default() -> (p: PolicyConfig)
        ensures
            p.defaults == (MethodPolicy {
                clipboard_read_image: PolicyDecision::Allow,
                gh_exec: GhExecPolicyMode::AskForWrites,
            }),
            p.containers.spec_len() == 0,
    {
        PolicyConfig { defaults: MethodPolicy::default(), containers: NamedMap::new() }
    }
}

/// Request and prompt timeouts in milliseconds (0 means none).
#[derive(Debug, Clone, Copy, PartialEq, Eq, Structural)]
pub struct PortalTimeouts {
    pub request_ms: u64,
    pub prompt_ms: u64,
}

impl Default for PortalTimeouts {
    fn default() -> (t: PortalTimeouts)
        ensures
            t.request_ms == 0 && t.prompt_ms == 0,
    {
        PortalTimeouts { request_ms: 0, prompt_ms: 0 }
    }
}

/// Concurrency, rate and size limits of the portal.
#[derive(Debug, Clone, Copy, PartialEq, Eq, Structural)]
pub struct PortalLimits {
    pub max_inflight: usize,
    pub prompt_queue: usize,
    pub rate_per_minute: u32,
    pub rate_burst: u32,
    pub max_clipboard_bytes: usize,
}

impl Default for PortalLimits {
    fn default() -> (l: PortalLimits)
        ensures
            l == (PortalLimits {
                max_inflight: 32,
                prompt_queue: 64,
                rate_per_minute: 60,
                rate_burst: 10,
                max_clipboard_bytes: 20971520,
            }),
    {
        PortalLimits {
            max_inflight: default_max_inflight(),
            prompt_queue: default_prompt_queue(),
            rate_per_minute: default_rate_per_minute(),
            rate_burst: default_rate_burst(),
            max_clipboard_bytes: default_max_clipboard_bytes(),
        }
    }
}

/// Clipboard settings: the MIME types that may be read, in preference order.
#[derive(Debug, Clone)]
pub struct ClipboardConfig {
    pub allowed_mime: Vec<String>,
}

impl Default for ClipboardConfig {
    fn default() -> (c: ClipboardConfig)
        ensures
            views(c.allowed_mime@) == seq!["image/png"@, "image/jpeg"@, "image/webp"@],
    {
        ClipboardConfig { allowed_mime: default_allowed_mime() }
    }
}

/// Host portal service configuration.
#[derive(Debug, Clone)]
pub struct PortalConfig {
    pub enabled: bool,
    pub global: bool,
    pub socket_path: String,
    pub prompt_command: Option<String>,
    pub timeouts: PortalTimeouts,
    pub limits: PortalLimits,
    pub clipboard: ClipboardConfig,
    pub policy: PolicyConfig,
}

impl Default for PortalConfig {
    fn default() -> (c: PortalConfig)
        ensures
            c.enabled,
            !c.global,
            exists|uid: u32| c.socket_path@ == socket_path_for(uid as nat),
            c.prompt_command is None,
            c.timeouts == (PortalTimeouts { request_ms: 0, prompt_ms: 0 }),
            c.limits == (PortalLimits {
                max_inflight: 32,
                prompt_queue: 64,
                rate_per_minute: 60,
                rate_burst: 10,
                max_clipboard_bytes: 20971520,
            }),
            views(c.clipboard.allowed_mime@) == seq!["image/png"@, "image/jpeg"@, "image/webp"@],
            c.policy.defaults == (MethodPolicy {
                clipboard_read_image: PolicyDecision::Allow,
                gh_exec: GhExecPolicyMode::AskForWrites,
            }),
            c.policy.containers.spec_len() == 0,
    {
        PortalConfig {
            enabled: true,
            global: default_global(),
            socket_path: default_socket_path(),
            prompt_command: None,
            timeouts: PortalTimeouts::default(),
            limits: PortalLimits::default(),
            clipboard: ClipboardConfig::default(),
            policy: PolicyConfig::default(),
        }
    }
}

/// The policy that applies to a caller: its container's override when
/// there is one, else the defaults.
pub open spec fn policy_for(cfg: PortalConfig, container_id: Option<Seq<char>>) -> MethodPolicy {
    match container_id {
        Some(id) => match cfg.policy.containers.spec_get(id) {
            Some(p) => p,
            None => cfg.policy.defaults,
        },
        None => cfg.policy.defaults,
    }
}

impl PortalConfig {
    /// The socket path as a path name.
    pub fn socket_path_buf(&self) -> (r: String)
        ensures
            r@ == self.socket_path@,
    {
        self.socket_path.clone()
    }

    /// The policy for a caller: the per-container override when the caller's
    /// container has one, otherwise the defaults.
    pub fn policy_for_container(&self, container_id: Option<&str>) -> (p: MethodPolicy)
        ensures
            p == policy_for(*self, match container_id {
                Some(id) => Some(id@),
                None => None,
            }),
    {
        if let Some(id) = container_id {
            if let Some(policy) = self.policy.containers.get(id) {
                return *policy;
            }
        }
        self.policy.defaults
    }
}


/// A request sent to the portal.
#[derive(Debug, Clone)]
pub struct PortalRequest {
    pub version: u16,
    pub id: u64,
    pub method: RequestMethod,
}

/// What a request asks for, with its parameters.
#[derive(Debug, Clone)]
pub enum RequestMethod {
    Ping,
    WhoAmI,
    ClipboardReadImage { reason: Option<String> },
    GhExec { argv: Vec<String>, reason: Option<String>, require_approval: bool },
    Exec {
        argv: Vec<String>,
        reason: Option<String>,
        cwd: Option<String>,
        env: Option<NamedMap<String>>,
    },
}

/// An error answer: a short code and a message.
#[derive(Debug, Clone)]
pub struct PortalError {
    pub code: String,
    pub message: String,
}

/// The portal's answer to a request.
#[derive(Debug, Clone)]
pub struct PortalResponse {
    pub version: u16,
    pub id: u64,
    pub ok: bool,
    pub result: Option<ResponseResult>,
    pub error: Option<PortalError>,
}

/// Outcome of a command run on the host.
#[derive(Debug, Clone)]
pub struct ExecResult {
    pub exit_code: i32,
    pub stdout: Vec<u8>,
    pub stderr: Vec<u8>,
}

/// The result carried by a successful response.
#[derive(Debug, Clone)]
pub enum ResponseResult {
    Pong { now_unix_ms: u128 },
    WhoAmI { pid: i32, uid: u32, gid: u32, container_id: Option<String> },
    ClipboardImage { mime: String, bytes: Vec<u8> },
    GhExec { exit_code: i32, stdout: Vec<u8>, stderr: Vec<u8> },
    Exec { result: ExecResult },
}

impl PortalResponse {
    /// A successful response (protocol version 1) to request `id`.
    pub fn ok(id: u64, result: ResponseResult) -> (r: Self)
        ensures
            r.version == 1,
            r.id == id,
            r.ok,
            r.result == Some(result),
            r.error is None,
    {
        PortalResponse { version: 1, id, ok: true, result: Some(result), error: None }
    }

    /// A failed response (protocol version 1) to request `id`, with an
    /// error code and message.
    pub fn err(id: u64, code: &str, message: &str) -> (r: Self)
        ensures
            r.version == 1,
            r.id == id,
            !r.ok,
            r.result is None,
            r.error matches Some(e) && e.code@ == code@ && e.message@ == message@,
    {
        PortalResponse {
            version: 1,
            id,
            ok: false,
            result: None,
            error: Some(PortalError { code: String::from_str(code), message: String::from_str(message) }),
        }
    }
}

/// An ASCII hexadecimal digit.
pub open spec fn is_hex_digit(c: char) -> bool {
    ('0' <= c && c <= '9') || ('a' <= c && c <= 'f') || ('A' <= c && c <= 'F')
}

/// The end of the run of hex digits that starts at `i`.
pub open spec fn hex_end(s: Seq<char>, i: int) -> int
    decreases s.len() - i,
{
    if 0 <= i < s.len() && is_hex_digit(s[i]) {
        hex_end(s, i + 1)
    } else {
        i
    }
}

/// The hex digits that directly follow the first occurrence of `marker` in
/// `line`, when there is such an occurrence and at least one such digit.
pub open spec fn marked_id(line: Seq<char>, marker: Seq<char>) -> Option<Seq<char>> {
    match find_seq(line, marker) {
        Some(p) => {
            let st = p + marker.len();
            let id = line.subrange(st, hex_end(line, st));
            if id.len() > 0 {
                Some(id)
            } else {
                None
            }
        },
        None => None,
    }
}

/// The container id named by one cgroup line: after `libpod-`, else after
/// `/libpod/`.
pub open spec fn line_container_id(line: Seq<char>) -> Option<Seq<char>> {
    match marked_id(line, "libpod-"@) {
        Some(id) => Some(id),
        None => marked_id(line, "/libpod/"@),
    }
}

/// The first container id named by a line of `s`, reading lines from the
/// one that starts at `i`.
pub open spec fn container_id_from(s: Seq<char>, i: int) -> Option<Seq<char>>
    decreases s.len() - i,
{
    if i < 0 || i >= s.len() {
        None
    } else {
        proof {
            lemma_line_end(s, i);
        }
        let j = line_end(s, i);
        match line_container_id(line_text(s, i, j)) {
            Some(id) => Some(id),
            None => if j < s.len() {
                container_id_from(s, j + 1)
            } else {
                None
            },
        }
    }
}

fn is_hex(c: char) -> (b: bool)
    ensures
        b == is_hex_digit(c),
{
    ('0' <= c && c <= '9') || ('a' <= c && c <= 'f') || ('A' <= c && c <= 'F')
}

fn id_after_marker(line: &[char], marker: &[char]) -> (r: Option<Vec<char>>)
    ensures
        match r {
            Some(id) => marked_id(line@, marker@) == Some(id@),
            None => marked_id(line@, marker@) is None,
        },
{
    match find_in(line, marker) {
        Some(p) => {
            proof {
                lemma_find_from_spec(line@, marker@, 0);
                assert(occurs_at(line@, marker@, p as int));
                assert(line@.len() == line.len());
            }
            let st = p + marker.len();
            let mut k = st;
            while k < line.len() && is_hex(line[k])
                invariant
                    st <= k <= line@.len(),
                    hex_end(line@, st as int) == hex_end(line@, k as int),
                decreases line.len() - k,
            {
                k = k + 1;
            }
            if k > st {
                Some(chars_between(line, st, k))
            } else {
                None
            }
        },
        None => None,
    }
}

/// The id of the podman container that a `/proc/<pid>/cgroup` text places
/// the process in: the hex digits after `libpod-` (else after `/libpod/`)
/// on the first line that has any.
pub fn extract_podman_container_id_from_cgroup(cgroup_contents: &str) -> (r: Option<String>)
    ensures
        match r {
            Some(id) => container_id_from(cgroup_contents@, 0) == Some(id@),
            None => container_id_from(cgroup_contents@, 0) is None,
        },
{
    let s = chars_of(cgroup_contents);
    let scope = chars_of("libpod-");
    let path = chars_of("/libpod/");
    let mut i: usize = 0;
    while i < s.len()
        invariant
            s@ == cgroup_contents@,
            scope@ == "libpod-"@,
            path@ == "/libpod/"@,
            i <= s@.len(),
            container_id_from(s@, 0) == container_id_from(s@, i as int),
        decreases s.len() - i,
    {
        let mut j = i;
        while j < s.len() && s[j] != '\n'
            invariant
                i <= j <= s@.len(),
                line_end(s@, i as int) == line_end(s@, j as int),
            decreases s.len() - j,
        {
            j = j + 1;
        }
        let end = if j < s.len() && j > i && s[j - 1] == '\r' {
            j - 1
        } else {
            j
        };
        let line = chars_between(s.as_slice(), i, end);
        assert(line@ == line_text(s@, i as int, j as int));
        let found = match id_after_marker(line.as_slice(), scope.as_slice()) {
            Some(id) => Some(id),
            None => id_after_marker(line.as_slice(), path.as_slice()),
        };
        if let Some(id) = found {
            return Some(string_from_chars(id.as_slice()));
        }
        if j >= s.len() {
            return None;
        }
        i = j + 1;
    }
    None
}

} // verus!
