//! Decisions of the host portal service: how a `gh` command line is
//! classified as reading or writing, how requests are rate-limited, which
//! requests need the user's approval, and how each request is answered.

use vstd::prelude::*;
use crate::named_map::{lemma_insert_get, NamedMap};
use crate::pathname::{join_path, join_path_str};
use crate::portal::{
    decimal, decimal_chars, policy_for, signed_decimal, signed_decimal_chars, ExecResult,
    GhExecPolicyMode, PolicyDecision, PortalConfig, PortalRequest, PortalResponse, RequestMethod,
    ResponseResult,
};
use crate::text::{
    contains_str, join_with, lines_from, lines_of, split_on, split_str, starts_with,
    string_from_chars, trim, trim_str, views,
};

verus! {

/// Whether a `gh` command reads, writes, or both.
#[derive(Debug, Clone, Copy, PartialEq, Eq, Structural)]
pub enum GhCommandOperation {
    Read,
    Write,
    ReadWrite,
    Unknown,
}

/// The operation named in the command report: `Read`, `Write`,
/// `Read/Write`; anything else is unknown.
pub open spec fn operation_named(op: Seq<char>) -> GhCommandOperation {
    if op == "Read"@ {
        GhCommandOperation::Read
    } else if op == "Write"@ {
        GhCommandOperation::Write
    } else if op == "Read/Write"@ {
        GhCommandOperation::ReadWrite
    } else {
        GhCommandOperation::Unknown
    }
}

/// The operation named by a report entry (see `operation_named`).
pub fn parse_operation(op: &str) -> (r: GhCommandOperation)
    ensures
        r == operation_named(op@),
{
    let read = String::from_str("Read");
    let write = String::from_str("Write");
    let both = String::from_str("Read/Write");
    if crate::text::str_eq(op, read.as_str()) {
        GhCommandOperation::Read
    } else if crate::text::str_eq(op, write.as_str()) {
        GhCommandOperation::Write
    } else if crate::text::str_eq(op, both.as_str()) {
        GhCommandOperation::ReadWrite
    } else {
        GhCommandOperation::Unknown
    }
}

/// The known `gh` commands: the operation of each full command (such as
/// `pr create`), every leading part of a command (`pr`, `pr create`), and
/// the first word of every command.
#[derive(Debug, Clone)]
pub struct GhPolicyData {
    pub op_map: NamedMap<GhCommandOperation>,
    pub prefixes: Vec<String>,
    pub roots: Vec<String>,
}

/// The operation that the last report row for `cmd` names, if any row does.
pub open spec fn last_operation(rows: Seq<(Seq<char>, Seq<char>)>, cmd: Seq<char>) -> Option<
    GhCommandOperation,
>
    decreases rows.len(),
{
    if rows.len() == 0 {
        None
    } else if rows.last().0 == cmd {
        Some(operation_named(rows.last().1))
    } else {
        last_operation(rows.drop_last(), cmd)
    }
}

/// The leading parts of command `cmd`: its first word, its first two words,
/// and so on up to the whole command, each joined with single spaces.
pub open spec fn leading_parts(cmd: Seq<char>) -> Seq<Seq<char>> {
    let words = split_on(cmd, ' ');
    Seq::new(words.len(), |j: int| join_with(words.take(j + 1), " "@))
}

/// The first word of each command, in row order.
pub open spec fn first_words(rows: Seq<(Seq<char>, Seq<char>)>) -> Seq<Seq<char>>
    decreases rows.len(),
{
    if rows.len() == 0 {
        Seq::empty()
    } else {
        first_words(rows.drop_last()).push(split_on(rows.last().0, ' ')[0])
    }
}

/// The leading parts of each command, in row order.
pub open spec fn all_leading_parts(rows: Seq<(Seq<char>, Seq<char>)>) -> Seq<Seq<char>>
    decreases rows.len(),
{
    if rows.len() == 0 {
        Seq::empty()
    } else {
        all_leading_parts(rows.drop_last()) + leading_parts(rows.last().0)
    }
}

/// The plain values of report rows: (command, operation).
pub open spec fn row_views(rows: Seq<(String, String)>) -> Seq<(Seq<char>, Seq<char>)> {
    rows.map_values(|r: (String, String)| (r.0@, r.1@))
}

/// What the policy data built from report rows holds: the first word of
/// every command, every leading part of every command, and for each
/// command the operation its last row names.
pub open spec fn built_from(p: GhPolicyData, rows: Seq<(Seq<char>, Seq<char>)>) -> bool {
    &&& views(p.roots@) == first_words(rows)
    &&& views(p.prefixes@) == all_leading_parts(rows)
    &&& forall|c: Seq<char>| #[trigger] p.op_map.spec_get(c) == last_operation(rows, c)
}

impl GhPolicyData {
    /// Build the policy data from the rows of a command report, each a
    /// command (words separated by single spaces) and its operation.
    pub fn from_rows(rows: &Vec<(String, String)>) -> (r: GhPolicyData)
        ensures
            built_from(r, row_views(rows@)),
    {
        let ghost rv = row_views(rows@);
        let mut op_map: NamedMap<GhCommandOperation> = NamedMap::new();
        let mut prefixes: Vec<String> = Vec::new();
        let mut roots: Vec<String> = Vec::new();
        let mut k: usize = 0;
        proof {
            assert(rv.take(0) =~= Seq::<(Seq<char>, Seq<char>)>::empty());
            assert(views(roots@) =~= Seq::<Seq<char>>::empty());
            assert(views(prefixes@) =~= Seq::<Seq<char>>::empty());
            assert(op_map.key_list() =~= Seq::<Seq<char>>::empty());
            assert forall|c: Seq<char>| #[trigger] op_map.spec_get(c) == last_operation(rv.take(0), c) by {
                crate::text::lemma_first_index(op_map.key_list(), c);
            }
        }
        while k < rows.len()
            invariant
                k <= rows@.len(),
                rv == row_views(rows@),
                built_from(GhPolicyData { op_map, prefixes, roots }, rv.take(k as int)),
            decreases rows.len() - k,
        {
            let ghost t = rv.take(k as int);
            let ghost t1 = rv.take(k + 1);
            let ghost cmd = rows@[k as int].0@;
            let ghost roots0 = views(roots@);
            let ghost prefixes0 = views(prefixes@);
            proof {
                assert(t1.drop_last() =~= t);
                assert(t1.last() == rv[k as int]);
            }
            let command = &rows[k].0;
            let parts = split_str(command.as_str(), ' ');
            proof {
                crate::text::lemma_split_on_nonempty(cmd, ' ');
            }
            roots.push(parts[0].clone());
            proof {
                assert(views(roots@) =~= roots0.push(split_on(cmd, ' ')[0]));
            }
            let mut joined = String::new();
            let mut i: usize = 0;
            while i < parts.len()
                invariant
                    i <= parts@.len(),
                    views(parts@) == split_on(cmd, ' '),
                    joined@ == join_with(views(parts@).take(i as int), " "@),
                    views(prefixes@) == prefixes0 + leading_parts(cmd).take(i as int),
                decreases parts.len() - i,
            {
                let ghost before = views(prefixes@);
                if i > 0 {
                    joined.append(" ");
                }
                joined.append(parts[i].as_str());
                proof {
                    assert(views(parts@).take(i + 1).drop_last() =~= views(parts@).take(i as int));
                    if i == 0 {
                        assert(joined@ =~= views(parts@)[0]);
                    }
                }
                prefixes.push(joined.clone());
                proof {
                    assert(leading_parts(cmd)[i as int] == joined@);
                    assert(views(prefixes@) =~= before.push(joined@));
                    assert(leading_parts(cmd).take(i + 1) =~= leading_parts(cmd).take(i as int).push(joined@));
                }
                i = i + 1;
            }
            proof {
                assert(leading_parts(cmd).take(i as int) =~= leading_parts(cmd));
            }
            let operation = parse_operation(rows[k].1.as_str());
            let ghost map_before = op_map;
            op_map.insert(rows[k].0.clone(), operation);
            proof {
                assert forall|c: Seq<char>| #[trigger] op_map.spec_get(c) == last_operation(t1, c) by {
                    lemma_insert_get(map_before, op_map, cmd, operation, c);
                    assert(map_before.spec_get(c) == last_operation(t, c));
                }
            }
            k = k + 1;
        }
        proof {
            assert(rv.take(k as int) =~= rv);
        }
        GhPolicyData { op_map, prefixes, roots }
    }
}

/// The index of the first argument, from `i` on, that is a known root
/// command.
pub open spec fn first_root_from(roots: Seq<Seq<char>>, argv: Seq<Seq<char>>, i: int) -> Option<int>
    decreases argv.len() - i,
{
    if i < 0 || i >= argv.len() {
        None
    } else if roots.contains(argv[i]) {
        Some(i)
    } else {
        first_root_from(roots, argv, i + 1)
    }
}

/// An argument that is a flag: it starts with `-`.
pub open spec fn is_flag(arg: Seq<char>) -> bool {
    arg.len() > 0 && arg[0] == '-'
}

/// The command words read from `argv` at `i` on, after the words `parts`:
/// flags are passed over, and each other argument extends the command as
/// long as the extended command is a known leading part; the first that
/// does not ends it.
pub open spec fn command_words(
    prefixes: Seq<Seq<char>>,
    argv: Seq<Seq<char>>,
    i: int,
    parts: Seq<Seq<char>>,
) -> Seq<Seq<char>>
    decreases argv.len() - i,
{
    if i < 0 || i >= argv.len() {
        parts
    } else if is_flag(argv[i]) {
        command_words(prefixes, argv, i + 1, parts)
    } else if prefixes.contains(join_with(parts.push(argv[i]), " "@)) {
        command_words(prefixes, argv, i + 1, parts.push(argv[i]))
    } else {
        parts
    }
}

/// The operation of the `gh` command line `argv`: the command starts at the
/// first known root word; its operation is that of the longest known
/// command read from there, or unknown.
pub open spec fn gh_operation_of(policy: GhPolicyData, argv: Seq<Seq<char>>) -> GhCommandOperation {
    match first_root_from(views(policy.roots@), argv, 0) {
        None => GhCommandOperation::Unknown,
        Some(start) => {
            let words = command_words(views(policy.prefixes@), argv, start, Seq::empty());
            if words.len() == 0 {
                GhCommandOperation::Unknown
            } else {
                match policy.op_map.spec_get(join_with(words, " "@)) {
                    Some(op) => op,
                    None => GhCommandOperation::Unknown,
                }
            }
        },
    }
}

/// Classify a `gh` command line as reading, writing or both (see
/// `gh_operation_of`).
pub fn classify_gh_operation(policy: &GhPolicyData, argv: &Vec<String>) -> (r: GhCommandOperation)
    ensures
        r == gh_operation_of(*policy, views(argv@)),
{
    let ghost av = views(argv@);
    let mut start: usize = 0;
    while start < argv.len() && !contains_str(&policy.roots, argv[start].as_str())
        invariant
            start <= argv@.len(),
            av == views(argv@),
            first_root_from(views(policy.roots@), av, 0) == first_root_from(views(policy.roots@), av, start as int),
        decreases argv.len() - start,
    {
        start = start + 1;
    }
    if start >= argv.len() {
        return GhCommandOperation::Unknown;
    }
    let mut parts: Vec<String> = Vec::new();
    let mut joined = String::new();
    let mut i: usize = start;
    let ghost words = command_words(views(policy.prefixes@), av, start as int, Seq::empty());
    proof {
        assert(views(parts@) =~= Seq::<Seq<char>>::empty());
    }
    while i < argv.len()
        invariant
            start <= i <= argv@.len(),
            av == views(argv@),
            joined@ == join_with(views(parts@), " "@),
            words == command_words(views(policy.prefixes@), av, i as int, views(parts@)),
        ensures
            joined@ == join_with(views(parts@), " "@),
            words == views(parts@),
        decreases argv.len() - i,
    {
        let tok = &argv[i];
        let is_flag_tok = tok.as_str().unicode_len() > 0 && tok.as_str().get_char(0) == '-';
        if is_flag_tok {
            i = i + 1;
        } else {
            let mut candidate = joined.clone();
            if parts.len() > 0 {
                candidate.append(" ");
            }
            candidate.append(tok.as_str());
            let ghost ext = views(parts@).push(tok@);
            proof {
                assert(ext.drop_last() =~= views(parts@));
                if parts@.len() == 0 {
                    assert(candidate@ =~= ext[0]);
                }
                assert(candidate@ == join_with(ext, " "@));
            }
            if contains_str(&policy.prefixes, candidate.as_str()) {
                parts.push(tok.clone());
                joined = candidate;
                proof {
                    assert(views(parts@) =~= ext);
                }
                i = i + 1;
            } else {
                break;
            }
        }
    }
    if parts.len() == 0 {
        return GhCommandOperation::Unknown;
    }
    match policy.op_map.get(joined.as_str()) {
        Some(op) => *op,
        None => GhCommandOperation::Unknown,
    }
}

/// The monotonic clock's instant (`std::time::Instant`), carried through
/// as an opaque value.
#[verifier::external_type_specification]
#[verifier::external_body]
pub struct ExInstant(std::time::Instant);

/// `std::time::Instant::now`: the current instant. Nothing is promised of it.
#[verifier::external_body]
fn instant_now() -> (t: std::time::Instant) {
    std::time::Instant::now()
}

/// `Instant::elapsed`, in nanoseconds: the time since `origin`. It depends on
/// the clock, so nothing is promised of it.
#[verifier::external_body]
fn nanos_since(origin: &std::time::Instant) -> (n: u128) {
    origin.elapsed().as_nanos()
}

/// The window over which requests are counted: one minute, in nanoseconds.
pub const RATE_WINDOW_NANOS: u128 = 60_000_000_000u128;

/// A request recorded at `ts` has left the window at `now`.
pub open spec fn expired(ts: u128, now: u128) -> bool {
    now > ts && now - ts > RATE_WINDOW_NANOS
}

/// The first position from `i` on whose record has not left the window.
pub open spec fn first_live(q: Seq<u128>, now: u128, i: int) -> int
    decreases q.len() - i,
{
    if 0 <= i < q.len() && expired(q[i], now) {
        first_live(q, now, i + 1)
    } else {
        i
    }
}

/// The records of `q` that are kept at `now`: those from the first one
/// that has not left the window (records are dropped from the front only).
pub open spec fn pruned(q: Seq<u128>, now: u128) -> Seq<u128> {
    q.skip(first_live(q, now, 0))
}

/// The number of requests a key may make within the window: the larger of
/// the per-minute rate and the burst.
pub open spec fn rate_limit(per_minute: u32, burst: u32) -> int {
    if per_minute >= burst {
        per_minute as int
    } else {
        burst as int
    }
}

/// Limits how often each caller may make a request.
#[derive(Debug)]
pub struct RateLimiter {
    /// For each key, when its recent requests were let through, in
    /// nanoseconds since `origin`, oldest first.
    pub seen: NamedMap<Vec<u128>>,
    pub per_minute: u32,
    pub burst: u32,
    pub origin: std::time::Instant,
}

/// The records kept for `key`, or none.
pub open spec fn records_of(seen: NamedMap<Vec<u128>>, key: Seq<char>) -> Seq<u128> {
    match seen.spec_get(key) {
        Some(v) => v@,
        None => Seq::empty(),
    }
}

/// One call of `allow_at`: the request of `key` at `now` is let through
/// exactly when fewer than the limit of its records are still in the
/// window; the key's records become those in the window, with `now` added
/// when the request was let through; other keys keep theirs.
pub open spec fn allow_step(
    before: RateLimiter,
    after: RateLimiter,
    key: Seq<char>,
    now: u128,
    allowed: bool,
) -> bool {
    let p = pruned(records_of(before.seen, key), now);
    &&& allowed == (p.len() < rate_limit(before.per_minute, before.burst))
    &&& after.seen.spec_get(key) is Some
    &&& records_of(after.seen, key) == if allowed {
        p.push(now)
    } else {
        p
    }
    &&& forall|k: Seq<char>| k != key ==> #[trigger] after.seen.spec_get(k) == before.seen.spec_get(k)
    &&& after.per_minute == before.per_minute
    &&& after.burst == before.burst
}

fn copy_records(v: &Vec<u128>, from: usize) -> (r: Vec<u128>)
    requires
        from <= v@.len(),
    ensures
        r@ == v@.skip(from as int),
{
    let mut r: Vec<u128> = Vec::new();
    let mut i: usize = from;
    while i < v.len()
        invariant
            from <= i <= v@.len(),
            r@ == v@.subrange(from as int, i as int),
        decreases v.len() - i,
    {
        r.push(v[i]);
        proof {
            assert(r@ =~= v@.subrange(from as int, i + 1));
        }
        i = i + 1;
    }
    proof {
        assert(v@.subrange(from as int, i as int) =~= v@.skip(from as int));
    }
    r
}

impl RateLimiter {
    /// A limiter with no requests recorded.
    pub fn new(per_minute: u32, burst: u32) -> (r: RateLimiter)
        ensures
            r.seen.spec_len() == 0,
            r.per_minute == per_minute,
            r.burst == burst,
    {
        RateLimiter { seen: NamedMap::new(), per_minute, burst, origin: instant_now() }
    }

    /// Decide whether the request of `key` at time `now` (nanoseconds since
    /// `origin`) is let through, and record it if so (see `allow_step`).
    pub fn allow_at(&mut self, key: &str, now: u128) -> (allowed: bool)
        ensures
            allow_step(*old(self), *final(self), key@, now, allowed),
    {
        let limit: u32 = if self.per_minute >= self.burst {
            self.per_minute
        } else {
            self.burst
        };
        let ghost q = records_of(self.seen, key@);
        let mut kept = match self.seen.get(key) {
            Some(v) => {
                let mut k: usize = 0;
                while k < v.len() && now > v[k] && now - v[k] > RATE_WINDOW_NANOS
                    invariant
                        k <= v@.len(),
                        v@ == q,
                        first_live(q, now, 0) == first_live(q, now, k as int),
                    decreases v.len() - k,
                {
                    k = k + 1;
                }
                copy_records(v, k)
            },
            None => {
                let r: Vec<u128> = Vec::new();
                assert(pruned(q, now) =~= r@);
                r
            },
        };
        let allowed = (kept.len() as u64) < (limit as u64);
        if allowed {
            kept.push(now);
        }
        let ghost before = self.seen;
        self.seen.insert(key.to_string(), kept);
        proof {
            assert forall|k: Seq<char>| k != key@ implies #[trigger] self.seen.spec_get(k) == before.spec_get(k) by {
                lemma_insert_get(before, self.seen, key@, kept, k);
            }
            lemma_insert_get(before, self.seen, key@, kept, key@);
        }
        allowed
    }

    /// Decide whether a request of `key` made now is let through, and
    /// record it if so: `allow_at` at the current time.
    pub fn allow(&mut self, key: &str) -> (allowed: bool)
        ensures
            exists|now: u128| allow_step(*old(self), *final(self), key@, now, allowed),
    {
        let now = nanos_since(&self.origin);
        self.allow_at(key, now)
    }
}

/// Who made a request: the peer's process, user and group ids, and its
/// container when it runs in one.
#[derive(Debug, Clone)]
pub struct CallerIdentity {
    pub pid: i32,
    pub uid: u32,
    pub gid: u32,
    pub container_id: Option<String>,
}

/// The characters of an optional string.
pub open spec fn opt_view(s: Option<String>) -> Option<Seq<char>> {
    match s {
        Some(t) => Some(t@),
        None => None,
    }
}

/// The key under which a caller's requests are counted: its container id,
/// or `pid:<pid>` outside a container.
pub open spec fn rate_key_of(identity: CallerIdentity) -> Seq<char> {
    match identity.container_id {
        Some(c) => c@,
        None => "pid:"@ + signed_decimal(identity.pid as int),
    }
}

/// The key under which a caller's requests are counted (see `rate_key_of`).
pub fn rate_key(identity: &CallerIdentity) -> (r: String)
    ensures
        r@ == rate_key_of(*identity),
{
    match &identity.container_id {
        Some(c) => c.clone(),
        None => {
            let mut r = String::from_str("pid:");
            let d = signed_decimal_chars(identity.pid as i64);
            r.append(string_from_chars(d.as_slice()).as_str());
            r
        },
    }
}

/// Work the host does on a caller's behalf.
#[derive(Debug, Clone)]
pub enum HostWork {
    /// Read an image from the host clipboard.
    ReadClipboard,
    /// Run the host's `gh` with these arguments.
    RunGh { argv: Vec<String> },
    /// Run a host command.
    RunExec { argv: Vec<String>, cwd: Option<String>, env: Option<NamedMap<String>> },
}

/// The next step in answering a request.
#[derive(Debug, Clone)]
pub enum HostStep {
    /// Send this response.
    Reply(PortalResponse),
    /// Ask the user to approve the work first, showing the caller's reason.
    Ask { work: HostWork, reason: Option<String> },
    /// Do the work.
    Run(HostWork),
}

/// A version 1 error response to request `id` with this code and message.
pub open spec fn is_error_response(r: PortalResponse, id: u64, code: Seq<char>, message: Seq<char>) -> bool {
    &&& r.version == 1
    &&& r.id == id
    &&& !r.ok
    &&& r.result is None
    &&& r.error matches Some(e) && e.code@ == code && e.message@ == message
}

/// A version 1 successful response to request `id` carrying `result`.
pub open spec fn is_ok_response(r: PortalResponse, id: u64, result: ResponseResult) -> bool {
    &&& r.version == 1
    &&& r.id == id
    &&& r.ok
    &&& r.result == Some(result)
    &&& r.error is None
}

/// A step that replies with an error.
pub open spec fn replies_error(step: HostStep, id: u64, code: Seq<char>, message: Seq<char>) -> bool {
    step matches HostStep::Reply(r) && is_error_response(r, id, code, message)
}

/// Whether `gh` commands of an operation need the user's approval under a
/// policy mode; `None` when the mode refuses every `gh` command.
pub open spec fn gh_needs_approval(mode: GhExecPolicyMode, op: GhCommandOperation) -> Option<bool> {
    match mode {
        GhExecPolicyMode::AskForAll => Some(true),
        GhExecPolicyMode::AskForWrites => Some(op != GhCommandOperation::Read),
        GhExecPolicyMode::AskForNone => Some(false),
        GhExecPolicyMode::DenyAll => None,
    }
}

/// Whether `gh` commands of an operation need approval (see `gh_needs_approval`).
pub fn gh_approval(mode: GhExecPolicyMode, op: GhCommandOperation) -> (r: Option<bool>)
    ensures
        r == gh_needs_approval(mode, op),
{
    match mode {
        GhExecPolicyMode::AskForAll => Some(true),
        GhExecPolicyMode::AskForWrites => Some(
            match op {
                GhCommandOperation::Read => false,
                _ => true,
            },
        ),
        GhExecPolicyMode::AskForNone => Some(false),
        GhExecPolicyMode::DenyAll => None,
    }
}

/// The first step in answering `request` from `identity`: refuse it when
/// the rate limiter did not let it through; answer `ping` with the time and
/// `whoami` with the caller's identity; read the clipboard, run `gh` or run
/// a command, after the user's approval where the container's policy asks
/// for it (a command always needs it), or refuse it where the policy denies.
pub fn plan_request(
    cfg: &PortalConfig,
    gh_policy: &GhPolicyData,
    identity: &CallerIdentity,
    request: PortalRequest,
    rate_allowed: bool,
    now_unix_ms: u128,
) -> (step: HostStep)
    ensures
        !rate_allowed ==> replies_error(step, request.id, "rate_limited"@, "request rate exceeded"@),
        rate_allowed ==> {
            let policy = policy_for(*cfg, opt_view(identity.container_id));
            match request.method {
                RequestMethod::Ping => step matches HostStep::Reply(r) && is_ok_response(
                    r,
                    request.id,
                    ResponseResult::Pong { now_unix_ms },
                ),
                RequestMethod::WhoAmI => step matches HostStep::Reply(r) && r.version == 1 && r.id
                    == request.id && r.ok && r.error is None && (r.result matches Some(
                    ResponseResult::WhoAmI { pid, uid, gid, container_id },
                ) && pid == identity.pid && uid == identity.uid && gid == identity.gid && opt_view(
                    container_id,
                ) == opt_view(identity.container_id)),
                RequestMethod::ClipboardReadImage { reason } => match policy.clipboard_read_image {
                    PolicyDecision::Allow => step == HostStep::Run(HostWork::ReadClipboard),
                    PolicyDecision::Deny => replies_error(
                        step,
                        request.id,
                        "denied"@,
                        "request denied by policy"@,
                    ),
                    PolicyDecision::Ask => step == (HostStep::Ask { work: HostWork::ReadClipboard, reason }),
                },
                RequestMethod::GhExec { argv, reason, require_approval } => match gh_needs_approval(
                    policy.gh_exec,
                    gh_operation_of(*gh_policy, views(argv@)),
                ) {
                    None => replies_error(step, request.id, "denied"@, "gh.exec denied by policy"@),
                    Some(true) => step == (HostStep::Ask { work: HostWork::RunGh { argv }, reason }),
                    Some(false) => step == HostStep::Run(HostWork::RunGh { argv }),
                },
                RequestMethod::Exec { argv, reason, cwd, env } => step == (HostStep::Ask {
                    work: HostWork::RunExec { argv, cwd, env },
                    reason,
                }),
            }
        },
{
    let id = request.id;
    if !rate_allowed {
        return HostStep::Reply(PortalResponse::err(id, "rate_limited", "request rate exceeded"));
    }
    let policy = cfg.policy_for_container(
        match &identity.container_id {
            Some(c) => Some(c.as_str()),
            None => None,
        },
    );
    match request.method {
        RequestMethod::Ping => HostStep::Reply(PortalResponse::ok(id, ResponseResult::Pong { now_unix_ms })),
        RequestMethod::WhoAmI => {
            let container_id = match &identity.container_id {
                Some(c) => Some(c.clone()),
                None => None,
            };
            HostStep::Reply(
                PortalResponse::ok(
                    id,
                    ResponseResult::WhoAmI {
                        pid: identity.pid,
                        uid: identity.uid,
                        gid: identity.gid,
                        container_id,
                    },
                ),
            )
        },
        RequestMethod::ClipboardReadImage { reason } => match policy.clipboard_read_image {
            PolicyDecision::Allow => HostStep::Run(HostWork::ReadClipboard),
            PolicyDecision::Deny => HostStep::Reply(
                PortalResponse::err(id, "denied", "request denied by policy"),
            ),
            PolicyDecision::Ask => HostStep::Ask { work: HostWork::ReadClipboard, reason },
        },
        RequestMethod::GhExec { argv, reason, require_approval: _ } => {
            let operation = classify_gh_operation(gh_policy, &argv);
            match gh_approval(policy.gh_exec, operation) {
                None => HostStep::Reply(PortalResponse::err(id, "denied", "gh.exec denied by policy")),
                Some(true) => HostStep::Ask { work: HostWork::RunGh { argv }, reason },
                Some(false) => HostStep::Run(HostWork::RunGh { argv }),
            }
        },
        RequestMethod::Exec { argv, reason, cwd, env } => HostStep::Ask {
            work: HostWork::RunExec { argv, cwd, env },
            reason,
        },
    }
}

/// The step after the user was asked: do the work when approved; refuse it
/// when denied; report the failure when the prompt failed.
pub fn after_prompt(id: u64, work: HostWork, answer: Result<bool, String>) -> (step: HostStep)
    ensures
        match answer {
            Ok(true) => step == HostStep::Run(work),
            Ok(false) => replies_error(step, id, "denied"@, "request denied by policy"@),
            Err(e) => replies_error(step, id, "prompt_failed"@, e@),
        },
{
    match answer {
        Ok(true) => HostStep::Run(work),
        Ok(false) => HostStep::Reply(PortalResponse::err(id, "denied", "request denied by policy")),
        Err(e) => HostStep::Reply(PortalResponse::err(id, "prompt_failed", e.as_str())),
    }
}

/// How the work went: the clipboard image (its MIME type and bytes), or
/// the exit code and output of `gh` or of a command; or why it failed.
#[derive(Debug)]
pub enum WorkOutcome {
    Clipboard(Result<(String, Vec<u8>), String>),
    Gh(Result<(i32, Vec<u8>, Vec<u8>), String>),
    Exec(Result<(i32, Vec<u8>, Vec<u8>), String>),
}

/// The response that reports how the work for request `id` went.
pub fn finish_work(id: u64, outcome: WorkOutcome) -> (r: PortalResponse)
    ensures
        match outcome {
            WorkOutcome::Clipboard(Ok((mime, bytes))) => is_ok_response(
                r,
                id,
                ResponseResult::ClipboardImage { mime, bytes },
            ),
            WorkOutcome::Clipboard(Err(e)) => is_error_response(r, id, "clipboard_failed"@, e@),
            WorkOutcome::Gh(Ok((exit_code, stdout, stderr))) => is_ok_response(
                r,
                id,
                ResponseResult::GhExec { exit_code, stdout, stderr },
            ),
            WorkOutcome::Gh(Err(e)) => is_error_response(r, id, "gh_exec_failed"@, e@),
            WorkOutcome::Exec(Ok((exit_code, stdout, stderr))) => is_ok_response(
                r,
                id,
                ResponseResult::Exec { result: ExecResult { exit_code, stdout, stderr } },
            ),
            WorkOutcome::Exec(Err(e)) => is_error_response(r, id, "exec_failed"@, e@),
        },
{
    match outcome {
        WorkOutcome::Clipboard(Ok((mime, bytes))) => PortalResponse::ok(
            id,
            ResponseResult::ClipboardImage { mime, bytes },
        ),
        WorkOutcome::Clipboard(Err(e)) => PortalResponse::err(id, "clipboard_failed", e.as_str()),
        WorkOutcome::Gh(Ok((exit_code, stdout, stderr))) => PortalResponse::ok(
            id,
            ResponseResult::GhExec { exit_code, stdout, stderr },
        ),
        WorkOutcome::Gh(Err(e)) => PortalResponse::err(id, "gh_exec_failed", e.as_str()),
        WorkOutcome::Exec(Ok((exit_code, stdout, stderr))) => PortalResponse::ok(
            id,
            ResponseResult::Exec { result: ExecResult { exit_code, stdout, stderr } },
        ),
        WorkOutcome::Exec(Err(e)) => PortalResponse::err(id, "exec_failed", e.as_str()),
    }
}

/// `str::to_lowercase` of a text: what it returns depends on the text alone.
pub uninterp spec fn lowercase_of(s: Seq<char>) -> Seq<char>;

/// `str::to_lowercase`: its result is `lowercase_of` the text.
#[verifier::external_body]
fn lowercase(s: &str) -> (r: String)
    ensures
        r@ == lowercase_of(s@),
{
    s.to_lowercase()
}

/// The context shown with each prompt choice.
pub open spec fn prompt_context_text(identity: CallerIdentity, reason: Option<Seq<char>>) -> Seq<char> {
    "container="@ + match identity.container_id {
        Some(c) => c@,
        None => "unknown"@,
    } + " pid="@ + signed_decimal(identity.pid as int) + " reason="@ + match reason {
        Some(r) => r,
        None => "(none)"@,
    }
}

/// The choices offered to the user, one per line.
pub open spec fn prompt_menu_text(identity: CallerIdentity, reason: Option<Seq<char>>) -> Seq<char> {
    let ctx = prompt_context_text(identity, reason);
    "allow-once ("@ + ctx + ")\ndeny ("@ + ctx + ")\n"@
}

/// The choices written to the prompt command (see `prompt_menu_text`).
pub fn prompt_menu(identity: &CallerIdentity, reason: Option<&str>) -> (r: String)
    ensures
        r@ == prompt_menu_text(
            *identity,
            match reason {
                Some(t) => Some(t@),
                None => None,
            },
        ),
{
    let mut ctx = String::from_str("container=");
    match &identity.container_id {
        Some(c) => ctx.append(c.as_str()),
        None => ctx.append("unknown"),
    }
    ctx.append(" pid=");
    let d = signed_decimal_chars(identity.pid as i64);
    ctx.append(string_from_chars(d.as_slice()).as_str());
    ctx.append(" reason=");
    match reason {
        Some(t) => ctx.append(t),
        None => ctx.append("(none)"),
    }
    let mut r = String::from_str("allow-once (");
    r.append(ctx.as_str());
    r.append(")\ndeny (");
    r.append(ctx.as_str());
    r.append(")\n");
    r
}

/// Before prompting: fails when `prompt_inflight` prompts already fill the
/// queue, or when no prompt command is configured; otherwise gives the
/// command to run.
pub fn prompt_preflight(cfg: &PortalConfig, prompt_inflight: usize) -> (r: Result<String, String>)
    ensures
        match r {
            Ok(cmd) => prompt_inflight < cfg.limits.prompt_queue && (cfg.prompt_command matches Some(c)
                && cmd@ == c@),
            Err(e) => if prompt_inflight >= cfg.limits.prompt_queue {
                e@ == "prompt queue full"@
            } else {
                cfg.prompt_command is None && e@ == "prompt_command not configured"@
            },
        },
{
    if prompt_inflight >= cfg.limits.prompt_queue {
        return Err(String::from_str("prompt queue full"));
    }
    match &cfg.prompt_command {
        Some(c) => Ok(c.clone()),
        None => Err(String::from_str("prompt_command not configured")),
    }
}

/// The user's answer read from the prompt command: a failure when the
/// command exited unsuccessfully (with its exit status as text); otherwise
/// approval exactly when the trimmed, lowercased output starts with `allow`.
pub fn prompt_outcome(success: bool, status_text: &str, stdout_text: &str) -> (r: Result<bool, String>)
    ensures
        match r {
            Ok(allowed) => success && allowed == starts_with(lowercase_of(trim(stdout_text@)), "allow"@),
            Err(e) => !success && e@ == "prompt command returned non-zero status: "@ + status_text@,
        },
{
    if !success {
        let mut e = String::from_str("prompt command returned non-zero status: ");
        e.append(status_text);
        return Err(e);
    }
    let selected = lowercase(trim_str(stdout_text).as_str());
    let allow = String::from_str("allow");
    let sc = crate::text::chars_of(selected.as_str());
    let ac = crate::text::chars_of(allow.as_str());
    Ok(crate::text::has_prefix(sc.as_slice(), ac.as_slice()))
}

/// The MIME types a clipboard offers, from the output of
/// `wl-paste --list-types`: its lines, trimmed, without empty ones.
pub open spec fn offered_types_of(text: Seq<char>) -> Seq<Seq<char>> {
    lines_from(text, 0).map_values(|l: Seq<char>| trim(l)).filter(|t: Seq<char>| t.len() > 0)
}

/// The MIME types the clipboard offers (see `offered_types_of`).
pub fn offered_types(text: &str) -> (r: Vec<String>)
    ensures
        views(r@) == offered_types_of(text@),
{
    let lines = lines_of(text);
    let ghost lv = views(lines@);
    let ghost tl = lv.map_values(|l: Seq<char>| trim(l));
    let mut r: Vec<String> = Vec::new();
    let mut i: usize = 0;
    while i < lines.len()
        invariant
            i <= lines@.len(),
            lv == views(lines@),
            lv == lines_from(text@, 0),
            tl == lv.map_values(|l: Seq<char>| trim(l)),
            views(r@) == tl.take(i as int).filter(|t: Seq<char>| t.len() > 0),
        decreases lines.len() - i,
    {
        let t = trim_str(lines[i].as_str());
        let ghost before = views(r@);
        proof {
            assert(tl.take(i + 1).drop_last() =~= tl.take(i as int));
            assert(tl.take(i + 1).last() == t@);
            reveal(Seq::filter);
        }
        if t.as_str().unicode_len() > 0 {
            r.push(t);
            proof {
                assert(views(r@) =~= before.push(tl[i as int]));
            }
        }
        i = i + 1;
    }
    proof {
        assert(tl.take(i as int) =~= tl);
    }
    r
}

/// The first of the allowed MIME types that the clipboard offers.
pub open spec fn first_offered(allowed: Seq<Seq<char>>, offered: Seq<Seq<char>>) -> Option<Seq<char>>
    decreases allowed.len(),
{
    if allowed.len() == 0 {
        None
    } else if offered.contains(allowed[0]) {
        Some(allowed[0])
    } else {
        first_offered(allowed.skip(1), offered)
    }
}

/// The MIME type to read from the clipboard, from the result of
/// `wl-paste --list-types` (whether it succeeded, its output and its error
/// output): the first allowed type that is offered.
pub fn choose_clipboard_type(
    allowed: &Vec<String>,
    list_ok: bool,
    stdout_text: &str,
    stderr_text: &str,
) -> (r: Result<String, String>)
    ensures
        !list_ok ==> (r matches Err(e) && e@ == "wl-paste --list-types failed: "@ + stderr_text@),
        list_ok ==> match first_offered(views(allowed@), offered_types_of(stdout_text@)) {
            Some(m) => (r matches Ok(mime) && mime@ == m),
            None => (r matches Err(e) && e@ == "clipboard does not currently contain an allowed image MIME"@),
        },
{
    if !list_ok {
        let mut e = String::from_str("wl-paste --list-types failed: ");
        e.append(stderr_text);
        return Err(e);
    }
    let offered = offered_types(stdout_text);
    let ghost av = views(allowed@);
    let ghost ov = views(offered@);
    let mut i: usize = 0;
    proof {
        assert(av.skip(0) =~= av);
    }
    while i < allowed.len()
        invariant
            i <= allowed@.len(),
            list_ok,
            av == views(allowed@),
            ov == views(offered@),
            ov == offered_types_of(stdout_text@),
            first_offered(av, ov) == first_offered(av.skip(i as int), ov),
        decreases allowed.len() - i,
    {
        proof {
            assert(av.skip(i as int)[0] == av[i as int]);
            assert(av.skip(i as int).skip(1) =~= av.skip(i + 1));
        }
        if contains_str(&offered, allowed[i].as_str()) {
            return Ok(allowed[i].clone());
        }
        i = i + 1;
    }
    Err(String::from_str("clipboard does not currently contain an allowed image MIME"))
}

/// Accept the image read for `mime` (whether the read succeeded, how many
/// bytes it gave, its error output) when it succeeded within `max_bytes`.
pub fn accept_clipboard_image(
    mime: &str,
    read_ok: bool,
    len: usize,
    stderr_text: &str,
    max_bytes: usize,
) -> (r: Result<(), String>)
    ensures
        !read_ok ==> (r matches Err(e) && e@ == "wl-paste failed for mime "@ + mime@ + ": "@ + stderr_text@),
        read_ok && len > max_bytes ==> (r matches Err(e) && e@ == "clipboard image exceeds size limit ("@
            + decimal(len as nat) + " > "@ + decimal(max_bytes as nat) + ")"@),
        read_ok && len <= max_bytes ==> r is Ok,
{
    if !read_ok {
        let mut e = String::from_str("wl-paste failed for mime ");
        e.append(mime);
        e.append(": ");
        e.append(stderr_text);
        return Err(e);
    }
    if len > max_bytes {
        let mut e = String::from_str("clipboard image exceeds size limit (");
        e.append(string_from_chars(decimal_chars(len as u128).as_slice()).as_str());
        e.append(" > ");
        e.append(string_from_chars(decimal_chars(max_bytes as u128).as_slice()).as_str());
        e.append(")");
        return Err(e);
    }
    Ok(())
}

/// The program and arguments of a command line; a command line must name a
/// program.
pub fn split_command(argv: &Vec<String>) -> (r: Result<(String, Vec<String>), String>)
    ensures
        match r {
            Ok((program, rest)) => argv@.len() > 0 && program@ == argv@[0]@ && views(rest@) == views(
                argv@,
            ).skip(1),
            Err(e) => argv@.len() == 0 && e@ == "empty command"@,
        },
{
    if argv.len() == 0 {
        return Err(String::from_str("empty command"));
    }
    let mut rest: Vec<String> = Vec::new();
    let mut i: usize = 1;
    while i < argv.len()
        invariant
            1 <= i <= argv@.len(),
            views(rest@) == views(argv@).subrange(1, i as int),
        decreases argv.len() - i,
    {
        let ghost before = views(rest@);
        rest.push(argv[i].clone());
        proof {
            assert(views(rest@) =~= before.push(argv@[i as int]@));
            assert(views(argv@).subrange(1, i + 1) =~= views(argv@).subrange(1, i as int).push(
                argv@[i as int]@,
            ));
        }
        i = i + 1;
    }
    proof {
        assert(views(argv@).subrange(1, i as int) =~= views(argv@).skip(1));
    }
    Ok((argv[0].clone(), rest))
}

/// Where to look for program `name` along a `PATH` value: each directory
/// of it joined with the name, in order.
pub fn binary_candidates(path_var: &str, name: &str) -> (r: Vec<String>)
    ensures
        views(r@) == split_on(path_var@, ':').map_values(|d: Seq<char>| join_path(d, name@)),
{
    let dirs = split_str(path_var, ':');
    let ghost dv = views(dirs@);
    let mut r: Vec<String> = Vec::new();
    let mut i: usize = 0;
    while i < dirs.len()
        invariant
            i <= dirs@.len(),
            dv == views(dirs@),
            dv == split_on(path_var@, ':'),
            views(r@) == dv.take(i as int).map_values(|d: Seq<char>| join_path(d, name@)),
        decreases dirs.len() - i,
    {
        let ghost before = views(r@);
        r.push(join_path_str(dirs[i].as_str(), name));
        proof {
            assert(views(r@) =~= before.push(join_path(dv[i as int], name@)));
            assert(dv.take(i + 1).map_values(|d: Seq<char>| join_path(d, name@)) =~= dv.take(
                i as int,
            ).map_values(|d: Seq<char>| join_path(d, name@)).push(join_path(dv[i as int], name@)));
        }
        i = i + 1;
    }
    proof {
        assert(dv.take(i as int) =~= dv);
    }
    r
}

/// The host program to run: the one an environment variable names when it
/// is set to more than white space; else the first of the existing
/// candidates; else `fallback`.
pub fn pick_host_binary(env_value: Option<&str>, existing: &Vec<String>, fallback: &str) -> (r: String)
    ensures
        r@ == match env_value {
            Some(v) if trim(v@).len() > 0 => v@,
            _ => if existing@.len() > 0 {
                existing@[0]@
            } else {
                fallback@
            },
        },
{
    if let Some(v) = env_value {
        let t = trim_str(v);
        if t.as_str().unicode_len() > 0 {
            return v.to_string();
        }
    }
    if existing.len() > 0 {
        existing[0].clone()
    } else {
        fallback.to_string()
    }
}

/// A connection is turned away, before its request is read, while
/// `max_inflight` requests are being served.
pub fn admit_connection(inflight: usize, max_inflight: usize) -> (r: Option<PortalResponse>)
    ensures
        match r {
            Some(resp) => inflight >= max_inflight && is_error_response(
                resp,
                0,
                "too_busy"@,
                "too many in-flight requests"@,
            ),
            None => inflight < max_inflight,
        },
{
    if inflight >= max_inflight {
        Some(PortalResponse::err(0, "too_busy", "too many in-flight requests"))
    } else {
        None
    }
}

/// How long to wait for a newly started portal's socket, in milliseconds:
/// the request timeout, but at least a second, when one is set; otherwise
/// five seconds.
pub fn socket_wait_ms(request_ms: u64) -> (r: u64)
    ensures
        r == if request_ms > 0 {
            if request_ms >= 1000 {
                request_ms
            } else {
                1000
            }
        } else {
            5000
        },
{
    if request_ms > 0 {
        if request_ms >= 1000 {
            request_ms
        } else {
            1000
        }
    } else {
        5000
    }
}

/// No key holds more records than the limiter's limit.
pub open spec fn within_limit(l: RateLimiter) -> bool {
    forall|k: Seq<char>| #[trigger] records_of(l.seen, k).len() <= rate_limit(l.per_minute, l.burst)
}

/// Records in time order, none later than `now`.
pub open spec fn ordered_records(q: Seq<u128>, now: u128) -> bool {
    forall|i: int, j: int| 0 <= i <= j < q.len() ==> #[trigger] q[i] <= #[trigger] q[j] <= now
}

/// Every key's records are in time order and none is later than `now`.
pub open spec fn ordered_until(l: RateLimiter, now: u128) -> bool {
    forall|k: Seq<char>| #[trigger] ordered_records(records_of(l.seen, k), now)
}

proof fn lemma_first_live_bounds(q: Seq<u128>, now: u128, i: int)
    requires
        0 <= i <= q.len(),
    ensures
        i <= first_live(q, now, i) <= q.len(),
    decreases q.len() - i,
{
    if i < q.len() && expired(q[i], now) {
        lemma_first_live_bounds(q, now, i + 1);
    }
}

/// A limiter never lets more requests of one key through within the window
/// than its limit: when no key holds more records than the limit, none does
/// after a request is decided.
pub proof fn law_rate_limit_kept(
    before: RateLimiter,
    after: RateLimiter,
    key: Seq<char>,
    now: u128,
    allowed: bool,
)
    requires
        within_limit(before),
        allow_step(before, after, key, now, allowed),
    ensures
        within_limit(after),
{
    let q = records_of(before.seen, key);
    lemma_first_live_bounds(q, now, 0);
    assert(records_of(before.seen, key).len() <= rate_limit(before.per_minute, before.burst));
    assert forall|k: Seq<char>| #[trigger]
        records_of(after.seen, k).len() <= rate_limit(after.per_minute, after.burst) by {
        if k != key {
            assert(after.seen.spec_get(k) == before.seen.spec_get(k));
            assert(records_of(before.seen, k).len() <= rate_limit(before.per_minute, before.burst));
        }
    }
}

/// Requests decided in time order keep every key's records in time order,
/// and a request let through is recorded as the key's newest.
pub proof fn law_rate_records_ordered(
    before: RateLimiter,
    after: RateLimiter,
    key: Seq<char>,
    earlier: u128,
    now: u128,
    allowed: bool,
)
    requires
        earlier <= now,
        ordered_until(before, earlier),
        allow_step(before, after, key, now, allowed),
    ensures
        ordered_until(after, now),
        allowed ==> records_of(after.seen, key).last() == now,
{
    let q = records_of(before.seen, key);
    let f = first_live(q, now, 0);
    lemma_first_live_bounds(q, now, 0);
    assert forall|k: Seq<char>| #[trigger] ordered_records(records_of(after.seen, k), now) by {
        if k != key {
            assert(after.seen.spec_get(k) == before.seen.spec_get(k));
            assert(records_of(after.seen, k) == records_of(before.seen, k));
            assert(ordered_records(records_of(before.seen, k), earlier));
        } else {
            let p = pruned(q, now);
            let r = records_of(after.seen, k);
            assert(ordered_records(q, earlier));
            assert forall|i: int, j: int| 0 <= i <= j < r.len() implies #[trigger] r[i] <= #[trigger] r[j]
                <= now by {
                if j < p.len() {
                    assert(p[i] == q[f + i]);
                    assert(p[j] == q[f + j]);
                    assert(q[f + i] <= q[f + j] <= earlier);
                } else if i < p.len() {
                    assert(p[i] == q[f + i]);
                    assert(q[f + i] <= q[f + i] <= earlier);
                }
            }
        }
    }
}


/// How many of the first `m` calls were made with `key`.
pub open spec fn calls_with(keys: Seq<Seq<char>>, key: Seq<char>, m: int) -> int
    decreases m,
{
    if m <= 0 {
        0
    } else {
        calls_with(keys, key, m - 1) + if keys[m - 1] == key {
            1int
        } else {
            0int
        }
    }
}

/// A run of decisions: call `i` (with `keys[i]` at `times[i]`, answered
/// `results[i]`) takes the limiter from `states[i]` to `states[i + 1]`.
pub open spec fn rate_run(
    states: Seq<RateLimiter>,
    keys: Seq<Seq<char>>,
    times: Seq<u128>,
    results: Seq<bool>,
) -> bool {
    &&& states.len() == keys.len() + 1
    &&& times.len() == keys.len()
    &&& results.len() == keys.len()
    &&& forall|i: int|
        0 <= i < keys.len() ==> #[trigger] allow_step(states[i], states[i + 1], keys[i], times[i], results[i])
}

/// The calls with `key` are in time order and all within one window.
pub open spec fn calls_within_window(keys: Seq<Seq<char>>, times: Seq<u128>, key: Seq<char>) -> bool {
    forall|i: int, j: int|
        0 <= i <= j < keys.len() && #[trigger] keys[i] == key && #[trigger] keys[j] == key ==> times[i]
            <= times[j] && times[j] - times[i] <= RATE_WINDOW_NANOS
}

/// What holds after the first `m` calls of a run, for `key`.
pub open spec fn run_prefix_holds(
    states: Seq<RateLimiter>,
    keys: Seq<Seq<char>>,
    times: Seq<u128>,
    results: Seq<bool>,
    key: Seq<char>,
    m: int,
) -> bool {
    let lim = rate_limit(states[0].per_minute, states[0].burst);
    let rec = records_of(states[m].seen, key);
    let c = calls_with(keys, key, m);
    &&& states[m].per_minute == states[0].per_minute
    &&& states[m].burst == states[0].burst
    &&& rec.len() == if c < lim {
        c
    } else {
        lim
    }
    &&& forall|t: int, i: int|
        0 <= t < rec.len() && m <= i < keys.len() && #[trigger] keys[i] == key ==> !expired(
            #[trigger] rec[t],
            times[i],
        )
    &&& forall|i: int|
        0 <= i < m && #[trigger] keys[i] == key ==> results[i] == (calls_with(keys, key, i) < lim)
}

proof fn lemma_rate_run_prefix(
    states: Seq<RateLimiter>,
    keys: Seq<Seq<char>>,
    times: Seq<u128>,
    results: Seq<bool>,
    key: Seq<char>,
    m: int,
)
    requires
        rate_run(states, keys, times, results),
        records_of(states[0].seen, key).len() == 0,
        calls_within_window(keys, times, key),
        0 <= m <= keys.len(),
    ensures
        run_prefix_holds(states, keys, times, results, key, m),
    decreases m,
{
    let lim = rate_limit(states[0].per_minute, states[0].burst);
    if m > 0 {
        let p = m - 1;
        lemma_rate_run_prefix(states, keys, times, results, key, p);
        assert(allow_step(states[p], states[p + 1], keys[p], times[p], results[p]));
        let before = states[p];
        let after = states[m];
        let q = records_of(before.seen, key);
        let c = calls_with(keys, key, p);
        assert(calls_with(keys, key, m) == c + if keys[p] == key {
            1int
        } else {
            0int
        });
        if keys[p] != key {
            assert(after.seen.spec_get(key) == before.seen.spec_get(key));
            assert(records_of(after.seen, key) == q);
            assert forall|i: int| 0 <= i < m && #[trigger] keys[i] == key implies results[i] == (calls_with(
                keys,
                key,
                i,
            ) < lim) by {
                assert(i < p);
            }
        } else {
            let now = times[p];
            if q.len() > 0 {
                assert(!expired(q[0], now));
            }
            assert(first_live(q, now, 0) == 0);
            assert(pruned(q, now) =~= q);
            let r = records_of(after.seen, key);
            assert(results[p] == (q.len() < lim));
            assert forall|t: int, i: int|
                0 <= t < r.len() && m <= i < keys.len() && #[trigger] keys[i] == key implies !expired(
                #[trigger] r[t],
                times[i],
            ) by {
                if t < q.len() {
                    assert(r[t] == q[t]);
                } else {
                    assert(r[t] == now);
                    assert(keys[p] == key);
                    assert(times[p] <= times[i] && times[i] - times[p] <= RATE_WINDOW_NANOS);
                }
            }
            assert forall|i: int| 0 <= i < m && #[trigger] keys[i] == key implies results[i] == (calls_with(
                keys,
                key,
                i,
            ) < lim) by {
                if i < p {
                } else {
                    assert(i == p);
                }
            }
        }
    }
}

/// Over a run of decisions that starts with no records for `key`, and
/// whose calls with `key` all fall within one window in time order, the
/// calls with `key` are let through while fewer than the limit came before
/// them, and refused from then on (a refused call is not counted); calls
/// with other keys do not change this.
pub proof fn law_rate_run(
    states: Seq<RateLimiter>,
    keys: Seq<Seq<char>>,
    times: Seq<u128>,
    results: Seq<bool>,
    key: Seq<char>,
)
    requires
        rate_run(states, keys, times, results),
        records_of(states[0].seen, key).len() == 0,
        calls_within_window(keys, times, key),
    ensures
        forall|i: int|
            0 <= i < keys.len() && #[trigger] keys[i] == key ==> results[i] == (calls_with(keys, key, i)
                < rate_limit(states[0].per_minute, states[0].burst)),
{
    lemma_rate_run_prefix(states, keys, times, results, key, keys.len() as int);
}

} // verus!
