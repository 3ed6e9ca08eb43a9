//! What the `ab` command line decides and shows: workspace types, hints,
//! the lines that list workspaces and repository information, and the
//! validation report.

use vstd::prelude::*;
use crate::config::Config;
use crate::path::{
    workspace_group_dir, workspace_type_name, GitWorktreeInfo, JjWorkspaceInfo, WorkspaceInfo,
    WorkspaceStatus, WorkspaceType,
};
use crate::pathname::{join_path, join_path_str};
use crate::portal::{decimal, decimal_chars, PortalConfig};
use crate::config::ProfileConfig;
use crate::profiles::{finding_text, finding_views, Finding, ProfileValidationError, ValidationResult};
use crate::text::{chars_of, join_strings, join_with, lines_from, lines_of, string_from_chars, views};

verus! {

/// The workspace type `ab new` creates: git when asked for, else jj.
pub fn new_workspace_type(git: bool, jj: bool) -> (t: WorkspaceType)
    ensures
        t == if git {
            WorkspaceType::Git
        } else {
            WorkspaceType::Jj
        },
{
    if git {
        WorkspaceType::Git
    } else if jj {
        WorkspaceType::Jj
    } else {
        WorkspaceType::Jj
    }
}

/// The hint added when `ab new` fails for a repository given by a bare
/// name (one without `/`).
pub fn bare_name_hint(repo_name: Option<&str>) -> (r: Option<String>)
    ensures
        match repo_name {
            Some(n) => if n@.contains('/') {
                r is None
            } else {
                r matches Some(h) && h@ == "could not find a git repository at '"@ + n@
                    + "'\nHint: use 'cd "@ + n@ + " && ab new' or pass a full path like 'ab new /path/to/"@
                    + n@ + "'"@
            },
            None => r is None,
        },
{
    match repo_name {
        Some(n) => {
            let c = chars_of(n);
            if crate::text::contains_char(c.as_slice(), '/') {
                return None;
            }
            let mut h = String::from_str("could not find a git repository at '");
            h.append(n);
            h.append("'\nHint: use 'cd ");
            h.append(n);
            h.append(" && ab new' or pass a full path like 'ab new /path/to/");
            h.append(n);
            h.append("'");
            Some(h)
        },
        None => None,
    }
}

/// Whether `ab spawn` starts a portal of its own for the container: when the
/// portal is enabled and not a global (shared) one.
pub fn wants_managed_portal(cfg: &PortalConfig) -> (b: bool)
    ensures
        b == (cfg.enabled && !cfg.global),
{
    cfg.enabled && !cfg.global
}

/// The socket path of a container's own portal: under the runtime directory
/// (else under `agent-portal` in the temporary directory), in `agent-box`,
/// named by the process id and a time stamp.
pub fn managed_socket_path(runtime_dir: Option<&str>, temp_dir: &str, pid: u32, stamp: u128) -> (r: String)
    ensures
        r@ == join_path(
            join_path(
                match runtime_dir {
                    Some(d) => d@,
                    None => join_path(temp_dir@, "agent-portal"@),
                },
                "agent-box"@,
            ),
            "portal-"@ + decimal(pid as nat) + "-"@ + decimal(stamp as nat) + ".sock"@,
        ),
{
    let base = match runtime_dir {
        Some(d) => d.to_string(),
        None => join_path_str(temp_dir, "agent-portal"),
    };
    let dir = join_path_str(base.as_str(), "agent-box");
    let mut name = String::from_str("portal-");
    name.append(string_from_chars(decimal_chars(pid as u128).as_slice()).as_str());
    name.append("-");
    name.append(string_from_chars(decimal_chars(stamp).as_slice()).as_str());
    name.append(".sock");
    join_path_str(dir.as_str(), name.as_str())
}

/// The line listing one workspace group:
/// `{source}  {type}  {n} session(s)  {status}`.
pub open spec fn group_line_text(ws: WorkspaceInfo) -> Seq<char> {
    ws.source_path@ + "  "@ + workspace_type_name(ws.workspace_type) + "  "@ + decimal(ws.session_count as nat)
        + " "@ + (if ws.session_count == 1 {
        "session"@
    } else {
        "sessions"@
    }) + "  "@ + match ws.status {
        WorkspaceStatus::Healthy => "healthy"@,
        WorkspaceStatus::Unresolved => "unresolved"@,
    }
}

/// The line listing one workspace group (see `group_line_text`).
pub fn group_line(ws: &WorkspaceInfo) -> (r: String)
    ensures
        r@ == group_line_text(*ws),
{
    let mut r = ws.source_path.clone();
    r.append("  ");
    r.append(ws.workspace_type.as_str());
    r.append("  ");
    r.append(string_from_chars(decimal_chars(ws.session_count as u128).as_slice()).as_str());
    r.append(" ");
    if ws.session_count == 1 {
        r.append("session");
    } else {
        r.append("sessions");
    }
    r.append("  ");
    r.append(ws.status.as_str());
    r
}

/// The line naming a workspace group about to be removed:
/// `  {dir} ({type}, {n} session(s))`.
pub fn removal_line(config: &Config, ws: &WorkspaceInfo) -> (r: String)
    ensures
        r@ == "  "@ + workspace_group_dir(*config, ws.workspace_type, ws.relative_path@) + " ("@
            + workspace_type_name(ws.workspace_type) + ", "@ + decimal(ws.session_count as nat)
            + " session"@ + (if ws.session_count == 1 {
            ""@
        } else {
            "s"@
        }) + ")"@,
{
    proof {
        reveal_strlit("");
    }
    let mut r = String::from_str("  ");
    r.append(ws.workspace_dir(config).as_str());
    r.append(" (");
    r.append(ws.workspace_type.as_str());
    r.append(", ");
    r.append(string_from_chars(decimal_chars(ws.session_count as u128).as_slice()).as_str());
    r.append(" session");
    if ws.session_count != 1 {
        r.append("s");
    }
    r.append(")");
    r
}

/// A workspace group as plain values: source path, type, session count,
/// status and relative path.
pub open spec fn group_view(w: WorkspaceInfo) -> (Seq<char>, WorkspaceType, usize, WorkspaceStatus, Seq<char>) {
    (w.source_path@, w.workspace_type, w.session_count, w.status, w.relative_path@)
}

/// The workspace groups whose source repository was not found, in order,
/// each with all its fields as they were.
pub fn unresolved_groups(groups: &Vec<WorkspaceInfo>) -> (r: Vec<WorkspaceInfo>)
    ensures
        r@.len() <= groups@.len(),
        forall|i: int| 0 <= i < r@.len() ==> (#[trigger] r@[i]).status == WorkspaceStatus::Unresolved,
        r@.map_values(|w: WorkspaceInfo| group_view(w)) == groups@.filter(
            |w: WorkspaceInfo| w.status == WorkspaceStatus::Unresolved,
        ).map_values(|w: WorkspaceInfo| group_view(w)),
{
    let mut r: Vec<WorkspaceInfo> = Vec::new();
    let mut i: usize = 0;
    while i < groups.len()
        invariant
            i <= groups@.len(),
            r@.len() <= i,
            forall|j: int| 0 <= j < r@.len() ==> (#[trigger] r@[j]).status == WorkspaceStatus::Unresolved,
            r@.map_values(|w: WorkspaceInfo| group_view(w)) == groups@.take(i as int).filter(
                |w: WorkspaceInfo| w.status == WorkspaceStatus::Unresolved,
            ).map_values(|w: WorkspaceInfo| group_view(w)),
        decreases groups.len() - i,
    {
        let ghost before = r@.map_values(|w: WorkspaceInfo| group_view(w));
        proof {
            assert(groups@.take(i + 1).drop_last() =~= groups@.take(i as int));
            assert(groups@.take(i + 1).last() == groups@[i as int]);
            reveal(Seq::filter);
        }
        if groups[i].status == WorkspaceStatus::Unresolved {
            let w = WorkspaceInfo {
                source_path: groups[i].source_path.clone(),
                workspace_type: groups[i].workspace_type,
                session_count: groups[i].session_count,
                status: groups[i].status,
                relative_path: groups[i].relative_path.clone(),
            };
            r.push(w);
            proof {
                assert(r@.map_values(|w: WorkspaceInfo| group_view(w)) =~= before.push(
                    group_view(groups@[i as int]),
                ));
            }
        }
        i = i + 1;
    }
    proof {
        assert(groups@.take(i as int) =~= groups@);
    }
    r
}

/// The line showing a git worktree: its path, then `(main)` for the main
/// worktree, or its id (`?` if it has none) and `[locked]` when locked.
pub open spec fn worktree_line_text(wt: GitWorktreeInfo) -> Seq<char> {
    if wt.is_main {
        "  \u{1b}[36m"@ + wt.path@ + "\u{1b}[0m \u{1b}[2m(main)\u{1b}[0m"@
    } else {
        "  \u{1b}[36m"@ + wt.path@ + "\u{1b}[0m \u{1b}[32m["@ + match wt.id {
            Some(id) => id@,
            None => "?"@,
        } + "]\u{1b}[0m"@ + if wt.is_locked {
            " \u{1b}[33m[locked]\u{1b}[0m"@
        } else {
            ""@
        }
    }
}

/// The line showing a git worktree (see `worktree_line_text`).
pub fn worktree_line(wt: &GitWorktreeInfo) -> (r: String)
    ensures
        r@ == worktree_line_text(*wt),
{
    proof {
        reveal_strlit("");
    }
    let mut r = String::from_str("  \u{1b}[36m");
    r.append(wt.path.as_str());
    if wt.is_main {
        r.append("\u{1b}[0m \u{1b}[2m(main)\u{1b}[0m");
        return r;
    }
    r.append("\u{1b}[0m \u{1b}[32m[");
    match &wt.id {
        Some(id) => r.append(id.as_str()),
        None => r.append("?"),
    }
    r.append("]\u{1b}[0m");
    if wt.is_locked {
        r.append(" \u{1b}[33m[locked]\u{1b}[0m");
    }
    r
}

/// The number of bytes of a character in UTF-8.
pub open spec fn utf8_width(c: char) -> nat {
    if (c as u32) < 0x80 {
        1
    } else if (c as u32) < 0x800 {
        2
    } else if (c as u32) < 0x10000 {
        3
    } else {
        4
    }
}

/// The number of bytes of a text in UTF-8 (`str::len`).
pub open spec fn utf8_len(s: Seq<char>) -> nat
    decreases s.len(),
{
    if s.len() == 0 {
        0
    } else {
        utf8_len(s.drop_last()) + utf8_width(s.last())
    }
}

proof fn lemma_utf8_len_bound(s: Seq<char>)
    ensures
        utf8_len(s) <= 4 * s.len(),
    decreases s.len(),
{
    if s.len() > 0 {
        lemma_utf8_len_bound(s.drop_last());
    }
}

/// The UTF-8 length of a text (see `utf8_len`).
pub fn byte_len(s: &str) -> (n: usize)
    requires
        4 * s@.len() <= usize::MAX,
    ensures
        n == utf8_len(s@),
{
    let c = chars_of(s);
    let mut n: usize = 0;
    let mut i: usize = 0;
    while i < c.len()
        invariant
            i <= c@.len(),
            c@ == s@,
            4 * s@.len() <= usize::MAX,
            n == utf8_len(c@.take(i as int)),
            n <= 4 * i,
        decreases c.len() - i,
    {
        proof {
            assert(c@.take(i + 1).drop_last() =~= c@.take(i as int));
            assert(c@.take(i + 1).last() == c@[i as int]);
        }
        let x = c[i] as u32;
        let w: usize = if x < 0x80 {
            1
        } else if x < 0x800 {
            2
        } else if x < 0x10000 {
            3
        } else {
            4
        };
        n = n + w;
        i = i + 1;
    }
    proof {
        assert(c@.take(i as int) =~= c@);
    }
    n
}

/// The first line of a text (empty when the text has none).
pub open spec fn first_line(s: Seq<char>) -> Seq<char> {
    if lines_from(s, 0).len() > 0 {
        lines_from(s, 0)[0]
    } else {
        Seq::empty()
    }
}

/// The largest UTF-8 length among the workspace names.
pub open spec fn max_name_len(ws: Seq<JjWorkspaceInfo>) -> nat
    decreases ws.len(),
{
    if ws.len() == 0 {
        0
    } else {
        let m = max_name_len(ws.drop_last());
        let l = utf8_len(ws.last().name@);
        if l > m {
            l
        } else {
            m
        }
    }
}

proof fn lemma_max_name_len(ws: Seq<JjWorkspaceInfo>, i: int)
    requires
        0 <= i < ws.len(),
    ensures
        utf8_len(ws[i].name@) <= max_name_len(ws),
    decreases ws.len(),
{
    if i < ws.len() - 1 {
        lemma_max_name_len(ws.drop_last(), i);
    }
}

/// The line showing a jj workspace, its name padded to `width` bytes: name,
/// commit, the first line of the description (or `(no description)`), and
/// `(empty)` for an empty workspace.
pub open spec fn jj_line_text(ws: JjWorkspaceInfo, width: nat) -> Seq<char> {
    "  \u{1b}[32m"@ + ws.name@ + "\u{1b}[0m"@ + Seq::new((width - utf8_len(ws.name@)) as nat, |i: int| ' ')
        + "  \u{1b}[35m"@ + ws.commit_id@ + "\u{1b}[0m  "@ + (if ws.description@.len() == 0 {
        "\u{1b}[2m(no description)\u{1b}[0m"@
    } else {
        first_line(ws.description@)
    }) + if ws.is_empty {
        " \u{1b}[2m(empty)\u{1b}[0m"@
    } else {
        ""@
    }
}

/// The lines showing jj workspaces, names aligned (see `jj_line_text`).
pub fn jj_workspace_lines(ws: &Vec<JjWorkspaceInfo>) -> (r: Vec<String>)
    requires
        forall|i: int| 0 <= i < ws@.len() ==> 4 * (#[trigger] ws@[i]).name@.len() <= usize::MAX,
    ensures
        views(r@) == ws@.map_values(|w: JjWorkspaceInfo| jj_line_text(w, max_name_len(ws@))),
{
    let mut width: usize = 0;
    let mut i: usize = 0;
    while i < ws.len()
        invariant
            i <= ws@.len(),
            forall|j: int| 0 <= j < ws@.len() ==> 4 * (#[trigger] ws@[j]).name@.len() <= usize::MAX,
            width == max_name_len(ws@.take(i as int)),
        decreases ws.len() - i,
    {
        proof {
            assert(ws@.take(i + 1).drop_last() =~= ws@.take(i as int));
            assert(ws@.take(i + 1).last() == ws@[i as int]);
        }
        let l = byte_len(ws[i].name.as_str());
        if l > width {
            width = l;
        }
        i = i + 1;
    }
    proof {
        assert(ws@.take(i as int) =~= ws@);
    }
    let ghost target = ws@.map_values(|w: JjWorkspaceInfo| jj_line_text(w, max_name_len(ws@)));
    let mut r: Vec<String> = Vec::new();
    let mut k: usize = 0;
    while k < ws.len()
        invariant
            k <= ws@.len(),
            forall|j: int| 0 <= j < ws@.len() ==> 4 * (#[trigger] ws@[j]).name@.len() <= usize::MAX,
            width == max_name_len(ws@),
            target == ws@.map_values(|w: JjWorkspaceInfo| jj_line_text(w, max_name_len(ws@))),
            views(r@) == target.take(k as int),
        decreases ws.len() - k,
    {
        let w = &ws[k];
        proof {
            lemma_max_name_len(ws@, k as int);
        }
        let l = byte_len(w.name.as_str());
        let mut line = String::from_str("  \u{1b}[32m");
        line.append(w.name.as_str());
        line.append("\u{1b}[0m");
        let ghost pad_start = line@;
        let mut p: usize = 0;
        while p < width - l
            invariant
                p <= width - l,
                line@ == pad_start + Seq::new(p as nat, |q: int| ' '),
            decreases width - l - p,
        {
            proof {
                reveal_strlit(" ");
            }
            line.append(" ");
            p = p + 1;
            assert(line@ =~= pad_start + Seq::new(p as nat, |q: int| ' '));
        }
        line.append("  \u{1b}[35m");
        line.append(w.commit_id.as_str());
        line.append("\u{1b}[0m  ");
        if w.description.as_str().unicode_len() == 0 {
            line.append("\u{1b}[2m(no description)\u{1b}[0m");
        } else {
            let ls = lines_of(w.description.as_str());
            if ls.len() > 0 {
                line.append(ls[0].as_str());
            }
        }
        if w.is_empty {
            line.append(" \u{1b}[2m(empty)\u{1b}[0m");
        }
        proof {
            reveal_strlit("");
            assert(width - l == max_name_len(ws@) - utf8_len(w.name@));
            assert(line@ =~= jj_line_text(*w, max_name_len(ws@)));
        }
        let ghost before = views(r@);
        r.push(line);
        proof {
            assert(views(r@) =~= before.push(target[k as int]));
            assert(target.take(k + 1) =~= target.take(k as int).push(target[k as int]));
        }
        k = k + 1;
    }
    proof {
        assert(target.take(k as int) =~= target);
    }
    r
}

/// What `ab dbg validate` prints: lines for standard output and for
/// standard error, and whether it succeeds.
#[derive(Debug, Clone)]
pub struct ValidateReport {
    pub stdout: Vec<String>,
    pub stderr: Vec<String>,
    pub success: bool,
}

/// Each finding on a line of its own after a marker.
pub open spec fn marked_lines(marker: Seq<char>, fs: Seq<Finding>) -> Seq<Seq<char>> {
    fs.map_values(|f: Finding| marker + finding_text(f))
}

/// The line naming a profile in the summary, with what it extends.
pub open spec fn profile_line_text(name: Seq<char>, p: ProfileConfig) -> Seq<char> {
    "  - "@ + name + if p.extends@.len() == 0 {
        ""@
    } else {
        " (extends: "@ + join_with(views(p.extends@), ", "@) + ")"@
    }
}

/// The error lines of the report: the errors, then the warnings, then the
/// verdict when there are errors.
pub open spec fn report_stderr(errors: Seq<Finding>, warnings: Seq<Finding>) -> Seq<Seq<char>> {
    (if errors.len() > 0 {
        seq!["Errors:"@] + marked_lines("  \u{2717} "@, errors)
    } else {
        Seq::empty()
    }) + (if warnings.len() > 0 {
        (if errors.len() > 0 {
            seq![""@]
        } else {
            Seq::empty()
        }) + seq!["Warnings:"@] + marked_lines("  \u{26a0} "@, warnings)
    } else {
        Seq::empty()
    }) + if errors.len() > 0 {
        seq![
            "\nConfiguration invalid: "@ + decimal(errors.len()) + " error(s), "@ + decimal(warnings.len())
                + " warning(s)."@,
        ]
    } else {
        Seq::empty()
    }
}

/// The output lines of the report when there are no errors: the verdict,
/// the profiles defined (in entry order) and the default profile.
pub open spec fn report_stdout(config: Config, warnings: Seq<Finding>) -> Seq<Seq<char>> {
    let ps = config.profiles;
    seq![
        if warnings.len() > 0 {
            "\nConfiguration valid with "@ + decimal(warnings.len()) + " warning(s)."@
        } else {
            "Configuration valid. No errors or warnings."@
        },
    ] + (if ps.spec_len() > 0 {
        seq!["\nProfiles defined: "@ + decimal(ps.spec_len())] + Seq::new(
            ps.spec_len(),
            |i: int| profile_line_text(ps.key_list()[i], ps.value_list()[i]),
        )
    } else {
        Seq::empty()
    }) + match config.default_profile {
        Some(d) => seq!["\nDefault profile: "@ + d@],
        None => Seq::empty(),
    }
}

fn push_marked(out: &mut Vec<String>, marker: &str, fs: &Vec<ProfileValidationError>)
    ensures
        views(final(out)@) == views(old(out)@) + marked_lines(marker@, finding_views(fs@)),
{
    let ghost start = views(out@);
    let ghost fv = finding_views(fs@);
    let mut i: usize = 0;
    while i < fs.len()
        invariant
            i <= fs@.len(),
            fv == finding_views(fs@),
            views(out@) == start + marked_lines(marker@, fv.take(i as int)),
        decreases fs.len() - i,
    {
        let mut line = marker.to_string();
        line.append(fs[i].to_display_string().as_str());
        let ghost before = views(out@);
        out.push(line);
        proof {
            assert(views(out@) =~= before.push(marker@ + finding_text(fv[i as int])));
            assert(marked_lines(marker@, fv.take(i + 1)) =~= marked_lines(marker@, fv.take(i as int)).push(
                marker@ + finding_text(fv[i as int]),
            ));
        }
        i = i + 1;
    }
    proof {
        assert(fv.take(i as int) =~= fv);
    }
}

fn profile_line(name: &str, p: &ProfileConfig) -> (r: String)
    ensures
        r@ == profile_line_text(name@, *p),
{
    proof {
        reveal_strlit("");
    }
    let mut r = String::from_str("  - ");
    r.append(name);
    if p.extends.len() > 0 {
        r.append(" (extends: ");
        r.append(join_strings(&p.extends, ", ").as_str());
        r.append(")");
    }
    r
}

/// The report of `ab dbg validate` for a configuration and its validation
/// result: it succeeds when there are no errors.
pub fn validate_report(config: &Config, result: &ValidationResult) -> (r: ValidateReport)
    ensures
        r.success == (result.errors@.len() == 0),
        views(r.stderr@) == report_stderr(finding_views(result.errors@), finding_views(result.warnings@)),
        r.success ==> views(r.stdout@) == report_stdout(*config, finding_views(result.warnings@)),
        !r.success ==> r.stdout@.len() == 0,
{
    let ghost ev = finding_views(result.errors@);
    let ghost wv = finding_views(result.warnings@);
    let mut stderr: Vec<String> = Vec::new();
    let mut stdout: Vec<String> = Vec::new();
    proof {
        reveal_strlit("");
    }
    if result.errors.len() > 0 {
        stderr.push(String::from_str("Errors:"));
        push_marked(&mut stderr, "  \u{2717} ", &result.errors);
    }
    let ghost s1 = views(stderr@);
    proof {
        assert(s1 =~= if ev.len() > 0 {
            seq!["Errors:"@] + marked_lines("  \u{2717} "@, ev)
        } else {
            Seq::empty()
        });
    }
    if result.warnings.len() > 0 {
        if result.errors.len() > 0 {
            stderr.push(String::from_str(""));
            assert(views(stderr@) =~= s1 + seq![""@]);
        }
        let ghost s15 = views(stderr@);
        stderr.push(String::from_str("Warnings:"));
        assert(views(stderr@) =~= s15 + seq!["Warnings:"@]);
        push_marked(&mut stderr, "  \u{26a0} ", &result.warnings);
        assert(views(stderr@) =~= s1 + (if ev.len() > 0 {
            seq![""@]
        } else {
            Seq::empty()
        }) + seq!["Warnings:"@] + marked_lines("  \u{26a0} "@, wv));
    }
    let ghost s2 = views(stderr@);
    proof {
        assert(s2 =~= s1 + if wv.len() > 0 {
            (if ev.len() > 0 {
                seq![""@]
            } else {
                Seq::empty()
            }) + seq!["Warnings:"@] + marked_lines("  \u{26a0} "@, wv)
        } else {
            Seq::empty()
        });
    }
    if result.errors.len() > 0 {
        let mut l = String::from_str("\nConfiguration invalid: ");
        l.append(string_from_chars(decimal_chars(result.errors.len() as u128).as_slice()).as_str());
        l.append(" error(s), ");
        l.append(string_from_chars(decimal_chars(result.warnings.len() as u128).as_slice()).as_str());
        l.append(" warning(s).");
        stderr.push(l);
        proof {
            assert(views(stderr@) =~= report_stderr(ev, wv));
        }
        return ValidateReport { stdout, stderr, success: false };
    }
    proof {
        assert(views(stderr@) =~= report_stderr(ev, wv));
    }
    if result.warnings.len() > 0 {
        let mut l = String::from_str("\nConfiguration valid with ");
        l.append(string_from_chars(decimal_chars(result.warnings.len() as u128).as_slice()).as_str());
        l.append(" warning(s).");
        stdout.push(l);
    } else {
        stdout.push(String::from_str("Configuration valid. No errors or warnings."));
    }
    let ghost o1 = views(stdout@);
    let ps = &config.profiles;
    if ps.len() > 0 {
        let mut h = String::from_str("\nProfiles defined: ");
        h.append(string_from_chars(decimal_chars(ps.len() as u128).as_slice()).as_str());
        stdout.push(h);
        let ghost o2 = views(stdout@);
        let ghost lines = Seq::new(
            ps.spec_len(),
            |i: int| profile_line_text(ps.key_list()[i], ps.value_list()[i]),
        );
        let mut i: usize = 0;
        while i < ps.len()
            invariant
                i <= ps.spec_len(),
                lines == Seq::new(
                    ps.spec_len(),
                    |i: int| profile_line_text(ps.key_list()[i], ps.value_list()[i]),
                ),
                views(stdout@) == o2 + lines.take(i as int),
            decreases ps.spec_len() - i,
        {
            let (name, profile) = ps.entry_at(i);
            let l = profile_line(name.as_str(), profile);
            let ghost before = views(stdout@);
            stdout.push(l);
            proof {
                assert(views(stdout@) =~= before.push(lines[i as int]));
                assert(lines.take(i + 1) =~= lines.take(i as int).push(lines[i as int]));
            }
            i = i + 1;
        }
        proof {
            assert(lines.take(i as int) =~= lines);
        }
    }
    let ghost o3 = views(stdout@);
    proof {
        assert(o3 =~= o1 + (if ps.spec_len() > 0 {
            seq!["\nProfiles defined: "@ + decimal(ps.spec_len())] + Seq::new(
                ps.spec_len(),
                |i: int| profile_line_text(ps.key_list()[i], ps.value_list()[i]),
            )
        } else {
            Seq::empty()
        }));
    }
    if let Some(d) = &config.default_profile {
        let mut l = String::from_str("\nDefault profile: ");
        l.append(d.as_str());
        stdout.push(l);
        assert(views(stdout@) =~= o3 + seq!["\nDefault profile: "@ + d@]);
    } else {
        assert(views(stdout@) =~= o3 + Seq::<Seq<char>>::empty());
    }
    proof {
        assert(views(stdout@) =~= report_stdout(*config, wv));
    }
    ValidateReport { stdout, stderr, success: true }
}

} // verus!
