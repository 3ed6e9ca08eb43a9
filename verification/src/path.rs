//! Where a repository's workspaces live: a repository is named by its path
//! relative to the base repository directory, and each of its workspaces
//! sits under `{workspace_dir}/{git|jj}/{relative path}/{session}`.

use vstd::prelude::*;
use crate::config::Config;
use crate::named_map::{lemma_insert_get, NamedMap};
use crate::pathname::{
    components, is_absolute, join_parts_from, join_path, join_path_str, leads_with_cur_dir, part_views,
    lemma_lex_total, lemma_lex_trans, path_components, path_ends_with, path_ends_with_str, path_key, path_le,
    path_order_le, segments, strip_path_prefix, strip_path_prefix_str,
};
use crate::text::{join_with, string_from_chars};
use crate::text::chars_of;

verus! {

/// Type of workspace (git or jj).
#[derive(Debug, Clone, Copy, PartialEq, Eq, Structural, PartialOrd, Ord)]
pub enum WorkspaceType {
    Git,
    Jj,
}

/// The directory name used for a workspace type.
pub open spec fn workspace_type_name(t: WorkspaceType) -> Seq<char> {
    match t {
        WorkspaceType::Git => "git"@,
        WorkspaceType::Jj => "jj"@,
    }
}

impl WorkspaceType {
    /// The directory name used for this workspace type.
    pub fn as_str(&self) -> (r: &'static str)
        ensures
            r@ == workspace_type_name(*self),
    {
        match self {
            WorkspaceType::Git => {
                proof {
                    reveal_strlit("git");
                }
                "git"
            },
            WorkspaceType::Jj => {
                proof {
                    reveal_strlit("jj");
                }
                "jj"
            },
        }
    }
}

/// Status of a workspace's source repository.
#[derive(Debug, Clone, Copy, PartialEq, Eq, Structural)]
pub enum WorkspaceStatus {
    /// Source repo still exists at the reconstructed path.
    Healthy,
    /// Source repo was not found at the reconstructed path.
    Unresolved,
}

impl WorkspaceStatus {
    /// A human-readable label for this status.
    pub fn as_str(&self) -> (r: &'static str)
        ensures
            r@ == match *self {
                WorkspaceStatus::Healthy => "healthy"@,
                WorkspaceStatus::Unresolved => "unresolved"@,
            },
    {
        match self {
            WorkspaceStatus::Healthy => {
                proof {
                    reveal_strlit("healthy");
                }
                "healthy"
            },
            WorkspaceStatus::Unresolved => {
                proof {
                    reveal_strlit("unresolved");
                }
                "unresolved"
            },
        }
    }
}

/// Information about a git worktree.
#[derive(Debug, Clone)]
pub struct GitWorktreeInfo {
    pub path: String,
    pub id: Option<String>,
    pub is_main: bool,
    pub is_locked: bool,
}

/// Information about a jj workspace.
#[derive(Debug, Clone)]
pub struct JjWorkspaceInfo {
    pub name: String,
    pub commit_id: String,
    pub description: String,
    pub is_empty: bool,
}

/// A repository named by its path relative to a base directory, so that it
/// can be placed under different base directories (source repositories,
/// git workspaces, jj workspaces).
#[derive(Debug, Clone, PartialEq, Eq, PartialOrd, Ord)]
pub struct RepoIdentifier {
    /// The relative path from any base directory (e.g. `myproject` or `work/project`).
    pub relative_path: String,
}

/// Why a path operation failed.
#[derive(Debug, Clone)]
pub enum PathError {
    /// `path` does not lie under `base`.
    NotUnder { path: String, base: String },
    /// No directory is configured in which to look for repositories.
    NoDiscoveryDirs,
}

/// The guidance given when no discovery directory is configured.
pub open spec fn no_discovery_text() -> Seq<char> {
    "no repository discovery directories configured\n\nTo use the -r flag, add one of the following to your config:\n\n  repo_discovery_dirs = [\"~/repos\", \"~/work\"]\n\nor:\n\n  base_repo_dir = \"/home/user/repos\""@
}

impl PathError {
    /// The error as shown to a user.
    pub fn message(&self) -> (r: String)
        ensures
            r@ == match self {
                PathError::NotUnder { path, base } => "Path "@ + path@ + " is not under base directory "@
                    + base@,
                PathError::NoDiscoveryDirs => no_discovery_text(),
            },
    {
        match self {
            PathError::NotUnder { path, base } => {
                let mut r = String::from_str("Path ");
                r.append(path.as_str());
                r.append(" is not under base directory ");
                r.append(base.as_str());
                r
            },
            PathError::NoDiscoveryDirs => {
                let r = String::from_str(
                    "no repository discovery directories configured\n\nTo use the -r flag, add one of the following to your config:\n\n  repo_discovery_dirs = [\"~/repos\", \"~/work\"]\n\nor:\n\n  base_repo_dir = \"/home/user/repos\"",
                );
                r
            },
        }
    }
}

/// A path with no `..` segment and no leading `.` component: the form a
/// canonical path has.
pub open spec fn looks_canonical(p: Seq<char>) -> bool {
    !leads_with_cur_dir(p) && !segments(p).contains(".."@)
}

/// Whether a path has the form of a canonical path (see `looks_canonical`).
pub fn looks_canonical_path(p: &str) -> (b: bool)
    ensures
        b == looks_canonical(p@),
{
    let c = chars_of(p);
    let lead = (c.len() == 1 && c[0] == '.') || (c.len() >= 2 && c[0] == '.' && c[1] == '/');
    proof {
        if c@.len() == 1 && c@[0] == '.' {
            assert(c@ =~= seq!['.']);
        }
    }
    let pieces = crate::text::split_str(p, '/');
    let dots = String::from_str("..");
    !lead && !crate::text::contains_str(&pieces, dots.as_str())
}

/// The path `full` relative to `base_dir`, compared component by component.
pub fn calculate_relative_path(base_dir: &str, full_path: &str) -> (r: Result<String, PathError>)
    ensures
        match r {
            Ok(rel) => strip_path_prefix(base_dir@, full_path@) == Some(rel@),
            Err(e) => strip_path_prefix(base_dir@, full_path@) is None && (e matches PathError::NotUnder {
                path,
                base,
            } && path@ == full_path@ && base@ == base_dir@),
        },
{
    match strip_path_prefix_str(base_dir, full_path) {
        Some(rel) => Ok(rel),
        None => Err(PathError::NotUnder { path: full_path.to_string(), base: base_dir.to_string() }),
    }
}

/// A path as text. Paths are held as `String`, so the text is always valid.
pub fn path_to_str(path: &str) -> (r: &str)
    ensures
        r@ == path@,
{
    path
}

/// The directory of workspaces of one type for a repository:
/// `{workspace_dir}/{type}/{relative path}`.
pub open spec fn workspace_group_dir(config: Config, t: WorkspaceType, rel: Seq<char>) -> Seq<char> {
    join_path(join_path(config.workspace_dir@, workspace_type_name(t)), rel)
}

/// Whether a path names the root directory itself.
pub open spec fn is_root_path(p: Seq<char>) -> bool {
    is_absolute(p) && components(p).len() == 0
}

/// The repositories among `repos` whose relative path ends with `search`.
pub open spec fn matching_repos(repos: Seq<RepoIdentifier>, search: Seq<char>) -> Seq<RepoIdentifier> {
    repos.filter(|r: RepoIdentifier| path_ends_with(r.relative_path@, search))
}

impl RepoIdentifier {
    /// The identifier of a repository at `full_path` within the base
    /// repository directory. The path must be canonical.
    pub fn from_repo_path(config: &Config, full_path: &str) -> (r: Result<RepoIdentifier, PathError>)
        requires
            looks_canonical(full_path@),
        ensures
            match r {
                Ok(id) => strip_path_prefix(config.base_repo_dir@, full_path@) == Some(id.relative_path@),
                Err(e) => strip_path_prefix(config.base_repo_dir@, full_path@) is None
                    && (e matches PathError::NotUnder { path, base } && path@ == full_path@ && base@
                    == config.base_repo_dir@),
            },
    {
        match calculate_relative_path(config.base_repo_dir.as_str(), full_path) {
            Ok(relative_path) => Ok(RepoIdentifier { relative_path }),
            Err(e) => Err(e),
        }
    }

    /// The source repository's location in the base repository directory.
    pub fn source_path(&self, config: &Config) -> (r: String)
        ensures
            r@ == join_path(config.base_repo_dir@, self.relative_path@),
    {
        join_path_str(config.base_repo_dir.as_str(), self.relative_path.as_str())
    }

    /// The path of the git workspace for `session`.
    pub fn git_workspace_path(&self, config: &Config, session: &str) -> (r: String)
        ensures
            r@ == join_path(workspace_group_dir(*config, WorkspaceType::Git, self.relative_path@), session@),
    {
        let t = join_path_str(config.workspace_dir.as_str(), WorkspaceType::Git.as_str());
        let g = join_path_str(t.as_str(), self.relative_path.as_str());
        join_path_str(g.as_str(), session)
    }

    /// The path of the jj workspace for `session`.
    pub fn jj_workspace_path(&self, config: &Config, session: &str) -> (r: String)
        ensures
            r@ == join_path(workspace_group_dir(*config, WorkspaceType::Jj, self.relative_path@), session@),
    {
        let t = join_path_str(config.workspace_dir.as_str(), WorkspaceType::Jj.as_str());
        let g = join_path_str(t.as_str(), self.relative_path.as_str());
        join_path_str(g.as_str(), session)
    }

    /// The path of the workspace of type `wtype` for `session`.
    pub fn workspace_path(&self, config: &Config, wtype: WorkspaceType, session: &str) -> (r: String)
        ensures
            r@ == join_path(workspace_group_dir(*config, wtype, self.relative_path@), session@),
    {
        match wtype {
            WorkspaceType::Git => self.git_workspace_path(config, session),
            WorkspaceType::Jj => self.jj_workspace_path(config, session),
        }
    }

    /// The relative path.
    pub fn relative_path(&self) -> (r: &str)
        ensures
            r@ == self.relative_path@,
    {
        self.relative_path.as_str()
    }

    /// The repositories among those discovered whose relative path is
    /// `search` or ends with it, component by component (so `agent-box`
    /// and `fr/agent-box` both match `fr/agent-box`), in discovery order.
    pub fn find_matching(repos: &Vec<RepoIdentifier>, search: &str) -> (r: Vec<RepoIdentifier>)
        ensures
            r@ == matching_repos(repos@, search@),
    {
        let mut r: Vec<RepoIdentifier> = Vec::new();
        let mut i: usize = 0;
        while i < repos.len()
            invariant
                i <= repos@.len(),
                r@ == matching_repos(repos@.take(i as int), search@),
            decreases repos.len() - i,
        {
            let ghost before = repos@.take(i as int);
            proof {
                assert(repos@.take(i + 1).drop_last() =~= before);
                assert(repos@.take(i + 1).last() == repos@[i as int]);
                reveal(Seq::filter);
            }
            if path_ends_with_str(repos[i].relative_path.as_str(), search) {
                r.push(repos[i].clone_id());
            }
            i = i + 1;
        }
        proof {
            assert(repos@.take(i as int) =~= repos@);
        }
        r
    }

    /// A copy of this identifier.
    pub fn clone_id(&self) -> (r: RepoIdentifier)
        ensures
            r == *self,
    {
        RepoIdentifier { relative_path: self.relative_path.clone() }
    }

    /// The directory in which to look for repositories: the base repository
    /// directory when it was set in a configuration file and is not the root
    /// directory (which would mean scanning the whole file system).
    pub fn discovery_root(config: &Config) -> (r: Result<String, PathError>)
        ensures
            match r {
                Ok(dir) => config.base_repo_dir_explicit && !is_root_path(config.base_repo_dir@)
                    && dir@ == config.base_repo_dir@,
                Err(e) => !(config.base_repo_dir_explicit && !is_root_path(config.base_repo_dir@))
                    && e == PathError::NoDiscoveryDirs,
            },
    {
        let c = chars_of(config.base_repo_dir.as_str());
        let comps = path_components(c.as_slice());
        let root = c.len() > 0 && c[0] == '/' && comps.len() == 0;
        if config.base_repo_dir_explicit && !root {
            Ok(config.base_repo_dir.clone())
        } else {
            Err(PathError::NoDiscoveryDirs)
        }
    }

    /// The identifiers of repositories found at `canonical_paths` below
    /// `base_dir`, in order, and the paths that lie outside it (a symlinked
    /// repository may resolve elsewhere), in order.
    pub fn from_discovered(base_dir: &str, canonical_paths: &Vec<String>) -> (r: (
        Vec<RepoIdentifier>,
        Vec<String>,
    ))
        ensures
            r.0@.map_values(|id: RepoIdentifier| id.relative_path@) == discovered_under(
                base_dir@,
                canonical_paths@.map_values(|s: String| s@),
            ),
            r.1@.map_values(|s: String| s@) == canonical_paths@.map_values(|s: String| s@).filter(
                |p: Seq<char>| strip_path_prefix(base_dir@, p) is None,
            ),
    {
        let ghost ps = canonical_paths@.map_values(|s: String| s@);
        let mut found: Vec<RepoIdentifier> = Vec::new();
        let mut outside: Vec<String> = Vec::new();
        let mut i: usize = 0;
        while i < canonical_paths.len()
            invariant
                i <= canonical_paths@.len(),
                ps == canonical_paths@.map_values(|s: String| s@),
                found@.map_values(|id: RepoIdentifier| id.relative_path@) == discovered_under(
                    base_dir@,
                    ps.take(i as int),
                ),
                outside@.map_values(|s: String| s@) == ps.take(i as int).filter(
                    |p: Seq<char>| strip_path_prefix(base_dir@, p) is None,
                ),
            decreases canonical_paths.len() - i,
        {
            let ghost f0 = found@.map_values(|id: RepoIdentifier| id.relative_path@);
            let ghost o0 = outside@.map_values(|s: String| s@);
            proof {
                assert(ps.take(i + 1).drop_last() =~= ps.take(i as int));
                assert(ps.take(i + 1).last() == canonical_paths@[i as int]@);
                reveal(Seq::filter);
            }
            match strip_path_prefix_str(base_dir, canonical_paths[i].as_str()) {
                Some(rel) => {
                    found.push(RepoIdentifier { relative_path: rel });
                    proof {
                        assert(found@.map_values(|id: RepoIdentifier| id.relative_path@) =~= f0.push(
                            found@.last().relative_path@,
                        ));
                    }
                },
                None => {
                    outside.push(canonical_paths[i].clone());
                    proof {
                        assert(outside@.map_values(|s: String| s@) =~= o0.push(canonical_paths@[i as int]@));
                    }
                },
            }
            i = i + 1;
        }
        proof {
            assert(ps.take(i as int) =~= ps);
        }
        (found, outside)
    }
}

/// The relative paths of those of `paths` that lie below `base`, in order.
pub open spec fn discovered_under(base: Seq<char>, paths: Seq<Seq<char>>) -> Seq<Seq<char>>
    decreases paths.len(),
{
    if paths.len() == 0 {
        Seq::empty()
    } else {
        discovered_under(base, paths.drop_last()) + match strip_path_prefix(base, paths.last()) {
            Some(rel) => seq![rel],
            None => Seq::empty(),
        }
    }
}

/// A discovered workspace group: one repository's sessions of one type.
#[derive(Debug, Clone)]
pub struct WorkspaceInfo {
    /// Full reconstructed source repo path.
    pub source_path: String,
    /// Type of workspace (git or jj).
    pub workspace_type: WorkspaceType,
    /// Number of session directories found.
    pub session_count: usize,
    /// Whether the source repo still exists.
    pub status: WorkspaceStatus,
    /// The relative path from the workspace type directory.
    pub relative_path: String,
}

impl WorkspaceInfo {
    /// The on-disk directory of this workspace group:
    /// `{workspace_dir}/{type}/{relative path}`.
    pub fn workspace_dir(&self, config: &Config) -> (r: String)
        ensures
            r@ == workspace_group_dir(*config, self.workspace_type, self.relative_path@),
    {
        let t = join_path_str(config.workspace_dir.as_str(), self.workspace_type.as_str());
        join_path_str(t.as_str(), self.relative_path.as_str())
    }
}

/// The parent of a path (`Path::parent`): the path without its last
/// component, or none when it has no component.
pub open spec fn parent_path(p: Seq<char>) -> Option<Seq<char>> {
    let c = components(p);
    if c.len() == 0 {
        None
    } else {
        let rest = join_with(c.drop_last(), seq!['/']);
        Some(
            if is_absolute(p) {
                seq!['/'] + rest
            } else {
                rest
            },
        )
    }
}

/// The last component of a path when it names an entry (`Path::file_name`):
/// not `.` and not `..`.
pub open spec fn file_name(p: Seq<char>) -> Option<Seq<char>> {
    let c = components(p);
    if c.len() == 0 || c.last() == seq!['.'] || c.last() == ".."@ {
        None
    } else {
        Some(c.last())
    }
}

/// The parent of a path (see `parent_path`).
pub fn parent_of(p: &str) -> (r: Option<String>)
    ensures
        match r {
            Some(q) => parent_path(p@) == Some(q@),
            None => parent_path(p@) is None,
        },
{
    let c = crate::text::chars_of(p);
    let comps = path_components(c.as_slice());
    if comps.len() == 0 {
        return None;
    }
    let mut init: Vec<Vec<char>> = Vec::new();
    let mut i: usize = 0;
    while i + 1 < comps.len()
        invariant
            i < comps@.len(),
            part_views(init@) == part_views(comps@).take(i as int),
        decreases comps.len() - i,
    {
        let ghost before = part_views(init@);
        init.push(comps[i].clone());
        proof {
            assert(part_views(init@) =~= before.push(comps@[i as int]@));
            assert(part_views(comps@).take(i + 1) =~= part_views(comps@).take(i as int).push(
                comps@[i as int]@,
            ));
        }
        i = i + 1;
    }
    let rest = join_parts_from(&init, 0, '/');
    proof {
        assert(part_views(init@).skip(0) =~= part_views(init@));
        assert(part_views(comps@).take(i as int) =~= part_views(comps@).drop_last());
    }
    if c.len() > 0 && c[0] == '/' {
        let mut out: Vec<char> = Vec::new();
        out.push('/');
        crate::text::push_all(&mut out, rest.as_slice());
        Some(string_from_chars(out.as_slice()))
    } else {
        Some(string_from_chars(rest.as_slice()))
    }
}

/// The entry name of a path (see `file_name`).
pub fn file_name_of(p: &str) -> (r: Option<String>)
    ensures
        match r {
            Some(q) => file_name(p@) == Some(q@),
            None => file_name(p@) is None,
        },
{
    let c = crate::text::chars_of(p);
    let comps = path_components(c.as_slice());
    if comps.len() == 0 {
        return None;
    }
    let last = &comps[comps.len() - 1];
    let dot = last.len() == 1 && last[0] == '.';
    let dotdot = last.len() == 2 && last[0] == '.' && last[1] == '.';
    proof {
        let l = part_views(comps@).last();
        assert(l == last@);
        if last@.len() == 1 && last@[0] == '.' {
            assert(last@ =~= seq!['.']);
        }
        if last@.len() == 2 && last@[0] == '.' && last@[1] == '.' {
            assert(last@ =~= ".."@) by {
                reveal_strlit("..");
            }
        }
        if l == seq!['.'] {
            assert(last@[0] == '.');
        }
        if l == ".."@ {
            reveal_strlit("..");
            assert(last@[0] == '.' && last@[1] == '.');
        }
    }
    if dot || dotdot {
        None
    } else {
        Some(string_from_chars(last.as_slice()))
    }
}

/// What the workspace scan does at a directory entry below a workspace type
/// directory.
#[derive(Debug, Clone, Copy, PartialEq, Eq, Structural)]
pub enum ScanAction {
    /// Look inside it.
    Descend,
    /// Pass over it and all below it.
    SkipSubtree,
    /// It is a session: count it for its parent, and pass over all below it.
    Session,
    /// Pass over it (it is the type directory itself, or not a directory).
    Pass,
}

/// What the scan does at `path` below `type_dir`: the type directory itself
/// and entries that are not directories are passed over; `.git` and `.jj`
/// directories are not entered; for git, a directory with a `.git` file is
/// a session (a linked worktree) and one with a `.git` directory (a full
/// repository) is not entered; for jj, a directory with
/// `.jj/working_copy` is a session; any other directory is entered.
pub open spec fn scan_action_of(
    wtype: WorkspaceType,
    type_dir: Seq<char>,
    path: Seq<char>,
    is_dir: bool,
    git_file: bool,
    git_dir: bool,
    jj_working_copy: bool,
) -> ScanAction {
    if is_absolute(path) == is_absolute(type_dir) && components(path) == components(type_dir) {
        ScanAction::Pass
    } else if !is_dir {
        ScanAction::Pass
    } else if file_name(path) == Some(".git"@) || file_name(path) == Some(".jj"@) {
        ScanAction::SkipSubtree
    } else if wtype == WorkspaceType::Git && git_file {
        ScanAction::Session
    } else if wtype == WorkspaceType::Git && git_dir {
        ScanAction::SkipSubtree
    } else if wtype == WorkspaceType::Jj && jj_working_copy {
        ScanAction::Session
    } else {
        ScanAction::Descend
    }
}

/// What the scan does at an entry (see `scan_action_of`), given what the
/// file system shows of it.
pub fn scan_action(
    wtype: WorkspaceType,
    type_dir: &str,
    path: &str,
    is_dir: bool,
    git_file: bool,
    git_dir: bool,
    jj_working_copy: bool,
) -> (r: ScanAction)
    ensures
        r == scan_action_of(wtype, type_dir@, path@, is_dir, git_file, git_dir, jj_working_copy),
{
    let pc = crate::text::chars_of(path);
    let tc = crate::text::chars_of(type_dir);
    let pa = pc.len() > 0 && pc[0] == '/';
    let ta = tc.len() > 0 && tc[0] == '/';
    let same = pa == ta && same_components(pc.as_slice(), tc.as_slice());
    if same || !is_dir {
        return ScanAction::Pass;
    }
    let git_name = String::from_str(".git");
    let jj_name = String::from_str(".jj");
    let name = file_name_of(path);
    let special = match &name {
        Some(n) => crate::text::str_eq(n.as_str(), git_name.as_str()) || crate::text::str_eq(
            n.as_str(),
            jj_name.as_str(),
        ),
        None => false,
    };
    if special {
        return ScanAction::SkipSubtree;
    }
    match wtype {
        WorkspaceType::Git => {
            if git_file {
                ScanAction::Session
            } else if git_dir {
                ScanAction::SkipSubtree
            } else {
                ScanAction::Descend
            }
        },
        WorkspaceType::Jj => {
            if jj_working_copy {
                ScanAction::Session
            } else {
                ScanAction::Descend
            }
        },
    }
}

fn same_components(a: &[char], b: &[char]) -> (r: bool)
    ensures
        r == (components(a@) == components(b@)),
{
    let x = path_components(a);
    let y = path_components(b);
    if x.len() != y.len() {
        assert(part_views(x@).len() != part_views(y@).len());
        return false;
    }
    let mut i: usize = 0;
    while i < x.len()
        invariant
            i <= x@.len(),
            x@.len() == y@.len(),
            part_views(x@) == components(a@),
            part_views(y@) == components(b@),
            forall|j: int| 0 <= j < i ==> x@[j]@ == y@[j]@,
        decreases x.len() - i,
    {
        if !crate::text::slice_eq(x[i].as_slice(), y[i].as_slice()) {
            assert(part_views(x@)[i as int] != part_views(y@)[i as int]);
            return false;
        }
        i = i + 1;
    }
    assert(part_views(x@) =~= part_views(y@));
    true
}

/// The repository a session directory belongs to: its parent, relative to
/// the type directory.
pub open spec fn session_repo(type_dir: Seq<char>, session_dir: Seq<char>) -> Option<Seq<char>> {
    match parent_path(session_dir) {
        Some(parent) => strip_path_prefix(type_dir, parent),
        None => None,
    }
}

/// The number of sessions counted for a repository.
pub open spec fn count_of(counts: NamedMap<usize>, rel: Seq<char>) -> nat {
    match counts.spec_get(rel) {
        Some(n) => n as nat,
        None => 0,
    }
}

/// Count the session at `session_dir` for its repository (see
/// `session_repo`); a session whose parent is not below the type directory
/// is not counted.
pub fn record_session(counts: &mut NamedMap<usize>, type_dir: &str, session_dir: &str)
    requires
        count_of(*old(counts), session_repo(type_dir@, session_dir@).unwrap_or(Seq::empty())) < usize::MAX,
    ensures
        match session_repo(type_dir@, session_dir@) {
            Some(rel) => count_of(*final(counts), rel) == count_of(*old(counts), rel) + 1 && forall|k: Seq<char>|
                k != rel ==> #[trigger] final(counts).spec_get(k) == old(counts).spec_get(k),
            None => *final(counts) == *old(counts),
        },
{
    let parent = match parent_of(session_dir) {
        Some(p) => p,
        None => return,
    };
    let rel = match strip_path_prefix_str(type_dir, parent.as_str()) {
        Some(r) => r,
        None => return,
    };
    let n: usize = match counts.get(rel.as_str()) {
        Some(c) => *c,
        None => 0,
    };
    let ghost before = *counts;
    let ghost relv = rel@;
    let m: usize = n + 1;
    counts.insert(rel, m);
    proof {
        assert forall|k: Seq<char>| k != relv implies #[trigger] counts.spec_get(k) == before.spec_get(k) by {
            lemma_insert_get(before, *counts, relv, m, k);
        }
        lemma_insert_get(before, *counts, relv, m, relv);
    }
}

/// Counted repositories in path order (as `Path` orders them, see
/// `path_le`): the same entries, each path no later than the ones after it.
pub fn sort_groups(groups: Vec<(String, usize)>) -> (r: Vec<(String, usize)>)
    ensures
        r@.to_multiset() == groups@.to_multiset(),
        forall|i: int, j: int| 0 <= i < j < r@.len() ==> path_le(#[trigger] r@[i].0@, #[trigger] r@[j].0@),
{
    broadcast use vstd::multiset::group_multiset_axioms;
    let mut rest = groups;
    let mut r: Vec<(String, usize)> = Vec::new();
    proof {
        vstd::seq_lib::to_multiset_len(r@);
        vstd::multiset::lemma_multiset_empty_len(r@.to_multiset());
        assert(r@.to_multiset() =~= vstd::multiset::Multiset::<(String, usize)>::empty());
        assert(r@.to_multiset().add(rest@.to_multiset()) =~= groups@.to_multiset());
    }
    while rest.len() > 0
        invariant
            r@.to_multiset().add(rest@.to_multiset()) == groups@.to_multiset(),
            forall|i: int, j: int| 0 <= i < j < r@.len() ==> path_le(#[trigger] r@[i].0@, #[trigger] r@[j].0@),
        decreases rest.len(),
    {
        let ghost old_rest = rest@;
        let x = rest.pop().unwrap();
        proof {
            assert(old_rest =~= rest@.push(x));
            vstd::seq_lib::to_multiset_build(rest@, x);
        }
        let mut p: usize = 0;
        while p < r.len() && path_order_le(r[p].0.as_str(), x.0.as_str())
            invariant
                p <= r@.len(),
                forall|k: int| 0 <= k < p ==> path_le(#[trigger] r@[k].0@, x.0@),
            decreases r.len() - p,
        {
            p = p + 1;
        }
        proof {
            if p < r@.len() {
                lemma_lex_total(path_key(r@[p as int].0@), path_key(x.0@));
                assert(path_le(x.0@, r@[p as int].0@));
                assert forall|j: int| p <= j < r@.len() implies path_le(x.0@, #[trigger] r@[j].0@) by {
                    if j > p {
                        assert(path_le(r@[p as int].0@, r@[j].0@));
                        lemma_lex_trans(path_key(x.0@), path_key(r@[p as int].0@), path_key(r@[j].0@));
                    }
                }
            }
        }
        let ghost old_r = r@;
        r.insert(p, x);
        proof {
            vstd::seq_lib::to_multiset_insert(old_r, p as int, x);
            assert(r@ == old_r.insert(p as int, x));
            assert(r@.to_multiset().add(rest@.to_multiset()) =~= old_r.to_multiset().add(old_rest.to_multiset()));
            assert forall|i: int, j: int| 0 <= i < j < r@.len() implies path_le(
                #[trigger] r@[i].0@,
                #[trigger] r@[j].0@,
            ) by {
                if j < p {
                    assert(r@[i] == old_r[i] && r@[j] == old_r[j]);
                } else if j == p {
                    assert(r@[i] == old_r[i]);
                } else if i < p {
                    assert(r@[i] == old_r[i] && r@[j] == old_r[j - 1]);
                    assert(path_le(old_r[i].0@, x.0@));
                    assert(path_le(x.0@, old_r[j - 1].0@));
                    lemma_lex_trans(path_key(old_r[i].0@), path_key(x.0@), path_key(old_r[j - 1].0@));
                } else if i == p {
                    assert(r@[j] == old_r[j - 1]);
                } else {
                    assert(r@[i] == old_r[i - 1] && r@[j] == old_r[j - 1]);
                }
            }
        }
    }
    proof {
        vstd::seq_lib::to_multiset_len(rest@);
        vstd::multiset::lemma_multiset_empty_len(rest@.to_multiset());
        assert(rest@.to_multiset() =~= vstd::multiset::Multiset::<(String, usize)>::empty());
        assert(r@.to_multiset() =~= r@.to_multiset().add(rest@.to_multiset()));
    }
    r
}

/// The workspace group of repository `rel` with `session_count` sessions of
/// type `wtype`; its source repository, in the base repository directory,
/// is healthy when it is a directory.
pub fn workspace_info(
    config: &Config,
    wtype: WorkspaceType,
    rel: &str,
    session_count: usize,
    source_is_dir: bool,
) -> (r: WorkspaceInfo)
    ensures
        r.source_path@ == join_path(config.base_repo_dir@, rel@),
        r.workspace_type == wtype,
        r.session_count == session_count,
        r.status == if source_is_dir {
            WorkspaceStatus::Healthy
        } else {
            WorkspaceStatus::Unresolved
        },
        r.relative_path@ == rel@,
{
    WorkspaceInfo {
        source_path: join_path_str(config.base_repo_dir.as_str(), rel),
        workspace_type: wtype,
        session_count,
        status: if source_is_dir {
            WorkspaceStatus::Healthy
        } else {
            WorkspaceStatus::Unresolved
        },
        relative_path: rel.to_string(),
    }
}

/// A path whose first component is `~` with its home directory put in its
/// place (`~/x` under home `/h` is `/h/x`); any other path as it is.
pub open spec fn tilde_expanded(path: Seq<char>, home: Seq<char>) -> Seq<char> {
    let c = components(path);
    if !is_absolute(path) && c.len() > 0 && c[0] == seq!['~'] {
        join_path(home, join_with(c.skip(1), seq!['/']))
    } else {
        path
    }
}

/// Put the home directory in place of a leading `~` component (see
/// `tilde_expanded`).
pub fn expand_tilde(path: &str, home: &str) -> (r: String)
    ensures
        r@ == tilde_expanded(path@, home@),
{
    let c = crate::text::chars_of(path);
    let comps = path_components(c.as_slice());
    let abs = c.len() > 0 && c[0] == '/';
    if !abs && comps.len() > 0 && comps[0].len() == 1 && comps[0][0] == '~' {
        proof {
            assert(part_views(comps@)[0] == comps@[0]@);
            assert(comps@[0]@ =~= seq!['~']);
        }
        let rest = join_parts_from(&comps, 1, '/');
        let rest_s = string_from_chars(rest.as_slice());
        return join_path_str(home, rest_s.as_str());
    }
    proof {
        if !abs && comps@.len() > 0 && part_views(comps@)[0] == seq!['~'] {
            assert(comps@[0]@ == seq!['~']);
            assert(comps@[0]@.len() == 1);
            assert(comps@[0]@[0] == '~');
        }
    }
    path.to_string()
}

impl JjWorkspaceInfo {
    /// A jj workspace's entry: its name, the first eight digits of its
    /// working-copy commit id (in hex), the commit's description trimmed, and
    /// whether the commit is empty.
    pub fn from_commit(name: &str, commit_hex: &str, description: &str, is_empty: bool) -> (r:
        JjWorkspaceInfo)
        requires
            commit_hex@.len() >= 8,
        ensures
            r.name@ == name@,
            r.commit_id@ == commit_hex@.take(8),
            r.description@ == crate::text::trim(description@),
            r.is_empty == is_empty,
    {
        let hex = crate::text::chars_of(commit_hex);
        let short = crate::text::chars_between(hex.as_slice(), 0, 8);
        assert(short@ =~= commit_hex@.take(8));
        JjWorkspaceInfo {
            name: name.to_string(),
            commit_id: string_from_chars(short.as_slice()),
            description: crate::text::trim_str(description),
            is_empty,
        }
    }
}

/// A repository's source path, rebuilt from the identifier taken from its
/// path in the base repository directory, is that path again: rooted
/// exactly when it is, and component by component.
pub proof fn law_source_path_round_trip(config: Config, full: Seq<char>, id: RepoIdentifier)
    requires
        strip_path_prefix(config.base_repo_dir@, full) == Some(id.relative_path@),
    ensures
        is_absolute(join_path(config.base_repo_dir@, id.relative_path@)) == is_absolute(full),
        components(join_path(config.base_repo_dir@, id.relative_path@)) == components(full),
{
    crate::pathname::law_strip_then_join(config.base_repo_dir@, full, id.relative_path@);
}

/// Whether the discovery walk enters `path` below `base_dir`: the base
/// itself always; `.git` and `.jj` directories never; nor anything whose
/// parent (other than the base) is a repository.
pub open spec fn discovery_admits_spec(base_dir: Seq<char>, path: Seq<char>, parent_is_repo: bool) -> bool {
    if is_absolute(path) == is_absolute(base_dir) && components(path) == components(base_dir) {
        true
    } else if file_name(path) == Some(".git"@) || file_name(path) == Some(".jj"@) {
        false
    } else {
        match parent_path(path) {
            Some(parent) => !(parent_is_repo && !(is_absolute(parent) == is_absolute(base_dir) && components(
                parent,
            ) == components(base_dir))),
            None => true,
        }
    }
}

/// Whether the discovery walk enters `path` (see `discovery_admits_spec`);
/// `parent_is_repo` tells whether its parent holds `.git` or `.jj`.
pub fn discovery_admits(base_dir: &str, path: &str, parent_is_repo: bool) -> (b: bool)
    ensures
        b == discovery_admits_spec(base_dir@, path@, parent_is_repo),
{
    let bc = crate::text::chars_of(base_dir);
    let pc = crate::text::chars_of(path);
    let babs = bc.len() > 0 && bc[0] == '/';
    let pabs = pc.len() > 0 && pc[0] == '/';
    if pabs == babs && same_components(pc.as_slice(), bc.as_slice()) {
        return true;
    }
    let git_name = String::from_str(".git");
    let jj_name = String::from_str(".jj");
    let special = match file_name_of(path) {
        Some(n) => crate::text::str_eq(n.as_str(), git_name.as_str()) || crate::text::str_eq(
            n.as_str(),
            jj_name.as_str(),
        ),
        None => false,
    };
    if special {
        return false;
    }
    match parent_of(path) {
        Some(parent) => {
            let qc = crate::text::chars_of(parent.as_str());
            let qabs = qc.len() > 0 && qc[0] == '/';
            let parent_is_base = qabs == babs && same_components(qc.as_slice(), bc.as_slice());
            !(parent_is_repo && !parent_is_base)
        },
        None => true,
    }
}

/// The workspace of a session lies inside its group directory, which lies
/// inside the workspace directory, below the type and the repository's
/// relative path — for an absolute workspace directory and a relative path
/// and session name that are not absolute themselves.
pub proof fn law_workspace_inside_group(config: Config, t: WorkspaceType, rel: Seq<char>, session: Seq<char>)
    requires
        is_absolute(config.workspace_dir@),
        !is_absolute(rel),
        !is_absolute(session),
    ensures
        components(workspace_group_dir(config, t, rel)) == crate::pathname::parts(config.workspace_dir@)
            + seq![workspace_type_name(t)] + crate::pathname::parts(rel),
        strip_path_prefix(
            workspace_group_dir(config, t, rel),
            join_path(workspace_group_dir(config, t, rel), session),
        ) == Some(join_with(crate::pathname::parts(session), seq!['/'])),
{
    let ws = config.workspace_dir@;
    let tn = workspace_type_name(t);
    let a = join_path(ws, tn);
    reveal_strlit("git");
    reveal_strlit("jj");
    assert(tn.len() > 0 && tn[0] != '/' && tn[0] != '.');
    crate::pathname::lemma_parts_of_join_path(ws, tn);
    assert(a[0] == '/');
    crate::pathname::lemma_parts_of_join_path(a, rel);
    let g = join_path(a, rel);
    assert(g[0] == '/');
    crate::pathname::lemma_parts_of_join_path(g, session);
    let p = join_path(g, session);
    assert(p[0] == '/');
    assert(!leads_with_cur_dir(ws) && !leads_with_cur_dir(g) && !leads_with_cur_dir(p));
    crate::text::lemma_split_on_nonempty(tn, '/');
    assert(!tn.contains('/'));
    crate::pathname::lemma_split_single(tn, '/');
    crate::pathname::lemma_normal_single(tn);
    assert(crate::pathname::parts(tn) == seq![tn]);
    let gp = crate::pathname::parts(g);
    let pp = crate::pathname::parts(p);
    let sp = crate::pathname::parts(session);
    assert(pp == gp + sp);
    assert(pp.take(gp.len() as int) =~= gp);
    assert(pp.skip(gp.len() as int) =~= sp);
}


/// How many of the repositories have a relative path ending with `search`.
pub open spec fn count_ending_with(repos: Seq<RepoIdentifier>, search: Seq<char>) -> nat
    decreases repos.len(),
{
    if repos.len() == 0 {
        0
    } else {
        count_ending_with(repos.drop_last(), search) + if path_ends_with(repos.last().relative_path@, search) {
            1nat
        } else {
            0nat
        }
    }
}

/// The repositories matching a search are all those whose relative path
/// ends with it, component by component, and only those: every matching
/// repository is found (so several matches stay several, and the user is
/// asked to choose), none that does not match is, and each is found once
/// for each time it was discovered.
pub proof fn law_find_matching_complete(repos: Seq<RepoIdentifier>, search: Seq<char>)
    ensures
        forall|i: int|
            0 <= i < repos.len() && path_ends_with(repos[i].relative_path@, search)
                ==> #[trigger] matching_repos(repos, search).contains(repos[i]),
        forall|r: RepoIdentifier|
            #[trigger] matching_repos(repos, search).contains(r) ==> repos.contains(r) && path_ends_with(
                r.relative_path@,
                search,
            ),
        matching_repos(repos, search).len() == count_ending_with(repos, search),
    decreases repos.len(),
{
    broadcast use vstd::seq_lib::group_filter_ensures;
    let pred = |r: RepoIdentifier| path_ends_with(r.relative_path@, search);
    assert forall|i: int|
        0 <= i < repos.len() && path_ends_with(repos[i].relative_path@, search)
            implies #[trigger] matching_repos(repos, search).contains(repos[i]) by {
        repos.lemma_filter_contains(pred, i);
    }
    assert forall|r: RepoIdentifier| #[trigger] matching_repos(repos, search).contains(r) implies repos.contains(r)
        && path_ends_with(r.relative_path@, search) by {
        repos.lemma_filter_contains_rev(pred, r);
        let k = choose|k: int| 0 <= k < repos.filter(pred).len() && repos.filter(pred)[k] == r;
        repos.lemma_filter_pred(pred, k);
    }
    if repos.len() > 0 {
        law_find_matching_complete(repos.drop_last(), search);
        reveal(Seq::filter);
        assert(repos.filter(pred).len() == repos.drop_last().filter(pred).len() + if pred(repos.last()) {
            1int
        } else {
            0int
        });
    } else {
        reveal(Seq::filter);
    }
}

} // verus!
