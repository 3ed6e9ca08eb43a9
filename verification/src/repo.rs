//! Choosing a repository and naming and placing its workspaces.

use vstd::prelude::*;
use crate::config::Config;
use crate::path::{workspace_group_dir, RepoIdentifier, WorkspaceType};
use crate::pathname::join_path_str;
use crate::text::{chars_of, is_white_space, is_white_space_char, trim, trim_str, views};

verus! {

/// What locating a repository came to.
#[derive(Debug, Clone)]
pub enum Located {
    /// Exactly one repository matched.
    Found(RepoIdentifier),
    /// None matched; the text says so.
    NotFound(String),
    /// Several matched: ask the user to pick one of `options` (their
    /// relative paths, in order) under `prompt`.
    Choose { prompt: String, options: Vec<String>, repos: Vec<RepoIdentifier> },
}

/// The text when no repository matches.
pub open spec fn not_found_text(search: Option<Seq<char>>) -> Seq<char> {
    match search {
        Some(s) => "Could not find repository matching '"@ + s + "'"@,
        None => "Could not find repository"@,
    }
}

/// The question asked when several repositories match.
pub open spec fn choose_prompt_text(search: Option<Seq<char>>) -> Seq<char> {
    match search {
        Some(s) => "Multiple repositories match '"@ + s + "'. Select one:"@,
        None => "Select a repository:"@,
    }
}

/// The relative paths of repositories, in order.
pub open spec fn relative_paths(repos: Seq<RepoIdentifier>) -> Seq<Seq<char>> {
    repos.map_values(|r: RepoIdentifier| r.relative_path@)
}

/// Locate a repository among the `matches` found for `search` (or among
/// all discovered repositories when there is no search): the one match, or
/// a question to the user when there are several, or an error when there
/// is none.
pub fn locate_repo(matches: Vec<RepoIdentifier>, search: Option<&str>) -> (r: Located)
    ensures
        ({
            let sv = match search {
                Some(s) => Some(s@),
                None => None,
            };
            if matches@.len() == 0 {
                r matches Located::NotFound(t) && t@ == not_found_text(sv)
            } else if matches@.len() == 1 {
                r == Located::Found(matches@[0])
            } else {
                r matches Located::Choose { prompt, options, repos } && prompt@ == choose_prompt_text(sv)
                    && views(options@) == relative_paths(matches@) && repos == matches
            }
        }),
{
    if matches.len() == 0 {
        let t = match search {
            Some(s) => {
                let mut t = String::from_str("Could not find repository matching '");
                t.append(s);
                t.append("'");
                t
            },
            None => String::from_str("Could not find repository"),
        };
        return Located::NotFound(t);
    }
    if matches.len() == 1 {
        let mut m = matches;
        let only = m.remove(0);
        return Located::Found(only);
    }
    let prompt = match search {
        Some(s) => {
            let mut t = String::from_str("Multiple repositories match '");
            t.append(s);
            t.append("'. Select one:");
            t
        },
        None => String::from_str("Select a repository:"),
    };
    let mut options: Vec<String> = Vec::new();
    let mut i: usize = 0;
    while i < matches.len()
        invariant
            i <= matches@.len(),
            views(options@) == relative_paths(matches@).take(i as int),
        decreases matches.len() - i,
    {
        let ghost before = views(options@);
        options.push(matches[i].relative_path.clone());
        proof {
            assert(views(options@) =~= before.push(matches@[i as int].relative_path@));
            assert(relative_paths(matches@).take(i + 1) =~= relative_paths(matches@).take(i as int).push(
                matches@[i as int].relative_path@,
            ));
        }
        i = i + 1;
    }
    proof {
        assert(relative_paths(matches@).take(i as int) =~= relative_paths(matches@));
    }
    Located::Choose { prompt, options, repos: matches }
}

/// The first repository whose relative path is the option the user picked.
pub open spec fn picked(repos: Seq<RepoIdentifier>, selected: Seq<char>) -> Option<int> {
    crate::text::first_index(relative_paths(repos), selected)
}

/// The repository the user picked from the options of `Located::Choose`.
pub fn pick_selected(repos: Vec<RepoIdentifier>, selected: &str) -> (r: Result<RepoIdentifier, String>)
    ensures
        match picked(repos@, selected@) {
            Some(i) => r == Ok::<RepoIdentifier, String>(repos@[i]),
            None => r matches Err(e) && e@ == "Selected repository not found"@,
        },
{
    let ghost rp = relative_paths(repos@);
    proof {
        crate::text::lemma_first_index(rp, selected@);
    }
    let mut i: usize = 0;
    while i < repos.len()
        invariant
            i <= repos@.len(),
            rp == relative_paths(repos@),
            forall|j: int| 0 <= j < i ==> rp[j] != selected@,
        decreases repos.len() - i,
    {
        if crate::text::str_eq(repos[i].relative_path.as_str(), selected) {
            proof {
                assert(rp[i as int] == selected@);
                crate::text::lemma_first_index(rp, selected@);
                let f = picked(repos@, selected@).unwrap();
                if f < i {
                    assert(rp[f] != selected@);
                }
                if f > i {
                    assert(rp[i as int] != selected@);
                }
            }
            let mut rs = repos;
            let found = rs.remove(i);
            return Ok(found);
        }
        i = i + 1;
    }
    proof {
        if rp.contains(selected@) {
            let j = choose|j: int| 0 <= j < rp.len() && rp[j] == selected@;
            assert(rp[j] == selected@);
        }
    }
    Err(String::from_str("Selected repository not found"))
}

/// Whether some character of `s` is white space.
pub open spec fn has_white_space(s: Seq<char>) -> bool {
    exists|i: int| 0 <= i < s.len() && is_white_space(#[trigger] s[i])
}

fn contains_white_space(s: &str) -> (b: bool)
    ensures
        b == has_white_space(s@),
{
    let c = chars_of(s);
    let mut i: usize = 0;
    while i < c.len()
        invariant
            i <= c@.len(),
            c@ == s@,
            forall|j: int| 0 <= j < i ==> !is_white_space(#[trigger] c@[j]),
        decreases c.len() - i,
    {
        if is_white_space_char(c[i]) {
            return true;
        }
        i = i + 1;
    }
    false
}

/// A session name given as an argument: trimmed, it must contain no white
/// space and not be empty.
pub fn validate_session_name(name: &str) -> (r: Result<String, String>)
    ensures
        match r {
            Ok(s) => s@ == trim(name@) && !has_white_space(trim(name@)) && trim(name@).len() > 0,
            Err(e) => if has_white_space(trim(name@)) {
                e@ == "Session name cannot contain whitespace: '"@ + name@ + "'"@
            } else {
                trim(name@).len() == 0 && e@ == "Session name cannot be empty"@
            },
        },
{
    let trimmed = trim_str(name);
    if contains_white_space(trimmed.as_str()) {
        let mut e = String::from_str("Session name cannot contain whitespace: '");
        e.append(name);
        e.append("'");
        return Err(e);
    }
    if trimmed.as_str().unicode_len() == 0 {
        return Err(String::from_str("Session name cannot be empty"));
    }
    Ok(trimmed)
}

/// What is wrong with a session name typed at the prompt, if anything:
/// trimmed, it must not be empty and must contain no white space.
pub fn session_input_problem(input: &str) -> (r: Option<String>)
    ensures
        match r {
            Some(e) => if trim(input@).len() == 0 {
                e@ == "Session name cannot be empty"@
            } else {
                has_white_space(trim(input@)) && e@ == "Session name cannot contain spaces"@
            },
            None => trim(input@).len() > 0 && !has_white_space(trim(input@)),
        },
{
    let trimmed = trim_str(input);
    if trimmed.as_str().unicode_len() == 0 {
        return Some(String::from_str("Session name cannot be empty"));
    }
    if contains_white_space(trimmed.as_str()) {
        return Some(String::from_str("Session name cannot contain spaces"));
    }
    None
}

/// The directories removed with a repository's workspaces, each with its
/// label: its git worktrees, then its jj workspaces.
pub fn removal_targets(config: &Config, repo_id: &RepoIdentifier) -> (r: Vec<(String, String)>)
    ensures
        r@.len() == 2,
        r@[0].0@ == "Git worktrees"@,
        r@[0].1@ == workspace_group_dir(*config, WorkspaceType::Git, repo_id.relative_path@),
        r@[1].0@ == "JJ workspaces"@,
        r@[1].1@ == workspace_group_dir(*config, WorkspaceType::Jj, repo_id.relative_path@),
{
    let g = join_path_str(config.workspace_dir.as_str(), WorkspaceType::Git.as_str());
    let j = join_path_str(config.workspace_dir.as_str(), WorkspaceType::Jj.as_str());
    let mut r: Vec<(String, String)> = Vec::new();
    r.push((String::from_str("Git worktrees"), join_path_str(g.as_str(), repo_id.relative_path.as_str())));
    r.push((String::from_str("JJ workspaces"), join_path_str(j.as_str(), repo_id.relative_path.as_str())));
    r
}

/// The arguments of `git` that add the worktree of `session` at
/// `workspace_path`: on the existing branch of that name, or on a new one.
pub fn git_worktree_args(session: &str, workspace_path: &str, branch_exists: bool) -> (r: Vec<String>)
    ensures
        branch_exists ==> views(r@) == seq!["worktree"@, "add"@, workspace_path@, session@],
        !branch_exists ==> views(r@) == seq!["worktree"@, "add"@, "-b"@, session@, workspace_path@],
{
    let mut r: Vec<String> = Vec::new();
    r.push(String::from_str("worktree"));
    r.push(String::from_str("add"));
    if !branch_exists {
        r.push(String::from_str("-b"));
        r.push(session.to_string());
        r.push(workspace_path.to_string());
    } else {
        r.push(workspace_path.to_string());
        r.push(session.to_string());
    }
    proof {
        if branch_exists {
            assert(views(r@) =~= seq!["worktree"@, "add"@, workspace_path@, session@]);
        } else {
            assert(views(r@) =~= seq!["worktree"@, "add"@, "-b"@, session@, workspace_path@]);
        }
    }
    r
}

/// The branch reference checked for `session`: `refs/heads/<session>`.
pub fn branch_ref(session: &str) -> (r: String)
    ensures
        r@ == "refs/heads/"@ + session@,
{
    let mut r = String::from_str("refs/heads/");
    r.append(session);
    r
}

/// The arguments of `jj` that add the workspace of `session` at
/// `workspace_path`.
pub fn jj_workspace_args(session: &str, workspace_path: &str) -> (r: Vec<String>)
    ensures
        views(r@) == seq!["workspace"@, "add"@, "--name"@, session@, workspace_path@],
{
    let mut r: Vec<String> = Vec::new();
    r.push(String::from_str("workspace"));
    r.push(String::from_str("add"));
    r.push(String::from_str("--name"));
    r.push(session.to_string());
    r.push(workspace_path.to_string());
    assert(views(r@) =~= seq!["workspace"@, "add"@, "--name"@, session@, workspace_path@]);
    r
}

/// The kind of a git repository found from a directory.
#[derive(Debug, Clone, Copy, PartialEq, Eq, Structural)]
pub enum RepoKind {
    /// A linked worktree (made with `git worktree add`).
    LinkedWorktree,
    /// A bare repository, without a working directory.
    Bare,
    /// A repository with its own working directory, or a submodule.
    Other,
}

/// Where the root of a repository is read from.
#[derive(Debug, Clone, Copy, PartialEq, Eq, Structural)]
pub enum RootSource {
    /// The working directory of the main repository that the common git
    /// directory belongs to.
    MainRepository,
    /// The repository's own working directory.
    OwnWorkdir,
}

/// Where the root of a repository of this kind is read from, when it has
/// one: a linked worktree resolves to its main repository, so that sessions
/// are made for the source repository; a bare repository has none.
pub fn root_source(kind: RepoKind) -> (r: Option<RootSource>)
    ensures
        r == match kind {
            RepoKind::LinkedWorktree => Some(RootSource::MainRepository),
            RepoKind::Bare => None::<RootSource>,
            RepoKind::Other => Some(RootSource::OwnWorkdir),
        },
{
    match kind {
        RepoKind::LinkedWorktree => Some(RootSource::MainRepository),
        RepoKind::Bare => None,
        RepoKind::Other => Some(RootSource::OwnWorkdir),
    }
}

/// Why a repository root was not found.
#[derive(Debug, Clone)]
pub enum GitRootError {
    /// No repository was found from `path`.
    Discover { path: String },
    /// The repository at `git_dir` is bare.
    Bare { git_dir: String },
    /// The main repository of a linked worktree, at `common_dir`, is bare.
    MainBare { common_dir: String },
    /// The repository has no working directory.
    NoWorkdir,
}

impl GitRootError {
    /// The error as shown to a user.
    pub fn message(&self) -> (r: String)
        ensures
            r@ == match self {
                GitRootError::Discover { path } => "failed to discover git repository in "@ + path@,
                GitRootError::Bare { git_dir } => "bare repository at "@ + git_dir@
                    + " has no working directory; use a non-bare clone instead"@,
                GitRootError::MainBare { common_dir } => "linked worktree's main repository at "@
                    + common_dir@ + " is bare and has no working directory; use a non-bare clone instead"@,
                GitRootError::NoWorkdir => "repository has no working directory"@,
            },
    {
        match self {
            GitRootError::Discover { path } => {
                let mut r = String::from_str("failed to discover git repository in ");
                r.append(path.as_str());
                r
            },
            GitRootError::Bare { git_dir } => {
                let mut r = String::from_str("bare repository at ");
                r.append(git_dir.as_str());
                r.append(" has no working directory; use a non-bare clone instead");
                r
            },
            GitRootError::MainBare { common_dir } => {
                let mut r = String::from_str("linked worktree's main repository at ");
                r.append(common_dir.as_str());
                r.append(" is bare and has no working directory; use a non-bare clone instead");
                r
            },
            GitRootError::NoWorkdir => String::from_str("repository has no working directory"),
        }
    }
}

} // verus!
