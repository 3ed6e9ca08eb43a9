//! Configuration types: mounts, profiles, runtime settings and the whole
//! configuration, with the rules that turn a mount specification into host
//! and container paths.

use vstd::prelude::*;
use crate::named_map::NamedMap;
use crate::text::{
    chars_of, find_char, occurs_at, find_in, has_prefix, lemma_find_from_spec, push_all,
    starts_with, string_from_chars, chars_from, chars_between, contains_char, views,
};

verus! {

/// Mount mode for container volumes.
#[derive(Debug, Clone, Copy, PartialEq, Eq, Structural, Hash)]
pub enum MountMode {
    /// Read-only mount
    Ro,
    /// Read-write mount
    Rw,
    /// Overlay mount (Podman only)
    Overlay,
}

/// The Docker/Podman flag text of a mode.
pub open spec fn mode_text(m: MountMode) -> Seq<char> {
    match m {
        MountMode::Ro => seq!['r', 'o'],
        MountMode::Rw => seq!['r', 'w'],
        MountMode::Overlay => seq!['O'],
    }
}

/// The mode a flag text names, if any: `ro`, `rw`, `o` or `O`.
pub open spec fn parse_mode_text(s: Seq<char>) -> Option<MountMode> {
    if s == seq!['r', 'o'] {
        Some(MountMode::Ro)
    } else if s == seq!['r', 'w'] {
        Some(MountMode::Rw)
    } else if s == seq!['o'] || s == seq!['O'] {
        Some(MountMode::Overlay)
    } else {
        None
    }
}

/// A mount mode text that names no mode.
#[derive(Debug, Clone)]
pub struct InvalidMountMode {
    pub text: String,
}

impl InvalidMountMode {
    /// The error as shown to a user.
    pub fn message(&self) -> (r: String)
        ensures
            r@ == "Invalid mount mode: "@ + self.text@,
    {
        let mut r = String::from_str("Invalid mount mode: ");
        r.append(self.text.as_str());
        r
    }
}

impl MountMode {
    /// Convert to Docker/Podman mount flag string.
    pub fn as_str(&self) -> (r: &'static str)
        ensures
            r@ == mode_text(*self),
    {
        match self {
            MountMode::Ro => {
                proof {
                    reveal_strlit("ro");
                }
                "ro"
            },
            MountMode::Rw => {
                proof {
                    reveal_strlit("rw");
                }
                "rw"
            },
            MountMode::Overlay => {
                proof {
                    reveal_strlit("O");
                }
                "O"
            },
        }
    }

    /// Parse a mode flag: `ro`, `rw`, or `o`/`O` for overlay.
    pub fn parse(s: &str) -> (r: Result<MountMode, InvalidMountMode>)
        ensures
            match r {
                Ok(m) => parse_mode_text(s@) == Some(m),
                Err(e) => parse_mode_text(s@) is None && e.text@ == s@,
            },
    {
        let c = chars_of(s);
        if c.len() == 2 && c[0] == 'r' && c[1] == 'o' {
            assert(s@ =~= seq!['r', 'o']);
            Ok(MountMode::Ro)
        } else if c.len() == 2 && c[0] == 'r' && c[1] == 'w' {
            assert(s@ =~= seq!['r', 'w']);
            Ok(MountMode::Rw)
        } else if c.len() == 1 && (c[0] == 'o' || c[0] == 'O') {
            assert(s@ =~= seq![c[0]]);
            Ok(MountMode::Overlay)
        } else {
            proof {
                if s@ == seq!['r', 'o'] || s@ == seq!['r', 'w'] {
                    assert(c@.len() == 2 && c@[0] == 'r');
                }
                if s@ == seq!['o'] || s@ == seq!['O'] {
                    assert(c@.len() == 1);
                }
            }
            Err(InvalidMountMode { text: s.to_owned() })
        }
    }
}

impl core::str::FromStr for MountMode {
    type Err = InvalidMountMode;

    fn from_str(s: &str) -> (r: Result<MountMode, InvalidMountMode>)
        ensures
            match r {
                Ok(m) => parse_mode_text(s@) == Some(m),
                Err(e) => parse_mode_text(s@) is None && e.text@ == s@,
            },
    {
        MountMode::parse(s)
    }
}

/// Whether a string holds a glob metacharacter (`*`, `?`, `[`).
pub open spec fn has_glob_char(s: Seq<char>) -> bool {
    s.contains('*') || s.contains('?') || s.contains('[')
}

/// Returns true if the string contains any glob metacharacters (`*`, `?`, `[`).
pub fn is_glob(s: &str) -> (r: bool)
    ensures
        r == has_glob_char(s@),
{
    let c = chars_of(s);
    contains_char(c.as_slice(), '*') || contains_char(c.as_slice(), '?') || contains_char(
        c.as_slice(),
        '[',
    )
}

/// A mount specification: the path (or `source:dest` pair), whether it is
/// home-relative, and the mode.
///
/// Two mounts are equal if they have the same mode and resolve to the same
/// host and container paths.
#[derive(Debug)]
pub struct Mount {
    /// The mount specification (path or src:dst)
    pub spec: String,
    /// Whether this is home-relative (true) or absolute (false)
    pub home_relative: bool,
    /// Mount mode
    pub mode: MountMode,
}

/// What a mount holds, as plain values.
pub struct MountView {
    pub spec: Seq<char>,
    pub home_relative: bool,
    pub mode: MountMode,
}

impl View for Mount {
    type V = MountView;

    open spec fn view(&self) -> MountView {
        MountView { spec: self.spec@, home_relative: self.home_relative, mode: self.mode }
    }
}

impl Clone for Mount {
    fn clone(&self) -> (r: Mount)
        ensures
            r@ == self@,
    {
        Mount { spec: self.spec.clone(), home_relative: self.home_relative, mode: self.mode }
    }
}

/// Why a mount could not be resolved.
pub enum MountFailure {
    /// A path of the specification is neither absolute nor home-relative;
    /// the flag tells whether it was the host (source) side.
    InvalidPath(bool, Seq<char>),
    /// The expanded host path has no canonical form (it does not exist).
    Canonicalize(Seq<char>),
}

/// A mount that could not be resolved.
#[derive(Debug, Clone)]
pub enum MountError {
    /// A path in the specification is neither absolute nor home-relative.
    InvalidPath { spec: String, path: String, host_side: bool },
    /// The expanded host path could not be canonicalized.
    Canonicalize { path: String },
    /// A glob pattern was given together with an explicit destination.
    GlobWithExplicitDest { spec: String },
}

impl MountError {
    /// The error as shown to a user (the outermost context of the error).
    pub fn message(&self) -> (r: String)
        ensures
            r@ == match self {
                MountError::InvalidPath { spec, path, host_side } => if *host_side {
                    "Invalid host path in mount: "@ + spec@
                } else {
                    "Invalid container path in mount: "@ + spec@
                },
                MountError::Canonicalize { path } => "Failed to canonicalize host path: "@ + path@,
                MountError::GlobWithExplicitDest { spec } =>
                    "Glob patterns are not supported with explicit src:dst mounts: "@ + spec@,
            },
    {
        match self {
            MountError::InvalidPath { spec, path: _, host_side } => {
                let mut r = if *host_side {
                    String::from_str("Invalid host path in mount: ")
                } else {
                    String::from_str("Invalid container path in mount: ")
                };
                r.append(spec.as_str());
                r
            },
            MountError::Canonicalize { path } => {
                let mut r = String::from_str("Failed to canonicalize host path: ");
                r.append(path.as_str());
                r
            },
            MountError::GlobWithExplicitDest { spec } => {
                let mut r = String::from_str(
                    "Glob patterns are not supported with explicit src:dst mounts: ",
                );
                r.append(spec.as_str());
                r
            },
        }
    }

    /// The underlying cause, for the path errors.
    pub fn cause(&self) -> (r: Option<String>)
        ensures
            match self {
                MountError::InvalidPath { path, .. } => r matches Some(c) && c@
                    == "Path must be absolute (/...) or home-relative (~/...): "@ + path@,
                _ => r is None,
            },
    {
        match self {
            MountError::InvalidPath { path, .. } => {
                let mut r = String::from_str(
                    "Path must be absolute (/...) or home-relative (~/...): ",
                );
                r.append(path.as_str());
                Some(r)
            },
            _ => None,
        }
    }
}

/// Whether a path is home-relative: `~` alone or `~/` followed by anything.
pub open spec fn is_home_path(path: Seq<char>) -> bool {
    path.len() > 0 && path[0] == '~' && (path.len() == 1 || path[1] == '/')
}

/// A path expanded against a home directory: a home-relative path (`~` or
/// `~/...`) has its `~` replaced by the home, an absolute path stays;
/// anything else (`~user/...` included) is rejected.
pub open spec fn expand_spec(path: Seq<char>, home: Seq<char>) -> Option<Seq<char>> {
    if is_home_path(path) {
        Some(home + path.skip(1))
    } else if path.len() > 0 && path[0] == '/' {
        Some(path)
    } else {
        None
    }
}

/// `path` with the prefix `home` replaced by `new_home`, or unchanged when it
/// does not start with `home`.
pub open spec fn rehome(path: Seq<char>, home: Seq<char>, new_home: Seq<char>) -> Seq<char> {
    if starts_with(path, home) {
        new_home + path.skip(home.len() as int)
    } else {
        path
    }
}

/// The host and container sides of a mount specification: split at the first
/// `:` when there is one.
pub open spec fn spec_sides(spec: Seq<char>) -> (Seq<char>, Seq<char>, bool) {
    match find_char(spec, ':') {
        Some(i) => (spec.take(i), spec.skip(i + 1), true),
        None => (spec, spec, false),
    }
}

/// The host and container paths of a mount, before canonicalization.
pub open spec fn resolve_paths_spec(m: MountView, host_home: Seq<char>, container_home: Seq<char>)
    -> Result<(Seq<char>, Seq<char>), MountFailure>
{
    let (host_spec, container_spec, explicit) = spec_sides(m.spec);
    match expand_spec(host_spec, host_home) {
        None => Err(MountFailure::InvalidPath(true, host_spec)),
        Some(host) => if explicit {
            match expand_spec(container_spec, container_home) {
                None => Err(MountFailure::InvalidPath(false, container_spec)),
                Some(c) => Ok((host, c)),
            }
        } else if m.home_relative {
            Ok((host, rehome(host, host_home, container_home)))
        } else {
            Ok((host, host))
        },
    }
}

/// The host and container paths of a mount with the host path
/// canonicalized through `canonical` (expanded path to canonical path).
pub open spec fn resolve_canonical_spec(
    m: MountView,
    host_home: Seq<char>,
    container_home: Seq<char>,
    canonical: NamedMap<String>,
) -> Result<(Seq<char>, Seq<char>), MountFailure> {
    match resolve_paths_spec(m, host_home, container_home) {
        Err(f) => Err(f),
        Ok((host, container)) => match canonical.spec_get(host) {
            None => Err(MountFailure::Canonicalize(host)),
            Some(hc) => Ok(
                (
                    hc@,
                    if container == host {
                        hc@
                    } else if m.home_relative && !m.spec.contains(':') {
                        rehome(hc@, host_home, container_home)
                    } else {
                        container
                    },
                ),
            ),
        },
    }
}

/// The container path for a host path: home-relative mounts swap the host
/// home prefix for the container home.
pub open spec fn derive_container_spec(
    home_relative: bool,
    host_path: Seq<char>,
    host_home: Seq<char>,
    container_home: Seq<char>,
) -> Seq<char> {
    if home_relative {
        rehome(host_path, host_home, container_home)
    } else {
        host_path
    }
}

/// `path` with `home` replaced by `new_home` when it starts with `home`.
fn rehome_exec(path: &[char], home: &[char], new_home: &[char]) -> (r: Vec<char>)
    ensures
        r@ == rehome(path@, home@, new_home@),
{
    if has_prefix(path, home) {
        let mut r = chars_from(new_home, 0);
        let rest = chars_from(path, home.len());
        push_all(&mut r, rest.as_slice());
        r
    } else {
        chars_from(path, 0)
    }
}

impl Mount {
    /// Expand a path. Paths must be absolute (`/...`) or home-relative (`~/...`).
    pub fn expand_path(path: &[char], home: &[char]) -> (r: Option<Vec<char>>)
        ensures
            match r {
                Some(p) => expand_spec(path@, home@) == Some(p@),
                None => expand_spec(path@, home@) is None,
            },
    {
        if path.len() > 0 && path[0] == '~' && (path.len() == 1 || path[1] == '/') {
            let mut r = chars_from(home, 0);
            let rest = chars_from(path, 1);
            push_all(&mut r, rest.as_slice());
            Some(r)
        } else if path.len() > 0 && path[0] == '/' {
            Some(chars_from(path, 0))
        } else {
            None
        }
    }

    /// Inner resolution logic without canonicalization: the host path and
    /// the container path of this mount.
    ///
    /// The spec can be a single path (the same path on both sides, with the
    /// host home swapped for the container home when `home_relative`) or a
    /// `source:dest` mapping, where `~` expands to the host home for the
    /// source and to the container home for the destination.
    pub fn resolve_paths(&self, host_home: &str, container_home: &str) -> (r: Result<
        (String, String),
        MountError,
    >)
        ensures
            match resolve_paths_spec(self@, host_home@, container_home@) {
                Ok((h, c)) => r matches Ok((rh, rc)) && rh@ == h && rc@ == c,
                Err(MountFailure::InvalidPath(side, p)) => r matches Err(
                    MountError::InvalidPath { spec, path, host_side },
                ) && spec@ == self.spec@ && path@ == p && host_side == side,
                Err(_) => false,
            },
    {
        let spec = chars_of(self.spec.as_str());
        let hh = chars_of(host_home);
        let ch = chars_of(container_home);
        let colon = find_in(spec.as_slice(), &[':']);
        proof {
            assert(seq![':'] =~= [':']@);
        }
        let (host_spec, container_spec, explicit) = match colon {
            Some(i) => {
                proof {
                    lemma_find_from_spec(spec@, seq![':'], 0);
                    assert(occurs_at(spec@, seq![':'], i as int));
                }
                assert(i < spec.len());
                (chars_between(spec.as_slice(), 0, i), chars_from(spec.as_slice(), i + 1), true)
            },
            None => (spec.clone(), spec.clone(), false),
        };
        proof {
            let (a, b, e) = spec_sides(self.spec@);
            assert(host_spec@ =~= a);
            assert(container_spec@ =~= b);
        }
        let host = match Mount::expand_path(host_spec.as_slice(), hh.as_slice()) {
            Some(h) => h,
            None => {
                return Err(
                    MountError::InvalidPath {
                        spec: self.spec.clone(),
                        path: string_from_chars(host_spec.as_slice()),
                        host_side: true,
                    },
                );
            },
        };
        let container = if explicit {
            match Mount::expand_path(container_spec.as_slice(), ch.as_slice()) {
                Some(c) => c,
                None => {
                    return Err(
                        MountError::InvalidPath {
                            spec: self.spec.clone(),
                            path: string_from_chars(container_spec.as_slice()),
                            host_side: false,
                        },
                    );
                },
            }
        } else if self.home_relative {
            rehome_exec(host.as_slice(), hh.as_slice(), ch.as_slice())
        } else {
            host.clone()
        };
        Ok((string_from_chars(host.as_slice()), string_from_chars(container.as_slice())))
    }

    /// Resolve with explicit home directories, canonicalizing the host path
    /// through `canonical`, which maps an expanded host path to its canonical
    /// form (a path with no entry could not be canonicalized).
    ///
    /// When the container path was derived from the host path, it follows
    /// the canonical host path.
    pub fn resolve_with_homes(
        &self,
        host_home: &str,
        container_home: &str,
        canonical: &NamedMap<String>,
    ) -> (r: Result<(String, String), MountError>)
        ensures
            match resolve_canonical_spec(self@, host_home@, container_home@, *canonical) {
                Ok((h, c)) => r matches Ok((rh, rc)) && rh@ == h && rc@ == c,
                Err(MountFailure::InvalidPath(side, p)) => r matches Err(
                    MountError::InvalidPath { spec, path, host_side },
                ) && spec@ == self.spec@ && path@ == p && host_side == side,
                Err(MountFailure::Canonicalize(p)) => r matches Err(MountError::Canonicalize { path })
                    && path@ == p,
            },
    {
        let (host_expanded, container_path) = match self.resolve_paths(host_home, container_home) {
            Ok(pair) => pair,
            Err(e) => {
                return Err(e);
            },
        };
        let host_canonical = match canonical.get(host_expanded.as_str()) {
            Some(c) => c.clone(),
            None => {
                return Err(MountError::Canonicalize { path: host_expanded });
            },
        };
        let spec = chars_of(self.spec.as_str());
        let container = if container_path == host_expanded {
            host_canonical.clone()
        } else if self.home_relative && !contains_char(spec.as_slice(), ':') {
            let hc = chars_of(host_canonical.as_str());
            let hh = chars_of(host_home);
            let ch = chars_of(container_home);
            let r = rehome_exec(hc.as_slice(), hh.as_slice(), ch.as_slice());
            string_from_chars(r.as_slice())
        } else {
            container_path
        };
        Ok((host_canonical, container))
    }

    /// Derive the container path from a host path based on `home_relative`.
    pub fn derive_container_path(&self, host_path: &str, host_home: &str, container_home: &str) -> (r:
        String)
        ensures
            r@ == derive_container_spec(self.home_relative, host_path@, host_home@, container_home@),
    {
        if self.home_relative {
            let p = chars_of(host_path);
            let hh = chars_of(host_home);
            let ch = chars_of(container_home);
            let r = rehome_exec(p.as_slice(), hh.as_slice(), ch.as_slice());
            string_from_chars(r.as_slice())
        } else {
            host_path.to_owned()
        }
    }
}


/// Whether position `i` holds the first occurrence of its key.
pub open spec fn is_first_occurrence<K>(keys: Seq<K>, i: int) -> bool {
    !keys.take(i).contains(keys[i])
}

/// The items whose keys occur for the first time, in order (the first
/// occurrence of each key wins).
pub open spec fn keep_first<A, K>(items: Seq<A>, keys: Seq<K>) -> Seq<A>
    decreases items.len(),
{
    if items.len() == 0 {
        Seq::empty()
    } else {
        let r = keep_first(items.drop_last(), keys);
        if is_first_occurrence(keys, items.len() - 1) {
            r.push(items.last())
        } else {
            r
        }
    }
}

/// A sequence without its repeated elements (the first occurrence wins).
pub open spec fn dedup_seq<A>(s: Seq<A>) -> Seq<A> {
    keep_first(s, s)
}

/// For each position, whether it holds the first occurrence of its key.
pub fn first_occurrence_flags(keys: &Vec<String>) -> (r: Vec<bool>)
    ensures
        r@.len() == keys@.len(),
        forall|i: int| 0 <= i < keys@.len() ==> #[trigger] r@[i] == is_first_occurrence(views(keys@), i),
{
    let mut r: Vec<bool> = Vec::new();
    let mut seen: Vec<String> = Vec::new();
    let ghost kv = views(keys@);
    let mut i: usize = 0;
    while i < keys.len()
        invariant
            i <= keys@.len(),
            kv == views(keys@),
            r@.len() == i,
            seen@.len() == i,
            forall|j: int| 0 <= j < i ==> #[trigger] r@[j] == is_first_occurrence(kv, j),
            forall|x: Seq<char>| #[trigger] views(seen@).contains(x) <==> kv.take(i as int).contains(x),
        decreases keys.len() - i,
    {
        let mut found = false;
        let mut k: usize = 0;
        while k < seen.len()
            invariant
                k <= seen@.len(),
                i < keys@.len(),
                kv == views(keys@),
                found == (exists|j: int| 0 <= j < k && seen@[j]@ == keys@[i as int]@),
            decreases seen.len() - k,
        {
            if crate::text::str_eq(seen[k].as_str(), keys[i].as_str()) {
                found = true;
            }
            k = k + 1;
        }
        proof {
            assert(kv[i as int] == keys@[i as int]@);
            if found {
                let j = choose|j: int| 0 <= j < k && seen@[j]@ == keys@[i as int]@;
                assert(views(seen@)[j] == seen@[j]@);
                assert(views(seen@).contains(kv[i as int]));
            } else {
                if views(seen@).contains(kv[i as int]) {
                    let j = choose|j: int| 0 <= j < views(seen@).len() && views(seen@)[j] == kv[i as int];
                    assert(seen@[j]@ == keys@[i as int]@);
                }
            }
            assert(found == kv.take(i as int).contains(kv[i as int]));
        }
        r.push(!found);
        let ghost old_seen = views(seen@);
        proof {
            assert forall|x: Seq<char>| #[trigger] old_seen.contains(x) == kv.take(i as int).contains(x) by {}
        }
        seen.push(keys[i].clone());
        proof {
            assert(views(seen@) =~= old_seen.push(kv[i as int]));
            assert(kv.take(i + 1) =~= kv.take(i as int).push(kv[i as int]));
            let t0 = kv.take(i as int);
            let t1 = kv.take(i + 1);
            let sv = views(seen@);
            assert forall|x: Seq<char>| sv.contains(x) <==> t1.contains(x) by {
                if sv.contains(x) {
                    let j = choose|j: int| 0 <= j < sv.len() && sv[j] == x;
                    if j < old_seen.len() {
                        assert(old_seen[j] == x);
                        assert(old_seen.contains(x));
                        assert(t0.contains(x));
                        let j2 = choose|j2: int| 0 <= j2 < t0.len() && t0[j2] == x;
                        assert(t1[j2] == x);
                    } else {
                        assert(t1[i as int] == x);
                    }
                }
                if t1.contains(x) {
                    let j = choose|j: int| 0 <= j < t1.len() && t1[j] == x;
                    if j < i {
                        assert(t0[j] == x);
                        assert(t0.contains(x));
                        assert(old_seen.contains(x));
                        let j2 = choose|j2: int| 0 <= j2 < old_seen.len() && old_seen[j2] == x;
                        assert(sv[j2] == x);
                    } else {
                        assert(sv[i as int] == x);
                    }
                }
            }
        }
        i = i + 1;
    }
    r
}

/// The strings whose text occurs for the first time, in order.
pub fn dedup_strings(v: &Vec<String>) -> (r: Vec<String>)
    ensures
        views(r@) == dedup_seq(views(v@)),
{
    let flags = first_occurrence_flags(v);
    let mut r: Vec<String> = Vec::new();
    let ghost vv = views(v@);
    let mut i: usize = 0;
    while i < v.len()
        invariant
            i <= v@.len(),
            vv == views(v@),
            flags@.len() == v@.len(),
            forall|j: int| 0 <= j < v@.len() ==> #[trigger] flags@[j] == is_first_occurrence(vv, j),
            views(r@) == keep_first(vv.take(i as int), vv),
        decreases v.len() - i,
    {
        proof {
            assert(vv.take(i + 1).drop_last() =~= vv.take(i as int));
            assert(flags@[i as int] == is_first_occurrence(vv, i as int));
        }
        if flags[i] {
            let ghost before = views(r@);
            r.push(v[i].clone());
            assert(views(r@) =~= before.push(vv[i as int]));
        }
        i = i + 1;
    }
    assert(vv.take(v@.len() as int) =~= vv);
    r
}

/// Mount paths of one mode: absolute and home-relative specifications.
#[derive(Debug, Clone, PartialEq)]
pub struct MountPaths {
    pub absolute: Vec<String>,
    pub home_relative: Vec<String>,
}

impl Default for MountPaths {
    fn default() -> (p: MountPaths)
        ensures
            p.absolute@.len() == 0,
            p.home_relative@.len() == 0,
    {
        MountPaths { absolute: Vec::new(), home_relative: Vec::new() }
    }
}

/// Mount paths of each mode.
#[derive(Debug, Clone, PartialEq)]
pub struct MountsConfig {
    pub ro: MountPaths,
    pub rw: MountPaths,
    pub o: MountPaths,
}

impl Default for MountsConfig {
    fn default() -> (c: MountsConfig)
        ensures
            c.ro.absolute@.len() == 0 && c.ro.home_relative@.len() == 0,
            c.rw.absolute@.len() == 0 && c.rw.home_relative@.len() == 0,
            c.o.absolute@.len() == 0 && c.o.home_relative@.len() == 0,
    {
        MountsConfig { ro: MountPaths::default(), rw: MountPaths::default(), o: MountPaths::default() }
    }
}

/// The plain values of a sequence of mounts.
pub open spec fn mount_views(v: Seq<Mount>) -> Seq<MountView> {
    v.map_values(|m: Mount| m@)
}

/// Mounts for a list of specifications, all with the same flag and mode.
pub open spec fn tagged(specs: Seq<String>, home_relative: bool, mode: MountMode) -> Seq<MountView> {
    specs.map_values(|s: String| MountView { spec: s@, home_relative: home_relative, mode: mode })
}

/// The mounts of a mounts table, in order: read-only absolute, read-only
/// home-relative, read-write absolute, read-write home-relative, overlay
/// absolute, overlay home-relative.
pub open spec fn mounts_of(c: MountsConfig) -> Seq<MountView> {
    tagged(c.ro.absolute@, false, MountMode::Ro) + tagged(c.ro.home_relative@, true, MountMode::Ro)
        + tagged(c.rw.absolute@, false, MountMode::Rw) + tagged(c.rw.home_relative@, true, MountMode::Rw)
        + tagged(c.o.absolute@, false, MountMode::Overlay) + tagged(
        c.o.home_relative@,
        true,
        MountMode::Overlay,
    )
}

fn push_tagged(out: &mut Vec<Mount>, specs: &Vec<String>, home_relative: bool, mode: MountMode)
    ensures
        mount_views(final(out)@) == mount_views(old(out)@) + tagged(specs@, home_relative, mode),
{
    let mut i: usize = 0;
    while i < specs.len()
        invariant
            i <= specs@.len(),
            mount_views(out@) == mount_views(old(out)@) + tagged(specs@.take(i as int), home_relative, mode),
        decreases specs.len() - i,
    {
        let ghost before = mount_views(out@);
        out.push(Mount { spec: specs[i].clone(), home_relative: home_relative, mode: mode });
        proof {
            assert(tagged(specs@.take(i + 1), home_relative, mode) =~= tagged(
                specs@.take(i as int),
                home_relative,
                mode,
            ).push(MountView { spec: specs@[i as int]@, home_relative: home_relative, mode: mode }));
            assert(mount_views(out@) =~= before.push(
                MountView { spec: specs@[i as int]@, home_relative: home_relative, mode: mode },
            ));
        }
        i = i + 1;
    }
    assert(specs@.take(specs@.len() as int) =~= specs@);
}

impl MountsConfig {
    /// Convert to a flat list of mounts (see `mounts_of` for the order).
    pub fn to_mounts(&self) -> (r: Vec<Mount>)
        ensures
            mount_views(r@) == mounts_of(*self),
    {
        let mut mounts: Vec<Mount> = Vec::new();
        push_tagged(&mut mounts, &self.ro.absolute, false, MountMode::Ro);
        push_tagged(&mut mounts, &self.ro.home_relative, true, MountMode::Ro);
        push_tagged(&mut mounts, &self.rw.absolute, false, MountMode::Rw);
        push_tagged(&mut mounts, &self.rw.home_relative, true, MountMode::Rw);
        push_tagged(&mut mounts, &self.o.absolute, false, MountMode::Overlay);
        push_tagged(&mut mounts, &self.o.home_relative, true, MountMode::Overlay);
        assert(mount_views(mounts@) =~= mounts_of(*self));
        mounts
    }
}

/// A resolved mount ready for use (after path expansion and canonicalization).
#[derive(Debug, Clone)]
pub struct ResolvedMount {
    pub host: String,
    pub container: String,
    pub mode: MountMode,
}

impl ResolvedMount {
    /// Format as bind string for the docker/podman `-v` flag:
    /// `host:container:mode`.
    pub fn to_bind_string(&self) -> (r: String)
        ensures
            r@ == self.host@ + seq![':'] + self.container@ + seq![':'] + mode_text(self.mode),
    {
        let mut r = self.host.clone();
        r.append(":");
        r.append(self.container.as_str());
        r.append(":");
        r.append(self.mode.as_str());
        proof {
            reveal_strlit(":");
        }
        assert(r@ =~= self.host@ + seq![':'] + self.container@ + seq![':'] + mode_text(self.mode));
        r
    }
}


/// Two mounts are equal when they have the same mode and both resolve, with
/// `/home/user` as both homes, to the same host and container paths.
pub open spec fn mounts_equal(a: MountView, b: MountView) -> bool {
    a.mode == b.mode && match (
        resolve_paths_spec(a, "/home/user"@, "/home/user"@),
        resolve_paths_spec(b, "/home/user"@, "/home/user"@),
    ) {
        (Ok(x), Ok(y)) => x == y,
        _ => false,
    }
}

impl PartialEq for Mount {
    fn eq(&self, other: &Mount) -> (r: bool) {
        if self.mode != other.mode {
            return false;
        }
        let dummy_home = "/home/user";
        match (self.resolve_paths(dummy_home, dummy_home), other.resolve_paths(dummy_home, dummy_home)) {
            (Ok((h1, c1)), Ok((h2, c2))) => h1 == h2 && c1 == c2,
            _ => false,
        }
    }
}

impl vstd::std_specs::cmp::PartialEqSpecImpl for Mount {
    open spec fn obeys_eq_spec() -> bool {
        true
    }

    open spec fn eq_spec(&self, other: &Mount) -> bool {
        mounts_equal(self@, other@)
    }
}

/// How a mount's host path is to be found on disk.
#[derive(Debug, Clone)]
pub enum MountPlan {
    /// The expanded host path is a glob pattern to expand.
    Glob { pattern: String },
    /// The expanded host path names one path.
    Path { path: String },
}

impl Mount {
    /// The first step of resolving a mount against the filesystem: expand
    /// its host path, and tell a glob pattern from a plain path. A glob is
    /// refused when the spec also names an explicit destination.
    pub fn expansion_plan(&self, host_home: &str, container_home: &str) -> (r: Result<
        MountPlan,
        MountError,
    >)
        ensures
            match resolve_paths_spec(self@, host_home@, container_home@) {
                Ok((h, _)) => if has_glob_char(h) {
                    if self.spec@.contains(':') {
                        r matches Err(MountError::GlobWithExplicitDest { spec }) && spec@ == self.spec@
                    } else {
                        r matches Ok(MountPlan::Glob { pattern }) && pattern@ == h
                    }
                } else {
                    r matches Ok(MountPlan::Path { path }) && path@ == h
                },
                Err(MountFailure::InvalidPath(side, p)) => r matches Err(
                    MountError::InvalidPath { spec, path, host_side },
                ) && spec@ == self.spec@ && path@ == p && host_side == side,
                Err(_) => false,
            },
    {
        let (host_expanded, _) = match self.resolve_paths(host_home, container_home) {
            Ok(pair) => pair,
            Err(e) => {
                return Err(e);
            },
        };
        if is_glob(host_expanded.as_str()) {
            let spec = chars_of(self.spec.as_str());
            if contains_char(spec.as_slice(), ':') {
                return Err(MountError::GlobWithExplicitDest { spec: self.spec.clone() });
            }
            return Ok(MountPlan::Glob { pattern: host_expanded });
        }
        Ok(MountPlan::Path { path: host_expanded })
    }

    /// A one-line description: `mode: spec`, with ` (home-relative)` after
    /// home-relative mounts.
    pub fn describe(&self) -> (r: String)
        ensures
            r@ == mode_text(self.mode) + ": "@ + self.spec@ + (if self.home_relative {
                " (home-relative)"@
            } else {
                Seq::empty()
            }),
    {
        let mut r = String::from_str(self.mode.as_str());
        r.append(": ");
        r.append(self.spec.as_str());
        if self.home_relative {
            r.append(" (home-relative)");
        }
        proof {
            if !self.home_relative {
                assert(r@ =~= mode_text(self.mode) + ": "@ + self.spec@ + Seq::<char>::empty());
            }
        }
        r
    }
}

/// The words of a shell-style command line, split as `shell_words::split`
/// does; `None` when a quote is left open.
pub uninterp spec fn shell_words(s: Seq<char>) -> Option<Seq<Seq<char>>>;

#[verifier::external_type_specification]
#[verifier::external_body]
pub struct ExShellWordsParseError(shell_words::ParseError);

/// `shell_words::split`: succeeds exactly when `shell_words(s)` does, with
/// those words.
#[verifier::external_body]
fn split_shell_words(s: &str) -> (r: Result<Vec<String>, shell_words::ParseError>)
    ensures
        r is Ok <==> shell_words(s@) is Some,
        r matches Ok(v) ==> views(v@) == shell_words(s@).unwrap(),
{
    shell_words::split(s)
}

/// A shell-style entrypoint with an unclosed quote.
#[derive(Debug, Clone)]
pub struct EntrypointError {
    pub entrypoint: String,
}

impl EntrypointError {
    /// The error as shown to a user.
    pub fn message(&self) -> (r: String)
        ensures
            r@ == "missing closing quote"@,
    {
        String::from_str("missing closing quote")
    }
}

/// Parse an entrypoint given as a shell-style string into its argv.
pub fn parse_entrypoint(opt: Option<String>) -> (r: Result<Option<Vec<String>>, EntrypointError>)
    ensures
        match opt {
            None => r matches Ok(None),
            Some(s) => match shell_words(s@) {
                Some(w) => r matches Ok(Some(v)) && views(v@) == w,
                None => r matches Err(e) && e.entrypoint@ == s@,
            },
        },
{
    match opt {
        None => Ok(None),
        Some(s) => match split_shell_words(s.as_str()) {
            Ok(v) => Ok(Some(v)),
            Err(_) => Err(EntrypointError { entrypoint: s }),
        },
    }
}

/// Default container backend.
pub fn default_backend() -> (r: String)
    ensures
        r@ == "podman"@,
{
    String::from_str("podman")
}

/// Default in-container path of the context file.
pub fn default_context_path() -> (r: String)
    ensures
        r@ == "/tmp/context"@,
{
    String::from_str("/tmp/context")
}

/// A profile: a named set of mounts, environment variables, port mappings,
/// host entries and context. Profiles can extend other profiles.
#[derive(Debug, Clone, PartialEq)]
pub struct ProfileConfig {
    /// List of profile names this profile extends (inherits from)
    pub extends: Vec<String>,
    /// Mounts defined by this profile
    pub mounts: MountsConfig,
    /// Environment variables defined by this profile
    pub env: Vec<String>,
    /// Environment variable names to pass through from host to container
    pub env_passthrough: Vec<String>,
    /// Port mappings defined by this profile (Docker `-p` syntax)
    pub ports: Vec<String>,
    /// Custom host-to-IP mappings for `/etc/hosts` inside the container (`HOST:IP`)
    pub hosts: Vec<String>,
    /// Context for this profile
    pub context: String,
}

impl Default for ProfileConfig {
    fn default() -> (p: ProfileConfig)
        ensures
            p.extends@.len() == 0 && p.env@.len() == 0 && p.env_passthrough@.len() == 0,
            p.ports@.len() == 0 && p.hosts@.len() == 0 && p.context@.len() == 0,
            mounts_of(p.mounts).len() == 0,
    {
        ProfileConfig {
            extends: Vec::new(),
            mounts: MountsConfig::default(),
            env: Vec::new(),
            env_passthrough: Vec::new(),
            ports: Vec::new(),
            hosts: Vec::new(),
            context: String::new(),
        }
    }
}

/// Container runtime settings.
#[derive(Debug, Clone, PartialEq)]
pub struct RuntimeConfig {
    pub backend: String,
    pub image: String,
    pub entrypoint: Option<Vec<String>>,
    pub mounts: MountsConfig,
    pub env: Vec<String>,
    /// Environment variable names to pass through from host to container
    pub env_passthrough: Vec<String>,
    /// Port mappings to expose (Docker `-p` syntax: `[HOST_IP:]HOST_PORT:CONTAINER_PORT`)
    pub ports: Vec<String>,
    /// Custom host-to-IP mappings added to `/etc/hosts` inside the container (`HOST:IP`)
    pub hosts: Vec<String>,
    pub skip_mounts: Vec<String>,
}

impl Default for RuntimeConfig {
    fn default() -> (c: RuntimeConfig)
        ensures
            c.backend@.len() == 0 && c.image@.len() == 0 && c.entrypoint is None,
            mounts_of(c.mounts).len() == 0,
            c.env@.len() == 0 && c.env_passthrough@.len() == 0 && c.ports@.len() == 0,
            c.hosts@.len() == 0 && c.skip_mounts@.len() == 0,
    {
        RuntimeConfig {
            backend: String::new(),
            image: String::new(),
            entrypoint: None,
            mounts: MountsConfig::default(),
            env: Vec::new(),
            env_passthrough: Vec::new(),
            ports: Vec::new(),
            hosts: Vec::new(),
            skip_mounts: Vec::new(),
        }
    }
}

/// The whole configuration.
#[derive(Debug, Clone)]
pub struct Config {
    pub workspace_dir: String,
    pub base_repo_dir: String,
    /// Whether `base_repo_dir` was set in a configuration file
    pub base_repo_dir_explicit: bool,
    /// Default profile name to always apply (if set)
    pub default_profile: Option<String>,
    /// Named profiles that can be selected via CLI
    pub profiles: NamedMap<ProfileConfig>,
    pub runtime: RuntimeConfig,
    /// Root-level context
    pub context: String,
    /// Path where context file will be mounted inside the container
    pub context_path: String,
    /// Host portal service configuration
    pub portal: crate::portal::PortalConfig,
}

/// What is known of the host's paths when mounts are compared: the host and
/// container homes, and the canonical form of each expanded host path that
/// exists on disk.
#[derive(Debug, Clone)]
pub struct HostPaths {
    pub host_home: String,
    pub container_home: String,
    pub canonical: NamedMap<String>,
}

impl HostPaths {
    /// Homes with no canonical paths recorded.
    pub fn new(host_home: &str, container_home: &str) -> (r: HostPaths)
        ensures
            r.host_home@ == host_home@,
            r.container_home@ == container_home@,
            r.canonical.spec_len() == 0,
    {
        HostPaths {
            host_home: host_home.to_owned(),
            container_home: container_home.to_owned(),
            canonical: NamedMap::new(),
        }
    }
}

/// The text of a boolean, as `Display` writes it.
pub open spec fn bool_text(b: bool) -> Seq<char> {
    if b {
        "true"@
    } else {
        "false"@
    }
}

/// The key by which mounts are deduplicated: the canonical bind triple
/// when the host path resolves on disk, else the expanded bind triple, else
/// the raw spec with its flag and mode.
pub open spec fn mount_key(m: MountView, host: HostPaths) -> Seq<char> {
    let mode = mode_text(m.mode);
    match resolve_canonical_spec(m, host.host_home@, host.container_home@, host.canonical) {
        Ok((h, c)) => h + seq![':'] + c + seq![':'] + mode,
        Err(_) => match resolve_paths_spec(m, host.host_home@, host.container_home@) {
            Ok((h, c)) => h + seq![':'] + c + seq![':'] + mode,
            Err(_) => m.spec + seq![':'] + bool_text(m.home_relative) + seq![':'] + mode,
        },
    }
}

fn triple(a: &str, b: &str, mode: MountMode) -> (r: String)
    ensures
        r@ == a@ + seq![':'] + b@ + seq![':'] + mode_text(mode),
{
    let mut r = a.to_owned();
    r.append(":");
    r.append(b);
    r.append(":");
    r.append(mode.as_str());
    proof {
        reveal_strlit(":");
    }
    assert(r@ =~= a@ + seq![':'] + b@ + seq![':'] + mode_text(mode));
    r
}

/// The deduplication key of a mount (see `mount_key`).
pub fn mount_dedup_key(m: &Mount, host: &HostPaths) -> (r: String)
    ensures
        r@ == mount_key(m@, *host),
{
    match m.resolve_with_homes(host.host_home.as_str(), host.container_home.as_str(), &host.canonical) {
        Ok((h, c)) => triple(h.as_str(), c.as_str(), m.mode),
        Err(_) => match m.resolve_paths(host.host_home.as_str(), host.container_home.as_str()) {
            Ok((h, c)) => triple(h.as_str(), c.as_str(), m.mode),
            Err(_) => {
                let flag = if m.home_relative {
                    proof {
                        reveal_strlit("true");
                    }
                    "true"
                } else {
                    proof {
                        reveal_strlit("false");
                    }
                    "false"
                };
                triple(m.spec.as_str(), flag, m.mode)
            },
        },
    }
}


/// Mounts, environment, ports, hosts and context gathered by profile
/// resolution.
#[derive(Debug, Clone, PartialEq)]
pub struct ResolvedProfile {
    pub mounts: Vec<Mount>,
    pub env: Vec<String>,
    pub env_passthrough: Vec<String>,
    pub ports: Vec<String>,
    pub hosts: Vec<String>,
    pub context: Vec<String>,
}

/// What a resolved profile holds, as plain values.
pub struct ProfileView {
    pub mounts: Seq<MountView>,
    pub env: Seq<Seq<char>>,
    pub env_passthrough: Seq<Seq<char>>,
    pub ports: Seq<Seq<char>>,
    pub hosts: Seq<Seq<char>>,
    pub context: Seq<Seq<char>>,
}

impl View for ResolvedProfile {
    type V = ProfileView;

    open spec fn view(&self) -> ProfileView {
        ProfileView {
            mounts: mount_views(self.mounts@),
            env: views(self.env@),
            env_passthrough: views(self.env_passthrough@),
            ports: views(self.ports@),
            hosts: views(self.hosts@),
            context: views(self.context@),
        }
    }
}

/// A resolved profile with nothing in it.
pub open spec fn empty_view() -> ProfileView {
    ProfileView {
        mounts: Seq::empty(),
        env: Seq::empty(),
        env_passthrough: Seq::empty(),
        ports: Seq::empty(),
        hosts: Seq::empty(),
        context: Seq::empty(),
    }
}

/// `b` appended to `a`, list by list.
pub open spec fn merge_views(a: ProfileView, b: ProfileView) -> ProfileView {
    ProfileView {
        mounts: a.mounts + b.mounts,
        env: a.env + b.env,
        env_passthrough: a.env_passthrough + b.env_passthrough,
        ports: a.ports + b.ports,
        hosts: a.hosts + b.hosts,
        context: a.context + b.context,
    }
}

/// The specifications of the mounts with a given mode and flag, in order.
pub open spec fn select_specs(ms: Seq<MountView>, mode: MountMode, home_relative: bool) -> Seq<
    Seq<char>,
>
    decreases ms.len(),
{
    if ms.len() == 0 {
        Seq::empty()
    } else {
        let r = select_specs(ms.drop_last(), mode, home_relative);
        if ms.last().mode == mode && ms.last().home_relative == home_relative {
            r.push(ms.last().spec)
        } else {
            r
        }
    }
}

/// Appends clones of the strings of `src` to `dst`.
pub fn extend_strings(dst: &mut Vec<String>, src: &Vec<String>)
    ensures
        views(final(dst)@) == views(old(dst)@) + views(src@),
{
    let mut i: usize = 0;
    while i < src.len()
        invariant
            i <= src@.len(),
            views(dst@) == views(old(dst)@) + views(src@).take(i as int),
        decreases src.len() - i,
    {
        let ghost before = views(dst@);
        dst.push(src[i].clone());
        proof {
            assert(views(dst@) =~= before.push(src@[i as int]@));
            assert(views(src@).take(i + 1) =~= views(src@).take(i as int).push(src@[i as int]@));
        }
        i = i + 1;
    }
    assert(views(src@).take(src@.len() as int) =~= views(src@));
}

/// Appends clones of the mounts of `src` to `dst`.
pub fn extend_mounts(dst: &mut Vec<Mount>, src: &Vec<Mount>)
    ensures
        mount_views(final(dst)@) == mount_views(old(dst)@) + mount_views(src@),
{
    let mut i: usize = 0;
    while i < src.len()
        invariant
            i <= src@.len(),
            mount_views(dst@) == mount_views(old(dst)@) + mount_views(src@).take(i as int),
        decreases src.len() - i,
    {
        let ghost before = mount_views(dst@);
        dst.push(src[i].clone());
        proof {
            assert(mount_views(dst@) =~= before.push(src@[i as int]@));
            assert(mount_views(src@).take(i + 1) =~= mount_views(src@).take(i as int).push(
                src@[i as int]@,
            ));
        }
        i = i + 1;
    }
    assert(mount_views(src@).take(src@.len() as int) =~= mount_views(src@));
}

impl Default for ResolvedProfile {
    fn default() -> (r: ResolvedProfile)
        ensures
            r@ == empty_view(),
    {
        let r = ResolvedProfile {
            mounts: Vec::new(),
            env: Vec::new(),
            env_passthrough: Vec::new(),
            ports: Vec::new(),
            hosts: Vec::new(),
            context: Vec::new(),
        };
        assert(r@.mounts =~= Seq::<MountView>::empty());
        assert(r@.env =~= Seq::<Seq<char>>::empty());
        assert(r@.env_passthrough =~= Seq::<Seq<char>>::empty());
        assert(r@.ports =~= Seq::<Seq<char>>::empty());
        assert(r@.hosts =~= Seq::<Seq<char>>::empty());
        assert(r@.context =~= Seq::<Seq<char>>::empty());
        r
    }
}

impl ResolvedProfile {
    /// Merge another resolved profile into this one: each of its lists is
    /// appended to the matching list here.
    pub fn merge(&mut self, other: &ResolvedProfile)
        ensures
            final(self)@ == merge_views(old(self)@, other@),
    {
        extend_mounts(&mut self.mounts, &other.mounts);
        extend_strings(&mut self.env, &other.env);
        extend_strings(&mut self.env_passthrough, &other.env_passthrough);
        extend_strings(&mut self.ports, &other.ports);
        extend_strings(&mut self.hosts, &other.hosts);
        extend_strings(&mut self.context, &other.context);
    }

    /// Deduplicate mounts by resolved path (first occurrence wins): two mounts
    /// are duplicates when their keys (`mount_key`) agree.
    pub fn dedup_mounts(&mut self, host: &HostPaths)
        ensures
            final(self)@ == (ProfileView {
                mounts: keep_first(
                    old(self)@.mounts,
                    old(self)@.mounts.map_values(|m: MountView| mount_key(m, *host)),
                ),
                ..old(self)@
            }),
    {
        let ghost mv = mount_views(self.mounts@);
        let ghost kv = mv.map_values(|m: MountView| mount_key(m, *host));
        let mut keys: Vec<String> = Vec::new();
        let mut i: usize = 0;
        while i < self.mounts.len()
            invariant
                i <= self.mounts@.len(),
                mv == mount_views(self.mounts@),
                kv == mv.map_values(|m: MountView| mount_key(m, *host)),
                views(keys@) == kv.take(i as int),
            decreases self.mounts.len() - i,
        {
            let k = mount_dedup_key(&self.mounts[i], host);
            let ghost before = views(keys@);
            keys.push(k);
            proof {
                assert(views(keys@) =~= before.push(kv[i as int]));
                assert(kv.take(i + 1) =~= kv.take(i as int).push(kv[i as int]));
            }
            i = i + 1;
        }
        assert(kv.take(i as int) =~= kv);
        let flags = first_occurrence_flags(&keys);
        let mut kept: Vec<Mount> = Vec::new();
        let mut j: usize = 0;
        while j < self.mounts.len()
            invariant
                j <= self.mounts@.len(),
                mv == mount_views(self.mounts@),
                views(keys@) == kv,
                flags@.len() == kv.len(),
                kv.len() == mv.len(),
                forall|t: int| 0 <= t < kv.len() ==> #[trigger] flags@[t] == is_first_occurrence(kv, t),
                mount_views(kept@) == keep_first(mv.take(j as int), kv),
            decreases self.mounts.len() - j,
        {
            proof {
                assert(mv.take(j + 1).drop_last() =~= mv.take(j as int));
                assert(flags@[j as int] == is_first_occurrence(kv, j as int));
            }
            if flags[j] {
                let ghost before = mount_views(kept@);
                kept.push(self.mounts[j].clone());
                assert(mount_views(kept@) =~= before.push(mv[j as int]));
            }
            j = j + 1;
        }
        assert(mv.take(j as int) =~= mv);
        self.mounts = kept;
    }

    /// Deduplicate ports by exact string match (first occurrence wins).
    pub fn dedup_ports(&mut self)
        ensures
            final(self)@ == (ProfileView { ports: dedup_seq(old(self)@.ports), ..old(self)@ }),
    {
        self.ports = dedup_strings(&self.ports);
    }

    /// Deduplicate hosts by exact string match (first occurrence wins).
    pub fn dedup_hosts(&mut self)
        ensures
            final(self)@ == (ProfileView { hosts: dedup_seq(old(self)@.hosts), ..old(self)@ }),
    {
        self.hosts = dedup_strings(&self.hosts);
    }

    /// The specifications of the mounts with a given mode and flag, in order.
    pub fn get_mount_specs(&self, mode: MountMode, home_relative: bool) -> (r: Vec<&str>)
        ensures
            r@.map_values(|s: &str| s@) == select_specs(mount_views(self.mounts@), mode, home_relative),
    {
        let ghost mv = mount_views(self.mounts@);
        let mut r: Vec<&str> = Vec::new();
        let mut i: usize = 0;
        while i < self.mounts.len()
            invariant
                i <= self.mounts@.len(),
                mv == mount_views(self.mounts@),
                r@.map_values(|s: &str| s@) == select_specs(mv.take(i as int), mode, home_relative),
            decreases self.mounts.len() - i,
        {
            proof {
                assert(mv.take(i + 1).drop_last() =~= mv.take(i as int));
            }
            let m = &self.mounts[i];
            if m.mode == mode && m.home_relative == home_relative {
                let ghost before = r@.map_values(|s: &str| s@);
                r.push(m.spec.as_str());
                assert(r@.map_values(|s: &str| s@) =~= before.push(mv[i as int].spec));
            }
            i = i + 1;
        }
        assert(mv.take(i as int) =~= mv);
        r
    }
}

/// What `keep_first` keeps, when each key is `f` of its item: one item for
/// each key of the first `items.len()` keys, no two with the same key, and
/// only items that were there.
pub proof fn lemma_keep_first_keys<A, K>(items: Seq<A>, keys: Seq<K>, f: spec_fn(A) -> K)
    requires
        items.len() <= keys.len(),
        forall|i: int| 0 <= i < items.len() ==> keys[i] == f(#[trigger] items[i]),
    ensures
        keep_first(items, keys).map_values(f).no_duplicates(),
        forall|x: K| #[trigger] keep_first(items, keys).map_values(f).contains(x) <==> keys.take(
            items.len() as int,
        ).contains(x),
        forall|a: A| #[trigger] keep_first(items, keys).contains(a) ==> items.contains(a),
    decreases items.len(),
{
    if items.len() > 0 {
        let n = items.len() - 1;
        let init = items.drop_last();
        assert forall|i: int| 0 <= i < init.len() implies keys[i] == f(#[trigger] init[i]) by {
            assert(init[i] == items[i]);
        }
        lemma_keep_first_keys(init, keys, f);
        let r0 = keep_first(init, keys);
        let k0 = r0.map_values(f);
        assert(keys.take(n + 1) =~= keys.take(n).push(keys[n]));
        assert(keys[n] == f(items[n]));
        let t0 = keys.take(n);
        let t1 = keys.take(n + 1);
        if is_first_occurrence(keys, n) {
            let r = r0.push(items.last());
            assert(r.map_values(f) =~= k0.push(f(items.last())));
            assert(!k0.contains(keys[n]));
            assert forall|x: K| #[trigger] r.map_values(f).contains(x) <==> t1.contains(x) by {
                if r.map_values(f).contains(x) {
                    let j = choose|j: int| 0 <= j < r.map_values(f).len() && r.map_values(f)[j] == x;
                    if j < k0.len() {
                        assert(k0[j] == x);
                        assert(k0.contains(x));
                        let m = choose|m: int| 0 <= m < t0.len() && t0[m] == x;
                        assert(t1[m] == x);
                    } else {
                        assert(t1[n] == x);
                    }
                }
                if t1.contains(x) {
                    let m = choose|m: int| 0 <= m < t1.len() && t1[m] == x;
                    if m < n {
                        assert(t0[m] == x);
                        assert(t0.contains(x));
                        assert(k0.contains(x));
                        let j = choose|j: int| 0 <= j < k0.len() && k0[j] == x;
                        assert(r.map_values(f)[j] == x);
                    } else {
                        assert(r.map_values(f)[k0.len() as int] == x);
                    }
                }
            }
            assert forall|a: A| #[trigger] r.contains(a) implies items.contains(a) by {
                if a != items.last() {
                    let j = choose|j: int| 0 <= j < r.len() && r[j] == a;
                    assert(r0[j] == a);
                    assert(r0.contains(a));
                    let m = choose|m: int| 0 <= m < init.len() && init[m] == a;
                    assert(items[m] == a);
                } else {
                    assert(items[n] == a);
                }
            }
        } else {
            assert(keys.take(n).contains(keys[n]));
            assert forall|x: K| #[trigger] k0.contains(x) <==> t1.contains(x) by {
                if k0.contains(x) {
                    let m = choose|m: int| 0 <= m < t0.len() && t0[m] == x;
                    assert(t1[m] == x);
                }
                if t1.contains(x) {
                    let m = choose|m: int| 0 <= m < t1.len() && t1[m] == x;
                    if m < n {
                        assert(t0[m] == x);
                    } else {
                        assert(x == keys[n]);
                    }
                    assert(t0.contains(x));
                }
            }
            assert forall|a: A| #[trigger] r0.contains(a) implies items.contains(a) by {
                let m = choose|m: int| 0 <= m < init.len() && init[m] == a;
                assert(items[m] == a);
            }
        }
    } else {
        assert(keys.take(0) =~= Seq::<K>::empty());
        assert(keep_first(items, keys).map_values(f) =~= Seq::<K>::empty());
    }
}

/// A sequence without repeats is kept whole.
pub proof fn lemma_keep_first_distinct<A>(s: Seq<A>, all: Seq<A>)
    requires
        s.len() <= all.len(),
        s == all.take(s.len() as int),
        all.take(s.len() as int).no_duplicates(),
    ensures
        keep_first(s, all) == s,
    decreases s.len(),
{
    if s.len() > 0 {
        let n = s.len() - 1;
        assert(s.drop_last() =~= all.take(n));
        assert(all.take(n).no_duplicates());
        lemma_keep_first_distinct(s.drop_last(), all);
        assert(!all.take(n).contains(all[n])) by {
            if all.take(n).contains(all[n]) {
                let j = choose|j: int| 0 <= j < n && all.take(n)[j] == all[n];
                assert(all.take(s.len() as int)[j] == all.take(s.len() as int)[n]);
            }
        }
        assert(s.drop_last().push(s.last()) =~= s);
    }
}

/// Deduplication leaves each value once, in the order of its first
/// occurrence: no value twice, and exactly the values that were there.
pub proof fn law_dedup_keeps_one_of_each<A>(s: Seq<A>)
    ensures
        dedup_seq(s).no_duplicates(),
        forall|x: A| #[trigger] dedup_seq(s).contains(x) <==> s.contains(x),
{
    let id = |a: A| a;
    assert forall|i: int| 0 <= i < s.len() implies s[i] == id(#[trigger] s[i]) by {}
    lemma_keep_first_keys(s, s, id);
    assert(dedup_seq(s).map_values(id) =~= dedup_seq(s));
    assert(s.take(s.len() as int) =~= s);
}

/// Deduplicating twice gives what deduplicating once gives.
pub proof fn law_dedup_idempotent<A>(s: Seq<A>)
    ensures
        dedup_seq(dedup_seq(s)) == dedup_seq(s),
{
    let d = dedup_seq(s);
    law_dedup_keeps_one_of_each(s);
    assert(d.take(d.len() as int) =~= d);
    lemma_keep_first_distinct(d, d);
}

/// Deduplicated mounts have distinct keys (resolved host path and mode),
/// one mount for each key among the input mounts.
pub proof fn law_mount_dedup_distinct(ms: Seq<MountView>, host: HostPaths)
    ensures
        ({
            let f = |m: MountView| mount_key(m, host);
            let kept = keep_first(ms, ms.map_values(f));
            &&& kept.map_values(f).no_duplicates()
            &&& forall|k: Seq<char>| #[trigger] kept.map_values(f).contains(k) <==> ms.map_values(f).contains(k)
        }),
{
    let f = |m: MountView| mount_key(m, host);
    let keys = ms.map_values(f);
    assert forall|i: int| 0 <= i < ms.len() implies keys[i] == f(#[trigger] ms[i]) by {}
    lemma_keep_first_keys(ms, keys, f);
    assert(keys.take(ms.len() as int) =~= keys);
}

/// A mode's flag text reads back as the same mode.
pub proof fn law_mount_mode_round_trip(m: MountMode)
    ensures
        parse_mode_text(mode_text(m)) == Some(m),
{
}

/// Mount equality is symmetric and transitive, and reflexive on mounts
/// whose paths resolve (a mount whose paths do not resolve equals no mount,
/// itself included: `~/a:x`, say, whose destination is not absolute).
pub proof fn law_mount_equality(a: MountView, b: MountView, c: MountView)
    ensures
        mounts_equal(a, b) == mounts_equal(b, a),
        mounts_equal(a, b) && mounts_equal(b, c) ==> mounts_equal(a, c),
        resolve_paths_spec(a, "/home/user"@, "/home/user"@) is Ok ==> mounts_equal(a, a),
{
}

/// The container user's home: `/home/<user>`, the user taken from `USER`,
/// else `LOGNAME`, else `user`.
pub fn container_home_for(user: Option<&str>, logname: Option<&str>) -> (r: String)
    ensures
        r@ == "/home/"@ + match user {
            Some(u) => u@,
            None => match logname {
                Some(l) => l@,
                None => "user"@,
            },
        },
{
    let mut r = String::from_str("/home/");
    match user {
        Some(u) => r.append(u),
        None => match logname {
            Some(l) => r.append(l),
            None => r.append("user"),
        },
    }
    r
}

/// One step along a mount's symlink chain.
#[derive(Debug, Clone)]
pub enum ChainStep {
    /// The canonical path was mounted already: the chain ends.
    Done,
    /// `path` is a symbolic link: mount the link itself, then follow it to
    /// `next`.
    Link { mount: ResolvedMount, next: String },
    /// `path` is no link: mount its canonical path; the chain ends.
    Target { mount: ResolvedMount },
}

/// Where a link at `path` leads: its target when absolute, else the target
/// below the link's directory.
pub open spec fn link_next(path: Seq<char>, target: Seq<char>) -> Seq<char> {
    if target.len() > 0 && target[0] == '/' {
        target
    } else {
        match crate::path::parent_path(path) {
            Some(dir) => crate::pathname::join_path(dir, target),
            None => target,
        }
    }
}

impl Mount {
    /// The step of the symlink chain at `path`, whose canonical form is
    /// `canonical`, with `seen` the canonical paths mounted so far and
    /// `link_target` the link's target when `path` is a symbolic link: a
    /// link is mounted as itself and followed; another path is mounted by
    /// its canonical form. Container paths are derived from host paths (see
    /// `derive_container_path`).
    pub fn chain_step(
        &self,
        path: &str,
        canonical: &str,
        seen: &Vec<String>,
        link_target: Option<&str>,
        host_home: &str,
        container_home: &str,
    ) -> (r: ChainStep)
        ensures
            views(seen@).contains(canonical@) ==> r is Done,
            !views(seen@).contains(canonical@) ==> match link_target {
                Some(t) => r matches ChainStep::Link { mount, next } && mount.host@ == path@
                    && mount.container@ == derive_container_spec(self.home_relative, path@, host_home@, container_home@)
                    && mount.mode == self.mode && next@ == link_next(path@, t@),
                None => r matches ChainStep::Target { mount } && mount.host@ == canonical@
                    && mount.container@ == derive_container_spec(
                    self.home_relative,
                    canonical@,
                    host_home@,
                    container_home@,
                ) && mount.mode == self.mode,
            },
    {
        if crate::text::contains_str(seen, canonical) {
            return ChainStep::Done;
        }
        match link_target {
            Some(t) => {
                let mount = ResolvedMount {
                    host: path.to_string(),
                    container: self.derive_container_path(path, host_home, container_home),
                    mode: self.mode,
                };
                let tc = chars_of(t);
                let next = if tc.len() > 0 && tc[0] == '/' {
                    t.to_string()
                } else {
                    match crate::path::parent_of(path) {
                        Some(dir) => crate::pathname::join_path_str(dir.as_str(), t),
                        None => t.to_string(),
                    }
                };
                ChainStep::Link { mount, next }
            },
            None => ChainStep::Target {
                mount: ResolvedMount {
                    host: canonical.to_string(),
                    container: self.derive_container_path(canonical, host_home, container_home),
                    mode: self.mode,
                },
            },
        }
    }
}


/// Selecting from two runs of mounts selects from each, in order.
pub proof fn lemma_select_concat(a: Seq<MountView>, b: Seq<MountView>, mode: MountMode, home_relative: bool)
    ensures
        select_specs(a + b, mode, home_relative) == select_specs(a, mode, home_relative) + select_specs(
            b,
            mode,
            home_relative,
        ),
    decreases b.len(),
{
    if b.len() == 0 {
        assert(a + b =~= a);
        assert(select_specs(a, mode, home_relative) + select_specs(b, mode, home_relative) =~= select_specs(
            a,
            mode,
            home_relative,
        ));
    } else {
        assert((a + b).drop_last() =~= a + b.drop_last());
        assert((a + b).last() == b.last());
        lemma_select_concat(a, b.drop_last(), mode, home_relative);
        if b.last().mode == mode && b.last().home_relative == home_relative {
            assert(select_specs(a + b, mode, home_relative) =~= select_specs(a, mode, home_relative)
                + select_specs(b.drop_last(), mode, home_relative).push(b.last().spec));
        } else {
            assert(select_specs(a + b, mode, home_relative) =~= select_specs(a, mode, home_relative)
                + select_specs(b.drop_last(), mode, home_relative));
        }
    }
}

/// Selecting from one table's mounts gives the table's specifications when
/// the mode and flag are the table's, and nothing otherwise.
pub proof fn lemma_select_tagged(specs: Seq<String>, h: bool, m: MountMode, mode: MountMode, home_relative: bool)
    ensures
        select_specs(tagged(specs, h, m), mode, home_relative) == if m == mode && h == home_relative {
            views(specs)
        } else {
            Seq::empty()
        },
    decreases specs.len(),
{
    if specs.len() > 0 {
        lemma_select_tagged(specs.drop_last(), h, m, mode, home_relative);
        assert(tagged(specs, h, m).drop_last() =~= tagged(specs.drop_last(), h, m));
        if m == mode && h == home_relative {
            assert(views(specs) =~= views(specs.drop_last()).push(specs.last()@));
        }
    } else {
        assert(tagged(specs, h, m) =~= Seq::<MountView>::empty());
        assert(views(specs) =~= Seq::<Seq<char>>::empty());
    }
}

/// The mounts of a table selected by mode and flag: each of its six lists
/// contributes its specifications exactly when its mode and flag match.
proof fn lemma_select_mounts_of(c: MountsConfig, mode: MountMode, h: bool)
    ensures
        select_specs(mounts_of(c), mode, h) == (if mode == MountMode::Ro && !h {
            views(c.ro.absolute@)
        } else {
            Seq::empty()
        }) + (if mode == MountMode::Ro && h {
            views(c.ro.home_relative@)
        } else {
            Seq::empty()
        }) + (if mode == MountMode::Rw && !h {
            views(c.rw.absolute@)
        } else {
            Seq::empty()
        }) + (if mode == MountMode::Rw && h {
            views(c.rw.home_relative@)
        } else {
            Seq::empty()
        }) + (if mode == MountMode::Overlay && !h {
            views(c.o.absolute@)
        } else {
            Seq::empty()
        }) + (if mode == MountMode::Overlay && h {
            views(c.o.home_relative@)
        } else {
            Seq::empty()
        }),
{
    let t0 = tagged(c.ro.absolute@, false, MountMode::Ro);
    let t1 = tagged(c.ro.home_relative@, true, MountMode::Ro);
    let t2 = tagged(c.rw.absolute@, false, MountMode::Rw);
    let t3 = tagged(c.rw.home_relative@, true, MountMode::Rw);
    let t4 = tagged(c.o.absolute@, false, MountMode::Overlay);
    let t5 = tagged(c.o.home_relative@, true, MountMode::Overlay);
    assert(mounts_of(c) == t0 + t1 + t2 + t3 + t4 + t5);
    lemma_select_concat(t0 + t1 + t2 + t3 + t4, t5, mode, h);
    lemma_select_concat(t0 + t1 + t2 + t3, t4, mode, h);
    lemma_select_concat(t0 + t1 + t2, t3, mode, h);
    lemma_select_concat(t0 + t1, t2, mode, h);
    lemma_select_concat(t0, t1, mode, h);
    lemma_select_tagged(c.ro.absolute@, false, MountMode::Ro, mode, h);
    lemma_select_tagged(c.ro.home_relative@, true, MountMode::Ro, mode, h);
    lemma_select_tagged(c.rw.absolute@, false, MountMode::Rw, mode, h);
    lemma_select_tagged(c.rw.home_relative@, true, MountMode::Rw, mode, h);
    lemma_select_tagged(c.o.absolute@, false, MountMode::Overlay, mode, h);
    lemma_select_tagged(c.o.home_relative@, true, MountMode::Overlay, mode, h);
}

/// The mounts made from a mounts table, read back by mode and flag (as
/// `ResolvedProfile::get_mount_specs` reads them), give each list of the
/// table again: every `rw` path becomes a read-write mount, every `ro` path a
/// read-only one, every `o` path an overlay, each absolute or home-relative
/// as its list says, in order, and no mount comes from elsewhere.
pub proof fn law_mount_tables_round_trip(c: MountsConfig)
    ensures
        select_specs(mounts_of(c), MountMode::Ro, false) == views(c.ro.absolute@),
        select_specs(mounts_of(c), MountMode::Ro, true) == views(c.ro.home_relative@),
        select_specs(mounts_of(c), MountMode::Rw, false) == views(c.rw.absolute@),
        select_specs(mounts_of(c), MountMode::Rw, true) == views(c.rw.home_relative@),
        select_specs(mounts_of(c), MountMode::Overlay, false) == views(c.o.absolute@),
        select_specs(mounts_of(c), MountMode::Overlay, true) == views(c.o.home_relative@),
        mounts_of(c).len() == c.ro.absolute@.len() + c.ro.home_relative@.len() + c.rw.absolute@.len()
            + c.rw.home_relative@.len() + c.o.absolute@.len() + c.o.home_relative@.len(),
{
    let e = Seq::<Seq<char>>::empty();
    lemma_select_mounts_of(c, MountMode::Ro, false);
    assert(select_specs(mounts_of(c), MountMode::Ro, false) =~= views(c.ro.absolute@) + e + e + e + e + e);
    lemma_select_mounts_of(c, MountMode::Ro, true);
    assert(select_specs(mounts_of(c), MountMode::Ro, true) =~= e + views(c.ro.home_relative@) + e + e + e + e);
    lemma_select_mounts_of(c, MountMode::Rw, false);
    assert(select_specs(mounts_of(c), MountMode::Rw, false) =~= e + e + views(c.rw.absolute@) + e + e + e);
    lemma_select_mounts_of(c, MountMode::Rw, true);
    assert(select_specs(mounts_of(c), MountMode::Rw, true) =~= e + e + e + views(c.rw.home_relative@) + e + e);
    lemma_select_mounts_of(c, MountMode::Overlay, false);
    assert(select_specs(mounts_of(c), MountMode::Overlay, false) =~= e + e + e + e + views(c.o.absolute@) + e);
    lemma_select_mounts_of(c, MountMode::Overlay, true);
    assert(select_specs(mounts_of(c), MountMode::Overlay, true) =~= e + e + e + e + e + views(c.o.home_relative@));
}


/// A specification without `:` is a single path, used for both sides.
proof fn lemma_no_colon_single(spec: Seq<char>)
    requires
        !spec.contains(':'),
    ensures
        spec_sides(spec) == (spec, spec, false),
{
    lemma_find_from_spec(spec, seq![':'], 0);
    match find_char(spec, ':') {
        Some(k) => {
            assert(spec.subrange(k, k + 1)[0] == spec[k]);
            assert(spec[k] == ':');
            assert(false);
        },
        None => {},
    }
}

/// Canonicalizing that leaves the host path as it is changes nothing: when
/// the canonical form of the expanded host path is that path itself, both
/// sides resolve as they do before canonicalization.
pub proof fn law_canonical_identity(
    m: MountView,
    host_home: Seq<char>,
    container_home: Seq<char>,
    canonical: NamedMap<String>,
    host: Seq<char>,
    container: Seq<char>,
)
    requires
        resolve_paths_spec(m, host_home, container_home) == Ok::<(Seq<char>, Seq<char>), MountFailure>(
            (host, container),
        ),
        canonical.spec_get(host) matches Some(h) && h@ == host,
    ensures
        resolve_canonical_spec(m, host_home, container_home, canonical) == Ok::<
            (Seq<char>, Seq<char>),
            MountFailure,
        >((host, container)),
{
    if container != host && m.home_relative && !m.spec.contains(':') {
        lemma_no_colon_single(m.spec);
        let (hs, cs, explicit) = spec_sides(m.spec);
        assert(!explicit);
        assert(container == rehome(host, host_home, container_home));
    }
}

/// A home-relative single-path mount under the host home lands under the
/// container home: whatever the host path canonicalizes to below the host
/// home, the container path is the container home followed by the same
/// rest.
pub proof fn law_home_relative_rehomed(
    m: MountView,
    host_home: Seq<char>,
    container_home: Seq<char>,
    canonical: NamedMap<String>,
    host: Seq<char>,
    container: Seq<char>,
    hc: Seq<char>,
    c: Seq<char>,
)
    requires
        m.home_relative,
        !m.spec.contains(':'),
        resolve_paths_spec(m, host_home, container_home) == Ok::<(Seq<char>, Seq<char>), MountFailure>(
            (host, container),
        ),
        starts_with(host, host_home),
        resolve_canonical_spec(m, host_home, container_home, canonical) == Ok::<
            (Seq<char>, Seq<char>),
            MountFailure,
        >((hc, c)),
        starts_with(hc, host_home),
    ensures
        c == container_home + hc.skip(host_home.len() as int),
        container == container_home + host.skip(host_home.len() as int),
{
    lemma_no_colon_single(m.spec);
    let (hs, cs, explicit) = spec_sides(m.spec);
    assert(!explicit);
    let rest = host.skip(host_home.len() as int);
    assert(container == container_home + rest);
    if container == host {
        assert(host =~= host_home + rest);
        assert(container_home.len() == host_home.len());
        assert(container_home =~= host_home) by {
            assert forall|i: int| 0 <= i < container_home.len() implies container_home[i] == host_home[i] by {
                assert(container[i] == container_home[i]);
                assert(host[i] == host_home[i]);
            }
        }
        assert(hc =~= host_home + hc.skip(host_home.len() as int));
    }
}

} // verus!
