//! Profile resolution: a profile's `extends` chain is resolved depth-first
//! before the profile itself, and the lists of every applied profile are
//! appended in order.

use vstd::prelude::*;
use crate::config::{
    dedup_seq, empty_view, extend_mounts, extend_strings, keep_first, merge_views, mount_key,
    mounts_of, Config, HostPaths, MountView, ProfileConfig, ProfileView,
    ResolvedProfile,
};
use crate::named_map::NamedMap;
use crate::text::{clone_strings, contains_str, first_index, join_strings, join_with, lemma_first_index, views};

verus! {

/// How many names of `keys` are not yet on the `visited` chain.
pub open spec fn unvisited(keys: Seq<Seq<char>>, visited: Seq<Seq<char>>) -> nat {
    keys.to_set().difference(visited.to_set()).len()
}

/// Putting a new known name on the chain leaves fewer names unvisited.
pub proof fn lemma_unvisited_step(keys: Seq<Seq<char>>, visited: Seq<Seq<char>>, name: Seq<char>)
    requires
        keys.contains(name),
        !visited.contains(name),
    ensures
        unvisited(keys, visited.push(name)) < unvisited(keys, visited),
{
    let a = keys.to_set();
    let v = visited.to_set();
    vstd::seq_lib::seq_to_set_is_finite(keys);
    visited.lemma_push_to_set_commute(name);
    vstd::set::axiom_set_difference_finite(a, v);
    assert(a.difference(v.insert(name)) =~= a.difference(v).remove(name));
    assert(a.contains(name));
    assert(!v.contains(name));
    assert(a.difference(v).contains(name));
    vstd::set::axiom_set_remove_len(a.difference(v), name);
}

/// A name that `spec_get` finds is one of the keys.
pub proof fn lemma_get_is_key<V>(m: NamedMap<V>, k: Seq<char>)
    ensures
        m.spec_get(k) is Some <==> m.key_list().contains(k),
{
    lemma_first_index(m.key_list(), k);
}

/// Why profile resolution failed.
pub enum ProfileFailure {
    /// A profile was reached again along its own `extends` chain; the chain
    /// of names visited so far is given.
    Circular(Seq<char>, Seq<Seq<char>>),
    /// A profile name that is not defined.
    Unknown(Seq<char>),
}

/// What one profile adds by itself (without what it extends).
pub open spec fn own_view(p: ProfileConfig) -> ProfileView {
    ProfileView {
        mounts: mounts_of(p.mounts),
        env: views(p.env@),
        env_passthrough: views(p.env_passthrough@),
        ports: views(p.ports@),
        hosts: views(p.hosts@),
        context: if p.context@.len() == 0 {
            Seq::empty()
        } else {
            seq![p.context@]
        },
    }
}

/// A profile resolved with its `extends` chain, given the chain of names
/// already being resolved: the extended profiles in order, then the profile
/// itself.
pub open spec fn resolve_one(ps: NamedMap<ProfileConfig>, name: Seq<char>, visited: Seq<Seq<char>>)
    -> Result<ProfileView, ProfileFailure>
    decreases unvisited(ps.key_list(), visited), 0nat, 0nat,
{
    if visited.contains(name) {
        Err(ProfileFailure::Circular(name, visited))
    } else {
        match ps.spec_get(name) {
            None => Err(ProfileFailure::Unknown(name)),
            Some(p) => {
                proof {
                    lemma_get_is_key(ps, name);
                    lemma_unvisited_step(ps.key_list(), visited, name);
                }
                match resolve_parents(ps, views(p.extends@), visited.push(name)) {
                    Err(e) => Err(e),
                    Ok(acc) => Ok(merge_views(acc, own_view(p))),
                }
            },
        }
    }
}

/// Several profiles resolved in order and appended; the first failure in
/// that order is the result when one fails.
pub open spec fn resolve_parents(
    ps: NamedMap<ProfileConfig>,
    parents: Seq<Seq<char>>,
    visited: Seq<Seq<char>>,
) -> Result<ProfileView, ProfileFailure>
    decreases unvisited(ps.key_list(), visited), 1nat, parents.len(),
{
    if parents.len() == 0 {
        Ok(empty_view())
    } else {
        match resolve_parents(ps, parents.drop_last(), visited) {
            Err(e) => Err(e),
            Ok(acc) => match resolve_one(ps, parents.last(), visited) {
                Err(e) => Err(e),
                Ok(r) => Ok(merge_views(acc, r)),
            },
        }
    }
}

/// Once some first parents fail to resolve, all of them fail the same way.
pub proof fn lemma_parents_prefix_err(
    ps: NamedMap<ProfileConfig>,
    parents: Seq<Seq<char>>,
    visited: Seq<Seq<char>>,
    k: int,
)
    requires
        0 <= k <= parents.len(),
        resolve_parents(ps, parents.take(k), visited) is Err,
    ensures
        resolve_parents(ps, parents, visited) == resolve_parents(ps, parents.take(k), visited),
    decreases parents.len(),
{
    if parents.len() == k {
        assert(parents.take(k) =~= parents);
    } else {
        assert(parents.drop_last().take(k) =~= parents.take(k));
        lemma_parents_prefix_err(ps, parents.drop_last(), visited, k);
    }
}

/// Profile resolution failed.
#[derive(Debug, Clone)]
pub enum ProfileError {
    /// Circular profile dependency: `name` was already on the chain
    /// `visited` (a set of names; here in the order the chain reached them).
    Circular { name: String, visited: Vec<String> },
    /// `name` is not a defined profile; `available` lists the defined ones.
    Unknown { name: String, available: Vec<String> },
}

/// The exec error `e` reports the failure `f`.
pub open spec fn reports(e: ProfileError, f: ProfileFailure, keys: Seq<Seq<char>>) -> bool {
    match (e, f) {
        (ProfileError::Circular { name, visited }, ProfileFailure::Circular(n, v)) => name@ == n
            && views(visited@) == v,
        (ProfileError::Unknown { name, available }, ProfileFailure::Unknown(n)) => name@ == n
            && views(available@) == keys,
        _ => false,
    }
}

/// `format!("{:?}", s)` of a string: the string quoted, with special
/// characters escaped. Its text depends on the string alone.
pub uninterp spec fn debug_str_text(s: Seq<char>) -> Seq<char>;

/// `format!("{:?}", s)` for a string: its text is `debug_str_text` of it.
#[verifier::external_body]
fn debug_str(s: &str) -> (r: String)
    ensures
        r@ == debug_str_text(s@),
{
    format!("{:?}", s)
}

/// The `Debug` texts of strings, separated by `, `.
pub open spec fn debug_items(items: Seq<Seq<char>>) -> Seq<char> {
    join_with(items.map_values(|s: Seq<char>| debug_str_text(s)), ", "@)
}

/// `Debug` text of a list of strings: `["a", "b"]`.
pub open spec fn debug_list_text(items: Seq<Seq<char>>) -> Seq<char> {
    "["@ + debug_items(items) + "]"@
}

/// `Debug` text of a set of strings, its items in the given order: `{"a", "b"}`.
pub open spec fn debug_set_text(items: Seq<Seq<char>>) -> Seq<char> {
    "{"@ + debug_items(items) + "}"@
}

fn debug_items_of(items: &Vec<String>) -> (r: String)
    ensures
        r@ == debug_items(views(items@)),
{
    let ghost texts = views(items@).map_values(|s: Seq<char>| debug_str_text(s));
    let mut r = String::new();
    let mut i: usize = 0;
    while i < items.len()
        invariant
            i <= items@.len(),
            texts == views(items@).map_values(|s: Seq<char>| debug_str_text(s)),
            r@ == join_with(texts.take(i as int), ", "@),
        decreases items.len() - i,
    {
        if i > 0 {
            r.append(", ");
        }
        r.append(debug_str(items[i].as_str()).as_str());
        proof {
            assert(texts.take(i + 1).drop_last() =~= texts.take(i as int));
            assert(texts[i as int] == debug_str_text(items@[i as int]@));
            if i == 0 {
                assert(r@ =~= texts.take(1)[0]);
            }
        }
        i = i + 1;
    }
    proof {
        assert(texts.take(i as int) =~= texts);
    }
    r
}

/// `format!("{:?}", items)` for a list of strings (see `debug_list_text`).
pub(crate) fn debug_list(items: &Vec<String>) -> (r: String)
    ensures
        r@ == debug_list_text(views(items@)),
{
    let mut r = String::from_str("[");
    r.append(debug_items_of(items).as_str());
    r.append("]");
    r
}

/// The `Debug` text of a set holding `items`, listed in their order (see
/// `debug_set_text`).
pub(crate) fn debug_set(items: &Vec<String>) -> (r: String)
    ensures
        r@ == debug_set_text(views(items@)),
{
    let mut r = String::from_str("{");
    r.append(debug_items_of(items).as_str());
    r.append("}");
    r
}

impl ProfileError {
    /// The error as shown to a user.
    pub fn message(&self) -> (r: String)
        ensures
            r@ == match self {
                ProfileError::Circular { name, visited } =>
                    "Circular profile dependency detected: '"@ + name@
                        + "' was already visited in chain: "@ + debug_set_text(views(visited@)),
                ProfileError::Unknown { name, available } => "Unknown profile '"@ + name@
                    + "'. Available profiles: "@ + debug_list_text(views(available@)),
            },
    {
        match self {
            ProfileError::Circular { name, visited } => {
                let mut r = String::from_str("Circular profile dependency detected: '");
                r.append(name.as_str());
                r.append("' was already visited in chain: ");
                r.append(debug_set(visited).as_str());
                r
            },
            ProfileError::Unknown { name, available } => {
                let mut r = String::from_str("Unknown profile '");
                r.append(name.as_str());
                r.append("'. Available profiles: ");
                r.append(debug_list(available).as_str());
                r
            },
        }
    }
}

/// Resolve a single profile with its extends chain; `visited` is the chain
/// of profiles being resolved, used to detect cycles. On success the chain
/// is as it was.
fn resolve_single_profile(config: &Config, profile_name: &str, visited: &mut Vec<String>) -> (r:
    Result<ResolvedProfile, ProfileError>)
    ensures
        match resolve_one(config.profiles, profile_name@, views(old(visited)@)) {
            Ok(v) => r matches Ok(p) && p@ == v && views(final(visited)@) == views(old(visited)@),
            Err(f) => r matches Err(e) && reports(e, f, config.profiles.key_list()),
        },
    decreases unvisited(config.profiles.key_list(), views(old(visited)@)),
{
    let ghost ps = config.profiles;
    let ghost v0 = views(visited@);
    if contains_str(visited, profile_name) {
        return Err(
            ProfileError::Circular { name: profile_name.to_owned(), visited: clone_strings(visited) },
        );
    }
    let profile = match config.profiles.get(profile_name) {
        Some(p) => p,
        None => {
            return Err(
                ProfileError::Unknown {
                    name: profile_name.to_owned(),
                    available: config.profiles.keys(),
                },
            );
        },
    };
    proof {
        lemma_get_is_key(ps, profile_name@);
        lemma_unvisited_step(ps.key_list(), v0, profile_name@);
    }
    visited.push(profile_name.to_owned());
    let ghost v1 = views(visited@);
    assert(v1 =~= v0.push(profile_name@));
    let ghost parents = views(profile.extends@);
    let mut resolved = ResolvedProfile::default();
    let mut i: usize = 0;
    while i < profile.extends.len()
        invariant
            ps == config.profiles,
            i <= profile.extends@.len(),
            parents == views(profile.extends@),
            views(visited@) == v1,
            unvisited(ps.key_list(), v1) < unvisited(ps.key_list(), v0),
            v0 == views(old(visited)@),
            v1 == v0.push(profile_name@),
            !v0.contains(profile_name@),
            ps.spec_get(profile_name@) == Some(*profile),
            resolve_parents(ps, parents.take(i as int), v1) == Ok::<ProfileView, ProfileFailure>(
                resolved@,
            ),
        decreases profile.extends.len() - i,
    {
        let ghost t1 = parents.take(i + 1);
        proof {
            assert(t1.drop_last() =~= parents.take(i as int));
            assert(t1.last() == profile.extends@[i as int]@);
        }
        let parent_resolved = match resolve_single_profile(config, profile.extends[i].as_str(), visited) {
            Ok(p) => p,
            Err(e) => {
                proof {
                    assert(resolve_parents(ps, t1, v1) is Err);
                    lemma_parents_prefix_err(ps, parents, v1, i + 1);
                }
                return Err(e);
            },
        };
        let ghost before = resolved@;
        resolved.merge(&parent_resolved);
        i = i + 1;
    }
    proof {
        assert(parents.take(i as int) =~= parents);
    }
    let ghost acc = resolved@;
    let own = profile.mounts.to_mounts();
    extend_mounts(&mut resolved.mounts, &own);
    extend_strings(&mut resolved.env, &profile.env);
    extend_strings(&mut resolved.env_passthrough, &profile.env_passthrough);
    extend_strings(&mut resolved.ports, &profile.ports);
    extend_strings(&mut resolved.hosts, &profile.hosts);
    if !profile.context.as_str().is_empty() {
        let ghost before = views(resolved.context@);
        resolved.context.push(profile.context.clone());
        assert(views(resolved.context@) =~= before + seq![profile.context@]);
    } else {
        assert(views(resolved.context@) =~= views(resolved.context@) + Seq::<Seq<char>>::empty());
    }
    let ghost before_pop = visited@;
    visited.pop();
    proof {
        assert(visited@ =~= before_pop.drop_last());
        assert(views(visited@) =~= views(before_pop).drop_last());
        assert(views(visited@) =~= v0);
        assert(resolved@ == merge_views(acc, own_view(*profile)));
    }
    Ok(resolved)
}


/// The profiles applied by a resolution, in order: the default profile (if
/// set), then the requested ones.
pub open spec fn apply_names(config: Config, names: Seq<Seq<char>>) -> Seq<Seq<char>> {
    match config.default_profile {
        Some(d) => seq![d@] + names,
        None => names,
    }
}

/// The runtime settings every resolution starts from: runtime mounts,
/// environment, ports, hosts, and the root context when it is not empty.
pub open spec fn base_view(config: Config) -> ProfileView {
    ProfileView {
        mounts: mounts_of(config.runtime.mounts),
        env: views(config.runtime.env@),
        env_passthrough: views(config.runtime.env_passthrough@),
        ports: views(config.runtime.ports@),
        hosts: views(config.runtime.hosts@),
        context: if config.context@.len() == 0 {
            Seq::empty()
        } else {
            seq![config.context@]
        },
    }
}

/// The result of resolving `names` against `config`: the runtime settings,
/// then each applied profile with its chain, appended in order; then mounts
/// deduplicated by `mount_key`, and ports and hosts by text (first
/// occurrence wins).
pub open spec fn resolution(config: Config, names: Seq<Seq<char>>, host: HostPaths) -> Result<
    ProfileView,
    ProfileFailure,
> {
    match resolve_parents(config.profiles, apply_names(config, names), Seq::empty()) {
        Err(e) => Err(e),
        Ok(acc) => {
            let m = merge_views(base_view(config), acc);
            Ok(
                ProfileView {
                    mounts: keep_first(m.mounts, m.mounts.map_values(|x: MountView| mount_key(x, host))),
                    ports: dedup_seq(m.ports),
                    hosts: dedup_seq(m.hosts),
                    ..m
                },
            )
        },
    }
}

/// Returns the names of the profiles that will be applied, in order: the
/// default profile (if set) followed by the requested profiles.
pub fn collect_profiles_to_apply<'a>(config: &'a Config, profile_names: &'a [String]) -> (r: Vec<
    &'a str,
>)
    ensures
        r@.map_values(|s: &str| s@) == apply_names(*config, views(profile_names@)),
{
    let mut r: Vec<&'a str> = Vec::new();
    if let Some(d) = &config.default_profile {
        r.push(d.as_str());
    }
    let ghost start = r@.map_values(|s: &str| s@);
    let mut i: usize = 0;
    while i < profile_names.len()
        invariant
            i <= profile_names@.len(),
            start == match config.default_profile {
                Some(d) => seq![d@],
                None => Seq::<Seq<char>>::empty(),
            },
            r@.map_values(|s: &str| s@) == start + views(profile_names@).take(i as int),
        decreases profile_names.len() - i,
    {
        let ghost before = r@.map_values(|s: &str| s@);
        r.push(profile_names[i].as_str());
        proof {
            assert(r@.map_values(|s: &str| s@) =~= before.push(profile_names@[i as int]@));
            assert(views(profile_names@).take(i + 1) =~= views(profile_names@).take(i as int).push(
                profile_names@[i as int]@,
            ));
        }
        i = i + 1;
    }
    proof {
        assert(views(profile_names@).take(i as int) =~= views(profile_names@));
        if config.default_profile is None {
            assert(start + views(profile_names@) =~= views(profile_names@));
        }
    }
    r
}

/// Appending `c` after `b` after `a` does not depend on the grouping.
pub proof fn lemma_merge_assoc(a: ProfileView, b: ProfileView, c: ProfileView)
    ensures
        merge_views(merge_views(a, b), c) == merge_views(a, merge_views(b, c)),
{
    assert(merge_views(merge_views(a, b), c).mounts =~= merge_views(a, merge_views(b, c)).mounts);
    assert(merge_views(merge_views(a, b), c).env =~= merge_views(a, merge_views(b, c)).env);
    assert(merge_views(merge_views(a, b), c).env_passthrough =~= merge_views(
        a,
        merge_views(b, c),
    ).env_passthrough);
    assert(merge_views(merge_views(a, b), c).ports =~= merge_views(a, merge_views(b, c)).ports);
    assert(merge_views(merge_views(a, b), c).hosts =~= merge_views(a, merge_views(b, c)).hosts);
    assert(merge_views(merge_views(a, b), c).context =~= merge_views(a, merge_views(b, c)).context);
}

/// Appending nothing changes nothing.
pub proof fn lemma_merge_empty(a: ProfileView)
    ensures
        merge_views(a, empty_view()) == a,
{
    assert(merge_views(a, empty_view()).mounts =~= a.mounts);
    assert(merge_views(a, empty_view()).env =~= a.env);
    assert(merge_views(a, empty_view()).env_passthrough =~= a.env_passthrough);
    assert(merge_views(a, empty_view()).ports =~= a.ports);
    assert(merge_views(a, empty_view()).hosts =~= a.hosts);
    assert(merge_views(a, empty_view()).context =~= a.context);
}

/// Resolve profiles with inheritance, returning merged mounts, environment,
/// ports, hosts and context.
///
/// Resolution order: the runtime settings first, then the default profile
/// (if set), then each profile of `profile_names` in order. Each profile's
/// `extends` chain is resolved depth-first before the profile itself. Mounts
/// are then deduplicated by resolved path (`host` tells the homes and the
/// canonical host paths), ports and hosts by text.
pub fn resolve_profiles(config: &Config, profile_names: &[String], host: &HostPaths) -> (r: Result<
    ResolvedProfile,
    ProfileError,
>)
    ensures
        match resolution(*config, views(profile_names@), *host) {
            Ok(v) => r matches Ok(p) && p@ == v,
            Err(f) => r matches Err(e) && reports(e, f, config.profiles.key_list()),
        },
{
    let ghost ps = config.profiles;
    let mut resolved = ResolvedProfile {
        mounts: config.runtime.mounts.to_mounts(),
        env: clone_strings(&config.runtime.env),
        env_passthrough: clone_strings(&config.runtime.env_passthrough),
        ports: clone_strings(&config.runtime.ports),
        hosts: clone_strings(&config.runtime.hosts),
        context: if config.context.as_str().is_empty() {
            Vec::new()
        } else {
            let mut c: Vec<String> = Vec::new();
            c.push(config.context.clone());
            c
        },
    };
    let ghost base = base_view(*config);
    proof {
        if config.context@.len() == 0 {
            assert(resolved@.context =~= base.context);
        } else {
            assert(resolved@.context =~= base.context);
        }
        assert(resolved@ == base);
        lemma_merge_empty(base);
    }
    let profiles_to_apply = collect_profiles_to_apply(config, profile_names);
    let ghost names = apply_names(*config, views(profile_names@));
    let mut i: usize = 0;
    while i < profiles_to_apply.len()
        invariant
            ps == config.profiles,
            i <= profiles_to_apply@.len(),
            names == profiles_to_apply@.map_values(|s: &str| s@),
            names == apply_names(*config, views(profile_names@)),
            base == base_view(*config),
            resolve_parents(ps, names.take(i as int), Seq::empty()) matches Ok(acc) && resolved@
                == merge_views(base, acc),
        decreases profiles_to_apply.len() - i,
    {
        let ghost acc = resolve_parents(ps, names.take(i as int), Seq::empty())->Ok_0;
        let ghost t1 = names.take(i + 1);
        proof {
            assert(t1.drop_last() =~= names.take(i as int));
            assert(t1.last() == profiles_to_apply@[i as int]@);
        }
        let mut visited: Vec<String> = Vec::new();
        proof {
            assert(views(visited@) =~= Seq::<Seq<char>>::empty());
        }
        let profile_resolved = match resolve_single_profile(config, profiles_to_apply[i], &mut visited) {
            Ok(p) => p,
            Err(e) => {
                proof {
                    assert(resolve_parents(ps, t1, Seq::empty()) is Err);
                    lemma_parents_prefix_err(ps, names, Seq::empty(), i + 1);
                }
                return Err(e);
            },
        };
        resolved.merge(&profile_resolved);
        proof {
            lemma_merge_assoc(base, acc, profile_resolved@);
        }
        i = i + 1;
    }
    proof {
        assert(names.take(i as int) =~= names);
    }
    let ghost merged = resolved@;
    resolved.dedup_mounts(host);
    resolved.dedup_ports();
    resolved.dedup_hosts();
    Ok(resolved)
}


/// The first cycle met by a depth-first walk of `extends` from `current`,
/// given the path walked so far: the path followed by the name met again.
/// Unknown names end the walk without a cycle.
pub open spec fn cycle_from(ps: NamedMap<ProfileConfig>, current: Seq<char>, path: Seq<Seq<char>>)
    -> Option<Seq<Seq<char>>>
    decreases unvisited(ps.key_list(), path), 0nat, 0nat,
{
    if path.contains(current) {
        Some(path.push(current))
    } else {
        match ps.spec_get(current) {
            None => None,
            Some(p) => {
                proof {
                    lemma_get_is_key(ps, current);
                    lemma_unvisited_step(ps.key_list(), path, current);
                }
                cycle_in_parents(ps, views(p.extends@), path.push(current))
            },
        }
    }
}

/// The first cycle met from any of `parents`, tried in order.
pub open spec fn cycle_in_parents(
    ps: NamedMap<ProfileConfig>,
    parents: Seq<Seq<char>>,
    path: Seq<Seq<char>>,
) -> Option<Seq<Seq<char>>>
    decreases unvisited(ps.key_list(), path), 1nat, parents.len(),
{
    if parents.len() == 0 {
        None
    } else {
        match cycle_in_parents(ps, parents.drop_last(), path) {
            Some(c) => Some(c),
            None => cycle_from(ps, parents.last(), path),
        }
    }
}

/// Once some first parents meet a cycle, all of them meet the same one.
pub proof fn lemma_cycle_prefix(
    ps: NamedMap<ProfileConfig>,
    parents: Seq<Seq<char>>,
    path: Seq<Seq<char>>,
    k: int,
)
    requires
        0 <= k <= parents.len(),
        cycle_in_parents(ps, parents.take(k), path) is Some,
    ensures
        cycle_in_parents(ps, parents, path) == cycle_in_parents(ps, parents.take(k), path),
    decreases parents.len(),
{
    if parents.len() == k {
        assert(parents.take(k) =~= parents);
    } else {
        assert(parents.drop_last().take(k) =~= parents.take(k));
        lemma_cycle_prefix(ps, parents.drop_last(), path, k);
    }
}

fn detect_cycle_recursive(config: &Config, current: &str, path: &mut Vec<String>) -> (r: Option<
    Vec<String>,
>)
    ensures
        match cycle_from(config.profiles, current@, views(old(path)@)) {
            Some(c) => r matches Some(v) && views(v@) == c,
            None => r is None && views(final(path)@) == views(old(path)@),
        },
    decreases unvisited(config.profiles.key_list(), views(old(path)@)),
{
    let ghost ps = config.profiles;
    let ghost v0 = views(path@);
    if contains_str(path, current) {
        let ghost before = path@;
        path.push(current.to_owned());
        assert(views(path@) =~= views(before).push(current@));
        return Some(clone_strings(path));
    }
    let profile = match config.profiles.get(current) {
        Some(p) => p,
        None => {
            return None;
        },
    };
    proof {
        lemma_get_is_key(ps, current@);
        lemma_unvisited_step(ps.key_list(), v0, current@);
    }
    path.push(current.to_owned());
    let ghost v1 = views(path@);
    assert(v1 =~= v0.push(current@));
    let ghost parents = views(profile.extends@);
    let mut i: usize = 0;
    while i < profile.extends.len()
        invariant
            ps == config.profiles,
            i <= profile.extends@.len(),
            parents == views(profile.extends@),
            views(path@) == v1,
            v1 == v0.push(current@),
            v0 == views(old(path)@),
            !v0.contains(current@),
            ps.spec_get(current@) == Some(*profile),
            unvisited(ps.key_list(), v1) < unvisited(ps.key_list(), v0),
            cycle_in_parents(ps, parents.take(i as int), v1) is None,
        decreases profile.extends.len() - i,
    {
        let ghost t1 = parents.take(i + 1);
        proof {
            assert(t1.drop_last() =~= parents.take(i as int));
            assert(t1.last() == profile.extends@[i as int]@);
        }
        if let Some(cycle) = detect_cycle_recursive(config, profile.extends[i].as_str(), path) {
            proof {
                assert(cycle_in_parents(ps, t1, v1) is Some);
                lemma_cycle_prefix(ps, parents, v1, i + 1);
            }
            return Some(cycle);
        }
        i = i + 1;
    }
    proof {
        assert(parents.take(i as int) =~= parents);
    }
    let ghost before_pop = path@;
    path.pop();
    proof {
        assert(path@ =~= before_pop.drop_last());
        assert(views(path@) =~= views(before_pop).drop_last());
        assert(views(path@) =~= v0);
    }
    None
}

/// Detect circular dependencies starting from a profile: the cycle path
/// if one is found.
fn detect_cycle(config: &Config, start: &str) -> (r: Option<Vec<String>>)
    ensures
        match cycle_from(config.profiles, start@, Seq::empty()) {
            Some(c) => r matches Some(v) && views(v@) == c,
            None => r is None,
        },
{
    let mut path: Vec<String> = Vec::new();
    assert(views(path@) =~= Seq::<Seq<char>>::empty());
    detect_cycle_recursive(config, start, &mut path)
}

/// A validation finding: the profile it concerns (if any) and its message.
pub struct Finding {
    pub profile: Option<Seq<char>>,
    pub message: Seq<char>,
}

/// Validation error (or warning) for profile configuration.
#[derive(Debug, Clone, PartialEq)]
pub struct ProfileValidationError {
    pub profile_name: Option<String>,
    pub message: String,
}

impl View for ProfileValidationError {
    type V = Finding;

    open spec fn view(&self) -> Finding {
        Finding {
            profile: match self.profile_name {
                Some(n) => Some(n@),
                None => None,
            },
            message: self.message@,
        }
    }
}

/// The text of a finding as shown to a user: `Profile 'name': message`, or
/// just the message when it concerns no profile.
pub open spec fn finding_text(f: Finding) -> Seq<char> {
    match f.profile {
        Some(n) => "Profile '"@ + n + "': "@ + f.message,
        None => f.message,
    }
}

impl ProfileValidationError {
    /// The error as shown to a user (`Display`).
    pub fn to_display_string(&self) -> (r: String)
        ensures
            r@ == finding_text(self@),
    {
        match &self.profile_name {
            Some(name) => {
                let mut r = String::from_str("Profile '");
                r.append(name.as_str());
                r.append("': ");
                r.append(self.message.as_str());
                r
            },
            None => self.message.clone(),
        }
    }
}

/// Result of config validation.
#[derive(Debug, Clone, PartialEq)]
pub struct ValidationResult {
    pub errors: Vec<ProfileValidationError>,
    pub warnings: Vec<ProfileValidationError>,
}

/// The plain values of a list of findings.
pub open spec fn finding_views(v: Seq<ProfileValidationError>) -> Seq<Finding> {
    v.map_values(|e: ProfileValidationError| e@)
}

impl ValidationResult {
    /// Valid when there are no errors (warnings do not count).
    pub fn is_ok(&self) -> (b: bool)
        ensures
            b == (self.errors@.len() == 0),
    {
        self.errors.len() == 0
    }

    /// Whether there are warnings.
    pub fn has_warnings(&self) -> (b: bool)
        ensures
            b == (self.warnings@.len() > 0),
    {
        self.warnings.len() > 0
    }
}

/// The error for a default profile that is not defined.
pub open spec fn default_findings(config: Config) -> Seq<Finding> {
    match config.default_profile {
        Some(d) => if config.profiles.key_list().contains(d@) {
            Seq::empty()
        } else {
            seq![
                Finding {
                    profile: None,
                    message: "default_profile '"@ + d@ + "' is not defined. Available profiles: "@
                        + debug_list_text(config.profiles.key_list()),
                },
            ]
        },
        None => Seq::empty(),
    }
}

/// An error for each parent of profile `name` that is not defined, in order.
pub open spec fn unknown_parent_findings(
    ps: NamedMap<ProfileConfig>,
    name: Seq<char>,
    parents: Seq<Seq<char>>,
) -> Seq<Finding>
    decreases parents.len(),
{
    if parents.len() == 0 {
        Seq::empty()
    } else {
        unknown_parent_findings(ps, name, parents.drop_last()) + if ps.key_list().contains(
            parents.last(),
        ) {
            Seq::empty()
        } else {
            seq![
                Finding {
                    profile: Some(name),
                    message: "extends unknown profile '"@ + parents.last()
                        + "'. Available profiles: "@ + debug_list_text(ps.key_list()),
                },
            ]
        }
    }
}

/// The errors of one profile, in order: self-reference, unknown parents, and
/// (when it does not extend itself) a cycle through its `extends`.
pub open spec fn profile_findings(ps: NamedMap<ProfileConfig>, name: Seq<char>, p: ProfileConfig) -> Seq<
    Finding,
> {
    let ext = views(p.extends@);
    (if ext.contains(name) {
        seq![Finding { profile: Some(name), message: "extends itself (self-reference)"@ }]
    } else {
        Seq::empty()
    }) + unknown_parent_findings(ps, name, ext) + if !ext.contains(name) {
        match cycle_from(ps, name, Seq::empty()) {
            Some(c) => seq![
                Finding {
                    profile: Some(name),
                    message: "circular dependency detected: "@ + join_with(c, " -> "@),
                },
            ],
            None => Seq::empty(),
        }
    } else {
        Seq::empty()
    }
}

/// A profile that defines nothing at all.
pub open spec fn is_empty_profile(p: ProfileConfig) -> bool {
    &&& p.extends@.len() == 0
    &&& p.env@.len() == 0
    &&& p.env_passthrough@.len() == 0
    &&& p.ports@.len() == 0
    &&& p.hosts@.len() == 0
    &&& p.context@.len() == 0
    &&& p.mounts.ro.absolute@.len() == 0
    &&& p.mounts.ro.home_relative@.len() == 0
    &&& p.mounts.rw.absolute@.len() == 0
    &&& p.mounts.rw.home_relative@.len() == 0
    &&& p.mounts.o.absolute@.len() == 0
    &&& p.mounts.o.home_relative@.len() == 0
}

/// The warning of one profile: it is empty.
pub open spec fn profile_warnings(name: Seq<char>, p: ProfileConfig) -> Seq<Finding> {
    if is_empty_profile(p) {
        seq![
            Finding {
                profile: Some(name),
                message: "profile is empty (no mounts, env, env_passthrough, ports, hosts, context, or extends)"@,
            },
        ]
    } else {
        Seq::empty()
    }
}

/// The errors of the first `k` profiles, in entry order.
pub open spec fn entries_findings(ps: NamedMap<ProfileConfig>, k: int) -> Seq<Finding>
    decreases k,
{
    if k <= 0 {
        Seq::empty()
    } else {
        entries_findings(ps, k - 1) + profile_findings(ps, ps.key_list()[k - 1], ps.value_list()[k - 1])
    }
}

/// The warnings of the first `k` profiles, in entry order.
pub open spec fn entries_warnings(ps: NamedMap<ProfileConfig>, k: int) -> Seq<Finding>
    decreases k,
{
    if k <= 0 {
        Seq::empty()
    } else {
        entries_warnings(ps, k - 1) + profile_warnings(ps.key_list()[k - 1], ps.value_list()[k - 1])
    }
}

/// All validation errors of a configuration.
pub open spec fn validation_errors(config: Config) -> Seq<Finding> {
    default_findings(config) + entries_findings(config.profiles, config.profiles.spec_len() as int)
}

/// All validation warnings of a configuration.
pub open spec fn validation_warnings(config: Config) -> Seq<Finding> {
    entries_warnings(config.profiles, config.profiles.spec_len() as int)
}

fn push_finding(out: &mut Vec<ProfileValidationError>, profile_name: Option<String>, message: String)
    ensures
        finding_views(final(out)@) == finding_views(old(out)@).push(
            Finding {
                profile: match profile_name {
                    Some(n) => Some(n@),
                    None => None,
                },
                message: message@,
            },
        ),
{
    let ghost before = finding_views(out@);
    let e = ProfileValidationError { profile_name: profile_name, message: message };
    let ghost ev = e@;
    out.push(e);
    assert(finding_views(out@) =~= before.push(ev));
}

/// Validate the configuration, checking that
/// - `default_profile` names a defined profile,
/// - every `extends` reference names a defined profile,
/// - no profile extends itself, and
/// - no `extends` chain is circular;
/// and warning about profiles that define nothing.
pub fn validate_config(config: &Config) -> (r: ValidationResult)
    ensures
        finding_views(r.errors@) == validation_errors(*config),
        finding_views(r.warnings@) == validation_warnings(*config),
{
    let ghost ps = config.profiles;
    let mut errors: Vec<ProfileValidationError> = Vec::new();
    let mut warnings: Vec<ProfileValidationError> = Vec::new();
    let available = config.profiles.keys();
    if let Some(default) = &config.default_profile {
        if !config.profiles.contains_key(default.as_str()) {
            let mut m = String::from_str("default_profile '");
            m.append(default.as_str());
            m.append("' is not defined. Available profiles: ");
            m.append(debug_list(&available).as_str());
            push_finding(&mut errors, None, m);
        }
    }
    proof {
        assert(finding_views(errors@) =~= default_findings(*config));
        assert(finding_views(warnings@) =~= Seq::<Finding>::empty());
    }
    let mut i: usize = 0;
    while i < config.profiles.len()
        invariant
            ps == config.profiles,
            i <= ps.spec_len(),
            views(available@) == ps.key_list(),
            finding_views(errors@) == default_findings(*config) + entries_findings(ps, i as int),
            finding_views(warnings@) == entries_warnings(ps, i as int),
        decreases config.profiles.spec_len() - i,
    {
        let (profile_name, profile) = config.profiles.entry_at(i);
        let ghost name = profile_name@;
        let ghost ext = views(profile.extends@);
        proof {
            assert(ps.key_list()[i as int] == name);
            assert(ps.value_list()[i as int] == *profile);
        }
        let ghost e0 = finding_views(errors@);
        let self_ref = contains_str(&profile.extends, profile_name.as_str());
        if self_ref {
            push_finding(
                &mut errors,
                Some(profile_name.clone()),
                String::from_str("extends itself (self-reference)"),
            );
        }
        let ghost e1 = finding_views(errors@);
        proof {
            if self_ref {
                assert(e1 == e0 + seq![Finding { profile: Some(name), message: "extends itself (self-reference)"@ }]);
            } else {
                assert(e1 =~= e0 + Seq::<Finding>::empty());
            }
        }
        let mut j: usize = 0;
        while j < profile.extends.len()
            invariant
                ps == config.profiles,
                j <= profile.extends@.len(),
                ext == views(profile.extends@),
                name == profile_name@,
                views(available@) == ps.key_list(),
                finding_views(errors@) == e1 + unknown_parent_findings(ps, name, ext.take(j as int)),
            decreases profile.extends.len() - j,
        {
            let parent_name = &profile.extends[j];
            proof {
                assert(ext.take(j + 1).drop_last() =~= ext.take(j as int));
                assert(ext.take(j + 1).last() == parent_name@);
            }
            let ghost before = finding_views(errors@);
            let ghost t = ext.take(j + 1);
            proof {
                assert(t.drop_last() =~= ext.take(j as int));
            }
            if !config.profiles.contains_key(parent_name.as_str()) {
                let mut m = String::from_str("extends unknown profile '");
                m.append(parent_name.as_str());
                m.append("'. Available profiles: ");
                m.append(debug_list(&available).as_str());
                let ghost mv = m@;
                let pn = profile_name.clone();
                assert(pn@ == name);
                push_finding(&mut errors, Some(pn), m);
                proof {
                    assert(finding_views(errors@) == before.push(Finding { profile: Some(name), message: mv }));
                    assert(mv == "extends unknown profile '"@ + parent_name@ + "'. Available profiles: "@
                        + debug_list_text(ps.key_list()));
                    assert(!ps.key_list().contains(t.last()));
                    assert(unknown_parent_findings(ps, name, t) =~= unknown_parent_findings(ps, name, ext.take(j as int))
                        + seq![Finding { profile: Some(name), message: mv }]);
                    assert(finding_views(errors@) =~= e1 + unknown_parent_findings(ps, name, t));
                }
            } else {
                proof {
                    assert(ps.key_list().contains(t.last()));
                    assert(unknown_parent_findings(ps, name, t) =~= unknown_parent_findings(ps, name, ext.take(j as int)));
                    assert(finding_views(errors@) =~= e1 + unknown_parent_findings(ps, name, t));
                }
            }
            j = j + 1;
        }
        proof {
            assert(ext.take(j as int) =~= ext);
        }
        let ghost e2 = finding_views(errors@);
        if !self_ref {
            if let Some(cycle) = detect_cycle(config, profile_name.as_str()) {
                let mut m = String::from_str("circular dependency detected: ");
                m.append(join_strings(&cycle, " -> ").as_str());
                push_finding(&mut errors, Some(profile_name.clone()), m);
            } else {
                assert(finding_views(errors@) =~= e2 + Seq::<Finding>::empty());
            }
        } else {
            assert(finding_views(errors@) =~= e2 + Seq::<Finding>::empty());
        }
        proof {
            assert(finding_views(errors@) =~= e0 + profile_findings(ps, name, *profile));
            assert(default_findings(*config) + entries_findings(ps, i + 1) =~= default_findings(*config)
                + entries_findings(ps, i as int) + profile_findings(ps, name, *profile));
        }
        let empty = profile.extends.len() == 0 && profile.env.len() == 0
            && profile.env_passthrough.len() == 0 && profile.ports.len() == 0
            && profile.hosts.len() == 0 && profile.context.as_str().is_empty()
            && profile.mounts.ro.absolute.len() == 0 && profile.mounts.ro.home_relative.len() == 0
            && profile.mounts.rw.absolute.len() == 0 && profile.mounts.rw.home_relative.len() == 0
            && profile.mounts.o.absolute.len() == 0 && profile.mounts.o.home_relative.len() == 0;
        let ghost w0 = finding_views(warnings@);
        if empty {
            push_finding(
                &mut warnings,
                Some(profile_name.clone()),
                String::from_str(
                    "profile is empty (no mounts, env, env_passthrough, ports, hosts, context, or extends)",
                ),
            );
        } else {
            assert(finding_views(warnings@) =~= w0 + Seq::<Finding>::empty());
        }
        proof {
            assert(finding_views(warnings@) =~= entries_warnings(ps, i + 1));
        }
        i = i + 1;
    }
    ValidationResult { errors, warnings }
}

/// Configuration validation found errors.
#[derive(Debug, Clone)]
pub struct ConfigValidationError {
    pub errors: Vec<ProfileValidationError>,
}

/// The text of a validation failure: a heading, then each error on its own
/// `  - ` line.
pub open spec fn validation_failure_text(errors: Seq<Finding>) -> Seq<char> {
    "Configuration validation failed:\n  - "@ + join_with(
        errors.map_values(|f: Finding| finding_text(f)),
        "\n  - "@,
    )
}

impl ConfigValidationError {
    /// The error as shown to a user.
    pub fn message(&self) -> (r: String)
        ensures
            r@ == validation_failure_text(finding_views(self.errors@)),
    {
        let mut texts: Vec<String> = Vec::new();
        let ghost fv = finding_views(self.errors@);
        let mut i: usize = 0;
        while i < self.errors.len()
            invariant
                i <= self.errors@.len(),
                fv == finding_views(self.errors@),
                views(texts@) == fv.map_values(|f: Finding| finding_text(f)).take(i as int),
            decreases self.errors.len() - i,
        {
            let ghost before = views(texts@);
            texts.push(self.errors[i].to_display_string());
            proof {
                assert(views(texts@) =~= before.push(finding_text(fv[i as int])));
                assert(fv.map_values(|f: Finding| finding_text(f)).take(i + 1) =~= fv.map_values(
                    |f: Finding| finding_text(f),
                ).take(i as int).push(finding_text(fv[i as int])));
            }
            i = i + 1;
        }
        assert(fv.map_values(|f: Finding| finding_text(f)).take(i as int) =~= fv.map_values(
            |f: Finding| finding_text(f),
        ));
        let mut r = String::from_str("Configuration validation failed:\n  - ");
        r.append(join_strings(&texts, "\n  - ").as_str());
        r
    }
}

/// Validate the configuration: `Ok` exactly when there are no errors,
/// otherwise all errors.
pub fn validate_config_or_err(config: &Config) -> (r: Result<(), ConfigValidationError>)
    ensures
        match r {
            Ok(()) => validation_errors(*config).len() == 0,
            Err(e) => validation_errors(*config).len() > 0 && finding_views(e.errors@)
                == validation_errors(*config),
        },
{
    let result = validate_config(config);
    if !result.is_ok() {
        return Err(ConfigValidationError { errors: result.errors });
    }
    Ok(())
}

/// Every parent named by a defined profile is itself defined.
pub open spec fn parents_defined(ps: NamedMap<ProfileConfig>) -> bool {
    forall|n: Seq<char>| #[trigger]
        ps.key_list().contains(n) ==> (ps.spec_get(n) matches Some(p) && forall|j: int|
            0 <= j < p.extends@.len() ==> ps.key_list().contains(#[trigger] p.extends@[j]@))
}

/// With every parent defined, resolving a defined profile along a chain
/// succeeds exactly when no cycle is met from it along that chain.
pub proof fn lemma_resolve_one_acyclic(ps: NamedMap<ProfileConfig>, name: Seq<char>, visited: Seq<Seq<char>>)
    requires
        parents_defined(ps),
        ps.key_list().contains(name),
    ensures
        resolve_one(ps, name, visited) is Ok <==> cycle_from(ps, name, visited) is None,
    decreases unvisited(ps.key_list(), visited), 0nat, 0nat,
{
    if !visited.contains(name) {
        lemma_get_is_key(ps, name);
        lemma_unvisited_step(ps.key_list(), visited, name);
        let p = ps.spec_get(name).unwrap();
        assert(ps.key_list().contains(name));
        let ext = views(p.extends@);
        assert forall|j: int| 0 <= j < ext.len() implies ps.key_list().contains(#[trigger] ext[j]) by {
            assert(ext[j] == p.extends@[j]@);
        }
        lemma_parents_acyclic(ps, ext, visited.push(name));
    }
}

/// With every parent defined, resolving defined profiles in order succeeds
/// exactly when no cycle is met from any of them.
pub proof fn lemma_parents_acyclic(ps: NamedMap<ProfileConfig>, parents: Seq<Seq<char>>, visited: Seq<Seq<char>>)
    requires
        parents_defined(ps),
        forall|j: int| 0 <= j < parents.len() ==> ps.key_list().contains(#[trigger] parents[j]),
    ensures
        resolve_parents(ps, parents, visited) is Ok <==> cycle_in_parents(ps, parents, visited) is None,
    decreases unvisited(ps.key_list(), visited), 1nat, parents.len(),
{
    if parents.len() > 0 {
        let init = parents.drop_last();
        assert forall|j: int| 0 <= j < init.len() implies ps.key_list().contains(#[trigger] init[j]) by {
            assert(init[j] == parents[j]);
        }
        lemma_parents_acyclic(ps, init, visited);
        assert(ps.key_list().contains(parents[parents.len() - 1]));
        lemma_resolve_one_acyclic(ps, parents.last(), visited);
    }
}

/// No cycle is met from parents when none is met from each of them.
pub proof fn lemma_no_cycle_in_parents(ps: NamedMap<ProfileConfig>, parents: Seq<Seq<char>>, path: Seq<Seq<char>>)
    requires
        forall|j: int| 0 <= j < parents.len() ==> (#[trigger] cycle_from(ps, parents[j], path)) is None,
    ensures
        cycle_in_parents(ps, parents, path) is None,
    decreases parents.len(),
{
    if parents.len() > 0 {
        let init = parents.drop_last();
        assert forall|j: int| 0 <= j < init.len() implies (#[trigger] cycle_from(ps, init[j], path)) is None by {
            assert(init[j] == parents[j]);
        }
        lemma_no_cycle_in_parents(ps, init, path);
        assert(cycle_from(ps, parents[parents.len() - 1], path) is None);
    }
}

/// Without findings about its parents, every parent is defined.
proof fn lemma_unknown_parents_none(ps: NamedMap<ProfileConfig>, name: Seq<char>, parents: Seq<Seq<char>>)
    requires
        unknown_parent_findings(ps, name, parents).len() == 0,
    ensures
        forall|j: int| 0 <= j < parents.len() ==> ps.key_list().contains(#[trigger] parents[j]),
    decreases parents.len(),
{
    if parents.len() > 0 {
        lemma_unknown_parents_none(ps, name, parents.drop_last());
        assert forall|j: int| 0 <= j < parents.len() implies ps.key_list().contains(#[trigger] parents[j]) by {
            if j < parents.len() - 1 {
                assert(parents.drop_last()[j] == parents[j]);
            }
        }
    }
}

/// Without findings among the first `k` profiles, each of them has none.
proof fn lemma_entries_findings_none(ps: NamedMap<ProfileConfig>, k: int, i: int)
    requires
        0 <= i < k,
        entries_findings(ps, k).len() == 0,
    ensures
        profile_findings(ps, ps.key_list()[i], ps.value_list()[i]).len() == 0,
    decreases k,
{
    if i < k - 1 {
        lemma_entries_findings_none(ps, k - 1, i);
    }
}

/// A configuration that validates without errors resolves any list of
/// defined profile names: its default profile and every profile reached
/// through `extends` are defined, and no `extends` chain is circular.
pub proof fn law_valid_config_resolves(config: Config, names: Seq<Seq<char>>, host: HostPaths)
    requires
        validation_errors(config).len() == 0,
        forall|j: int| 0 <= j < names.len() ==> config.profiles.key_list().contains(#[trigger] names[j]),
    ensures
        resolution(config, names, host) is Ok,
{
    let ps = config.profiles;
    let n = ps.spec_len() as int;
    assert(default_findings(config).len() == 0);
    assert(entries_findings(ps, n).len() == 0);
    // Each defined profile: its parents are defined, and no cycle starts at it.
    assert forall|x: Seq<char>| #[trigger] ps.key_list().contains(x) implies (ps.spec_get(x) matches Some(p)
        && forall|j: int| 0 <= j < p.extends@.len() ==> ps.key_list().contains(#[trigger] p.extends@[j]@))
        && cycle_from(ps, x, Seq::empty()) is None by {
        lemma_first_index(ps.key_list(), x);
        let i = first_index(ps.key_list(), x).unwrap();
        lemma_entries_findings_none(ps, n, i);
        let p = ps.value_list()[i];
        assert(ps.key_list()[i] == x);
        let ext = views(p.extends@);
        let pf = profile_findings(ps, x, p);
        assert(unknown_parent_findings(ps, x, ext).len() <= pf.len());
        lemma_unknown_parents_none(ps, x, ext);
        assert forall|j: int| 0 <= j < p.extends@.len() implies ps.key_list().contains(#[trigger] p.extends@[j]@) by {
            assert(ext[j] == p.extends@[j]@);
        }
        assert(!ext.contains(x));
    }
    assert(parents_defined(ps));
    let all = apply_names(config, names);
    assert forall|j: int| 0 <= j < all.len() implies ps.key_list().contains(#[trigger] all[j]) by {
        match config.default_profile {
            Some(d) => {
                if j > 0 {
                    assert(all[j] == names[j - 1]);
                } else {
                    assert(all[j] == d@);
                }
            },
            None => {
                assert(all[j] == names[j]);
            },
        }
    }
    assert forall|j: int| 0 <= j < all.len() implies (#[trigger] cycle_from(ps, all[j], Seq::empty())) is None by {
        assert(ps.key_list().contains(all[j]));
    }
    lemma_no_cycle_in_parents(ps, all, Seq::empty());
    lemma_parents_acyclic(ps, all, Seq::empty());
}


proof fn lemma_entries_warnings(ps: NamedMap<ProfileConfig>, k: int)
    requires
        0 <= k <= ps.spec_len(),
    ensures
        forall|j: int|
            0 <= j < entries_warnings(ps, k).len() ==> exists|i: int|
                0 <= i < k && (#[trigger] entries_warnings(ps, k)[j]).profile == Some(ps.key_list()[i])
                    && is_empty_profile(ps.value_list()[i]),
        forall|i: int|
            0 <= i < k && is_empty_profile(#[trigger] ps.value_list()[i]) ==> exists|j: int|
                0 <= j < entries_warnings(ps, k).len() && entries_warnings(ps, k)[j].profile == Some(
                    ps.key_list()[i],
                ),
    decreases k,
{
    if k > 0 {
        lemma_entries_warnings(ps, k - 1);
        let prev = entries_warnings(ps, k - 1);
        let w = profile_warnings(ps.key_list()[k - 1], ps.value_list()[k - 1]);
        let cur = entries_warnings(ps, k);
        assert(cur == prev + w);
        assert forall|j: int| 0 <= j < cur.len() implies exists|i: int|
            0 <= i < k && (#[trigger] cur[j]).profile == Some(ps.key_list()[i]) && is_empty_profile(
                ps.value_list()[i],
            ) by {
            if j < prev.len() {
                assert(cur[j] == prev[j]);
                let i = choose|i: int|
                    0 <= i < k - 1 && (#[trigger] prev[j]).profile == Some(ps.key_list()[i]) && is_empty_profile(
                        ps.value_list()[i],
                    );
                assert(0 <= i < k);
            } else {
                assert(cur[j] == w[j - prev.len()]);
                assert(is_empty_profile(ps.value_list()[k - 1]));
            }
        }
        assert forall|i: int| 0 <= i < k && is_empty_profile(#[trigger] ps.value_list()[i]) implies exists|j: int|
            0 <= j < cur.len() && cur[j].profile == Some(ps.key_list()[i]) by {
            if i < k - 1 {
                let j = choose|j: int| 0 <= j < prev.len() && prev[j].profile == Some(ps.key_list()[i]);
                assert(cur[j] == prev[j]);
            } else {
                assert(cur[prev.len() as int] == w[0]);
            }
        }
    }
}

/// The validation warnings are about empty profiles only, and about each of
/// them: a warning names a profile that has no mounts, no environment
/// variables, none passed through, no ports, no hosts, no context and
/// extends no profile (one that extends another is never empty); every
/// such profile gets a warning.
#[verifier::rlimit(40)]
pub proof fn law_empty_profile_warnings(config: Config)
    ensures
        forall|j: int|
            0 <= j < validation_warnings(config).len() ==> exists|i: int|
                0 <= i < config.profiles.spec_len() && (#[trigger] validation_warnings(config)[j]).profile
                    == Some(config.profiles.key_list()[i]) && {
                    let p = config.profiles.value_list()[i];
                    &&& p.extends@.len() == 0
                    &&& p.env@.len() == 0
                    &&& p.env_passthrough@.len() == 0
                    &&& p.ports@.len() == 0
                    &&& p.hosts@.len() == 0
                    &&& p.context@.len() == 0
                    &&& p.mounts.ro.absolute@.len() == 0
                    &&& p.mounts.ro.home_relative@.len() == 0
                    &&& p.mounts.rw.absolute@.len() == 0
                    &&& p.mounts.rw.home_relative@.len() == 0
                    &&& p.mounts.o.absolute@.len() == 0
                    &&& p.mounts.o.home_relative@.len() == 0
                },
        forall|i: int|
            0 <= i < config.profiles.spec_len() && {
                let p = #[trigger] config.profiles.value_list()[i];
                &&& p.extends@.len() == 0
                &&& p.env@.len() == 0
                &&& p.env_passthrough@.len() == 0
                &&& p.ports@.len() == 0
                &&& p.hosts@.len() == 0
                &&& p.context@.len() == 0
                &&& p.mounts.ro.absolute@.len() == 0
                &&& p.mounts.ro.home_relative@.len() == 0
                &&& p.mounts.rw.absolute@.len() == 0
                &&& p.mounts.rw.home_relative@.len() == 0
                &&& p.mounts.o.absolute@.len() == 0
                &&& p.mounts.o.home_relative@.len() == 0
            } ==> exists|j: int|
                0 <= j < validation_warnings(config).len() && validation_warnings(config)[j].profile == Some(
                    config.profiles.key_list()[i],
                ),
{
    let ps = config.profiles;
    lemma_entries_warnings(ps, ps.spec_len() as int);
    let w = entries_warnings(ps, ps.spec_len() as int);
    assert(validation_warnings(config) == w);
    assert forall|j: int| 0 <= j < w.len() implies exists|i: int|
        0 <= i < ps.spec_len() && (#[trigger] w[j]).profile == Some(ps.key_list()[i])
            && ps.value_list()[i].extends@.len() == 0 && is_empty_profile(ps.value_list()[i]) by {
        let i = choose|i: int|
            0 <= i < ps.spec_len() && (#[trigger] w[j]).profile == Some(ps.key_list()[i]) && is_empty_profile(
                ps.value_list()[i],
            );
        assert(ps.value_list()[i].extends@.len() == 0);
    }
    assert forall|i: int| 0 <= i < ps.spec_len() && is_empty_profile(#[trigger] ps.value_list()[i]) implies exists|j: int|
        0 <= j < validation_warnings(config).len() && validation_warnings(config)[j].profile == Some(
            ps.key_list()[i],
        ) by {
        let w = entries_warnings(ps, ps.spec_len() as int);
        assert(validation_warnings(config) == w);
        assert(is_empty_profile(ps.value_list()[i]));
        let j = choose|j: int| 0 <= j < w.len() && w[j].profile == Some(ps.key_list()[i]);
        assert(0 <= j < validation_warnings(config).len() && validation_warnings(config)[j].profile == Some(
            ps.key_list()[i],
        ));
    }
}


/// What resolving the last of several profiles gives: resolving the earlier
/// ones, then the profile's own parents, then the profile itself.
proof fn lemma_last_profile_applied(ps: NamedMap<ProfileConfig>, all: Seq<Seq<char>>, acc: ProfileView)
    requires
        all.len() > 0,
        resolve_parents(ps, all, Seq::empty()) == Ok::<ProfileView, ProfileFailure>(acc),
    ensures
        ps.spec_get(all.last()) is Some,
        exists|before: ProfileView|
            acc == #[trigger] merge_views(before, own_view(ps.spec_get(all.last()).unwrap())),
{
    let vis = Seq::<Seq<char>>::empty();
    match resolve_parents(ps, all.drop_last(), vis) {
        Err(_) => {},
        Ok(acc0) => match resolve_one(ps, all.last(), vis) {
            Err(_) => {},
            Ok(r) => {
                assert(acc == merge_views(acc0, r));
                assert(!vis.contains(all.last()));
                let p = ps.spec_get(all.last()).unwrap();
                match resolve_parents(ps, views(p.extends@), vis.push(all.last())) {
                    Err(_) => {},
                    Ok(pa) => {
                        assert(r == merge_views(pa, own_view(p)));
                        let before = merge_views(acc0, pa);
                        let target = merge_views(before, own_view(p));
                        assert(acc.mounts =~= target.mounts);
                        assert(acc.env =~= target.env);
                        assert(acc.env_passthrough =~= target.env_passthrough);
                        assert(acc.ports =~= target.ports);
                        assert(acc.hosts =~= target.hosts);
                        assert(acc.context =~= target.context);
                        assert(acc == target);
                    },
                }
            },
        },
    }
}

/// A resolution keeps the lists of the runtime settings and of the last
/// requested profile: the environment, the variables passed through and the
/// contexts of the result begin with the runtime's and end with that
/// profile's own (after what its parents and the earlier profiles add), in
/// their order; each of that profile's ports and hosts is among the
/// result's; the profile is one that is defined.
pub proof fn law_resolution_keeps_lists(config: Config, names: Seq<Seq<char>>, host: HostPaths, v: ProfileView)
    requires
        names.len() > 0,
        resolution(config, names, host) == Ok::<ProfileView, ProfileFailure>(v),
    ensures
        config.profiles.spec_get(names.last()) is Some,
        ({
            let p = config.profiles.spec_get(names.last()).unwrap();
            let own_env = views(p.env@);
            let own_pass = views(p.env_passthrough@);
            &&& own_env.len() <= v.env.len()
            &&& v.env.skip(v.env.len() - own_env.len()) == own_env
            &&& v.env.take(config.runtime.env@.len() as int) == views(config.runtime.env@)
            &&& own_pass.len() <= v.env_passthrough.len()
            &&& v.env_passthrough.skip(v.env_passthrough.len() - own_pass.len()) == own_pass
            &&& v.env_passthrough.take(config.runtime.env_passthrough@.len() as int) == views(
                config.runtime.env_passthrough@,
            )
            &&& p.context@.len() > 0 ==> v.context.len() > 0 && v.context.last() == p.context@
            &&& forall|x: Seq<char>| #[trigger] views(p.ports@).contains(x) ==> v.ports.contains(x)
            &&& forall|x: Seq<char>| #[trigger] views(p.hosts@).contains(x) ==> v.hosts.contains(x)
        }),
{
    let ps = config.profiles;
    let all = apply_names(config, names);
    assert(all.len() > 0 && all.last() == names.last()) by {
        match config.default_profile {
            Some(d) => {
                assert(all == seq![d@] + names);
                assert(all.last() == names.last());
            },
            None => {},
        }
    }
    match resolve_parents(ps, all, Seq::empty()) {
        Err(_) => {},
        Ok(acc) => {
            lemma_last_profile_applied(ps, all, acc);
            let p = ps.spec_get(all.last()).unwrap();
            let before = choose|before: ProfileView| acc == #[trigger] merge_views(before, own_view(p));
            let m = merge_views(base_view(config), acc);
            assert(v.env == m.env);
            assert(v.env_passthrough == m.env_passthrough);
            assert(v.context == m.context);
            let b = base_view(config);
            assert(m.env =~= (b.env + before.env) + views(p.env@));
            assert(m.env_passthrough =~= (b.env_passthrough + before.env_passthrough) + views(p.env_passthrough@));
            assert(m.env.take(config.runtime.env@.len() as int) =~= views(config.runtime.env@));
            assert(m.env_passthrough.take(config.runtime.env_passthrough@.len() as int) =~= views(
                config.runtime.env_passthrough@,
            ));
            assert(m.env.skip(m.env.len() - views(p.env@).len()) =~= views(p.env@));
            assert(m.env_passthrough.skip(m.env_passthrough.len() - views(p.env_passthrough@).len())
                =~= views(p.env_passthrough@));
            if p.context@.len() > 0 {
                assert(m.context == (b.context + before.context) + seq![p.context@]);
            }
            crate::config::law_dedup_keeps_one_of_each(m.ports);
            crate::config::law_dedup_keeps_one_of_each(m.hosts);
            assert(m.ports =~= (b.ports + before.ports) + views(p.ports@));
            assert(m.hosts =~= (b.hosts + before.hosts) + views(p.hosts@));
            assert forall|x: Seq<char>| #[trigger] views(p.ports@).contains(x) implies v.ports.contains(x) by {
                let k = choose|k: int| 0 <= k < views(p.ports@).len() && views(p.ports@)[k] == x;
                assert(m.ports[(b.ports + before.ports).len() + k] == x);
            }
            assert forall|x: Seq<char>| #[trigger] views(p.hosts@).contains(x) implies v.hosts.contains(x) by {
                let k = choose|k: int| 0 <= k < views(p.hosts@).len() && views(p.hosts@)[k] == x;
                assert(m.hosts[(b.hosts + before.hosts).len() + k] == x);
            }
        },
    }
}

} // verus!
