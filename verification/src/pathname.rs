//! A model of Unix path names as character sequences: how they split into
//! components, how one is joined onto another, and how a prefix is removed.

use vstd::prelude::*;
use crate::text::{chars_of, first_index, join_with, lemma_first_index, lemma_split_on_nonempty, push_all, slice_eq, split_on, string_from_chars};

verus! {

/// The segments of `s` between `/` separators (empty segments included).
pub open spec fn segments(s: Seq<char>) -> Seq<Seq<char>> {
    split_on(s, '/')
}

/// A segment that names a component: not empty and not `.`.
pub open spec fn is_normal_segment(p: Seq<char>) -> bool {
    p.len() > 0 && p != seq!['.']
}

/// The segments of `segs` that name components, in order.
pub open spec fn normal_segments(segs: Seq<Seq<char>>) -> Seq<Seq<char>>
    decreases segs.len(),
{
    if segs.len() == 0 {
        Seq::empty()
    } else {
        let r = normal_segments(segs.drop_last());
        if is_normal_segment(segs.last()) {
            r.push(segs.last())
        } else {
            r
        }
    }
}

/// The named components of a path: its segments without empty ones and `.`.
pub open spec fn parts(s: Seq<char>) -> Seq<Seq<char>> {
    normal_segments(segments(s))
}

/// A relative path whose first segment is `.`: that segment is a component
/// of its own (the current directory), as `Path::components` yields it.
pub open spec fn leads_with_cur_dir(s: Seq<char>) -> bool {
    s == seq!['.'] || (s.len() >= 2 && s[0] == '.' && s[1] == '/')
}

/// The components of a path below its root: a leading `.` when there is
/// one, then the named parts.
pub open spec fn components(s: Seq<char>) -> Seq<Seq<char>> {
    if leads_with_cur_dir(s) {
        seq![seq!['.']] + parts(s)
    } else {
        parts(s)
    }
}

/// A path that begins at the root.
pub open spec fn is_absolute(s: Seq<char>) -> bool {
    s.len() > 0 && s[0] == '/'
}

/// `rel` pushed onto `base` as `PathBuf::join` does it: an absolute `rel`
/// replaces `base`; otherwise one `/` separates them unless `base` is empty
/// or already ends with one.
pub open spec fn join_path(base: Seq<char>, rel: Seq<char>) -> Seq<char> {
    if is_absolute(rel) || base.len() == 0 {
        rel
    } else if base.last() == '/' {
        base + rel
    } else {
        base + seq!['/'] + rel
    }
}

/// The path of `full` below `base`, compared component by component, if
/// `base` is a prefix of `full`; its components are joined with `/`.
pub open spec fn strip_path_prefix(base: Seq<char>, full: Seq<char>) -> Option<Seq<char>> {
    let b = components(base);
    let f = components(full);
    if is_absolute(base) == is_absolute(full) && b.len() <= f.len() && f.take(b.len() as int) == b {
        Some(join_with(f.skip(b.len() as int), seq!['/']))
    } else {
        None
    }
}

/// `p` ends with the components of `q` (a path `q` with a root must equal `p`).
pub open spec fn path_ends_with(p: Seq<char>, q: Seq<char>) -> bool {
    let a = components(p);
    let b = components(q);
    if is_absolute(q) {
        is_absolute(p) && a == b
    } else {
        b.len() <= a.len() && a.skip(a.len() - b.len()) == b
    }
}

/// The segments of a path never form an empty list.
pub proof fn lemma_segments_nonempty(s: Seq<char>)
    ensures
        segments(s).len() >= 1,
    decreases s.len(),
{
    if s.len() > 0 {
        lemma_segments_nonempty(s.drop_last());
    }
}

/// The named components of a path, each as a character vector.
pub fn path_parts(s: &[char]) -> (r: Vec<Vec<char>>)
    ensures
        part_views(r@) == parts(s@),
{
    let mut r: Vec<Vec<char>> = Vec::new();
    let mut cur: Vec<char> = Vec::new();
    let mut i: usize = 0;
    proof {
        assert(s@.take(0) =~= Seq::<char>::empty());
    }
    while i < s.len()
        invariant
            i <= s@.len(),
            segments(s@.take(i as int)).len() >= 1,
            part_views(r@) == normal_segments(
                segments(s@.take(i as int)).drop_last(),
            ),
            cur@ == segments(s@.take(i as int)).last(),
        decreases s.len() - i,
    {
        let ghost t = s@.take(i as int);
        let ghost t1 = s@.take(i + 1);
        proof {
            assert(t1.drop_last() =~= t);
            assert(t1.last() == s@[i as int]);
            lemma_segments_nonempty(t);
        }
        let c = s[i];
        if c == '/' {
            let ghost segs = segments(t);
            proof {
                assert(segments(t1) == segs.push(Seq::empty()));
                assert(segments(t1).drop_last() =~= segs);
                assert(segs.drop_last() =~= segs.drop_last());
            }
            let ghost old_r = part_views(r@);
            let normal = cur.len() > 0 && !(cur.len() == 1 && cur[0] == '.');
            proof {
                if cur@ == seq!['.'] {
                    assert(cur@[0] == '.');
                }
                if cur@.len() == 1 && cur@[0] == '.' {
                    assert(cur@ =~= seq!['.']);
                }
                assert(normal == is_normal_segment(segs.last()));
            }
            if normal {
                r.push(cur);
                proof {
                    assert(part_views(r@) =~= old_r.push(segs.last()));
                }
            }
            cur = Vec::new();
            proof {
                assert(normal_segments(segs) == (if is_normal_segment(segs.last()) {
                    normal_segments(segs.drop_last()).push(segs.last())
                } else {
                    normal_segments(segs.drop_last())
                }));
                assert(cur@ =~= segments(t1).last());
            }
        } else {
            proof {
                let segs = segments(t);
                assert(segments(t1) == segs.update(segs.len() - 1, segs.last().push(c)));
                assert(segments(t1).drop_last() =~= segs.drop_last());
            }
            cur.push(c);
        }
        i = i + 1;
    }
    proof {
        assert(s@.take(s@.len() as int) =~= s@);
    }
    let ghost segs = segments(s@);
    let ghost old_r = part_views(r@);
    let normal = cur.len() > 0 && !(cur.len() == 1 && cur[0] == '.');
    proof {
        if cur@ == seq!['.'] {
            assert(cur@[0] == '.');
        }
        if cur@.len() == 1 && cur@[0] == '.' {
            assert(cur@ =~= seq!['.']);
        }
    }
    if normal {
        r.push(cur);
        proof {
            assert(part_views(r@) =~= old_r.push(segs.last()));
        }
    }
    r
}


/// The components of a path (see `components`), each as a character vector.
pub fn path_components(s: &[char]) -> (r: Vec<Vec<char>>)
    ensures
        part_views(r@) == components(s@),
{
    let cur = (s.len() == 1 && s[0] == '.') || (s.len() >= 2 && s[0] == '.' && s[1] == '/');
    proof {
        if s@.len() == 1 && s@[0] == '.' {
            assert(s@ =~= seq!['.']);
        }
    }
    let ps = path_parts(s);
    if !cur {
        return ps;
    }
    let mut r: Vec<Vec<char>> = Vec::new();
    let mut dot: Vec<char> = Vec::new();
    dot.push('.');
    r.push(dot);
    let mut i: usize = 0;
    while i < ps.len()
        invariant
            i <= ps@.len(),
            part_views(r@) == seq![seq!['.']] + part_views(ps@).take(i as int),
        decreases ps.len() - i,
    {
        let ghost before = part_views(r@);
        r.push(ps[i].clone());
        proof {
            assert(part_views(r@) =~= before.push(ps@[i as int]@));
            assert(part_views(ps@).take(i + 1) =~= part_views(ps@).take(i as int).push(ps@[i as int]@));
        }
        i = i + 1;
    }
    proof {
        assert(part_views(ps@).take(i as int) =~= part_views(ps@));
    }
    r
}

/// The characters of each part.
pub open spec fn part_views(v: Seq<Vec<char>>) -> Seq<Seq<char>> {
    v.map_values(|p: Vec<char>| p@)
}

/// The parts from index `from` on, joined with `sep`.
pub fn join_parts_from(parts: &Vec<Vec<char>>, from: usize, sep: char) -> (r: Vec<char>)
    requires
        from <= parts@.len(),
    ensures
        r@ == join_with(part_views(parts@).skip(from as int), seq![sep]),
{
    let mut r: Vec<char> = Vec::new();
    let mut i: usize = from;
    let ghost pv = part_views(parts@).skip(from as int);
    while i < parts.len()
        invariant
            from <= i <= parts@.len(),
            pv == part_views(parts@).skip(from as int),
            r@ == join_with(pv.take(i - from), seq![sep]),
        decreases parts.len() - i,
    {
        if i > from {
            r.push(sep);
        }
        push_all(&mut r, parts[i].as_slice());
        proof {
            assert(pv.take(i + 1 - from).drop_last() =~= pv.take(i - from));
            assert(pv[i - from] == parts@[i as int]@);
            if i == from {
                assert(r@ =~= pv[0]);
            } else {
                assert(r@ =~= join_with(pv.take(i - from), seq![sep]) + seq![sep] + pv[i - from]);
            }
        }
        i = i + 1;
    }
    assert(pv.take(parts.len() - from) =~= pv);
    r
}

/// `PathBuf::join` on path names (see `join_path`).
pub fn join_path_str(base: &str, rel: &str) -> (r: String)
    ensures
        r@ == join_path(base@, rel@),
{
    let b = chars_of(base);
    let q = chars_of(rel);
    if (q.len() > 0 && q[0] == '/') || b.len() == 0 {
        return string_from_chars(q.as_slice());
    }
    let mut out = b.clone();
    if b[b.len() - 1] != '/' {
        out.push('/');
    }
    push_all(&mut out, q.as_slice());
    proof {
        assert(b@.last() == b@[b@.len() - 1]);
        if b@.last() == '/' {
            assert(out@ =~= base@ + rel@);
        } else {
            assert(out@ =~= base@ + seq!['/'] + rel@);
        }
    }
    string_from_chars(out.as_slice())
}

/// Whether the first `n` parts of `a` and `b` agree.
fn parts_agree(a: &Vec<Vec<char>>, b: &Vec<Vec<char>>, a_from: usize, n: usize) -> (r: bool)
    requires
        a_from + n <= a@.len(),
        n <= b@.len(),
    ensures
        r == (part_views(a@).subrange(a_from as int, a_from + n) == part_views(b@).take(n as int)),
{
    let mut k: usize = 0;
    let alen = a.len();
    while k < n
        invariant
            alen == a@.len(),
            a_from + n <= alen,
            n <= b@.len(),
            k <= n,
            forall|j: int| 0 <= j < k ==> a@[a_from + j]@ == b@[j]@,
        decreases n - k,
    {
        if !slice_eq(a[a_from + k].as_slice(), b[k].as_slice()) {
            assert(part_views(a@).subrange(a_from as int, a_from + n)[k as int] == a@[a_from + k]@);
            assert(part_views(b@).take(n as int)[k as int] == b@[k as int]@);
            return false;
        }
        k = k + 1;
    }
    assert(part_views(a@).subrange(a_from as int, a_from + n) =~= part_views(b@).take(n as int));
    true
}

/// `Path::strip_prefix` on path names (see `strip_path_prefix`).
pub fn strip_path_prefix_str(base: &str, full: &str) -> (r: Option<String>)
    ensures
        match r {
            Some(s) => strip_path_prefix(base@, full@) == Some(s@),
            None => strip_path_prefix(base@, full@) is None,
        },
{
    let bc = chars_of(base);
    let fc = chars_of(full);
    let b = path_components(bc.as_slice());
    let f = path_components(fc.as_slice());
    let babs = bc.len() > 0 && bc[0] == '/';
    let fabs = fc.len() > 0 && fc[0] == '/';
    proof {
        assert(part_views(b@) == components(base@));
        assert(part_views(f@) == components(full@));
    }
    if babs != fabs || b.len() > f.len() {
        return None;
    }
    if !parts_agree(&f, &b, 0, b.len()) {
        proof {
            assert(part_views(f@).subrange(0, b@.len() as int) =~= part_views(f@).take(b@.len() as int));
            assert(part_views(b@).take(b@.len() as int) =~= part_views(b@));
        }
        return None;
    }
    proof {
        assert(part_views(f@).subrange(0, b@.len() as int) =~= part_views(f@).take(b@.len() as int));
        assert(part_views(b@).take(b@.len() as int) =~= part_views(b@));
    }
    let rest = join_parts_from(&f, b.len(), '/');
    Some(string_from_chars(rest.as_slice()))
}

/// `Path::ends_with` on path names (see `path_ends_with`).
pub fn path_ends_with_str(p: &str, q: &str) -> (r: bool)
    ensures
        r == path_ends_with(p@, q@),
{
    let pc = chars_of(p);
    let qc = chars_of(q);
    let a = path_components(pc.as_slice());
    let b = path_components(qc.as_slice());
    let pabs = pc.len() > 0 && pc[0] == '/';
    let qabs = qc.len() > 0 && qc[0] == '/';
    proof {
        assert(part_views(a@) == components(p@));
        assert(part_views(b@) == components(q@));
    }
    if qabs {
        if !pabs || a.len() != b.len() {
            proof {
                if pabs {
                    assert(part_views(a@).len() != part_views(b@).len());
                }
            }
            return false;
        }
        let r = parts_agree(&a, &b, 0, b.len());
        proof {
            assert(part_views(a@).subrange(0, b@.len() as int) =~= part_views(a@));
            assert(part_views(b@).take(b@.len() as int) =~= part_views(b@));
        }
        return r;
    }
    if b.len() > a.len() {
        return false;
    }
    let r = parts_agree(&a, &b, a.len() - b.len(), b.len());
    proof {
        assert(part_views(a@).subrange(a@.len() - b@.len(), a@.len() as int) =~= part_views(a@).skip(
            a@.len() - b@.len(),
        ));
        assert(part_views(b@).take(b@.len() as int) =~= part_views(b@));
    }
    r
}

/// Splitting at a separator splits the text on each side of it.
pub proof fn lemma_split_concat(a: Seq<char>, b: Seq<char>, c: char)
    ensures
        split_on(a + seq![c] + b, c) == split_on(a, c) + split_on(b, c),
    decreases b.len(),
{
    let s = a + seq![c] + b;
    if b.len() == 0 {
        assert(s.drop_last() =~= a);
        assert(split_on(b, c) =~= seq![Seq::<char>::empty()]);
        assert(split_on(s, c) =~= split_on(a, c) + split_on(b, c));
    } else {
        assert(s.drop_last() =~= a + seq![c] + b.drop_last());
        lemma_split_concat(a, b.drop_last(), c);
        lemma_split_on_nonempty(b.drop_last(), c);
        assert(s.last() == b.last());
        let r = split_on(s.drop_last(), c);
        let ra = split_on(a, c);
        let rb = split_on(b.drop_last(), c);
        assert(r == ra + rb);
        if b.last() == c {
            assert(split_on(s, c) =~= ra + rb.push(Seq::empty()));
        } else {
            assert(r.last() == rb.last());
            assert(split_on(s, c) =~= ra + rb.update(rb.len() - 1, rb.last().push(b.last())));
        }
        assert(split_on(s, c) =~= split_on(a, c) + split_on(b, c));
    }
}

/// A text without the separator is one piece.
pub proof fn lemma_split_single(s: Seq<char>, c: char)
    requires
        !s.contains(c),
    ensures
        split_on(s, c) == seq![s],
    decreases s.len(),
{
    if s.len() > 0 {
        assert(!s.drop_last().contains(c)) by {
            if s.drop_last().contains(c) {
                let i = choose|i: int| 0 <= i < s.drop_last().len() && s.drop_last()[i] == c;
                assert(s[i] == c);
            }
        }
        lemma_split_single(s.drop_last(), c);
        assert(s.last() == s[s.len() - 1]);
        assert(s.drop_last().push(s.last()) =~= s);
        assert(split_on(s, c) =~= seq![s]);
    } else {
        assert(s =~= Seq::<char>::empty());
        assert(split_on(s, c) =~= seq![s]);
    }
}

/// The named segments of one segment.
pub proof fn lemma_normal_single(x: Seq<char>)
    ensures
        normal_segments(seq![x]) == if is_normal_segment(x) {
            seq![x]
        } else {
            Seq::<Seq<char>>::empty()
        },
{
    assert(seq![x].drop_last() =~= Seq::<Seq<char>>::empty());
    assert(seq![x].last() == x);
    assert(normal_segments(Seq::<Seq<char>>::empty()) =~= Seq::<Seq<char>>::empty());
    if is_normal_segment(x) {
        assert(Seq::<Seq<char>>::empty().push(x) =~= seq![x]);
    }
}

/// No piece of a split holds the separator.
pub proof fn lemma_split_pieces(s: Seq<char>, c: char)
    ensures
        forall|i: int| 0 <= i < split_on(s, c).len() ==> !(#[trigger] split_on(s, c)[i]).contains(c),
    decreases s.len(),
{
    if s.len() > 0 {
        lemma_split_pieces(s.drop_last(), c);
        lemma_split_on_nonempty(s.drop_last(), c);
        let r = split_on(s.drop_last(), c);
        if s.last() != c {
            let l = r.last().push(s.last());
            assert(!r[r.len() - 1].contains(c));
            assert(!l.contains(c)) by {
                if l.contains(c) {
                    let i = choose|i: int| 0 <= i < l.len() && l[i] == c;
                    if i < l.len() - 1 {
                        assert(r.last()[i] == c);
                    }
                }
            }
            assert forall|i: int| 0 <= i < split_on(s, c).len() implies !(#[trigger] split_on(s, c)[i]).contains(
                c,
            ) by {
                if i < r.len() - 1 {
                    assert(split_on(s, c)[i] == r[i]);
                }
            }
        } else {
            assert forall|i: int| 0 <= i < split_on(s, c).len() implies !(#[trigger] split_on(s, c)[i]).contains(
                c,
            ) by {
                if i < r.len() {
                    assert(split_on(s, c)[i] == r[i]);
                } else {
                    assert(split_on(s, c)[i] =~= Seq::<char>::empty());
                }
            }
        }
    }
}

/// Keeping the named segments of two runs of segments keeps those of each.
pub proof fn lemma_normal_concat(x: Seq<Seq<char>>, y: Seq<Seq<char>>)
    ensures
        normal_segments(x + y) == normal_segments(x) + normal_segments(y),
    decreases y.len(),
{
    if y.len() == 0 {
        assert(x + y =~= x);
        assert(normal_segments(x) + normal_segments(y) =~= normal_segments(x));
    } else {
        assert((x + y).drop_last() =~= x + y.drop_last());
        assert((x + y).last() == y.last());
        lemma_normal_concat(x, y.drop_last());
        if is_normal_segment(y.last()) {
            assert(normal_segments(x + y) =~= normal_segments(x) + normal_segments(y.drop_last()).push(y.last()));
        } else {
            assert(normal_segments(x + y) =~= normal_segments(x) + normal_segments(y.drop_last()));
        }
    }
}

/// The named segments of segments without `/` are named and hold no `/`.
pub proof fn lemma_normal_pieces(segs: Seq<Seq<char>>)
    requires
        forall|i: int| 0 <= i < segs.len() ==> !(#[trigger] segs[i]).contains('/'),
    ensures
        forall|i: int|
            0 <= i < normal_segments(segs).len() ==> is_normal_segment(#[trigger] normal_segments(segs)[i])
                && !normal_segments(segs)[i].contains('/'),
    decreases segs.len(),
{
    if segs.len() > 0 {
        assert forall|i: int| 0 <= i < segs.drop_last().len() implies !(#[trigger] segs.drop_last()[i]).contains(
            '/',
        ) by {
            assert(segs.drop_last()[i] == segs[i]);
        }
        lemma_normal_pieces(segs.drop_last());
        assert(!segs[segs.len() - 1].contains('/'));
        let r = normal_segments(segs.drop_last());
        assert forall|i: int| 0 <= i < normal_segments(segs).len() implies is_normal_segment(
            #[trigger] normal_segments(segs)[i],
        ) && !normal_segments(segs)[i].contains('/') by {
            if i < r.len() {
                assert(normal_segments(segs)[i] == r[i]);
            } else {
                assert(normal_segments(segs)[i] == segs.last());
            }
        }
    }
}

/// The parts of a path are named and hold no `/`.
pub proof fn lemma_parts_named(s: Seq<char>)
    ensures
        forall|i: int| 0 <= i < parts(s).len() ==> is_normal_segment(#[trigger] parts(s)[i]) && !parts(s)[i].contains(
            '/',
        ),
{
    lemma_split_pieces(s, '/');
    lemma_normal_pieces(segments(s));
}

/// Named parts joined with `/` split back into the same parts.
pub proof fn lemma_parts_of_joined(ps: Seq<Seq<char>>)
    requires
        forall|i: int| 0 <= i < ps.len() ==> is_normal_segment(#[trigger] ps[i]) && !ps[i].contains('/'),
    ensures
        parts(join_with(ps, seq!['/'])) == ps,
    decreases ps.len(),
{
    if ps.len() == 0 {
        assert(segments(Seq::<char>::empty()) =~= seq![Seq::<char>::empty()]);
        lemma_normal_single(Seq::<char>::empty());
        assert(parts(join_with(ps, seq!['/'])) =~= ps);
    } else if ps.len() == 1 {
        assert(is_normal_segment(ps[0]) && !ps[0].contains('/'));
        lemma_split_single(ps[0], '/');
        lemma_normal_single(ps[0]);
        assert(parts(join_with(ps, seq!['/'])) =~= ps);
    } else {
        let init = ps.drop_last();
        assert forall|i: int| 0 <= i < init.len() implies is_normal_segment(#[trigger] init[i])
            && !init[i].contains('/') by {
            assert(init[i] == ps[i]);
        }
        lemma_parts_of_joined(init);
        let j = join_with(init, seq!['/']);
        assert(join_with(ps, seq!['/']) == j + seq!['/'] + ps.last());
        lemma_split_concat(j, ps.last(), '/');
        assert(!ps[ps.len() - 1].contains('/'));
        lemma_split_single(ps.last(), '/');
        lemma_normal_concat(segments(j), segments(ps.last()));
        lemma_normal_single(ps.last());
        assert(init + seq![ps.last()] =~= ps);
    }
}

/// The parts of `base` joined with `rel` (see `join_path`, for a `rel` that
/// is not absolute) are those of `base`, then those of `rel`.
pub proof fn lemma_parts_of_join_path(base: Seq<char>, rel: Seq<char>)
    requires
        base.len() > 0,
        !is_absolute(rel),
    ensures
        parts(join_path(base, rel)) == parts(base) + parts(rel),
{
    if base.last() == '/' {
        let x = base.drop_last();
        assert(base =~= x + seq!['/'] + Seq::<char>::empty());
        assert(join_path(base, rel) =~= x + seq!['/'] + rel);
        lemma_split_concat(x, rel, '/');
        lemma_split_concat(x, Seq::<char>::empty(), '/');
        lemma_normal_concat(segments(x), segments(rel));
        lemma_normal_concat(segments(x), segments(Seq::<char>::empty()));
        assert(segments(Seq::<char>::empty()) =~= seq![Seq::<char>::empty()]);
        lemma_normal_single(Seq::<char>::empty());
        assert(parts(base) =~= parts(x));
    } else {
        lemma_split_concat(base, rel, '/');
        lemma_normal_concat(segments(base), segments(rel));
    }
}

/// Joining onto a non-empty base keeps whether the path is rooted and
/// whether it leads with `.`.
pub proof fn lemma_join_keeps_start(base: Seq<char>, rel: Seq<char>)
    requires
        base.len() > 0,
        !is_absolute(rel),
    ensures
        is_absolute(join_path(base, rel)) == is_absolute(base),
        leads_with_cur_dir(join_path(base, rel)) == leads_with_cur_dir(base),
{
    let j = join_path(base, rel);
    if base.last() == '/' {
        assert(j == base + rel);
    } else {
        assert(j == base + seq!['/'] + rel);
    }
    assert(j[0] == base[0]);
    if base.len() >= 2 {
        assert(j[1] == base[1]);
        assert(j.len() >= 2);
        assert(j != seq!['.']);
        assert(base != seq!['.']);
    } else if base.last() != '/' {
        assert(j[1] == '/');
        assert(j.len() >= 2);
        assert(j != seq!['.']);
        if base[0] == '.' {
            assert(base =~= seq!['.']);
        }
    } else {
        assert(base[0] == '/');
        assert(base != seq!['.']);
        if j == seq!['.'] {
            assert(j[0] == '.');
        }
    }
}

/// A relative path that does not lead with `.` and is not empty has a
/// named first part.
pub proof fn lemma_relative_has_part(s: Seq<char>)
    requires
        s.len() > 0,
        !is_absolute(s),
        !leads_with_cur_dir(s),
    ensures
        parts(s).len() > 0,
{
    lemma_first_index(s, '/');
    match first_index(s, '/') {
        None => {
            lemma_split_single(s, '/');
            lemma_normal_single(s);
        },
        Some(i) => {
            let a = s.take(i);
            let b = s.skip(i + 1);
            assert(s =~= a + seq!['/'] + b);
            lemma_split_concat(a, b, '/');
            assert(!a.contains('/')) by {
                if a.contains('/') {
                    let k = choose|k: int| 0 <= k < a.len() && a[k] == '/';
                    assert(s[k] == '/');
                }
            }
            lemma_split_single(a, '/');
            lemma_normal_concat(seq![a], segments(b));
            lemma_normal_single(a);
            assert(i > 0);
            if a == seq!['.'] {
                assert(s[0] == '.' && s[1] == '/');
            }
        },
    }
}

/// Parts joined with a separator begin with the first part.
pub proof fn lemma_join_prefix(ps: Seq<Seq<char>>, sep: Seq<char>)
    requires
        ps.len() > 0,
    ensures
        join_with(ps, sep).len() >= ps[0].len(),
        join_with(ps, sep).take(ps[0].len() as int) == ps[0],
    decreases ps.len(),
{
    if ps.len() > 1 {
        let init = ps.drop_last();
        lemma_join_prefix(init, sep);
        assert(init[0] == ps[0]);
        let j = join_with(init, sep);
        assert(join_with(ps, sep) == j + sep + ps.last());
        assert((j + sep + ps.last()).take(ps[0].len() as int) =~= j.take(ps[0].len() as int));
    }
}

/// Joining a first part onto the rest: the part, the separator, the rest.
pub proof fn lemma_join_cons(a: Seq<char>, ys: Seq<Seq<char>>, sep: Seq<char>)
    requires
        ys.len() > 0,
    ensures
        join_with(seq![a] + ys, sep) == a + sep + join_with(ys, sep),
    decreases ys.len(),
{
    let xs = seq![a] + ys;
    assert(xs.drop_last() =~= seq![a] + ys.drop_last());
    assert(xs.last() == ys.last());
    assert(xs.len() >= 2);
    assert(join_with(xs, sep) == join_with(xs.drop_last(), sep) + sep + xs.last());
    if ys.len() == 1 {
        assert(seq![a] + ys.drop_last() =~= seq![a]);
        assert(join_with(seq![a], sep) == a);
        assert(join_with(ys, sep) == ys[0]);
        assert(ys.last() == ys[0]);
        assert(join_with(xs, sep) =~= a + sep + join_with(ys, sep));
    } else {
        lemma_join_cons(a, ys.drop_last(), sep);
        assert(join_with(ys, sep) == join_with(ys.drop_last(), sep) + sep + ys.last());
        assert(join_with(xs, sep) =~= a + sep + join_with(ys, sep));
    }
}

/// Named parts joined with `/` make a relative path that does not lead
/// with `.`, whose components are those parts.
proof fn lemma_joined_components(ps: Seq<Seq<char>>)
    requires
        forall|i: int| 0 <= i < ps.len() ==> is_normal_segment(#[trigger] ps[i]) && !ps[i].contains('/'),
    ensures
        !is_absolute(join_with(ps, seq!['/'])),
        !leads_with_cur_dir(join_with(ps, seq!['/'])),
        components(join_with(ps, seq!['/'])) == ps,
{
    let r = join_with(ps, seq!['/']);
    lemma_parts_of_joined(ps);
    if ps.len() > 0 {
        lemma_join_prefix(ps, seq!['/']);
        let p0 = ps[0];
        assert(is_normal_segment(p0) && !p0.contains('/'));
        assert(r[0] == p0[0]);
        assert(p0[0] != '/') by {
            if p0[0] == '/' {
                assert(p0.contains('/'));
            }
        }
        if p0[0] == '.' {
            assert(p0.len() >= 2) by {
                if p0.len() == 1 {
                    assert(p0 =~= seq!['.']);
                }
            }
            assert(r[1] == p0[1]);
            assert(p0[1] != '/') by {
                if p0[1] == '/' {
                    assert(p0.contains('/'));
                }
            }
        }
    } else {
        assert(r =~= Seq::<char>::empty());
    }
}

/// A relative path found by `strip_path_prefix` joined back onto its base
/// gives back the full path: rooted exactly when it is, and component by
/// component.
pub proof fn law_strip_then_join(base: Seq<char>, full: Seq<char>, rel: Seq<char>)
    requires
        strip_path_prefix(base, full) == Some(rel),
    ensures
        is_absolute(join_path(base, rel)) == is_absolute(full),
        components(join_path(base, rel)) == components(full),
{
    let b = components(base);
    let f = components(full);
    let bl = b.len() as int;
    let tail = f.skip(bl);
    assert(f.take(bl) == b);
    assert(b + tail =~= f);
    assert(rel == join_with(tail, seq!['/']));
    lemma_parts_named(full);
    lemma_parts_named(base);
    if base.len() == 0 {
        assert(!leads_with_cur_dir(base));
        assert(segments(base) =~= seq![Seq::<char>::empty()]);
        lemma_normal_single(Seq::<char>::empty());
        assert(bl == 0);
        assert(tail =~= f);
        assert(join_path(base, rel) == rel);
        if leads_with_cur_dir(full) {
            let ps = parts(full);
            assert(f == seq![seq!['.']] + ps);
            if ps.len() == 0 {
                assert(f =~= seq![seq!['.']]);
                assert(rel == seq!['.']);
                lemma_split_single(seq!['.'], '/');
                lemma_normal_single(seq!['.']);
                assert(parts(rel) =~= Seq::<Seq<char>>::empty());
            } else {
                lemma_join_cons(seq!['.'], ps, seq!['/']);
                let jp = join_with(ps, seq!['/']);
                assert(rel == seq!['.'] + seq!['/'] + jp);
                lemma_split_concat(seq!['.'], jp, '/');
                lemma_split_single(seq!['.'], '/');
                lemma_normal_concat(seq![seq!['.']], segments(jp));
                lemma_normal_single(seq!['.']);
                lemma_parts_of_joined(ps);
                assert(parts(rel) =~= ps);
                assert(rel[0] == '.' && rel[1] == '/');
            }
            assert(components(rel) =~= f);
        } else {
            assert(f == parts(full));
            lemma_joined_components(tail);
        }
    } else {
        if leads_with_cur_dir(full) && !leads_with_cur_dir(base) {
            assert(!is_absolute(full));
            assert(!is_absolute(base));
            lemma_relative_has_part(base);
            assert(b[0] == f[0]);
            assert(f[0] == seq!['.']);
            assert(is_normal_segment(parts(base)[0]));
            assert(false);
        }
        assert forall|i: int| 0 <= i < tail.len() implies is_normal_segment(#[trigger] tail[i])
            && !tail[i].contains('/') by {
            assert(tail[i] == f[i + bl]);
            if leads_with_cur_dir(full) {
                assert(bl >= 1);
                assert(f[i + bl] == parts(full)[i + bl - 1]);
            } else {
                assert(f[i + bl] == parts(full)[i + bl]);
            }
        }
        lemma_joined_components(tail);
        lemma_parts_of_joined(tail);
        lemma_join_keeps_start(base, rel);
        lemma_parts_of_join_path(base, rel);
        let j = join_path(base, rel);
        if leads_with_cur_dir(base) {
            assert(components(j) =~= seq![seq!['.']] + parts(base) + tail);
        } else {
            assert(components(j) =~= parts(base) + tail);
        }
    }
}

/// Named parts joined with `/` begin with the first part's first character.
pub proof fn lemma_join_starts_with_part(ps: Seq<Seq<char>>)
    requires
        ps.len() > 0,
        forall|i: int| 0 <= i < ps.len() ==> is_normal_segment(#[trigger] ps[i]) && !ps[i].contains('/'),
    ensures
        join_with(ps, seq!['/']).len() > 0,
        join_with(ps, seq!['/'])[0] == ps[0][0],
    decreases ps.len(),
{
    assert(is_normal_segment(ps[0]));
    if ps.len() > 1 {
        let init = ps.drop_last();
        assert forall|i: int| 0 <= i < init.len() implies is_normal_segment(#[trigger] init[i])
            && !init[i].contains('/') by {
            assert(init[i] == ps[i]);
        }
        lemma_join_starts_with_part(init);
        assert(init[0] == ps[0]);
    }
}


/// The rank of a component in path order: the current directory (`.`),
/// then the parent directory (`..`), then named components; a root comes
/// before all of them (rank 0).
pub open spec fn component_rank(c: Seq<char>) -> int {
    if c == seq!['.'] {
        1
    } else if c == seq!['.', '.'] {
        2
    } else {
        3
    }
}

/// The sort key of one component: its rank, its characters (as code points,
/// one higher, so that 0 ends a component before any character), then 0.
pub open spec fn component_key(c: Seq<char>) -> Seq<int> {
    seq![component_rank(c)] + c.map_values(|ch: char| (ch as u32) as int + 1) + seq![0int]
}

/// The keys of the components, one after the other.
pub open spec fn components_key(cs: Seq<Seq<char>>) -> Seq<int>
    decreases cs.len(),
{
    if cs.len() == 0 {
        Seq::empty()
    } else {
        components_key(cs.drop_last()) + component_key(cs.last())
    }
}

/// The sort key of a path: a root first when it has one, then the keys of
/// its components. Comparing keys in dictionary order compares paths as
/// `Path`'s `Ord` does: component by component, a root before anything,
/// `.` before `..` before named components, names by code point, and a
/// path before the longer paths it begins.
pub open spec fn path_key(p: Seq<char>) -> Seq<int> {
    (if is_absolute(p) {
        seq![0int]
    } else {
        Seq::<int>::empty()
    }) + components_key(components(p))
}

/// Dictionary order on integer sequences: `a` is at most `b`.
pub open spec fn lex_le(a: Seq<int>, b: Seq<int>) -> bool
    decreases a.len(),
{
    if a.len() == 0 {
        true
    } else if b.len() == 0 {
        false
    } else if a[0] != b[0] {
        a[0] < b[0]
    } else {
        lex_le(a.skip(1), b.skip(1))
    }
}

/// Path order: the key of `a` is at most that of `b`.
pub open spec fn path_le(a: Seq<char>, b: Seq<char>) -> bool {
    lex_le(path_key(a), path_key(b))
}

/// Any two sequences are ordered one way or the other.
pub proof fn lemma_lex_total(a: Seq<int>, b: Seq<int>)
    ensures
        lex_le(a, b) || lex_le(b, a),
    decreases a.len(),
{
    if a.len() > 0 && b.len() > 0 && a[0] == b[0] {
        lemma_lex_total(a.skip(1), b.skip(1));
    }
}

/// Dictionary order is transitive.
pub proof fn lemma_lex_trans(a: Seq<int>, b: Seq<int>, c: Seq<int>)
    requires
        lex_le(a, b),
        lex_le(b, c),
    ensures
        lex_le(a, c),
    decreases a.len(),
{
    if a.len() > 0 && b.len() > 0 && c.len() > 0 && a[0] == b[0] && b[0] == c[0] {
        lemma_lex_trans(a.skip(1), b.skip(1), c.skip(1));
    }
}

/// The key of a component, as exact machine integers.
fn push_component_key(key: &mut Vec<u64>, c: &[char])
    ensures
        final(key)@.map_values(|x: u64| x as int) == old(key)@.map_values(|x: u64| x as int)
            + component_key(c@),
{
    let ghost start = key@.map_values(|x: u64| x as int);
    let rank: u64 = if c.len() == 1 && c[0] == '.' {
        1
    } else if c.len() == 2 && c[0] == '.' && c[1] == '.' {
        2
    } else {
        3
    };
    proof {
        if c@ == seq!['.'] {
            assert(c@.len() == 1 && c@[0] == '.');
        }
        if c@ == seq!['.', '.'] {
            assert(c@.len() == 2 && c@[0] == '.' && c@[1] == '.');
        }
        if c@.len() == 1 && c@[0] == '.' {
            assert(c@ =~= seq!['.']);
        }
        if c@.len() == 2 && c@[0] == '.' && c@[1] == '.' {
            assert(c@ =~= seq!['.', '.']);
        }
    }
    key.push(rank);
    let mut i: usize = 0;
    while i < c.len()
        invariant
            i <= c@.len(),
            key@.map_values(|x: u64| x as int) == start + seq![component_rank(c@)] + c@.take(
                i as int,
            ).map_values(|ch: char| (ch as u32) as int + 1),
        decreases c.len() - i,
    {
        let ghost before = key@;
        let ch: char = c[i];
        let code: u32 = ch as u32;
        proof {
            vstd::utf8::char_is_scalar(ch);
        }
        let next: u64 = code as u64 + 1;
        key.push(next);
        proof {
            let f = |ch: char| (ch as u32) as int + 1;
            let g = |x: u64| x as int;
            assert(c@.take(i + 1) =~= c@.take(i as int).push(ch));
            assert(c@.take(i + 1).map_values(f) =~= c@.take(i as int).map_values(f).push(f(ch)));
            assert(key@ == before.push(next));
            assert(key@.map_values(g) =~= before.map_values(g).push(g(next)));
            assert(g(next) == f(ch));
            assert(key@.map_values(|x: u64| x as int) =~= start + seq![component_rank(c@)] + c@.take(
                i + 1,
            ).map_values(|ch: char| (ch as u32) as int + 1));
        }
        i = i + 1;
    }
    let ghost before0 = key@;
    key.push(0);
    proof {
        assert(c@.take(i as int) =~= c@);
        assert(key@.map_values(|x: u64| x as int) =~= before0.map_values(|x: u64| x as int).push(0int));
        assert(key@.map_values(|x: u64| x as int) =~= start + component_key(c@));
    }
}

/// The sort key of a path (see `path_key`).
fn path_key_exec(p: &str) -> (r: Vec<u64>)
    ensures
        r@.map_values(|x: u64| x as int) == path_key(p@),
{
    let c = chars_of(p);
    let comps = path_components(c.as_slice());
    let mut key: Vec<u64> = Vec::new();
    if c.len() > 0 && c[0] == '/' {
        key.push(0);
    }
    let ghost head = key@.map_values(|x: u64| x as int);
    proof {
        assert(head =~= (if is_absolute(p@) {
            seq![0int]
        } else {
            Seq::<int>::empty()
        }));
    }
    let mut i: usize = 0;
    while i < comps.len()
        invariant
            i <= comps@.len(),
            part_views(comps@) == components(p@),
            key@.map_values(|x: u64| x as int) == head + components_key(part_views(comps@).take(i as int)),
        decreases comps.len() - i,
    {
        push_component_key(&mut key, comps[i].as_slice());
        proof {
            let pv = part_views(comps@);
            assert(pv.take(i + 1).drop_last() =~= pv.take(i as int));
            assert(pv.take(i + 1).last() == comps@[i as int]@);
            assert(key@.map_values(|x: u64| x as int) =~= head + components_key(pv.take(i + 1)));
        }
        i = i + 1;
    }
    proof {
        assert(part_views(comps@).take(i as int) =~= part_views(comps@));
    }
    key
}

/// Whether `a` comes no later than `b` in path order (see `path_le`).
pub fn path_order_le(a: &str, b: &str) -> (r: bool)
    ensures
        r == path_le(a@, b@),
{
    let ka = path_key_exec(a);
    let kb = path_key_exec(b);
    let ghost sa = ka@.map_values(|x: u64| x as int);
    let ghost sb = kb@.map_values(|x: u64| x as int);
    let mut i: usize = 0;
    proof {
        assert(sa.skip(0) =~= sa);
        assert(sb.skip(0) =~= sb);
    }
    while i < ka.len() && i < kb.len() && ka[i] == kb[i]
        invariant
            i <= ka@.len(),
            i <= kb@.len(),
            sa == ka@.map_values(|x: u64| x as int),
            sb == kb@.map_values(|x: u64| x as int),
            lex_le(sa, sb) == lex_le(sa.skip(i as int), sb.skip(i as int)),
        decreases ka.len() - i,
    {
        proof {
            assert(sa.skip(i as int)[0] == sb.skip(i as int)[0]);
            assert(sa.skip(i as int).skip(1) =~= sa.skip(i + 1));
            assert(sb.skip(i as int).skip(1) =~= sb.skip(i + 1));
        }
        i = i + 1;
    }
    if i == ka.len() {
        true
    } else if i == kb.len() {
        false
    } else {
        proof {
            assert(sa.skip(i as int)[0] == sa[i as int]);
            assert(sb.skip(i as int)[0] == sb[i as int]);
        }
        ka[i] < kb[i]
    }
}

} // verus!
