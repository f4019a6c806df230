//! Where an archive entry may be written: splitting an entry's stored path
//! into components, dropping leading components, resolving `.` and `..`, and
//! joining what remains under the destination root.
use vstd::prelude::*;
use crate::text::{char_vec, string_of};

verus! {

/// The component that stands for a leading `/` (an absolute path).
pub open spec fn root_mark() -> Seq<char> {
    seq!['/']
}

pub open spec fn cur_dir() -> Seq<char> {
    seq!['.']
}

pub open spec fn parent_dir() -> Seq<char> {
    seq!['.', '.']
}

/// The pieces of `p` between `/` separators, empty pieces included.
pub open spec fn pieces(p: Seq<char>) -> Seq<Seq<char>>
    decreases p.len(),
{
    if p.len() == 0 {
        seq![Seq::empty()]
    } else {
        let q = pieces(p.drop_last());
        if p.last() == '/' {
            q.push(Seq::empty())
        } else {
            q.update(q.len() - 1, q.last().push(p.last()))
        }
    }
}

/// Pieces that name nothing: empty ones (from `//` or a trailing `/`) and `.`.
pub open spec fn is_filler(s: Seq<char>) -> bool {
    s.len() == 0 || s == cur_dir()
}

/// The pieces that are kept as components, in order.
pub open spec fn kept(ps: Seq<Seq<char>>) -> Seq<Seq<char>>
    decreases ps.len(),
{
    if ps.len() == 0 {
        Seq::empty()
    } else {
        let k = kept(ps.drop_last());
        if is_filler(ps.last()) {
            k
        } else {
            k.push(ps.last())
        }
    }
}

/// `p` begins with a `.` piece, as in `./pkg` or `.`.
pub open spec fn starts_at_cur_dir(p: Seq<char>) -> bool {
    p.len() >= 1 && p[0] == '.' && (p.len() == 1 || p[1] == '/')
}

/// The components of a stored path: a leading `/` or a leading `.` piece is
/// a component of its own; elsewhere empty and `.` pieces are dropped.
pub open spec fn components(p: Seq<char>) -> Seq<Seq<char>> {
    if p.len() >= 1 && p[0] == '/' {
        seq![root_mark()] + kept(pieces(p))
    } else if starts_at_cur_dir(p) {
        seq![cur_dir()] + kept(pieces(p))
    } else {
        kept(pieces(p))
    }
}

/// The components left after dropping the first `n`.
pub open spec fn strip(c: Seq<Seq<char>>, n: nat) -> Seq<Seq<char>> {
    if n >= c.len() {
        Seq::empty()
    } else {
        c.skip(n as int)
    }
}

/// Resolves components relative to the root: `.` stays put, `..` goes up one
/// level, a name goes down. `None` where the path would leave the root, by
/// `..` above it or by a root component (an absolute path).
pub open spec fn resolve(c: Seq<Seq<char>>) -> Option<Seq<Seq<char>>>
    decreases c.len(),
{
    if c.len() == 0 {
        Some(Seq::empty())
    } else {
        match resolve(c.drop_last()) {
            None => None,
            Some(acc) => {
                let s = c.last();
                if s == root_mark() {
                    None
                } else if s == cur_dir() {
                    Some(acc)
                } else if s == parent_dir() {
                    if acc.len() == 0 {
                        None
                    } else {
                        Some(acc.drop_last())
                    }
                } else {
                    Some(acc.push(s))
                }
            }
        }
    }
}

/// The names, relative to the root, at which an entry stored under `entry`
/// lands after dropping `strip_count` components; `None` where it must be
/// skipped: it leaves the root, or nothing is left of it.
pub open spec fn placement(entry: Seq<char>, strip_count: nat) -> Option<Seq<Seq<char>>> {
    match resolve(strip(components(entry), strip_count)) {
        Some(names) => if names.len() > 0 {
            Some(names)
        } else {
            None
        },
        None => None,
    }
}

/// Appends one name to a path, with a `/` between unless the path is empty or
/// already ends with one.
pub open spec fn join_one(base: Seq<char>, name: Seq<char>) -> Seq<char> {
    if base.len() == 0 || base.last() == '/' {
        base + name
    } else {
        base + seq!['/'] + name
    }
}

/// `root` with `names` appended one after another.
pub open spec fn joined(root: Seq<char>, names: Seq<Seq<char>>) -> Seq<char>
    decreases names.len(),
{
    if names.len() == 0 {
        root
    } else {
        join_one(joined(root, names.drop_last()), names.last())
    }
}

/// What `sanitize_entry_path` returns: the joined path, or `None`.
pub open spec fn sanitized(root: Seq<char>, entry: Seq<char>, strip_count: nat) -> Option<Seq<char>> {
    match placement(entry, strip_count) {
        Some(names) => Some(joined(root, names)),
        None => None,
    }
}

/// A name that designates an entry strictly below the directory it is in.
pub open spec fn is_plain_name(s: Seq<char>) -> bool {
    &&& s.len() > 0
    &&& s != cur_dir()
    &&& s != parent_dir()
    &&& forall|i: int| 0 <= i < s.len() ==> s[i] != '/'
}

pub open spec fn texts(v: Seq<Vec<char>>) -> Seq<Seq<char>> {
    v.map_values(|c: Vec<char>| c@)
}

fn is_filler_exec(v: &Vec<char>) -> (r: bool)
    ensures
        r == is_filler(v@),
{
    v.len() == 0 || is_cur_dir(v)
}

fn is_cur_dir(v: &Vec<char>) -> (r: bool)
    ensures
        r == (v@ == cur_dir()),
{
    let r = v.len() == 1 && v[0] == '.';
    proof {
        if r {
            assert(v@ =~= cur_dir());
        }
    }
    r
}

fn is_parent_dir(v: &Vec<char>) -> (r: bool)
    ensures
        r == (v@ == parent_dir()),
{
    let r = v.len() == 2 && v[0] == '.' && v[1] == '.';
    proof {
        if r {
            assert(v@ =~= parent_dir());
        }
    }
    r
}

fn is_root_mark(v: &Vec<char>) -> (r: bool)
    ensures
        r == (v@ == root_mark()),
{
    let r = v.len() == 1 && v[0] == '/';
    proof {
        if r {
            assert(v@ =~= root_mark());
        }
    }
    r
}

proof fn lemma_texts_push(v: Seq<Vec<char>>, x: Vec<char>)
    ensures
        texts(v.push(x)) == texts(v).push(x@),
{
    assert(texts(v.push(x)) =~= texts(v).push(x@));
}

proof fn lemma_pieces_nonempty(p: Seq<char>)
    ensures
        pieces(p).len() >= 1,
    decreases p.len(),
{
    if p.len() > 0 {
        lemma_pieces_nonempty(p.drop_last());
    }
}

/// Splits a stored path into its components.
pub fn entry_components(entry: &str) -> (r: Vec<Vec<char>>)
    ensures
        texts(r@) == components(entry@),
{
    let p = char_vec(entry);
    let ghost sp = p@;
    let mut done: Vec<Vec<char>> = Vec::new();
    let ghost prefix: Seq<Seq<char>> = Seq::empty();
    if p.len() >= 1 && p[0] == '/' {
        let mark = vec!['/'];
        proof {
            prefix = seq![root_mark()];
            lemma_texts_push(done@, mark);
            assert(mark@ =~= root_mark());
        }
        done.push(mark);
    } else if p.len() >= 1 && p[0] == '.' && (p.len() == 1 || p[1] == '/') {
        let mark = vec!['.'];
        proof {
            prefix = seq![cur_dir()];
            lemma_texts_push(done@, mark);
            assert(mark@ =~= cur_dir());
        }
        done.push(mark);
    }
    assert(texts(done@) =~= prefix);
    let mut cur: Vec<char> = Vec::new();
    let mut i: usize = 0;
    proof {
        assert(sp.take(0) =~= Seq::<char>::empty());
    }
    while i < p.len()
        invariant
            sp == p@,
            i <= p.len(),
            pieces(sp.take(i as int)).len() >= 1,
            texts(done@) == prefix + kept(pieces(sp.take(i as int)).drop_last()),
            cur@ == pieces(sp.take(i as int)).last(),
        decreases p.len() - i,
    {
        let c = p[i];
        let ghost before = pieces(sp.take(i as int));
        proof {
            assert(sp.take(i + 1).drop_last() =~= sp.take(i as int));
            lemma_pieces_nonempty(sp.take(i + 1));
        }
        if c == '/' {
            proof {
                assert(pieces(sp.take(i + 1)).drop_last() =~= before);
            }
            if !is_filler_exec(&cur) {
                proof {
                    lemma_texts_push(done@, cur);
                }
                done.push(cur);
                assert(texts(done@) =~= prefix + kept(before));
            } else {
                assert(texts(done@) =~= prefix + kept(before));
            }
            cur = Vec::new();
            assert(cur@ =~= pieces(sp.take(i + 1)).last());
        } else {
            cur.push(c);
            proof {
                assert(pieces(sp.take(i + 1)).drop_last() =~= before.drop_last());
            }
        }
        i += 1;
    }
    proof {
        assert(sp.take(p.len() as int) =~= sp);
    }
    let ghost all = pieces(sp);
    if !is_filler_exec(&cur) {
        proof {
            lemma_texts_push(done@, cur);
        }
        done.push(cur);
    }
    assert(texts(done@) =~= prefix + kept(all));
    assert(texts(done@) =~= components(entry@));
    done
}

/// Once a prefix of the components leaves the root, the whole does.
proof fn lemma_resolve_none_extends(c: Seq<Seq<char>>, k: int)
    requires
        0 <= k <= c.len(),
        resolve(c.take(k)) is None,
    ensures
        resolve(c) is None,
    decreases c.len(),
{
    if k < c.len() {
        assert(c.drop_last().take(k) =~= c.take(k));
        lemma_resolve_none_extends(c.drop_last(), k);
    } else {
        assert(c.take(k) =~= c);
    }
}

/// Resolves the components of `comps` from index `start` on.
fn resolve_from(comps: &Vec<Vec<char>>, start: usize) -> (r: Option<Vec<Vec<char>>>)
    requires
        start <= comps.len(),
    ensures
        match resolve(texts(comps@).skip(start as int)) {
            Some(names) => r is Some && texts(r->0@) == names,
            None => r is None,
        },
{
    let ghost c = texts(comps@);
    let mut acc: Vec<Vec<char>> = Vec::new();
    let mut j: usize = start;
    proof {
        assert(c.subrange(start as int, start as int) =~= Seq::<Seq<char>>::empty());
        assert(texts(acc@) =~= Seq::<Seq<char>>::empty());
    }
    while j < comps.len()
        invariant
            c == texts(comps@),
            start <= j <= comps.len(),
            resolve(c.subrange(start as int, j as int)) == Some(texts(acc@)),
        decreases comps.len() - j,
    {
        let ghost prev = texts(acc@);
        proof {
            assert(c.subrange(start as int, j + 1).drop_last() =~= c.subrange(start as int, j as int));
            assert(c.subrange(start as int, j + 1).last() == comps@[j as int]@);
        }
        let s = &comps[j];
        proof {
            let rest = c.skip(start as int);
            assert(rest.take(j + 1 - start) =~= c.subrange(start as int, j + 1));
            if resolve(c.subrange(start as int, j + 1)) is None {
                lemma_resolve_none_extends(rest, j + 1 - start);
            }
        }
        if is_root_mark(s) {
            return None;
        } else if is_cur_dir(s) {
        } else if is_parent_dir(s) {
            if acc.len() == 0 {
                return None;
            }
            acc.pop();
            assert(texts(acc@) =~= prev.drop_last());
        } else {
            proof {
                lemma_texts_push(acc@, *s);
            }
            acc.push(s.clone());
        }
        j += 1;
    }
    assert(c.subrange(start as int, comps.len() as int) =~= c.skip(start as int));
    Some(acc)
}

/// Appends `names` under `root`, one after another.
fn join_names(root: &str, names: &Vec<Vec<char>>) -> (r: Vec<char>)
    ensures
        r@ == joined(root@, texts(names@)),
{
    let mut out = char_vec(root);
    let mut k: usize = 0;
    let ghost t = texts(names@);
    assert(t.take(0) =~= Seq::<Seq<char>>::empty());
    while k < names.len()
        invariant
            t == texts(names@),
            k <= names.len(),
            out@ == joined(root@, t.take(k as int)),
        decreases names.len() - k,
    {
        assert(t.take(k + 1).drop_last() =~= t.take(k as int));
        if out.len() != 0 && out[out.len() - 1] != '/' {
            out.push('/');
        }
        let name = &names[k];
        let mut m: usize = 0;
        let ghost base = out@;
        while m < name.len()
            invariant
                m <= name.len(),
                out@ == base + name@.take(m as int),
            decreases name.len() - m,
        {
            out.push(name[m]);
            m += 1;
            assert(out@ =~= base + name@.take(m as int));
        }
        k += 1;
        assert(name@.take(name.len() as int) =~= name@);
        assert(out@ =~= joined(root@, t.take(k as int)));
    }
    assert(t.take(names.len() as int) =~= t);
    out
}

/// Decides where an archive entry stored under `entry` may be written below
/// `root` once its first `strip_count` components are dropped. `None` means
/// the entry is to be skipped: nothing is left of its path, or the path would
/// leave `root` (through `..` above it, or by being absolute).
pub fn sanitize_entry_path(root: &str, entry: &str, strip_count: usize) -> (r: Option<String>)
    ensures
        r matches Some(p) ==> sanitized(root@, entry@, strip_count as nat) == Some(p@),
        r is None ==> sanitized(root@, entry@, strip_count as nat) is None,
{
    match place_entry(entry, strip_count) {
        Some(names) => {
            let path = join_names(root, &names);
            Some(string_of(&path))
        },
        None => None,
    }
}

/// What to do with one archive entry.
pub enum EntryPlan {
    /// The entry would land outside the root, or nowhere: leave it out.
    Skip,
    /// Write the entry at `path`, after creating `parent` and its ancestors.
    Unpack { path: String, parent: String },
}

/// Plans one entry of an extraction below `root`: skip it where
/// `sanitize_entry_path` rejects it, else unpack it at the accepted path,
/// whose parent directory is given too.
pub fn plan_entry(root: &str, entry: &str, strip_count: usize) -> (r: EntryPlan)
    ensures
        match placement(entry@, strip_count as nat) {
            None => r is Skip,
            Some(names) => r matches EntryPlan::Unpack { path, parent } && path@ == joined(
                root@,
                names,
            ) && parent@ == joined(root@, names.drop_last()),
        },
{
    match place_entry(entry, strip_count) {
        None => EntryPlan::Skip,
        Some(names) => {
            let path = join_names(root, &names);
            let mut up = names.clone();
            up.pop();
            proof {
                assert(texts(up@) =~= texts(names@).drop_last());
            }
            let parent = join_names(root, &up);
            EntryPlan::Unpack { path: string_of(&path), parent: string_of(&parent) }
        },
    }
}

/// The names below the root at which the entry lands, or `None` where it is
/// to be skipped.
fn place_entry(entry: &str, strip_count: usize) -> (r: Option<Vec<Vec<char>>>)
    ensures
        match placement(entry@, strip_count as nat) {
            Some(names) => r is Some && texts(r->0@) == names,
            None => r is None,
        },
{
    let comps = entry_components(entry);
    if strip_count >= comps.len() {
        return None;
    }
    match resolve_from(&comps, strip_count) {
        Some(names) => if names.len() > 0 {
            Some(names)
        } else {
            None
        },
        None => None,
    }
}

pub open spec fn has_no_sep(s: Seq<char>) -> bool {
    forall|i: int| 0 <= i < s.len() ==> s[i] != '/'
}

/// A component as `components` yields it: the root mark, or a non-empty run
/// of characters without a separator.
pub open spec fn is_component(s: Seq<char>) -> bool {
    s == root_mark() || (s.len() > 0 && has_no_sep(s))
}

proof fn lemma_pieces_have_no_sep(p: Seq<char>)
    ensures
        forall|i: int| 0 <= i < pieces(p).len() ==> has_no_sep(#[trigger] pieces(p)[i]),
    decreases p.len(),
{
    lemma_pieces_nonempty(p);
    if p.len() > 0 {
        lemma_pieces_have_no_sep(p.drop_last());
        lemma_pieces_nonempty(p.drop_last());
        let q = pieces(p.drop_last());
        if p.last() != '/' {
            let l = q.last().push(p.last());
            assert(has_no_sep(q[q.len() - 1]));
            assert(has_no_sep(l));
        }
    }
}

proof fn lemma_kept_are_components(ps: Seq<Seq<char>>)
    requires
        forall|i: int| 0 <= i < ps.len() ==> has_no_sep(#[trigger] ps[i]),
    ensures
        forall|i: int| 0 <= i < kept(ps).len() ==> is_component(#[trigger] kept(ps)[i]),
    decreases ps.len(),
{
    if ps.len() > 0 {
        let d = ps.drop_last();
        assert forall|i: int| 0 <= i < d.len() implies has_no_sep(#[trigger] d[i]) by {
            assert(d[i] == ps[i]);
        }
        lemma_kept_are_components(d);
        assert(has_no_sep(ps[ps.len() - 1]));
        let k = kept(d);
        assert forall|i: int| 0 <= i < kept(ps).len() implies is_component(
            #[trigger] kept(ps)[i],
        ) by {
            if i < k.len() {
                assert(kept(ps)[i] == k[i]);
            }
        }
    }
}

proof fn lemma_components_are_components(p: Seq<char>)
    ensures
        forall|i: int| 0 <= i < components(p).len() ==> is_component(#[trigger] components(p)[i]),
{
    lemma_pieces_have_no_sep(p);
    lemma_kept_are_components(pieces(p));
    let k = kept(pieces(p));
    if p.len() >= 1 && p[0] == '/' {
        assert forall|i: int| 0 <= i < components(p).len() implies is_component(
            #[trigger] components(p)[i],
        ) by {
            if i > 0 {
                assert(components(p)[i] == k[i - 1]);
            }
        }
    } else if starts_at_cur_dir(p) {
        assert forall|i: int| 0 <= i < components(p).len() implies is_component(
            #[trigger] components(p)[i],
        ) by {
            if i > 0 {
                assert(components(p)[i] == k[i - 1]);
            } else {
                assert(has_no_sep(cur_dir()));
            }
        }
    }
}

proof fn lemma_resolved_are_plain(c: Seq<Seq<char>>)
    requires
        forall|i: int| 0 <= i < c.len() ==> is_component(#[trigger] c[i]),
    ensures
        resolve(c) matches Some(names) ==> forall|i: int|
            0 <= i < names.len() ==> is_plain_name(#[trigger] names[i]),
    decreases c.len(),
{
    if c.len() > 0 {
        let d = c.drop_last();
        assert forall|i: int| 0 <= i < d.len() implies is_component(#[trigger] d[i]) by {
            assert(d[i] == c[i]);
        }
        lemma_resolved_are_plain(d);
        assert(is_component(c[c.len() - 1]));
        if let Some(acc) = resolve(d) {
            if let Some(names) = resolve(c) {
                assert forall|i: int| 0 <= i < names.len() implies is_plain_name(
                    #[trigger] names[i],
                ) by {
                    if i < acc.len() {
                        assert(names[i] == acc[i]);
                    }
                }
            }
        }
    }
}

proof fn lemma_joined_extends_root(root: Seq<char>, names: Seq<Seq<char>>)
    ensures
        joined(root, names).len() >= root.len(),
        joined(root, names).take(root.len() as int) == root,
    decreases names.len(),
{
    if names.len() == 0 {
        assert(root.take(root.len() as int) =~= root);
    } else {
        let b = joined(root, names.drop_last());
        lemma_joined_extends_root(root, names.drop_last());
        let j = joined(root, names);
        assert(j.take(b.len() as int) =~= b);
        assert(j.take(root.len() as int) =~= b.take(root.len() as int));
    }
}

/// An entry that is not skipped is written below the root: its path is the
/// root followed by one or more plain names (none empty, `.` or `..`, none
/// holding a `/`), whatever `..`, `.` or leading `/` the stored path held.
pub proof fn lemma_accepted_path_stays_under_root(root: Seq<char>, entry: Seq<char>, strip_count: nat)
    requires
        sanitized(root, entry, strip_count) is Some,
    ensures
        exists|names: Seq<Seq<char>>|
            {
                &&& names.len() > 0
                &&& forall|i: int| 0 <= i < names.len() ==> is_plain_name(#[trigger] names[i])
                &&& sanitized(root, entry, strip_count) == Some(joined(root, names))
            },
        sanitized(root, entry, strip_count)->0.len() > root.len(),
        sanitized(root, entry, strip_count)->0.take(root.len() as int) == root,
{
    let c = components(entry);
    lemma_components_are_components(entry);
    let st = strip(c, strip_count);
    assert forall|i: int| 0 <= i < st.len() implies is_component(#[trigger] st[i]) by {
        assert(st[i] == c[i + strip_count]);
    }
    lemma_resolved_are_plain(st);
    let names = placement(entry, strip_count)->0;
    lemma_joined_extends_root(root, names.drop_last());
    lemma_joined_extends_root(root, names);
    assert(is_plain_name(names[names.len() - 1]));
}

/// Nothing left after stripping means the entry is skipped: an empty
/// remainder never resolves to the root itself.
pub proof fn lemma_empty_remainder_is_skipped(root: Seq<char>, entry: Seq<char>, strip_count: nat)
    requires
        strip(components(entry), strip_count).len() == 0,
    ensures
        sanitized(root, entry, strip_count) is None,
{
}

} // verus!
