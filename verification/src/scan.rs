//! The filesystem scanner: turns a two-level directory listing into an
//! ordered sequence of modules.  The listing itself is plain data handed
//! in by the host; all decisions about it are made and verified here.
use vstd::prelude::*;
use vstd::string::StrSliceExecFns;
use crate::names::{
    clean_spec, clean_name, is_video, is_video_name, lower_of, prefix_key, sort_key,
};
use crate::model::{Video, Module, VideoShape, ModuleShape, fresh_id, shapes_of};

verus! {

/// An immediate child of a course subdirectory.
pub struct FsChild {
    pub name: String,
    pub path: String,
    pub is_dir: bool,
}

/// An immediate child of the course root.  For a subdirectory, `children`
/// lists its own immediate children; for a plain file it is empty.
pub struct FsEntry {
    pub name: String,
    pub path: String,
    pub is_dir: bool,
    pub children: Vec<FsChild>,
}

/// A listing of the course root directory.
pub struct FsListing {
    /// The root folder's own name.
    pub root_name: String,
    pub entries: Vec<FsEntry>,
}

/// Spec-level view of `FsChild`.
pub struct FsChildV {
    pub name: Seq<char>,
    pub path: Seq<char>,
    pub is_dir: bool,
}

/// Spec-level view of `FsEntry`.
pub struct FsEntryV {
    pub name: Seq<char>,
    pub path: Seq<char>,
    pub is_dir: bool,
    pub children: Seq<FsChildV>,
}

/// Spec-level view of `FsListing`.
pub struct FsListingV {
    pub root_name: Seq<char>,
    pub entries: Seq<FsEntryV>,
}

impl View for FsChild {
    type V = FsChildV;

    open spec fn view(&self) -> FsChildV {
        FsChildV { name: self.name@, path: self.path@, is_dir: self.is_dir }
    }
}

impl View for FsEntry {
    type V = FsEntryV;

    open spec fn view(&self) -> FsEntryV {
        FsEntryV {
            name: self.name@,
            path: self.path@,
            is_dir: self.is_dir,
            children: self.children@.map_values(|c: FsChild| c@),
        }
    }
}

impl View for FsListing {
    type V = FsListingV;

    open spec fn view(&self) -> FsListingV {
        FsListingV { root_name: self.root_name@, entries: self.entries@.map_values(|e: FsEntry| e@) }
    }
}

/// Hidden entries (name starting with `.`) are always skipped.
pub open spec fn hidden(name: Seq<char>) -> bool {
    name.len() > 0 && name[0] == '.'
}

/// A root entry that becomes a module candidate.
pub open spec fn keep_dir(e: FsEntryV) -> bool {
    e.is_dir && !hidden(e.name)
}

/// A root entry that counts as a loose video file.
pub open spec fn keep_file(e: FsEntryV) -> bool {
    !e.is_dir && !hidden(e.name) && is_video_name(e.name)
}

/// A subdirectory child that counts as a video file.
pub open spec fn keep_child(c: FsChildV) -> bool {
    !c.is_dir && !hidden(c.name) && is_video_name(c.name)
}

/// The subdirectories of the root, in listing order.
pub open spec fn dir_entries(es: Seq<FsEntryV>) -> Seq<FsEntryV>
    decreases es.len(),
{
    if es.len() == 0 {
        Seq::empty()
    } else {
        dir_entries(es.drop_last()) + if keep_dir(es.last()) {
            seq![es.last()]
        } else {
            Seq::empty()
        }
    }
}

/// Name and path of each loose video file of the root, in listing order.
pub open spec fn file_pairs(es: Seq<FsEntryV>) -> Seq<(Seq<char>, Seq<char>)>
    decreases es.len(),
{
    if es.len() == 0 {
        Seq::empty()
    } else {
        file_pairs(es.drop_last()) + if keep_file(es.last()) {
            seq![(es.last().name, es.last().path)]
        } else {
            Seq::empty()
        }
    }
}

/// Name and path of each video file of a subdirectory, in listing order.
pub open spec fn child_pairs(cs: Seq<FsChildV>) -> Seq<(Seq<char>, Seq<char>)>
    decreases cs.len(),
{
    if cs.len() == 0 {
        Seq::empty()
    } else {
        child_pairs(cs.drop_last()) + if keep_child(cs.last()) {
            seq![(cs.last().name, cs.last().path)]
        } else {
            Seq::empty()
        }
    }
}

/// View of an executable (name, path) pair.
pub open spec fn pair_view(p: (String, String)) -> (Seq<char>, Seq<char>) {
    (p.0@, p.1@)
}

/// View of a vector of (name, path) pairs.
pub open spec fn pairs_view(ps: Seq<(String, String)>) -> Seq<(Seq<char>, Seq<char>)> {
    ps.map_values(|p: (String, String)| pair_view(p))
}

fn starts_dot(s: &str) -> (r: bool)
    ensures
        r == hidden(s@),
{
    let n = s.unicode_len();
    n > 0 && s.get_char(0) == '.'
}

/// Indices of the root entries that are kept as subdirectories.
fn collect_dirs(entries: &Vec<FsEntry>) -> (r: Vec<usize>)
    ensures
        r@.map_values(|k: usize| entries@[k as int]@) == dir_entries(
            entries@.map_values(|e: FsEntry| e@),
        ),
        forall|p: int| 0 <= p < r@.len() ==> (r@[p] as int) < entries@.len(),
{
    let ghost evs = entries@.map_values(|e: FsEntry| e@);
    let mut r: Vec<usize> = Vec::new();
    let mut i: usize = 0;
    while i < entries.len()
        invariant
            i <= entries@.len(),
            evs == entries@.map_values(|e: FsEntry| e@),
            r@.map_values(|k: usize| entries@[k as int]@) == dir_entries(evs.take(i as int)),
            forall|p: int| 0 <= p < r@.len() ==> (r@[p] as int) < i,
        decreases entries@.len() - i,
    {
        let e = &entries[i];
        proof {
            assert(evs.take(i + 1).drop_last() =~= evs.take(i as int));
            assert(evs.take(i + 1).last() == evs[i as int]);
        }
        if e.is_dir && !starts_dot(e.name.as_str()) {
            r.push(i);
            proof {
                assert(r@.map_values(|k: usize| entries@[k as int]@) =~= dir_entries(
                    evs.take(i + 1),
                ));
            }
        } else {
            proof {
                assert(r@.map_values(|k: usize| entries@[k as int]@) =~= dir_entries(
                    evs.take(i + 1),
                ));
            }
        }
        i = i + 1;
    }
    proof {
        assert(evs.take(entries@.len() as int) =~= evs);
    }
    r
}

/// The loose video files of the root, as (name, path) pairs.
fn collect_file_pairs(entries: &Vec<FsEntry>) -> (r: Vec<(String, String)>)
    ensures
        pairs_view(r@) == file_pairs(entries@.map_values(|e: FsEntry| e@)),
{
    let ghost evs = entries@.map_values(|e: FsEntry| e@);
    let mut r: Vec<(String, String)> = Vec::new();
    let mut i: usize = 0;
    while i < entries.len()
        invariant
            i <= entries@.len(),
            evs == entries@.map_values(|e: FsEntry| e@),
            pairs_view(r@) == file_pairs(evs.take(i as int)),
        decreases entries@.len() - i,
    {
        let e = &entries[i];
        proof {
            assert(evs.take(i + 1).drop_last() =~= evs.take(i as int));
            assert(evs.take(i + 1).last() == evs[i as int]);
        }
        if !e.is_dir && !starts_dot(e.name.as_str()) && is_video(e.name.as_str()) {
            r.push((e.name.clone(), e.path.clone()));
        }
        proof {
            assert(pairs_view(r@) =~= file_pairs(evs.take(i + 1)));
        }
        i = i + 1;
    }
    proof {
        assert(evs.take(entries@.len() as int) =~= evs);
    }
    r
}

/// The video files of a subdirectory, as (name, path) pairs.
fn collect_child_pairs(children: &Vec<FsChild>) -> (r: Vec<(String, String)>)
    ensures
        pairs_view(r@) == child_pairs(children@.map_values(|c: FsChild| c@)),
{
    let ghost cvs = children@.map_values(|c: FsChild| c@);
    let mut r: Vec<(String, String)> = Vec::new();
    let mut i: usize = 0;
    while i < children.len()
        invariant
            i <= children@.len(),
            cvs == children@.map_values(|c: FsChild| c@),
            pairs_view(r@) == child_pairs(cvs.take(i as int)),
        decreases children@.len() - i,
    {
        let c = &children[i];
        proof {
            assert(cvs.take(i + 1).drop_last() =~= cvs.take(i as int));
            assert(cvs.take(i + 1).last() == cvs[i as int]);
        }
        if !c.is_dir && !starts_dot(c.name.as_str()) && is_video(c.name.as_str()) {
            r.push((c.name.clone(), c.path.clone()));
        }
        proof {
            assert(pairs_view(r@) =~= child_pairs(cvs.take(i + 1)));
        }
        i = i + 1;
    }
    proof {
        assert(cvs.take(children@.len() as int) =~= cvs);
    }
    r
}

/// Lexicographic order on character sequences, by code point.
pub open spec fn lex_le(x: Seq<char>, y: Seq<char>) -> bool
    decreases x.len(),
{
    if x.len() == 0 {
        true
    } else if y.len() == 0 {
        false
    } else if (x[0] as u32) < (y[0] as u32) {
        true
    } else if (x[0] as u32) > (y[0] as u32) {
        false
    } else {
        lex_le(x.drop_first(), y.drop_first())
    }
}

/// The sort key of a raw name: numeric prefix first, lower-cased name as
/// tie-break.
pub open spec fn name_key(s: Seq<char>) -> (u64, Seq<char>) {
    (prefix_key(s), lower_of(s))
}

/// Order on sort keys.
pub open spec fn key_le(a: (u64, Seq<char>), b: (u64, Seq<char>)) -> bool {
    a.0 < b.0 || (a.0 == b.0 && lex_le(a.1, b.1))
}

/// View of an executable sort key.
pub open spec fn key_view(k: (u64, String)) -> (u64, Seq<char>) {
    (k.0, k.1@)
}

/// Views of a vector of sort keys.
pub open spec fn keys_view(ks: Seq<(u64, String)>) -> Seq<(u64, Seq<char>)> {
    ks.map_values(|k: (u64, String)| key_view(k))
}

/// Insert index `j` into the key-sorted index sequence `perm`, after every
/// index whose key is less than or equal to `j`'s (a stable insertion).
pub open spec fn insert_sorted(perm: Seq<int>, keys: Seq<(u64, Seq<char>)>, j: int) -> Seq<int>
    decreases perm.len(),
{
    if perm.len() == 0 {
        seq![j]
    } else if key_le(keys[perm[0]], keys[j]) {
        seq![perm[0]] + insert_sorted(perm.drop_first(), keys, j)
    } else {
        seq![j] + perm
    }
}

/// The permutation of `0..n` that sorts the first `n` keys stably.
pub open spec fn sort_perm_spec(keys: Seq<(u64, Seq<char>)>, n: int) -> Seq<int>
    decreases n,
{
    if n <= 0 {
        Seq::empty()
    } else {
        insert_sorted(sort_perm_spec(keys, n - 1), keys, n - 1)
    }
}

fn lex_le_str(x: &str, y: &str) -> (r: bool)
    ensures
        r == lex_le(x@, y@),
{
    let nx = x.unicode_len();
    let ny = y.unicode_len();
    let mut i: usize = 0;
    proof {
        assert(x@.skip(0) =~= x@);
        assert(y@.skip(0) =~= y@);
    }
    loop
        invariant
            i <= nx,
            i <= ny,
            nx == x@.len(),
            ny == y@.len(),
            lex_le(x@, y@) == lex_le(x@.skip(i as int), y@.skip(i as int)),
        decreases nx - i,
    {
        if i >= nx {
            return true;
        }
        if i >= ny {
            return false;
        }
        let cx = x.get_char(i) as u32;
        let cy = y.get_char(i) as u32;
        if cx < cy {
            return true;
        }
        if cx > cy {
            return false;
        }
        proof {
            assert(x@.skip(i as int).drop_first() =~= x@.skip(i + 1));
            assert(y@.skip(i as int).drop_first() =~= y@.skip(i + 1));
        }
        i = i + 1;
    }
}

fn key_le_exec(a: &(u64, String), b: &(u64, String)) -> (r: bool)
    ensures
        r == key_le(key_view(*a), key_view(*b)),
{
    if a.0 < b.0 {
        true
    } else if a.0 > b.0 {
        false
    } else {
        lex_le_str(a.1.as_str(), b.1.as_str())
    }
}

/// Where the stable insertion places `j`: right before position `p`, the
/// first whose key exceeds `j`'s.
proof fn lemma_insert_sorted_at(perm: Seq<int>, keys: Seq<(u64, Seq<char>)>, j: int, p: int)
    requires
        0 <= p <= perm.len(),
        forall|q: int| 0 <= q < p ==> key_le(keys[#[trigger] perm[q]], keys[j]),
        p < perm.len() ==> !key_le(keys[perm[p]], keys[j]),
    ensures
        insert_sorted(perm, keys, j) == perm.take(p) + seq![j] + perm.skip(p),
    decreases perm.len(),
{
    if perm.len() == 0 {
        assert(insert_sorted(perm, keys, j) =~= perm.take(p) + seq![j] + perm.skip(p));
    } else if p == 0 {
        assert(insert_sorted(perm, keys, j) =~= perm.take(p) + seq![j] + perm.skip(p));
    } else {
        assert(key_le(keys[perm[0]], keys[j]));
        let sub = perm.drop_first();
        assert(forall|q: int| 0 <= q < p - 1 ==> key_le(keys[#[trigger] sub[q]], keys[j]))
            by {
            assert(forall|q: int| 0 <= q < p - 1 ==> sub[q] == perm[q + 1]);
        }
        lemma_insert_sorted_at(sub, keys, j, p - 1);
        assert(seq![perm[0]] + (sub.take(p - 1) + seq![j] + sub.skip(p - 1)) =~= perm.take(p)
            + seq![j] + perm.skip(p));
    }
}

/// The permutation that sorts `keys` stably: indices in key order, with
/// the listing order kept among equal keys.
fn sort_perm(keys: &Vec<(u64, String)>) -> (perm: Vec<usize>)
    ensures
        perm@.map_values(|u: usize| u as int) == sort_perm_spec(keys_view(keys@), keys@.len() as int),
        perm@.len() == keys@.len(),
        forall|p: int| 0 <= p < perm@.len() ==> (perm@[p] as int) < keys@.len(),
{
    let ghost kv = keys_view(keys@);
    let n = keys.len();
    let mut perm: Vec<usize> = Vec::new();
    let mut j: usize = 0;
    while j < n
        invariant
            j <= n,
            n == keys@.len(),
            kv == keys_view(keys@),
            perm@.len() == j,
            perm@.map_values(|u: usize| u as int) == sort_perm_spec(kv, j as int),
            forall|p: int| 0 <= p < perm@.len() ==> (perm@[p] as int) < j,
        decreases n - j,
    {
        let ghost pv = perm@.map_values(|u: usize| u as int);
        let mut p: usize = 0;
        while p < perm.len() && key_le_exec(&keys[perm[p]], &keys[j])
            invariant
                p <= perm@.len(),
                n == keys@.len(),
                kv == keys_view(keys@),
                pv == perm@.map_values(|u: usize| u as int),
                forall|p0: int| 0 <= p0 < perm@.len() ==> ((#[trigger] perm@[p0]) as int) < j < n,
                forall|q: int| 0 <= q < p ==> key_le(kv[#[trigger] pv[q]], kv[j as int]),
            decreases perm@.len() - p,
        {
            p = p + 1;
        }
        proof {
            lemma_insert_sorted_at(pv, kv, j as int, p as int);
        }
        perm.insert(p, j);
        proof {
            assert(perm@.map_values(|u: usize| u as int) =~= pv.take(p as int) + seq![j as int]
                + pv.skip(p as int));
        }
        j = j + 1;
    }
    perm
}

/// Lexicographic order is total.
proof fn lemma_lex_le_total(x: Seq<char>, y: Seq<char>)
    ensures
        lex_le(x, y) || lex_le(y, x),
    decreases x.len(),
{
    if x.len() > 0 && y.len() > 0 && (x[0] as u32) == (y[0] as u32) {
        lemma_lex_le_total(x.drop_first(), y.drop_first());
    }
}

/// Lexicographic order is transitive.
proof fn lemma_lex_le_trans(x: Seq<char>, y: Seq<char>, z: Seq<char>)
    requires
        lex_le(x, y),
        lex_le(y, z),
    ensures
        lex_le(x, z),
    decreases x.len(),
{
    if x.len() > 0 && z.len() > 0 && (x[0] as u32) == (z[0] as u32) && (x[0] as u32) == (y[0]
        as u32) {
        lemma_lex_le_trans(x.drop_first(), y.drop_first(), z.drop_first());
    }
}

/// The key order is total.
proof fn lemma_key_le_total(a: (u64, Seq<char>), b: (u64, Seq<char>))
    ensures
        key_le(a, b) || key_le(b, a),
{
    lemma_lex_le_total(a.1, b.1);
}

/// The key order is transitive.
proof fn lemma_key_le_trans(a: (u64, Seq<char>), b: (u64, Seq<char>), c: (u64, Seq<char>))
    requires
        key_le(a, b),
        key_le(b, c),
    ensures
        key_le(a, c),
{
    if a.0 == b.0 && b.0 == c.0 {
        lemma_lex_le_trans(a.1, b.1, c.1);
    }
}

/// An index-by-index sorted permutation: keys never decrease along it.
pub open spec fn perm_sorted(perm: Seq<int>, keys: Seq<(u64, Seq<char>)>) -> bool {
    forall|p: int, q: int|
        0 <= p < q < perm.len() ==> key_le(keys[#[trigger] perm[p]], keys[#[trigger] perm[q]])
}

/// Inserting adds exactly one element.
proof fn lemma_insert_sorted_len(perm: Seq<int>, keys: Seq<(u64, Seq<char>)>, j: int)
    ensures
        insert_sorted(perm, keys, j).len() == perm.len() + 1,
    decreases perm.len(),
{
    if perm.len() > 0 && key_le(keys[perm[0]], keys[j]) {
        lemma_insert_sorted_len(perm.drop_first(), keys, j);
    }
}

/// Every element of the insertion result comes from the old sequence or is
/// the inserted index.
proof fn lemma_insert_sorted_elems(perm: Seq<int>, keys: Seq<(u64, Seq<char>)>, j: int, q: int)
    requires
        0 <= q < insert_sorted(perm, keys, j).len(),
    ensures
        insert_sorted(perm, keys, j)[q] == j || exists|t: int|
            0 <= t < perm.len() && perm[t] == insert_sorted(perm, keys, j)[q],
    decreases perm.len(),
{
    lemma_insert_sorted_len(perm, keys, j);
    if perm.len() == 0 {
    } else if key_le(keys[perm[0]], keys[j]) {
        let sub = perm.drop_first();
        if q == 0 {
            assert(perm[0] == insert_sorted(perm, keys, j)[0]);
        } else {
            lemma_insert_sorted_elems(sub, keys, j, q - 1);
            let r = insert_sorted(sub, keys, j);
            if r[q - 1] != j {
                let t = choose|t: int| 0 <= t < sub.len() && sub[t] == r[q - 1];
                assert(perm[t + 1] == insert_sorted(perm, keys, j)[q]);
            }
        }
    } else {
        if q > 0 {
            assert(perm[q - 1] == insert_sorted(perm, keys, j)[q]);
        }
    }
}

/// A stable insertion into a sorted permutation keeps it sorted.
proof fn lemma_insert_sorted_keeps_sorted(perm: Seq<int>, keys: Seq<(u64, Seq<char>)>, j: int)
    requires
        perm_sorted(perm, keys),
    ensures
        perm_sorted(insert_sorted(perm, keys, j), keys),
    decreases perm.len(),
{
    let r = insert_sorted(perm, keys, j);
    if perm.len() == 0 {
    } else if key_le(keys[perm[0]], keys[j]) {
        let sub = perm.drop_first();
        assert(perm_sorted(sub, keys)) by {
            assert(forall|p: int, q: int|
                0 <= p < q < sub.len() ==> key_le(
                    keys[#[trigger] sub[p]],
                    keys[#[trigger] sub[q]],
                )) by {
                assert(forall|t: int| 0 <= t < sub.len() ==> sub[t] == perm[t + 1]);
            }
        }
        lemma_insert_sorted_keeps_sorted(sub, keys, j);
        let rs = insert_sorted(sub, keys, j);
        assert forall|p: int, q: int| 0 <= p < q < r.len() implies key_le(
            keys[#[trigger] r[p]],
            keys[#[trigger] r[q]],
        ) by {
            if p == 0 {
                assert(r[0] == perm[0]);
                assert(r[q] == rs[q - 1]);
                lemma_insert_sorted_elems(sub, keys, j, q - 1);
                if rs[q - 1] == j {
                    assert(key_le(keys[perm[0]], keys[j]));
                } else {
                    let t = choose|t: int| 0 <= t < sub.len() && sub[t] == rs[q - 1];
                    assert(sub[t] == perm[t + 1]);
                    assert(key_le(keys[perm[0]], keys[perm[t + 1]]));
                }
            } else {
                assert(r[p] == rs[p - 1] && r[q] == rs[q - 1]);
            }
        }
    } else {
        lemma_key_le_total(keys[perm[0]], keys[j]);
        assert forall|p: int, q: int| 0 <= p < q < r.len() implies key_le(
            keys[#[trigger] r[p]],
            keys[#[trigger] r[q]],
        ) by {
            if p == 0 {
                assert(r[0] == j && r[q] == perm[q - 1]);
                if q > 1 {
                    lemma_key_le_trans(keys[j], keys[perm[0]], keys[perm[q - 1]]);
                }
            } else {
                assert(r[p] == perm[p - 1] && r[q] == perm[q - 1]);
            }
        }
    }
}

/// Ordering law: the permutation the scanner sorts by always lists keys in
/// non-decreasing order, so entries with smaller keys come first.
pub proof fn lemma_sort_perm_spec_sorted(keys: Seq<(u64, Seq<char>)>, n: int)
    ensures
        perm_sorted(sort_perm_spec(keys, n), keys),
    decreases n,
{
    if n > 0 {
        lemma_sort_perm_spec_sorted(keys, n - 1);
        lemma_insert_sorted_keeps_sorted(sort_perm_spec(keys, n - 1), keys, n - 1);
    }
}

/// The sorting permutation has one slot per key and stays within range.
proof fn lemma_sort_perm_range(keys: Seq<(u64, Seq<char>)>, n: int)
    requires
        n >= 0,
    ensures
        sort_perm_spec(keys, n).len() == n,
        forall|q: int| 0 <= q < n ==> 0 <= #[trigger] sort_perm_spec(keys, n)[q] < n,
    decreases n,
{
    if n > 0 {
        let prev = sort_perm_spec(keys, n - 1);
        lemma_sort_perm_range(keys, n - 1);
        lemma_insert_sorted_len(prev, keys, n - 1);
        let r = sort_perm_spec(keys, n);
        assert forall|q: int| 0 <= q < n implies 0 <= #[trigger] r[q] < n by {
            lemma_insert_sorted_elems(prev, keys, n - 1, q);
        }
    }
}

/// Keys of a sequence of (name, path) pairs, from the names.
pub open spec fn pair_keys(nps: Seq<(Seq<char>, Seq<char>)>) -> Seq<(u64, Seq<char>)> {
    nps.map_values(|p: (Seq<char>, Seq<char>)| name_key(p.0))
}

/// The (name, path) pairs in sort-key order.
pub open spec fn sorted_pairs(nps: Seq<(Seq<char>, Seq<char>)>) -> Seq<(Seq<char>, Seq<char>)> {
    sort_perm_spec(pair_keys(nps), nps.len() as int).map_values(|i: int| nps[i])
}

/// Ordering law: in a sorted run of (name, path) pairs, an earlier entry's
/// key never exceeds a later one's; numbered names come first, in numeric
/// order, with the lower-cased name as tie-break.
pub proof fn lemma_sorted_pairs_ordered(nps: Seq<(Seq<char>, Seq<char>)>, p: int, q: int)
    requires
        0 <= p < q < sorted_pairs(nps).len(),
    ensures
        key_le(name_key(sorted_pairs(nps)[p].0), name_key(sorted_pairs(nps)[q].0)),
{
    let keys = pair_keys(nps);
    let n = nps.len() as int;
    let perm = sort_perm_spec(keys, n);
    lemma_sort_perm_spec_sorted(keys, n);
    lemma_sort_perm_range(keys, n);
    assert(key_le(keys[perm[p]], keys[perm[q]]));
    assert(sorted_pairs(nps)[p] == nps[perm[p]]);
    assert(sorted_pairs(nps)[q] == nps[perm[q]]);
}

/// The videos built from an already-sorted run of (name, path) pairs:
/// normalized title, path as given, not completed, densely ordered.
pub open spec fn videos_shape(nps: Seq<(Seq<char>, Seq<char>)>) -> Seq<VideoShape> {
    Seq::new(
        nps.len(),
        |i: int|
            VideoShape {
                title: clean_spec(nps[i].0),
                path: nps[i].1,
                completed: false,
                order: i as u32,
            },
    )
}

/// The videos of one subdirectory: its video files, sorted, as videos.
pub open spec fn module_videos(cs: Seq<FsChildV>) -> Seq<VideoShape> {
    videos_shape(sorted_pairs(child_pairs(cs)))
}

/// Keys of subdirectory entries, from their names.
pub open spec fn dir_keys(ds: Seq<FsEntryV>) -> Seq<(u64, Seq<char>)> {
    ds.map_values(|e: FsEntryV| name_key(e.name))
}

/// Subdirectory entries in sort-key order.
pub open spec fn sorted_dirs(ds: Seq<FsEntryV>) -> Seq<FsEntryV> {
    sort_perm_spec(dir_keys(ds), ds.len() as int).map_values(|i: int| ds[i])
}

/// The modules made of the sorted subdirectories: one per subdirectory
/// holding at least one video file, in order, with dense order values; a
/// subdirectory without videos is skipped and takes no order slot.
pub open spec fn dir_modules(ds: Seq<FsEntryV>) -> Seq<ModuleShape>
    decreases ds.len(),
{
    if ds.len() == 0 {
        Seq::empty()
    } else {
        let prev = dir_modules(ds.drop_last());
        let vids = module_videos(ds.last().children);
        if vids.len() == 0 {
            prev
        } else {
            prev.push(
                ModuleShape {
                    title: clean_spec(ds.last().name),
                    videos: vids,
                    order: prev.len() as u32,
                },
            )
        }
    }
}

/// What a scan of the listed root yields.  With subdirectories present,
/// one module per non-empty subdirectory and, when loose video files also
/// lie at the root, a final "Other Videos" module.  With no
/// subdirectories, the loose videos form a single module titled with the
/// raw root folder name.  Otherwise no modules at all.
pub open spec fn scan_spec(l: FsListingV) -> Seq<ModuleShape> {
    let ds = dir_entries(l.entries);
    let fps = file_pairs(l.entries);
    let dm = dir_modules(sorted_dirs(ds));
    if ds.len() > 0 {
        if fps.len() > 0 {
            dm.push(
                ModuleShape {
                    title: "Other Videos"@,
                    videos: videos_shape(sorted_pairs(fps)),
                    order: dm.len() as u32,
                },
            )
        } else {
            dm
        }
    } else if fps.len() > 0 {
        seq![
            ModuleShape { title: l.root_name, videos: videos_shape(sorted_pairs(fps)), order: 0u32 },
        ]
    } else {
        Seq::empty()
    }
}

/// The id-free parts of a vector of videos.
pub open spec fn video_shapes(vs: Seq<Video>) -> Seq<VideoShape> {
    vs.map_values(|v: Video| v@.shape())
}

/// The id-free parts of a vector of modules.
pub open spec fn module_shapes(ms: Seq<Module>) -> Seq<ModuleShape> {
    shapes_of(ms.map_values(|m: Module| m@))
}

/// At most every entry yields a loose video file.
proof fn lemma_file_pairs_len(es: Seq<FsEntryV>)
    ensures
        file_pairs(es).len() <= es.len(),
    decreases es.len(),
{
    if es.len() > 0 {
        lemma_file_pairs_len(es.drop_last());
    }
}

/// At most every child yields a video file.
proof fn lemma_child_pairs_len(cs: Seq<FsChildV>)
    ensures
        child_pairs(cs).len() <= cs.len(),
    decreases cs.len(),
{
    if cs.len() > 0 {
        lemma_child_pairs_len(cs.drop_last());
    }
}

fn keys_of_pairs(pairs: &Vec<(String, String)>) -> (r: Vec<(u64, String)>)
    ensures
        keys_view(r@) == pair_keys(pairs_view(pairs@)),
{
    let mut r: Vec<(u64, String)> = Vec::new();
    let mut i: usize = 0;
    while i < pairs.len()
        invariant
            i <= pairs@.len(),
            r@.len() == i,
            forall|k: int| 0 <= k < i ==> key_view(#[trigger] r@[k]) == name_key(pairs@[k].0@),
        decreases pairs@.len() - i,
    {
        r.push(sort_key(pairs[i].0.as_str()));
        i = i + 1;
    }
    proof {
        assert(keys_view(r@) =~= pair_keys(pairs_view(pairs@)));
    }
    r
}

fn apply_perm(pairs: &Vec<(String, String)>, perm: &Vec<usize>) -> (r: Vec<(String, String)>)
    requires
        forall|p: int| 0 <= p < perm@.len() ==> (#[trigger] perm@[p]) < pairs@.len(),
    ensures
        r@.len() == perm@.len(),
        forall|p: int|
            0 <= p < r@.len() ==> pair_view(#[trigger] r@[p]) == pair_view(
                pairs@[perm@[p] as int],
            ),
{
    let mut r: Vec<(String, String)> = Vec::new();
    let mut i: usize = 0;
    while i < perm.len()
        invariant
            i <= perm@.len(),
            r@.len() == i,
            forall|p: int| 0 <= p < perm@.len() ==> (#[trigger] perm@[p]) < pairs@.len(),
            forall|p: int|
                0 <= p < i ==> pair_view(#[trigger] r@[p]) == pair_view(pairs@[perm@[p] as int]),
        decreases perm@.len() - i,
    {
        let it = &pairs[perm[i]];
        r.push((it.0.clone(), it.1.clone()));
        i = i + 1;
    }
    r
}

/// Build the videos of one module from its already-sorted video files:
/// fresh ids, normalized titles, paths as given, dense 0-based order.
pub fn make_videos(pairs: &Vec<(String, String)>) -> (r: Vec<Video>)
    requires
        pairs@.len() <= 0xffff_ffff,
    ensures
        video_shapes(r@) == videos_shape(pairs_view(pairs@)),
{
    let mut r: Vec<Video> = Vec::new();
    let mut i: usize = 0;
    while i < pairs.len()
        invariant
            i <= pairs@.len() <= 0xffff_ffff,
            r@.len() == i,
            forall|k: int|
                0 <= k < i ==> (#[trigger] r@[k])@.shape() == videos_shape(pairs_view(pairs@))[k],
        decreases pairs@.len() - i,
    {
        let p = &pairs[i];
        let v = Video {
            id: fresh_id(),
            title: clean_name(p.0.as_str()),
            path: p.1.clone(),
            completed: false,
            order: i as u32,
        };
        r.push(v);
        i = i + 1;
    }
    proof {
        assert(video_shapes(r@) =~= videos_shape(pairs_view(pairs@)));
    }
    r
}

/// Sort a run of (name, path) pairs and build its videos.
fn videos_of_pairs(pairs: &Vec<(String, String)>) -> (r: Vec<Video>)
    requires
        pairs@.len() <= 0xffff_ffff,
    ensures
        video_shapes(r@) == videos_shape(sorted_pairs(pairs_view(pairs@))),
{
    let keys = keys_of_pairs(pairs);
    proof {
        assert(keys@.len() == keys_view(keys@).len());
        assert(pair_keys(pairs_view(pairs@)).len() == pairs_view(pairs@).len());
        assert(pairs_view(pairs@).len() == pairs@.len());
    }
    let perm = sort_perm(&keys);
    let sorted = apply_perm(pairs, &perm);
    proof {
        let ghost nps = pairs_view(pairs@);
        let ghost sp = sort_perm_spec(pair_keys(nps), nps.len() as int);
        assert(sp == perm@.map_values(|u: usize| u as int));
        assert forall|p: int| 0 <= p < sorted@.len() implies pairs_view(sorted@)[p]
            == sorted_pairs(nps)[p] by {
            assert(sp[p] == perm@[p] as int);
            assert(sorted_pairs(nps)[p] == nps[sp[p]]);
            assert(pairs_view(sorted@)[p] == pair_view(sorted@[p]));
            assert(nps[perm@[p] as int] == pair_view(pairs@[perm@[p] as int]));
        }
        assert(pairs_view(sorted@) =~= sorted_pairs(nps));
    }
    make_videos(&sorted)
}

/// The videos of one subdirectory: filter to video files, sort, build.
fn videos_of_children(children: &Vec<FsChild>) -> (r: Vec<Video>)
    requires
        children@.len() <= 0xffff_ffff,
    ensures
        video_shapes(r@) == module_videos(children@.map_values(|c: FsChild| c@)),
{
    let pairs = collect_child_pairs(children);
    proof {
        lemma_child_pairs_len(children@.map_values(|c: FsChild| c@));
        assert(pairs@.len() == pairs_view(pairs@).len());
    }
    videos_of_pairs(&pairs)
}

/// Scan a course root listing into its ordered modules.
pub fn scan(listing: &FsListing) -> (r: Vec<Module>)
    requires
        listing.entries@.len() <= 0xffff_ffff,
        forall|i: int|
            0 <= i < listing.entries@.len() ==> (#[trigger] listing.entries@[i]).children@.len()
                <= 0xffff_ffff,
    ensures
        module_shapes(r@) == scan_spec(listing@),
{
    let ghost evs = listing.entries@.map_values(|e: FsEntry| e@);
    let ghost ds = dir_entries(evs);
    let dir_idx = collect_dirs(&listing.entries);
    let files = collect_file_pairs(&listing.entries);
    proof {
        lemma_file_pairs_len(evs);
        assert(files@.len() == pairs_view(files@).len());
    }
    let mut modules: Vec<Module> = Vec::new();
    if dir_idx.len() > 0 {
        let mut keys: Vec<(u64, String)> = Vec::new();
        let mut t: usize = 0;
        proof {
            assert(dir_idx@.map_values(|k: usize| listing.entries@[k as int]@) == ds);
        }
        while t < dir_idx.len()
            invariant
                t <= dir_idx@.len(),
                keys@.len() == t,
                dir_idx@.map_values(|k: usize| listing.entries@[k as int]@) == ds,
                forall|p: int| 0 <= p < dir_idx@.len() ==> (dir_idx@[p] as int)
                    < listing.entries@.len(),
                forall|k: int| 0 <= k < t ==> key_view(#[trigger] keys@[k]) == name_key(ds[k].name),
            decreases dir_idx@.len() - t,
        {
            let e = &listing.entries[dir_idx[t]];
            keys.push(sort_key(e.name.as_str()));
            proof {
                assert(ds[t as int] == listing.entries@[dir_idx@[t as int] as int]@);
            }
            t = t + 1;
        }
        proof {
            assert(keys_view(keys@) =~= dir_keys(ds));
        }
        let perm = sort_perm(&keys);
        let ghost sds = sorted_dirs(ds);
        let mut p: usize = 0;
        while p < perm.len()
            invariant
                p <= perm@.len(),
                perm@.len() == dir_idx@.len() == ds.len(),
                sds == sorted_dirs(ds),
                evs == listing.entries@.map_values(|e: FsEntry| e@),
                dir_idx@.map_values(|k: usize| listing.entries@[k as int]@) == ds,
                forall|q: int| 0 <= q < dir_idx@.len() ==> (dir_idx@[q] as int)
                    < listing.entries@.len(),
                forall|q: int| 0 <= q < perm@.len() ==> (perm@[q] as int) < dir_idx@.len(),
                perm@.map_values(|u: usize| u as int) == sort_perm_spec(dir_keys(ds), ds.len() as int),
                forall|i: int|
                    0 <= i < listing.entries@.len()
                        ==> (#[trigger] listing.entries@[i]).children@.len() <= 0xffff_ffff,
                modules@.len() <= p,
                module_shapes(modules@) == dir_modules(sds.take(p as int)),
            decreases perm@.len() - p,
        {
            let e = &listing.entries[dir_idx[perm[p]]];
            proof {
                assert(e@ == ds[perm@[p as int] as int]);
                assert(sds[p as int] == ds[sort_perm_spec(dir_keys(ds), ds.len() as int)[p as int]]);
                assert(sds.take(p + 1).drop_last() =~= sds.take(p as int));
                assert(sds.take(p + 1).last() == sds[p as int]);
            }
            let vids = videos_of_children(&e.children);
            let ghost vv = vids@;
            proof {
                assert(video_shapes(vv) == module_videos(sds[p as int].children));
                assert(video_shapes(vv).len() == vv.len());
            }
            if vids.len() > 0 {
                let ghost oldsh = module_shapes(modules@);
                let m = Module {
                    id: fresh_id(),
                    title: clean_name(e.name.as_str()),
                    videos: vids,
                    order: modules.len() as u32,
                };
                let ghost msh = m@.shape();
                proof {
                    assert(msh.videos =~= video_shapes(vv));
                    assert(oldsh.len() == modules@.len());
                }
                modules.push(m);
                proof {
                    assert(module_shapes(modules@) =~= oldsh.push(msh));
                    assert(msh == ModuleShape {
                        title: clean_spec(sds[p as int].name),
                        videos: module_videos(sds[p as int].children),
                        order: oldsh.len() as u32,
                    });
                    assert(module_shapes(modules@) =~= dir_modules(sds.take(p + 1)));
                }
            } else {
                proof {
                    assert(module_videos(sds[p as int].children).len() == 0);
                    assert(module_shapes(modules@) =~= dir_modules(sds.take(p + 1)));
                }
            }
            p = p + 1;
        }
        proof {
            assert(sds.take(ds.len() as int) =~= sds);
        }
        if files.len() > 0 {
            let vids = videos_of_pairs(&files);
            let ghost vv = vids@;
            let ghost oldsh = module_shapes(modules@);
            let m = Module {
                id: fresh_id(),
                title: String::from_str("Other Videos"),
                videos: vids,
                order: modules.len() as u32,
            };
            let ghost msh = m@.shape();
            proof {
                assert(msh.videos =~= video_shapes(vv));
                assert(oldsh.len() == modules@.len());
            }
            modules.push(m);
            proof {
                assert(module_shapes(modules@) =~= oldsh.push(msh));
                assert(msh == ModuleShape {
                    title: "Other Videos"@,
                    videos: videos_shape(sorted_pairs(file_pairs(evs))),
                    order: oldsh.len() as u32,
                });
                assert(module_shapes(modules@) == scan_spec(listing@));
            }
        } else {
            proof {
                assert(module_shapes(modules@) == scan_spec(listing@));
            }
        }
    } else if files.len() > 0 {
        let vids = videos_of_pairs(&files);
        let ghost vv = vids@;
        let m = Module {
            id: fresh_id(),
            title: listing.root_name.clone(),
            videos: vids,
            order: 0,
        };
        let ghost msh = m@.shape();
        proof {
            assert(msh.videos =~= video_shapes(vv));
        }
        modules.push(m);
        proof {
            assert(module_shapes(modules@) =~= seq![msh]);
            assert(msh == ModuleShape {
                title: listing@.root_name,
                videos: videos_shape(sorted_pairs(file_pairs(evs))),
                order: 0u32,
            });
            assert(module_shapes(modules@) == scan_spec(listing@));
        }
    } else {
        proof {
            assert(module_shapes(modules@) =~= scan_spec(listing@));
        }
    }
    modules
}

} // verus!
