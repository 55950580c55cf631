//! Tag path resolution: deciding the absolute topic path of every tag seen
//! across all documents.
//!
//! Distinct tags are processed shortest first (stable, so equal lengths keep
//! first-seen order).  A tag with segments `s1..sn` is looked up by its
//! longest prefix `s1..si` (rendered `/s1/../si`) that already ends some
//! resolved path — entries are scanned in insertion order and the first such
//! path wins.  On a match the tag nests under that path (the matched path
//! extended by the remaining segments); otherwise it becomes a fresh
//! top-level absolute path.  Resolution is total and deterministic: a
//! best-effort heuristic, kept as documented rather than strengthened.

use vstd::prelude::*;
use vstd::string::*;
use crate::text::{
    segments, segments_exec, path_of, path_range, is_suffix_of, has_suffix, to_chars,
    chars_to_string,
};

verus! {

/// One resolved tag: the raw tag and the absolute topic path assigned to it.
#[derive(Debug, Clone)]
pub struct ResolvedTag {
    pub tag: String,
    pub path: String,
}

pub struct ResolvedTagView {
    pub tag: Seq<char>,
    pub path: Seq<char>,
}

impl View for ResolvedTag {
    type V = ResolvedTagView;

    open spec fn view(&self) -> ResolvedTagView {
        ResolvedTagView { tag: self.tag@, path: self.path@ }
    }
}

impl DeepView for ResolvedTag {
    type V = ResolvedTagView;

    open spec fn deep_view(&self) -> ResolvedTagView {
        self.view()
    }
}

// --- first-occurrence deduplication ---

pub open spec fn dedup_rec(rem: Seq<Seq<char>>, acc: Seq<Seq<char>>) -> Seq<Seq<char>>
    decreases rem.len(),
{
    if rem.len() == 0 {
        acc
    } else if acc.contains(rem[0]) {
        dedup_rec(rem.skip(1), acc)
    } else {
        dedup_rec(rem.skip(1), acc.push(rem[0]))
    }
}

/// The distinct tags of a list, first occurrences in order.
pub open spec fn dedup(tags: Seq<Seq<char>>) -> Seq<Seq<char>> {
    dedup_rec(tags, Seq::empty())
}

fn contains_str(v: &Vec<String>, x: &String) -> (r: bool)
    ensures
        r == v.deep_view().contains(x@),
{
    let mut i: usize = 0;
    while i < v.len()
        invariant
            i <= v.len(),
            forall|k: int| 0 <= k < i ==> v.deep_view()[k] != x@,
        decreases v.len() - i,
    {
        if v[i].eq(x) {
            proof {
                assert(v.deep_view()[i as int] == x@);
            }
            return true;
        }
        i = i + 1;
    }
    proof {
        assert(forall|k: int| 0 <= k < v.deep_view().len() ==> v.deep_view()[k] != x@);
    }
    false
}

fn dedup_exec(tags: &Vec<String>) -> (r: Vec<String>)
    ensures
        r.deep_view() == dedup(tags.deep_view()),
{
    let mut out: Vec<String> = Vec::new();
    let mut i: usize = 0;
    proof {
        assert(tags.deep_view().skip(0) =~= tags.deep_view());
        assert(out.deep_view() =~~= Seq::<Seq<char>>::empty());
    }
    while i < tags.len()
        invariant
            i <= tags.len(),
            dedup(tags.deep_view()) == dedup_rec(tags.deep_view().skip(i as int), out.deep_view()),
        decreases tags.len() - i,
    {
        let ghost tdv = tags.deep_view();
        let ghost odv = out.deep_view();
        proof {
            assert(tdv.skip(i as int).skip(1) =~= tdv.skip(i as int + 1));
            assert(tdv.skip(i as int)[0] == tdv[i as int]);
        }
        if !contains_str(&out, &tags[i]) {
            out.push(tags[i].clone());
            proof {
                assert(out.deep_view() =~~= odv.push(tdv[i as int]));
            }
        }
        i = i + 1;
    }
    proof {
        assert(tags.deep_view().skip(tags.deep_view().len() as int) =~= Seq::<Seq<char>>::empty());
    }
    out
}

// --- stable sort by increasing length ---

/// Insertion after every element of equal or smaller length, which keeps the
/// sort stable.
pub open spec fn sorted_insert(sorted: Seq<Seq<char>>, x: Seq<char>) -> Seq<Seq<char>>
    decreases sorted.len(),
{
    if sorted.len() == 0 {
        seq![x]
    } else if sorted[0].len() <= x.len() {
        seq![sorted[0]] + sorted_insert(sorted.skip(1), x)
    } else {
        seq![x] + sorted
    }
}

pub open spec fn sort_rec(rem: Seq<Seq<char>>, acc: Seq<Seq<char>>) -> Seq<Seq<char>>
    decreases rem.len(),
{
    if rem.len() == 0 {
        acc
    } else {
        sort_rec(rem.skip(1), sorted_insert(acc, rem[0]))
    }
}

/// The tags in order of increasing length, stable.
pub open spec fn sort_by_len(tags: Seq<Seq<char>>) -> Seq<Seq<char>> {
    sort_rec(tags, Seq::empty())
}

fn sorted_insert_from(v: &Vec<String>, from: usize, x: String) -> (r: Vec<String>)
    requires
        from <= v@.len(),
    ensures
        r.deep_view() == sorted_insert(v.deep_view().skip(from as int), x@),
    decreases v@.len() - from,
{
    let ghost dv = v.deep_view();
    if from == v.len() {
        let mut r: Vec<String> = Vec::new();
        r.push(x);
        proof {
            assert(dv.skip(from as int) =~= Seq::<Seq<char>>::empty());
            assert(r.deep_view() =~~= seq![r@[0]@]);
        }
        r
    } else if v[from].as_str().unicode_len() <= x.as_str().unicode_len() {
        let head = v[from].clone();
        let mut r = sorted_insert_from(v, from + 1, x);
        r.insert(0, head);
        proof {
            assert(dv.skip(from as int).skip(1) =~= dv.skip(from as int + 1));
            assert(dv.skip(from as int)[0] == dv[from as int]);
            assert(r.deep_view() =~~= seq![dv[from as int]] + sorted_insert(
                dv.skip(from as int + 1),
                x@,
            ));
        }
        r
    } else {
        let mut r: Vec<String> = Vec::new();
        r.push(x);
        let mut j: usize = from;
        while j < v.len()
            invariant
                from <= j <= v@.len(),
                dv == v.deep_view(),
                r.deep_view() =~~= seq![x@] + dv.subrange(from as int, j as int),
            decreases v@.len() - j,
        {
            let ghost rdv = r.deep_view();
            r.push(v[j].clone());
            j = j + 1;
            proof {
                assert(r.deep_view() =~~= rdv.push(dv[j as int - 1]));
                assert(dv.subrange(from as int, j as int)
                    =~= dv.subrange(from as int, j as int - 1).push(dv[j as int - 1]));
                assert(r.deep_view() =~~= seq![x@] + dv.subrange(from as int, j as int));
            }
        }
        proof {
            assert(dv.subrange(from as int, dv.len() as int) =~= dv.skip(from as int));
            assert(dv.skip(from as int)[0] == dv[from as int]);
            assert(r.deep_view() =~~= sorted_insert(dv.skip(from as int), x@));
        }
        r
    }
}

fn sort_by_len_exec(tags: Vec<String>) -> (r: Vec<String>)
    ensures
        r.deep_view() == sort_by_len(tags.deep_view()),
{
    let ghost tdv = tags.deep_view();
    let mut acc: Vec<String> = Vec::new();
    let mut i: usize = 0;
    proof {
        assert(tdv.skip(0) =~= tdv);
        assert(acc.deep_view() =~~= Seq::<Seq<char>>::empty());
    }
    while i < tags.len()
        invariant
            i <= tags.len(),
            tdv == tags.deep_view(),
            sort_by_len(tdv) == sort_rec(tdv.skip(i as int), acc.deep_view()),
        decreases tags.len() - i,
    {
        proof {
            assert(tdv.skip(i as int).skip(1) =~= tdv.skip(i as int + 1));
            assert(tdv.skip(i as int)[0] == tdv[i as int]);
        }
        let ghost acc0 = acc.deep_view();
        proof {
            assert(acc0.skip(0) =~= acc0);
        }
        acc = sorted_insert_from(&acc, 0, tags[i].clone());
        i = i + 1;
    }
    proof {
        assert(tdv.skip(tdv.len() as int) =~= Seq::<Seq<char>>::empty());
    }
    acc
}

// --- the resolution itself ---

/// The insertion-order index of the first entry whose path ends with the
/// probe, or `-1`.  A probe always starts with `/`, so a character-level
/// suffix is aligned on a segment boundary.
pub open spec fn find_by_suffix(entries: Seq<ResolvedTagView>, probe: Seq<char>) -> int
    decreases entries.len(),
{
    if entries.len() == 0 {
        -1
    } else if is_suffix_of(probe, entries[0].path) {
        0
    } else {
        let r = find_by_suffix(entries.skip(1), probe);
        if r < 0 {
            -1
        } else {
            r + 1
        }
    }
}

/// The path a tag with segments `segs` resolves to, trying prefix lengths
/// `i` down to `1`: the first matched entry's path extended by the remaining
/// segments, or a fresh top-level path when nothing matches.
pub open spec fn resolve_one(entries: Seq<ResolvedTagView>, segs: Seq<Seq<char>>, i: int) -> Seq<char>
    decreases i,
{
    if i <= 0 {
        path_of(segs)
    } else {
        let e = find_by_suffix(entries, path_of(segs.take(i)));
        if e >= 0 {
            entries[e].path + path_of(segs.skip(i))
        } else {
            resolve_one(entries, segs, i - 1)
        }
    }
}

pub open spec fn resolve_rec(rem: Seq<Seq<char>>, entries: Seq<ResolvedTagView>) -> Seq<ResolvedTagView>
    decreases rem.len(),
{
    if rem.len() == 0 {
        entries
    } else {
        let segs = segments(rem[0]);
        let p = resolve_one(entries, segs, segs.len() as int);
        resolve_rec(rem.skip(1), entries.push(ResolvedTagView { tag: rem[0], path: p }))
    }
}

/// The full resolution of a raw tag list: distinct tags, shortest first,
/// each resolved against the entries recorded so far.
pub open spec fn resolve_spec(tags: Seq<Seq<char>>) -> Seq<ResolvedTagView> {
    resolve_rec(sort_by_len(dedup(tags)), Seq::empty())
}

/// The path recorded for a tag, scanning entries in insertion order.
pub open spec fn lookup(entries: Seq<ResolvedTagView>, tag: Seq<char>) -> Option<Seq<char>>
    decreases entries.len(),
{
    if entries.len() == 0 {
        Option::None
    } else if entries[0].tag == tag {
        Option::Some(entries[0].path)
    } else {
        lookup(entries.skip(1), tag)
    }
}

fn find_by_suffix_exec(entries: &Vec<ResolvedTag>, probe: &Vec<char>) -> (r: Option<usize>)
    ensures
        match r {
            Some(k) => k < entries@.len() && find_by_suffix(entries.deep_view(), probe@) == k as int,
            None => find_by_suffix(entries.deep_view(), probe@) == -1,
        },
{
    let ghost dv = entries.deep_view();
    let mut k: usize = 0;
    proof {
        assert(dv.skip(0) =~= dv);
    }
    while k < entries.len()
        invariant
            k <= entries.len(),
            dv == entries.deep_view(),
            find_by_suffix(dv, probe@) == if find_by_suffix(dv.skip(k as int), probe@) >= 0 {
                find_by_suffix(dv.skip(k as int), probe@) + k
            } else {
                -1
            },
        decreases entries.len() - k,
    {
        proof {
            assert(dv.skip(k as int).skip(1) =~= dv.skip(k as int + 1));
            assert(dv.skip(k as int)[0] == dv[k as int]);
        }
        let pathc = to_chars(entries[k].path.as_str());
        if has_suffix(&pathc, probe) {
            return Some(k);
        }
        k = k + 1;
    }
    proof {
        assert(dv.skip(dv.len() as int) =~= Seq::<ResolvedTagView>::empty());
    }
    None
}

fn resolve_one_exec(entries: &Vec<ResolvedTag>, segs: &Vec<Vec<char>>) -> (r: String)
    ensures
        r@ == resolve_one(entries.deep_view(), segs.deep_view(), segs@.len() as int),
{
    let ghost edv = entries.deep_view();
    let ghost sdv = segs.deep_view();
    let n: usize = segs.len();
    let mut i: usize = n;
    while i > 0
        invariant
            i <= n,
            n == segs@.len(),
            edv == entries.deep_view(),
            sdv == segs.deep_view(),
            resolve_one(edv, sdv, n as int) == resolve_one(edv, sdv, i as int),
        decreases i,
    {
        let probe = path_range(segs, 0, i);
        proof {
            assert(sdv.subrange(0, i as int) =~= sdv.take(i as int));
        }
        match find_by_suffix_exec(entries, &probe) {
            Some(e) => {
                let rest = path_range(segs, i, n);
                proof {
                    assert(sdv.subrange(i as int, n as int) =~= sdv.skip(i as int));
                }
                let restS = chars_to_string(&rest);
                let out = entries[e].path.clone().concat(restS.as_str());
                proof {
                    assert(out@ == edv[e as int].path + path_of(sdv.skip(i as int)));
                }
                return out;
            },
            None => {
                i = i - 1;
            },
        }
    }
    let whole = path_range(segs, 0, n);
    proof {
        assert(sdv.subrange(0, n as int) =~= sdv);
    }
    chars_to_string(&whole)
}

/// Resolves a raw tag list to its absolute topic paths.  Total and
/// deterministic for a fixed input list; every distinct tag of the input
/// appears as exactly one entry, in processing order.
pub fn resolve(tags: &Vec<String>) -> (r: Vec<ResolvedTag>)
    ensures
        r.deep_view() == resolve_spec(tags.deep_view()),
{
    let deduped = dedup_exec(tags);
    let sorted = sort_by_len_exec(deduped);
    let ghost srt = sorted.deep_view();
    let mut entries: Vec<ResolvedTag> = Vec::new();
    let mut i: usize = 0;
    proof {
        assert(srt.skip(0) =~= srt);
        assert(entries.deep_view() =~~= Seq::<ResolvedTagView>::empty());
    }
    while i < sorted.len()
        invariant
            i <= sorted.len(),
            srt == sorted.deep_view(),
            resolve_spec(tags.deep_view()) == resolve_rec(
                srt.skip(i as int),
                entries.deep_view(),
            ),
        decreases sorted.len() - i,
    {
        let ghost edv = entries.deep_view();
        proof {
            assert(srt.skip(i as int).skip(1) =~= srt.skip(i as int + 1));
            assert(srt.skip(i as int)[0] == srt[i as int]);
        }
        let tchars = to_chars(sorted[i].as_str());
        let segs = segments_exec(&tchars);
        let p = resolve_one_exec(&entries, &segs);
        entries.push(ResolvedTag { tag: sorted[i].clone(), path: p });
        proof {
            assert(entries.deep_view() =~~= edv.push(ResolvedTagView {
                tag: srt[i as int],
                path: resolve_one(edv, segments(srt[i as int]), segments(srt[i as int]).len() as int),
            }));
        }
        i = i + 1;
    }
    proof {
        assert(srt.skip(srt.len() as int) =~= Seq::<Seq<char>>::empty());
    }
    entries
}

/// Looks a tag's resolved path up, in insertion order.
pub fn lookup_path(entries: &Vec<ResolvedTag>, tag: &String) -> (r: Option<String>)
    ensures
        match r {
            Some(p) => lookup(entries.deep_view(), tag@) == Option::Some(p@),
            None => lookup(entries.deep_view(), tag@) == Option::<Seq<char>>::None,
        },
{
    let ghost dv = entries.deep_view();
    let mut k: usize = 0;
    proof {
        assert(dv.skip(0) =~= dv);
    }
    while k < entries.len()
        invariant
            k <= entries.len(),
            dv == entries.deep_view(),
            lookup(dv, tag@) == lookup(dv.skip(k as int), tag@),
        decreases entries.len() - k,
    {
        proof {
            assert(dv.skip(k as int).skip(1) =~= dv.skip(k as int + 1));
            assert(dv.skip(k as int)[0] == dv[k as int]);
        }
        if entries[k].tag.eq(tag) {
            return Some(entries[k].path.clone());
        }
        k = k + 1;
    }
    proof {
        assert(dv.skip(dv.len() as int) =~= Seq::<ResolvedTagView>::empty());
    }
    None
}

// --- totality ---

proof fn lemma_contains_skip(s: Seq<Seq<char>>, x: Seq<char>)
    requires
        s.len() > 0,
    ensures
        s.contains(x) <==> (s[0] == x || s.skip(1).contains(x)),
{
    if s.contains(x) {
        let k = choose|k: int| 0 <= k < s.len() && s[k] == x;
        if k > 0 {
            assert(s.skip(1)[k - 1] == x);
        }
    }
    if s.skip(1).contains(x) {
        let k = choose|k: int| 0 <= k < s.skip(1).len() && s.skip(1)[k] == x;
        assert(s[k + 1] == x);
    }
}

proof fn lemma_contains_push(s: Seq<Seq<char>>, y: Seq<char>, x: Seq<char>)
    ensures
        s.push(y).contains(x) <==> (s.contains(x) || x == y),
{
    if s.push(y).contains(x) {
        let k = choose|k: int| 0 <= k < s.push(y).len() && s.push(y)[k] == x;
        if k < s.len() {
            assert(s[k] == x);
        }
    }
    if s.contains(x) {
        let k = choose|k: int| 0 <= k < s.len() && s[k] == x;
        assert(s.push(y)[k] == x);
    }
    assert(s.push(y)[s.len() as int] == y);
}

proof fn lemma_dedup_rec_contains(rem: Seq<Seq<char>>, acc: Seq<Seq<char>>, x: Seq<char>)
    ensures
        dedup_rec(rem, acc).contains(x) <==> (acc.contains(x) || rem.contains(x)),
    decreases rem.len(),
{
    if rem.len() == 0 {
    } else {
        lemma_contains_skip(rem, x);
        if acc.contains(rem[0]) {
            lemma_dedup_rec_contains(rem.skip(1), acc, x);
        } else {
            lemma_dedup_rec_contains(rem.skip(1), acc.push(rem[0]), x);
            lemma_contains_push(acc, rem[0], x);
        }
    }
}

proof fn lemma_concat_single_contains(y: Seq<char>, s: Seq<Seq<char>>, x: Seq<char>)
    ensures
        (seq![y] + s).contains(x) <==> (x == y || s.contains(x)),
{
    let c = seq![y] + s;
    if c.contains(x) {
        let k = choose|k: int| 0 <= k < c.len() && c[k] == x;
        if k > 0 {
            assert(s[k - 1] == x);
        }
    }
    if s.contains(x) {
        let k = choose|k: int| 0 <= k < s.len() && s[k] == x;
        assert(c[k + 1] == x);
    }
    assert(c[0] == y);
}

proof fn lemma_sorted_insert_contains(sorted: Seq<Seq<char>>, y: Seq<char>, x: Seq<char>)
    ensures
        sorted_insert(sorted, y).contains(x) <==> (sorted.contains(x) || x == y),
    decreases sorted.len(),
{
    if sorted.len() == 0 {
        lemma_concat_single_contains(y, Seq::empty(), x);
        assert(seq![y] + Seq::<Seq<char>>::empty() =~= seq![y]);
    } else if sorted[0].len() <= y.len() {
        lemma_sorted_insert_contains(sorted.skip(1), y, x);
        lemma_concat_single_contains(sorted[0], sorted_insert(sorted.skip(1), y), x);
        lemma_contains_skip(sorted, x);
    } else {
        lemma_concat_single_contains(y, sorted, x);
    }
}

proof fn lemma_sort_rec_contains(rem: Seq<Seq<char>>, acc: Seq<Seq<char>>, x: Seq<char>)
    ensures
        sort_rec(rem, acc).contains(x) <==> (acc.contains(x) || rem.contains(x)),
    decreases rem.len(),
{
    if rem.len() == 0 {
    } else {
        lemma_contains_skip(rem, x);
        lemma_sort_rec_contains(rem.skip(1), sorted_insert(acc, rem[0]), x);
        lemma_sorted_insert_contains(acc, rem[0], x);
    }
}

proof fn lemma_resolve_rec_covers(rem: Seq<Seq<char>>, entries: Seq<ResolvedTagView>, t: Seq<char>)
    requires
        rem.contains(t) || exists|k: int|
            0 <= k < entries.len() && #[trigger] entries[k].tag == t,
    ensures
        exists|k: int|
            0 <= k < resolve_rec(rem, entries).len() && #[trigger] resolve_rec(
                rem,
                entries,
            )[k].tag == t,
    decreases rem.len(),
{
    if rem.len() == 0 {
        let k = choose|k: int| 0 <= k < entries.len() && #[trigger] entries[k].tag == t;
        assert(resolve_rec(rem, entries)[k].tag == t);
    } else {
        lemma_contains_skip(rem, t);
        let segs = segments(rem[0]);
        let p = resolve_one(entries, segs, segs.len() as int);
        let entries2 = entries.push(ResolvedTagView { tag: rem[0], path: p });
        if rem[0] == t {
            assert(entries2[entries.len() as int].tag == t);
        } else if exists|k: int| 0 <= k < entries.len() && #[trigger] entries[k].tag == t {
            let k = choose|k: int| 0 <= k < entries.len() && #[trigger] entries[k].tag == t;
            assert(entries2[k].tag == t);
        }
        lemma_resolve_rec_covers(rem.skip(1), entries2, t);
        assert(resolve_rec(rem, entries) == resolve_rec(rem.skip(1), entries2));
        let k = choose|k: int|
            0 <= k < resolve_rec(rem.skip(1), entries2).len() && #[trigger] resolve_rec(
                rem.skip(1),
                entries2,
            )[k].tag == t;
        assert(resolve_rec(rem, entries)[k].tag == t);
    }
}

proof fn lemma_lookup_some(entries: Seq<ResolvedTagView>, t: Seq<char>)
    ensures
        (lookup(entries, t) is Some) <==> exists|k: int|
            0 <= k < entries.len() && #[trigger] entries[k].tag == t,
    decreases entries.len(),
{
    if entries.len() == 0 {
    } else if entries[0].tag == t {
    } else {
        lemma_lookup_some(entries.skip(1), t);
        if lookup(entries.skip(1), t) is Some {
            let k = choose|k: int|
                0 <= k < entries.skip(1).len() && #[trigger] entries.skip(1)[k].tag == t;
            assert(entries[k + 1].tag == t);
        }
        if exists|k: int| 0 <= k < entries.len() && #[trigger] entries[k].tag == t {
            let k = choose|k: int| 0 <= k < entries.len() && #[trigger] entries[k].tag == t;
            assert(k != 0);
            assert(entries.skip(1)[k - 1].tag == t);
        }
    }
}

/// Totality law: resolution always succeeds for every tag of its input —
/// each tag of the list appears as a key of the resolution.
pub proof fn lemma_resolve_total(tags: Seq<Seq<char>>, t: Seq<char>)
    requires
        tags.contains(t),
    ensures
        lookup(resolve_spec(tags), t) is Some,
{
    lemma_dedup_rec_contains(tags, Seq::empty(), t);
    lemma_sort_rec_contains(dedup(tags), Seq::empty(), t);
    lemma_resolve_rec_covers(sort_by_len(dedup(tags)), Seq::empty(), t);
    lemma_lookup_some(resolve_spec(tags), t);
}

} // verus!
