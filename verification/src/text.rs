//! Character-sequence utilities shared by the whole pipeline: conversions
//! between `String` and `Vec<char>`, trimming, whitespace and separator
//! splitting, joining of path segments, and suffix search.
//!
//! Whitespace here means the ASCII blanks that front matter and tags can
//! reasonably carry: space, tab, carriage return and line feed.

use vstd::prelude::*;
use vstd::string::*;

verus! {

pub open spec fn is_space(c: char) -> bool {
    c == ' ' || c == '\t' || c == '\r' || c == '\n'
}

pub fn is_space_exec(c: char) -> (r: bool)
    ensures
        r == is_space(c),
{
    c == ' ' || c == '\t' || c == '\r' || c == '\n'
}

/// Relies on `String::push`: appends the given character to the end of the
/// string.
#[verifier::external_body]
pub(crate) fn push_char(s: &mut String, c: char)
    ensures
        final(s)@ == old(s)@.push(c),
{
    s.push(c);
}

/// The character sequence a call of `str::to_lowercase` returns; it depends
/// on the characters of the argument alone.
pub uninterp spec fn lower_of(s: Seq<char>) -> Seq<char>;

/// Relies on `str::to_lowercase`: the result is a function of the argument's
/// characters alone, and every character lowercases to at least one
/// character, so only the empty string lowercases to the empty string.
#[verifier::external_body]
pub(crate) fn lowercase(s: &str) -> (r: String)
    ensures
        r@ == lower_of(s@),
        r@.len() == 0 <==> s@.len() == 0,
{
    s.to_lowercase()
}

pub fn to_chars(s: &str) -> (r: Vec<char>)
    ensures
        r@ == s@,
{
    let n: usize = s.unicode_len();
    let mut r: Vec<char> = Vec::new();
    let mut i: usize = 0;
    while i < n
        invariant
            i <= n,
            n == s@.len(),
            r@ == s@.take(i as int),
        decreases n - i,
    {
        r.push(s.get_char(i));
        i = i + 1;
        proof {
            assert(s@.take(i as int) =~= s@.take(i as int - 1).push(s@[i as int - 1]));
        }
    }
    proof {
        assert(s@.take(n as int) =~= s@);
    }
    r
}

pub fn chars_to_string(v: &Vec<char>) -> (r: String)
    ensures
        r@ == v@,
{
    let mut r: String = String::new();
    let mut i: usize = 0;
    while i < v.len()
        invariant
            i <= v.len(),
            r@ == v@.take(i as int),
        decreases v.len() - i,
    {
        push_char(&mut r, v[i]);
        i = i + 1;
        proof {
            assert(v@.take(i as int) =~= v@.take(i as int - 1).push(v@[i as int - 1]));
        }
    }
    proof {
        assert(v@.take(v.len() as int) =~= v@);
    }
    r
}

// --- trimming ---

pub open spec fn ltrim(s: Seq<char>) -> Seq<char>
    decreases s.len(),
{
    if s.len() > 0 && is_space(s[0]) {
        ltrim(s.skip(1))
    } else {
        s
    }
}

pub open spec fn rtrim(s: Seq<char>) -> Seq<char>
    decreases s.len(),
{
    if s.len() > 0 && is_space(s[s.len() - 1]) {
        rtrim(s.take(s.len() - 1))
    } else {
        s
    }
}

/// The sequence with all leading and trailing blanks removed.
pub open spec fn trim(s: Seq<char>) -> Seq<char> {
    rtrim(ltrim(s))
}

pub fn trim_chars(v: &Vec<char>) -> (r: Vec<char>)
    ensures
        r@ == trim(v@),
{
    let mut a: usize = 0;
    proof {
        assert(v@.skip(0) =~= v@);
    }
    while a < v.len() && is_space_exec(v[a])
        invariant
            a <= v.len(),
            ltrim(v@) == ltrim(v@.skip(a as int)),
        decreases v.len() - a,
    {
        proof {
            assert(v@.skip(a as int).skip(1) =~= v@.skip(a as int + 1));
        }
        a = a + 1;
    }
    proof {
        assert(ltrim(v@) =~= v@.skip(a as int));
    }
    let mut b: usize = v.len();
    while b > a && is_space_exec(v[b - 1])
        invariant
            a <= b <= v.len(),
            ltrim(v@) == v@.skip(a as int),
            rtrim(ltrim(v@)) == rtrim(v@.subrange(a as int, b as int)),
        decreases b,
    {
        proof {
            let sub = v@.subrange(a as int, b as int);
            assert(sub.take(sub.len() - 1) =~= v@.subrange(a as int, b as int - 1));
        }
        b = b - 1;
    }
    proof {
        assert(rtrim(v@.subrange(a as int, b as int)) =~= v@.subrange(a as int, b as int));
    }
    let mut r: Vec<char> = Vec::new();
    let mut i: usize = a;
    while i < b
        invariant
            a <= i <= b <= v.len(),
            r@ == v@.subrange(a as int, i as int),
        decreases b - i,
    {
        r.push(v[i]);
        i = i + 1;
        proof {
            assert(v@.subrange(a as int, i as int)
                =~= v@.subrange(a as int, i as int - 1).push(v@[i as int - 1]));
        }
    }
    proof {
        assert(r@ =~= trim(v@));
    }
    r
}

// --- splitting ---

/// Whitespace tokenization: maximal runs of non-blank characters, in order.
pub open spec fn split_ws_rec(s: Seq<char>, toks: Seq<Seq<char>>, cur: Seq<char>) -> Seq<Seq<char>>
    decreases s.len(),
{
    if s.len() == 0 {
        if cur.len() > 0 {
            toks.push(cur)
        } else {
            toks
        }
    } else if is_space(s[0]) {
        if cur.len() > 0 {
            split_ws_rec(s.skip(1), toks.push(cur), Seq::empty())
        } else {
            split_ws_rec(s.skip(1), toks, Seq::empty())
        }
    } else {
        split_ws_rec(s.skip(1), toks, cur.push(s[0]))
    }
}

pub open spec fn split_ws(s: Seq<char>) -> Seq<Seq<char>> {
    split_ws_rec(s, Seq::empty(), Seq::empty())
}

pub fn split_ws_exec(v: &Vec<char>) -> (r: Vec<Vec<char>>)
    ensures
        r.deep_view() == split_ws(v@),
{
    let mut toks: Vec<Vec<char>> = Vec::new();
    let mut cur: Vec<char> = Vec::new();
    let mut i: usize = 0;
    proof {
        assert(v@.skip(0) =~= v@);
        assert(toks.deep_view() =~~= Seq::<Seq<char>>::empty());
    }
    while i < v.len()
        invariant
            i <= v.len(),
            split_ws(v@) == split_ws_rec(v@.skip(i as int), toks.deep_view(), cur@),
        decreases v.len() - i,
    {
        proof {
            assert(v@.skip(i as int).skip(1) =~= v@.skip(i as int + 1));
            assert(v@.skip(i as int)[0] == v@[i as int]);
        }
        let ghost toks0 = toks.deep_view();
        let ghost cur0 = cur@;
        let ghost s_i = v@.skip(i as int);
        if is_space_exec(v[i]) {
            if cur.len() > 0 {
                toks.push(cur);
                cur = Vec::new();
                proof {
                    assert(toks.deep_view() =~~= toks0.push(cur0));
                    assert(split_ws_rec(s_i, toks0, cur0)
                        == split_ws_rec(s_i.skip(1), toks0.push(cur0), Seq::empty()));
                    assert(split_ws_rec(v@.skip(i as int + 1), toks.deep_view(), cur@)
                        == split_ws_rec(s_i.skip(1), toks0.push(cur0), Seq::empty()));
                }
            } else {
                proof {
                    assert(cur0 =~= Seq::<char>::empty());
                    assert(split_ws_rec(s_i, toks0, cur0)
                        == split_ws_rec(s_i.skip(1), toks0, Seq::empty()));
                }
            }
        } else {
            cur.push(v[i]);
            proof {
                assert(toks.deep_view() =~~= toks0);
                assert(cur@ == cur0.push(v@[i as int]));
                assert(split_ws_rec(s_i, toks0, cur0)
                    == split_ws_rec(s_i.skip(1), toks0, cur0.push(s_i[0])));
            }
        }
        i = i + 1;
    }
    proof {
        assert(v@.skip(v.len() as int) =~= Seq::<char>::empty());
    }
    let ghost toks1 = toks.deep_view();
    let ghost cur1 = cur@;
    if cur.len() > 0 {
        toks.push(cur);
        proof {
            assert(toks.deep_view() =~~= toks1.push(cur1));
        }
    }
    toks
}

/// Separator splitting that drops empty pieces: the non-empty maximal runs
/// between occurrences of `sep`.
pub open spec fn split_sep_rec(s: Seq<char>, sep: char, toks: Seq<Seq<char>>, cur: Seq<char>) -> Seq<Seq<char>>
    decreases s.len(),
{
    if s.len() == 0 {
        if cur.len() > 0 {
            toks.push(cur)
        } else {
            toks
        }
    } else if s[0] == sep {
        if cur.len() > 0 {
            split_sep_rec(s.skip(1), sep, toks.push(cur), Seq::empty())
        } else {
            split_sep_rec(s.skip(1), sep, toks, Seq::empty())
        }
    } else {
        split_sep_rec(s.skip(1), sep, toks, cur.push(s[0]))
    }
}

/// The `/`-delimited segments of a tag or topic path, empty segments dropped,
/// so `"/a//b"` has the same segments as `"a/b"`.
pub open spec fn segments(s: Seq<char>) -> Seq<Seq<char>> {
    split_sep_rec(s, '/', Seq::empty(), Seq::empty())
}

pub fn segments_exec(v: &Vec<char>) -> (r: Vec<Vec<char>>)
    ensures
        r.deep_view() == segments(v@),
{
    let mut toks: Vec<Vec<char>> = Vec::new();
    let mut cur: Vec<char> = Vec::new();
    let mut i: usize = 0;
    proof {
        assert(v@.skip(0) =~= v@);
        assert(toks.deep_view() =~~= Seq::<Seq<char>>::empty());
    }
    while i < v.len()
        invariant
            i <= v.len(),
            segments(v@) == split_sep_rec(v@.skip(i as int), '/', toks.deep_view(), cur@),
        decreases v.len() - i,
    {
        proof {
            assert(v@.skip(i as int).skip(1) =~= v@.skip(i as int + 1));
            assert(v@.skip(i as int)[0] == v@[i as int]);
        }
        let ghost toks0 = toks.deep_view();
        let ghost cur0 = cur@;
        let ghost s_i = v@.skip(i as int);
        if v[i] == '/' {
            if cur.len() > 0 {
                toks.push(cur);
                cur = Vec::new();
                proof {
                    assert(toks.deep_view() =~~= toks0.push(cur0));
                    assert(split_sep_rec(s_i, '/', toks0, cur0)
                        == split_sep_rec(s_i.skip(1), '/', toks0.push(cur0), Seq::empty()));
                    assert(split_sep_rec(v@.skip(i as int + 1), '/', toks.deep_view(), cur@)
                        == split_sep_rec(s_i.skip(1), '/', toks0.push(cur0), Seq::empty()));
                }
            } else {
                proof {
                    assert(cur0 =~= Seq::<char>::empty());
                    assert(split_sep_rec(s_i, '/', toks0, cur0)
                        == split_sep_rec(s_i.skip(1), '/', toks0, Seq::empty()));
                }
            }
        } else {
            cur.push(v[i]);
            proof {
                assert(toks.deep_view() =~~= toks0);
                assert(cur@ == cur0.push(v@[i as int]));
                assert(split_sep_rec(s_i, '/', toks0, cur0)
                    == split_sep_rec(s_i.skip(1), '/', toks0, cur0.push(s_i[0])));
            }
        }
        i = i + 1;
    }
    proof {
        assert(v@.skip(v.len() as int) =~= Seq::<char>::empty());
    }
    let ghost toks1 = toks.deep_view();
    let ghost cur1 = cur@;
    if cur.len() > 0 {
        toks.push(cur);
        proof {
            assert(toks.deep_view() =~~= toks1.push(cur1));
        }
    }
    toks
}

/// Every segment that `split_sep_rec` yields is non-empty and free of the
/// separator, provided the pieces accumulated so far are.
pub proof fn lemma_split_sep_rec_wf(s: Seq<char>, sep: char, toks: Seq<Seq<char>>, cur: Seq<char>)
    requires
        forall|k: int| 0 <= k < toks.len() ==> #[trigger] seg_wf(toks[k], sep),
        forall|k: int| 0 <= k < cur.len() ==> cur[k] != sep,
    ensures
        forall|k: int| 0 <= k < split_sep_rec(s, sep, toks, cur).len()
            ==> #[trigger] seg_wf(split_sep_rec(s, sep, toks, cur)[k], sep),
    decreases s.len(),
{
    let r = split_sep_rec(s, sep, toks, cur);
    if s.len() == 0 {
        assert forall|k: int| 0 <= k < r.len() implies #[trigger] seg_wf(r[k], sep) by {
            if k < toks.len() {
                assert(seg_wf(toks[k], sep));
            } else {
                assert(r[k] == cur);
            }
        }
    } else if s[0] == sep {
        if cur.len() > 0 {
            assert forall|k: int| 0 <= k < toks.push(cur).len()
                implies #[trigger] seg_wf(toks.push(cur)[k], sep) by {
                if k < toks.len() {
                    assert(seg_wf(toks[k], sep));
                } else {
                    assert(toks.push(cur)[k] == cur);
                }
            }
            lemma_split_sep_rec_wf(s.skip(1), sep, toks.push(cur), Seq::empty());
            assert(split_sep_rec(s, sep, toks, cur)
                == split_sep_rec(s.skip(1), sep, toks.push(cur), Seq::empty()));
        } else {
            lemma_split_sep_rec_wf(s.skip(1), sep, toks, Seq::empty());
            assert(split_sep_rec(s, sep, toks, cur)
                == split_sep_rec(s.skip(1), sep, toks, Seq::empty()));
        }
    } else {
        assert(forall|k: int| 0 <= k < cur.push(s[0]).len() ==> cur.push(s[0])[k] != sep);
        lemma_split_sep_rec_wf(s.skip(1), sep, toks, cur.push(s[0]));
        assert(split_sep_rec(s, sep, toks, cur)
            == split_sep_rec(s.skip(1), sep, toks, cur.push(s[0])));
    }
}

/// A well-formed segment: non-empty and free of the separator.
pub open spec fn seg_wf(p: Seq<char>, sep: char) -> bool {
    p.len() > 0 && forall|k: int| 0 <= k < p.len() ==> p[k] != sep
}

/// All segments of any sequence are non-empty and `/`-free.
pub proof fn lemma_segments_wf(s: Seq<char>)
    ensures
        forall|k: int| 0 <= k < segments(s).len() ==> #[trigger] seg_wf(segments(s)[k], '/'),
{
    lemma_split_sep_rec_wf(s, '/', Seq::empty(), Seq::empty());
}

// --- joining ---

pub open spec fn path_rec(parts: Seq<Seq<char>>, acc: Seq<char>) -> Seq<char>
    decreases parts.len(),
{
    if parts.len() == 0 {
        acc
    } else {
        path_rec(parts.skip(1), acc + seq!['/'] + parts[0])
    }
}

/// The absolute path a list of segments renders to: a leading `/` before
/// each segment, so `["a", "b"]` renders to `"/a/b"` and the empty list to
/// the empty sequence.
pub open spec fn path_of(parts: Seq<Seq<char>>) -> Seq<char> {
    path_rec(parts, Seq::empty())
}

pub proof fn lemma_path_rec_snoc(parts: Seq<Seq<char>>, acc: Seq<char>, x: Seq<char>)
    ensures
        path_rec(parts.push(x), acc) == path_rec(parts, acc) + seq!['/'] + x,
    decreases parts.len(),
{
    if parts.len() == 0 {
        assert(parts.push(x).skip(1) =~= Seq::<Seq<char>>::empty());
        assert(parts.push(x)[0] == x);
        assert(path_rec(Seq::<Seq<char>>::empty(), acc + seq!['/'] + x)
            == acc + seq!['/'] + x);
    } else {
        assert(parts.push(x).skip(1) =~= parts.skip(1).push(x));
        lemma_path_rec_snoc(parts.skip(1), acc + seq!['/'] + parts[0], x);
    }
}

/// Appending one segment extends the rendered path by `/` and the segment.
pub proof fn lemma_path_of_snoc(parts: Seq<Seq<char>>, x: Seq<char>)
    ensures
        path_of(parts.push(x)) == path_of(parts) + seq!['/'] + x,
{
    lemma_path_rec_snoc(parts, Seq::empty(), x);
}

// --- suffix search ---

pub open spec fn is_suffix_of(p: Seq<char>, s: Seq<char>) -> bool {
    p.len() <= s.len() && s.skip(s.len() - p.len()) == p
}

pub fn has_suffix(s: &Vec<char>, p: &Vec<char>) -> (r: bool)
    ensures
        r == is_suffix_of(p@, s@),
{
    if p.len() > s.len() {
        proof {
            assert(!is_suffix_of(p@, s@));
        }
        return false;
    }
    let off: usize = s.len() - p.len();
    let mut i: usize = 0;
    while i < p.len()
        invariant
            i <= p.len(),
            p.len() <= s.len(),
            off == s.len() - p.len(),
            forall|k: int| 0 <= k < i ==> s@[off + k] == p@[k],
        decreases p.len() - i,
    {
        if s[off + i] != p[i] {
            proof {
                assert(s@.skip(off as int)[i as int] != p@[i as int]);
            }
            return false;
        }
        i = i + 1;
    }
    proof {
        assert(s@.skip(off as int) =~= p@);
    }
    true
}

// --- last occurrence ---

pub open spec fn last_index_of(s: Seq<char>, c: char) -> int
    decreases s.len(),
{
    if s.len() == 0 {
        -1
    } else if s[s.len() - 1] == c {
        s.len() - 1
    } else {
        last_index_of(s.take(s.len() - 1), c)
    }
}

/// The characters after the last occurrence of `c`, or the whole sequence
/// when `c` does not occur.
pub open spec fn after_last(s: Seq<char>, c: char) -> Seq<char>
    decreases s.len(),
{
    if s.len() == 0 {
        s
    } else if s[s.len() - 1] == c {
        Seq::empty()
    } else {
        after_last(s.take(s.len() - 1), c).push(s[s.len() - 1])
    }
}

pub fn last_index_of_exec(v: &Vec<char>, c: char) -> (r: Option<usize>)
    ensures
        match r {
            Some(k) => last_index_of(v@, c) == k as int,
            None => last_index_of(v@, c) == -1,
        },
{
    let mut j: usize = v.len();
    proof {
        assert(v@.take(v.len() as int) =~= v@);
    }
    while j > 0
        invariant
            j <= v.len(),
            last_index_of(v@, c) == last_index_of(v@.take(j as int), c),
        decreases j,
    {
        if v[j - 1] == c {
            return Some(j - 1);
        }
        proof {
            assert(v@.take(j as int).take(j as int - 1) =~= v@.take(j as int - 1));
        }
        j = j - 1;
    }
    None
}

/// Appending a separator-free tail after a separator leaves exactly that
/// tail after the last separator.
pub proof fn lemma_after_last_append(x: Seq<char>, y: Seq<char>, c: char)
    requires
        forall|k: int| 0 <= k < y.len() ==> y[k] != c,
    ensures
        after_last(x + seq![c] + y, c) == y,
    decreases y.len(),
{
    if y.len() == 0 {
        let s = x + seq![c] + y;
        assert(s[s.len() - 1] == c);
    } else {
        let s = x + seq![c] + y;
        assert(s[s.len() - 1] == y[y.len() - 1]);
        assert(s.take(s.len() - 1) =~= x + seq![c] + y.take(y.len() - 1));
        lemma_after_last_append(x, y.take(y.len() - 1), c);
        assert(after_last(s, c) =~= y);
    }
}

pub fn after_last_exec(v: &Vec<char>, c: char) -> (r: Vec<char>)
    ensures
        r@ == after_last(v@, c),
{
    proof {
        lemma_after_last_is_skip(v@, c);
    }
    let n: usize = v.len();
    let start: usize = match last_index_of_exec(v, c) {
        Some(k) => {
            proof {
                assert((k as int) < n as int);
            }
            k + 1
        },
        None => 0,
    };
    let mut r: Vec<char> = Vec::new();
    let mut i: usize = start;
    while i < v.len()
        invariant
            start <= i <= v.len(),
            r@ == v@.subrange(start as int, i as int),
        decreases v.len() - i,
    {
        r.push(v[i]);
        i = i + 1;
        proof {
            assert(v@.subrange(start as int, i as int)
                =~= v@.subrange(start as int, i as int - 1).push(v@[i as int - 1]));
        }
    }
    proof {
        assert(r@ =~= v@.skip(start as int));
    }
    r
}

/// `after_last` is the suffix that starts right after the last occurrence.
pub proof fn lemma_after_last_is_skip(s: Seq<char>, c: char)
    ensures
        after_last(s, c) == s.skip(last_index_of(s, c) + 1),
        -1 <= last_index_of(s, c) < s.len(),
        last_index_of(s, c) >= 0 ==> s[last_index_of(s, c)] == c,
    decreases s.len(),
{
    if s.len() == 0 {
        assert(s.skip(0) =~= s);
    } else if s[s.len() - 1] == c {
        assert(s.skip(s.len() as int) =~= Seq::<char>::empty());
    } else {
        lemma_after_last_is_skip(s.take(s.len() - 1), c);
        let t = s.take(s.len() - 1);
        let li = last_index_of(t, c);
        assert(t.skip(li + 1).push(s[s.len() - 1]) =~= s.skip(li + 1));
    }
}

// --- separator splitting that keeps empty pieces ---

/// Separator splitting that keeps empty pieces, as lines of a text or items
/// of a comma-separated list: one piece more than there are separators.
pub open spec fn split_keep_rec(s: Seq<char>, sep: char, toks: Seq<Seq<char>>, cur: Seq<char>) -> Seq<Seq<char>>
    decreases s.len(),
{
    if s.len() == 0 {
        toks.push(cur)
    } else if s[0] == sep {
        split_keep_rec(s.skip(1), sep, toks.push(cur), Seq::empty())
    } else {
        split_keep_rec(s.skip(1), sep, toks, cur.push(s[0]))
    }
}

pub open spec fn split_keep(s: Seq<char>, sep: char) -> Seq<Seq<char>> {
    split_keep_rec(s, sep, Seq::empty(), Seq::empty())
}

pub fn split_keep_exec(v: &Vec<char>, sep: char) -> (r: Vec<Vec<char>>)
    ensures
        r.deep_view() == split_keep(v@, sep),
{
    let mut toks: Vec<Vec<char>> = Vec::new();
    let mut cur: Vec<char> = Vec::new();
    let mut i: usize = 0;
    proof {
        assert(v@.skip(0) =~= v@);
        assert(toks.deep_view() =~~= Seq::<Seq<char>>::empty());
    }
    while i < v.len()
        invariant
            i <= v.len(),
            split_keep(v@, sep) == split_keep_rec(v@.skip(i as int), sep, toks.deep_view(), cur@),
        decreases v.len() - i,
    {
        proof {
            assert(v@.skip(i as int).skip(1) =~= v@.skip(i as int + 1));
            assert(v@.skip(i as int)[0] == v@[i as int]);
        }
        let ghost toks0 = toks.deep_view();
        let ghost cur0 = cur@;
        let ghost s_i = v@.skip(i as int);
        if v[i] == sep {
            toks.push(cur);
            cur = Vec::new();
            proof {
                assert(toks.deep_view() =~~= toks0.push(cur0));
                assert(split_keep_rec(s_i, sep, toks0, cur0)
                    == split_keep_rec(s_i.skip(1), sep, toks0.push(cur0), Seq::empty()));
                assert(split_keep_rec(v@.skip(i as int + 1), sep, toks.deep_view(), cur@)
                    == split_keep_rec(s_i.skip(1), sep, toks0.push(cur0), Seq::empty()));
            }
        } else {
            cur.push(v[i]);
            proof {
                assert(toks.deep_view() =~~= toks0);
                assert(cur@ == cur0.push(v@[i as int]));
                assert(split_keep_rec(s_i, sep, toks0, cur0)
                    == split_keep_rec(s_i.skip(1), sep, toks0, cur0.push(s_i[0])));
            }
        }
        i = i + 1;
    }
    proof {
        assert(v@.skip(v.len() as int) =~= Seq::<char>::empty());
    }
    let ghost toks1 = toks.deep_view();
    let ghost cur1 = cur@;
    toks.push(cur);
    proof {
        assert(toks.deep_view() =~~= toks1.push(cur1));
    }
    toks
}

// --- first occurrence ---

pub open spec fn first_index_of(s: Seq<char>, c: char) -> int
    decreases s.len(),
{
    if s.len() == 0 {
        -1
    } else if s[0] == c {
        0
    } else {
        let r = first_index_of(s.skip(1), c);
        if r < 0 {
            -1
        } else {
            r + 1
        }
    }
}

pub proof fn lemma_first_index_of(s: Seq<char>, c: char)
    ensures
        first_index_of(s, c) == -1 ==> forall|k: int| 0 <= k < s.len() ==> s[k] != c,
        first_index_of(s, c) >= 0 ==> first_index_of(s, c) < s.len()
            && s[first_index_of(s, c)] == c
            && forall|k: int| 0 <= k < first_index_of(s, c) ==> s[k] != c,
    decreases s.len(),
{
    if s.len() > 0 && s[0] != c {
        lemma_first_index_of(s.skip(1), c);
        let t = s.skip(1);
        let r = first_index_of(t, c);
        if r == -1 {
            assert forall|k: int| 0 <= k < s.len() implies s[k] != c by {
                if k > 0 {
                    assert(t[k - 1] != c);
                }
            }
        } else {
            assert(s[r + 1] == t[r]);
            assert forall|k: int| 0 <= k < r + 1 implies s[k] != c by {
                if k > 0 {
                    assert(t[k - 1] != c);
                }
            }
        }
    }
}

pub fn find_char(v: &Vec<char>, c: char) -> (r: Option<usize>)
    ensures
        match r {
            Some(k) => first_index_of(v@, c) == k as int,
            None => first_index_of(v@, c) == -1,
        },
{
    let mut i: usize = 0;
    proof {
        assert(v@.skip(0) =~= v@);
    }
    while i < v.len()
        invariant
            i <= v.len(),
            first_index_of(v@, c) == if first_index_of(v@.skip(i as int), c) >= 0 {
                first_index_of(v@.skip(i as int), c) + i
            } else {
                -1
            },
        decreases v.len() - i,
    {
        proof {
            assert(v@.skip(i as int).skip(1) =~= v@.skip(i as int + 1));
            assert(v@.skip(i as int)[0] == v@[i as int]);
        }
        if v[i] == c {
            return Some(i);
        }
        i = i + 1;
    }
    proof {
        assert(v@.skip(v.len() as int) =~= Seq::<char>::empty());
    }
    None
}

pub fn sub_chars(v: &Vec<char>, a: usize, b: usize) -> (r: Vec<char>)
    requires
        a <= b <= v@.len(),
    ensures
        r@ == v@.subrange(a as int, b as int),
{
    let mut r: Vec<char> = Vec::new();
    let mut i: usize = a;
    while i < b
        invariant
            a <= i <= b <= v@.len(),
            r@ == v@.subrange(a as int, i as int),
        decreases b - i,
    {
        r.push(v[i]);
        i = i + 1;
        proof {
            assert(v@.subrange(a as int, i as int)
                =~= v@.subrange(a as int, i as int - 1).push(v@[i as int - 1]));
        }
    }
    r
}

/// Whether a character vector spells the same text as a string slice.
pub fn chars_eq_str(v: &Vec<char>, s: &str) -> (r: bool)
    ensures
        r == (v@ == s@),
{
    let n: usize = s.unicode_len();
    if v.len() != n {
        proof {
            assert(v@ != s@);
        }
        return false;
    }
    let mut i: usize = 0;
    while i < n
        invariant
            i <= n,
            n == s@.len(),
            n == v@.len(),
            forall|k: int| 0 <= k < i ==> v@[k] == s@[k],
        decreases n - i,
    {
        if v[i] != s.get_char(i) {
            return false;
        }
        i = i + 1;
    }
    proof {
        assert(v@ =~= s@);
    }
    true
}

/// Renders `/s_from/../s_to` for a segment range, the empty string for an
/// empty range.
pub fn path_range(segs: &Vec<Vec<char>>, from: usize, to: usize) -> (r: Vec<char>)
    requires
        from <= to <= segs@.len(),
    ensures
        r@ == path_of(segs.deep_view().subrange(from as int, to as int)),
{
    let ghost dv = segs.deep_view();
    let mut r: Vec<char> = Vec::new();
    let mut j: usize = from;
    proof {
        assert(dv.subrange(from as int, from as int) =~= Seq::<Seq<char>>::empty());
    }
    while j < to
        invariant
            from <= j <= to <= segs@.len(),
            dv == segs.deep_view(),
            r@ == path_of(dv.subrange(from as int, j as int)),
        decreases to - j,
    {
        r.push('/');
        let mut piece = sub_chars(&segs[j], 0, segs[j].len());
        proof {
            assert(piece@ =~= dv[j as int]);
        }
        r.append(&mut piece);
        j = j + 1;
        proof {
            assert(dv.subrange(from as int, j as int)
                =~= dv.subrange(from as int, j as int - 1).push(dv[j as int - 1]));
            lemma_path_of_snoc(
                dv.subrange(from as int, j as int - 1),
                dv[j as int - 1],
            );
            assert(r@ =~= path_of(dv.subrange(from as int, j as int)));
        }
    }
    r
}


} // verus!
