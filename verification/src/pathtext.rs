//! Character-level model of path strings.
//!
//! A path string is read as a sequence of slash-separated pieces; empty
//! pieces are dropped, `.` pieces are normalization noise, and `..` pieces
//! are the parent-directory markers that validation must reject.  The
//! functions here split a string into its pieces, classify pieces, and
//! render a canonical segment list back into a single string.
use vstd::prelude::*;

verus! {

use vstd::string::StrSliceExecFns;

/// The views of a vector of strings, as a sequence of character sequences.
pub open spec fn views_of(v: Seq<String>) -> Seq<Seq<char>> {
    v.map_values(|s: String| s@)
}

/// Splitting `s` on `'/'` with `cur` the piece accumulated so far.
/// Empty pieces are dropped.
pub open spec fn split_run(s: Seq<char>, cur: Seq<char>) -> Seq<Seq<char>>
    decreases s.len(),
{
    if s.len() == 0 {
        if cur.len() == 0 {
            seq![]
        } else {
            seq![cur]
        }
    } else if s[0] == '/' {
        if cur.len() == 0 {
            split_run(s.drop_first(), Seq::empty())
        } else {
            seq![cur] + split_run(s.drop_first(), Seq::empty())
        }
    } else {
        split_run(s.drop_first(), cur.push(s[0]))
    }
}

/// The non-empty slash-separated pieces of a path string.
pub open spec fn pieces(s: Seq<char>) -> Seq<Seq<char>> {
    split_run(s, Seq::empty())
}

/// The current-directory marker `.`.
pub open spec fn is_dot_seg(p: Seq<char>) -> bool {
    p == seq!['.']
}

/// The parent-directory marker `..`.
pub open spec fn is_parent_seg(p: Seq<char>) -> bool {
    p == seq!['.', '.']
}

/// A normal path segment: non-empty, free of separators, and not one of
/// the two special markers.
pub open spec fn is_normal_seg(p: Seq<char>) -> bool {
    &&& p.len() > 0
    &&& !p.contains('/')
    &&& !is_dot_seg(p)
    &&& !is_parent_seg(p)
}

/// Whether any piece of `s` is a parent-directory marker.
pub open spec fn has_parent_piece(s: Seq<char>) -> bool {
    exists|k: int| 0 <= k < pieces(s).len() && is_parent_seg(#[trigger] pieces(s)[k])
}

/// The pieces of a piece list that are not the current-directory marker.
pub open spec fn drop_dots(ss: Seq<Seq<char>>) -> Seq<Seq<char>>
    decreases ss.len(),
{
    if ss.len() == 0 {
        seq![]
    } else if is_dot_seg(ss[0]) {
        drop_dots(ss.drop_first())
    } else {
        seq![ss[0]] + drop_dots(ss.drop_first())
    }
}

/// The canonical segment list of a path string: its pieces without
/// current-directory markers.
pub open spec fn norm_segs(s: Seq<char>) -> Seq<Seq<char>> {
    drop_dots(pieces(s))
}

/// A canonical segment list rendered as a string, segments joined by `'/'`.
pub open spec fn render_segs(ss: Seq<Seq<char>>) -> Seq<char>
    decreases ss.len(),
{
    if ss.len() == 0 {
        seq![]
    } else if ss.len() == 1 {
        ss[0]
    } else {
        ss[0] + seq!['/'] + render_segs(ss.drop_first())
    }
}

/// One path component appended to a base path: a separator is inserted
/// unless the base is empty or already ends with one.
pub open spec fn join_one(base: Seq<char>, seg: Seq<char>) -> Seq<char> {
    if base.len() == 0 {
        seg
    } else if base.last() == '/' {
        base + seg
    } else {
        base + seq!['/'] + seg
    }
}

/// Appends one path component to a base path string.
pub fn join_one_str(base: &str, seg: &str) -> (r: String)
    ensures
        r@ == join_one(base@, seg@),
{
    let n = base.unicode_len();
    let mut out = String::new();
    if n == 0 {
        out.append(seg);
        proof {
            assert(out@ =~= seg@);
        }
        return out;
    }
    out.append(base);
    if base.get_char(n - 1) != '/' {
        out.append("/");
        proof {
            reveal_strlit("/");
            assert(out@ =~= base@ + seq!['/']);
        }
    }
    out.append(seg);
    proof {
        if base@.last() == '/' {
            assert(out@ =~= base@ + seg@);
        } else {
            assert(out@ =~= base@ + seq!['/'] + seg@);
        }
    }
    out
}

/// Every piece produced by `split_run` is non-empty and free of separators,
/// provided the accumulator is.
proof fn lemma_split_run_wf(s: Seq<char>, cur: Seq<char>)
    requires
        !cur.contains('/'),
    ensures
        forall|k: int|
            0 <= k < split_run(s, cur).len() ==> (#[trigger] split_run(s, cur)[k]).len() > 0
                && !split_run(s, cur)[k].contains('/'),
    decreases s.len(),
{
    if s.len() == 0 {
        if cur.len() > 0 {
            assert(split_run(s, cur) == seq![cur]);
            assert(split_run(s, cur)[0] == cur);
        }
    } else if s[0] == '/' {
        lemma_split_run_wf(s.drop_first(), Seq::empty());
        if cur.len() == 0 {
            assert(split_run(s, cur) == split_run(s.drop_first(), Seq::empty()));
        }
        if cur.len() > 0 {
            assert forall|k: int| 0 <= k < split_run(s, cur).len() implies (#[trigger] split_run(
                s,
                cur,
            )[k]).len() > 0 && !split_run(s, cur)[k].contains('/') by {
                if k == 0 {
                    assert(split_run(s, cur)[0] == cur);
                } else {
                    assert(split_run(s, cur)[k] == split_run(s.drop_first(), Seq::empty())[k - 1]);
                }
            }
        }
    } else {
        assert(!cur.push(s[0]).contains('/')) by {
            assert(forall|j: int|
                0 <= j < cur.push(s[0]).len() ==> cur.push(s[0])[j] != '/');
        }
        lemma_split_run_wf(s.drop_first(), cur.push(s[0]));
        assert(split_run(s, cur) == split_run(s.drop_first(), cur.push(s[0])));
    }
}

/// Every piece of a path string is non-empty and free of separators.
pub proof fn lemma_pieces_wf(s: Seq<char>)
    ensures
        forall|k: int|
            0 <= k < pieces(s).len() ==> (#[trigger] pieces(s)[k]).len() > 0
                && !pieces(s)[k].contains('/'),
{
    lemma_split_run_wf(s, Seq::empty());
}

/// Every element of `drop_dots(ss)` is an element of `ss` and is not a
/// current-directory marker.
pub proof fn lemma_drop_dots_elem(ss: Seq<Seq<char>>, k: int)
    requires
        0 <= k < drop_dots(ss).len(),
    ensures
        exists|j: int|
            0 <= j < ss.len() && #[trigger] ss[j] == drop_dots(ss)[k] && !is_dot_seg(ss[j]),
    decreases ss.len(),
{
    if ss.len() == 0 {
    } else if is_dot_seg(ss[0]) {
        lemma_drop_dots_elem(ss.drop_first(), k);
        let j = choose|j: int|
            0 <= j < ss.drop_first().len() && #[trigger] ss.drop_first()[j] == drop_dots(
                ss.drop_first(),
            )[k] && !is_dot_seg(ss.drop_first()[j]);
        assert(ss.drop_first()[j] == ss[j + 1]);
        assert(ss[j + 1] == drop_dots(ss)[k] && !is_dot_seg(ss[j + 1]));
    } else if k == 0 {
        assert(drop_dots(ss)[0] == ss[0]);
    } else {
        assert(drop_dots(ss)[k] == drop_dots(ss.drop_first())[k - 1]);
        lemma_drop_dots_elem(ss.drop_first(), k - 1);
        let j = choose|j: int|
            0 <= j < ss.drop_first().len() && #[trigger] ss.drop_first()[j] == drop_dots(
                ss.drop_first(),
            )[k - 1] && !is_dot_seg(ss.drop_first()[j]);
        assert(ss.drop_first()[j] == ss[j + 1]);
        assert(ss[j + 1] == drop_dots(ss)[k] && !is_dot_seg(ss[j + 1]));
    }
}

/// Every segment of the canonical list of a string without parent markers
/// is a normal segment.
pub proof fn lemma_norm_segs_wf(s: Seq<char>)
    requires
        !has_parent_piece(s),
    ensures
        forall|k: int|
            0 <= k < norm_segs(s).len() ==> is_normal_seg(#[trigger] norm_segs(s)[k]),
{
    lemma_pieces_wf(s);
    assert forall|k: int| 0 <= k < norm_segs(s).len() implies is_normal_seg(
        #[trigger] norm_segs(s)[k],
    ) by {
        lemma_drop_dots_elem(pieces(s), k);
        let j = choose|j: int|
            0 <= j < pieces(s).len() && #[trigger] pieces(s)[j] == drop_dots(pieces(s))[k]
                && !is_dot_seg(pieces(s)[j]);
        assert(!is_parent_seg(pieces(s)[j]));
    }
}

/// A non-empty string without separators is its own single piece.
pub proof fn lemma_single_piece(s: Seq<char>)
    requires
        s.len() > 0,
        !s.contains('/'),
    ensures
        pieces(s) == seq![s],
{
    assert(forall|j: int| 0 <= j < s.len() ==> s[j] != '/');
    lemma_split_run_single(s, Seq::empty());
    assert(Seq::empty() + s =~= s);
}

proof fn lemma_split_run_single(s: Seq<char>, cur: Seq<char>)
    requires
        forall|j: int| 0 <= j < s.len() ==> s[j] != '/',
        cur.len() + s.len() > 0,
    ensures
        split_run(s, cur) == seq![cur + s],
    decreases s.len(),
{
    if s.len() == 0 {
        assert(cur + s =~= cur);
    } else {
        lemma_split_run_single(s.drop_first(), cur.push(s[0]));
        assert(cur.push(s[0]) + s.drop_first() =~= cur + s);
    }
}

/// Rendering distributes over concatenation of non-empty segment lists.
pub proof fn lemma_render_concat(a: Seq<Seq<char>>, b: Seq<Seq<char>>)
    requires
        a.len() > 0,
        b.len() > 0,
    ensures
        render_segs(a + b) == render_segs(a) + seq!['/'] + render_segs(b),
    decreases a.len(),
{
    if a.len() == 1 {
        assert((a + b)[0] == a[0]);
        assert((a + b).drop_first() =~= b);
        assert(render_segs(a + b) == a[0] + seq!['/'] + render_segs(b));
    } else {
        lemma_render_concat(a.drop_first(), b);
        assert((a + b).drop_first() =~= a.drop_first() + b);
        assert((a + b)[0] == a[0]);
        assert(a[0] + seq!['/'] + (render_segs(a.drop_first()) + seq!['/'] + render_segs(b))
            =~= (a[0] + seq!['/'] + render_segs(a.drop_first())) + seq!['/'] + render_segs(b));
    }
}

/// Splits a string into its non-empty slash-separated pieces.
pub fn split_pieces(s: &str) -> (r: Vec<String>)
    ensures
        views_of(r@) == pieces(s@),
{
    let n = s.unicode_len();
    let mut r: Vec<String> = Vec::new();
    let mut j: usize = 0;
    let mut i: usize = 0;
    proof {
        assert(s@.subrange(0, n as int) =~= s@);
        assert(s@.subrange(0, 0) =~= Seq::<char>::empty());
        assert(views_of(r@) =~= Seq::<Seq<char>>::empty());
        assert(views_of(r@) + split_run(s@, Seq::empty()) =~= split_run(s@, Seq::empty()));
    }
    while i < n
        invariant
            j <= i <= n,
            n == s@.len(),
            forall|k: int| j <= k < i ==> s@[k] != '/',
            pieces(s@) == views_of(r@) + split_run(
                s@.subrange(i as int, n as int),
                s@.subrange(j as int, i as int),
            ),
        decreases n - i,
    {
        let ghost suf = s@.subrange(i as int, n as int);
        let ghost cur = s@.subrange(j as int, i as int);
        let c = s.get_char(i);
        assert(suf[0] == c);
        if c == '/' {
            if i > j {
                let piece = s.substring_char(j, i);
                let owned = piece.to_owned();
                proof {
                    assert(split_run(suf, cur) == seq![cur] + split_run(
                        suf.drop_first(),
                        Seq::empty(),
                    ));
                    assert(views_of(r@.push(owned)) =~= views_of(r@).push(owned@));
                    assert(views_of(r@) + (seq![cur] + split_run(suf.drop_first(), Seq::empty()))
                        =~= views_of(r@).push(cur) + split_run(suf.drop_first(), Seq::empty()));
                }
                r.push(owned);
            } else {
                proof {
                    assert(cur =~= Seq::<char>::empty());
                    assert(split_run(suf, cur) == split_run(suf.drop_first(), Seq::empty()));
                }
            }
            j = i + 1;
        } else {
            proof {
                assert(split_run(suf, cur) == split_run(suf.drop_first(), cur.push(c)));
                assert(cur.push(c) =~= s@.subrange(j as int, i + 1));
            }
        }
        proof {
            assert(suf.drop_first() =~= s@.subrange(i + 1, n as int));
            if c == '/' {
                assert(s@.subrange(i + 1, i + 1) =~= Seq::<char>::empty());
            }
        }
        i = i + 1;
    }
    let ghost cur = s@.subrange(j as int, i as int);
    proof {
        assert(s@.subrange(i as int, n as int) =~= Seq::<char>::empty());
    }
    if i > j {
        let piece = s.substring_char(j, i);
        let owned = piece.to_owned();
        proof {
            assert(split_run(Seq::<char>::empty(), cur) == seq![cur]);
            assert(views_of(r@.push(owned)) =~= views_of(r@).push(owned@));
            assert(views_of(r@) + seq![cur] =~= views_of(r@).push(cur));
        }
        r.push(owned);
    } else {
        proof {
            assert(cur =~= Seq::<char>::empty());
            assert(split_run(Seq::<char>::empty(), cur) =~= Seq::<Seq<char>>::empty());
            assert(views_of(r@) + Seq::<Seq<char>>::empty() =~= views_of(r@));
        }
    }
    r
}

/// Whether a string equals the current-directory marker.
pub fn seg_is_dot(p: &str) -> (r: bool)
    ensures
        r == is_dot_seg(p@),
{
    let r = p.unicode_len() == 1 && p.get_char(0) == '.';
    proof {
        if r {
            assert(p@ =~= seq!['.']);
        }
    }
    r
}

/// Whether a string equals the parent-directory marker.
pub fn seg_is_parent(p: &str) -> (r: bool)
    ensures
        r == is_parent_seg(p@),
{
    let r = p.unicode_len() == 2 && p.get_char(0) == '.' && p.get_char(1) == '.';
    proof {
        if r {
            assert(p@ =~= seq!['.', '.']);
        }
    }
    r
}

/// Whether some piece in the list is a parent-directory marker.
pub fn find_parent(ps: &Vec<String>) -> (r: bool)
    ensures
        r == exists|k: int|
            0 <= k < ps@.len() && is_parent_seg(#[trigger] views_of(ps@)[k]),
{
    let mut k: usize = 0;
    while k < ps.len()
        invariant
            k <= ps@.len(),
            forall|m: int| 0 <= m < k ==> !is_parent_seg(#[trigger] views_of(ps@)[m]),
        decreases ps@.len() - k,
    {
        if seg_is_parent(ps[k].as_str()) {
            assert(is_parent_seg(views_of(ps@)[k as int]));
            return true;
        }
        k = k + 1;
    }
    false
}

/// Removes the current-directory markers from a piece list.
pub fn filter_dots(ps: Vec<String>) -> (r: Vec<String>)
    ensures
        views_of(r@) == drop_dots(views_of(ps@)),
{
    let mut r: Vec<String> = Vec::new();
    let mut k: usize = 0;
    proof {
        assert(views_of(ps@).subrange(0, ps@.len() as int) =~= views_of(ps@));
        assert(views_of(r@) =~= Seq::<Seq<char>>::empty());
        assert(views_of(r@) + drop_dots(views_of(ps@)) =~= drop_dots(views_of(ps@)));
    }
    while k < ps.len()
        invariant
            k <= ps@.len(),
            drop_dots(views_of(ps@)) == views_of(r@) + drop_dots(
                views_of(ps@).subrange(k as int, ps@.len() as int),
            ),
        decreases ps@.len() - k,
    {
        let ghost rest = views_of(ps@).subrange(k as int, ps@.len() as int);
        let ghost rest2 = views_of(ps@).subrange(k + 1, ps@.len() as int);
        proof {
            assert(rest[0] == views_of(ps@)[k as int]);
            assert(rest.drop_first() =~= rest2);
        }
        if seg_is_dot(ps[k].as_str()) {
            proof {
                assert(drop_dots(rest) == drop_dots(rest2));
            }
        } else {
            let owned = ps[k].clone();
            proof {
                assert(drop_dots(rest) == seq![rest[0]] + drop_dots(rest2));
                assert(views_of(r@.push(owned)) =~= views_of(r@).push(owned@));
                assert(views_of(r@) + (seq![rest[0]] + drop_dots(rest2)) =~= views_of(
                    r@,
                ).push(rest[0]) + drop_dots(rest2));
            }
            r.push(owned);
        }
        k = k + 1;
    }
    proof {
        assert(views_of(ps@).subrange(ps@.len() as int, ps@.len() as int)
            =~= Seq::<Seq<char>>::empty());
        assert(views_of(r@) + Seq::<Seq<char>>::empty() =~= views_of(r@));
    }
    r
}

/// Whether two string slices hold the same characters.
pub fn str_eq(a: &str, b: &str) -> (r: bool)
    ensures
        r == (a@ == b@),
{
    let na = a.unicode_len();
    let nb = b.unicode_len();
    if na != nb {
        return false;
    }
    let mut k: usize = 0;
    while k < na
        invariant
            k <= na,
            na == a@.len(),
            na == b@.len(),
            forall|m: int| 0 <= m < k ==> a@[m] == b@[m],
        decreases na - k,
    {
        if a.get_char(k) != b.get_char(k) {
            return false;
        }
        k = k + 1;
    }
    proof {
        assert(a@ =~= b@);
    }
    true
}

/// Renders a canonical segment list, segments joined by `'/'`.
pub fn render_segments(segs: &Vec<String>) -> (r: String)
    ensures
        r@ == render_segs(views_of(segs@)),
{
    let mut out = String::new();
    let mut k: usize = 0;
    while k < segs.len()
        invariant
            k <= segs@.len(),
            out@ == render_segs(views_of(segs@).subrange(0, k as int)),
        decreases segs@.len() - k,
    {
        if k > 0 {
            out.append("/");
            proof {
                reveal_strlit("/");
            }
        }
        out.append(segs[k].as_str());
        proof {
            lemma_render_push(views_of(segs@).subrange(0, k as int), views_of(segs@)[k as int]);
            assert(views_of(segs@).subrange(0, k as int).push(views_of(segs@)[k as int])
                =~= views_of(segs@).subrange(0, k + 1));
        }
        k = k + 1;
    }
    proof {
        assert(views_of(segs@).subrange(0, segs@.len() as int) =~= views_of(segs@));
    }
    out
}

/// Appending one segment to a rendered list appends a separator and the
/// segment, except at the front.
pub proof fn lemma_render_push(ss: Seq<Seq<char>>, x: Seq<char>)
    ensures
        ss.len() == 0 ==> render_segs(ss.push(x)) == x,
        ss.len() > 0 ==> render_segs(ss.push(x)) == render_segs(ss) + seq!['/'] + x,
    decreases ss.len(),
{
    if ss.len() == 0 {
        assert(render_segs(ss.push(x)) == ss.push(x)[0]);
    } else {
        lemma_render_concat(ss, seq![x]);
        assert(ss + seq![x] =~= ss.push(x));
        assert(render_segs(seq![x]) == x);
    }
}

} // verus!
