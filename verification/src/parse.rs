//! Splitting a path into its segments.
//!
//! A path is parsed by stripping at most one leading occurrence of the
//! separator and then splitting the remainder on every further occurrence.
//! An empty remainder yields one empty segment, never zero segments.  An
//! empty separator splits nothing: the whole path is one segment.
use vstd::prelude::*;

verus! {

/// `parts` with `pre` prepended to its first element.
pub open spec fn prepend_first(pre: Seq<char>, parts: Seq<Seq<char>>) -> Seq<Seq<char>> {
    parts.update(0, pre + parts[0])
}

/// `s` split on every occurrence of `sep`, scanning from the left; a
/// leftover (or empty) remainder is the final segment.  An empty `sep`
/// yields the whole of `s` as the only segment.
pub open spec fn split_on(s: Seq<char>, sep: Seq<char>) -> Seq<Seq<char>>
    decreases s.len(),
{
    if sep.len() == 0 {
        seq![s]
    } else if s.len() == 0 {
        seq![s]
    } else if sep.is_prefix_of(s) {
        seq![Seq::<char>::empty()] + split_on(s.subrange(sep.len() as int, s.len() as int), sep)
    } else {
        prepend_first(seq![s[0]], split_on(s.subrange(1, s.len() as int), sep))
    }
}

/// Splitting yields at least one segment.
pub proof fn lemma_split_on_nonempty(s: Seq<char>, sep: Seq<char>)
    ensures
        split_on(s, sep).len() >= 1,
    decreases s.len(),
{
    if sep.len() == 0 || s.len() == 0 {
    } else if sep.is_prefix_of(s) {
        lemma_split_on_nonempty(s.subrange(sep.len() as int, s.len() as int), sep);
    } else {
        lemma_split_on_nonempty(s.subrange(1, s.len() as int), sep);
    }
}

/// `s` with a single leading occurrence of `sep` removed, when one is
/// there.
pub open spec fn strip_leading_separator(s: Seq<char>, sep: Seq<char>) -> Seq<char> {
    if sep.len() > 0 && sep.is_prefix_of(s) {
        s.subrange(sep.len() as int, s.len() as int)
    } else {
        s
    }
}

/// The segments of `path` under the separator `sep`: strip one leading
/// occurrence, then split on every remaining one.
pub open spec fn parse_model(path: Seq<char>, sep: Seq<char>) -> Seq<Seq<char>> {
    split_on(strip_leading_separator(path, sep), sep)
}

/// The views of a vector of owned segments.
pub open spec fn seq_views(v: Seq<String>) -> Seq<Seq<char>> {
    v.map_values(|x: String| x@)
}

/// A pattern split the same way by insertion and by lookup stays the same
/// pattern: on a path that does not itself begin with the separator,
/// parsing is unchanged by putting one leading separator in front.
pub proof fn lemma_parse_leading_separator(path: Seq<char>, sep: Seq<char>)
    requires
        sep.len() > 0,
        !sep.is_prefix_of(path),
    ensures
        parse_model(sep + path, sep) == parse_model(path, sep),
{
    assert(sep.is_prefix_of(sep + path)) by {
        assert((sep + path).subrange(0, sep.len() as int) =~= sep);
    }
    assert((sep + path).subrange(sep.len() as int, (sep + path).len() as int) =~= path);
}

/// Character-for-character equality of two string slices.
pub fn str_eq(a: &str, b: &str) -> (r: bool)
    ensures
        r == (a@ == b@),
{
    let n = a.unicode_len();
    if n != b.unicode_len() {
        return false;
    }
    let mut i: usize = 0;
    while i < n
        invariant
            n == a@.len(),
            n == b@.len(),
            i <= n,
            forall|k: int| 0 <= k < i ==> a@[k] == b@[k],
        decreases n - i,
    {
        if a.get_char(i) != b.get_char(i) {
            return false;
        }
        i = i + 1;
    }
    proof {
        assert(a@ =~= b@);
    }
    true
}

/// Whether `sep` occurs in `s` exactly at character position `i`.
fn matches_at(s: &str, i: usize, pat: &str) -> (r: bool)
    requires
        s@.len() <= usize::MAX,
        i + pat@.len() <= s@.len(),
    ensures
        r == (s@.subrange(i as int, i + pat@.len()) == pat@),
{
    let m = pat.unicode_len();
    let mut j: usize = 0;
    while j < m
        invariant
            m == pat@.len(),
            s@.len() <= usize::MAX,
            i + m <= s@.len(),
            j <= m,
            forall|k: int| 0 <= k < j ==> s@[i + k] == pat@[k],
        decreases m - j,
    {
        if s.get_char(i + j) != pat.get_char(j) {
            proof {
                assert(s@.subrange(i as int, i + pat@.len())[j as int] == s@[i + j]);
            }
            return false;
        }
        j = j + 1;
    }
    proof {
        assert(s@.subrange(i as int, i + pat@.len()) =~= pat@);
    }
    true
}

/// Whether `prefix` is a prefix of `s`.
pub fn str_starts_with(s: &str, prefix: &str) -> (r: bool)
    ensures
        r == prefix@.is_prefix_of(s@),
{
    let n = s.unicode_len();
    let m = prefix.unicode_len();
    if m > n {
        return false;
    }
    let r = matches_at(s, 0, prefix);
    proof {
        assert(s@.subrange(0, prefix@.len() as int) == s@.subrange(
            0int,
            0 + prefix@.len() as int,
        ));
    }
    r
}

proof fn lemma_prepend_first_empty(parts: Seq<Seq<char>>)
    requires
        parts.len() >= 1,
    ensures
        prepend_first(Seq::empty(), parts) =~= parts,
{
    assert(Seq::<char>::empty() + parts[0] =~= parts[0]);
}

proof fn lemma_prepend_first_twice(pre1: Seq<char>, pre2: Seq<char>, parts: Seq<Seq<char>>)
    requires
        parts.len() >= 1,
    ensures
        prepend_first(pre1, prepend_first(pre2, parts)) =~= prepend_first(pre1 + pre2, parts),
{
    assert(pre1 + (pre2 + parts[0]) =~= (pre1 + pre2) + parts[0]);
}

proof fn lemma_prepend_first_to_head(pre: Seq<char>, x: Seq<Seq<char>>)
    ensures
        prepend_first(pre, seq![Seq::<char>::empty()] + x) =~= seq![pre] + x,
{
    assert((seq![Seq::<char>::empty()] + x)[0] =~= Seq::<char>::empty());
    assert(pre + (seq![Seq::<char>::empty()] + x)[0] =~= pre);
}

/// `path` cut into segments: one leading occurrence of `sep` is stripped,
/// the remainder is split on every further occurrence.
pub fn split_path(s: &str, sep: &str) -> (r: Vec<String>)
    ensures
        seq_views(r@) == parse_model(s@, sep@),
{
    let n = s.unicode_len();
    let m = sep.unicode_len();
    let mut segs: Vec<String> = Vec::new();
    if m == 0 {
        segs.push(s.to_owned());
        proof {
            assert(seq_views(segs@) =~= parse_model(s@, sep@));
        }
        return segs;
    }
    let start0: usize = if m <= n && matches_at(s, 0, sep) {
        m
    } else {
        0
    };
    let ghost stripped = strip_leading_separator(s@, sep@);
    proof {
        if m <= n && s@.subrange(0, m as int) == sep@ {
            assert(sep@.is_prefix_of(s@));
        } else {
            if sep@.is_prefix_of(s@) {
                assert(s@.subrange(0, m as int) == sep@);
            }
        }
        assert(stripped =~= s@.subrange(start0 as int, n as int));
        lemma_split_on_nonempty(stripped, sep@);
        assert(s@.subrange(start0 as int, start0 as int) =~= Seq::<char>::empty());
        lemma_prepend_first_empty(split_on(stripped, sep@));
        assert(seq_views(segs@) =~= Seq::<Seq<char>>::empty());
        assert(Seq::<Seq<char>>::empty() + split_on(stripped, sep@) =~= split_on(
            stripped,
            sep@,
        ));
    }
    let mut start: usize = start0;
    let mut i: usize = start0;
    while i < n
        invariant
            n == s@.len(),
            m == sep@.len(),
            m >= 1,
            s@.len() <= usize::MAX,
            start0 <= start <= i <= n,
            stripped == strip_leading_separator(s@, sep@),
            stripped == s@.subrange(start0 as int, n as int),
            split_on(stripped, sep@) == seq_views(segs@) + prepend_first(
                s@.subrange(start as int, i as int),
                split_on(s@.subrange(i as int, n as int), sep@),
            ),
        decreases n - i,
    {
        let ghost tail_i = s@.subrange(i as int, n as int);
        if m <= n && i <= n - m && matches_at(s, i, sep) {
            let piece = s.substring_char(start, i).to_owned();
            proof {
                // The separator occurs at i, so the split of the tail puts
                // an empty first segment in front of the split beyond it.
                assert(tail_i.subrange(0, m as int) =~= s@.subrange(i as int, i + m));
                assert(sep@.is_prefix_of(tail_i));
                assert(tail_i.subrange(m as int, tail_i.len() as int) =~= s@.subrange(
                    i + m,
                    n as int,
                ));
                let x = split_on(s@.subrange(i + m, n as int), sep@);
                lemma_split_on_nonempty(s@.subrange(i + m, n as int), sep@);
                assert(split_on(tail_i, sep@) == seq![Seq::<char>::empty()] + x);
                lemma_prepend_first_to_head(s@.subrange(start as int, i as int), x);
                lemma_prepend_first_empty(x);
                assert(seq_views(segs@.push(piece)) =~= seq_views(segs@).push(
                    s@.subrange(start as int, i as int),
                ));
                assert(seq_views(segs@) + (seq![s@.subrange(start as int, i as int)] + x)
                    =~= seq_views(segs@.push(piece)) + x);
                assert(seq_views(segs@.push(piece)) + prepend_first(
                    s@.subrange((i + m) as int, (i + m) as int),
                    x,
                ) =~= seq_views(segs@.push(piece)) + x);
            }
            segs.push(piece);
            start = i + m;
            i = start;
        } else {
            proof {
                // No occurrence at i: the first character of the tail joins
                // the current segment.
                if i + m <= n {
                    assert(s@.subrange(i as int, i + m) != sep@);
                    if sep@.is_prefix_of(tail_i) {
                        assert(tail_i.subrange(0, m as int) =~= s@.subrange(i as int, i + m));
                    }
                } else {
                    assert(tail_i.len() < m);
                }
                assert(!sep@.is_prefix_of(tail_i));
                assert(tail_i.len() > 0);
                let x = split_on(s@.subrange(i + 1, n as int), sep@);
                lemma_split_on_nonempty(s@.subrange(i + 1, n as int), sep@);
                assert(tail_i.subrange(1, tail_i.len() as int) =~= s@.subrange(i + 1, n as int));
                assert(tail_i[0] == s@[i as int]);
                assert(split_on(tail_i, sep@) == prepend_first(seq![s@[i as int]], x));
                lemma_prepend_first_twice(
                    s@.subrange(start as int, i as int),
                    seq![s@[i as int]],
                    x,
                );
                assert(s@.subrange(start as int, i as int) + seq![s@[i as int]] =~= s@.subrange(
                    start as int,
                    i + 1,
                ));
            }
            i = i + 1;
        }
    }
    let piece = s.substring_char(start, n).to_owned();
    proof {
        let tail_n = s@.subrange(n as int, n as int);
        assert(tail_n.len() == 0);
        assert(split_on(tail_n, sep@) == seq![tail_n]);
        assert(tail_n =~= Seq::<char>::empty());
        lemma_prepend_first_to_head(
            s@.subrange(start as int, n as int),
            Seq::<Seq<char>>::empty(),
        );
        assert(seq![Seq::<char>::empty()] + Seq::<Seq<char>>::empty() =~= seq![
            Seq::<char>::empty(),
        ]);
        assert(seq![s@.subrange(start as int, n as int)] + Seq::<Seq<char>>::empty() =~= seq![
            s@.subrange(start as int, n as int),
        ]);
        assert(seq_views(segs@.push(piece)) =~= seq_views(segs@).push(
            s@.subrange(start as int, n as int),
        ));
        assert(seq_views(segs@) + seq![s@.subrange(start as int, n as int)] =~= seq_views(
            segs@.push(piece),
        ));
    }
    segs.push(piece);
    segs
}

} // verus!
