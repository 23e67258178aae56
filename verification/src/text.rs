//! Dotted-path text primitives: splitting a path into its segments and
//! joining segments back into a path.

use vstd::prelude::*;

verus! {

/// The segments of `s` delimited by `'.'`, in order.  A string without
/// any dot is one segment; every dot separates two (possibly empty)
/// segments, so the result always holds at least one segment.
pub open spec fn split_dots(s: Seq<char>) -> Seq<Seq<char>>
    decreases s.len(),
{
    if s.len() == 0 {
        seq![Seq::<char>::empty()]
    } else if s[0] == '.' {
        seq![Seq::<char>::empty()] + split_dots(s.drop_first())
    } else {
        let rest = split_dots(s.drop_first());
        seq![seq![s[0]] + rest[0]] + rest.drop_first()
    }
}

/// The segments joined back together with a `'.'` between neighbours.
pub open spec fn join_dots(parts: Seq<Seq<char>>) -> Seq<char>
    decreases parts.len(),
{
    if parts.len() == 0 {
        Seq::<char>::empty()
    } else if parts.len() == 1 {
        parts[0]
    } else {
        join_dots(parts.drop_last()) + "."@ + parts.last()
    }
}

/// The last dot-delimited segment of a path; the whole path when it
/// holds no dot.
pub open spec fn leaf_of(s: Seq<char>) -> Seq<char> {
    split_dots(s).last()
}

/// A path prefix grown by one further key: `key` alone at the root,
/// `prefix.key` below it.
pub open spec fn extend_prefix(prefix: Seq<char>, key: Seq<char>) -> Seq<char> {
    if prefix.len() == 0 {
        key
    } else {
        prefix + "."@ + key
    }
}

pub proof fn lemma_split_dots_len(s: Seq<char>)
    ensures
        split_dots(s).len() >= 1,
    decreases s.len(),
{
    if s.len() == 0 {
    } else if s[0] == '.' {
        lemma_split_dots_len(s.drop_first());
    } else {
        lemma_split_dots_len(s.drop_first());
    }
}

/// Dropping a dot-free prefix of `s` keeps every segment but the first,
/// and shortens the first segment by exactly that prefix.
pub proof fn lemma_split_dots_no_dot_prefix(s: Seq<char>, k: int)
    requires
        0 <= k <= s.len(),
        forall|j: int| 0 <= j < k ==> s[j] != '.',
    ensures
        split_dots(s).len() == split_dots(s.skip(k)).len(),
        split_dots(s)[0] == s.take(k) + split_dots(s.skip(k))[0],
        forall|i: int| 1 <= i < split_dots(s).len() ==> split_dots(s)[i] == split_dots(s.skip(k))[i],
    decreases k,
{
    lemma_split_dots_len(s);
    lemma_split_dots_len(s.skip(k));
    if k == 0 {
        assert(s.skip(0) =~= s);
        assert(s.take(0) + split_dots(s)[0] =~= split_dots(s)[0]);
    } else {
        let t = s.drop_first();
        lemma_split_dots_no_dot_prefix(t, k - 1);
        assert(t.skip(k - 1) =~= s.skip(k));
        assert(s.take(k) =~= seq![s[0]] + t.take(k - 1));
        lemma_split_dots_len(t);
        assert(split_dots(s)[0] =~= seq![s[0]] + split_dots(t)[0]);
        assert(seq![s[0]] + (t.take(k - 1) + split_dots(t.skip(k - 1))[0]) =~= (seq![s[0]]
            + t.take(k - 1)) + split_dots(t.skip(k - 1))[0]);
    }
}

/// A path whose first dot stands at index `k` splits into the prefix
/// before the dot followed by the segments of what comes after it.
pub proof fn lemma_split_dots_at_dot(s: Seq<char>, k: int)
    requires
        0 <= k < s.len(),
        s[k] == '.',
        forall|j: int| 0 <= j < k ==> s[j] != '.',
    ensures
        split_dots(s) == seq![s.take(k)] + split_dots(s.skip(k + 1)),
    decreases s.len(),
{
    lemma_split_dots_no_dot_prefix(s, k);
    let u = s.skip(k);
    assert(u[0] == '.');
    assert(u.drop_first() =~= s.skip(k + 1));
    lemma_split_dots_len(s);
    lemma_split_dots_len(u);
    assert(split_dots(u)[0] =~= Seq::<char>::empty());
    assert(split_dots(s)[0] =~= s.take(k));
    assert(split_dots(s) =~~= seq![s.take(k)] + split_dots(s.skip(k + 1)));
}

/// A dot-free string is a single segment.
pub proof fn lemma_split_dots_no_dot(s: Seq<char>)
    requires
        forall|j: int| 0 <= j < s.len() ==> s[j] != '.',
    ensures
        split_dots(s) == seq![s],
{
    lemma_split_dots_no_dot_prefix(s, s.len() as int);
    let u = s.skip(s.len() as int);
    assert(u =~= Seq::<char>::empty());
    assert(split_dots(s)[0] =~= s);
    assert(split_dots(s) =~~= seq![s]);
}

/// Splits a dotted field path into its segments, as Rust's
/// `split('.')` does.
pub fn split_dots_str(s: &str) -> (parts: Vec<String>)
    ensures
        parts.deep_view() == split_dots(s@),
        parts.len() >= 1,
{
    let n = s.unicode_len();
    let mut parts: Vec<String> = Vec::new();
    let mut start: usize = 0;
    let mut i: usize = 0;
    proof {
        reveal_strlit(".");
        assert(s@.skip(0) =~= s@);
        assert(parts.deep_view() =~~= Seq::<Seq<char>>::empty());
    }
    while i < n
        invariant
            start <= i <= n,
            n == s@.len(),
            forall|j: int| start <= j < i ==> s@[j] != '.',
            split_dots(s@) =~~= parts.deep_view() + split_dots(s@.skip(start as int)),
        decreases n - i,
    {
        if s.get_char(i) == '.' {
            let seg = s.substring_char(start, i).to_owned();
            proof {
                let u = s@.skip(start as int);
                assert(forall|j: int| 0 <= j < i - start ==> u[j] == s@[start + j]);
                lemma_split_dots_at_dot(u, i - start);
                assert(u.take(i - start) =~= s@.subrange(start as int, i as int));
                assert(u.skip(i - start + 1) =~= s@.skip(i + 1));
                assert(parts.deep_view().push(seg@) =~~= parts.deep_view() + seq![
                    u.take(i - start),
                ]);
            }
            parts.push(seg);
            start = i + 1;
        }
        i += 1;
    }
    let seg = s.substring_char(start, n).to_owned();
    proof {
        let u = s@.skip(start as int);
        assert(forall|j: int| 0 <= j < u.len() ==> u[j] == s@[start + j]);
        lemma_split_dots_no_dot(u);
        assert(u =~= s@.subrange(start as int, n as int));
        assert(parts.deep_view().push(seg@) =~~= parts.deep_view() + seq![u]);
    }
    parts.push(seg);
    parts
}

} // verus!
