//! The association of field paths with zero-based column positions.

use vstd::prelude::*;
use crate::text::leaf_of;

verus! {

/// A mapping from dotted field paths to zero-based column indices,
/// with unique keys, kept in insertion order.
pub struct FieldMapping {
    entries: Vec<(String, usize)>,
}

impl View for FieldMapping {
    type V = Seq<(Seq<char>, usize)>;

    closed spec fn view(&self) -> Seq<(Seq<char>, usize)> {
        self.entries.deep_view()
    }
}

/// No two entries share a key.
pub open spec fn unique_keys(entries: Seq<(Seq<char>, usize)>) -> bool {
    forall|i: int, j: int| 0 <= i < j < entries.len() ==> entries[i].0 != entries[j].0
}

/// The index of the first entry with key `key`, or `-1` when none has it.
pub open spec fn find_key(entries: Seq<(Seq<char>, usize)>, key: Seq<char>) -> int
    decreases entries.len(),
{
    if entries.len() == 0 {
        -1
    } else if entries[0].0 == key {
        0
    } else {
        let r = find_key(entries.drop_first(), key);
        if r == -1 {
            -1
        } else {
            r + 1
        }
    }
}

/// The column mapped to `key`, if any.
pub open spec fn spec_get(entries: Seq<(Seq<char>, usize)>, key: Seq<char>) -> Option<usize> {
    let i = find_key(entries, key);
    if i == -1 {
        None
    } else {
        Some(entries[i].1)
    }
}

/// Mapping `key` to `col`: the existing entry for `key` is replaced,
/// or a new entry is appended.
pub open spec fn insert_entry(
    entries: Seq<(Seq<char>, usize)>,
    key: Seq<char>,
    col: usize,
) -> Seq<(Seq<char>, usize)> {
    let i = find_key(entries, key);
    if i == -1 {
        entries.push((key, col))
    } else {
        entries.update(i, (key, col))
    }
}

pub proof fn lemma_find_key_found(entries: Seq<(Seq<char>, usize)>, key: Seq<char>, i: int)
    requires
        0 <= i < entries.len(),
        entries[i].0 == key,
        forall|j: int| 0 <= j < i ==> entries[j].0 != key,
    ensures
        find_key(entries, key) == i,
    decreases i,
{
    if i == 0 {
    } else {
        lemma_find_key_found(entries.drop_first(), key, i - 1);
    }
}

pub proof fn lemma_find_key_none(entries: Seq<(Seq<char>, usize)>, key: Seq<char>)
    requires
        forall|j: int| 0 <= j < entries.len() ==> entries[j].0 != key,
    ensures
        find_key(entries, key) == -1,
    decreases entries.len(),
{
    if entries.len() == 0 {
    } else {
        lemma_find_key_none(entries.drop_first(), key);
    }
}

pub proof fn lemma_find_key_in_range(entries: Seq<(Seq<char>, usize)>, key: Seq<char>)
    ensures
        find_key(entries, key) == -1 || (0 <= find_key(entries, key) < entries.len()
            && entries[find_key(entries, key)].0 == key),
    decreases entries.len(),
{
    if entries.len() == 0 {
    } else if entries[0].0 == key {
    } else {
        lemma_find_key_in_range(entries.drop_first(), key);
    }
}

/// Replacing or appending an entry keeps the keys unique.
pub proof fn lemma_insert_entry_unique(
    entries: Seq<(Seq<char>, usize)>,
    key: Seq<char>,
    col: usize,
)
    requires
        unique_keys(entries),
    ensures
        unique_keys(insert_entry(entries, key, col)),
{
    lemma_find_key_in_range(entries, key);
    let i = find_key(entries, key);
    if i == -1 {
        lemma_find_key_none_converse(entries, key);
        let r = entries.push((key, col));
        assert forall|a: int, b: int| 0 <= a < b < r.len() implies r[a].0 != r[b].0 by {
            if b == entries.len() {
                assert(r[a].0 == entries[a].0);
            }
        }
    } else {
        let r = entries.update(i, (key, col));
        assert(forall|a: int| 0 <= a < r.len() ==> r[a].0 == entries[a].0);
    }
}

/// When no entry has the key, every key differs from it.
proof fn lemma_find_key_none_converse(entries: Seq<(Seq<char>, usize)>, key: Seq<char>)
    requires
        find_key(entries, key) == -1,
    ensures
        forall|j: int| 0 <= j < entries.len() ==> entries[j].0 != key,
    decreases entries.len(),
{
    if entries.len() == 0 {
    } else {
        assert(entries[0].0 != key);
        lemma_find_key_in_range(entries.drop_first(), key);
        lemma_find_key_none_converse(entries.drop_first(), key);
        assert forall|j: int| 0 <= j < entries.len() implies entries[j].0 != key by {
            if j > 0 {
                assert(entries[j] == entries.drop_first()[j - 1]);
            }
        }
    }
}

impl FieldMapping {
    /// The mapping's keys are pairwise distinct.
    pub open spec fn wf(self) -> bool {
        unique_keys(self@)
    }

    /// An empty mapping.
    pub fn new() -> (m: FieldMapping)
        ensures
            m@ == Seq::<(Seq<char>, usize)>::empty(),
            m.wf(),
    {
        let m = FieldMapping { entries: Vec::new() };
        proof {
            assert(m@ =~= Seq::<(Seq<char>, usize)>::empty());
        }
        m
    }

    pub fn len(&self) -> (n: usize)
        ensures
            n == self@.len(),
    {
        self.entries.len()
    }

    pub fn is_empty(&self) -> (b: bool)
        ensures
            b == (self@.len() == 0),
    {
        self.entries.is_empty()
    }

    /// The first index holding `key`, scanning from the front.
    fn find(&self, key: &String) -> (r: Option<usize>)
        ensures
            match r {
                Some(i) => find_key(self@, key@) == i as int,
                None => find_key(self@, key@) == -1,
            },
    {
        let n = self.entries.len();
        let mut i: usize = 0;
        while i < n
            invariant
                i <= n,
                n == self@.len(),
                forall|j: int| 0 <= j < i ==> self@[j].0 != key@,
            decreases n - i,
        {
            if self.entries[i].0 == *key {
                proof {
                    lemma_find_key_found(self@, key@, i as int);
                }
                return Some(i);
            }
            i += 1;
        }
        proof {
            lemma_find_key_none(self@, key@);
        }
        None
    }

    /// Maps `key` to `col`, replacing any earlier entry for `key`.
    pub fn insert(&mut self, key: String, col: usize)
        ensures
            final(self)@ == insert_entry(old(self)@, key@, col),
            old(self).wf() ==> final(self).wf(),
    {
        proof {
            lemma_find_key_in_range(self@, key@);
            if old(self).wf() {
                lemma_insert_entry_unique(self@, key@, col);
            }
        }
        let found = self.find(&key);
        let ghost k = key@;
        match found {
            Some(i) => {
                proof {
                    assert(find_key(old(self)@, k) != -1);
                    assert(i as int == find_key(old(self)@, k));
                    assert(insert_entry(old(self)@, k, col) == old(self)@.update(
                        i as int,
                        (k, col),
                    ));
                }
                self.entries.remove(i);
                self.entries.insert(i, (key, col));
                proof {
                    assert(self@ =~~= old(self)@.update(i as int, (k, col)));
                    assert(self@ == insert_entry(old(self)@, k, col));
                }
            },
            None => {
                self.entries.push((key, col));
                proof {
                    assert(self@ =~~= old(self)@.push((k, col)));
                    assert(self@ == insert_entry(old(self)@, k, col));
                }
            },
        }
    }

    /// The column mapped to `key`, if any.
    pub fn get(&self, key: &str) -> (r: Option<usize>)
        ensures
            r == spec_get(self@, key@),
    {
        proof {
            lemma_find_key_in_range(self@, key@);
        }
        let owned = key.to_owned();
        match self.find(&owned) {
            Some(i) => {
                assert(self@[i as int].1 == self.entries.deep_view()[i as int].1);
                Some(self.entries[i].1)
            },
            None => None,
        }
    }

    /// The entries ordered by ascending column, ties kept in insertion
    /// order.
    pub fn by_column(&self) -> (sorted: Vec<(String, usize)>)
        ensures
            sorted.deep_view() == sort_by_col(self@),
    {
        let n = self.entries.len();
        let mut sorted: Vec<(String, usize)> = Vec::new();
        let mut i: usize = 0;
        proof {
            assert(self@.take(0) =~= Seq::<(Seq<char>, usize)>::empty());
            assert(sorted.deep_view() =~= Seq::<(Seq<char>, usize)>::empty());
        }
        while i < n
            invariant
                i <= n,
                n == self@.len(),
                sorted.deep_view() == sort_by_col(self@.take(i as int)),
            decreases n - i,
        {
            let key = self.entries[i].0.clone();
            let col = self.entries[i].1;
            let mut j = sorted.len();
            while j > 0 && sorted[j - 1].1 > col
                invariant
                    j <= sorted.len(),
                    forall|k: int| j <= k < sorted@.len() ==> sorted.deep_view()[k].1 > col,
                decreases j,
            {
                j -= 1;
            }
            proof {
                lemma_insert_by_col_at(sorted.deep_view(), (key@, col), j as int);
                assert(self@.take(i as int + 1).drop_last() =~= self@.take(i as int));
                assert(self@.take(i as int + 1).last() == self@[i as int]);
            }
            sorted.insert(j, (key, col));
            proof {
                assert(sorted.deep_view() =~~= sort_by_col(self@.take(i as int + 1)));
            }
            i += 1;
        }
        proof {
            assert(self@.take(n as int) =~= self@);
        }
        sorted
    }
}

/// The position of the first header cell equal to `name`, or `-1` when
/// no cell matches.
pub open spec fn first_match(headers: Seq<Seq<char>>, name: Seq<char>) -> int
    decreases headers.len(),
{
    if headers.len() == 0 {
        -1
    } else if headers[0] == name {
        0
    } else {
        let r = first_match(headers.drop_first(), name);
        if r == -1 {
            -1
        } else {
            r + 1
        }
    }
}

pub proof fn lemma_first_match_found(headers: Seq<Seq<char>>, name: Seq<char>, i: int)
    requires
        0 <= i < headers.len(),
        headers[i] == name,
        forall|j: int| 0 <= j < i ==> headers[j] != name,
    ensures
        first_match(headers, name) == i,
    decreases i,
{
    if i == 0 {
    } else {
        lemma_first_match_found(headers.drop_first(), name, i - 1);
    }
}

pub proof fn lemma_first_match_none(headers: Seq<Seq<char>>, name: Seq<char>)
    requires
        forall|j: int| 0 <= j < headers.len() ==> headers[j] != name,
    ensures
        first_match(headers, name) == -1,
    decreases headers.len(),
{
    if headers.len() == 0 {
    } else {
        lemma_first_match_none(headers.drop_first(), name);
    }
}

/// The mapping built without a header: every path is mapped, in input
/// order, to its own position.
pub open spec fn headerless_map(fields: Seq<Seq<char>>) -> Seq<(Seq<char>, usize)>
    decreases fields.len(),
{
    if fields.len() == 0 {
        Seq::<(Seq<char>, usize)>::empty()
    } else {
        insert_entry(headerless_map(fields.drop_last()), fields.last(), (fields.len() - 1) as usize)
    }
}

/// The mapping built against a header row: each path whose leaf name
/// appears in the header is mapped to the first matching cell.
pub open spec fn header_map(fields: Seq<Seq<char>>, headers: Seq<Seq<char>>) -> Seq<
    (Seq<char>, usize),
>
    decreases fields.len(),
{
    if fields.len() == 0 {
        Seq::<(Seq<char>, usize)>::empty()
    } else {
        let m = header_map(fields.drop_last(), headers);
        let pos = first_match(headers, leaf_of(fields.last()));
        if pos == -1 {
            m
        } else {
            insert_entry(m, fields.last(), pos as usize)
        }
    }
}

/// The paths whose leaf name appears nowhere in the header, in input
/// order.
pub open spec fn header_invalids(fields: Seq<Seq<char>>, headers: Seq<Seq<char>>) -> Seq<Seq<char>>
    decreases fields.len(),
{
    if fields.len() == 0 {
        Seq::<Seq<char>>::empty()
    } else {
        let r = header_invalids(fields.drop_last(), headers);
        if first_match(headers, leaf_of(fields.last())) == -1 {
            r.push(fields.last())
        } else {
            r
        }
    }
}

/// What mapping the paths onto columns yields: positional with no
/// header, by leaf name against the header otherwise.
pub open spec fn map_columns_spec(fields: Seq<Seq<char>>, headers: Seq<Seq<char>>) -> Seq<
    (Seq<char>, usize),
> {
    if headers.len() == 0 {
        headerless_map(fields)
    } else {
        header_map(fields, headers)
    }
}

/// Which paths the mapping reports as invalid: none with no header.
pub open spec fn invalid_fields_spec(
    fields: Seq<Seq<char>>,
    headers: Seq<Seq<char>>,
) -> Seq<Seq<char>> {
    if headers.len() == 0 {
        Seq::<Seq<char>>::empty()
    } else {
        header_invalids(fields, headers)
    }
}

/// With no header and pairwise distinct paths, the mapping is the
/// order-preserving bijection from the paths onto `0 .. n-1`: path `i`
/// is mapped to column `i`, and nothing else is mapped.
pub proof fn lemma_headerless_bijection(fields: Seq<Seq<char>>)
    requires
        forall|i: int, j: int| 0 <= i < j < fields.len() ==> fields[i] != fields[j],
    ensures
        headerless_map(fields).len() == fields.len(),
        forall|i: int|
            0 <= i < fields.len() ==> headerless_map(fields)[i] == (fields[i], i as usize),
    decreases fields.len(),
{
    if fields.len() == 0 {
    } else {
        let pre = fields.drop_last();
        lemma_headerless_bijection(pre);
        let m = headerless_map(pre);
        assert forall|j: int| 0 <= j < m.len() implies m[j].0 != fields.last() by {
            assert(m[j] == (pre[j], j as usize));
            assert(pre[j] == fields[j]);
        }
        lemma_find_key_none(m, fields.last());
        assert(headerless_map(fields) == m.push((fields.last(), (fields.len() - 1) as usize)));
    }
}

/// `e` placed after every entry whose column is not greater, so that an
/// earlier entry with the same column stays first.
pub open spec fn insert_by_col(
    e: (Seq<char>, usize),
    s: Seq<(Seq<char>, usize)>,
) -> Seq<(Seq<char>, usize)>
    decreases s.len(),
{
    if s.len() == 0 {
        seq![e]
    } else if s.last().1 <= e.1 {
        s.push(e)
    } else {
        insert_by_col(e, s.drop_last()).push(s.last())
    }
}

/// The entries ordered by ascending column; entries with equal columns
/// keep their relative order.
pub open spec fn sort_by_col(s: Seq<(Seq<char>, usize)>) -> Seq<(Seq<char>, usize)>
    decreases s.len(),
{
    if s.len() == 0 {
        Seq::<(Seq<char>, usize)>::empty()
    } else {
        insert_by_col(s.last(), sort_by_col(s.drop_last()))
    }
}

/// Inserting `e` at the position found by scanning back over the
/// entries with greater columns is the ordered insertion.
proof fn lemma_insert_by_col_at(s: Seq<(Seq<char>, usize)>, e: (Seq<char>, usize), j: int)
    requires
        0 <= j <= s.len(),
        forall|k: int| j <= k < s.len() ==> s[k].1 > e.1,
        j > 0 ==> s[j - 1].1 <= e.1,
    ensures
        insert_by_col(e, s) == s.insert(j, e),
    decreases s.len(),
{
    if j == s.len() {
        if s.len() == 0 {
            assert(insert_by_col(e, s) =~= s.insert(j, e));
        } else {
            assert(s.push(e) =~= s.insert(j, e));
        }
    } else {
        assert(s[s.len() - 1].1 > e.1);
        lemma_insert_by_col_at(s.drop_last(), e, j);
        assert(s.drop_last().insert(j, e).push(s.last()) =~= s.insert(j, e));
    }
}

} // verus!
