//! Rendering one row into a hierarchically headed Markdown document.

use vstd::prelude::*;
use crate::mapping::{sort_by_col, FieldMapping};
use crate::text::{join_dots, split_dots, split_dots_str};

verus! {

/// `n` ATX heading markers.
pub open spec fn hashes(n: int) -> Seq<char>
    decreases n,
{
    if n <= 0 {
        Seq::<char>::empty()
    } else {
        hashes(n - 1) + "#"@
    }
}

/// One heading block: markers for the segment's depth, a space, the
/// segment name, and a blank line.
pub open spec fn heading_block(depth: int, seg: Seq<char>) -> Seq<char> {
    hashes(depth) + " "@ + seg + "\n\n"@
}

/// The placeholder written when a mapped column lies outside the row.
pub open spec fn na_text() -> Seq<char> {
    "N/A"@
}

/// The cell at `col`, or the placeholder when the row is too short.
pub open spec fn content_of(row: Seq<Seq<char>>, col: usize) -> Seq<char> {
    if col < row.len() {
        row[col as int]
    } else {
        na_text()
    }
}

/// Whether the heading for dotted prefix `p` was already emitted.
pub open spec fn seen_has(seen: Seq<Seq<char>>, p: Seq<char>) -> bool {
    exists|i: int| 0 <= i < seen.len() && seen[i] == p
}

/// The headings owed for the first `k` segments of one path: a segment's
/// heading is emitted, at a level equal to its depth, exactly when its
/// dotted prefix has not headed an earlier block.
pub open spec fn render_segments(segs: Seq<Seq<char>>, seen: Seq<Seq<char>>, k: int) -> (
    Seq<char>,
    Seq<Seq<char>>,
)
    decreases k,
{
    if k <= 0 {
        (Seq::<char>::empty(), seen)
    } else {
        let prev = render_segments(segs, seen, k - 1);
        let prefix = join_dots(segs.take(k));
        if seen_has(prev.1, prefix) {
            prev
        } else {
            (prev.0 + heading_block(k, segs[k - 1]), prev.1.push(prefix))
        }
    }
}

/// The document for the given entries, in order: each path's owed
/// headings, then its cell content, each block closed by a blank line.
pub open spec fn render_entries(row: Seq<Seq<char>>, entries: Seq<(Seq<char>, usize)>) -> (
    Seq<char>,
    Seq<Seq<char>>,
)
    decreases entries.len(),
{
    if entries.len() == 0 {
        (Seq::<char>::empty(), Seq::<Seq<char>>::empty())
    } else {
        let prev = render_entries(row, entries.drop_last());
        let e = entries.last();
        let segs = split_dots(e.0);
        let r = render_segments(segs, prev.1, segs.len() as int);
        (prev.0 + r.0 + content_of(row, e.1) + "\n\n"@, r.1)
    }
}

/// The whole document for one row: the mapping's entries ordered by
/// ascending column, rendered in that order.
pub open spec fn markdown_of(row: Seq<Seq<char>>, entries: Seq<(Seq<char>, usize)>) -> Seq<char> {
    render_entries(row, sort_by_col(entries)).0
}

/// Rendering is a function of the row's cells and the mapping alone:
/// renders of identical inputs are byte-identical, however often they
/// are repeated.
pub proof fn lemma_render_deterministic(
    row1: Seq<Seq<char>>,
    row2: Seq<Seq<char>>,
    m1: Seq<(Seq<char>, usize)>,
    m2: Seq<(Seq<char>, usize)>,
)
    requires
        row1 == row2,
        m1 == m2,
    ensures
        markdown_of(row1, m1) == markdown_of(row2, m2),
{
}

/// Whether `v` holds a string equal to `s`.
fn contains_string(v: &Vec<String>, s: &String) -> (b: bool)
    ensures
        b == seen_has(v.deep_view(), s@),
{
    let n = v.len();
    let mut i: usize = 0;
    while i < n
        invariant
            i <= n,
            n == v@.len(),
            forall|j: int| 0 <= j < i ==> v.deep_view()[j] != s@,
        decreases n - i,
    {
        if v[i] == *s {
            assert(v.deep_view()[i as int] == s@);
            return true;
        }
        i += 1;
    }
    false
}

/// Appends to `output` the Markdown document for `data_row` under
/// `field_map`: fields in ascending column order, every distinct dotted
/// path prefix headed exactly once at a level equal to its depth, each
/// heading and content block followed by one blank line, and a cell
/// whose column lies outside the row rendered as the placeholder.
pub fn generate_markdown(data_row: &Vec<String>, field_map: &FieldMapping, output: &mut String)
    ensures
        final(output)@ == old(output)@ + markdown_of(data_row.deep_view(), field_map@),
{
    let ghost rv = data_row.deep_view();
    let sorted = field_map.by_column();
    let ghost sv = sorted.deep_view();
    let mut seen: Vec<String> = Vec::new();
    let n = sorted.len();
    let mut i: usize = 0;
    proof {
        assert(sv.take(0) =~= Seq::<(Seq<char>, usize)>::empty());
        assert(seen.deep_view() =~= Seq::<Seq<char>>::empty());
        assert(old(output)@ + render_entries(rv, sv.take(0)).0 =~= old(output)@);
    }
    while i < n
        invariant
            i <= n,
            n == sorted@.len(),
            rv == data_row.deep_view(),
            sv == sorted.deep_view(),
            output@ == old(output)@ + render_entries(rv, sv.take(i as int)).0,
            seen.deep_view() == render_entries(rv, sv.take(i as int)).1,
        decreases n - i,
    {
        let ghost pre = render_entries(rv, sv.take(i as int));
        let segs = split_dots_str(sorted[i].0.as_str());
        let ghost sgv = segs.deep_view();
        proof {
            assert(sorted@[i as int].0@ == sv[i as int].0);
            assert(sgv == split_dots(sv[i as int].0));
        }
        let m = segs.len();
        let mut path_str = String::new();
        let mut k: usize = 0;
        proof {
            assert(output@ =~= old(output)@ + pre.0 + render_segments(sgv, pre.1, 0).0);
        }
        while k < m
            invariant
                k <= m,
                m == segs@.len(),
                sgv == segs.deep_view(),
                k > 0 ==> path_str@ == join_dots(sgv.take(k as int)),
                k == 0 ==> path_str@ == Seq::<char>::empty(),
                output@ == old(output)@ + pre.0 + render_segments(sgv, pre.1, k as int).0,
                seen.deep_view() == render_segments(sgv, pre.1, k as int).1,
            decreases m - k,
        {
            if k > 0 {
                path_str.append(".");
            }
            path_str.append(segs[k].as_str());
            proof {
                assert(segs@[k as int]@ == sgv[k as int]);
                if k == 0 {
                    assert(sgv.take(1).len() == 1);
                    assert(sgv.take(1)[0] == sgv[0]);
                    assert(path_str@ == join_dots(sgv.take(1)));
                } else {
                    assert(sgv.take(k as int + 1).drop_last() =~= sgv.take(k as int));
                    assert(sgv.take(k as int + 1).last() == sgv[k as int]);
                    assert(path_str@ == join_dots(sgv.take(k as int + 1)));
                }
            }
            let ghost rs = render_segments(sgv, pre.1, k as int);
            let dup = contains_string(&seen, &path_str);
            if !dup {
                seen.push(path_str.clone());
                proof {
                    assert(seen.deep_view() =~~= rs.1.push(path_str@));
                }
                let ghost base = old(output)@ + pre.0 + rs.0;
                let depth = k + 1;
                let mut d: usize = 0;
                proof {
                    assert(output@ + hashes(0) =~= output@);
                    assert(output@ =~= base + hashes(0));
                }
                while d < depth
                    invariant
                        d <= depth,
                        output@ == base + hashes(d as int),
                    decreases depth - d,
                {
                    output.append("#");
                    proof {
                        assert((base + hashes(d as int)) + "#"@ =~= base + hashes(d as int + 1));
                    }
                    d += 1;
                }
                output.append(" ");
                output.append(segs[k].as_str());
                output.append("\n\n");
                proof {
                    assert(output@ =~= base + heading_block(k as int + 1, sgv[k as int]));
                    assert(output@ =~= old(output)@ + pre.0 + render_segments(
                        sgv,
                        pre.1,
                        k as int + 1,
                    ).0);
                }
            } else {
                proof {
                    assert(render_segments(sgv, pre.1, k as int + 1) == rs);
                }
            }
            k += 1;
        }
        let col = sorted[i].1;
        proof {
            assert(col == sv[i as int].1);
        }
        if col < data_row.len() {
            proof {
                assert(data_row@[col as int]@ == rv[col as int]);
            }
            output.append(data_row[col].as_str());
        } else {
            output.append("N/A");
        }
        output.append("\n\n");
        proof {
            assert(sv.take(i as int + 1).drop_last() =~= sv.take(i as int));
            assert(sv.take(i as int + 1).last() == sv[i as int]);
            assert(output@ =~= old(output)@ + render_entries(rv, sv.take(i as int + 1)).0);
        }
        i += 1;
    }
    proof {
        assert(sv.take(n as int) =~= sv);
    }
}

} // verus!
