//! Per-row conversion driving: shape checking, result accounting, and
//! output file naming.  The surrounding application schedules the row
//! tasks and performs the writes; everything it decides with is here.

use vstd::prelude::*;
use crate::mapping::FieldMapping;
use crate::md_gen::{generate_markdown, markdown_of};

verus! {

/// Why one row could not be rendered.
#[derive(Clone, Copy, Debug, PartialEq, Eq, Structural)]
pub enum RowError {
    /// The row's cell count does not equal the schema's field count.
    ShapeMismatch,
}

/// Renders one row, first checking its shape: a row converts only when
/// its cell count equals `expected_fields`, the full flattened field
/// count of the schema (not the mapping's size, which may be smaller
/// when some fields were invalid).
pub fn render_row(data_row: &Vec<String>, field_map: &FieldMapping, expected_fields: usize) -> (r:
    Result<String, RowError>)
    ensures
        match r {
            Ok(doc) => data_row@.len() == expected_fields && doc@ == markdown_of(
                data_row.deep_view(),
                field_map@,
            ),
            Err(e) => data_row@.len() != expected_fields && e == RowError::ShapeMismatch,
        },
{
    if data_row.len() != expected_fields {
        return Err(RowError::ShapeMismatch);
    }
    let mut doc = String::new();
    generate_markdown(data_row, field_map, &mut doc);
    Ok(doc)
}

/// The aggregate outcome of one conversion run: how many rows were
/// attempted, how many row tasks have completed, and which rows failed,
/// by original row index, in completion order.
pub struct ConversionResult {
    total: usize,
    completed: usize,
    failed: Vec<usize>,
}

impl ConversionResult {
    pub closed spec fn spec_total(self) -> usize {
        self.total
    }

    pub closed spec fn spec_completed(self) -> usize {
        self.completed
    }

    pub closed spec fn spec_failed(self) -> Seq<usize> {
        self.failed@
    }

    /// No more rows have completed than were attempted, and only
    /// completed rows can have failed.
    pub open spec fn wf(self) -> bool {
        self.spec_completed() <= self.spec_total() && self.spec_failed().len()
            <= self.spec_completed()
    }

    /// A fresh result for a run over `total` rows.
    pub fn new(total: usize) -> (r: ConversionResult)
        ensures
            r.spec_total() == total,
            r.spec_completed() == 0,
            r.spec_failed() == Seq::<usize>::empty(),
            r.wf(),
    {
        let r = ConversionResult { total, completed: 0, failed: Vec::new() };
        proof {
            assert(r.spec_failed() =~= Seq::<usize>::empty());
        }
        r
    }

    pub fn total(&self) -> (n: usize)
        ensures
            n == self.spec_total(),
    {
        self.total
    }

    pub fn completed(&self) -> (n: usize)
        ensures
            n == self.spec_completed(),
    {
        self.completed
    }

    pub fn failed(&self) -> (f: &Vec<usize>)
        ensures
            f@ == self.spec_failed(),
    {
        &self.failed
    }

    /// Records the outcome of the row task for row `idx`, exactly once
    /// per row: the completed count grows by one, and the row index is
    /// appended to the failed list exactly when the task failed.
    pub fn record_outcome(&mut self, idx: usize, ok: bool)
        requires
            old(self).wf(),
            old(self).spec_completed() < old(self).spec_total(),
        ensures
            final(self).spec_total() == old(self).spec_total(),
            final(self).spec_completed() == old(self).spec_completed() + 1,
            final(self).spec_failed() == if ok {
                old(self).spec_failed()
            } else {
                old(self).spec_failed().push(idx)
            },
            final(self).wf(),
    {
        self.completed = self.completed + 1;
        if !ok {
            self.failed.push(idx);
        }
    }

    /// The share of rows already completed, in whole percent.
    pub fn progress_percent(&self) -> (p: usize)
        requires
            self.wf(),
            self.spec_total() > 0,
        ensures
            p as int == self.spec_completed() as int * 100 / self.spec_total() as int,
    {
        let t: u128 = self.total as u128;
        let c: u128 = self.completed as u128;
        let p: u128 = c * 100 / t;
        proof {
            assert(p as int <= 100) by (nonlinear_arith)
                requires
                    p as int == (c as int * 100) / (t as int),
                    0 < t as int,
                    c as int <= t as int,
            ;
        }
        p as usize
    }

    /// Whether the run as a whole failed: there was nothing to convert,
    /// or every attempted row failed.
    pub fn run_failed(&self) -> (b: bool)
        ensures
            b == (self.spec_total() == 0 || self.spec_failed().len() == self.spec_total()),
    {
        self.total == 0 || self.failed.len() == self.total
    }
}

/// The decimal digit character for `d`.
pub open spec fn digit_char(d: nat) -> char {
    if d == 0 {
        '0'
    } else if d == 1 {
        '1'
    } else if d == 2 {
        '2'
    } else if d == 3 {
        '3'
    } else if d == 4 {
        '4'
    } else if d == 5 {
        '5'
    } else if d == 6 {
        '6'
    } else if d == 7 {
        '7'
    } else if d == 8 {
        '8'
    } else {
        '9'
    }
}

/// The decimal digits of `n`, most significant first, without leading
/// zeros (a single zero for 0).
pub open spec fn dec_digits(n: nat) -> Seq<char>
    decreases n,
{
    if n < 10 {
        seq![digit_char(n)]
    } else {
        dec_digits(n / 10).push(digit_char(n % 10))
    }
}

/// The decimal digits of `n`, left-padded with zeros to at least three
/// places.
pub open spec fn padded3(n: nat) -> Seq<char> {
    if n < 10 {
        "00"@ + dec_digits(n)
    } else if n < 100 {
        "0"@ + dec_digits(n)
    } else {
        dec_digits(n)
    }
}

fn append_digit(output: &mut String, d: usize)
    requires
        d < 10,
    ensures
        final(output)@ == old(output)@ + seq![digit_char(d as nat)],
{
    proof {
        reveal_strlit("0");
        reveal_strlit("1");
        reveal_strlit("2");
        reveal_strlit("3");
        reveal_strlit("4");
        reveal_strlit("5");
        reveal_strlit("6");
        reveal_strlit("7");
        reveal_strlit("8");
        reveal_strlit("9");
    }
    if d == 0 {
        output.append("0");
    } else if d == 1 {
        output.append("1");
    } else if d == 2 {
        output.append("2");
    } else if d == 3 {
        output.append("3");
    } else if d == 4 {
        output.append("4");
    } else if d == 5 {
        output.append("5");
    } else if d == 6 {
        output.append("6");
    } else if d == 7 {
        output.append("7");
    } else if d == 8 {
        output.append("8");
    } else {
        output.append("9");
    }
    proof {
        assert(final(output)@ =~= old(output)@ + seq![digit_char(d as nat)]);
    }
}

fn append_decimal(output: &mut String, n: usize)
    ensures
        final(output)@ == old(output)@ + dec_digits(n as nat),
    decreases n,
{
    if n < 10 {
        append_digit(output, n);
    } else {
        append_decimal(output, n / 10);
        append_digit(output, n % 10);
        proof {
            assert((old(output)@ + dec_digits(n as nat / 10)) + seq![
                digit_char(n as nat % 10),
            ] =~= old(output)@ + dec_digits(n as nat));
        }
    }
}

/// The name of the output file for row `idx`: the prefix, a dash, the
/// row index in at least three decimal places, and the Markdown suffix.
pub fn md_filename(prefix: &str, idx: usize) -> (name: String)
    ensures
        name@ == prefix@ + "-"@ + padded3(idx as nat) + ".md"@,
{
    let mut name = prefix.to_owned();
    name.append("-");
    let ghost before = name@;
    if idx < 10 {
        name.append("00");
    } else if idx < 100 {
        name.append("0");
    }
    append_decimal(&mut name, idx);
    proof {
        assert(name@ =~= (prefix@ + "-"@) + padded3(idx as nat));
    }
    name.append(".md");
    proof {
        assert(name@ =~= prefix@ + "-"@ + padded3(idx as nat) + ".md"@);
    }
    name
}

/// The full path of the output file for row `idx` below `dir`.
pub fn md_filepath(dir: &str, prefix: &str, idx: usize) -> (path: String)
    ensures
        path@ == dir@ + "/"@ + prefix@ + "-"@ + padded3(idx as nat) + ".md"@,
{
    let mut path = dir.to_owned();
    path.append("/");
    let name = md_filename(prefix, idx);
    path.append(name.as_str());
    proof {
        assert(path@ =~= dir@ + "/"@ + prefix@ + "-"@ + padded3(idx as nat) + ".md"@);
    }
    path
}

/// The failed-row list that recording the given outcomes in order
/// builds up, starting from an empty list.
pub open spec fn failed_after(outcomes: Seq<(usize, bool)>) -> Seq<usize>
    decreases outcomes.len(),
{
    if outcomes.len() == 0 {
        Seq::<usize>::empty()
    } else {
        let r = failed_after(outcomes.drop_last());
        if outcomes.last().1 {
            r
        } else {
            r.push(outcomes.last().0)
        }
    }
}

/// When every row task reports exactly one outcome, the failed list is
/// exactly the indices of the rows whose outcome was a failure, in
/// reporting order, and the completed count is the number of rows.
pub proof fn lemma_failed_are_exactly_failures(outcomes: Seq<(usize, bool)>)
    ensures
        failed_after(outcomes) == outcomes.filter(|o: (usize, bool)| !o.1).map_values(
            |o: (usize, bool)| o.0,
        ),
    decreases outcomes.len(),
{
    reveal(Seq::filter);
    let pred = |o: (usize, bool)| !o.1;
    let proj = |o: (usize, bool)| o.0;
    if outcomes.len() == 0 {
        assert(failed_after(outcomes) =~= outcomes.filter(pred).map_values(proj));
    } else {
        lemma_failed_are_exactly_failures(outcomes.drop_last());
        let prev = outcomes.drop_last();
        if outcomes.last().1 {
            assert(prev.filter(pred).map_values(proj) =~= outcomes.filter(pred).map_values(proj));
        } else {
            assert(outcomes.filter(pred) == prev.filter(pred).push(outcomes.last()));
            assert(prev.filter(pred).push(outcomes.last()).map_values(proj) =~= prev.filter(
                pred,
            ).map_values(proj).push(outcomes.last().0));
        }
    }
}

/// A row recorded once cannot appear twice: with pairwise distinct row
/// indices in the outcomes, the failed list holds pairwise distinct row
/// indices.
pub proof fn lemma_failed_rows_distinct(outcomes: Seq<(usize, bool)>)
    requires
        forall|i: int, j: int|
            0 <= i < j < outcomes.len() ==> outcomes[i].0 != outcomes[j].0,
    ensures
        forall|i: int, j: int|
            0 <= i < j < failed_after(outcomes).len() ==> failed_after(outcomes)[i]
                != failed_after(outcomes)[j],
        forall|j: int|
            0 <= j < failed_after(outcomes).len() ==> exists|i: int|
                0 <= i < outcomes.len() && outcomes[i] == (#[trigger] failed_after(outcomes)[j], false),
    decreases outcomes.len(),
{
    if outcomes.len() == 0 {
    } else {
        let prev = outcomes.drop_last();
        lemma_failed_rows_distinct(prev);
        assert forall|j: int| 0 <= j < failed_after(outcomes).len() implies exists|i: int|
            0 <= i < outcomes.len() && outcomes[i] == (#[trigger] failed_after(outcomes)[j], false) by {
            if j < failed_after(prev).len() {
                let i = choose|i: int|
                    0 <= i < prev.len() && prev[i] == (failed_after(prev)[j], false);
                assert(outcomes[i] == (failed_after(outcomes)[j], false));
            } else {
                assert(outcomes[outcomes.len() - 1] == (failed_after(outcomes)[j], false));
            }
        }
        if !outcomes.last().1 {
            assert forall|i: int, j: int|
                0 <= i < j < failed_after(outcomes).len() implies failed_after(outcomes)[i]
                != failed_after(outcomes)[j] by {
                if j == failed_after(outcomes).len() - 1 {
                    let w = choose|w: int|
                        0 <= w < prev.len() && prev[w] == (failed_after(prev)[i], false);
                    assert(outcomes[w].0 == failed_after(outcomes)[i]);
                    assert(outcomes[outcomes.len() - 1].0 == failed_after(outcomes)[j]);
                }
            }
        }
    }
}

} // verus!
