//! The table extractor: a line-by-line scan of the report text that
//! detects the variable table behind its header line, parses each
//! candidate row, and stops once a long run of blank lines shows the
//! table is over.

use vstd::prelude::*;
use crate::row::{parse_row_spec, Row, RowV};
use crate::text::{spec_lines, spec_tokens, split_lines, str_eq, tokenize};

verus! {

/// The scanner's state between lines.
pub struct ScanState {
    /// Whether a header line has been passed.
    pub found: bool,
    /// How many consecutive blank lines are running.
    pub blank_run: nat,
    /// Whether the blank-run threshold ended the scan.
    pub done: bool,
    /// The descriptors collected so far.
    pub rows: Seq<RowV>,
}

/// The state the scan starts from.
pub open spec fn init_state() -> ScanState {
    ScanState { found: false, blank_run: 0, done: false, rows: seq![] }
}

/// Whether a tokenized line is a header line: some token is the
/// literal `Variable` or `#`.
pub open spec fn is_header(toks: Seq<Seq<char>>) -> bool {
    exists|k: int| 0 <= k < toks.len() && (toks[k] == "Variable"@ || toks[k] == "#"@)
}

/// One line's effect on the scanner. A header line only marks the
/// table as found. Otherwise the blank run grows on a blank line and
/// resets on any other; past ten running blanks the scan is done; a
/// line of five to nine tokens after the header contributes its
/// descriptor, if it parses as one.
pub open spec fn scan_step(st: ScanState, line: Seq<char>) -> ScanState {
    if st.done {
        st
    } else {
        let toks = spec_tokens(line);
        if is_header(toks) {
            ScanState { found: true, ..st }
        } else {
            let br: nat = if toks.len() == 0 {
                st.blank_run + 1
            } else {
                0
            };
            if br > 10 {
                ScanState { blank_run: br, done: true, ..st }
            } else if st.found && 4 < toks.len() < 10 {
                match parse_row_spec(toks) {
                    Some(rv) => ScanState { blank_run: br, rows: st.rows.push(rv), ..st },
                    None => ScanState { blank_run: br, ..st },
                }
            } else {
                ScanState { blank_run: br, ..st }
            }
        }
    }
}

/// The state after the lines from index `i` on have been scanned,
/// starting from `st`.
pub open spec fn scan_from(st: ScanState, lines: Seq<Seq<char>>, i: int) -> ScanState
    decreases lines.len() - i,
{
    if i < 0 || i >= lines.len() {
        st
    } else {
        scan_from(scan_step(st, lines[i]), lines, i + 1)
    }
}

/// The descriptors the whole report text yields.
pub open spec fn spec_extract(text: Seq<char>) -> Seq<RowV> {
    scan_from(init_state(), spec_lines(text), 0).rows
}

/// A finished scan stays as it is: once `done` holds, later lines have
/// no effect.
pub proof fn lemma_scan_done(st: ScanState, lines: Seq<Seq<char>>, i: int)
    requires
        st.done,
    ensures
        scan_from(st, lines, i) == st,
    decreases lines.len() - i,
{
    if 0 <= i < lines.len() {
        lemma_scan_done(st, lines, i + 1);
    }
}

/// While no header line has been seen, the scan collects nothing.
pub proof fn lemma_scan_no_header(st: ScanState, lines: Seq<Seq<char>>, i: int)
    requires
        !st.found,
        forall|j: int| i <= j < lines.len() ==> !is_header(spec_tokens(#[trigger] lines[j])),
    ensures
        scan_from(st, lines, i).rows == st.rows,
    decreases lines.len() - i,
{
    if 0 <= i < lines.len() {
        lemma_scan_no_header(scan_step(st, lines[i]), lines, i + 1);
    }
}

/// A report whose text holds no header marker yields no descriptors.
pub proof fn lemma_no_header_empty(text: Seq<char>)
    requires
        forall|j: int|
            0 <= j < spec_lines(text).len() ==> !is_header(
                spec_tokens(#[trigger] spec_lines(text)[j]),
            ),
    ensures
        spec_extract(text) == Seq::<RowV>::empty(),
{
    lemma_scan_no_header(init_state(), spec_lines(text), 0);
}

/// A line of fewer than four or more than nine tokens never
/// contributes a descriptor, whatever the scanner's state.
pub proof fn lemma_token_window(st: ScanState, line: Seq<char>)
    requires
        spec_tokens(line).len() < 4 || spec_tokens(line).len() > 9,
    ensures
        scan_step(st, line).rows == st.rows,
{
}

/// Extraction is a pure function of the report text: equal texts yield
/// equal descriptor sequences.
pub proof fn lemma_extract_deterministic(a: Seq<char>, b: Seq<char>)
    requires
        a == b,
    ensures
        spec_extract(a) == spec_extract(b),
{
}

/// A non-blank line that does not parse as a row is dropped without
/// ending the scan: the collected descriptors and the `done` flag are
/// unchanged, so later valid rows are still taken.
pub proof fn lemma_bad_row_skipped(st: ScanState, line: Seq<char>)
    requires
        spec_tokens(line).len() > 0,
        parse_row_spec(spec_tokens(line)) is None,
    ensures
        scan_step(st, line).rows == st.rows,
        scan_step(st, line).done == st.done,
{
}

/// Whether some token of `toks` is one of the two header markers.
fn has_header_token(toks: &Vec<&str>) -> (b: bool)
    ensures
        b == is_header(toks.deep_view()),
{
    let n = toks.len();
    for k in 0..n
        invariant
            n == toks.len(),
            forall|j: int|
                0 <= j < k ==> !(toks.deep_view()[j] == "Variable"@ || toks.deep_view()[j]
                    == "#"@),
    {
        if str_eq(toks[k], "Variable") || str_eq(toks[k], "#") {
            proof {
                assert(toks.deep_view()[k as int] == "Variable"@ || toks.deep_view()[k as int]
                    == "#"@);
            }
            return true;
        }
    }
    false
}

/// Scans the report text and collects the descriptors of the variable
/// table, as [`spec_extract`] says.
pub fn find_table<'a>(contents: &'a str) -> (r: Vec<Row>)
    ensures
        r.deep_view() == spec_extract(contents@),
        forall|i: int| 0 <= i < r.len() ==> (#[trigger] r[i]@).wf(),
{
    let lines = split_lines(contents);
    let ghost gl = spec_lines(contents@);
    let mut results: Vec<Row> = Vec::new();
    let mut found_table = false;
    let mut blank_run: u8 = 0;
    proof {
        assert(results.deep_view() =~= Seq::<RowV>::empty());
        assert(init_state() == ScanState {
            found: false,
            blank_run: 0,
            done: false,
            rows: results.deep_view(),
        });
    }
    let n = lines.len();
    for i in 0..n
        invariant
            n == lines.len(),
            lines.deep_view() == gl,
            gl == spec_lines(contents@),
            blank_run <= 10,
            scan_from(init_state(), gl, 0) == scan_from(
                ScanState {
                    found: found_table,
                    blank_run: blank_run as nat,
                    done: false,
                    rows: results.deep_view(),
                },
                gl,
                i as int,
            ),
            forall|j: int| 0 <= j < results.len() ==> (#[trigger] results[j]@).wf(),
    {
        let ghost st = ScanState {
            found: found_table,
            blank_run: blank_run as nat,
            done: false,
            rows: results.deep_view(),
        };
        let toks = tokenize(lines[i]);
        proof {
            assert(lines[i as int]@ == gl[i as int]);
            assert(toks.deep_view() == spec_tokens(gl[i as int]));
        }
        if has_header_token(&toks) {
            found_table = true;
            proof {
                assert(scan_step(st, gl[i as int]) == ScanState { found: true, ..st });
            }
        } else {
            if toks.len() == 0 {
                blank_run += 1;
            } else {
                blank_run = 0;
            }
            if blank_run > 10 {
                proof {
                    let stepped = scan_step(st, gl[i as int]);
                    assert(stepped == ScanState { blank_run: blank_run as nat, done: true, ..st });
                    lemma_scan_done(stepped, gl, i + 1);
                    assert(results.deep_view() == spec_extract(contents@));
                }
                return results;
            }
            if found_table && toks.len() > 4 && toks.len() < 10 {
                let ghost gtoks = toks.deep_view();
                match Row::new(toks) {
                    Ok(row) => {
                        results.push(row);
                        proof {
                            assert(results.deep_view() =~= st.rows.push(
                                parse_row_spec(gtoks)->Some_0,
                            ));
                            assert(scan_step(st, gl[i as int]) == ScanState {
                                blank_run: blank_run as nat,
                                rows: results.deep_view(),
                                ..st
                            });
                        }
                    },
                    Err(_) => {
                        proof {
                            assert(scan_step(st, gl[i as int]) == ScanState {
                                blank_run: blank_run as nat,
                                ..st
                            });
                        }
                    },
                }
            } else {
                proof {
                    assert(scan_step(st, gl[i as int]) == ScanState {
                        blank_run: blank_run as nat,
                        ..st
                    });
                }
            }
        }
    }
    proof {
        assert(results.deep_view() == spec_extract(contents@));
    }
    results
}

} // verus!
