//! Document buffer: a rope of characters paired with an
//! order-statistic tree of per-line lengths, so that edits addressed
//! by (row, column) translate to absolute positions in O(log n).
//!
//! Line terminators are `\n`, `\r\n` and bare `\r`; a `\n` directly
//! after `\r` extends the `\r`'s line, every other occurrence ends
//! its line. Each stored line length includes its terminator.

use crate::agg_avl_tree::seq_sum;
use crate::agg_avl_tree::AggAvlTree;
use crate::error::DocumentError;
use crate::rope::remove_range;
use crate::rope::Rope;
use vstd::pervasive::unreached;
use vstd::prelude::*;
use vstd::string::*;

verus! {

/// Per-line lengths of `s` continued from a line already `curr`
/// characters long, where `prev_cr` records whether the previous
/// character was a carriage return.
pub open spec fn lls(s: Seq<char>, curr: usize, prev_cr: bool) -> Seq<usize>
    decreases s.len(),
{
    if s.len() == 0 {
        if prev_cr {
            seq![curr, 0]
        } else {
            seq![curr]
        }
    } else {
        let c = s[0];
        if c == '\n' {
            seq![(curr + 1) as usize] + lls(s.drop_first(), 0, false)
        } else if prev_cr {
            seq![curr] + lls(s.drop_first(), 1, c == '\r')
        } else {
            lls(s.drop_first(), (curr + 1) as usize, c == '\r')
        }
    }
}

/// The lengths of the lines of `s`, in order, terminators included.
/// There is always at least one entry; a trailing terminator yields a
/// final empty line.
pub open spec fn line_lengths(s: Seq<char>) -> Seq<usize> {
    lls(s, 0, false)
}

/// The lengths sum to the number of characters.
proof fn lemma_lls_sum(s: Seq<char>, curr: usize, prev_cr: bool)
    requires
        curr + s.len() <= usize::MAX,
    ensures
        seq_sum(lls(s, curr, prev_cr)) == curr + s.len(),
        lls(s, curr, prev_cr).len() >= 1,
    decreases s.len(),
{
    crate::agg_avl_tree::lemma_seq_sum_singleton(curr);
    crate::agg_avl_tree::lemma_seq_sum_singleton(0);
    if s.len() == 0 {
        if prev_cr {
            assert(seq![curr, 0] =~= seq![curr] + seq![0usize]);
            crate::agg_avl_tree::lemma_seq_sum_concat(seq![curr], seq![0usize]);
        }
    } else {
        let c = s[0];
        if c == '\n' {
            lemma_lls_sum(s.drop_first(), 0, false);
            crate::agg_avl_tree::lemma_seq_sum_singleton((curr + 1) as usize);
            crate::agg_avl_tree::lemma_seq_sum_concat(
                seq![(curr + 1) as usize],
                lls(s.drop_first(), 0, false),
            );
        } else if prev_cr {
            lemma_lls_sum(s.drop_first(), 1, c == '\r');
            crate::agg_avl_tree::lemma_seq_sum_concat(
                seq![curr],
                lls(s.drop_first(), 1, c == '\r'),
            );
        } else {
            lemma_lls_sum(s.drop_first(), (curr + 1) as usize, c == '\r');
        }
    }
}

pub proof fn lemma_line_lengths_sum(s: Seq<char>)
    requires
        s.len() <= usize::MAX,
    ensures
        seq_sum(line_lengths(s)) == s.len(),
        line_lengths(s).len() >= 1,
{
    lemma_lls_sum(s, 0, false);
}

/// Copies the characters of a string slice into a vector.
pub fn chars_to_vec(s: &str) -> (v: Vec<char>)
    ensures
        v@ == s@,
{
    let n = s.unicode_len();
    let mut v: Vec<char> = Vec::new();
    let mut i: usize = 0;
    while i < n
        invariant
            i <= n,
            n == s@.len(),
            v@ == s@.subrange(0, i as int),
        decreases n - i,
    {
        let c = s.get_char(i);
        v.push(c);
        proof {
            assert(s@.subrange(0, i as int) + seq![s@[i as int]] =~= s@.subrange(0, i + 1));
        }
        i = i + 1;
    }
    proof {
        assert(s@.subrange(0, n as int) =~= s@);
    }
    v
}

/// Computes the per-line lengths of a chunk of text, following the
/// `\n` / `\r\n` / `\r` terminator rules.
pub fn get_line_lengths(chars: &Vec<char>) -> (rv: Vec<usize>)
    ensures
        rv@ == line_lengths(chars@),
{
    let n = chars.len();
    let mut rv: Vec<usize> = Vec::new();
    let mut curr: usize = 0;
    let mut prev_carriage_return = false;
    let mut i: usize = 0;
    proof {
        assert(chars@.skip(0) =~= chars@);
        assert(Seq::<usize>::empty() + line_lengths(chars@) =~= line_lengths(chars@));
    }
    while i < n
        invariant
            i <= n,
            n == chars@.len(),
            curr <= i,
            rv@ + lls(chars@.skip(i as int), curr, prev_carriage_return) == line_lengths(chars@),
        decreases n - i,
    {
        proof {
            assert(chars@.skip(i as int).drop_first() =~= chars@.skip(i + 1));
            assert(chars@.skip(i as int)[0] == chars@[i as int]);
        }
        let x = chars[i];
        if x == '\n' {
            curr = curr + 1;
            rv.push(curr);
            proof {
                assert(rv@ + lls(chars@.skip(i + 1), 0, false) =~= line_lengths(chars@));
            }
            curr = 0;
        } else if prev_carriage_return {
            rv.push(curr);
            proof {
                assert(rv@ + lls(chars@.skip(i + 1), 1, x == '\r') =~= line_lengths(chars@));
            }
            curr = 1;
        } else {
            curr = curr + 1;
        }
        prev_carriage_return = x == '\r';
        i = i + 1;
    }
    proof {
        assert(chars@.skip(n as int) =~= Seq::<char>::empty());
    }
    if prev_carriage_return {
        rv.push(curr);
        proof {
            assert((rv@ + seq![0usize]) =~= line_lengths(chars@));
        }
        curr = 0;
    }
    rv.push(curr);
    proof {
        assert(rv@ =~= line_lengths(chars@));
    }
    rv
}

/// The absolute position of editor coordinate (`row`, `col`) given
/// the per-line lengths `rows`: the characters of all earlier rows,
/// plus the column.
pub open spec fn abs_index(rows: Seq<usize>, row: int, col: int) -> int {
    seq_sum(rows.take(row)) + col
}

/// The per-line lengths after inserting text whose own line lengths
/// are `lines` at (`row`, `col`). A single-line insertion lengthens
/// the row; a multi-line one splits it, keeping the prefix with the
/// first new line and giving the suffix to the last.
pub open spec fn split_rows(rows: Seq<usize>, row: int, col: int, lines: Seq<usize>) -> Seq<
    usize,
> {
    if lines.len() == 1 {
        rows.update(row, (rows[row] + lines[0]) as usize)
    } else {
        rows.take(row) + seq![(col + lines[0]) as usize] + lines.subrange(1, lines.len() - 1)
            + seq![(rows[row] - col + lines[lines.len() - 1]) as usize] + rows.skip(row + 1)
    }
}

/// The per-line lengths after deleting everything between
/// (`start_row`, `start_col`) and (`end_row`, `end_col`): the rows in
/// between disappear and the two boundary rows merge, keeping the
/// prefix of the first and the suffix of the last.
pub open spec fn merge_rows(
    rows: Seq<usize>,
    start_row: int,
    start_col: int,
    end_row: int,
    end_col: int,
) -> Seq<usize> {
    rows.take(start_row) + seq![(start_col + rows[end_row] - end_col) as usize] + rows.skip(
        end_row + 1,
    )
}

/// In-memory state of one open document: the text as a rope of
/// characters, and the per-line lengths in an order-statistic tree
/// whose prefix sums translate (row, column) to absolute positions.
pub struct DocumentBuffer {
    row_tree: AggAvlTree,
    text: Rope<char>,
}

impl View for DocumentBuffer {
    type V = Seq<char>;

    /// The document text.
    closed spec fn view(&self) -> Seq<char> {
        self.text@
    }
}

impl DocumentBuffer {
    /// The stored per-line lengths, in row order.
    pub closed spec fn rows(self) -> Seq<usize> {
        self.row_tree@
    }

    /// Structural invariant: both trees are well formed and the line
    /// lengths sum to the text length.
    pub closed spec fn wf(self) -> bool {
        &&& self.row_tree.wf()
        &&& self.text.wf()
        &&& seq_sum(self.rows()) == self@.len()
    }

    /// In every well-formed buffer the per-line lengths account for
    /// the whole text, no matter what edits produced it.
    pub proof fn lemma_rows_sum(self)
        requires
            self.wf(),
        ensures
            seq_sum(self.rows()) == self@.len(),
    {
    }

    pub fn new() -> (d: Self)
        ensures
            d.wf(),
            d@ == Seq::<char>::empty(),
            d.rows() == Seq::<usize>::empty(),
    {
        DocumentBuffer { row_tree: AggAvlTree::new(), text: Rope::new() }
    }

    /// Builds a buffer from a full text snapshot.
    pub fn from_string(text: String) -> (d: Self)
        ensures
            d.wf(),
            d@ == text@,
            d.rows() == line_lengths(text@),
    {
        let char_vec = chars_to_vec(text.as_str());
        let total = char_vec.len();
        proof {
            lemma_line_lengths_sum(char_vec@);
        }
        let row_counts = get_line_lengths(&char_vec);
        let text = Rope::from_document(char_vec);
        let row_tree = AggAvlTree::from_vec(row_counts);
        DocumentBuffer { text, row_tree }
    }

    /// Inserts `text` at editor coordinate (`row`, `col`), splitting
    /// or lengthening the affected line as the terminators inside
    /// `text` dictate. Into an empty buffer only (0, 0) is accepted;
    /// otherwise the row must exist and the column must not pass the
    /// end of its line.
    #[verifier::rlimit(100)]
    pub fn insert_text(&mut self, text: &str, row_col: (usize, usize)) -> (res: Result<
        (),
        DocumentError,
    >)
        requires
            old(self).wf(),
            old(self)@.len() + text@.len() <= usize::MAX,
            old(self).rows().len() + line_lengths(text@).len() <= usize::MAX,
        ensures
            final(self).wf(),
            ({
                let rows = old(self).rows();
                let cs = old(self)@;
                let lines = line_lengths(text@);
                let row = row_col.0;
                let col = row_col.1;
                let unchanged = *final(self) == *old(self);
                let spliced = cs.take(abs_index(rows, row as int, col as int)) + text@ + cs.skip(
                    abs_index(rows, row as int, col as int),
                );
                if rows.len() == 0 {
                    if row == 0 && col == 0 {
                        res is Ok && final(self)@ == text@ && final(self).rows() == lines
                    } else {
                        res == Err::<(), DocumentError>(DocumentError::IndexOutOfBounds)
                            && unchanged
                    }
                } else if row >= rows.len() {
                    res == Err::<(), DocumentError>(DocumentError::RowOutOfBounds) && unchanged
                } else if col > rows[row as int] {
                    res == Err::<(), DocumentError>(DocumentError::ColOutOfBounds) && unchanged
                } else {
                    res is Ok && final(self)@ == spliced && final(self).rows() == split_rows(
                        rows,
                        row as int,
                        col as int,
                        lines,
                    )
                }
            }),
    {
        let (row, col) = row_col;
        let ghost rows0 = self.rows();
        let ghost cs0 = self@;
        let char_vec = chars_to_vec(text);
        let tlen = char_vec.len();
        proof {
            lemma_line_lengths_sum(char_vec@);
        }
        let ghost lines = line_lengths(text@);
        if self.row_tree.is_empty() {
            if row != 0 || col != 0 {
                return Err(DocumentError::IndexOutOfBounds);
            }
            let row_counts = get_line_lengths(&char_vec);
            let n = row_counts.len();
            let mut i: usize = 0;
            while i < n
                invariant
                    i <= n,
                    n == lines.len(),
                    row_counts@ == lines,
                    seq_sum(lines) == tlen,
                    tlen <= usize::MAX,
                    n <= usize::MAX,
                    self.row_tree.wf(),
                    self.row_tree@ == lines.subrange(0, i as int),
                    self.text == old(self).text,
                decreases n - i,
            {
                proof {
                    crate::agg_avl_tree::lemma_seq_sum_subrange_bound(lines, 0, i + 1);
                    crate::agg_avl_tree::lemma_seq_sum_subrange_split(lines, 0, i as int, i + 1);
                    assert(lines.subrange(i as int, i + 1) =~= seq![lines[i as int]]);
                    crate::agg_avl_tree::lemma_seq_sum_singleton(lines[i as int]);
                }
                self.row_tree.insert_back(row_counts[i]);
                proof {
                    assert(self.row_tree@ =~= lines.subrange(0, i + 1));
                }
                i = i + 1;
            }
            proof {
                assert(lines.subrange(0, n as int) =~= lines);
            }
            match self.text.insert(char_vec, 0) {
                Ok(_) => {},
                Err(_) => unreached(),
            }
            proof {
                assert(self@ =~= text@);
            }
            return Ok(());
        }
        let curr_row_size = match self.row_tree.get(row) {
            Some(x) => x,
            None => {
                return Err(DocumentError::RowOutOfBounds);
            },
        };
        if curr_row_size < col {
            return Err(DocumentError::ColOutOfBounds);
        }
        let suffix_size = curr_row_size - col;
        let row_counts = get_line_lengths(&char_vec);
        let n = row_counts.len();
        let ghost nL = lines.len() as int;
        proof {
            // The first and last new line lengths are bounded by the
            // inserted text, and the affected row by the whole sum.
            crate::agg_avl_tree::lemma_seq_sum_subrange_split(lines, 0, 1, nL);
            assert(lines.subrange(0, 1) =~= seq![lines[0]]);
            crate::agg_avl_tree::lemma_seq_sum_singleton(lines[0]);
            crate::agg_avl_tree::lemma_seq_sum_subrange_bound(lines, 1, nL);
            crate::agg_avl_tree::lemma_seq_sum_subrange_split(rows0, 0, row as int, row + 1);
            crate::agg_avl_tree::lemma_seq_sum_subrange_split(rows0, 0, row + 1, rows0.len() as int);
            assert(rows0.subrange(0, rows0.len() as int) =~= rows0);
            assert(rows0.subrange(row as int, row + 1) =~= seq![rows0[row as int]]);
            crate::agg_avl_tree::lemma_seq_sum_singleton(rows0[row as int]);
            crate::agg_avl_tree::lemma_seq_sum_subrange_bound(rows0, 0, row as int);
            crate::agg_avl_tree::lemma_seq_sum_subrange_bound(rows0, row + 1, rows0.len() as int);
        }
        let first_count = row_counts[0];
        match self.row_tree.update(row, col + first_count) {
            Ok(_) => {},
            Err(_) => unreached(),
        }
        let ghost rows1 = rows0.update(row as int, (col + first_count) as usize);
        if n >= 2 {
            let last_count = row_counts[n - 1];
            proof {
                crate::agg_avl_tree::lemma_seq_sum_subrange_split(lines, 1, nL - 1, nL);
                assert(lines.subrange(nL - 1, nL) =~= seq![lines[nL - 1]]);
                crate::agg_avl_tree::lemma_seq_sum_singleton(lines[nL - 1]);
                crate::agg_avl_tree::lemma_seq_sum_subrange_bound(lines, 1, nL - 1);
                crate::agg_avl_tree::lemma_seq_sum_update(rows0, row as int, (col
                    + first_count) as usize);
            }
            self.row_tree.insert(row + 1, suffix_size + last_count);
            proof {
                assert(self.row_tree@ =~= rows0.take(row as int) + seq![(col + first_count) as usize]
                    + lines.subrange(nL - 1, nL - 1) + seq![(suffix_size + last_count) as usize]
                    + rows0.skip(row + 1));
            }
            let mut k = n - 1;
            while k > 1
                invariant
                    1 <= k <= n - 1,
                    n == nL,
                    nL == lines.len(),
                    nL >= 2,
                    row_counts@ == lines,
                    rows0.len() + nL <= usize::MAX,
                    row < rows0.len(),
                    col <= rows0[row as int],
                    suffix_size == rows0[row as int] - col,
                    first_count == lines[0],
                    last_count == lines[nL - 1],
                    seq_sum(lines) == tlen,
                    seq_sum(rows0) == cs0.len(),
                    cs0.len() + tlen <= usize::MAX,
                    self.row_tree.wf(),
                    self.row_tree@ == rows0.take(row as int) + seq![(col + first_count) as usize]
                        + lines.subrange(k as int, nL - 1) + seq![(suffix_size
                        + last_count) as usize] + rows0.skip(row + 1),
                    self.text == old(self).text,
                decreases k,
            {
                k = k - 1;
                proof {
                    let cur = self.row_tree@;
                    crate::agg_avl_tree::lemma_seq_sum_concat(
                        rows0.take(row as int) + seq![(col + first_count) as usize]
                            + lines.subrange(k + 1, nL - 1) + seq![(suffix_size
                            + last_count) as usize],
                        rows0.skip(row + 1),
                    );
                    crate::agg_avl_tree::lemma_seq_sum_concat(
                        rows0.take(row as int) + seq![(col + first_count) as usize]
                            + lines.subrange(k + 1, nL - 1),
                        seq![(suffix_size + last_count) as usize],
                    );
                    crate::agg_avl_tree::lemma_seq_sum_concat(
                        rows0.take(row as int) + seq![(col + first_count) as usize],
                        lines.subrange(k + 1, nL - 1),
                    );
                    crate::agg_avl_tree::lemma_seq_sum_concat(
                        rows0.take(row as int),
                        seq![(col + first_count) as usize],
                    );
                    crate::agg_avl_tree::lemma_seq_sum_singleton((col + first_count) as usize);
                    crate::agg_avl_tree::lemma_seq_sum_singleton((suffix_size
                        + last_count) as usize);
                    crate::agg_avl_tree::lemma_seq_sum_subrange_bound(lines, k + 1, nL - 1);
                    crate::agg_avl_tree::lemma_seq_sum_subrange_split(lines, 1, k as int, k + 1);
                    crate::agg_avl_tree::lemma_seq_sum_subrange_split(lines, 1, k + 1, nL - 1);
                    crate::agg_avl_tree::lemma_seq_sum_subrange_bound(lines, 1, k as int);
                    assert(lines.subrange(k as int, k + 1) =~= seq![lines[k as int]]);
                    crate::agg_avl_tree::lemma_seq_sum_singleton(lines[k as int]);
                    crate::agg_avl_tree::lemma_seq_sum_subrange_split(lines, 0, 1, nL);
                    assert(lines.subrange(0, 1) =~= seq![lines[0]]);
                    crate::agg_avl_tree::lemma_seq_sum_singleton(lines[0]);
                    crate::agg_avl_tree::lemma_seq_sum_subrange_split(lines, 1, nL - 1, nL);
                    assert(lines.subrange(nL - 1, nL) =~= seq![lines[nL - 1]]);
                    crate::agg_avl_tree::lemma_seq_sum_singleton(lines[nL - 1]);
                    crate::agg_avl_tree::lemma_seq_sum_subrange_split(rows0, 0, row as int, row + 1);
                    crate::agg_avl_tree::lemma_seq_sum_subrange_split(
                        rows0,
                        0,
                        row + 1,
                        rows0.len() as int,
                    );
                    assert(rows0.subrange(0, rows0.len() as int) =~= rows0);
                    assert(rows0.subrange(row as int, row + 1) =~= seq![rows0[row as int]]);
                    crate::agg_avl_tree::lemma_seq_sum_singleton(rows0[row as int]);
                    crate::agg_avl_tree::lemma_seq_sum_subrange_bound(rows0, 0, row as int);
                    crate::agg_avl_tree::lemma_seq_sum_subrange_bound(
                        rows0,
                        row + 1,
                        rows0.len() as int,
                    );
                }
                self.row_tree.insert(row + 1, row_counts[k]);
                proof {
                    assert(self.row_tree@ =~= rows0.take(row as int) + seq![(col
                        + first_count) as usize] + lines.subrange(k as int, nL - 1) + seq![(
                    suffix_size + last_count) as usize] + rows0.skip(row + 1));
                }
            }
            proof {
                assert(self.row_tree@ =~= split_rows(rows0, row as int, col as int, lines));
                // Account for the new sum of line lengths.
                crate::agg_avl_tree::lemma_seq_sum_concat(
                    rows0.take(row as int) + seq![(col + first_count) as usize] + lines.subrange(
                        1,
                        nL - 1,
                    ) + seq![(suffix_size + last_count) as usize],
                    rows0.skip(row + 1),
                );
                crate::agg_avl_tree::lemma_seq_sum_concat(
                    rows0.take(row as int) + seq![(col + first_count) as usize] + lines.subrange(
                        1,
                        nL - 1,
                    ),
                    seq![(suffix_size + last_count) as usize],
                );
                crate::agg_avl_tree::lemma_seq_sum_concat(
                    rows0.take(row as int) + seq![(col + first_count) as usize],
                    lines.subrange(1, nL - 1),
                );
                crate::agg_avl_tree::lemma_seq_sum_concat(
                    rows0.take(row as int),
                    seq![(col + first_count) as usize],
                );
                crate::agg_avl_tree::lemma_seq_sum_singleton((col + first_count) as usize);
                crate::agg_avl_tree::lemma_seq_sum_singleton((suffix_size + last_count) as usize);
                assert(seq_sum(self.row_tree@) == cs0.len() + tlen);
            }
        } else {
            proof {
                crate::agg_avl_tree::lemma_seq_sum_update(rows0, row as int, (col
                    + first_count) as usize);
            }
            match self.row_tree.update(row, col + first_count + suffix_size) {
                Ok(_) => {},
                Err(_) => unreached(),
            }
            proof {
                crate::agg_avl_tree::lemma_seq_sum_update(rows1, row as int, (col + first_count
                    + suffix_size) as usize);
                assert(self.row_tree@ =~= split_rows(rows0, row as int, col as int, lines));
                assert(seq_sum(self.row_tree@) == cs0.len() + tlen);
            }
        }
        proof {
            assert(self.row_tree@.take(row as int) =~= rows0.take(row as int));
        }
        let idx = match self.row_tree.get_range(0, row) {
            Some(x) => x,
            None => 0,
        };
        proof {
            if row > 0 {
                assert(self.row_tree@.subrange(0, row as int) =~= rows0.take(row as int));
            } else {
                assert(rows0.take(0) =~= Seq::<usize>::empty());
            }
        }
        let idx = idx + col;
        match self.text.insert(char_vec, idx) {
            Ok(_) => {},
            Err(_) => unreached(),
        }
        Ok(())
    }

    /// Deletes the half-open range between editor coordinates
    /// (`start_row`, `start_col`) and (`end_row`, `end_col`). The
    /// start must name a position strictly inside its line; the end
    /// may also sit just past its line's last character, deleting up
    /// to the end of that line. The start may not come after the
    /// end.
    #[verifier::rlimit(100)]
    pub fn delete_range(
        &mut self,
        start_row_col: (usize, usize),
        end_row_col: (usize, usize),
    ) -> (res: Result<(), DocumentError>)
        requires
            old(self).wf(),
            start_row_col.0 < end_row_col.0 || (start_row_col.0 == end_row_col.0
                && start_row_col.1 <= end_row_col.1),
        ensures
            final(self).wf(),
            ({
                let rows = old(self).rows();
                let cs = old(self)@;
                let sr = start_row_col.0;
                let sc = start_row_col.1;
                let er = end_row_col.0;
                let ec = end_row_col.1;
                let unchanged = *final(self) == *old(self);
                if rows.len() == 0 {
                    if sr == 0 && sc == 0 && er == 0 && ec == 0 {
                        res is Ok && unchanged
                    } else {
                        res == Err::<(), DocumentError>(DocumentError::IndexOutOfBounds)
                            && unchanged
                    }
                } else if sr >= rows.len() {
                    res == Err::<(), DocumentError>(DocumentError::RowOutOfBounds) && unchanged
                } else if sc >= rows[sr as int] {
                    res == Err::<(), DocumentError>(DocumentError::ColOutOfBounds) && unchanged
                } else if er >= rows.len() {
                    res == Err::<(), DocumentError>(DocumentError::RowOutOfBounds) && unchanged
                } else if ec > rows[er as int] {
                    res == Err::<(), DocumentError>(DocumentError::ColOutOfBounds) && unchanged
                } else {
                    res is Ok && final(self)@ == remove_range(
                        cs,
                        abs_index(rows, sr as int, sc as int),
                        abs_index(rows, er as int, ec as int),
                    ) && final(self).rows() == merge_rows(
                        rows,
                        sr as int,
                        sc as int,
                        er as int,
                        ec as int,
                    )
                }
            }),
    {
        let (start_row, start_col) = start_row_col;
        let (end_row, end_col) = end_row_col;
        let ghost rows0 = self.rows();
        let ghost cs0 = self@;
        if self.row_tree.is_empty() {
            if start_row == 0 && start_col == 0 && end_row == 0 && end_col == 0 {
                return Ok(());
            }
            return Err(DocumentError::IndexOutOfBounds);
        }
        let total_len = self.text.len();
        let nrows = self.row_tree.len();
        let start_row_size = match self.row_tree.get(start_row) {
            Some(x) => x,
            None => {
                return Err(DocumentError::RowOutOfBounds);
            },
        };
        if start_col >= start_row_size {
            return Err(DocumentError::ColOutOfBounds);
        }
        proof {
            crate::agg_avl_tree::lemma_seq_sum_subrange_split(
                rows0,
                0,
                start_row as int,
                start_row + 1,
            );
            crate::agg_avl_tree::lemma_seq_sum_subrange_split(
                rows0,
                0,
                start_row + 1,
                rows0.len() as int,
            );
            assert(rows0.subrange(0, rows0.len() as int) =~= rows0);
            assert(rows0.subrange(start_row as int, start_row + 1) =~= seq![
                rows0[start_row as int],
            ]);
            crate::agg_avl_tree::lemma_seq_sum_singleton(rows0[start_row as int]);
            crate::agg_avl_tree::lemma_seq_sum_subrange_bound(rows0, 0, start_row as int);
            crate::agg_avl_tree::lemma_seq_sum_subrange_bound(
                rows0,
                start_row + 1,
                rows0.len() as int,
            );
            if start_row > 0 {
                assert(rows0.subrange(0, start_row as int) =~= rows0.take(start_row as int));
            } else {
                assert(rows0.take(0) =~= Seq::<usize>::empty());
            }
        }
        let start_idx = match self.row_tree.get_range(0, start_row) {
            Some(x) => x,
            None => 0,
        };
        let start_idx = start_idx + start_col;
        let end_row_size = match self.row_tree.get(end_row) {
            Some(x) => x,
            None => {
                return Err(DocumentError::RowOutOfBounds);
            },
        };
        if end_col > end_row_size {
            return Err(DocumentError::ColOutOfBounds);
        }
        proof {
            crate::agg_avl_tree::lemma_seq_sum_subrange_split(rows0, 0, end_row as int, end_row + 1);
            crate::agg_avl_tree::lemma_seq_sum_subrange_split(
                rows0,
                0,
                end_row + 1,
                rows0.len() as int,
            );
            assert(rows0.subrange(end_row as int, end_row + 1) =~= seq![rows0[end_row as int]]);
            crate::agg_avl_tree::lemma_seq_sum_singleton(rows0[end_row as int]);
            crate::agg_avl_tree::lemma_seq_sum_subrange_bound(rows0, 0, end_row as int);
            crate::agg_avl_tree::lemma_seq_sum_subrange_bound(rows0, end_row + 1, rows0.len() as int);
            crate::agg_avl_tree::lemma_seq_sum_subrange_split(
                rows0,
                0,
                start_row as int,
                end_row as int,
            );
            crate::agg_avl_tree::lemma_seq_sum_subrange_bound(rows0, start_row as int, end_row as int);
            crate::agg_avl_tree::lemma_seq_sum_subrange_split(
                rows0,
                start_row as int,
                start_row + 1,
                end_row + 1,
            );
            crate::agg_avl_tree::lemma_seq_sum_subrange_bound(rows0, start_row + 1, end_row + 1);
            if end_row > 0 {
                assert(rows0.subrange(0, end_row as int) =~= rows0.take(end_row as int));
            }
            if start_row < end_row {
                crate::agg_avl_tree::lemma_seq_sum_subrange_split(
                    rows0,
                    start_row as int,
                    start_row + 1,
                    end_row as int,
                );
                crate::agg_avl_tree::lemma_seq_sum_subrange_bound(
                    rows0,
                    start_row + 1,
                    end_row as int,
                );
            }
        }
        let end_idx = match self.row_tree.get_range(0, end_row) {
            Some(x) => x,
            None => 0,
        };
        let end_idx = end_idx + end_col;
        self.text.delete(start_idx, end_idx);
        let ghost text1 = self.text;
        let suffix_len = end_row_size - end_col;
        let ghost span = end_row - start_row;
        let mut j: usize = 0;
        while j < end_row - start_row
            invariant
                j <= span,
                span == end_row - start_row,
                start_row < rows0.len(),
                end_row < rows0.len(),
                rows0.len() <= usize::MAX,
                self.row_tree.wf(),
                self.row_tree@ == rows0.take(start_row + 1) + rows0.skip(start_row + 1 + j),
                self.text == text1,
            decreases span - j,
        {
            proof {
                assert(self.row_tree@.len() == rows0.len() - j);
                assert(self.row_tree@[start_row + 1] == rows0[start_row + 1 + j]);
            }
            match self.row_tree.delete(start_row + 1) {
                Ok(_) => {},
                Err(_) => unreached(),
            }
            proof {
                assert(self.row_tree@ =~= rows0.take(start_row + 1) + rows0.skip(
                    start_row + 1 + (j + 1),
                ));
            }
            j = j + 1;
        }
        proof {
            crate::agg_avl_tree::lemma_seq_sum_concat(
                rows0.take(start_row + 1),
                rows0.skip(start_row + 1 + span),
            );
            assert(rows0.take(start_row + 1) =~= rows0.subrange(0, start_row + 1));
            assert(rows0.skip(start_row + 1 + span) =~= rows0.subrange(
                end_row + 1,
                rows0.len() as int,
            ));
        }
        match self.row_tree.update(start_row, start_col + suffix_len) {
            Ok(_) => {},
            Err(_) => unreached(),
        }
        proof {
            crate::agg_avl_tree::lemma_seq_sum_update(
                rows0.take(start_row + 1) + rows0.skip(end_row + 1),
                start_row as int,
                (start_col + suffix_len) as usize,
            );
            assert(rows0.take(start_row + 1) + rows0.skip(end_row + 1) =~= rows0.subrange(
                0,
                start_row + 1,
            ) + rows0.subrange(end_row + 1, rows0.len() as int));
            assert(self.row_tree@ =~= merge_rows(
                rows0,
                start_row as int,
                start_col as int,
                end_row as int,
                end_col as int,
            ));
        }
        Ok(())
    }

    /// The number of characters held.
    pub fn len(&self) -> (n: usize)
        requires
            self.wf(),
        ensures
            n == self@.len(),
    {
        self.text.len()
    }

    /// The number of stored line-length entries.
    pub fn row_count(&self) -> (n: usize)
        requires
            self.wf(),
        ensures
            n == self.rows().len(),
    {
        self.row_tree.len()
    }

    /// A copy of the whole text, in order.
    pub fn iter(&self) -> (r: Vec<char>)
        requires
            self.wf(),
        ensures
            r@ == self@,
    {
        self.text.iter()
    }

    /// A copy of the characters at absolute positions `[start, end)`,
    /// both bounds clamped to the text length.
    pub fn iter_range(&self, start: usize, end: usize) -> (r: Vec<char>)
        requires
            self.wf(),
        ensures
            r@ == ({
                let hi = if end < self@.len() { end as int } else { self@.len() as int };
                let lo = if start < hi { start as int } else { hi };
                self@.subrange(lo, hi)
            }),
    {
        self.text.iter_range(start, end)
    }
}

} // verus!
