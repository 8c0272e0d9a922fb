//! Splitting one line of comma-separated text into its cells.
//!
//! A line is read from left to right in one of two states, outside or inside
//! a quoted field. Two double quotes in a row stand for one literal double
//! quote; a single double quote switches the state and is dropped; a comma
//! outside a quoted field ends the cell; every other character belongs to the
//! cell it stands in.

use vstd::prelude::*;
use crate::text::{chars_of, extend_first};

verus! {

/// The line holds two double quotes in a row at `i` and `i + 1`.
pub open spec fn is_escaped_quote(line: Seq<char>, i: int) -> bool {
    &&& 0 <= i
    &&& i + 1 < line.len()
    &&& line[i] == '"'
    &&& line[i + 1] == '"'
}

/// The cells that `line` encodes from position `i` on, when the characters
/// before `i` have left the reader inside (`quoted`) or outside a quoted
/// field. The first cell of the result is the rest of the cell that was open
/// at `i`.
pub open spec fn cells_from(line: Seq<char>, i: int, quoted: bool) -> Seq<Seq<char>>
    decreases line.len() - i,
{
    if i < 0 || i >= line.len() {
        seq![Seq::<char>::empty()]
    } else if is_escaped_quote(line, i) {
        extend_first('"', cells_from(line, i + 2, quoted))
    } else if line[i] == '"' {
        cells_from(line, i + 1, !quoted)
    } else if line[i] == ',' && !quoted {
        seq![Seq::<char>::empty()] + cells_from(line, i + 1, false)
    } else {
        extend_first(line[i], cells_from(line, i + 1, quoted))
    }
}

/// The cells that a whole line encodes.
pub open spec fn split_cells(line: Seq<char>) -> Seq<Seq<char>> {
    cells_from(line, 0, false)
}

/// What a reader holds part way through a line, put together with what is
/// still to come: the cells already closed, then the open cell continued by
/// the first cell of `rest`, then the other cells of `rest`.
spec fn joined(done: Seq<Seq<char>>, open: Seq<char>, rest: Seq<Seq<char>>) -> Seq<
    Seq<char>,
> {
    done.push(open + rest[0]) + rest.skip(1)
}

/// A line always encodes at least one cell.
pub proof fn lemma_cells_from_nonempty(line: Seq<char>, i: int, quoted: bool)
    ensures
        cells_from(line, i, quoted).len() >= 1,
    decreases line.len() - i,
{
    if i < 0 || i >= line.len() {
    } else if is_escaped_quote(line, i) {
        lemma_cells_from_nonempty(line, i + 2, quoted);
    } else if line[i] == '"' {
        lemma_cells_from_nonempty(line, i + 1, !quoted);
    } else if line[i] == ',' && !quoted {
        lemma_cells_from_nonempty(line, i + 1, false);
    } else {
        lemma_cells_from_nonempty(line, i + 1, quoted);
    }
}

/// `line` holds no double quote.
pub open spec fn quote_free(line: Seq<char>) -> bool {
    forall|i: int| 0 <= i < line.len() ==> #[trigger] line[i] != '"'
}

/// `line` holds no comma.
pub open spec fn comma_free(line: Seq<char>) -> bool {
    forall|i: int| 0 <= i < line.len() ==> #[trigger] line[i] != ','
}

/// Inside or outside a quoted field, text without quotes and commas goes
/// into the open cell as it is.
proof fn lemma_plain_rest(line: Seq<char>, i: int, quoted: bool)
    requires
        0 <= i <= line.len(),
        quote_free(line),
        comma_free(line),
    ensures
        cells_from(line, i, quoted) == seq![line.skip(i)],
    decreases line.len() - i,
{
    if i == line.len() {
        assert(line.skip(i) =~= Seq::<char>::empty());
    } else {
        lemma_plain_rest(line, i + 1, quoted);
        assert(seq![line[i]] + line.skip(i + 1) =~= line.skip(i));
        assert(extend_first(line[i], seq![line.skip(i + 1)]) =~= seq![line.skip(i)]);
    }
}

/// A line without quotes and commas is one cell, the line itself.
pub proof fn lemma_plain_line_is_one_cell(line: Seq<char>)
    requires
        quote_free(line),
        comma_free(line),
    ensures
        split_cells(line) == seq![line],
{
    lemma_plain_rest(line, 0, false);
    assert(line.skip(0) =~= line);
}

/// What is read from position `k` on depends on the text from `k` on and on
/// the state at `k`, not on the text before it.
proof fn lemma_cells_from_suffix(line: Seq<char>, k: int, tail: Seq<char>, j: int, quoted: bool)
    requires
        0 <= k <= line.len(),
        line.skip(k) == tail,
        0 <= j <= tail.len(),
    ensures
        cells_from(line, k + j, quoted) == cells_from(tail, j, quoted),
    decreases tail.len() - j,
{
    if j < tail.len() {
        assert(line[k + j] == tail[j]);
        if j + 1 < tail.len() {
            assert(line[k + j + 1] == tail[j + 1]);
        }
        assert(is_escaped_quote(line, k + j) == is_escaped_quote(tail, j));
        if is_escaped_quote(tail, j) {
            lemma_cells_from_suffix(line, k, tail, j + 2, quoted);
        } else if tail[j] == '"' {
            lemma_cells_from_suffix(line, k, tail, j + 1, !quoted);
        } else if tail[j] == ',' && !quoted {
            lemma_cells_from_suffix(line, k, tail, j + 1, false);
        } else {
            lemma_cells_from_suffix(line, k, tail, j + 1, quoted);
        }
    }
}

/// The statement of `lemma_comma_splits`, from any position before the comma.
proof fn lemma_comma_splits_from(head: Seq<char>, tail: Seq<char>, i: int)
    requires
        quote_free(head),
        0 <= i <= head.len(),
    ensures
        cells_from(head + seq![','] + tail, i, false) == cells_from(head, i, false) + split_cells(
            tail,
        ),
    decreases head.len() - i,
{
    let line = head + seq![','] + tail;
    if i == head.len() {
        assert(line[i] == ',');
        assert(line.skip(i + 1) =~= tail);
        lemma_cells_from_suffix(line, i + 1, tail, 0, false);
    } else {
        assert(line[i] == head[i]);
        assert(!is_escaped_quote(line, i));
        assert(!is_escaped_quote(head, i));
        lemma_comma_splits_from(head, tail, i + 1);
        lemma_cells_from_nonempty(head, i + 1, false);
        let rest = cells_from(head, i + 1, false);
        let after = split_cells(tail);
        if head[i] == ',' {
            assert(seq![Seq::<char>::empty()] + (rest + after) =~= (seq![Seq::<char>::empty()]
                + rest) + after);
        } else {
            assert(extend_first(head[i], rest + after) =~= extend_first(head[i], rest) + after);
        }
    }
}

/// A comma after text without quotes ends a cell: the cells of the whole
/// line are those of the text before the comma and then those of the text
/// after it.
pub proof fn lemma_comma_splits(head: Seq<char>, tail: Seq<char>)
    requires
        quote_free(head),
    ensures
        split_cells(head + seq![','] + tail) == split_cells(head) + split_cells(tail),
{
    lemma_comma_splits_from(head, tail, 0);
}

/// Inside the quotes, every character of the field goes into the one cell.
proof fn lemma_quoted_rest(body: Seq<char>, i: int)
    requires
        quote_free(body),
        0 <= i <= body.len(),
    ensures
        cells_from(seq!['"'] + body + seq!['"'], i + 1, true) == seq![body.skip(i)],
    decreases body.len() - i,
{
    let line = seq!['"'] + body + seq!['"'];
    if i == body.len() {
        assert(line[i + 1] == '"');
        assert(!is_escaped_quote(line, i + 1));
        assert(cells_from(line, i + 2, false) == seq![Seq::<char>::empty()]);
        assert(body.skip(i) =~= Seq::<char>::empty());
    } else {
        assert(line[i + 1] == body[i]);
        assert(!is_escaped_quote(line, i + 1));
        lemma_quoted_rest(body, i + 1);
        assert(seq![body[i]] + body.skip(i + 1) =~= body.skip(i));
        assert(extend_first(body[i], seq![body.skip(i + 1)]) =~= seq![body.skip(i)]);
    }
}

/// A field between two quotes is one cell, commas and all, without the
/// quotes. The field must hold a character: two quotes with nothing between
/// them stand for one literal quote.
pub proof fn lemma_quoted_field_is_one_cell(body: Seq<char>)
    requires
        quote_free(body),
        body.len() > 0,
    ensures
        split_cells(seq!['"'] + body + seq!['"']) == seq![body],
{
    let line = seq!['"'] + body + seq!['"'];
    assert(line[0] == '"');
    assert(line[1] == body[0]);
    assert(!is_escaped_quote(line, 0));
    lemma_quoted_rest(body, 0);
    assert(body.skip(0) =~= body);
}

/// Appending `c` to the open cell is the same as putting it in front of what
/// is still to come.
proof fn lemma_joined_extend(done: Seq<Seq<char>>, open: Seq<char>, c: char, rest: Seq<Seq<char>>)
    requires
        rest.len() >= 1,
    ensures
        joined(done, open.push(c), rest) == joined(done, open, extend_first(c, rest)),
{
    assert(open.push(c) + rest[0] =~= open + (seq![c] + rest[0]));
    assert(extend_first(c, rest).skip(1) =~= rest.skip(1));
}

/// Closing the open cell is the same as an empty cell in front of what is
/// still to come.
proof fn lemma_joined_close(done: Seq<Seq<char>>, open: Seq<char>, rest: Seq<Seq<char>>)
    requires
        rest.len() >= 1,
    ensures
        joined(done.push(open), Seq::<char>::empty(), rest) == joined(
            done,
            open,
            seq![Seq::<char>::empty()] + rest,
        ),
{
    let shifted = seq![Seq::<char>::empty()] + rest;
    assert(open + shifted[0] =~= open);
    assert(Seq::<char>::empty() + rest[0] =~= rest[0]);
    assert(shifted.skip(1) =~= rest);
    assert(done.push(open).push(rest[0]) + rest.skip(1) =~= done.push(open) + rest);
}

/// Splits one line of comma-separated text into its cells.
///
/// Commas inside a quoted field do not split, the quotes that bound a field
/// are dropped, and two double quotes in a row give one literal double quote.
/// A quote that is never closed runs to the end of the line.
pub fn process_csv_line(txt: &str) -> (cells: Vec<String>)
    ensures
        cells.deep_view() == split_cells(txt@),
        cells.len() >= 1,
{
    let line = chars_of(txt);
    let mut cells: Vec<String> = Vec::new();
    let mut cell = String::new();
    let mut quoted = false;
    let mut i: usize = 0;
    proof {
        lemma_cells_from_nonempty(line@, 0, false);
        let rest = cells_from(line@, 0, false);
        assert(joined(cells.deep_view(), cell@, rest) =~= rest);
    }
    while i < line.len()
        invariant
            line@ == txt@,
            i <= line.len(),
            joined(cells.deep_view(), cell@, cells_from(line@, i as int, quoted)) == split_cells(
                txt@,
            ),
        decreases line.len() - i,
    {
        let c = line[i];
        let ghost done = cells.deep_view();
        let ghost open = cell@;
        if c == '"' && i + 1 < line.len() && line[i + 1] == '"' {
            proof {
                lemma_cells_from_nonempty(line@, i + 2, quoted);
                lemma_joined_extend(done, open, '"', cells_from(line@, i + 2, quoted));
            }
            cell.push('"');
            i += 2;
        } else if c == '"' {
            quoted = !quoted;
            i += 1;
        } else if c == ',' && !quoted {
            proof {
                lemma_cells_from_nonempty(line@, i + 1, false);
                lemma_joined_close(done, open, cells_from(line@, i + 1, false));
                assert(cells.deep_view().push(open) =~= done.push(open));
            }
            cells.push(cell);
            cell = String::new();
            i += 1;
            assert(cells.deep_view() =~= done.push(open));
        } else {
            proof {
                lemma_cells_from_nonempty(line@, i + 1, quoted);
                lemma_joined_extend(done, open, c, cells_from(line@, i + 1, quoted));
            }
            cell.push(c);
            i += 1;
        }
    }
    proof {
        let done = cells.deep_view();
        assert(joined(done, cell@, cells_from(line@, i as int, quoted)) =~= done.push(cell@));
    }
    let ghost done = cells.deep_view();
    cells.push(cell);
    assert(cells.deep_view() =~= done.push(cell@));
    cells
}

} // verus!
