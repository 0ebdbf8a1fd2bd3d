//! Tables with aligned columns.
use crate::text::{append_padded, concat, law_concat_keeps_order, lemma_concat_push, pad_end, texts};
use vstd::prelude::*;
use vstd::string::*;

verus! {

/// One line of a table: a mark before it, which is not part of a column, and
/// its cells.
pub struct TableLine {
    pub mark: String,
    pub cells: Vec<String>,
}

#[verifier::ext_equal]
pub ghost struct LineView {
    pub mark: Seq<char>,
    pub cells: Seq<Seq<char>>,
}

impl View for TableLine {
    type V = LineView;

    open spec fn view(&self) -> LineView {
        LineView { mark: self.mark@, cells: texts(self.cells@) }
    }
}

pub open spec fn line_views(lines: Seq<TableLine>) -> Seq<LineView> {
    lines.map_values(|l: TableLine| l@)
}

/// The width of a column: that of its widest cell.
pub open spec fn column_width(lines: Seq<LineView>, c: int) -> nat
    decreases lines.len(),
{
    if lines.len() == 0 {
        0
    } else {
        let before = column_width(lines.drop_last(), c);
        let own = lines.last().cells[c].len();
        if before < own {
            own
        } else {
            before
        }
    }
}

/// The first `n` cells, each filled up to the width of its column and followed
/// by two spaces.
pub open spec fn padded_cells(lines: Seq<LineView>, cells: Seq<Seq<char>>, n: nat) -> Seq<char>
    decreases n,
{
    if n == 0 {
        Seq::empty()
    } else {
        padded_cells(lines, cells, (n - 1) as nat) + pad_end(
            cells[n - 1],
            column_width(lines, n - 1) as int,
        ) + "  "@
    }
}

/// A line as it is written: its mark, its cells in their columns, and the last
/// cell as it is.
pub open spec fn line_text(lines: Seq<LineView>, line: LineView) -> Seq<char> {
    line.mark + padded_cells(lines, line.cells, (line.cells.len() - 1) as nat) + line.cells.last()
        + "\n"@
}

/// The lines as a table.
pub open spec fn table_text(lines: Seq<LineView>) -> Seq<char> {
    concat(lines.map_values(|l: LineView| line_text(lines, l)))
}

/// Every line has `n` cells.
pub open spec fn is_table(lines: Seq<LineView>, n: nat) -> bool {
    n > 0 && forall|i: int| 0 <= i < lines.len() ==> (#[trigger] lines[i]).cells.len() == n
}

fn widths_of(lines: &Vec<TableLine>, n: usize) -> (r: Vec<usize>)
    requires
        is_table(line_views(lines@), n as nat),
    ensures
        r.len() == n,
        forall|c: int| 0 <= c < n ==> (#[trigger] r@[c]) == column_width(line_views(lines@), c),
{
    let ghost views = line_views(lines@);
    let mut out: Vec<usize> = Vec::new();
    let mut c: usize = 0;
    while c < n
        invariant
            c <= n,
            views == line_views(lines@),
            is_table(views, n as nat),
            out.len() == c,
            forall|k: int| 0 <= k < c ==> (#[trigger] out@[k]) == column_width(views, k),
        decreases n - c,
    {
        let mut width: usize = 0;
        let mut i: usize = 0;
        while i < lines.len()
            invariant
                c < n,
                i <= lines.len(),
                views == line_views(lines@),
                is_table(views, n as nat),
                width == column_width(views.take(i as int), c as int),
            decreases lines.len() - i,
        {
            assert(views.take(i + 1).drop_last() =~= views.take(i as int));
            assert(views[i as int].cells.len() == n);
            assert(views[i as int] == lines@[i as int]@);
            let own: usize = lines[i].cells[c].as_str().unicode_len();
            if width < own {
                width = own;
            }
            i += 1;
        }
        assert(views.take(i as int) =~= views);
        out.push(width);
        c += 1;
    }
    out
}

/// Writes the lines as a table of `n` columns.
pub fn render_table(lines: &Vec<TableLine>, n: usize) -> (r: String)
    requires
        is_table(line_views(lines@), n as nat),
    ensures
        r@ == table_text(line_views(lines@)),
{
    let ghost views = line_views(lines@);
    let widths = widths_of(lines, n);
    let ghost written = views.map_values(|l: LineView| line_text(views, l));
    let mut out = String::new();
    let mut i: usize = 0;
    assert(out@ =~= concat(written.take(0)));
    while i < lines.len()
        invariant
            i <= lines.len(),
            views == line_views(lines@),
            is_table(views, n as nat),
            widths.len() == n,
            forall|c: int| 0 <= c < n ==> (#[trigger] widths@[c]) == column_width(views, c),
            written == views.map_values(|l: LineView| line_text(views, l)),
            out@ == concat(written.take(i as int)),
        decreases lines.len() - i,
    {
        let line = &lines[i];
        assert(views[i as int] == line@);
        assert(views[i as int].cells.len() == n);
        let mut body = String::new();
        let mut c: usize = 0;
        assert(body@ =~= padded_cells(views, line@.cells, 0));
        while c < n - 1
            invariant
                c <= n - 1,
                n == line.cells.len(),
                widths.len() == n,
                forall|k: int| 0 <= k < n ==> (#[trigger] widths@[k]) == column_width(views, k),
                body@ == padded_cells(views, line@.cells, c as nat),
            decreases n - c,
        {
            append_padded(&mut body, line.cells[c].as_str(), widths[c]);
            body.append("  ");
            c += 1;
        }
        let mut text = line.mark.clone();
        text.append(body.as_str());
        text.append(line.cells[n - 1].as_str());
        text.append("\n");
        assert(text@ == line_text(views, line@));
        assert(written[i as int] == text@);
        proof {
            lemma_concat_push(written.take(i as int), text@);
            assert(written.take(i + 1) =~= written.take(i as int).push(text@));
        }
        out.append(text.as_str());
        i += 1;
    }
    assert(written.take(i as int) =~= written);
    out
}

// ---- what a table guarantees ------------------------------------------------

/// Where a column starts.
pub open spec fn column_start(lines: Seq<LineView>, c: nat) -> nat
    decreases c,
{
    if c == 0 {
        0
    } else {
        column_start(lines, (c - 1) as nat) + column_width(lines, c - 1) + 2
    }
}

proof fn lemma_width_covers(lines: Seq<LineView>, i: int, c: int)
    requires
        0 <= i < lines.len(),
    ensures
        lines[i].cells[c].len() <= column_width(lines, c),
    decreases lines.len(),
{
    if i < lines.len() - 1 {
        lemma_width_covers(lines.drop_last(), i, c);
    }
}

proof fn lemma_padded_len(lines: Seq<LineView>, i: int, n: nat)
    requires
        0 <= i < lines.len(),
        n <= lines[i].cells.len(),
    ensures
        padded_cells(lines, lines[i].cells, n).len() == column_start(lines, n),
    decreases n,
{
    if n > 0 {
        reveal_strlit("  ");
        lemma_padded_len(lines, i, (n - 1) as nat);
        lemma_width_covers(lines, i, n - 1);
    }
}

/// In every line a cell stands at the start of its column, which is the same
/// for all lines; marks stand before the first column.
pub proof fn law_columns_are_aligned(lines: Seq<LineView>, n: nat, i: int, c: nat)
    requires
        is_table(lines, n),
        0 <= i < lines.len(),
        c < n,
    ensures
        ({
            let start = lines[i].mark.len() + column_start(lines, c);
            let cell = lines[i].cells[c as int];
            start + cell.len() <= line_text(lines, lines[i]).len() && line_text(
                lines,
                lines[i],
            ).subrange(start as int, (start + cell.len()) as int) == cell
        }),
{
    let line = lines[i];
    let cells = line.cells;
    let body = padded_cells(lines, cells, (n - 1) as nat);
    let text = line_text(lines, line);
    lemma_padded_len(lines, i, c);
    lemma_padded_len(lines, i, (n - 1) as nat);
    let start = (line.mark.len() + column_start(lines, c)) as int;
    let cell = cells[c as int];
    if c == n - 1 {
        assert(text.subrange(start, start + cell.len()) =~= cell);
    } else {
        lemma_cell_in_body(lines, i, (n - 1) as nat, c);
        assert(text.subrange(start, start + cell.len()) =~= body.subrange(
            column_start(lines, c) as int,
            column_start(lines, c) as int + cell.len(),
        ));
    }
}

proof fn lemma_cell_in_body(lines: Seq<LineView>, i: int, m: nat, c: nat)
    requires
        0 <= i < lines.len(),
        c < m <= lines[i].cells.len(),
    ensures
        column_start(lines, c) + lines[i].cells[c as int].len() <= padded_cells(
            lines,
            lines[i].cells,
            m,
        ).len(),
        padded_cells(lines, lines[i].cells, m).subrange(
            column_start(lines, c) as int,
            column_start(lines, c) as int + lines[i].cells[c as int].len(),
        ) == lines[i].cells[c as int],
    decreases m,
{
    let cells = lines[i].cells;
    let cell = cells[c as int];
    let start = column_start(lines, c) as int;
    let body = padded_cells(lines, cells, m);
    let head = padded_cells(lines, cells, (m - 1) as nat);
    lemma_padded_len(lines, i, (m - 1) as nat);
    lemma_width_covers(lines, i, m - 1);
    if c == m - 1 {
        assert(body.subrange(start, start + cell.len()) =~= cell);
    } else {
        lemma_cell_in_body(lines, i, (m - 1) as nat, c);
        assert(body.subrange(start, start + cell.len()) =~= head.subrange(
            start,
            start + cell.len(),
        ));
    }
}

/// The table is its lines, one behind the other in their order. Each begins with its mark
/// and ends in its last cell and a line feed.
pub proof fn law_table_is_its_lines(lines: Seq<LineView>, i: int)
    requires
        0 <= i < lines.len(),
    ensures
        ({
            let text = |l: LineView| line_text(lines, l);
            table_text(lines) == concat(lines.take(i).map_values(text)) + line_text(
                lines,
                lines[i],
            ) + concat(lines.skip(i + 1).map_values(text))
        }),
        lines[i].mark.is_prefix_of(line_text(lines, lines[i])),
        (lines[i].cells.last() + "\n"@).is_suffix_of(line_text(lines, lines[i])),
{
    let text = |l: LineView| line_text(lines, l);
    let front = lines.take(i).map_values(text);
    let one = seq![line_text(lines, lines[i])];
    let back = lines.skip(i + 1).map_values(text);
    assert(lines.map_values(text) =~= front + one + back);
    assert(front + one + back =~= front + (one + back));
    law_concat_keeps_order(front, one + back);
    law_concat_keeps_order(one, back);
    assert(table_text(lines) =~= concat(front) + line_text(lines, lines[i]) + concat(back));
    let own = line_text(lines, lines[i]);
    assert(own.take(lines[i].mark.len() as int) =~= lines[i].mark);
    let tail = lines[i].cells.last() + "\n"@;
    assert(own.skip(own.len() - tail.len()) =~= tail);
}

} // verus!
