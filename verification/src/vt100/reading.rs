//! What a screen reads as.
use crate::selection;
use crate::vt100::cell::Cell;
use crate::vt100::contents;
use crate::vt100::screen::RowView;
use vstd::prelude::*;

verus! {

/// The letters of cells, from left to right.
pub open spec fn all_letters(cells: Seq<Cell>) -> Seq<char>
    decreases cells.len(),
{
    if cells.len() == 0 {
        Seq::empty()
    } else {
        selection::letters(cells[0]) + all_letters(cells.skip(1))
    }
}

proof fn lemma_cells_text(a: Seq<Cell>, b: Seq<Cell>)
    ensures
        contents::cells_text(a + b) == contents::cells_text(a) + contents::cells_text(b),
    decreases b.len(),
{
    if b.len() == 0 {
        assert(a + b =~= a);
        assert(contents::cells_text(a) + contents::cells_text(b) =~= contents::cells_text(a));
    } else {
        assert((a + b).drop_last() =~= a + b.drop_last());
        lemma_cells_text(a, b.drop_last());
        assert(contents::cells_text(a + b) =~= contents::cells_text(a) + contents::cells_text(b));
    }
}

proof fn lemma_letters(cells: Seq<Cell>)
    ensures
        contents::cells_text(cells) == all_letters(cells),
    decreases cells.len(),
{
    if cells.len() > 0 {
        let one = seq![cells[0]];
        let rest = cells.skip(1);
        assert(cells =~= one + rest);
        lemma_cells_text(one, rest);
        lemma_letters(rest);
        assert(one.drop_last() =~= Seq::empty());
        assert(contents::cells_text(one.drop_last()) =~= Seq::empty());
        assert(one.last() == cells[0]);
        assert(contents::cells_text(one) =~= contents::cell_text(cells[0]));
        assert(contents::cell_text(cells[0]) =~= selection::letters(cells[0]));
    }
}

proof fn lemma_used(cells: Seq<Cell>, n: int)
    requires
        0 <= n <= cells.len(),
        n > 0 ==> cells[n - 1].glyph != '\0',
        forall|i: int| n <= i < cells.len() ==> (#[trigger] cells[i]).glyph == '\0',
    ensures
        contents::used_len(cells) == n,
    decreases cells.len(),
{
    if n < cells.len() {
        assert(cells[cells.len() - 1].glyph == '\0');
        let front = cells.drop_last();
        assert forall|i: int| n <= i < front.len() implies (#[trigger] front[i]).glyph == '\0' by {
            assert(front[i] == cells[i]);
        }
        lemma_used(front, n);
    }
}

/// A line reads as the letters of its cells, up to the last one that holds text.
pub proof fn law_lines_read_up_to_their_last_letter(cells: Seq<Cell>, n: int)
    requires
        0 <= n <= cells.len(),
        n > 0 ==> cells[n - 1].glyph != '\0',
        forall|i: int| n <= i < cells.len() ==> (#[trigger] cells[i]).glyph == '\0',
    ensures
        contents::line_text(cells) == all_letters(cells.take(n)),
{
    lemma_used(cells, n);
    lemma_letters(cells.take(n));
}

/// Lines are read one after the other, each with a newline behind it unless it runs on in the next.
pub proof fn law_lines_are_read_in_order(a: Seq<RowView>, row: RowView, b: Seq<RowView>)
    ensures
        contents::lines_text(a + b) == contents::lines_text(a) + contents::lines_text(b),
        row.wrapped ==> contents::lines_text(seq![row]) == contents::line_text(row.cells),
        !row.wrapped ==> contents::lines_text(seq![row]) == contents::line_text(row.cells).push(
            '\n',
        ),
    decreases b.len(),
{
    let one = seq![row];
    assert(one.drop_last() =~= Seq::empty());
    assert(contents::lines_text(one.drop_last()) =~= Seq::empty());
    if row.wrapped {
        assert(contents::lines_text(one) =~= contents::line_text(row.cells));
    } else {
        assert(contents::lines_text(one) =~= contents::line_text(row.cells).push('\n'));
    }
    if b.len() == 0 {
        assert(a + b =~= a);
        assert(contents::lines_text(a) + contents::lines_text(b) =~= contents::lines_text(a));
    } else {
        assert((a + b).drop_last() =~= a + b.drop_last());
        law_lines_are_read_in_order(a, row, b.drop_last());
        assert(contents::lines_text(a + b) =~= contents::lines_text(a) + contents::lines_text(b));
    }
}

/// The text of a screen is what its lines read as, without the newlines at the end and nothing else
/// taken away.
pub proof fn law_empty_lines_at_the_end_are_not_read(s: Seq<char>)
    ensures
        contents::without_newlines(s).len() <= s.len(),
        contents::without_newlines(s) == s.take(contents::without_newlines(s).len() as int),
        forall|i: int|
            contents::without_newlines(s).len() <= i < s.len() ==> #[trigger] s[i] == '\n',
        contents::without_newlines(s).len() > 0 ==> contents::without_newlines(s).last() != '\n',
    decreases s.len(),
{
    if s.len() > 0 && s.last() == '\n' {
        let t = s.drop_last();
        law_empty_lines_at_the_end_are_not_read(t);
        let n = contents::without_newlines(t).len() as int;
        assert(t.take(n) =~= s.take(n));
        assert forall|i: int| n <= i < s.len() implies #[trigger] s[i] == '\n' by {
            if i < t.len() {
                assert(t[i] == s[i]);
            }
        }
    } else {
        assert(s.take(s.len() as int) =~= s);
    }
}

} // verus!
