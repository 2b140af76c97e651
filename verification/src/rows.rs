//! Rows of text: cells joined by a comma and a space, and the way back from a
//! row to its cells.

use vstd::prelude::*;

verus! {

/// What stands between two cells of a row.
pub open spec fn separator() -> Seq<char> {
    seq![',', ' ']
}

/// The cells that are not empty, in their order, with a separator between
/// each two of them.
pub open spec fn join_cells(cells: Seq<Seq<char>>) -> Seq<char>
    decreases cells.len(),
{
    if cells.len() == 0 {
        Seq::empty()
    } else {
        let head = join_cells(cells.drop_last());
        let cell = cells.last();
        if cell.len() == 0 {
            head
        } else if head.len() == 0 {
            cell
        } else {
            head + separator() + cell
        }
    }
}

/// Whether a separator begins at index `i` of `s`.
pub open spec fn separator_at(s: Seq<char>, i: int) -> bool {
    0 <= i && i + 1 < s.len() && s[i] == ',' && s[i + 1] == ' '
}

/// The index at which the first separator of `s` begins; the length of `s`
/// where it holds none.
pub open spec fn first_separator(s: Seq<char>) -> nat
    decreases s.len(),
{
    if s.len() < 2 {
        s.len()
    } else if s[0] == ',' && s[1] == ' ' {
        0
    } else {
        1 + first_separator(s.skip(1))
    }
}

/// The cells of a row: the text before the first separator, then the cells of
/// what follows it. A row without a separator is one cell.
pub open spec fn split_cells(s: Seq<char>) -> Seq<Seq<char>>
    decreases s.len(),
{
    let p = first_separator(s) as int;
    if p + 2 > s.len() {
        seq![s]
    } else {
        seq![s.take(p)] + split_cells(s.skip(p + 2))
    }
}

/// One cell alone is its own row.
pub proof fn lemma_join_one(a: Seq<char>)
    ensures
        join_cells(seq![a]) == a,
{
    let cells = seq![a];
    assert(cells.drop_last() =~= Seq::<Seq<char>>::empty());
    assert(join_cells(cells.drop_last()).len() == 0);
    if a.len() == 0 {
        assert(join_cells(cells) =~= a);
    }
}

/// A row is empty only where all its cells are.
pub proof fn lemma_join_len(cells: Seq<Seq<char>>)
    ensures
        join_cells(cells).len() == 0 <==> forall|k: int|
            0 <= k < cells.len() ==> (#[trigger] cells[k]).len() == 0,
    decreases cells.len(),
{
    if cells.len() > 0 {
        let init = cells.drop_last();
        lemma_join_len(init);
        if join_cells(cells).len() == 0 {
            assert forall|k: int| 0 <= k < cells.len() implies (#[trigger] cells[k]).len()
                == 0 by {
                if k < init.len() {
                    assert(init[k] == cells[k]);
                }
            }
        } else {
            if forall|k: int| 0 <= k < cells.len() ==> (#[trigger] cells[k]).len() == 0 {
                assert forall|k: int| 0 <= k < init.len() implies (#[trigger] init[k]).len()
                    == 0 by {
                    assert(init[k] == cells[k]);
                }
                assert(cells[cells.len() - 1].len() == 0);
            }
        }
    }
}

/// A cell that is not empty goes behind the row, after a separator where the
/// row is not empty.
pub proof fn lemma_join_push(cells: Seq<Seq<char>>, cell: Seq<char>)
    ensures
        join_cells(cells.push(cell)) == if cell.len() == 0 {
            join_cells(cells)
        } else if join_cells(cells).len() == 0 {
            cell
        } else {
            join_cells(cells) + separator() + cell
        },
{
    assert(cells.push(cell).drop_last() =~= cells);
}

/// Two cells that are not empty make a row with one separator.
pub proof fn lemma_join_two(a: Seq<char>, b: Seq<char>)
    requires
        a.len() > 0,
        b.len() > 0,
    ensures
        join_cells(seq![a, b]) == a + separator() + b,
{
    lemma_join_one(a);
    lemma_join_push(seq![a], b);
    assert(seq![a].push(b) =~= seq![a, b]);
}

/// Where a separator begins at `k` and none before it, `k` is the first.
pub proof fn lemma_first_separator_found(s: Seq<char>, k: int)
    requires
        separator_at(s, k),
        forall|j: int| 0 <= j < k ==> !separator_at(s, j),
    ensures
        first_separator(s) == k,
    decreases k,
{
    if k > 0 {
        assert(!separator_at(s, 0));
        let t = s.skip(1);
        assert(separator_at(t, k - 1));
        assert forall|j: int| 0 <= j < k - 1 implies !separator_at(t, j) by {
            assert(!separator_at(s, j + 1));
        }
        lemma_first_separator_found(t, k - 1);
    }
}

/// Where no separator begins anywhere, the first is at the end.
pub proof fn lemma_first_separator_none(s: Seq<char>)
    requires
        forall|j: int| !separator_at(s, j),
    ensures
        first_separator(s) == s.len(),
    decreases s.len(),
{
    if s.len() >= 2 {
        assert(!separator_at(s, 0));
        let t = s.skip(1);
        assert forall|j: int| !separator_at(t, j) by {
            assert(!separator_at(s, j + 1));
        }
        lemma_first_separator_none(t);
    }
}

/// The first separator begins inside the text or at its end, and never at its
/// last character.
pub proof fn lemma_first_separator_range(s: Seq<char>)
    ensures
        first_separator(s) == s.len() || separator_at(s, first_separator(s) as int),
        forall|j: int| 0 <= j < first_separator(s) ==> !separator_at(s, j),
    decreases s.len(),
{
    if s.len() >= 2 && !(s[0] == ',' && s[1] == ' ') {
        let t = s.skip(1);
        lemma_first_separator_range(t);
        assert forall|j: int| 0 <= j < first_separator(s) implies !separator_at(s, j) by {
            if j > 0 {
                assert(!separator_at(t, j - 1));
            }
        }
    }
}

/// A row with one more cell behind a separator splits into the cells of the
/// row and that cell, where the cell holds no comma.
pub proof fn lemma_split_append(row: Seq<char>, cell: Seq<char>)
    requires
        forall|i: int| 0 <= i < cell.len() ==> cell[i] != ',',
    ensures
        split_cells(row + separator() + cell) == split_cells(row).push(cell),
    decreases row.len(),
{
    let s = row + separator() + cell;
    let p = first_separator(row) as int;
    lemma_first_separator_range(row);
    if p + 2 > row.len() {
        // none in the row: the first one is the one that was added
        assert(p == row.len());
        assert(separator_at(s, row.len() as int));
        assert forall|j: int| 0 <= j < row.len() implies !separator_at(s, j) by {
            if j + 1 < row.len() {
                assert(!separator_at(row, j));
            }
        }
        lemma_first_separator_found(s, row.len() as int);
        assert(s.take(row.len() as int) =~= row);
        assert(s.skip(row.len() as int + 2) =~= cell);
        assert forall|j: int| !separator_at(cell, j) by {}
        lemma_first_separator_none(cell);
        assert(split_cells(cell) =~= seq![cell]);
        assert(split_cells(s) =~= seq![row] + seq![cell]);
        assert(split_cells(row) =~= seq![row]);
    } else {
        assert(separator_at(s, p));
        assert forall|j: int| 0 <= j < p implies !separator_at(s, j) by {
            assert(!separator_at(row, j));
        }
        lemma_first_separator_found(s, p);
        let rest = row.skip(p + 2);
        assert(s.skip(p + 2) =~= rest + separator() + cell);
        assert(s.take(p) =~= row.take(p));
        lemma_split_append(rest, cell);
        assert(split_cells(s) =~= seq![row.take(p)] + split_cells(rest).push(cell));
        assert(split_cells(row) =~= seq![row.take(p)] + split_cells(rest));
    }
}

/// Cells that are not empty and hold no comma come back when their row is
/// split.
pub proof fn lemma_split_join(cells: Seq<Seq<char>>)
    requires
        cells.len() >= 1,
        forall|k: int| 0 <= k < cells.len() ==> (#[trigger] cells[k]).len() > 0,
        forall|k: int, i: int|
            0 <= k < cells.len() && 0 <= i < cells[k].len() ==> #[trigger] cells[k][i] != ',',
    ensures
        split_cells(join_cells(cells)) == cells,
        join_cells(cells).len() > 0,
    decreases cells.len(),
{
    let last = cells.last();
    let init = cells.drop_last();
    assert(last.len() > 0);
    assert(join_cells(init.drop_last()).len() >= 0);
    if cells.len() == 1 {
        assert(init.len() == 0);
        assert(join_cells(init).len() == 0);
        assert(join_cells(cells) == last);
        assert forall|j: int| !separator_at(last, j) by {
            if 0 <= j < last.len() {
                assert(cells[0][j] != ',');
            }
        }
        lemma_first_separator_none(last);
        assert(split_cells(last) =~= seq![last]);
        assert(seq![last] =~= cells);
    } else {
        assert forall|k: int| 0 <= k < init.len() implies (#[trigger] init[k]).len() > 0 by {
            assert(init[k] == cells[k]);
        }
        assert forall|k: int, i: int|
            0 <= k < init.len() && 0 <= i < init[k].len() implies #[trigger] init[k][i]
            != ',' by {
            assert(init[k] == cells[k]);
        }
        lemma_split_join(init);
        assert(join_cells(cells) == join_cells(init) + separator() + last);
        assert forall|i: int| 0 <= i < last.len() implies last[i] != ',' by {
            assert(cells[cells.len() - 1][i] != ',');
        }
        lemma_split_append(join_cells(init), last);
        assert(init.push(last) =~= cells);
    }
}

/// Whether `ranges` are the cells of the row `text`, in their order, each as
/// the range of indices that it takes.
pub open spec fn is_cell_ranges(text: Seq<char>, ranges: Seq<(usize, usize)>) -> bool {
    &&& ranges.len() == split_cells(text).len()
    &&& forall|k: int|
        0 <= k < ranges.len() ==> {
            &&& (#[trigger] ranges[k]).0 <= ranges[k].1 <= text.len()
            &&& text.subrange(ranges[k].0 as int, ranges[k].1 as int) == split_cells(text)[k]
        }
}

/// The cells of the row `text`, each as the range of indices that it takes.
pub fn cell_ranges(text: &Vec<char>) -> (r: Vec<(usize, usize)>)
    ensures
        is_cell_ranges(text@, r@),
        r.len() >= 1,
{
    let n = text.len();
    let ghost s = text@;
    let mut out: Vec<(usize, usize)> = Vec::new();
    let ghost mut done: Seq<Seq<char>> = Seq::empty();
    let mut from: usize = 0;
    let mut i: usize = 0;
    assert(s.skip(0) =~= s);
    while i < n
        invariant
            n == text.len(),
            s == text@,
            from <= i <= n,
            out.len() == done.len(),
            split_cells(s) == done + split_cells(s.skip(from as int)),
            forall|j: int| from <= j < i ==> !separator_at(s, j),
            forall|k: int|
                0 <= k < out.len() ==> {
                    &&& (#[trigger] out[k]).0 <= out[k].1 <= n
                    &&& s.subrange(out[k].0 as int, out[k].1 as int) == done[k]
                },
        decreases n - i,
    {
        if text[i] == ',' && i + 1 < n && text[i + 1] == ' ' {
            proof {
                let rest = s.skip(from as int);
                let k = i - from;
                assert(separator_at(rest, k));
                assert forall|j: int| 0 <= j < k implies !separator_at(rest, j) by {
                    assert(!separator_at(s, j + from));
                }
                lemma_first_separator_found(rest, k);
                assert(rest.take(k) =~= s.subrange(from as int, i as int));
                assert(rest.skip(k + 2) =~= s.skip(i + 2));
                let cell = s.subrange(from as int, i as int);
                assert(split_cells(rest) == seq![cell] + split_cells(s.skip(i + 2)));
                assert(done + (seq![cell] + split_cells(s.skip(i + 2))) =~= done.push(cell)
                    + split_cells(s.skip(i + 2)));
                done = done.push(cell);
            }
            out.push((from, i));
            from = i + 2;
            i = i + 2;
        } else {
            i = i + 1;
        }
    }
    proof {
        let rest = s.skip(from as int);
        assert forall|j: int| !separator_at(rest, j) by {
            if 0 <= j && j + 1 < rest.len() {
                assert(!separator_at(s, j + from));
            }
        }
        lemma_first_separator_none(rest);
        assert(split_cells(rest) =~= seq![rest]);
        assert(rest =~= s.subrange(from as int, n as int));
        assert(done + seq![rest] =~= done.push(rest));
        done = done.push(rest);
    }
    out.push((from, n));
    out
}

} // verus!
