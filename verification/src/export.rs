//! The export of a recording as a table of text. A column stands for a kind
//! of sample, and only the kinds that some record holds get a column.

use crate::data_types::{arity, null_text, push_nulls, push_separator, DataType, KINDS};
use crate::entry::{copy_slots, entries_of, holds_kind, no_kinds, Data, Entry};
use crate::numerals::{digits_of, push_nat};
use crate::rows::{join_cells, separator};
use vstd::prelude::*;

verus! {

/// Whether the entry is a record with a sample of the kind `d`.
pub open spec fn record_holds(e: Entry, d: int) -> bool {
    match e {
        Entry::Record(_, samples) => holds_kind(samples, d),
        _ => false,
    }
}

/// Whether some record among the entries holds a sample of the kind `d`.
pub open spec fn column_used(entries: Seq<Entry>, d: int) -> bool {
    exists|i: int| 0 <= i < entries.len() && record_holds(#[trigger] entries[i], d)
}

/// For each kind of the catalog, whether some record holds a sample of it.
pub open spec fn used_columns(entries: Seq<Entry>) -> Seq<bool> {
    Seq::new(KINDS as nat, |d: int| column_used(entries, d))
}

/// The last of the samples that is of the kind `d`.
pub open spec fn last_of_kind(samples: Seq<DataType>, d: int) -> Option<DataType>
    decreases samples.len(),
{
    if samples.len() == 0 {
        None
    } else if samples.last().discriminant() == d {
        Some(samples.last())
    } else {
        last_of_kind(samples.drop_last(), d)
    }
}

/// One more than the largest discriminant among the samples; zero where
/// there are none.
pub open spec fn slot_count(samples: Seq<DataType>) -> nat
    decreases samples.len(),
{
    if samples.len() == 0 {
        0
    } else {
        let before = slot_count(samples.drop_last());
        let here = (samples.last().discriminant() + 1) as nat;
        if before >= here {
            before
        } else {
            here
        }
    }
}

/// The samples of a record laid out by column, as far as its largest
/// discriminant: slot `d` holds the sample of the kind `d`, the last one
/// where there are several.
pub open spec fn slots_of(samples: Seq<DataType>) -> Seq<Option<DataType>> {
    Seq::new(slot_count(samples), |d: int| last_of_kind(samples, d))
}

/// An entry with its record laid out by column.
pub open spec fn pivoted(e: Entry) -> Entry {
    match e {
        Entry::Record(t, samples) => Entry::Pivoted(t, slots_of(samples)),
        _ => e,
    }
}

/// The heading of the column `d`.
pub open spec fn heading(d: int) -> Seq<char> {
    if 0 <= d < 256 {
        match DataType::of_kind(d as u8) {
            Some(v) => v.description(),
            None => Seq::empty(),
        }
    } else {
        Seq::empty()
    }
}

/// The headings of the columns in use, in the order of the discriminants; an
/// empty cell for each column that is not in use.
pub open spec fn header_cells(used: Seq<bool>) -> Seq<Seq<char>> {
    Seq::new(
        used.len(),
        |d: int|
            if used[d] {
                heading(d)
            } else {
                Seq::empty()
            },
    )
}

/// The first line of the table: `time`, then the headings that are not empty.
pub open spec fn header_line(used: Seq<bool>) -> Seq<char> {
    "time, "@ + join_cells(header_cells(used)) + "\n"@
}

/// What stands in the column `d` of a row that has no sample of that kind:
/// as many times `null` as the kind has fields.
pub open spec fn blank_cell(d: int) -> Seq<char> {
    if 0 <= d < 256 {
        match arity(d as u8) {
            Some(w) => join_cells(Seq::new(w as nat, |k: int| null_text())),
            None => Seq::empty(),
        }
    } else {
        Seq::empty()
    }
}

/// The cell of the slot `d` of a row: the text of its sample; without one,
/// blank where the column is in use and empty where it is not.
pub open spec fn slot_cell(slot: Option<DataType>, d: int, used: Seq<bool>) -> Seq<char> {
    match slot {
        Some(v) => v.text(),
        None => if 0 <= d < used.len() && used[d] {
            blank_cell(d)
        } else {
            Seq::empty()
        },
    }
}

/// The cells of a row, slot by slot.
pub open spec fn row_cells(slots: Seq<Option<DataType>>, used: Seq<bool>) -> Seq<Seq<char>> {
    Seq::new(slots.len(), |d: int| slot_cell(slots[d], d, used))
}

/// The line of a record: its time, then its cells that are not empty.
pub open spec fn row_line(t: u128, slots: Seq<Option<DataType>>, used: Seq<bool>) -> Seq<char> {
    digits_of(t as nat) + ", "@ + join_cells(row_cells(slots, used)) + "\n"@
}

/// The line of a comment.
pub open spec fn comment_line(text: Seq<char>) -> Seq<char> {
    "# "@ + text + "\n"@
}

/// The line of an entry.
pub open spec fn entry_line(e: Entry, used: Seq<bool>) -> Seq<char> {
    match e {
        Entry::Comment(text) => comment_line(text),
        Entry::Record(t, samples) => row_line(t, slots_of(samples), used),
        Entry::Pivoted(t, slots) => row_line(t, slots, used),
    }
}

/// The lines of the entries, in their order.
pub open spec fn body_text(entries: Seq<Entry>, used: Seq<bool>) -> Seq<char>
    decreases entries.len(),
{
    if entries.len() == 0 {
        Seq::empty()
    } else {
        body_text(entries.drop_last(), used) + entry_line(entries.last(), used)
    }
}

/// The three lines of comment that follow the header: what wrote the file,
/// when and where it was made and by whom, and the name of the session.
pub open spec fn preamble(
    date: Seq<char>,
    time: Seq<char>,
    user: Seq<char>,
    host: Seq<char>,
    name: Seq<char>,
) -> Seq<char> {
    "# Phoenix data\n"@ + "# Created on "@ + date + " at "@ + time + " by "@ + user + " on "@ + host
        + "\n"@ + comment_line(name)
}

/// The whole table: the header over the columns in use, the preamble, then
/// one line for each entry.
pub open spec fn table_text(
    entries: Seq<Entry>,
    date: Seq<char>,
    time: Seq<char>,
    user: Seq<char>,
    host: Seq<char>,
    name: Seq<char>,
) -> Seq<char> {
    let used = used_columns(entries);
    header_line(used) + preamble(date, time, user, host, name) + body_text(entries, used)
}

/// No slot beyond the count holds a sample.
pub proof fn lemma_last_of_kind_beyond(samples: Seq<DataType>, d: int)
    requires
        d >= slot_count(samples),
    ensures
        last_of_kind(samples, d) is None,
    decreases samples.len(),
{
    if samples.len() > 0 {
        lemma_last_of_kind_beyond(samples.drop_last(), d);
    }
}

/// A slot holds a sample exactly when the record has one of that kind, and
/// then it holds one of the record's samples of that kind.
pub proof fn lemma_last_of_kind(samples: Seq<DataType>, d: int)
    ensures
        last_of_kind(samples, d) is Some <==> exists|j: int|
            0 <= j < samples.len() && (#[trigger] samples[j]).discriminant() == d,
        last_of_kind(samples, d) matches Some(v) ==> v.discriminant() == d && samples.contains(v),
    decreases samples.len(),
{
    if samples.len() > 0 {
        let init = samples.drop_last();
        lemma_last_of_kind(init, d);
        if samples.last().discriminant() == d {
            assert(samples[samples.len() - 1].discriminant() == d);
            assert(samples[samples.len() - 1] == samples.last());
        } else {
            if last_of_kind(init, d) is Some {
                let j = choose|j: int| 0 <= j < init.len() && (#[trigger] init[j]).discriminant() == d;
                assert(samples[j] == init[j]);
                let v = last_of_kind(init, d)->0;
                let k = choose|k: int| 0 <= k < init.len() && init[k] == v;
                assert(samples[k] == v);
            }
            if exists|j: int| 0 <= j < samples.len() && (#[trigger] samples[j]).discriminant() == d {
                let j = choose|j: int|
                    0 <= j < samples.len() && (#[trigger] samples[j]).discriminant() == d;
                assert(j < init.len());
                assert(init[j] == samples[j]);
            }
        }
    }
}

/// A column that no record refers to does not appear, though the catalog
/// defines it: it has no heading, and the row of any record of the store
/// holds no cell for it.
pub proof fn lemma_unused_column_absent(entries: Seq<Entry>, d: int, i: int)
    requires
        0 <= d < KINDS,
        !column_used(entries, d),
        0 <= i < entries.len(),
    ensures
        header_cells(used_columns(entries))[d].len() == 0,
        entries[i] matches Entry::Record(_, samples) ==> (d < slots_of(samples).len() ==> row_cells(
            slots_of(samples),
            used_columns(entries),
        )[d].len() == 0),
{
    match entries[i] {
        Entry::Record(_, samples) => {
            lemma_last_of_kind(samples, d);
            assert(!record_holds(entries[i], d));
        },
        _ => {},
    }
}

/// A column that some record refers to appears: its heading stands in the
/// header, and a row that reaches it without a sample of its kind holds the
/// blank cell of its width.
pub proof fn lemma_used_column_present(entries: Seq<Entry>, d: int, samples: Seq<DataType>)
    requires
        0 <= d < KINDS,
        column_used(entries, d),
    ensures
        header_cells(used_columns(entries))[d] == heading(d),
        d < slots_of(samples).len() && !holds_kind(samples, d) ==> row_cells(
            slots_of(samples),
            used_columns(entries),
        )[d] == blank_cell(d),
{
    lemma_last_of_kind(samples, d);
}

/// One more sample is of the kind `d` where it is itself of that kind or one
/// before it was.
pub proof fn lemma_holds_kind_push(samples: Seq<DataType>, v: DataType, d: int)
    ensures
        holds_kind(samples.push(v), d) <==> holds_kind(samples, d) || v.discriminant() == d,
{
    let more = samples.push(v);
    if holds_kind(samples, d) {
        let j = choose|j: int| 0 <= j < samples.len() && (#[trigger] samples[j]).discriminant() == d;
        assert(more[j] == samples[j]);
    }
    if v.discriminant() == d {
        assert(more[samples.len() as int] == v);
    }
    if holds_kind(more, d) {
        let j = choose|j: int| 0 <= j < more.len() && (#[trigger] more[j]).discriminant() == d;
        if j < samples.len() {
            assert(samples[j] == more[j]);
        }
    }
}

/// One more entry uses the column `d` where it is a record that holds the
/// kind `d` or an entry before it was one.
pub proof fn lemma_column_used_push(entries: Seq<Entry>, e: Entry, d: int)
    ensures
        column_used(entries.push(e), d) <==> column_used(entries, d) || record_holds(e, d),
{
    let more = entries.push(e);
    if column_used(entries, d) {
        let i = choose|i: int| 0 <= i < entries.len() && record_holds(#[trigger] entries[i], d);
        assert(more[i] == entries[i]);
    }
    if record_holds(e, d) {
        assert(more[entries.len() as int] == e);
    }
    if column_used(more, d) {
        let i = choose|i: int| 0 <= i < more.len() && record_holds(#[trigger] more[i], d);
        if i < entries.len() {
            assert(entries[i] == more[i]);
        }
    }
}

/// The samples of a record laid out by column. Each kind that the record
/// holds is marked in `used`.
pub fn pivot_samples(samples: &Vec<DataType>, used: &mut Vec<bool>) -> (slots: Vec<Option<DataType>>)
    requires
        old(used).len() == KINDS,
    ensures
        slots@ == slots_of(samples@),
        final(used).len() == KINDS,
        forall|d: int|
            0 <= d < KINDS ==> (#[trigger] final(used)[d] <==> old(used)[d] || holds_kind(
                samples@,
                d,
            )),
{
    let mut slots: Vec<Option<DataType>> = Vec::new();
    let mut j: usize = 0;
    assert(samples@.take(0) =~= Seq::<DataType>::empty());
    assert(slots@ =~= slots_of(samples@.take(0)));
    while j < samples.len()
        invariant
            j <= samples.len(),
            used.len() == KINDS,
            slots@ == slots_of(samples@.take(j as int)),
            forall|d: int|
                0 <= d < KINDS ==> (#[trigger] used[d] <==> old(used)[d] || holds_kind(
                    samples@.take(j as int),
                    d,
                )),
        decreases samples.len() - j,
    {
        let sample = samples[j];
        let index = sample.to_u8() as usize;
        let ghost seen = samples@.take(j as int);
        let ghost more = samples@.take(j + 1);
        let ghost before = slots@;
        proof {
            assert(more.drop_last() =~= seen);
            assert(more.last() == sample);
            assert(more =~= seen.push(sample));
            assert forall|d: int| 0 <= d < KINDS implies (#[trigger] holds_kind(more, d)
                <==> holds_kind(seen, d) || sample.discriminant() == d) by {
                lemma_holds_kind_push(seen, sample, d);
            }
        }
        while slots.len() <= index
            invariant
                index < KINDS,
                before.len() <= slots.len(),
                before.len() == slot_count(seen),
                slots.len() <= index + 1 || slots.len() == before.len(),
                forall|d: int| 0 <= d < before.len() ==> slots@[d] == before[d],
                forall|d: int| before.len() <= d < slots.len() ==> slots@[d] is None,
            decreases index + 1 - slots.len(),
        {
            slots.push(None);
        }
        used.set(index, true);
        slots.set(index, Some(sample));
        proof {
            let target = slots_of(more);
            assert(slots@.len() == target.len());
            assert forall|d: int| 0 <= d < target.len() implies slots@[d] == target[d] by {
                if d != index {
                    if d >= before.len() {
                        lemma_last_of_kind_beyond(seen, d);
                    } else {
                        assert(before[d] == last_of_kind(seen, d));
                    }
                }
            }
            assert(slots@ =~= target);
        }
        j = j + 1;
    }
    assert(samples@.take(samples.len() as int) =~= samples@);
    slots
}

/// The first pass of the export: each record laid out by column, and for
/// each kind of the catalog whether some record holds a sample of it.
pub fn pivot(data: &Vec<Data>) -> (r: (Vec<Data>, Vec<bool>))
    ensures
        r.0.len() == data.len(),
        forall|i: int| 0 <= i < data.len() ==> (#[trigger] r.0@[i])@ == pivoted(data@[i]@),
        r.1@ == used_columns(entries_of(data@)),
{
    let mut out: Vec<Data> = Vec::new();
    let mut used = no_kinds();
    let ghost all = entries_of(data@);
    let mut i: usize = 0;
    assert(all.take(0) =~= Seq::<Entry>::empty());
    while i < data.len()
        invariant
            i <= data.len(),
            all == entries_of(data@),
            out.len() == i,
            used.len() == KINDS,
            forall|k: int| 0 <= k < i ==> (#[trigger] out@[k])@ == pivoted(data@[k]@),
            forall|d: int| 0 <= d < KINDS ==> (#[trigger] used[d] <==> column_used(all.take(i as int), d)),
        decreases data.len() - i,
    {
        let ghost seen = all.take(i as int);
        let ghost entry = data@[i as int]@;
        proof {
            assert(all.take(i + 1) =~= seen.push(entry));
            assert forall|d: int| 0 <= d < KINDS implies (#[trigger] column_used(
                all.take(i + 1),
                d,
            ) <==> column_used(seen, d) || record_holds(entry, d)) by {
                lemma_column_used_push(seen, entry, d);
            }
        }
        match &data[i] {
            Data::RecordData(t, samples) => {
                let slots = pivot_samples(samples, &mut used);
                out.push(Data::RecordDataOption(*t, slots));
            },
            Data::Command(s) => {
                out.push(Data::Command(s.clone()));
            },
            Data::RecordDataOption(t, slots) => {
                out.push(Data::RecordDataOption(*t, copy_slots(slots)));
            },
        }
        i = i + 1;
    }
    assert(all.take(data.len() as int) =~= all);
    assert(used@ =~= used_columns(all));
    (out, used)
}

/// Appends the header of the table to `out`.
pub fn push_header(out: &mut String, used: &Vec<bool>)
    requires
        used.len() == KINDS,
    ensures
        final(out)@ == old(out)@ + header_line(used@),
{
    let mut row = String::new();
    let mut d: u8 = 0;
    let ghost cells = header_cells(used@);
    assert(cells.take(0) =~= Seq::<Seq<char>>::empty());
    while d < KINDS
        invariant
            d <= KINDS,
            used.len() == KINDS,
            cells == header_cells(used@),
            row@ == join_cells(cells.take(d as int)),
        decreases KINDS - d,
    {
        proof {
            assert(cells.take(d + 1).drop_last() =~= cells.take(d as int));
            assert(cells.take(d + 1).last() == cells[d as int]);
        }
        if used[d as usize] {
            let kind = DataType::from_repr(d).unwrap();
            let name = kind.write_description();
            push_cell(&mut row, name.as_str());
        }
        d = d + 1;
    }
    assert(cells.take(KINDS as int) =~= cells);
    out.append("time, ");
    out.append(row.as_str());
    out.append("\n");
    assert(out@ =~= old(out)@ + header_line(used@));
}

/// Appends a cell to a row: nothing where the cell is empty, else the cell,
/// behind a separator where the row is not empty.
pub fn push_cell(row: &mut String, cell: &str)
    ensures
        final(row)@ == if cell@.len() == 0 {
            old(row)@
        } else if old(row)@.len() == 0 {
            cell@
        } else {
            old(row)@ + separator() + cell@
        },
{
    if !cell.is_empty() {
        if !row.as_str().is_empty() {
            push_separator(row);
        }
        row.append(cell);
        assert(row@ =~= if old(row)@.len() == 0 {
            cell@
        } else {
            old(row)@ + separator() + cell@
        });
    }
}

/// Appends the line of a record to `out`: its time, then the cells of its
/// slots that are not empty.
pub fn push_row(out: &mut String, t: u128, slots: &Vec<Option<DataType>>, used: &Vec<bool>)
    ensures
        final(out)@ == old(out)@ + row_line(t, slots@, used@),
{
    let mut row = String::new();
    let ghost cells = row_cells(slots@, used@);
    let mut d: usize = 0;
    assert(cells.take(0) =~= Seq::<Seq<char>>::empty());
    while d < slots.len()
        invariant
            d <= slots.len(),
            cells == row_cells(slots@, used@),
            row@ == join_cells(cells.take(d as int)),
        decreases slots.len() - d,
    {
        proof {
            assert(cells.take(d + 1).drop_last() =~= cells.take(d as int));
            assert(cells.take(d + 1).last() == cells[d as int]);
        }
        match &slots[d] {
            Some(v) => {
                let cell = v.write();
                push_cell(&mut row, cell.as_str());
            },
            None => {
                if d < used.len() && used[d] && d < 256 {
                    match DataType::get_none(d as u8) {
                        Ok(w) => {
                            let mut cell = String::new();
                            push_nulls(&mut cell, w);
                            push_cell(&mut row, cell.as_str());
                        },
                        Err(_) => {},
                    }
                }
            },
        }
        d = d + 1;
    }
    assert(cells.take(slots.len() as int) =~= cells);
    push_nat(out, t);
    out.append(", ");
    out.append(row.as_str());
    out.append("\n");
    assert(out@ =~= old(out)@ + row_line(t, slots@, used@));
}

/// Appends the line of an entry to `out`.
pub fn push_entry(out: &mut String, entry: &Data, used: &Vec<bool>)
    ensures
        final(out)@ == old(out)@ + entry_line(entry@, used@),
{
    match entry {
        Data::Command(s) => {
            out.append("# ");
            out.append(s.as_str());
            out.append("\n");
            assert(out@ =~= old(out)@ + comment_line(s@));
        },
        Data::RecordDataOption(t, slots) => {
            push_row(out, *t, slots, used);
        },
        Data::RecordData(t, samples) => {
            let mut unused = no_kinds();
            let slots = pivot_samples(samples, &mut unused);
            push_row(out, *t, &slots, used);
        },
    }
}

/// The table of a recording as text: the header over the columns in use,
/// three lines of comment on the file, then one line for each entry in its
/// place. A column that no record refers to does not appear.
pub fn render_table(data: &Vec<Data>, date: &str, time: &str, user: &str, host: &str, name: &str) -> (out:
    String)
    ensures
        out@ == table_text(entries_of(data@), date@, time@, user@, host@, name@),
{
    let (rows, used) = pivot(data);
    let ghost all = entries_of(data@);
    let mut out = String::new();
    push_header(&mut out, &used);
    out.append("# Phoenix data\n");
    out.append("# Created on ");
    out.append(date);
    out.append(" at ");
    out.append(time);
    out.append(" by ");
    out.append(user);
    out.append(" on ");
    out.append(host);
    out.append("\n");
    out.append("# ");
    out.append(name);
    out.append("\n");
    let ghost head = header_line(used@) + preamble(date@, time@, user@, host@, name@);
    assert(out@ =~= head);
    let mut i: usize = 0;
    assert(all.take(0) =~= Seq::<Entry>::empty());
    while i < rows.len()
        invariant
            i <= rows.len(),
            rows.len() == data.len(),
            all == entries_of(data@),
            forall|k: int| 0 <= k < data.len() ==> (#[trigger] rows@[k])@ == pivoted(data@[k]@),
            out@ == head + body_text(all.take(i as int), used@),
        decreases rows.len() - i,
    {
        proof {
            assert(all.take(i + 1).drop_last() =~= all.take(i as int));
            assert(all.take(i + 1).last() == data@[i as int]@);
            assert(entry_line(pivoted(data@[i as int]@), used@) == entry_line(
                data@[i as int]@,
                used@,
            ));
        }
        push_entry(&mut out, &rows[i], &used);
        assert(out@ =~= head + body_text(all.take(i + 1), used@));
        i = i + 1;
    }
    assert(all.take(data.len() as int) =~= all);
    out
}

} // verus!
