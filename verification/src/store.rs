//! The recorder: the store of entries with its running totals, and the
//! state that the two ends of the link share with it.

use crate::command::Command;
use crate::data_types::{DataType, KINDS};
use crate::decimal::{real_sum, Decimal, Real};
use crate::entry::{
    copy_data, copy_entries, copy_samples, distinct_kinds, entries_of, holds_kind, no_kinds, Data,
    Entry,
};
use crate::error::RecError;
use crate::export::{lemma_holds_kind_push, render_table, table_text};
use vstd::prelude::*;

verus! {

/// The store of a recording.
#[derive(Debug, Clone)]
pub struct RecData {
    /// The entries, oldest first.
    pub data: Vec<Data>,
    /// The commands that were issued, oldest first.
    pub commands: Vec<Command>,
    /// The time of the first record, in milliseconds; zero before there is one.
    pub start_time: u128,
    /// The distance driven on the right so far.
    pub right_total_d: Real,
    /// The distance driven on the left so far.
    pub left_total_d: Real,
    /// Whether the totals still wait for their baseline.
    pub first_time: bool,
}

/// What a store holds.
#[verifier::ext_equal]
pub struct StoreState {
    pub entries: Seq<Entry>,
    pub commands: Seq<Command>,
    pub start_time: u128,
    pub right_total: Real,
    pub left_total: Real,
    pub first_time: bool,
}

/// The recorder of one process: its store, whether it serves a collector
/// link, and the entries that wait to be sent over that link.
#[derive(Debug, Clone)]
pub struct Recorder {
    /// The store.
    pub rec: RecData,
    /// Whether records are also queued for the link.
    pub server: bool,
    /// Whether the collector was asked to stop.
    pub stop_server: bool,
    /// Whether a producer session is under way.
    pub client: bool,
    /// The entries that wait to be sent, oldest first.
    pub queue: Vec<Data>,
}

/// What a recorder holds.
#[verifier::ext_equal]
pub struct RecorderState {
    pub rec: StoreState,
    pub server: bool,
    pub stop_server: bool,
    pub client: bool,
    pub queue: Seq<Entry>,
}

impl View for RecData {
    type V = StoreState;

    open spec fn view(&self) -> StoreState {
        StoreState {
            entries: entries_of(self.data@),
            commands: self.commands@,
            start_time: self.start_time,
            right_total: self.right_total_d,
            left_total: self.left_total_d,
            first_time: self.first_time,
        }
    }
}

impl View for Recorder {
    type V = RecorderState;

    open spec fn view(&self) -> RecorderState {
        RecorderState {
            rec: self.rec@,
            server: self.server,
            stop_server: self.stop_server,
            client: self.client,
            queue: entries_of(self.queue@),
        }
    }
}

/// The store before anything was recorded.
pub open spec fn empty_store() -> StoreState {
    StoreState {
        entries: Seq::empty(),
        commands: Seq::empty(),
        start_time: 0,
        right_total: Real::Finite(Decimal { negative: false, mantissa: 0, scale: 0 }),
        left_total: Real::Finite(Decimal { negative: false, mantissa: 0, scale: 0 }),
        first_time: true,
    }
}

/// The text without its spaces.
pub open spec fn without_spaces(s: Seq<char>) -> Seq<char>
    decreases s.len(),
{
    if s.len() == 0 {
        s
    } else if s.last() == ' ' {
        without_spaces(s.drop_last())
    } else {
        without_spaces(s.drop_last()).push(s.last())
    }
}

/// The texts of the commands, with an underscore between each two.
pub open spec fn joined_commands(commands: Seq<Command>) -> Seq<char>
    decreases commands.len(),
{
    if commands.len() == 0 {
        Seq::empty()
    } else if commands.len() == 1 {
        commands[0].text()
    } else {
        joined_commands(commands.drop_last()) + "_"@ + commands.last().text()
    }
}

/// The name of a session: `data_`, then the commands that were issued,
/// joined by underscores, without any space.
pub open spec fn data_name(commands: Seq<Command>) -> Seq<char> {
    "data_"@ + without_spaces(joined_commands(commands))
}

/// The time that has passed at `now` since `start`; zero where the clock
/// reads earlier than the start.
pub open spec fn elapsed(start: u128, now: u128) -> u128 {
    if now >= start {
        (now - start) as u128
    } else {
        0
    }
}

/// A sample as it is stored: a driven distance with the running totals added
/// to its two fields, any other sample as it is. There is none where a sum
/// cannot be formed.
pub open spec fn rewritten_sample(v: DataType, right: Real, left: Real) -> Option<DataType> {
    match v {
        DataType::DrivenDistance(a, b) => match (real_sum(right, a), real_sum(left, b)) {
            (Some(x), Some(y)) => Some(DataType::DrivenDistance(x, y)),
            _ => None,
        },
        _ => Some(v),
    }
}

/// Whether every sample can be stored.
pub open spec fn can_rewrite(samples: Seq<DataType>, right: Real, left: Real) -> bool {
    forall|i: int| 0 <= i < samples.len() ==> rewritten_sample(#[trigger] samples[i], right, left) is Some
}

/// The samples as they are stored.
pub open spec fn rewritten(samples: Seq<DataType>, right: Real, left: Real) -> Seq<DataType> {
    Seq::new(samples.len(), |i: int| rewritten_sample(samples[i], right, left)->0)
}

/// The recorder after the samples were saved at the time `now`, or why they
/// were refused. Two samples of one kind are refused; so is a driven distance
/// whose sum with a total cannot be formed. The first record sets the start
/// of the session. The record goes to the end of the store, and to the end of
/// the queue where the recorder serves a link.
pub open spec fn after_save(s: RecorderState, now: u128, samples: Seq<DataType>) -> Result<
    RecorderState,
    RecError,
> {
    if !distinct_kinds(samples) {
        Err(RecError::DuplicateField)
    } else if !can_rewrite(samples, s.rec.right_total, s.rec.left_total) {
        Err(RecError::Overflow)
    } else {
        let start = if s.rec.start_time == 0 {
            now
        } else {
            s.rec.start_time
        };
        let entry = Entry::Record(
            elapsed(start, now),
            rewritten(samples, s.rec.right_total, s.rec.left_total),
        );
        Ok(
            RecorderState {
                rec: StoreState { entries: s.rec.entries.push(entry), start_time: start, ..s.rec },
                queue: if s.server {
                    s.queue.push(entry)
                } else {
                    s.queue
                },
                ..s
            },
        )
    }
}

/// Whether an entry may be put into a store as it is: a record may not hold
/// two samples of one kind.
pub open spec fn admissible(e: Entry) -> bool {
    match e {
        Entry::Record(_, samples) => distinct_kinds(samples),
        _ => true,
    }
}

/// The totals after a report of two distances: the first report after the
/// store was made or cleared sets the baseline and adds nothing; each later
/// one is added. There are none where a sum cannot be formed.
pub open spec fn after_distance(s: StoreState, right: Real, left: Real) -> Option<StoreState> {
    if s.first_time {
        Some(StoreState { first_time: false, ..s })
    } else {
        match (real_sum(s.right_total, right), real_sum(s.left_total, left)) {
            (Some(x), Some(y)) => Some(StoreState { right_total: x, left_total: y, ..s }),
            _ => None,
        }
    }
}

impl RecData {
    /// A store that holds nothing.
    pub fn new() -> (r: RecData)
        ensures
            r@ == empty_store(),
    {
        let r = RecData {
            data: Vec::new(),
            commands: Vec::new(),
            start_time: 0,
            right_total_d: Real::zero(),
            left_total_d: Real::zero(),
            first_time: true,
        };
        assert(r@.entries =~= Seq::<Entry>::empty());
        r
    }
}

impl Default for RecData {
    fn default() -> (r: RecData)
        ensures
            r@ == empty_store(),
    {
        RecData::new()
    }
}

impl Recorder {
    /// A recorder with an empty store that serves no link.
    pub fn new() -> (r: Recorder)
        ensures
            r@ == (RecorderState {
                rec: empty_store(),
                server: false,
                stop_server: false,
                client: false,
                queue: Seq::empty(),
            }),
    {
        let r = Recorder {
            rec: RecData::new(),
            server: false,
            stop_server: false,
            client: false,
            queue: Vec::new(),
        };
        assert(r@.queue =~= Seq::<Entry>::empty());
        r
    }
}

/// Says whether records are to be queued for the link.
pub fn set_server(recorder: &mut Recorder, b: bool)
    ensures
        final(recorder)@ == (RecorderState { server: b, ..old(recorder)@ }),
{
    recorder.server = b;
}

/// A copy of the store.
pub fn get_rec_data(recorder: &Recorder) -> (r: RecData)
    ensures
        r@ == recorder@.rec,
{
    let mut commands: Vec<Command> = Vec::new();
    let mut i: usize = 0;
    while i < recorder.rec.commands.len()
        invariant
            i <= recorder.rec.commands.len(),
            commands@ == recorder.rec.commands@.take(i as int),
        decreases recorder.rec.commands.len() - i,
    {
        commands.push(recorder.rec.commands[i]);
        assert(recorder.rec.commands@.take(i as int).push(recorder.rec.commands@[i as int])
            =~= recorder.rec.commands@.take(i + 1));
        i = i + 1;
    }
    assert(recorder.rec.commands@.take(recorder.rec.commands.len() as int)
        =~= recorder.rec.commands@);
    RecData {
        data: copy_entries(&recorder.rec.data),
        commands,
        start_time: recorder.rec.start_time,
        right_total_d: recorder.rec.right_total_d,
        left_total_d: recorder.rec.left_total_d,
        first_time: recorder.rec.first_time,
    }
}

/// The number of entries in the store.
pub fn get_rec_len(recorder: &Recorder) -> (n: usize)
    ensures
        n == recorder@.rec.entries.len(),
{
    recorder.rec.data.len()
}

/// A copy of the entry at `index`.
pub fn get_rec_index(recorder: &Recorder, index: usize) -> (r: Data)
    requires
        index < recorder@.rec.entries.len(),
    ensures
        r@ == recorder@.rec.entries[index as int],
{
    copy_data(&recorder.rec.data[index])
}

/// The time of the first record, in milliseconds; zero before there is one.
pub fn get_rec_start_time(recorder: &Recorder) -> (t: u128)
    ensures
        t == recorder@.rec.start_time,
{
    recorder.rec.start_time
}

/// Notes a command that was issued: in the list of commands, and as a line
/// of comment at the end of the store.
pub fn add_command(recorder: &mut Recorder, command: Command)
    ensures
        final(recorder)@ == (RecorderState {
            rec: StoreState {
                entries: old(recorder)@.rec.entries.push(Entry::Comment(command.text())),
                commands: old(recorder)@.rec.commands.push(command),
                ..old(recorder)@.rec
            },
            ..old(recorder)@
        }),
{
    recorder.rec.commands.push(command);
    recorder.rec.data.push(Data::Command(command.to_string()));
    assert(recorder@.rec.entries =~= old(recorder)@.rec.entries.push(
        Entry::Comment(command.text()),
    ));
}

/// Puts a line of comment at the end of the store.
pub fn add_comment(recorder: &mut Recorder, comment: String)
    ensures
        final(recorder)@ == (RecorderState {
            rec: StoreState {
                entries: old(recorder)@.rec.entries.push(Entry::Comment(comment@)),
                ..old(recorder)@.rec
            },
            ..old(recorder)@
        }),
{
    recorder.rec.data.push(Data::Command(comment));
    assert(recorder@.rec.entries =~= old(recorder)@.rec.entries.push(
        Entry::Comment(comment@),
    ));
}

/// The name of the session: `data_`, then the commands that were issued,
/// joined by underscores, without any space.
pub fn get_data_name(recorder: &Recorder) -> (name: String)
    ensures
        name@ == data_name(recorder@.rec.commands),
{
    let commands = &recorder.rec.commands;
    let mut joined = String::new();
    let mut i: usize = 0;
    assert(commands@.take(0) =~= Seq::<Command>::empty());
    while i < commands.len()
        invariant
            i <= commands.len(),
            joined@ == joined_commands(commands@.take(i as int)),
        decreases commands.len() - i,
    {
        proof {
            assert(commands@.take(i + 1).drop_last() =~= commands@.take(i as int));
            assert(commands@.take(i + 1).last() == commands@[i as int]);
            assert(commands@.take(i + 1)[0] == commands@[0]);
        }
        if i > 0 {
            joined.append("_");
        }
        let text = commands[i].to_string();
        joined.append(text.as_str());
        assert(joined@ =~= joined_commands(commands@.take(i + 1)));
        i = i + 1;
    }
    assert(commands@.take(commands.len() as int) =~= commands@);
    let mut name = String::from_str("data_");
    let n = joined.as_str().unicode_len();
    let mut k: usize = 0;
    assert(joined@.take(0) =~= Seq::<char>::empty());
    while k < n
        invariant
            k <= n,
            n == joined@.len(),
            name@ == "data_"@ + without_spaces(joined@.take(k as int)),
        decreases n - k,
    {
        proof {
            assert(joined@.take(k + 1).drop_last() =~= joined@.take(k as int));
            assert(joined@.take(k + 1).last() == joined@[k as int]);
        }
        let c = joined.as_str().get_char(k);
        if c != ' ' {
            let one = joined.as_str().substring_char(k, k + 1);
            assert(one@ =~= seq![c]);
            name.append(one);
            assert(name@ =~= "data_"@ + without_spaces(joined@.take(k + 1)));
        }
        k = k + 1;
    }
    assert(joined@.take(n as int) =~= joined@);
    name
}

/// The time that has passed at `now` since the first record, both in
/// milliseconds; nothing before there is a record.
pub fn get_time(recorder: &Recorder, now: u128) -> (t: Option<u128>)
    ensures
        t == if recorder@.rec.start_time == 0 {
            None
        } else {
            Some(elapsed(recorder@.rec.start_time, now))
        },
{
    if recorder.rec.start_time == 0 {
        None
    } else if now >= recorder.rec.start_time {
        Some(now - recorder.rec.start_time)
    } else {
        Some(0)
    }
}

/// Whether no two of the samples are of one kind.
pub fn has_distinct_kinds(samples: &Vec<DataType>) -> (b: bool)
    ensures
        b == distinct_kinds(samples@),
{
    let mut seen = no_kinds();
    let mut i: usize = 0;
    assert(samples@.take(0) =~= Seq::<DataType>::empty());
    while i < samples.len()
        invariant
            i <= samples.len(),
            seen.len() == KINDS,
            distinct_kinds(samples@.take(i as int)),
            forall|d: int| 0 <= d < KINDS ==> (#[trigger] seen[d] <==> holds_kind(samples@.take(i as int), d)),
        decreases samples.len() - i,
    {
        let d = samples[i].to_u8() as usize;
        let ghost before = samples@.take(i as int);
        let ghost more = samples@.take(i + 1);
        proof {
            assert(more =~= before.push(samples@[i as int]));
            assert forall|k: int| 0 <= k < KINDS implies (#[trigger] holds_kind(more, k)
                <==> holds_kind(before, k) || samples@[i as int].discriminant() == k) by {
                lemma_holds_kind_push(before, samples@[i as int], k);
            }
        }
        if seen[d] {
            proof {
                let j = choose|j: int|
                    0 <= j < before.len() && (#[trigger] before[j]).discriminant() == d;
                assert(samples@[j] == before[j]);
                assert(samples@[j].discriminant() == samples@[i as int].discriminant());
            }
            return false;
        }
        seen.set(d, true);
        proof {
            assert forall|a: int, b: int| 0 <= a < b < more.len() implies (#[trigger] more[a]).discriminant()
                != (#[trigger] more[b]).discriminant() by {
                if b < before.len() {
                    assert(before[a] == more[a]);
                    assert(before[b] == more[b]);
                } else {
                    assert(before[a] == more[a]);
                    assert(!holds_kind(before, d as int));
                }
            }
        }
        i = i + 1;
    }
    assert(samples@.take(samples.len() as int) =~= samples@);
    true
}

/// The samples as they are stored: each driven distance with the totals
/// added; nothing where a sum cannot be formed.
pub fn rewrite_samples(samples: &Vec<DataType>, right: Real, left: Real) -> (r: Option<
    Vec<DataType>,
>)
    ensures
        r is Some <==> can_rewrite(samples@, right, left),
        r matches Some(v) ==> v@ == rewritten(samples@, right, left),
{
    let mut out: Vec<DataType> = Vec::new();
    let mut i: usize = 0;
    while i < samples.len()
        invariant
            i <= samples.len(),
            out.len() == i,
            forall|k: int| 0 <= k < i ==> rewritten_sample(#[trigger] samples@[k], right, left) == Some(out@[k]),
        decreases samples.len() - i,
    {
        let stored = match samples[i] {
            DataType::DrivenDistance(a, b) => {
                let x = match right.checked_add(&a) {
                    Some(x) => x,
                    None => {
                        assert(rewritten_sample(samples@[i as int], right, left) is None);
                        return None;
                    },
                };
                let y = match left.checked_add(&b) {
                    Some(y) => y,
                    None => {
                        assert(rewritten_sample(samples@[i as int], right, left) is None);
                        return None;
                    },
                };
                DataType::DrivenDistance(x, y)
            },
            other => other,
        };
        out.push(stored);
        i = i + 1;
    }
    assert(out@ =~= rewritten(samples@, right, left));
    Some(out)
}

/// Saves the samples that were taken at the time `now`, in milliseconds, as
/// one record. Two samples of one kind are refused with `DuplicateField`, a
/// total that cannot be formed with `Overflow`; the recorder then stays as it
/// was.
pub fn save_data(recorder: &mut Recorder, now: u128, data: Vec<DataType>) -> (r: Result<
    (),
    RecError,
>)
    ensures
        match r {
            Ok(_) => after_save(old(recorder)@, now, data@) == Ok::<RecorderState, RecError>(
                final(recorder)@,
            ),
            Err(e) => after_save(old(recorder)@, now, data@) == Err::<RecorderState, RecError>(e)
                && *final(recorder) == *old(recorder),
        },
{
    if !has_distinct_kinds(&data) {
        return Err(RecError::DuplicateField);
    }
    let stored = match rewrite_samples(
        &data,
        recorder.rec.right_total_d,
        recorder.rec.left_total_d,
    ) {
        Some(stored) => stored,
        None => {
            return Err(RecError::Overflow);
        },
    };
    if recorder.rec.start_time == 0 {
        recorder.rec.start_time = now;
    }
    let t = if now >= recorder.rec.start_time {
        now - recorder.rec.start_time
    } else {
        0
    };
    let ghost entry = Entry::Record(t, stored@);
    if recorder.server {
        recorder.queue.push(Data::RecordData(t, copy_samples(&stored)));
        assert(recorder@.queue =~= old(recorder)@.queue.push(entry));
    }
    recorder.rec.data.push(Data::RecordData(t, stored));
    assert(recorder@.rec.entries =~= old(recorder)@.rec.entries.push(entry));
    Ok(())
}

/// Whether the entry may be put into a store as it is.
pub fn is_admissible(data: &Data) -> (b: bool)
    ensures
        b == admissible(data@),
{
    match data {
        Data::RecordData(_, samples) => has_distinct_kinds(samples),
        _ => true,
    }
}

/// Puts an entry at the end of the store as it is: the totals are not added,
/// and the entry is not queued. A record with two samples of one kind is
/// refused with `DuplicateField`, and the recorder stays as it was.
pub fn save_record_data(recorder: &mut Recorder, data: Data) -> (r: Result<(), RecError>)
    ensures
        match r {
            Ok(_) => admissible(data@) && final(recorder)@ == (RecorderState {
                rec: StoreState {
                    entries: old(recorder)@.rec.entries.push(data@),
                    ..old(recorder)@.rec
                },
                ..old(recorder)@
            }),
            Err(e) => !admissible(data@) && e == RecError::DuplicateField && *final(recorder)
                == *old(recorder),
        },
{
    if !is_admissible(&data) {
        return Err(RecError::DuplicateField);
    }
    let ghost entry = data@;
    recorder.rec.data.push(data);
    assert(recorder@.rec.entries =~= old(recorder)@.rec.entries.push(entry));
    Ok(())
}

/// Reports two distances that were driven, right and left. The first report
/// after the store was made or cleared sets the baseline and adds nothing;
/// each later one is added to the totals. Where a sum cannot be formed the
/// report is refused with `Overflow`, and the recorder stays as it was.
pub fn update_total_distance(recorder: &mut Recorder, right: Real, left: Real) -> (r: Result<
    (),
    RecError,
>)
    ensures
        match r {
            Ok(_) => after_distance(old(recorder)@.rec, right, left) == Some(final(recorder)@.rec)
                && final(recorder)@ == (RecorderState {
                rec: final(recorder)@.rec,
                ..old(recorder)@
            }),
            Err(e) => after_distance(old(recorder)@.rec, right, left) is None && e
                == RecError::Overflow && *final(recorder) == *old(recorder),
        },
{
    if recorder.rec.first_time {
        recorder.rec.first_time = false;
        return Ok(());
    }
    let x = match recorder.rec.right_total_d.checked_add(&right) {
        Some(x) => x,
        None => {
            return Err(RecError::Overflow);
        },
    };
    let y = match recorder.rec.left_total_d.checked_add(&left) {
        Some(y) => y,
        None => {
            return Err(RecError::Overflow);
        },
    };
    recorder.rec.right_total_d = x;
    recorder.rec.left_total_d = y;
    Ok(())
}

/// The distance driven on the right so far.
pub fn get_right_total_distance(recorder: &Recorder) -> (d: Real)
    ensures
        d == recorder@.rec.right_total,
{
    recorder.rec.right_total_d
}

/// The distance driven on the left so far.
pub fn get_left_total_distance(recorder: &Recorder) -> (d: Real)
    ensures
        d == recorder@.rec.left_total,
{
    recorder.rec.left_total_d
}

/// The table of the recording as text, with the day and the time at which
/// it is made, and the user and the machine that make it.
pub fn write_data(recorder: &Recorder, date: &str, time: &str, user: &str, host: &str) -> (out:
    String)
    ensures
        out@ == table_text(
            recorder@.rec.entries,
            date@,
            time@,
            user@,
            host@,
            data_name(recorder@.rec.commands),
        ),
{
    let name = get_data_name(recorder);
    render_table(&recorder.rec.data, date, time, user, host, name.as_str())
}

/// Empties the store: no entries, no commands, no start, totals of zero that
/// wait for their baseline.
pub fn clear_data(recorder: &mut Recorder)
    ensures
        final(recorder)@ == (RecorderState { rec: empty_store(), ..old(recorder)@ }),
{
    recorder.rec = RecData::default();
}

/// Drops the oldest `n` entries of the store and keeps the rest; with `n` the
/// number of entries, none is left. Nothing is dropped where the store holds
/// fewer than `n` entries.
pub fn delete_data(recorder: &mut Recorder, n: usize)
    ensures
        final(recorder)@ == (RecorderState {
            rec: StoreState {
                entries: if n <= old(recorder)@.rec.entries.len() {
                    old(recorder)@.rec.entries.skip(n as int)
                } else {
                    old(recorder)@.rec.entries
                },
                ..old(recorder)@.rec
            },
            ..old(recorder)@
        }),
{
    if n <= recorder.rec.data.len() {
        let rest = recorder.rec.data.split_off(n);
        recorder.rec.data = rest;
        assert(recorder@.rec.entries =~= old(recorder)@.rec.entries.skip(n as int));
    }
}

} // verus!
