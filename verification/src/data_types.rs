//! The catalog of samples: which kinds of reading there are, the number that
//! names each kind, and the text form of a reading.

use crate::decimal::{lemma_real_round_trip, lemma_real_text_chars, parse_real, Decimal, Real};
use crate::error::RecError;
use crate::numerals::{
    chars_of, digits_of, int_text, is_digit, lemma_digits_of_shape, lemma_int_text_chars,
    is_unsigned, lemma_int_text_round_trip, lemma_nat_text_round_trip, parse_signed,
    parse_unsigned, push_int, read_i16, read_unsigned,
};
use crate::rows::{
    cell_ranges, is_cell_ranges, join_cells, lemma_join_len, lemma_join_one, lemma_join_push,
    lemma_join_two, lemma_split_join, separator, split_cells,
};
use vstd::prelude::*;

verus! {

/// One reading. The order of the variants is the order of their
/// discriminants, and a discriminant is also the column of the export in
/// which readings of that kind stand.
#[derive(Debug, PartialEq, Eq, Clone, Copy)]
pub enum DataType {
    /// No reading: a column of the given width that holds nothing here.
    Null(u8),
    /// right, left
    Color(i16, i16),
    Distance(i16),
    /// right, left
    CalcSpeed(i16, i16),
    /// right, left
    SyncSpeed(i16, i16),
    /// right, left
    RealSpeeds(i16, i16),
    /// right, left
    DrivenDistance(Real, Real),
    SyncError(Real),
    /// right, left
    Correction(Real, Real),
    /// right, left
    AverageSpeed(Real, Real),
    /// right, left
    RGB((i16, i16, i16), (i16, i16, i16)),
    /// cur_speed, target_speed
    CurTarSpeeds(i16, i16),
}

/// The number of kinds in the catalog; the discriminants are the numbers below it.
pub const KINDS: u8 = 12;

/// The number of scalar cells that the kind with discriminant `d` takes.
pub open spec fn arity(d: u8) -> Option<u8> {
    if d == 0 {
        Some(0u8)
    } else if d == 2 || d == 7 {
        Some(1u8)
    } else if d == 10 {
        Some(6u8)
    } else if d < 12 {
        Some(2u8)
    } else {
        None
    }
}

/// The text that fills one cell of a column that holds nothing.
pub open spec fn null_text() -> Seq<char> {
    seq!['n', 'u', 'l', 'l']
}

/// The cell `k` of a row as a sixteen-bit integer, if there is such a cell and
/// it denotes one.
pub open spec fn int_field(cells: Seq<Seq<char>>, k: int) -> Option<i16> {
    if 0 <= k < cells.len() {
        match parse_signed(cells[k]) {
            Some(v) => if i16::MIN <= v <= i16::MAX {
                Some(v as i16)
            } else {
                None
            },
            None => None,
        }
    } else {
        None
    }
}

/// The cell `k` of a row as a real-valued reading, if there is such a cell and
/// it denotes one.
pub open spec fn real_field(cells: Seq<Seq<char>>, k: int) -> Option<Real> {
    if 0 <= k < cells.len() {
        parse_real(cells[k])
    } else {
        None
    }
}

/// The cells `1` and `2` of a row as integers.
pub open spec fn int_pair(cells: Seq<Seq<char>>) -> Option<(i16, i16)> {
    match (int_field(cells, 1), int_field(cells, 2)) {
        (Some(a), Some(b)) => Some((a, b)),
        _ => None,
    }
}

/// The cells `1` and `2` of a row as real-valued readings.
pub open spec fn real_pair(cells: Seq<Seq<char>>) -> Option<(Real, Real)> {
    match (real_field(cells, 1), real_field(cells, 2)) {
        (Some(a), Some(b)) => Some((a, b)),
        _ => None,
    }
}

/// The cells `k`, `k + 1` and `k + 2` of a row as integers.
pub open spec fn int_triple(cells: Seq<Seq<char>>, k: int) -> Option<(i16, i16, i16)> {
    match (int_field(cells, k), int_field(cells, k + 1), int_field(cells, k + 2)) {
        (Some(a), Some(b), Some(c)) => Some((a, b, c)),
        _ => None,
    }
}

/// The reading of the kind `d` whose fields stand in the cells behind the
/// first. Cells behind the last field are not looked at. The kind `0` has no
/// fields and gives the empty column of width zero.
pub open spec fn parse_fields(d: u8, cells: Seq<Seq<char>>) -> Result<DataType, RecError> {
    if d == 0 {
        Ok(DataType::Null(0))
    } else if d == 2 {
        match int_field(cells, 1) {
            Some(a) => Ok(DataType::Distance(a)),
            None => Err(RecError::ParseError),
        }
    } else if d == 7 {
        match real_field(cells, 1) {
            Some(a) => Ok(DataType::SyncError(a)),
            None => Err(RecError::ParseError),
        }
    } else if d == 10 {
        match (int_triple(cells, 1), int_triple(cells, 4)) {
            (Some(a), Some(b)) => Ok(DataType::RGB(a, b)),
            _ => Err(RecError::ParseError),
        }
    } else if d == 6 || d == 8 || d == 9 {
        match real_pair(cells) {
            Some((a, b)) => Ok(
                if d == 6 {
                    DataType::DrivenDistance(a, b)
                } else if d == 8 {
                    DataType::Correction(a, b)
                } else {
                    DataType::AverageSpeed(a, b)
                },
            ),
            None => Err(RecError::ParseError),
        }
    } else if d < 12 {
        match int_pair(cells) {
            Some((a, b)) => Ok(
                if d == 1 {
                    DataType::Color(a, b)
                } else if d == 3 {
                    DataType::CalcSpeed(a, b)
                } else if d == 4 {
                    DataType::SyncSpeed(a, b)
                } else if d == 5 {
                    DataType::RealSpeeds(a, b)
                } else {
                    DataType::CurTarSpeeds(a, b)
                },
            ),
            None => Err(RecError::ParseError),
        }
    } else {
        Err(RecError::UnknownDiscriminant)
    }
}

/// The reading that a row of text denotes. The first cell is the
/// discriminant, an unsigned numeral; the cells behind it are the fields of
/// that kind. A first cell that is no numeral is malformed; a numeral of any
/// size that names no kind of the catalog is an unknown discriminant.
pub open spec fn parse_sample(s: Seq<char>) -> Result<DataType, RecError> {
    let cells = split_cells(s);
    match parse_unsigned(cells[0]) {
        Some(d) => if d < KINDS {
            parse_fields(d as u8, cells)
        } else {
            Err(RecError::UnknownDiscriminant)
        },
        None => Err(RecError::ParseError),
    }
}

impl DataType {
    /// The number that names the kind of this reading.
    pub open spec fn discriminant(self) -> u8 {
        match self {
            DataType::Null(_) => 0,
            DataType::Color(_, _) => 1,
            DataType::Distance(_) => 2,
            DataType::CalcSpeed(_, _) => 3,
            DataType::SyncSpeed(_, _) => 4,
            DataType::RealSpeeds(_, _) => 5,
            DataType::DrivenDistance(_, _) => 6,
            DataType::SyncError(_) => 7,
            DataType::Correction(_, _) => 8,
            DataType::AverageSpeed(_, _) => 9,
            DataType::RGB(_, _) => 10,
            DataType::CurTarSpeeds(_, _) => 11,
        }
    }

    /// The number of scalar readings that this value holds; an empty column
    /// holds none.
    pub open spec fn field_count(self) -> nat {
        match self {
            DataType::Null(_) => 0,
            DataType::Distance(_) | DataType::SyncError(_) => 1,
            DataType::RGB(_, _) => 6,
            _ => 2,
        }
    }

    /// The number of cells that this value takes in a row: the width of an
    /// empty column, the number of fields of a reading.
    pub open spec fn width(self) -> u8 {
        match self {
            DataType::Null(w) => w,
            _ => self.field_count() as u8,
        }
    }

    /// Every number of this reading is in lowest terms.
    pub open spec fn wf(self) -> bool {
        match self {
            DataType::DrivenDistance(a, b) | DataType::Correction(a, b) | DataType::AverageSpeed(
                a,
                b,
            ) => a.wf() && b.wf(),
            DataType::SyncError(a) => a.wf(),
            _ => true,
        }
    }

    /// The cells of this value: the text of each field in turn; for an empty
    /// column as many times `null` as it is wide.
    pub open spec fn fields(self) -> Seq<Seq<char>> {
        match self {
            DataType::Null(w) => Seq::new(w as nat, |i: int| null_text()),
            DataType::Distance(a) => seq![int_text(a as int)],
            DataType::SyncError(a) => seq![a.text()],
            DataType::Color(a, b) | DataType::CalcSpeed(a, b) | DataType::SyncSpeed(a, b)
            | DataType::RealSpeeds(a, b) | DataType::CurTarSpeeds(a, b) => seq![
                int_text(a as int),
                int_text(b as int),
            ],
            DataType::DrivenDistance(a, b) | DataType::Correction(a, b) | DataType::AverageSpeed(
                a,
                b,
            ) => seq![a.text(), b.text()],
            DataType::RGB(a, b) => seq![
                int_text(a.0 as int),
                int_text(a.1 as int),
                int_text(a.2 as int),
                int_text(b.0 as int),
                int_text(b.1 as int),
                int_text(b.2 as int),
            ],
        }
    }

    /// The text of this value: its cells, joined.
    pub open spec fn text(self) -> Seq<char> {
        join_cells(self.fields())
    }

    /// The row that denotes this value: its discriminant, then its cells.
    pub open spec fn tagged_text(self) -> Seq<char> {
        join_cells(seq![digits_of(self.discriminant() as nat)] + self.fields())
    }

    /// The heading of the column of this kind; empty for an empty column.
    pub open spec fn description(self) -> Seq<char> {
        match self {
            DataType::Null(_) => Seq::empty(),
            DataType::Color(_, _) => "right color, left color"@,
            DataType::Distance(_) => "dist"@,
            DataType::CalcSpeed(_, _) => "right calculated v, left calculated v"@,
            DataType::SyncSpeed(_, _) => "right synced v, left synced v"@,
            DataType::RealSpeeds(_, _) => "right real v, left real v"@,
            DataType::DrivenDistance(_, _) => "right distance, left distance"@,
            DataType::SyncError(_) => "sync error"@,
            DataType::Correction(_, _) => "right correction, left correction"@,
            DataType::AverageSpeed(_, _) => "right average speed, left average speed"@,
            DataType::RGB(_, _) => "right r, right g, right b, left r, left g, left b"@,
            DataType::CurTarSpeeds(_, _) => "current speed, target speed"@,
        }
    }

    /// The reading of the kind `d` with every field zero, as a stand-in for
    /// its kind.
    pub open spec fn of_kind(d: u8) -> Option<DataType> {
        let zero = Real::Finite(Decimal { negative: false, mantissa: 0, scale: 0 });
        if d == 0 {
            Some(DataType::Null(0))
        } else if d == 1 {
            Some(DataType::Color(0, 0))
        } else if d == 2 {
            Some(DataType::Distance(0))
        } else if d == 3 {
            Some(DataType::CalcSpeed(0, 0))
        } else if d == 4 {
            Some(DataType::SyncSpeed(0, 0))
        } else if d == 5 {
            Some(DataType::RealSpeeds(0, 0))
        } else if d == 6 {
            Some(DataType::DrivenDistance(zero, zero))
        } else if d == 7 {
            Some(DataType::SyncError(zero))
        } else if d == 8 {
            Some(DataType::Correction(zero, zero))
        } else if d == 9 {
            Some(DataType::AverageSpeed(zero, zero))
        } else if d == 10 {
            Some(DataType::RGB((0, 0, 0), (0, 0, 0)))
        } else if d == 11 {
            Some(DataType::CurTarSpeeds(0, 0))
        } else {
            None
        }
    }

    /// The discriminant of this reading.
    pub fn to_u8(&self) -> (d: u8)
        ensures
            d == self.discriminant(),
            d < KINDS,
    {
        match self {
            DataType::Null(_) => 0,
            DataType::Color(_, _) => 1,
            DataType::Distance(_) => 2,
            DataType::CalcSpeed(_, _) => 3,
            DataType::SyncSpeed(_, _) => 4,
            DataType::RealSpeeds(_, _) => 5,
            DataType::DrivenDistance(_, _) => 6,
            DataType::SyncError(_) => 7,
            DataType::Correction(_, _) => 8,
            DataType::AverageSpeed(_, _) => 9,
            DataType::RGB(_, _) => 10,
            DataType::CurTarSpeeds(_, _) => 11,
        }
    }

    /// A reading of the kind `d`, with every field zero; nothing where the
    /// catalog has no such kind.
    pub fn from_repr(d: u8) -> (r: Option<DataType>)
        ensures
            r == DataType::of_kind(d),
            r is Some <==> d < KINDS,
            r matches Some(v) ==> v.discriminant() == d && v.wf(),
    {
        let zero = Real::zero();
        match d {
            0 => Some(DataType::Null(0)),
            1 => Some(DataType::Color(0, 0)),
            2 => Some(DataType::Distance(0)),
            3 => Some(DataType::CalcSpeed(0, 0)),
            4 => Some(DataType::SyncSpeed(0, 0)),
            5 => Some(DataType::RealSpeeds(0, 0)),
            6 => Some(DataType::DrivenDistance(zero, zero)),
            7 => Some(DataType::SyncError(zero)),
            8 => Some(DataType::Correction(zero, zero)),
            9 => Some(DataType::AverageSpeed(zero, zero)),
            10 => Some(DataType::RGB((0, 0, 0), (0, 0, 0))),
            11 => Some(DataType::CurTarSpeeds(0, 0)),
            _ => None,
        }
    }

    /// The number of cells that the kind with discriminant `i` takes.
    pub fn get_none(i: u8) -> (r: Result<u8, RecError>)
        ensures
            match r {
                Ok(n) => arity(i) == Some(n),
                Err(e) => arity(i) is None && e == RecError::UnknownDiscriminant,
            },
    {
        match i {
            0 => Ok(0),
            1 => Ok(2),
            2 => Ok(1),
            3 => Ok(2),
            4 => Ok(2),
            5 => Ok(2),
            6 => Ok(2),
            7 => Ok(1),
            8 => Ok(2),
            9 => Ok(2),
            10 => Ok(6),
            11 => Ok(2),
            _ => Err(RecError::UnknownDiscriminant),
        }
    }

    /// The number of cells that this value takes in a row.
    pub fn none(&self) -> (n: u8)
        ensures
            n == self.width(),
            n == self.fields().len(),
    {
        match self {
            DataType::Null(w) => *w,
            DataType::Color(_, _) => 2,
            DataType::Distance(_) => 1,
            DataType::CalcSpeed(_, _) => 2,
            DataType::SyncSpeed(_, _) => 2,
            DataType::RealSpeeds(_, _) => 2,
            DataType::DrivenDistance(_, _) => 2,
            DataType::SyncError(_) => 1,
            DataType::Correction(_, _) => 2,
            DataType::AverageSpeed(_, _) => 2,
            DataType::RGB(_, _) => 6,
            DataType::CurTarSpeeds(_, _) => 2,
        }
    }

    /// Appends the text of this value to `out`.
    pub fn push_text(&self, out: &mut String)
        ensures
            final(out)@ == old(out)@ + self.text(),
    {
        match self {
            DataType::Null(w) => {
                push_nulls(out, *w);
            },
            DataType::Distance(a) => {
                push_int(out, *a);
                proof {
                    lemma_join_one(int_text(*a as int));
                }
            },
            DataType::SyncError(a) => {
                a.push_text(out);
                proof {
                    lemma_join_one(a.text());
                }
            },
            DataType::Color(a, b) | DataType::CalcSpeed(a, b) | DataType::SyncSpeed(a, b)
            | DataType::RealSpeeds(a, b) | DataType::CurTarSpeeds(a, b) => {
                push_int_pair(out, *a, *b);
            },
            DataType::DrivenDistance(a, b) | DataType::Correction(a, b) | DataType::AverageSpeed(
                a,
                b,
            ) => {
                push_real_pair(out, a, b);
            },
            DataType::RGB(a, b) => {
                push_int_six(out, *a, *b);
            },
        }
    }

    /// The text of this value: its fields joined by a comma and a space; for
    /// an empty column as many times `null` as it is wide.
    pub fn write(&self) -> (s: String)
        ensures
            s@ == self.text(),
    {
        let mut out = String::new();
        self.push_text(&mut out);
        out
    }

    /// The reading that the row `s` denotes. It fails with `ParseError` where
    /// the first cell is no unsigned numeral or a field is missing or
    /// malformed, and with `UnknownDiscriminant` where the first cell is a
    /// numeral, however large, that names no kind of the catalog.
    pub fn from_string(s: String) -> (r: Result<DataType, RecError>)
        ensures
            r == parse_sample(s@),
            r matches Ok(v) ==> v.wf(),
    {
        let text = chars_of(s.as_str());
        let cells = cell_ranges(&text);
        let ghost parts = split_cells(text@);
        let d = match read_unsigned(&text, cells[0].0, cells[0].1, (KINDS - 1) as u128) {
            Some(d) => d as u8,
            None => {
                return if is_unsigned(&text, cells[0].0, cells[0].1) {
                    Err(RecError::UnknownDiscriminant)
                } else {
                    Err(RecError::ParseError)
                };
            },
        };
        match d {
            0 => Ok(DataType::Null(0)),
            2 => match read_int_field(&text, &cells, 1) {
                Some(a) => Ok(DataType::Distance(a)),
                None => Err(RecError::ParseError),
            },
            7 => match read_real_field(&text, &cells, 1) {
                Some(a) => Ok(DataType::SyncError(a)),
                None => Err(RecError::ParseError),
            },
            10 => {
                let a = match read_int_triple(&text, &cells, 1) {
                    Some(a) => a,
                    None => {
                        return Err(RecError::ParseError);
                    },
                };
                match read_int_triple(&text, &cells, 4) {
                    Some(b) => Ok(DataType::RGB(a, b)),
                    None => Err(RecError::ParseError),
                }
            },
            6 | 8 | 9 => {
                let a = match read_real_field(&text, &cells, 1) {
                    Some(a) => a,
                    None => {
                        return Err(RecError::ParseError);
                    },
                };
                let b = match read_real_field(&text, &cells, 2) {
                    Some(b) => b,
                    None => {
                        return Err(RecError::ParseError);
                    },
                };
                if d == 6 {
                    Ok(DataType::DrivenDistance(a, b))
                } else if d == 8 {
                    Ok(DataType::Correction(a, b))
                } else {
                    Ok(DataType::AverageSpeed(a, b))
                }
            },
            1 | 3 | 4 | 5 | 11 => {
                let a = match read_int_field(&text, &cells, 1) {
                    Some(a) => a,
                    None => {
                        return Err(RecError::ParseError);
                    },
                };
                let b = match read_int_field(&text, &cells, 2) {
                    Some(b) => b,
                    None => {
                        return Err(RecError::ParseError);
                    },
                };
                if d == 1 {
                    Ok(DataType::Color(a, b))
                } else if d == 3 {
                    Ok(DataType::CalcSpeed(a, b))
                } else if d == 4 {
                    Ok(DataType::SyncSpeed(a, b))
                } else if d == 5 {
                    Ok(DataType::RealSpeeds(a, b))
                } else {
                    Ok(DataType::CurTarSpeeds(a, b))
                }
            },
            _ => Err(RecError::UnknownDiscriminant),
        }
    }

    /// The heading of the column of this kind, one name for each field; empty
    /// for an empty column.
    pub fn write_description(&self) -> (s: String)
        ensures
            s@ == self.description(),
    {
        match self {
            DataType::Null(_) => String::new(),
            DataType::Color(_, _) => String::from_str("right color, left color"),
            DataType::Distance(_) => String::from_str("dist"),
            DataType::CalcSpeed(_, _) => String::from_str("right calculated v, left calculated v"),
            DataType::SyncSpeed(_, _) => String::from_str("right synced v, left synced v"),
            DataType::RealSpeeds(_, _) => String::from_str("right real v, left real v"),
            DataType::DrivenDistance(_, _) => String::from_str("right distance, left distance"),
            DataType::SyncError(_) => String::from_str("sync error"),
            DataType::Correction(_, _) => String::from_str("right correction, left correction"),
            DataType::AverageSpeed(_, _) => String::from_str(
                "right average speed, left average speed",
            ),
            DataType::RGB(_, _) => String::from_str(
                "right r, right g, right b, left r, left g, left b",
            ),
            DataType::CurTarSpeeds(_, _) => String::from_str("current speed, target speed"),
        }
    }
}

/// Appends a comma and a space to `out`.
pub fn push_separator(out: &mut String)
    ensures
        final(out)@ == old(out)@ + separator(),
{
    proof {
        reveal_strlit(", ");
    }
    out.append(", ");
    assert(out@ =~= old(out)@ + separator());
}

/// Appends `w` times `null` to `out`, with a separator between each two.
pub fn push_nulls(out: &mut String, w: u8)
    ensures
        final(out)@ == old(out)@ + join_cells(Seq::new(w as nat, |k: int| null_text())),
{
    let ghost head = out@;
    let mut i: u8 = 0;
    assert(Seq::new(0, |k: int| null_text()) =~= Seq::<Seq<char>>::empty());
    assert(out@ =~= head + join_cells(Seq::new(0, |k: int| null_text())));
    while i < w
        invariant
            i <= w,
            out@ == head + join_cells(Seq::new(i as nat, |k: int| null_text())),
        decreases w - i,
    {
        let ghost before = Seq::new(i as nat, |k: int| null_text());
        let ghost after = Seq::new((i + 1) as nat, |k: int| null_text());
        proof {
            reveal_strlit(", ");
            reveal_strlit("null");
            assert(after.drop_last() =~= before);
            assert(after.last() == null_text());
            lemma_join_len(before);
            if i > 0 {
                assert(before[0].len() > 0);
            }
        }
        if i > 0 {
            out.append(", ");
        }
        out.append("null");
        assert(out@ =~= head + join_cells(after));
        i = i + 1;
    }
}

/// Appends two integers to `out`, with a separator between them.
pub fn push_int_pair(out: &mut String, a: i16, b: i16)
    ensures
        final(out)@ == old(out)@ + join_cells(seq![int_text(a as int), int_text(b as int)]),
{
    push_int(out, a);
    push_separator(out);
    push_int(out, b);
    proof {
        lemma_int_text_chars(a as int);
        lemma_int_text_chars(b as int);
        lemma_join_two(int_text(a as int), int_text(b as int));
    }
    assert(out@ =~= old(out)@ + (int_text(a as int) + separator() + int_text(b as int)));
}

/// Appends two real-valued readings to `out`, with a separator between them.
pub fn push_real_pair(out: &mut String, a: &Real, b: &Real)
    ensures
        final(out)@ == old(out)@ + join_cells(seq![a.text(), b.text()]),
{
    a.push_text(out);
    push_separator(out);
    b.push_text(out);
    proof {
        lemma_real_text_chars(*a);
        lemma_real_text_chars(*b);
        lemma_join_two(a.text(), b.text());
    }
    assert(out@ =~= old(out)@ + (a.text() + separator() + b.text()));
}

/// Appends the six integers of two triples to `out`, with a separator between
/// each two.
pub fn push_int_six(out: &mut String, a: (i16, i16, i16), b: (i16, i16, i16))
    ensures
        final(out)@ == old(out)@ + join_cells(
            seq![
                int_text(a.0 as int),
                int_text(a.1 as int),
                int_text(a.2 as int),
                int_text(b.0 as int),
                int_text(b.1 as int),
                int_text(b.2 as int),
            ],
        ),
{
    let ghost t0 = int_text(a.0 as int);
    let ghost t1 = int_text(a.1 as int);
    let ghost t2 = int_text(a.2 as int);
    let ghost t3 = int_text(b.0 as int);
    let ghost t4 = int_text(b.1 as int);
    let ghost t5 = int_text(b.2 as int);
    let ghost head = out@;
    push_int_pair(out, a.0, a.1);
    proof {
        lemma_int_text_chars(a.0 as int);
        lemma_int_text_chars(a.2 as int);
        lemma_int_text_chars(b.0 as int);
        lemma_int_text_chars(b.1 as int);
        lemma_int_text_chars(b.2 as int);
        lemma_join_len(seq![t0, t1]);
        assert(seq![t0, t1][0].len() > 0);
    }
    let ghost c2 = seq![t0, t1];
    push_separator(out);
    push_int(out, a.2);
    let ghost c3 = c2.push(t2);
    proof {
        lemma_join_push(c2, t2);
        assert(out@ =~= head + join_cells(c3));
        lemma_join_len(c3);
        assert(c3[0].len() > 0);
    }
    push_separator(out);
    push_int(out, b.0);
    let ghost c4 = c3.push(t3);
    proof {
        lemma_join_push(c3, t3);
        assert(out@ =~= head + join_cells(c4));
        lemma_join_len(c4);
        assert(c4[0].len() > 0);
    }
    push_separator(out);
    push_int(out, b.1);
    let ghost c5 = c4.push(t4);
    proof {
        lemma_join_push(c4, t4);
        assert(out@ =~= head + join_cells(c5));
        lemma_join_len(c5);
        assert(c5[0].len() > 0);
    }
    push_separator(out);
    push_int(out, b.2);
    let ghost c6 = c5.push(t5);
    proof {
        lemma_join_push(c5, t5);
        assert(out@ =~= head + join_cells(c6));
        assert(c6 =~= seq![t0, t1, t2, t3, t4, t5]);
    }
}

/// The cell `k` of the row `text` as a sixteen-bit integer.
pub fn read_int_field(text: &Vec<char>, cells: &Vec<(usize, usize)>, k: usize) -> (r: Option<i16>)
    requires
        is_cell_ranges(text@, cells@),
    ensures
        r == int_field(split_cells(text@), k as int),
{
    if k < cells.len() {
        read_i16(text, cells[k].0, cells[k].1)
    } else {
        None
    }
}

/// The cell `k` of the row `text` as a real-valued reading.
pub fn read_real_field(text: &Vec<char>, cells: &Vec<(usize, usize)>, k: usize) -> (r: Option<
    Real,
>)
    requires
        is_cell_ranges(text@, cells@),
    ensures
        r == real_field(split_cells(text@), k as int),
        r matches Some(x) ==> x.wf(),
{
    if k < cells.len() {
        Real::read(text, cells[k].0, cells[k].1)
    } else {
        None
    }
}

/// The cells `k`, `k + 1` and `k + 2` of the row `text` as integers.
pub fn read_int_triple(text: &Vec<char>, cells: &Vec<(usize, usize)>, k: usize) -> (r: Option<
    (i16, i16, i16),
>)
    requires
        is_cell_ranges(text@, cells@),
        k <= usize::MAX - 2,
    ensures
        r == int_triple(split_cells(text@), k as int),
{
    let a = match read_int_field(text, cells, k) {
        Some(a) => a,
        None => {
            return None;
        },
    };
    let b = match read_int_field(text, cells, k + 1) {
        Some(b) => b,
        None => {
            return None;
        },
    };
    match read_int_field(text, cells, k + 2) {
        Some(c) => Some((a, b, c)),
        None => None,
    }
}

/// The discriminant of a reading names a kind of the catalog, and the table
/// of widths gives for it the number of fields that the reading holds. A
/// reading takes as many cells as it has fields; an empty column takes as
/// many as it is wide.
pub proof fn lemma_arity_of_discriminant(v: DataType)
    ensures
        v.discriminant() < KINDS,
        arity(v.discriminant()) == Some(v.field_count() as u8),
        !(v is Null) ==> v.width() == v.field_count(),
        v.fields().len() == v.width(),
{
}

/// Two readings of one kind have the same discriminant, and the discriminant
/// alone tells the kind.
pub proof fn lemma_discriminant_tells_kind(d: u8)
    ensures
        d < KINDS <==> DataType::of_kind(d) is Some,
        d < KINDS <==> arity(d) is Some,
        DataType::of_kind(d) matches Some(v) ==> v.discriminant() == d,
{
}

/// The row that denotes a value splits into its discriminant and its cells.
pub proof fn lemma_tagged_cells(v: DataType)
    ensures
        split_cells(v.tagged_text()) == seq![digits_of(v.discriminant() as nat)] + v.fields(),
{
    let tag = digits_of(v.discriminant() as nat);
    let cells = seq![tag] + v.fields();
    lemma_digits_of_shape(v.discriminant() as nat);
    lemma_fields_shape(v);
    assert forall|k: int| 0 <= k < cells.len() implies (#[trigger] cells[k]).len() > 0 by {
        if k > 0 {
            assert(cells[k] == v.fields()[k - 1]);
        }
    }
    assert forall|k: int, i: int|
        0 <= k < cells.len() && 0 <= i < cells[k].len() implies #[trigger] cells[k][i] != ',' by {
        if k > 0 {
            assert(cells[k] == v.fields()[k - 1]);
            assert(v.fields()[k - 1][i] != ',');
        } else {
            assert(is_digit(tag[i]));
        }
    }
    lemma_split_join(cells);
}

/// A cell that holds the text of an integer reads back as that integer.
pub proof fn lemma_int_field(cells: Seq<Seq<char>>, k: int, a: i16)
    requires
        0 <= k < cells.len(),
        cells[k] == int_text(a as int),
    ensures
        int_field(cells, k) == Some(a),
{
    lemma_int_text_round_trip(a as int);
}

/// A cell that holds the text of a real-valued reading in lowest terms reads
/// back as that reading.
pub proof fn lemma_real_field(cells: Seq<Seq<char>>, k: int, a: Real)
    requires
        0 <= k < cells.len(),
        cells[k] == a.text(),
        a.wf(),
    ensures
        real_field(cells, k) == Some(a),
{
    lemma_real_round_trip(a);
}

/// The cells of a reading, behind any first cell, read back as that reading.
pub proof fn lemma_fields_round_trip(v: DataType, first: Seq<char>)
    requires
        v.wf(),
        v matches DataType::Null(w) ==> w == 0,
    ensures
        parse_fields(v.discriminant(), seq![first] + v.fields()) == Ok::<DataType, RecError>(v),
{
    let cells = seq![first] + v.fields();
    match v {
        DataType::Null(w) => {},
        DataType::Distance(a) => {
            lemma_int_field(cells, 1, a);
        },
        DataType::SyncError(a) => {
            lemma_real_field(cells, 1, a);
        },
        DataType::Color(a, b) | DataType::CalcSpeed(a, b) | DataType::SyncSpeed(a, b)
        | DataType::RealSpeeds(a, b) | DataType::CurTarSpeeds(a, b) => {
            lemma_int_field(cells, 1, a);
            lemma_int_field(cells, 2, b);
        },
        DataType::DrivenDistance(a, b) | DataType::Correction(a, b) | DataType::AverageSpeed(
            a,
            b,
        ) => {
            lemma_real_field(cells, 1, a);
            lemma_real_field(cells, 2, b);
        },
        DataType::RGB(a, b) => {
            lemma_int_field(cells, 1, a.0);
            lemma_int_field(cells, 2, a.1);
            lemma_int_field(cells, 3, a.2);
            lemma_int_field(cells, 4, b.0);
            lemma_int_field(cells, 5, b.1);
            lemma_int_field(cells, 6, b.2);
            assert(int_triple(cells, 1) == Some(a));
            assert(int_triple(cells, 4) == Some(b));
        },
    }
}

/// The row that denotes a reading reads back as that reading, bit for bit:
/// for every reading whose numbers are in lowest terms, and for the empty
/// column of width zero.
pub proof fn lemma_text_round_trip(v: DataType)
    requires
        v.wf(),
        v matches DataType::Null(w) ==> w == 0,
    ensures
        parse_sample(v.tagged_text()) == Ok::<DataType, RecError>(v),
{
    let tag = digits_of(v.discriminant() as nat);
    lemma_tagged_cells(v);
    lemma_nat_text_round_trip(v.discriminant() as nat);
    lemma_fields_round_trip(v, tag);
    assert((seq![tag] + v.fields())[0] == tag);
}

/// No cell of a value is empty, and none holds a comma.
pub proof fn lemma_fields_shape(v: DataType)
    ensures
        forall|k: int| 0 <= k < v.fields().len() ==> (#[trigger] v.fields()[k]).len() > 0,
        forall|k: int, i: int|
            0 <= k < v.fields().len() && 0 <= i < v.fields()[k].len() ==> #[trigger] v.fields()[k][i]
                != ',',
{
    match v {
        DataType::Null(w) => {},
        DataType::Distance(a) => {
            lemma_int_text_chars(a as int);
        },
        DataType::SyncError(a) => {
            lemma_real_text_chars(a);
        },
        DataType::Color(a, b) | DataType::CalcSpeed(a, b) | DataType::SyncSpeed(a, b)
        | DataType::RealSpeeds(a, b) | DataType::CurTarSpeeds(a, b) => {
            lemma_int_text_chars(a as int);
            lemma_int_text_chars(b as int);
        },
        DataType::DrivenDistance(a, b) | DataType::Correction(a, b) | DataType::AverageSpeed(
            a,
            b,
        ) => {
            lemma_real_text_chars(a);
            lemma_real_text_chars(b);
        },
        DataType::RGB(a, b) => {
            lemma_int_text_chars(a.0 as int);
            lemma_int_text_chars(a.1 as int);
            lemma_int_text_chars(a.2 as int);
            lemma_int_text_chars(b.0 as int);
            lemma_int_text_chars(b.1 as int);
            lemma_int_text_chars(b.2 as int);
        },
    }
}

} // verus!
