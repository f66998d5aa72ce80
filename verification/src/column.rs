//! Building one column of 16-bit integers from what was decoded of a Parquet
//! file.

use vstd::prelude::*;

verus! {

/// Why a column could not be loaded.
#[derive(Clone, Copy, Debug, PartialEq, Eq, Structural)]
pub enum LoadError {
    /// A part of the column could not be read: the file is cut short or
    /// damaged.
    Io,
    /// The schema does not declare exactly one field, or that field is a
    /// group and no plain column.
    SchemaMismatch,
    /// The column does not store 32-bit integers, a value is missing or
    /// repeated, or a value lies outside the 16-bit signed range.
    Decode,
}

impl LoadError {
    /// A short text for the error.
    pub fn message(&self) -> (text: &'static str)
        ensures
            text@ == match *self {
                LoadError::Io => "cannot read the file as Parquet"@,
                LoadError::SchemaMismatch => "the schema does not declare exactly one column"@,
                LoadError::Decode => "a value is not a 16-bit signed integer"@,
            },
    {
        match self {
            LoadError::Io => "cannot read the file as Parquet",
            LoadError::SchemaMismatch => "the schema does not declare exactly one column",
            LoadError::Decode => "a value is not a 16-bit signed integer",
        }
    }
}

/// What was decoded of the column in one row group, as a plain value.
/// `None`: it could not be read. `Some(None)`: it does not store 32-bit
/// integers. Else the number of records, the number of levels, and the
/// 32-bit values as they are stored, in stored order and without those that
/// are missing.
pub open spec fn group_view(found: Option<Option<(usize, usize, Vec<i32>)>>) -> Option<
    Option<(nat, nat, Seq<i32>)>,
> {
    match found {
        None => None,
        Some(None) => Some(None),
        Some(Some((records, levels, values))) => Some(
            Some((records as nat, levels as nat, values@)),
        ),
    }
}

/// What was decoded of the row groups, as plain values.
pub open spec fn groups_view(groups: Seq<Option<Option<(usize, usize, Vec<i32>)>>>) -> Seq<
    Option<Option<(nat, nat, Seq<i32>)>>,
> {
    groups.map_values(|found: Option<Option<(usize, usize, Vec<i32>)>>| group_view(found))
}

/// The value fits 16 bits.
pub open spec fn in_short_range(value: i32) -> bool {
    -32768 <= value <= 32767
}

/// Every value fits 16 bits.
pub open spec fn all_in_short_range(values: Seq<i32>) -> bool {
    forall|i: int| 0 <= i < values.len() ==> in_short_range(#[trigger] values[i])
}

/// The values as 16-bit integers.
pub open spec fn narrowed(values: Seq<i32>) -> Seq<i16> {
    Seq::new(values.len(), |i: int| values[i] as i16)
}

/// The 16-bit values that a row group of the given numbers of records and
/// levels and the given stored values stands for. There has to be one level
/// and one value for each record, so that no value is missing and none
/// repeated, and each value has to fit 16 bits: else it is a decoding error.
pub open spec fn values_outcome(records: nat, levels: nat, values: Seq<i32>) -> Result<
    Seq<i16>,
    LoadError,
> {
    if records == levels && levels == values.len() && all_in_short_range(values) {
        Ok(narrowed(values))
    } else {
        Err(LoadError::Decode)
    }
}

/// The 16-bit values that a row group stands for, by what was decoded of it.
pub open spec fn group_outcome(found: Option<Option<(nat, nat, Seq<i32>)>>) -> Result<
    Seq<i16>,
    LoadError,
> {
    match found {
        None => Err(LoadError::Io),
        Some(None) => Err(LoadError::Decode),
        Some(Some((records, levels, values))) => values_outcome(records, levels, values),
    }
}

/// The 16-bit values of the first `n` row groups, one group after the other,
/// or the error of the first group that has one.
pub open spec fn groups_outcome(
    groups: Seq<Option<Option<(nat, nat, Seq<i32>)>>>,
    n: nat,
) -> Result<Seq<i16>, LoadError>
    decreases n,
{
    if n == 0 {
        Ok(Seq::empty())
    } else {
        match groups_outcome(groups, (n - 1) as nat) {
            Err(e) => Err(e),
            Ok(before) => match group_outcome(groups[n - 1]) {
                Err(e) => Err(e),
                Ok(values) => Ok(before + values),
            },
        }
    }
}

/// The column that a file stands for: by the number of fields that its
/// schema declares at its top, whether the first of them is a plain column,
/// and what was decoded of its row groups. The schema decides before any row
/// group counts.
pub open spec fn load_outcome(
    field_count: nat,
    first_plain: bool,
    groups: Seq<Option<Option<(nat, nat, Seq<i32>)>>>,
) -> Result<Seq<i16>, LoadError> {
    if field_count != 1 || !first_plain {
        Err(LoadError::SchemaMismatch)
    } else {
        groups_outcome(groups, groups.len())
    }
}

/// `out` is the outcome `expected`, the loaded values taken by their view.
pub open spec fn agrees(
    out: Result<Vec<i16>, LoadError>,
    expected: Result<Seq<i16>, LoadError>,
) -> bool {
    match expected {
        Ok(values) => out matches Ok(v) && v@ == values,
        Err(e) => out matches Err(f) && f == e,
    }
}

/// An error among the first row groups is the error of the whole file.
pub proof fn lemma_first_error_stays(
    groups: Seq<Option<Option<(nat, nat, Seq<i32>)>>>,
    k: nat,
    n: nat,
)
    requires
        k <= n,
        groups_outcome(groups, k) is Err,
    ensures
        groups_outcome(groups, n) == groups_outcome(groups, k),
    decreases n,
{
    if k < n {
        lemma_first_error_stays(groups, k, (n - 1) as nat);
    }
}

/// Turns the stored 32-bit values of a row group into 16-bit values: there
/// has to be one level and one value for each record, and each value has to
/// fit 16 bits.
pub fn column_values(records: usize, levels: usize, values: &Vec<i32>) -> (out: Result<
    Vec<i16>,
    LoadError,
>)
    ensures
        agrees(out, values_outcome(records as nat, levels as nat, values@)),
{
    if records != levels || levels != values.len() {
        return Err(LoadError::Decode);
    }
    // Read each value.
    let mut xs: Vec<i16> = Vec::new();
    let mut i: usize = 0;
    while i < values.len()
        invariant
            records == levels,
            levels == values@.len(),
            i <= values@.len(),
            xs@.len() == i,
            forall|k: int| 0 <= k < i ==> in_short_range(#[trigger] values@[k]),
            forall|k: int| 0 <= k < i ==> xs@[k] == values@[k] as i16,
        decreases values@.len() - i,
    {
        let value: i32 = values[i];
        if value < -32768 || value > 32767 {
            assert(!in_short_range(values@[i as int]));
            return Err(LoadError::Decode);
        }
        xs.push(value as i16);
        i = i + 1;
    }
    assert(xs@ =~= narrowed(values@));
    Ok(xs)
}

/// Builds the one column of a Parquet file from what was decoded of the
/// file, in stored order: the number of fields that the schema declares at
/// its top, whether the first of them is a plain column, and for each row
/// group what its first column holds (see `group_view`). The schema has to
/// declare one plain column; the row groups count only then.
pub fn load_groups(
    field_count: usize,
    first_plain: bool,
    groups: &Vec<Option<Option<(usize, usize, Vec<i32>)>>>,
) -> (out: Result<Vec<i16>, LoadError>)
    ensures
        agrees(out, load_outcome(field_count as nat, first_plain, groups_view(groups@))),
{
    if field_count != 1 || !first_plain {
        return Err(LoadError::SchemaMismatch);
    }
    let ghost stored = groups_view(groups@);
    let mut xs: Vec<i16> = Vec::new();
    let mut g: usize = 0;
    while g < groups.len()
        invariant
            field_count == 1,
            first_plain,
            stored == groups_view(groups@),
            stored.len() == groups@.len(),
            g <= groups@.len(),
            groups_outcome(stored, g as nat) == Ok::<Seq<i16>, LoadError>(xs@),
        decreases groups@.len() - g,
    {
        assert(stored[g as int] == group_view(groups@[g as int]));
        let mut values: Vec<i16> = match &groups[g] {
            None => {
                proof {
                    lemma_first_error_stays(stored, (g + 1) as nat, groups@.len());
                }
                return Err(LoadError::Io);
            },
            Some(None) => {
                proof {
                    lemma_first_error_stays(stored, (g + 1) as nat, groups@.len());
                }
                return Err(LoadError::Decode);
            },
            Some(Some((records, levels, values))) => match column_values(
                *records,
                *levels,
                values,
            ) {
                Err(e) => {
                    proof {
                        lemma_first_error_stays(stored, (g + 1) as nat, groups@.len());
                    }
                    return Err(e);
                },
                Ok(values) => values,
            },
        };
        xs.append(&mut values);
        g = g + 1;
    }
    Ok(xs)
}

} // verus!
