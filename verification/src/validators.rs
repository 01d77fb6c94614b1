//! Validator kinds, the `DataType` dispatch over them, and the error
//! values that a failed check produces.

use vstd::prelude::*;

pub mod nullable;
pub mod numeric;
pub mod text;
pub mod time;
pub mod unique;

pub use nullable::Empty;
pub use numeric::Float;
pub use numeric::Integer;
pub use text::Literal;
pub use text::Text;
pub use time::Date;
pub use time::DateTime;
pub use time::DateTimeFormat;
pub use time::Time;
pub use unique::Unique;

verus! {

/// Error returned by a single `validate` / `consider` call: the value is
/// not compatible with the validator's current state.
#[derive(Debug)]
pub struct ValidationError {
    pub details: String,
}

/// Positional error produced by the schema validation pass: the 0-based
/// row and column where a value first disagreed with the inferred schema.
#[derive(Debug)]
pub struct SchemaError {
    pub line_no: usize,
    pub column_no: usize,
    pub details: String,
}

impl SchemaError {
    pub fn new(line_no: usize, column_no: usize, details: String) -> (r: Self)
        ensures
            r.line_no == line_no,
            r.column_no == column_no,
            r.details@ == details@,
    {
        SchemaError { line_no, column_no, details }
    }
}

// ---------------------------------------------------------------------
// DataType: the closed union of validator kinds
// ---------------------------------------------------------------------
/// One candidate data kind together with the narrowing state it has
/// accumulated.  Dispatch is structural: each operation matches on the
/// variant and forwards to the kind's own implementation.
#[derive(Debug)]
pub enum DataType {
    Text(Text),
    Integer(Integer),
    Float(Float),
    Empty(Empty),
    Literal(Literal),
    Unique(Unique),
    Date(Date),
    Time(Time),
    DateTime(DateTime),
}

/// The mathematical state of a candidate: what the contracts speak of.
/// `Unique`'s shared seen-set lives outside any one handle, so its
/// state here is a bare tag.
#[verifier::ext_equal]
pub enum DataTypeView {
    Text(Text),
    Integer(Integer),
    Float(Float),
    Empty,
    Literal(Seq<String>),
    Unique,
    Date(Seq<String>),
    Time(Seq<String>),
    DateTime(Seq<DateTimeFormat>),
}

impl View for DataType {
    type V = DataTypeView;

    open spec fn view(&self) -> DataTypeView {
        match self {
            DataType::Text(t) => DataTypeView::Text(*t),
            DataType::Integer(i) => DataTypeView::Integer(*i),
            DataType::Float(f) => DataTypeView::Float(*f),
            DataType::Empty(_) => DataTypeView::Empty,
            DataType::Literal(l) => DataTypeView::Literal(l.values@),
            DataType::Unique(_) => DataTypeView::Unique,
            DataType::Date(d) => DataTypeView::Date(d.formats@),
            DataType::Time(t) => DataTypeView::Time(t.formats@),
            DataType::DateTime(d) => DataTypeView::DateTime(d.formats@),
        }
    }
}

/// Whether the candidate's verdicts are a function of its state and the
/// value alone.  Only `Unique` answers from a history that its state
/// does not carry.
pub open spec fn consider_deterministic(d: DataTypeView) -> bool {
    !(d is Unique)
}

/// Whether `consider` accepts the value, for deterministic candidates.
pub open spec fn spec_consider_ok(d: DataTypeView, v: Seq<char>) -> bool {
    match d {
        DataTypeView::Text(_) => true,
        DataTypeView::Integer(_) => numeric::parses_as_i128(v),
        DataTypeView::Float(_) => numeric::is_float_literal(v),
        DataTypeView::Empty => v.len() == 0,
        DataTypeView::Literal(values) => text::literal_contains(values, v),
        DataTypeView::Unique => true,
        DataTypeView::Date(fs) => time::date_formats_kept(fs, v).len() > 0,
        DataTypeView::Time(fs) => time::time_formats_kept(fs, v).len() > 0,
        DataTypeView::DateTime(fs) => time::datetime_formats_kept(fs, v).len() > 0,
    }
}

/// The candidate's state after `consider` observes the value, whether
/// or not the value was accepted: numeric and text statistics widen
/// only on acceptance, while format lists keep exactly the formats the
/// value fails to eliminate.
pub open spec fn spec_consider_next(d: DataTypeView, v: Seq<char>) -> DataTypeView {
    match d {
        DataTypeView::Text(t) => DataTypeView::Text(text::text_considered(t, v)),
        DataTypeView::Integer(i) => if numeric::parses_as_i128(v) {
            DataTypeView::Integer(numeric::integer_considered(i, v))
        } else {
            DataTypeView::Integer(i)
        },
        DataTypeView::Float(f) => if numeric::is_float_literal(v) {
            DataTypeView::Float(numeric::float_considered(f, v))
        } else {
            DataTypeView::Float(f)
        },
        DataTypeView::Empty => DataTypeView::Empty,
        DataTypeView::Literal(values) => DataTypeView::Literal(values),
        DataTypeView::Unique => DataTypeView::Unique,
        DataTypeView::Date(fs) => DataTypeView::Date(time::date_formats_kept(fs, v)),
        DataTypeView::Time(fs) => DataTypeView::Time(time::time_formats_kept(fs, v)),
        DataTypeView::DateTime(fs) => DataTypeView::DateTime(time::datetime_formats_kept(fs, v)),
    }
}

/// Whether `validate` accepts the value, for deterministic candidates.
pub open spec fn spec_validate_ok(d: DataTypeView, v: Seq<char>) -> bool {
    match d {
        DataTypeView::Text(_) => true,
        DataTypeView::Integer(_) => numeric::parses_as_i128(v),
        DataTypeView::Float(f) => numeric::is_float_literal(v) && (f.leading_plus
            || !numeric::starts_with_plus(v)),
        DataTypeView::Empty => v.len() == 0,
        DataTypeView::Literal(values) => text::literal_contains(values, v),
        DataTypeView::Unique => true,
        DataTypeView::Date(fs) => time::date_any_accepts(fs, v),
        DataTypeView::Time(fs) => time::time_any_accepts(fs, v),
        DataTypeView::DateTime(fs) => time::datetime_any_accepts(fs, v),
    }
}

/// Whether the candidate's state already covers the value: this holds
/// right after `consider` accepts the value, keeps holding through any
/// later accepted value, and makes `validate` accept the value.
pub open spec fn spec_absorbed(d: DataTypeView, v: Seq<char>) -> bool {
    match d {
        DataTypeView::Text(_) => true,
        DataTypeView::Integer(_) => numeric::parses_as_i128(v),
        DataTypeView::Float(f) => numeric::is_float_literal(v) && (f.leading_plus
            || !numeric::starts_with_plus(v)),
        DataTypeView::Empty => v.len() == 0,
        DataTypeView::Literal(values) => text::literal_contains(values, v),
        DataTypeView::Unique => true,
        DataTypeView::Date(fs) => fs.len() > 0 && forall|i: int|
            0 <= i < fs.len() ==> time::date_format_accepts(v, #[trigger] fs[i]@),
        DataTypeView::Time(fs) => fs.len() > 0 && forall|i: int|
            0 <= i < fs.len() ==> time::time_format_accepts(v, #[trigger] fs[i]@),
        DataTypeView::DateTime(fs) => fs.len() > 0 && forall|i: int|
            0 <= i < fs.len() ==> time::datetime_format_matches(#[trigger] fs[i], v),
    }
}

/// A value a candidate has just accepted is absorbed: every format a
/// date-like kind retains accepts it, and the widened statistics of
/// the other kinds cover it.
pub proof fn lemma_consider_absorbs(d: DataTypeView, v: Seq<char>)
    requires
        spec_consider_ok(d, v),
    ensures
        spec_absorbed(spec_consider_next(d, v), v),
{
    match d {
        DataTypeView::Date(fs) => {
            let kept = time::date_formats_kept(fs, v);
            assert forall|i: int| 0 <= i < kept.len() implies time::date_format_accepts(
                v,
                #[trigger] kept[i]@,
            ) by {
                time::lemma_date_kept(fs, v, i);
            }
        },
        DataTypeView::Time(fs) => {
            let kept = time::time_formats_kept(fs, v);
            assert forall|i: int| 0 <= i < kept.len() implies time::time_format_accepts(
                v,
                #[trigger] kept[i]@,
            ) by {
                time::lemma_time_kept(fs, v, i);
            }
        },
        DataTypeView::DateTime(fs) => {
            let kept = time::datetime_formats_kept(fs, v);
            assert forall|i: int| 0 <= i < kept.len() implies time::datetime_format_matches(
                #[trigger] kept[i],
                v,
            ) by {
                time::lemma_datetime_kept(fs, v, i);
            }
        },
        _ => {},
    }
}

/// Absorption survives any later accepted value: statistics only
/// widen, and a retained format list only shrinks to formats that
/// already accepted the absorbed value.
pub proof fn lemma_absorbed_preserved(d: DataTypeView, v: Seq<char>, w: Seq<char>)
    requires
        spec_absorbed(d, v),
        spec_consider_ok(d, w),
    ensures
        spec_absorbed(spec_consider_next(d, w), v),
{
    match d {
        DataTypeView::Date(fs) => {
            let kept = time::date_formats_kept(fs, w);
            assert forall|i: int| 0 <= i < kept.len() implies time::date_format_accepts(
                v,
                #[trigger] kept[i]@,
            ) by {
                time::lemma_date_kept(fs, w, i);
                let j = choose|j: int| 0 <= j < fs.len() && fs[j] == kept[i];
                assert(time::date_format_accepts(v, fs[j]@));
            }
        },
        DataTypeView::Time(fs) => {
            let kept = time::time_formats_kept(fs, w);
            assert forall|i: int| 0 <= i < kept.len() implies time::time_format_accepts(
                v,
                #[trigger] kept[i]@,
            ) by {
                time::lemma_time_kept(fs, w, i);
                let j = choose|j: int| 0 <= j < fs.len() && fs[j] == kept[i];
                assert(time::time_format_accepts(v, fs[j]@));
            }
        },
        DataTypeView::DateTime(fs) => {
            let kept = time::datetime_formats_kept(fs, w);
            assert forall|i: int| 0 <= i < kept.len() implies time::datetime_format_matches(
                #[trigger] kept[i],
                v,
            ) by {
                time::lemma_datetime_kept(fs, w, i);
                let j = choose|j: int| 0 <= j < fs.len() && fs[j] == kept[i];
                assert(time::datetime_format_matches(fs[j], v));
            }
        },
        _ => {},
    }
}

/// An absorbed value passes `validate`.
pub proof fn lemma_absorbed_validates(d: DataTypeView, v: Seq<char>)
    requires
        spec_absorbed(d, v),
    ensures
        spec_validate_ok(d, v),
{
    match d {
        DataTypeView::Date(fs) => {
            assert(time::date_format_accepts(v, fs[0]@));
        },
        DataTypeView::Time(fs) => {
            assert(time::time_format_accepts(v, fs[0]@));
        },
        DataTypeView::DateTime(fs) => {
            assert(time::datetime_format_matches(fs[0], v));
        },
        _ => {},
    }
}

impl Clone for DataType {
    /// Cloning keeps the candidate's state; a cloned `Unique` shares
    /// the seen-value history with the original.
    fn clone(&self) -> (r: Self)
        ensures
            r@ == self@,
    {
        match self {
            DataType::Text(t) => DataType::Text(*t),
            DataType::Integer(i) => DataType::Integer(*i),
            DataType::Float(f) => DataType::Float(*f),
            DataType::Empty(e) => DataType::Empty(*e),
            DataType::Literal(l) => DataType::Literal(l.clone()),
            DataType::Unique(u) => DataType::Unique(u.clone()),
            DataType::Date(d) => DataType::Date(d.clone()),
            DataType::Time(t) => DataType::Time(t.clone()),
            DataType::DateTime(d) => DataType::DateTime(d.clone()),
        }
    }
}

impl DataType {
    /// Non-mutating check against the candidate's current state.  For
    /// every kind but `Unique` the verdict is pinned down; `Unique`
    /// answers from the shared seen-value history.
    pub fn validate(&self, value: &str) -> (r: Result<(), ValidationError>)
        ensures
            consider_deterministic(self@) ==> (r is Ok <==> spec_validate_ok(self@, value@)),
    {
        match self {
            DataType::Text(t) => t.validate(value),
            DataType::Integer(i) => i.validate(value),
            DataType::Float(f) => f.validate(value),
            DataType::Empty(e) => e.validate(value),
            DataType::Literal(l) => l.validate(value),
            DataType::Unique(u) => u.validate(value),
            DataType::Date(d) => d.validate(value),
            DataType::Time(t) => t.validate(value),
            DataType::DateTime(d) => d.validate(value),
        }
    }

    /// Mutating update: tries to accept the value and moves the state
    /// to `spec_consider_next`.  For every kind but `Unique` the
    /// verdict is `spec_consider_ok`.
    pub fn consider(&mut self, value: &str) -> (r: Result<(), ValidationError>)
        ensures
            final(self)@ == spec_consider_next(old(self)@, value@),
            consider_deterministic(old(self)@) ==> (r is Ok <==> spec_consider_ok(
                old(self)@,
                value@,
            )),
    {
        match self {
            DataType::Text(t) => t.consider(value),
            DataType::Integer(i) => i.consider(value),
            DataType::Float(f) => f.consider(value),
            DataType::Empty(e) => e.consider(value),
            DataType::Literal(l) => l.consider(value),
            DataType::Unique(u) => u.consider(value),
            DataType::Date(d) => d.consider(value),
            DataType::Time(t) => t.consider(value),
            DataType::DateTime(d) => d.consider(value),
        }
    }
}

} // verus!
