//! The inference driver (narrow a column's candidates over a record
//! stream) and the validation driver (replay a record stream against an
//! already-inferred schema).
//!
//! Both are folds over records — ordered sequences of text fields that
//! some delimited-record reader has already tokenized.  Their behaviour
//! is pinned down by a spec-level model of the same folds, whenever
//! every configured candidate answers from its own state alone.

use vstd::pervasive::VecAdditionalExecFns;
use vstd::prelude::*;

use crate::field::all_deterministic;
use crate::field::clone_data_types;
use crate::field::fields_deterministic;
use crate::field::fields_view;
use crate::field::lemma_narrow_absorbs;
use crate::field::lemma_narrow_preserves_absorbed;
use crate::field::lemma_narrow_types_deterministic;
use crate::field::types_absorbed;
use crate::validators::lemma_absorbed_validates;
use crate::validators::spec_absorbed;
use crate::field::narrow_types;
use crate::field::types_view;
use crate::field::Field;
use crate::field::FieldView;
use crate::field::Fields;
use crate::validators::consider_deterministic;
use crate::validators::spec_validate_ok;
use crate::validators::time::is_default_date_formats;
use crate::validators::time::is_default_datetime_formats;
use crate::validators::time::is_default_time_formats;
use crate::validators::DataType;
use crate::validators::DataTypeView;
use crate::validators::SchemaError;
use crate::validators::Date;
use crate::validators::DateTime;
use crate::validators::Empty;
use crate::validators::Float;
use crate::validators::Integer;
use crate::validators::Text;
use crate::validators::Time;

verus! {

/// Where a record stream comes from: a file path, or the delimited
/// text itself.
pub enum CsvInput<'a> {
    Path(&'a str),
    Value(&'a str),
}

/// Driver configuration: the candidate list a fresh column starts
/// from, the null sentinel, whether the first record names the
/// columns, and whether later records may introduce new columns.
pub struct InferOptions {
    pub data_types: Vec<DataType>,
    pub null_validator: DataType,
    pub has_headers: bool,
    pub flexible: bool,
}

/// The mathematical state of a configuration.
#[verifier::ext_equal]
pub struct InferOptionsView {
    pub data_types: Seq<DataTypeView>,
    pub null_validator: DataTypeView,
    pub has_headers: bool,
    pub flexible: bool,
}

impl View for InferOptions {
    type V = InferOptionsView;

    open spec fn view(&self) -> InferOptionsView {
        InferOptionsView {
            data_types: types_view(self.data_types@),
            null_validator: self.null_validator@,
            has_headers: self.has_headers,
            flexible: self.flexible,
        }
    }
}

/// Whether every verdict the drivers rely on is a function of state
/// and value alone: no `Unique` among the candidates or as the null
/// sentinel.
pub open spec fn options_deterministic(o: InferOptionsView) -> bool {
    consider_deterministic(o.null_validator) && all_deterministic(o.data_types)
}

/// Agreement on the parts of a shape that candidate verdicts never
/// touch: the column count, the names, and the nullable flags.
pub open spec fn same_shape(a: Seq<FieldView>, b: Seq<FieldView>) -> bool {
    a.len() == b.len() && forall|j: int|
        0 <= j < a.len() ==> (#[trigger] a[j]).name == b[j].name && a[j].nullable
            == b[j].nullable
}

impl Default for InferOptions {
    /// Candidates in priority order — integers before floats before
    /// text, then the calendar kinds — with emptiness as the null
    /// sentinel, no header row, and a fixed column count.
    fn default() -> (r: Self)
        ensures
            r.data_types@.len() == 6,
            r.data_types@[0]@ == DataTypeView::Integer(
                Integer { min_value: None, max_value: None, leading_plus: false },
            ),
            r.data_types@[1]@ == DataTypeView::Float(
                Float { leading_plus: false, e_notation: false },
            ),
            r.data_types@[2]@ == DataTypeView::Text(Text { min_length: None, max_length: None }),
            r.data_types@[3]@ matches DataTypeView::Date(fs) && is_default_date_formats(fs),
            r.data_types@[4]@ matches DataTypeView::Time(fs) && is_default_time_formats(fs),
            r.data_types@[5]@ matches DataTypeView::DateTime(fs) && is_default_datetime_formats(
                fs,
            ),
            r.null_validator@ == DataTypeView::Empty,
            !r.has_headers,
            !r.flexible,
            options_deterministic(r@),
    {
        InferOptions {
            data_types: vec![
                DataType::Integer(Integer::default()),
                DataType::Float(Float::default()),
                DataType::Text(Text::default()),
                DataType::Date(Date::default()),
                DataType::Time(Time::default()),
                DataType::DateTime(DateTime::default()),
            ],
            null_validator: DataType::Empty(Empty),
            has_headers: false,
            flexible: false,
        }
    }
}

// ---------------------------------------------------------------------
// The spec-level model of inference
// ---------------------------------------------------------------------
/// A column introduced by a wider row: unnamed, nullable, with the
/// full default candidate list.
pub open spec fn spec_fresh_field(defaults: Seq<DataTypeView>) -> FieldView {
    FieldView { name: None, valid_types: defaults, nullable: true }
}

/// In flexible mode a wider row appends fresh columns; otherwise the
/// shape is unchanged.
pub open spec fn spec_row_extend(fields: Seq<FieldView>, row_len: int, o: InferOptionsView) -> Seq<
    FieldView,
> {
    if o.flexible && row_len > fields.len() {
        fields + Seq::new(
            (row_len - fields.len()) as nat,
            |t: int| spec_fresh_field(o.data_types),
        )
    } else {
        fields
    }
}

/// One column observes one value: a null marks the column nullable and
/// constrains no candidate; any other value narrows the candidates.
pub open spec fn spec_field_observe(f: FieldView, v: Seq<char>, null: DataTypeView) -> FieldView {
    if spec_validate_ok(null, v) {
        FieldView { name: f.name, valid_types: f.valid_types, nullable: true }
    } else {
        FieldView { name: f.name, valid_types: narrow_types(f.valid_types, v), nullable: f.nullable }
    }
}

/// The first `upto` columns that the row reaches have observed their
/// value; the rest are untouched.  A row shorter than the shape leaves
/// the trailing columns alone.
pub open spec fn spec_row_observe_upto(
    fields: Seq<FieldView>,
    row: Seq<Seq<char>>,
    null: DataTypeView,
    upto: int,
) -> Seq<FieldView> {
    Seq::new(
        fields.len(),
        |t: int|
            if t < upto && t < row.len() {
                spec_field_observe(fields[t], row[t], null)
            } else {
                fields[t]
            },
    )
}

/// One inference step: extend the shape if the row is wider, then let
/// every reached column observe its value.
pub open spec fn spec_infer_row(
    fields: Seq<FieldView>,
    row: Seq<Seq<char>>,
    o: InferOptionsView,
) -> Seq<FieldView> {
    let extended = spec_row_extend(fields, row.len() as int, o);
    spec_row_observe_upto(extended, row, o.null_validator, extended.len() as int)
}

/// Inference folded over the data rows, first row first.
pub open spec fn spec_infer_rows(
    fields: Seq<FieldView>,
    rows: Seq<Seq<Seq<char>>>,
    o: InferOptionsView,
) -> Seq<FieldView>
    decreases rows.len(),
{
    if rows.len() == 0 {
        fields
    } else {
        spec_infer_rows(spec_infer_row(fields, rows.first(), o), rows.drop_first(), o)
    }
}

/// The name a header cell gives its column: none when headers are off
/// or the cell is null.
pub open spec fn spec_header_name(v: Seq<char>, o: InferOptionsView) -> Option<Seq<char>> {
    if o.has_headers && !spec_validate_ok(o.null_validator, v) {
        Some(v)
    } else {
        None
    }
}

/// The column set seeded from the first record: one column per cell,
/// each starting non-nullable with the full default candidate list.
pub open spec fn spec_initial_fields(header: Seq<Seq<char>>, o: InferOptionsView) -> Seq<
    FieldView,
> {
    Seq::new(
        header.len(),
        |t: int|
            FieldView {
                name: spec_header_name(header[t], o),
                valid_types: o.data_types,
                nullable: false,
            },
    )
}

/// The records that carry data: all of them, or all but the header row.
pub open spec fn spec_data_rows(records: Seq<Seq<Seq<char>>>, o: InferOptionsView) -> Seq<
    Seq<Seq<char>>,
> {
    if o.has_headers && records.len() > 0 {
        records.drop_first()
    } else {
        records
    }
}

/// The whole inference pass over a record stream.
pub open spec fn spec_infer(records: Seq<Seq<Seq<char>>>, o: InferOptionsView) -> Seq<FieldView> {
    if records.len() == 0 {
        Seq::empty()
    } else {
        spec_infer_rows(spec_initial_fields(records.first(), o), spec_data_rows(records, o), o)
    }
}

/// Folding one more row equals one step after the shorter fold.
proof fn lemma_infer_rows_push(
    fields: Seq<FieldView>,
    rows: Seq<Seq<Seq<char>>>,
    r: Seq<Seq<char>>,
    o: InferOptionsView,
)
    ensures
        spec_infer_rows(fields, rows.push(r), o) == spec_infer_row(
            spec_infer_rows(fields, rows, o),
            r,
            o,
        ),
    decreases rows.len(),
{
    let p = rows.push(r);
    if rows.len() == 0 {
        assert(p.first() == r);
        assert(p.drop_first() =~= Seq::<Seq<Seq<char>>>::empty());
        assert(spec_infer_rows(fields, p, o) == spec_infer_rows(
            spec_infer_row(fields, r, o),
            p.drop_first(),
            o,
        ));
        assert(spec_infer_rows(spec_infer_row(fields, r, o), p.drop_first(), o)
            == spec_infer_row(fields, r, o));
        assert(spec_infer_rows(fields, rows, o) == fields);
    } else {
        assert(p.first() == rows.first());
        assert(p.drop_first() =~= rows.drop_first().push(r));
        lemma_infer_rows_push(spec_infer_row(fields, rows.first(), o), rows.drop_first(), r, o);
        assert(spec_infer_rows(fields, p, o) == spec_infer_rows(
            spec_infer_row(fields, p.first(), o),
            p.drop_first(),
            o,
        ));
        assert(spec_infer_rows(fields, rows, o) == spec_infer_rows(
            spec_infer_row(fields, rows.first(), o),
            rows.drop_first(),
            o,
        ));
    }
}

// ---------------------------------------------------------------------
// The executable inference driver
// ---------------------------------------------------------------------
/// Infers a typed column shape from a record stream.  The first record
/// fixes the initial column count (and the names, when headers are
/// on); every further record narrows each reached column's candidate
/// list, marks columns nullable where the null sentinel matches, and —
/// in flexible mode — appends fresh columns for wider rows.  The
/// column count always matches the spec-level fold; the names and
/// nullable flags match it whenever the null sentinel is
/// deterministic; and the whole result matches it whenever the whole
/// configuration is.
pub fn infer_records(records: &Vec<Vec<String>>, options: &InferOptions) -> (r: Fields)
    ensures
        r@.len() == spec_infer(records.deep_view(), options@).len(),
        consider_deterministic(options@.null_validator) ==> same_shape(
            r@,
            spec_infer(records.deep_view(), options@),
        ),
        options_deterministic(options@) ==> r@ == spec_infer(records.deep_view(), options@),
        options_deterministic(options@) ==> fields_deterministic(r@),
{
    let ghost all = records.deep_view();
    let ghost o = options@;
    let mut fields: Vec<Field> = Vec::new();
    if records.len() == 0 {
        proof {
            assert(fields_view(fields@) =~= Seq::<FieldView>::empty());
        }
        return Fields(fields);
    }
    // seed one column per cell of the first record
    let header = &records[0];
    let m = header.len();
    proof {
        assert(all[0] =~= header.deep_view());
    }
    let mut j: usize = 0;
    while j < m
        invariant
            0 <= j <= m,
            m == header@.len(),
            header.deep_view() == all.first(),
            all == records.deep_view(),
            records@.len() > 0,
            o == options@,
            fields@.len() == j,
            consider_deterministic(o.null_validator) ==> fields_view(fields@)
                =~= spec_initial_fields(all.first(), o).subrange(0, j as int),
            options_deterministic(o) ==> fields_deterministic(fields_view(fields@)),
        decreases m - j,
    {
        let value = &header[j];
        let name: Option<String> = if options.has_headers {
            if options.null_validator.validate(value.as_str()).is_ok() {
                None
            } else {
                Some(value.clone())
            }
        } else {
            None
        };
        let field = Field::new(name, clone_data_types(&options.data_types));
        proof {
            assert(all.first()[j as int] == value@);
            if consider_deterministic(o.null_validator) {
                assert(field@ == spec_initial_fields(all.first(), o)[j as int]);
                assert(fields_view(fields@.push(field)) =~= spec_initial_fields(
                    all.first(),
                    o,
                ).subrange(0, j + 1 as int));
            }
        }
        fields.push(field);
        j = j + 1;
    }
    proof {
        assert(spec_initial_fields(all.first(), o).subrange(0, m as int) =~= spec_initial_fields(
            all.first(),
            o,
        ));
    }
    // narrow over the data rows
    let start: usize = if options.has_headers {
        1
    } else {
        0
    };
    let ghost rows = spec_data_rows(all, o);
    proof {
        assert(rows.len() == all.len() - start);
        assert(forall|k: int| 0 <= k < rows.len() ==> rows[k] == all[k + start]);
        assert(rows.subrange(0, 0) =~= Seq::<Seq<Seq<char>>>::empty());
    }
    let n = records.len();
    let mut i: usize = start;
    while i < n
        invariant
            start <= i <= n,
            n == records@.len(),
            n > 0,
            start == if o.has_headers {
                1int
            } else {
                0int
            },
            all == records.deep_view(),
            o == options@,
            rows == spec_data_rows(all, o),
            fields@.len() == spec_infer_rows(
                spec_initial_fields(all.first(), o),
                rows.subrange(0, i - start),
                o,
            ).len(),
            consider_deterministic(o.null_validator) ==> same_shape(
                fields_view(fields@),
                spec_infer_rows(spec_initial_fields(all.first(), o), rows.subrange(0, i - start), o),
            ),
            options_deterministic(o) ==> fields_view(fields@) == spec_infer_rows(
                spec_initial_fields(all.first(), o),
                rows.subrange(0, i - start),
                o,
            ),
            options_deterministic(o) ==> fields_deterministic(fields_view(fields@)),
        decreases n - i,
    {
        let ghost model_f = spec_infer_rows(
            spec_initial_fields(all.first(), o),
            rows.subrange(0, i - start),
            o,
        );
        let row = &records[i];
        let ghost pre = fields_view(fields@);
        let ghost rv = row.deep_view();
        proof {
            assert(rv == all[i as int]);
            assert(rv == rows[i - start]);
        }
        // flexible mode: wider rows introduce fresh nullable columns
        if options.flexible {
            while fields.len() < row.len()
                invariant
                    options.flexible,
                    o == options@,
                    row@.len() == rv.len(),
                    fields@.len() >= pre.len(),
                    fields@.len() == pre.len() || fields@.len() <= row@.len(),
                    fields_view(fields@) =~= pre + Seq::new(
                        (fields@.len() - pre.len()) as nat,
                        |t: int| spec_fresh_field(o.data_types),
                    ),
                    options_deterministic(o) ==> fields_deterministic(fields_view(fields@)),
                decreases row@.len() - fields@.len(),
            {
                let fresh = Field::new_with_nullable(
                    None,
                    clone_data_types(&options.data_types),
                    true,
                );
                proof {
                    assert(fresh@ == spec_fresh_field(o.data_types));
                }
                let ghost before = fields_view(fields@);
                fields.push(fresh);
                proof {
                    assert(fields_view(fields@) =~= before.push(fresh@));
                    assert(fields_view(fields@) =~= pre + Seq::new(
                        (fields@.len() - pre.len()) as nat,
                        |t: int| spec_fresh_field(o.data_types),
                    ));
                    if options_deterministic(o) {
                        assert forall|t: int| 0 <= t < fields@.len() implies all_deterministic(
                            #[trigger] fields_view(fields@)[t].valid_types,
                        ) by {
                            if t < before.len() {
                                assert(fields_view(fields@)[t] == before[t]);
                            } else {
                                assert(fields_view(fields@)[t] == fresh@);
                            }
                        }
                    }
                }
            }
        }
        let ghost ext = fields_view(fields@);
        let ghost ext_model = spec_row_extend(model_f, rv.len() as int, o);
        proof {
            assert(ext =~= spec_row_extend(pre, rv.len() as int, o));
            assert(ext.len() == ext_model.len());
            if consider_deterministic(o.null_validator) {
                assert(same_shape(ext, ext_model)) by {
                    assert forall|t: int|
                        0 <= t < ext.len() implies (#[trigger] ext[t]).name == ext_model[t].name
                        && ext[t].nullable == ext_model[t].nullable by {
                        if t < pre.len() {
                            assert(ext[t] == pre[t]);
                            assert(ext_model[t] == model_f[t]);
                        } else {
                            assert(ext[t] == spec_fresh_field(o.data_types));
                            assert(ext_model[t] == spec_fresh_field(o.data_types));
                        }
                    }
                }
            }
        }
        // each reached column observes its value
        let cols = if row.len() < fields.len() {
            row.len()
        } else {
            fields.len()
        };
        let mut j: usize = 0;
        while j < cols
            invariant
                0 <= j <= cols,
                cols <= row@.len(),
                cols <= fields@.len(),
                cols == if row@.len() < ext.len() {
                    row@.len() as int
                } else {
                    ext.len() as int
                },
                fields@.len() == ext.len(),
                row@.len() == rv.len(),
                rv == row.deep_view(),
                o == options@,
                consider_deterministic(o.null_validator) ==> same_shape(
                    fields_view(fields@),
                    spec_row_observe_upto(ext, rv, o.null_validator, j as int),
                ),
                options_deterministic(o) ==> fields_view(fields@) =~= spec_row_observe_upto(
                    ext,
                    rv,
                    o.null_validator,
                    j as int,
                ),
                options_deterministic(o) ==> fields_deterministic(ext),
                options_deterministic(o) ==> fields_deterministic(fields_view(fields@)),
            decreases cols - j,
        {
            let ghost nd = consider_deterministic(o.null_validator);
            let value = &row[j];
            proof {
                assert(rv[j as int] == value@);
                if nd {
                    assert(fields_view(fields@)[j as int].name == ext[j as int].name);
                    assert(fields_view(fields@)[j as int].nullable == ext[j as int].nullable);
                }
                if options_deterministic(o) {
                    assert(fields_view(fields@)[j as int] == ext[j as int]);
                }
            }
            let mut f = fields[j].clone();
            let ghost fpre = f@;
            proof {
                assert(fpre.name == fields_view(fields@)[j as int].name);
                assert(fpre.nullable == fields_view(fields@)[j as int].nullable);
                if options_deterministic(o) {
                    assert(fpre == ext[j as int]);
                    assert(all_deterministic(fpre.valid_types));
                }
            }
            if options.null_validator.validate(value.as_str()).is_ok() {
                f.nullable = true;
                proof {
                    if nd {
                        assert(spec_validate_ok(o.null_validator, rv[j as int]));
                        assert(f@.name == spec_field_observe(
                            ext[j as int],
                            rv[j as int],
                            o.null_validator,
                        ).name);
                        assert(f@.nullable == spec_field_observe(
                            ext[j as int],
                            rv[j as int],
                            o.null_validator,
                        ).nullable);
                    }
                    if options_deterministic(o) {
                        assert(f@ == spec_field_observe(
                            ext[j as int],
                            rv[j as int],
                            o.null_validator,
                        ));
                    }
                }
            } else {
                f.consider(value.as_str());
                proof {
                    if nd {
                        assert(!spec_validate_ok(o.null_validator, rv[j as int]));
                        assert(f@.name == spec_field_observe(
                            ext[j as int],
                            rv[j as int],
                            o.null_validator,
                        ).name);
                        assert(f@.nullable == spec_field_observe(
                            ext[j as int],
                            rv[j as int],
                            o.null_validator,
                        ).nullable);
                    }
                    if options_deterministic(o) {
                        assert(f@ == spec_field_observe(
                            ext[j as int],
                            rv[j as int],
                            o.null_validator,
                        ));
                        lemma_narrow_types_deterministic(fpre.valid_types, value@);
                    }
                }
            }
            let ghost before = fields_view(fields@);
            fields.set(j, f);
            proof {
                assert(fields_view(fields@) =~= before.update(j as int, f@));
                if nd {
                    assert(same_shape(
                        fields_view(fields@),
                        spec_row_observe_upto(ext, rv, o.null_validator, j + 1 as int),
                    )) by {
                        assert forall|t: int|
                            0 <= t < fields_view(fields@).len() implies (#[trigger] fields_view(
                            fields@,
                        )[t]).name == spec_row_observe_upto(
                            ext,
                            rv,
                            o.null_validator,
                            j + 1 as int,
                        )[t].name && fields_view(fields@)[t].nullable == spec_row_observe_upto(
                            ext,
                            rv,
                            o.null_validator,
                            j + 1 as int,
                        )[t].nullable by {
                            if t != j {
                                assert(fields_view(fields@)[t] == before[t]);
                                assert(spec_row_observe_upto(
                                    ext,
                                    rv,
                                    o.null_validator,
                                    j + 1 as int,
                                )[t] == spec_row_observe_upto(
                                    ext,
                                    rv,
                                    o.null_validator,
                                    j as int,
                                )[t]);
                            }
                        }
                    }
                }
                if options_deterministic(o) {
                    assert(fields_view(fields@) =~= spec_row_observe_upto(
                        ext,
                        rv,
                        o.null_validator,
                        j + 1 as int,
                    ));
                }
            }
            j = j + 1;
        }
        proof {
            assert(rows.subrange(0, i + 1 - start) =~= rows.subrange(0, i - start).push(
                rows[i - start],
            ));
            lemma_infer_rows_push(
                spec_initial_fields(all.first(), o),
                rows.subrange(0, i - start),
                rows[i - start],
                o,
            );
            let model_next = spec_infer_row(model_f, rv, o);
            assert(spec_row_observe_upto(ext, rv, o.null_validator, cols as int)
                =~= spec_row_observe_upto(ext, rv, o.null_validator, ext.len() as int));
            assert(fields@.len() == model_next.len());
            if consider_deterministic(o.null_validator) {
                let full = spec_row_observe_upto(ext, rv, o.null_validator, ext.len() as int);
                assert(same_shape(fields_view(fields@), full));
                assert(same_shape(full, model_next)) by {
                    assert forall|t: int|
                        0 <= t < full.len() implies (#[trigger] full[t]).name
                        == model_next[t].name && full[t].nullable == model_next[t].nullable by {
                        if t < rv.len() {
                            assert(full[t] == spec_field_observe(
                                ext[t],
                                rv[t],
                                o.null_validator,
                            ));
                            assert(model_next[t] == spec_field_observe(
                                ext_model[t],
                                rv[t],
                                o.null_validator,
                            ));
                        } else {
                            assert(full[t] == ext[t]);
                            assert(model_next[t] == ext_model[t]);
                        }
                    }
                }
                assert(same_shape(fields_view(fields@), model_next));
            }
            if options_deterministic(o) {
                assert(fields_view(fields@) =~= spec_row_observe_upto(
                    ext,
                    rv,
                    o.null_validator,
                    ext.len() as int,
                ));
                assert(fields_view(fields@) == spec_infer_row(pre, rv, o));
            }
        }
        i = i + 1;
    }
    proof {
        assert(rows.subrange(0, n - start) =~= rows);
    }
    Fields(fields)
}

// ---------------------------------------------------------------------
// The spec-level model of validation
// ---------------------------------------------------------------------
/// How many columns a row reaches in a shape.
pub open spec fn min_cols(fields: Seq<FieldView>, row: Seq<Seq<char>>) -> int {
    if fields.len() <= row.len() {
        fields.len() as int
    } else {
        row.len() as int
    }
}

/// What is wrong with one value in one column, if anything: `true` for
/// a nullable violation (a null in a non-nullable column), `false` for
/// a non-null value some retained candidate rejects.  A null in a
/// nullable column stands for missing data and passes with no
/// per-type check.
pub open spec fn spec_cell_bad(f: FieldView, v: Seq<char>, null: DataTypeView) -> Option<bool> {
    if spec_validate_ok(null, v) {
        if !f.nullable {
            Some(true)
        } else {
            None
        }
    } else if exists|t: int|
        0 <= t < f.valid_types.len() && !spec_validate_ok(f.valid_types[t], v) {
        Some(false)
    } else {
        None
    }
}

/// The first problem in a row at or after column `j`: the column and
/// the kind of violation.
pub open spec fn spec_row_issue_from(
    fields: Seq<FieldView>,
    row: Seq<Seq<char>>,
    null: DataTypeView,
    j: int,
) -> Option<(int, bool)>
    decreases min_cols(fields, row) - j,
{
    if j < 0 || j >= min_cols(fields, row) {
        None
    } else {
        match spec_cell_bad(fields[j], row[j], null) {
            Some(kind) => Some((j, kind)),
            None => spec_row_issue_from(fields, row, null, j + 1),
        }
    }
}

/// The first problem in a row stream, row by row then column by
/// column: the row, the column, and the kind of violation.
pub open spec fn spec_validate_rows(
    fields: Seq<FieldView>,
    rows: Seq<Seq<Seq<char>>>,
    null: DataTypeView,
    line: int,
) -> Option<(int, int, bool)>
    decreases rows.len(),
{
    if rows.len() == 0 {
        None
    } else {
        match spec_row_issue_from(fields, rows.first(), null, 0) {
            Some(issue) => Some((line, issue.0, issue.1)),
            None => spec_validate_rows(fields, rows.drop_first(), null, line + 1),
        }
    }
}

/// Scanning past problem-free columns does not change a row's verdict.
proof fn lemma_row_issue_shift(
    fields: Seq<FieldView>,
    row: Seq<Seq<char>>,
    null: DataTypeView,
    i: int,
    j: int,
)
    requires
        0 <= i <= j <= min_cols(fields, row),
        forall|c: int| i <= c < j ==> spec_cell_bad(fields[c], row[c], null) is None,
    ensures
        spec_row_issue_from(fields, row, null, i) == spec_row_issue_from(fields, row, null, j),
    decreases j - i,
{
    if i < j {
        assert(spec_cell_bad(fields[i], row[i], null) is None);
        lemma_row_issue_shift(fields, row, null, i + 1, j);
    }
}

/// Scanning past problem-free rows does not change the stream's
/// verdict, beyond shifting the reported line.
proof fn lemma_validate_rows_skip(
    fields: Seq<FieldView>,
    rows: Seq<Seq<Seq<char>>>,
    null: DataTypeView,
    line: int,
    k: int,
)
    requires
        0 <= k <= rows.len(),
        forall|t: int| 0 <= t < k ==> spec_row_issue_from(fields, rows[t], null, 0) is None,
    ensures
        spec_validate_rows(fields, rows, null, line) == spec_validate_rows(
            fields,
            rows.subrange(k, rows.len() as int),
            null,
            line + k,
        ),
    decreases k,
{
    if k == 0 {
        assert(rows.subrange(0, rows.len() as int) =~= rows);
    } else {
        assert(spec_row_issue_from(fields, rows[0], null, 0) is None);
        assert(rows.first() == rows[0]);
        let rest = rows.drop_first();
        assert(forall|t: int| 0 <= t < k - 1 ==> rest[t] == rows[t + 1]);
        lemma_validate_rows_skip(fields, rest, null, line + 1, k - 1);
        assert(rest.subrange(k - 1, rest.len() as int) =~= rows.subrange(k, rows.len() as int));
    }
}

// ---------------------------------------------------------------------
// The round trip: an inferred shape accepts the data that produced it
// ---------------------------------------------------------------------
/// Whether the shape accounts for every value the rows put in it: a
/// null value finds its column nullable, and any other value has been
/// absorbed by every candidate its column retained.
pub open spec fn fields_cover_rows(
    fields: Seq<FieldView>,
    rows: Seq<Seq<Seq<char>>>,
    null: DataTypeView,
) -> bool {
    forall|i: int, j: int|
        0 <= i < rows.len() && 0 <= j < rows[i].len() && j < fields.len() ==> (
        if spec_validate_ok(null, #[trigger] rows[i][j]) {
            fields[j].nullable
        } else {
            types_absorbed(fields[j].valid_types, rows[i][j])
        })
}

/// After folding rows into a shape, the shape accounts for every value
/// it was shown, it has not shrunk, columns already nullable stay
/// nullable, and values absorbed before the fold stay absorbed.
proof fn lemma_infer_rows_absorb(
    fields: Seq<FieldView>,
    rows: Seq<Seq<Seq<char>>>,
    o: InferOptionsView,
)
    ensures
        spec_infer_rows(fields, rows, o).len() >= fields.len(),
        !o.flexible ==> spec_infer_rows(fields, rows, o).len() == fields.len(),
        forall|j: int, v: Seq<char>|
            0 <= j < fields.len() && types_absorbed(fields[j].valid_types, v)
                ==> #[trigger] types_absorbed(spec_infer_rows(fields, rows, o)[j].valid_types, v),
        forall|j: int|
            0 <= j < fields.len() && fields[j].nullable ==> (#[trigger] spec_infer_rows(
                fields,
                rows,
                o,
            )[j]).nullable,
        fields_cover_rows(spec_infer_rows(fields, rows, o), rows, o.null_validator),
    decreases rows.len(),
{
    if rows.len() > 0 {
        let r = rows.first();
        let rest = rows.drop_first();
        let null = o.null_validator;
        let ext = spec_row_extend(fields, r.len() as int, o);
        let f1 = spec_infer_row(fields, r, o);
        let fin = spec_infer_rows(f1, rest, o);
        assert(spec_infer_rows(fields, rows, o) == fin);
        lemma_infer_rows_absorb(f1, rest, o);
        // the shape only grows, and stays put without flexibility
        assert(ext.len() >= fields.len());
        assert(f1.len() == ext.len());
        assert(!o.flexible ==> ext.len() == fields.len());
        // what one column of f1 is
        assert(forall|j: int| 0 <= j < fields.len() ==> ext[j] == #[trigger] fields[j]);
        assert(forall|j: int|
            0 <= j < ext.len() && j >= fields.len() ==> #[trigger] ext[j] == spec_fresh_field(
                o.data_types,
            ));
        assert(forall|j: int|
            0 <= j < f1.len() ==> #[trigger] f1[j] == (if j < r.len() {
                spec_field_observe(ext[j], r[j], null)
            } else {
                ext[j]
            }));
        // values absorbed before stay absorbed through row 0
        assert forall|j: int, v: Seq<char>|
            0 <= j < fields.len() && types_absorbed(fields[j].valid_types, v)
                implies #[trigger] types_absorbed(f1[j].valid_types, v) by {
            if j < r.len() && !spec_validate_ok(null, r[j]) {
                lemma_narrow_preserves_absorbed(fields[j].valid_types, v, r[j]);
            }
        }
        // so they stay absorbed through the whole fold
        assert forall|j: int, v: Seq<char>|
            0 <= j < fields.len() && types_absorbed(fields[j].valid_types, v)
                implies #[trigger] types_absorbed(fin[j].valid_types, v) by {
            assert(types_absorbed(f1[j].valid_types, v));
        }
        // a nullable column stays nullable through row 0 and the fold
        assert(forall|j: int|
            0 <= j < f1.len() && ext[j].nullable ==> (#[trigger] f1[j]).nullable);
        assert forall|j: int|
            0 <= j < fields.len() && fields[j].nullable implies (#[trigger] fin[j]).nullable by {
            assert(f1[j].nullable);
        }
        // row 0's own values are accounted for by the final shape
        assert forall|j: int|
            0 <= j < r.len() && j < fin.len() implies (if spec_validate_ok(null, r[j]) {
            fin[j].nullable
        } else {
            types_absorbed(fin[j].valid_types, #[trigger] r[j])
        }) by {
            if o.flexible {
                assert(ext.len() >= r.len());
            }
            assert(j < f1.len());
            if spec_validate_ok(null, r[j]) {
                assert(f1[j].nullable);
                assert(fin[j].nullable);
            } else {
                lemma_narrow_absorbs(ext[j].valid_types, r[j]);
                assert(types_absorbed(f1[j].valid_types, r[j]));
                assert(types_absorbed(fin[j].valid_types, r[j]));
            }
        }
        // later rows' values: by the induction hypothesis
        assert forall|i: int, j: int|
            0 <= i < rows.len() && 0 <= j < rows[i].len() && j < fin.len() implies (
        if spec_validate_ok(null, #[trigger] rows[i][j]) {
            fin[j].nullable
        } else {
            types_absorbed(fin[j].valid_types, rows[i][j])
        }) by {
            if i == 0 {
                assert(rows[0] == r);
                assert(rows[0][j] == r[j]);
            } else {
                assert(rest[i - 1] == rows[i]);
                assert(rest[i - 1][j] == rows[i][j]);
            }
        }
    }
}

/// A row whose nulls fall on nullable columns and whose other values
/// are absorbed raises no issue from any starting column.
proof fn lemma_row_no_issue(
    fields: Seq<FieldView>,
    row: Seq<Seq<char>>,
    null: DataTypeView,
    j: int,
)
    requires
        0 <= j,
        forall|c: int|
            0 <= c < row.len() && c < fields.len() ==> (if spec_validate_ok(
                null,
                #[trigger] row[c],
            ) {
                fields[c].nullable
            } else {
                types_absorbed(fields[c].valid_types, row[c])
            }),
    ensures
        spec_row_issue_from(fields, row, null, j) is None,
    decreases min_cols(fields, row) - j,
{
    if j < min_cols(fields, row) {
        assert(spec_cell_bad(fields[j], row[j], null) is None) by {
            if spec_validate_ok(null, row[j]) {
                assert(fields[j].nullable);
            } else {
                assert forall|t: int|
                    0 <= t < fields[j].valid_types.len() implies spec_validate_ok(
                    #[trigger] fields[j].valid_types[t],
                    row[j],
                ) by {
                    assert(spec_absorbed(fields[j].valid_types[t], row[j])) by {
                        assert(types_absorbed(fields[j].valid_types, row[j]));
                    }
                    lemma_absorbed_validates(fields[j].valid_types[t], row[j]);
                }
            }
        }
        lemma_row_no_issue(fields, row, null, j + 1);
    }
}

/// A shape that accounts for every value of a row stream validates it
/// without issue.
proof fn lemma_no_issues(
    fields: Seq<FieldView>,
    rows: Seq<Seq<Seq<char>>>,
    null: DataTypeView,
    line: int,
)
    requires
        fields_cover_rows(fields, rows, null),
    ensures
        spec_validate_rows(fields, rows, null, line) is None,
    decreases rows.len(),
{
    if rows.len() > 0 {
        let r = rows.first();
        let rest = rows.drop_first();
        assert(rows[0] == r);
        assert forall|c: int|
            0 <= c < r.len() && c < fields.len() implies (if spec_validate_ok(
            null,
            #[trigger] r[c],
        ) {
            fields[c].nullable
        } else {
            types_absorbed(fields[c].valid_types, r[c])
        }) by {
            assert(rows[0][c] == r[c]);
        }
        lemma_row_no_issue(fields, r, null, 0);
        assert(fields_cover_rows(fields, rest, null)) by {
            assert forall|i: int, j: int|
                0 <= i < rest.len() && 0 <= j < rest[i].len() && j < fields.len() implies (
            if spec_validate_ok(null, #[trigger] rest[i][j]) {
                fields[j].nullable
            } else {
                types_absorbed(fields[j].valid_types, rest[i][j])
            }) by {
                assert(rest[i] == rows[i + 1]);
                assert(rest[i][j] == rows[i + 1][j]);
            }
        }
        lemma_no_issues(fields, rest, null, line + 1);
    }
}

/// The round trip: inferring a shape from a record stream and then
/// validating that same stream against the inferred shape reports no
/// violation.  A null value marks its column nullable during
/// inference, and validation lets a null pass a nullable column with
/// no per-type check; every other value was absorbed by each
/// candidate its column retained.
pub proof fn lemma_infer_then_validate(records: Seq<Seq<Seq<char>>>, o: InferOptionsView)
    ensures
        spec_validate_rows(
            spec_infer(records, o),
            spec_data_rows(records, o),
            o.null_validator,
            0,
        ) is None,
{
    let rows = spec_data_rows(records, o);
    let fin = spec_infer(records, o);
    if records.len() == 0 {
        assert(rows.len() == 0);
    } else {
        let init = spec_initial_fields(records.first(), o);
        lemma_infer_rows_absorb(init, rows, o);
        lemma_no_issues(fin, rows, o.null_validator, 0);
    }
}

// ---------------------------------------------------------------------
// The executable validation driver
// ---------------------------------------------------------------------
/// Replays a record stream against an already-inferred shape, reading
/// only.  A null in a non-nullable column is a nullable violation; a
/// null in a nullable column stands for missing data and passes with
/// no per-type check; any other value must satisfy **every** candidate
/// the column retained — agreement with the intersection of the
/// surviving types, deliberately conservative.  The first violation is
/// reported with its 0-based row and column; whenever the
/// configuration and the shape are deterministic, the verdict is
/// exactly the spec-level scan.
pub fn validate_records(fields: &Fields, records: &Vec<Vec<String>>, options: &InferOptions) -> (r:
    Result<(), SchemaError>)
    ensures
        options_deterministic(options@) && fields_deterministic(fields@) ==> (match spec_validate_rows(
            fields@,
            spec_data_rows(records.deep_view(), options@),
            options@.null_validator,
            0,
        ) {
            None => r is Ok,
            Some(issue) => r matches Err(e) && e.line_no == issue.0 && e.column_no == issue.1
                && e.details@ == (if issue.2 {
                "Nullable value"@
            } else {
                "Invalid value"@
            }),
        }),
{
    let ghost all = records.deep_view();
    let ghost o = options@;
    let ghost fv = fields@;
    let ghost rows = spec_data_rows(all, o);
    let ghost det = options_deterministic(o) && fields_deterministic(fv);
    if records.len() == 0 {
        return Ok(());
    }
    let start: usize = if options.has_headers {
        1
    } else {
        0
    };
    proof {
        assert(rows.len() == all.len() - start);
        assert(forall|k: int| 0 <= k < rows.len() ==> rows[k] == all[k + start]);
    }
    let n = records.len();
    let mut i: usize = start;
    while i < n
        invariant
            start <= i <= n,
            n == records@.len(),
            n > 0,
            start == if o.has_headers {
                1int
            } else {
                0int
            },
            all == records.deep_view(),
            o == options@,
            fv == fields@,
            rows == spec_data_rows(all, o),
            rows.len() == n - start,
            forall|k: int| 0 <= k < rows.len() ==> rows[k] == all[k + start],
            det == (options_deterministic(o) && fields_deterministic(fv)),
            det ==> forall|t: int|
                0 <= t < i - start ==> spec_row_issue_from(fv, rows[t], o.null_validator, 0)
                    is None,
        decreases n - i,
    {
        let row = &records[i];
        let ghost rv = row.deep_view();
        proof {
            assert(rv == all[i as int]);
            assert(rv == rows[i - start]);
        }
        let cols = if row.len() < fields.0.len() {
            row.len()
        } else {
            fields.0.len()
        };
        proof {
            assert(cols == min_cols(fv, rv));
        }
        let mut c: usize = 0;
        while c < cols
            invariant
                0 <= c <= cols,
                cols == min_cols(fv, rv),
                cols <= row@.len(),
                cols <= fields.0@.len(),
                rv == row.deep_view(),
                o == options@,
                fv == fields@,
                start <= i < n,
                n == records@.len(),
                rows == spec_data_rows(records.deep_view(), o),
                rows.len() == n - start,
                rv == rows[i - start],
                det == (options_deterministic(o) && fields_deterministic(fv)),
                det ==> forall|t: int|
                    0 <= t < i - start ==> spec_row_issue_from(fv, rows[t], o.null_validator, 0)
                        is None,
                det ==> forall|t: int|
                    0 <= t < c ==> spec_cell_bad(fv[t], rv[t], o.null_validator) is None,
            decreases cols - c,
        {
            let value = &row[c];
            let field = &fields.0[c];
            proof {
                assert(rv[c as int] == value@);
                assert(fv[c as int] == fields.0@[c as int]@);
            }
            if options.null_validator.validate(value.as_str()).is_ok() {
                if !field.nullable {
                    proof {
                        if det {
                            assert(spec_cell_bad(fv[c as int], rv[c as int], o.null_validator)
                                == Some(true));
                            lemma_row_issue_shift(fv, rv, o.null_validator, 0, c as int);
                            lemma_validate_rows_skip(fv, rows, o.null_validator, 0, i - start);
                            assert(rows.subrange(i - start, rows.len() as int).first() == rv);
                        }
                    }
                    return Err(
                        SchemaError::new(i - start, c, String::from_str("Nullable value")),
                    );
                }
                // missing data in a nullable column: nothing to check
                proof {
                    if det {
                        assert(spec_cell_bad(fv[c as int], rv[c as int], o.null_validator)
                            is None);
                    }
                }
                c = c + 1;
            } else {
                let m = field.valid_types.len();
                let mut t: usize = 0;
            while t < m
                invariant
                    0 <= t <= m,
                    m == field.valid_types@.len(),
                    rv == row.deep_view(),
                    rv[c as int] == value@,
                    0 <= c < cols,
                    cols == min_cols(fv, rv),
                    o == options@,
                    fv == fields@,
                    fv[c as int] == field@,
                    start <= i < n,
                    n == records@.len(),
                    rows == spec_data_rows(records.deep_view(), o),
                    rows.len() == n - start,
                    rv == rows[i - start],
                    det == (options_deterministic(o) && fields_deterministic(fv)),
                    det ==> !spec_validate_ok(o.null_validator, rv[c as int]),
                    det ==> forall|t: int|
                        0 <= t < i - start ==> spec_row_issue_from(
                            fv,
                            rows[t],
                            o.null_validator,
                            0,
                        ) is None,
                    det ==> forall|t: int|
                        0 <= t < c ==> spec_cell_bad(fv[t], rv[t], o.null_validator) is None,
                    det ==> forall|u: int|
                        0 <= u < t ==> spec_validate_ok(
                            #[trigger] fv[c as int].valid_types[u],
                            rv[c as int],
                        ),
                decreases m - t,
            {
                let dt = &field.valid_types[t];
                proof {
                    assert(fv[c as int].valid_types[t as int] == dt@);
                    if det {
                        assert(consider_deterministic(dt@));
                    }
                }
                if dt.validate(value.as_str()).is_err() {
                    proof {
                        if det {
                            assert(!spec_validate_ok(fv[c as int].valid_types[t as int],
                                rv[c as int]));
                            assert(spec_cell_bad(fv[c as int], rv[c as int], o.null_validator)
                                == Some(false));
                            lemma_row_issue_shift(fv, rv, o.null_validator, 0, c as int);
                            lemma_validate_rows_skip(fv, rows, o.null_validator, 0, i - start);
                            assert(rows.subrange(i - start, rows.len() as int).first() == rv);
                        }
                    }
                    return Err(
                        SchemaError::new(i - start, c, String::from_str("Invalid value")),
                    );
                }
                t = t + 1;
            }
            proof {
                if det {
                    assert(spec_cell_bad(fv[c as int], rv[c as int], o.null_validator) is None);
                }
            }
            c = c + 1;
            }
        }
        proof {
            if det {
                lemma_row_issue_shift(fv, rv, o.null_validator, 0, cols as int);
                assert(spec_row_issue_from(fv, rows[i - start], o.null_validator, 0) is None);
            }
        }
        i = i + 1;
    }
    proof {
        if det {
            lemma_validate_rows_skip(fv, rows, o.null_validator, 0, rows.len() as int);
            assert(rows.subrange(rows.len() as int, rows.len() as int) =~= Seq::<
                Seq<Seq<char>>,
            >::empty());
        }
    }
    Ok(())
}

} // verus!
