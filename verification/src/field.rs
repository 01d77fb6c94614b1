//! Per-column state and the whole-row schema shape.

use vstd::prelude::*;

use crate::validators::consider_deterministic;
use crate::validators::lemma_absorbed_preserved;
use crate::validators::lemma_consider_absorbs;
use crate::validators::spec_absorbed;
use crate::validators::spec_consider_next;
use crate::validators::spec_consider_ok;
use crate::validators::DataType;
use crate::validators::DataTypeView;

verus! {

/// The candidate views of a list of candidates, in order.
pub open spec fn types_view(types: Seq<DataType>) -> Seq<DataTypeView> {
    types.map_values(|d: DataType| d@)
}

/// Whether every candidate's verdicts are functions of state and value
/// alone (no `Unique` in the list).
pub open spec fn all_deterministic(types: Seq<DataTypeView>) -> bool {
    forall|i: int| 0 <= i < types.len() ==> consider_deterministic(#[trigger] types[i])
}

/// Whether every column's candidate list is deterministic.
pub open spec fn fields_deterministic(fields: Seq<FieldView>) -> bool {
    forall|i: int| 0 <= i < fields.len() ==> all_deterministic(#[trigger] fields[i].valid_types)
}

/// One narrowing step over a candidate list: each candidate observes
/// the value; exactly those that accept it survive, in their original
/// order, with their state moved forward.
pub open spec fn narrow_types(types: Seq<DataTypeView>, v: Seq<char>) -> Seq<DataTypeView>
    decreases types.len(),
{
    if types.len() == 0 {
        Seq::empty()
    } else {
        let rest = narrow_types(types.drop_last(), v);
        if spec_consider_ok(types.last(), v) {
            rest.push(spec_consider_next(types.last(), v))
        } else {
            rest
        }
    }
}

/// One narrowing step where the verdicts of history-dependent
/// candidates are supplied by an oracle: a deterministic candidate
/// survives iff it accepts the value, any other iff its oracle entry
/// says so, and every survivor's state is moved forward.  Whatever the
/// oracle, the result is an order-preserving filter of the list.
pub open spec fn narrow_types_with(
    types: Seq<DataTypeView>,
    v: Seq<char>,
    keep: Seq<bool>,
) -> Seq<DataTypeView>
    decreases types.len(),
{
    if types.len() == 0 {
        Seq::empty()
    } else {
        let rest = narrow_types_with(types.drop_last(), v, keep.drop_last());
        let kept = if consider_deterministic(types.last()) {
            spec_consider_ok(types.last(), v)
        } else {
            keep.last()
        };
        if kept {
            rest.push(spec_consider_next(types.last(), v))
        } else {
            rest
        }
    }
}

/// Narrowing never lengthens the candidate list.
pub proof fn lemma_narrow_types_len(types: Seq<DataTypeView>, v: Seq<char>)
    ensures
        narrow_types(types, v).len() <= types.len(),
    decreases types.len(),
{
    if types.len() > 0 {
        lemma_narrow_types_len(types.drop_last(), v);
    }
}

/// Narrowing a deterministic candidate list leaves it deterministic:
/// a surviving candidate keeps its kind.
pub proof fn lemma_narrow_types_deterministic(types: Seq<DataTypeView>, v: Seq<char>)
    requires
        all_deterministic(types),
    ensures
        all_deterministic(narrow_types(types, v)),
    decreases types.len(),
{
    if types.len() > 0 {
        assert(all_deterministic(types.drop_last()));
        lemma_narrow_types_deterministic(types.drop_last(), v);
    }
}

/// Whether every candidate in a column's list has absorbed the value.
pub open spec fn types_absorbed(types: Seq<DataTypeView>, v: Seq<char>) -> bool {
    forall|t: int| 0 <= t < types.len() ==> spec_absorbed(#[trigger] types[t], v)
}

/// Right after a narrowing step, every surviving candidate has
/// absorbed the value that drove it.
pub proof fn lemma_narrow_absorbs(types: Seq<DataTypeView>, v: Seq<char>)
    ensures
        types_absorbed(narrow_types(types, v), v),
    decreases types.len(),
{
    if types.len() > 0 {
        lemma_narrow_absorbs(types.drop_last(), v);
        let rest = narrow_types(types.drop_last(), v);
        if spec_consider_ok(types.last(), v) {
            lemma_consider_absorbs(types.last(), v);
            assert forall|t: int|
                0 <= t < narrow_types(types, v).len() implies spec_absorbed(
                #[trigger] narrow_types(types, v)[t],
                v,
            ) by {
                if t < rest.len() {
                    assert(narrow_types(types, v)[t] == rest[t]);
                }
            }
        }
    }
}

/// Narrowing by a later value keeps every already-absorbed value
/// absorbed.
pub proof fn lemma_narrow_preserves_absorbed(types: Seq<DataTypeView>, v: Seq<char>, w: Seq<char>)
    requires
        types_absorbed(types, v),
    ensures
        types_absorbed(narrow_types(types, w), v),
    decreases types.len(),
{
    if types.len() > 0 {
        assert(types_absorbed(types.drop_last(), v)) by {
            assert(forall|t: int|
                0 <= t < types.len() - 1 ==> types.drop_last()[t] == #[trigger] types[t]);
        }
        lemma_narrow_preserves_absorbed(types.drop_last(), v, w);
        let rest = narrow_types(types.drop_last(), w);
        if spec_consider_ok(types.last(), w) {
            lemma_absorbed_preserved(types.last(), v, w);
            assert forall|t: int|
                0 <= t < narrow_types(types, w).len() implies spec_absorbed(
                #[trigger] narrow_types(types, w)[t],
                v,
            ) by {
                if t < rest.len() {
                    assert(narrow_types(types, w)[t] == rest[t]);
                }
            }
        }
    }
}

/// Duplicates a candidate list, state and all; a cloned `Unique`
/// candidate shares its seen-value history with the original.
pub fn clone_data_types(types: &Vec<DataType>) -> (r: Vec<DataType>)
    ensures
        types_view(r@) == types_view(types@),
{
    let r = types.clone();
    proof {
        assert forall|i: int| 0 <= i < r@.len() implies r@[i]@ == types@[i]@ by {
            assert(cloned::<DataType>(types@[i], r@[i]));
        }
        assert(types_view(r@) =~= types_view(types@));
    }
    r
}

/// Per-column state: an optional name, the ordered list of still-viable
/// candidate types, and whether a null value has been seen.  The list's
/// order encodes priority and is only ever filtered, never reordered.
#[derive(Debug)]
pub struct Field {
    pub name: Option<String>,
    pub valid_types: Vec<DataType>,
    pub nullable: bool,
}

/// The mathematical state of one column.
#[verifier::ext_equal]
pub struct FieldView {
    pub name: Option<Seq<char>>,
    pub valid_types: Seq<DataTypeView>,
    pub nullable: bool,
}

impl View for Field {
    type V = FieldView;

    open spec fn view(&self) -> FieldView {
        FieldView {
            name: self.name.deep_view(),
            valid_types: types_view(self.valid_types@),
            nullable: self.nullable,
        }
    }
}

/// The column views of a whole row shape, in order.
pub open spec fn fields_view(fields: Seq<Field>) -> Seq<FieldView> {
    fields.map_values(|f: Field| f@)
}

impl Clone for Field {
    /// Cloning keeps the name, the candidate states and the nullable
    /// flag; a cloned `Unique` candidate shares its seen-value history.
    fn clone(&self) -> (r: Self)
        ensures
            r.name.deep_view() == self.name.deep_view(),
            types_view(r.valid_types@) == types_view(self.valid_types@),
            r.nullable == self.nullable,
    {
        let name = match &self.name {
            Some(s) => Some(s.clone()),
            None => None,
        };
        let valid_types = self.valid_types.clone();
        proof {
            assert(types_view(valid_types@) =~= types_view(self.valid_types@));
        }
        Field { name, valid_types, nullable: self.nullable }
    }
}

impl Field {
    /// A fresh non-nullable column with the given candidates.
    pub fn new(name: Option<String>, valid_types: Vec<DataType>) -> (r: Self)
        ensures
            r.name == name,
            r.valid_types == valid_types,
            !r.nullable,
    {
        Field { name, valid_types, nullable: false }
    }

    /// A fresh column with the nullable flag chosen by the caller.
    pub fn new_with_nullable(name: Option<String>, valid_types: Vec<DataType>, nullable: bool) -> (r:
        Self)
        ensures
            r.name == name,
            r.valid_types == valid_types,
            r.nullable == nullable,
    {
        Field { name, valid_types, nullable }
    }

    /// One narrowing step: every candidate observes the value and only
    /// those that accept it remain, in order.  The candidate list never
    /// grows; the name and the nullable flag are untouched.  Whatever
    /// the candidates, the surviving list is an order-preserving
    /// filter with every survivor's state moved forward — a
    /// `narrow_types_with` under some oracle for the history-dependent
    /// verdicts; when no candidate is a `Unique`, the list is pinned
    /// down exactly.
    pub fn consider(&mut self, value: &str)
        ensures
            final(self).name == old(self).name,
            final(self).nullable == old(self).nullable,
            final(self).valid_types@.len() <= old(self).valid_types@.len(),
            exists|keep: Seq<bool>|
                keep.len() == old(self).valid_types@.len() && types_view(
                    final(self).valid_types@,
                ) == narrow_types_with(types_view(old(self).valid_types@), value@, keep),
            all_deterministic(types_view(old(self).valid_types@)) ==> types_view(
                final(self).valid_types@,
            ) == narrow_types(types_view(old(self).valid_types@), value@),
    {
        let ghost tv = types_view(old(self).valid_types@);
        let n = self.valid_types.len();
        let mut kept: Vec<DataType> = Vec::new();
        let ghost mut keepv: Seq<bool> = Seq::empty();
        let mut i: usize = 0;
        while i < n
            invariant
                0 <= i <= n,
                n == self.valid_types@.len(),
                self.name == old(self).name,
                self.nullable == old(self).nullable,
                self.valid_types@ == old(self).valid_types@,
                tv == types_view(old(self).valid_types@),
                kept@.len() <= i,
                keepv.len() == i,
                types_view(kept@) == narrow_types_with(tv.subrange(0, i as int), value@, keepv),
                all_deterministic(tv) ==> types_view(kept@) == narrow_types(
                    tv.subrange(0, i as int),
                    value@,
                ),
            decreases n - i,
        {
            let ghost prefix = tv.subrange(0, i as int);
            let ghost longer = tv.subrange(0, i + 1 as int);
            proof {
                assert(longer.drop_last() =~= prefix);
                assert(longer.last() == tv[i as int]);
            }
            let mut candidate = self.valid_types[i].clone();
            proof {
                assert(candidate@ == tv[i as int]);
            }
            let verdict = candidate.consider(value);
            let ok = verdict.is_ok();
            let ghost keepv_pre = keepv;
            proof {
                keepv = keepv.push(ok);
                assert(keepv.drop_last() =~= keepv_pre);
                assert(keepv.last() == ok);
            }
            if ok {
                kept.push(candidate);
                proof {
                    assert(types_view(kept@) =~= narrow_types_with(longer, value@, keepv));
                    if all_deterministic(tv) {
                        assert(types_view(kept@) =~= narrow_types(longer, value@));
                    }
                }
            } else {
                proof {
                    assert(types_view(kept@) =~= narrow_types_with(longer, value@, keepv));
                    if all_deterministic(tv) {
                        assert(consider_deterministic(tv[i as int]));
                        assert(types_view(kept@) =~= narrow_types(longer, value@));
                    }
                }
            }
            i = i + 1;
        }
        proof {
            assert(tv.subrange(0, n as int) =~= tv);
        }
        self.valid_types = kept;
    }
}

/// The whole row shape: one `Field` per column, index = position.
#[derive(Debug)]
pub struct Fields(pub Vec<Field>);

impl View for Fields {
    type V = Seq<FieldView>;

    open spec fn view(&self) -> Seq<FieldView> {
        fields_view(self.0@)
    }
}

impl Fields {
    /// The number of columns.
    pub fn len(&self) -> (r: usize)
        ensures
            r == self@.len(),
    {
        self.0.len()
    }
}

} // verus!
