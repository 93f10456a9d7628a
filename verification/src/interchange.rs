//! The columnar interchange boundary: an Arrow-style array model with
//! list arrays over 32- or 64-bit offsets, the recursive widening of
//! 32-bit offsets to 64-bit ones (validity preserved, values untouched),
//! and the record-batch rules — a struct root maps to one column per
//! field, a non-struct root to a single named column.

use vstd::prelude::*;

use crate::dtype::LogicalType;
use crate::error::EngineError;
use crate::error::ErrorKind;
use crate::frame::frame_wf;
use crate::frame::DataFrame;
use crate::series::Series;
use crate::value::lemma_vals_view;
use crate::value::val_matches_dtype;
use crate::value::vals_view;
use crate::value::AnyVal;
use crate::value::Val;

verus! {

broadcast use vstd::std_specs::vec::group_vec_axioms;

/// A field of a struct array.
pub struct ArrowField {
    pub name: String,
    pub values: ArrowArr,
}

/// An interchange array: a flat column, a list array over 32- or 64-bit
/// offsets, or a struct of named child arrays.
pub enum ArrowArr {
    /// A flat column of cells.
    Prim(Series),
    /// A list array with 32-bit offsets into the child array.
    List32 { offsets: Vec<i32>, values: Box<ArrowArr>, validity: Option<Vec<bool>> },
    /// A list array with 64-bit offsets into the child array.
    List64 { offsets: Vec<i64>, values: Box<ArrowArr>, validity: Option<Vec<bool>> },
    /// A struct array: equal-length named children.
    StructArr { length: usize, fields: Vec<ArrowField> },
}

/// The model of an interchange array: offsets become integers, keeping
/// the offset width as a flag.
#[verifier::ext_equal]
pub enum ArrV {
    Prim(crate::dtype::DTypeV, Seq<Val>),
    List { wide: bool, offsets: Seq<int>, values: Box<ArrV>, validity: Option<Seq<bool>> },
    StructArr { length: nat, fields: Seq<(Seq<char>, ArrV)> },
}

pub open spec fn arr_view(a: &ArrowArr) -> ArrV
    decreases a,
{
    match a {
        ArrowArr::Prim(s) => ArrV::Prim(s.spec_dtype(), s.spec_vals()),
        ArrowArr::List32 { offsets, values, validity } => ArrV::List {
            wide: false,
            offsets: offsets@.map_values(|x: i32| x as int),
            values: Box::new(arr_view(values)),
            validity: match validity {
                Some(v) => Some(v@),
                None => None,
            },
        },
        ArrowArr::List64 { offsets, values, validity } => ArrV::List {
            wide: true,
            offsets: offsets@.map_values(|x: i64| x as int),
            values: Box::new(arr_view(values)),
            validity: match validity {
                Some(v) => Some(v@),
                None => None,
            },
        },
        ArrowArr::StructArr { length, fields } => ArrV::StructArr {
            length: *length as nat,
            fields: arrow_fields_view(fields@),
        },
    }
}

/// The models of struct fields, in order.
pub open spec fn arrow_fields_view(fields: Seq<ArrowField>) -> Seq<(Seq<char>, ArrV)>
    decreases fields,
{
    if fields.len() == 0 {
        Seq::empty()
    } else {
        arrow_fields_view(fields.drop_last()).push(
            (fields.last().name@, arr_view(&fields.last().values)),
        )
    }
}

/// Pointwise characterization of `arrow_fields_view`.
pub proof fn lemma_arrow_fields_view(fields: Seq<ArrowField>)
    ensures
        arrow_fields_view(fields).len() == fields.len(),
        forall|i: int|
            0 <= i < fields.len() ==> #[trigger] arrow_fields_view(fields)[i] == (
            fields[i].name@,
            arr_view(&fields[i].values),
            ),
    decreases fields,
{
    if fields.len() > 0 {
        lemma_arrow_fields_view(fields.drop_last());
    }
}

impl View for ArrowArr {
    type V = ArrV;

    open spec fn view(&self) -> ArrV {
        arr_view(self)
    }
}

/// The logical row count of an array.
pub open spec fn arr_len(a: ArrV) -> int {
    match a {
        ArrV::Prim(_, vals) => vals.len() as int,
        ArrV::List { offsets, .. } => offsets.len() - 1,
        ArrV::StructArr { length, .. } => length as int,
    }
}

/// Interchange well-formedness: flat cells fit their type; list offsets
/// start at zero, never decrease, end within the child, and any validity
/// mask has the row count's length; struct children all have the struct's
/// length.
pub open spec fn arr_wf(a: ArrV) -> bool
    decreases a,
{
    match a {
        ArrV::Prim(t, vals) => forall|i: int|
            0 <= i < vals.len() ==> val_matches_dtype(#[trigger] vals[i], t),
        ArrV::List { offsets, values, validity, .. } => {
            &&& offsets.len() >= 1
            &&& offsets[0] == 0
            &&& forall|i: int, j: int|
                0 <= i < j < offsets.len() ==> #[trigger] offsets[i] <= #[trigger] offsets[j]
            &&& offsets.last() <= arr_len(*values)
            &&& (validity matches Some(v) ==> v.len() == offsets.len() - 1)
            &&& arr_wf(*values)
        },
        ArrV::StructArr { length, fields } => {
            &&& forall|i: int|
                0 <= i < fields.len() ==> arr_len((#[trigger] fields[i]).1) == length as int
            &&& forall|i: int| 0 <= i < fields.len() ==> arr_wf((#[trigger] fields[i]).1)
        },
    }
}

/// Whether no 32-bit-offset list remains anywhere in the array.
pub open spec fn no_list32(a: ArrV) -> bool
    decreases a,
{
    match a {
        ArrV::Prim(_, _) => true,
        ArrV::List { wide, values, .. } => wide && no_list32(*values),
        ArrV::StructArr { fields, .. } => forall|i: int|
            0 <= i < fields.len() ==> no_list32((#[trigger] fields[i]).1),
    }
}

/// The widening of an array: every 32-bit-offset list becomes a 64-bit
/// one with numerically equal offsets; values and validity are untouched.
pub open spec fn spec_widen(a: ArrV) -> ArrV
    decreases a,
{
    match a {
        ArrV::Prim(t, vals) => ArrV::Prim(t, vals),
        ArrV::List { wide, offsets, values, validity } => ArrV::List {
            wide: true,
            offsets,
            values: Box::new(spec_widen(*values)),
            validity,
        },
        ArrV::StructArr { length, fields } => ArrV::StructArr {
            length,
            fields: widen_fields(fields),
        },
    }
}

/// The widening of struct fields, in order.
pub open spec fn widen_fields(fields: Seq<(Seq<char>, ArrV)>) -> Seq<(Seq<char>, ArrV)>
    decreases fields,
{
    if fields.len() == 0 {
        Seq::empty()
    } else {
        widen_fields(fields.drop_last()).push(
            (fields.last().0, spec_widen(fields.last().1)),
        )
    }
}

/// Pointwise characterization of `widen_fields`.
pub proof fn lemma_widen_fields(fields: Seq<(Seq<char>, ArrV)>)
    ensures
        widen_fields(fields).len() == fields.len(),
        forall|i: int|
            0 <= i < fields.len() ==> #[trigger] widen_fields(fields)[i] == (
            fields[i].0,
            spec_widen(fields[i].1),
            ),
    decreases fields,
{
    if fields.len() > 0 {
        lemma_widen_fields(fields.drop_last());
    }
}

/// Widening preserves well-formedness, row counts, and erases every
/// 32-bit list; an already wide array widens to itself.
pub proof fn lemma_widen_props(a: ArrV)
    requires
        arr_wf(a),
    ensures
        arr_wf(spec_widen(a)),
        arr_len(spec_widen(a)) == arr_len(a),
        no_list32(spec_widen(a)),
        no_list32(a) ==> spec_widen(a) == a,
    decreases a,
{
    match a {
        ArrV::Prim(_, _) => {},
        ArrV::List { wide, offsets, values, validity } => {
            lemma_widen_props(*values);
        },
        ArrV::StructArr { length, fields } => {
            lemma_widen_fields(fields);
            assert forall|i: int| 0 <= i < fields.len() implies arr_wf(
                (#[trigger] widen_fields(fields)[i]).1,
            ) && arr_len(widen_fields(fields)[i].1) == length as int && no_list32(
                widen_fields(fields)[i].1,
            ) by {
                lemma_widen_props(fields[i].1);
            }
            if no_list32(a) {
                assert forall|i: int| 0 <= i < fields.len() implies #[trigger] widen_fields(
                    fields,
                )[i] == fields[i] by {
                    lemma_widen_props(fields[i].1);
                }
                assert(widen_fields(fields) =~= fields);
            }
        },
    }
}

/// Copies a validity mask.
#[verifier::loop_isolation(false)]
fn copy_validity(v: &Option<Vec<bool>>) -> (r: Option<Vec<bool>>)
    ensures
        match v {
            Some(inner) => r matches Some(out) && out@ == inner@,
            None => r is None,
        },
{
    match v {
        None => None,
        Some(inner) => {
            let n = inner.len();
            let mut out: Vec<bool> = Vec::new();
            let mut i: usize = 0;
            while i < n
                invariant
                    i <= n,
                    n == inner@.len(),
                    out@.len() == i,
                    forall|j: int| 0 <= j < i ==> #[trigger] out@[j] == inner@[j],
                decreases n - i,
            {
                out.push(inner[i]);
                i = i + 1;
            }
            proof {
                assert(out@ =~= inner@);
            }
            Some(out)
        },
    }
}

impl ArrowArr {
    /// Widens every 32-bit-offset list to 64-bit offsets, recursively
    /// through lists and structs, keeping offsets numerically equal and
    /// values and validity untouched; a subtree already at 64 bits keeps
    /// its buffers as they are.
    #[verifier::loop_isolation(false)]
    #[verifier::rlimit(60)]
    pub fn upgrade_to_large_list(&self) -> (r: ArrowArr)
        ensures
            r@ == spec_widen(self@),
        decreases self,
    {
        match self {
            ArrowArr::Prim(s) => ArrowArr::Prim(s.duplicate()),
            ArrowArr::List32 { offsets, values, validity } => {
                // the offsets become 64-bit, numerically unchanged
                let n = offsets.len();
                let mut wide_offsets: Vec<i64> = Vec::new();
                let mut i: usize = 0;
                while i < n
                    invariant
                        i <= n,
                        n == offsets@.len(),
                        wide_offsets@.len() == i,
                        forall|j: int|
                            0 <= j < i ==> #[trigger] wide_offsets@[j] as int == offsets@[j] as int,
                    decreases n - i,
                {
                    wide_offsets.push(offsets[i] as i64);
                    i = i + 1;
                }
                proof {
                    assert(decreases_to!(*self => self->List32_values));
                }
                let new_values = Box::new(values.upgrade_to_large_list());
                let new_validity = copy_validity(validity);
                let r = ArrowArr::List64 {
                    offsets: wide_offsets,
                    values: new_values,
                    validity: new_validity,
                };
                proof {
                    assert(wide_offsets@.map_values(|x: i64| x as int) =~= offsets@.map_values(
                        |x: i32| x as int,
                    ));
                    assert(r@ =~= spec_widen(self@));
                }
                r
            },
            ArrowArr::List64 { offsets, values, validity } => {
                let n = offsets.len();
                let mut new_offsets: Vec<i64> = Vec::new();
                let mut i: usize = 0;
                while i < n
                    invariant
                        i <= n,
                        n == offsets@.len(),
                        new_offsets@.len() == i,
                        forall|j: int| 0 <= j < i ==> #[trigger] new_offsets@[j] == offsets@[j],
                    decreases n - i,
                {
                    new_offsets.push(offsets[i]);
                    i = i + 1;
                }
                proof {
                    assert(decreases_to!(*self => self->List64_values));
                }
                let new_values = Box::new(values.upgrade_to_large_list());
                let new_validity = copy_validity(validity);
                let r = ArrowArr::List64 {
                    offsets: new_offsets,
                    values: new_values,
                    validity: new_validity,
                };
                proof {
                    assert(new_offsets@.map_values(|x: i64| x as int) =~= offsets@.map_values(
                        |x: i64| x as int,
                    ));
                    assert(r@ =~= spec_widen(self@));
                }
                r
            },
            ArrowArr::StructArr { length, fields } => {
                let ghost oldfv = arrow_fields_view(fields@);
                let n = fields.len();
                let mut out: Vec<ArrowField> = Vec::new();
                let mut i: usize = 0;
                proof {
                    lemma_arrow_fields_view(fields@);
                    lemma_widen_fields(oldfv);
                }
                while i < n
                    invariant
                        i <= n,
                        n == fields@.len(),
                        oldfv == arrow_fields_view(fields@),
                        oldfv.len() == n,
                        forall|j: int|
                            0 <= j < n ==> #[trigger] oldfv[j] == (
                            fields@[j].name@,
                            arr_view(&fields@[j].values),
                            ),
                        out@.len() == i,
                        forall|j: int|
                            0 <= j < i ==> (#[trigger] out@[j]).name@ == oldfv[j].0 && arr_view(
                                &out@[j].values,
                            ) == spec_widen(oldfv[j].1),
                    decreases n - i,
                {
                    proof {
                        assert(decreases_to!(*self => self->StructArr_fields));
                        assert(decreases_to!(self->StructArr_fields => self->StructArr_fields@));
                        assert(decreases_to!(fields@ => fields@[i as int]));
                        assert(decreases_to!(fields@[i as int] => fields@[i as int].values));
                    }
                    let f = &fields[i];
                    let widened = f.values.upgrade_to_large_list();
                    out.push(ArrowField { name: f.name.clone(), values: widened });
                    i = i + 1;
                }
                let r = ArrowArr::StructArr { length: *length, fields: out };
                proof {
                    lemma_arrow_fields_view(out@);
                    lemma_widen_fields(oldfv);
                    assert(arrow_fields_view(out@) =~= widen_fields(oldfv));
                    assert(r@ =~= spec_widen(self@));
                }
                r
            },
        }
    }
}

/// The row cells of a list array: row `i` gathers the child cells between
/// offsets `i` and `i + 1`; a false validity bit makes the row null.
pub open spec fn spec_list_cells(
    offsets: Seq<int>,
    child: Seq<Val>,
    validity: Option<Seq<bool>>,
) -> Seq<Val> {
    Seq::new(
        (offsets.len() - 1) as nat,
        |i: int|
            if (validity matches Some(v) && !v[i]) {
                Val::Null
            } else {
                Val::List(child.subrange(offsets[i], offsets[i + 1]))
            },
    )
}

/// The column a non-struct array denotes: its type and cells, or a
/// compute error for a struct-typed child, whose cells no column holds.
pub open spec fn spec_arr_series(a: ArrV) -> Result<(crate::dtype::DTypeV, Seq<Val>), ErrorKind>
    decreases a,
{
    match a {
        ArrV::Prim(t, vals) => Ok((t, vals)),
        ArrV::List { offsets, values, validity, .. } => match spec_arr_series(*values) {
            Err(k) => Err(k),
            Ok((ct, cv)) => Ok(
                (
                    crate::dtype::DTypeV::List(Box::new(ct)),
                    spec_list_cells(offsets, cv, validity),
                ),
            ),
        },
        ArrV::StructArr { .. } => Err(ErrorKind::Compute),
    }
}

/// A converted column has the array's row count.
pub proof fn lemma_arr_series_len(a: ArrV)
    requires
        arr_wf(a),
        spec_arr_series(a) is Ok,
    ensures
        spec_arr_series(a)->Ok_0.1.len() == arr_len(a),
    decreases a,
{
}

impl ArrowArr {
    /// Converts a non-struct array into a column with the given name:
    /// a flat array keeps its cells, a list array gathers each row's
    /// child cells by its offsets (a false validity bit gives a null
    /// row); a struct-typed array is a compute error here — a struct
    /// root belongs to `frame_from_batch`.
    #[verifier::loop_isolation(false)]
    #[verifier::rlimit(100)]
    pub fn to_series(&self, name: &str) -> (r: Result<Series, EngineError>)
        requires
            arr_wf(self@),
        ensures
            match spec_arr_series(self@) {
                Ok((t, vals)) => r matches Ok(s) && s.spec_name() == name@ && s.spec_dtype() == t
                    && s.spec_vals() == vals && s.wf(),
                Err(k) => r matches Err(e) && e.kind() == k,
            },
        decreases self,
    {
        match self {
            ArrowArr::Prim(s) => {
                proof {
                    assert(s.wf());
                }
                let mut out = s.duplicate();
                out.rename(name);
                Ok(out)
            },
            ArrowArr::List32 { offsets, values, validity } => {
                proof {
                    assert(decreases_to!(*self => self->List32_values));
                }
                let child = values.to_series(name)?;
                let ghost offv = offsets@.map_values(|x: i32| x as int);
                let ghost valv = match validity {
                    Some(v) => Some(v@),
                    None => None,
                };
                let n = offsets.len() - 1;
                let mut cells: Vec<AnyVal> = Vec::new();
                let mut i: usize = 0;
                while i < n
                    invariant
                        i <= n,
                        n == offsets@.len() - 1,
                        offv == offsets@.map_values(|x: i32| x as int),
                        valv == (match validity {
                            Some(v) => Some(v@),
                            None => None::<Seq<bool>>,
                        }),
                        arr_wf(self@),
                        child.wf(),
                        child.spec_vals() == spec_arr_series(arr_view(values))->Ok_0.1,
                        child.spec_vals().len() == arr_len(arr_view(values)),
                        cells@.len() == i,
                        forall|j: int|
                            0 <= j < i ==> (#[trigger] cells@[j])@ == spec_list_cells(
                                offv,
                                child.spec_vals(),
                                valv,
                            )[j],
                        forall|j: int|
                            0 <= j < i ==> val_matches_dtype(
                                (#[trigger] cells@[j])@,
                                crate::dtype::DTypeV::List(Box::new(child.spec_dtype())),
                            ),
                    decreases n - i,
                {
                    let row_valid = match validity {
                        Some(v) => v[i],
                        None => true,
                    };
                    if !row_valid {
                        cells.push(AnyVal::Null);
                    } else {
                        let lo = offsets[i];
                        let hi = offsets[i + 1];
                        proof {
                            assert(offv[i as int] == offsets@[i as int] as int);
                            assert(offv[i + 1] == offsets@[i + 1] as int);
                            assert(offv[0] == offsets@[0] as int);
                            assert(offv[0] <= offv[i as int] && offv[i as int] <= offv[i + 1]
                                && offv[i + 1] <= offv[offv.len() - 1]);
                            assert(offv[offv.len() - 1] <= arr_len(arr_view(values)));
                        }
                        let child_len = child.len();
                        proof {
                            assert(0 <= lo as int);
                            assert(lo as int <= hi as int);
                            assert(hi as int <= child_len as int);
                        }
                        let mut items: Vec<AnyVal> = Vec::new();
                        let mut k: usize = lo as usize;
                        while k < hi as usize
                            invariant
                                lo as int <= k as int <= hi as int,
                                0 <= lo as int,
                                hi as int <= child.spec_vals().len(),
                                child.wf(),
                                items@.len() == k - lo as int,
                                forall|q: int|
                                    0 <= q < items@.len() ==> (#[trigger] items@[q])@
                                        == child.spec_vals()[lo as int + q],
                            decreases hi as int - k as int,
                        {
                            items.push(child.cell(k).duplicate());
                            k = k + 1;
                        }
                        proof {
                            crate::value::lemma_vals_view(items@);
                            assert(vals_view(items@) =~= child.spec_vals().subrange(
                                lo as int,
                                hi as int,
                            ));
                        }
                        cells.push(AnyVal::List(items));
                        proof {
                            assert(cells@.last()@ == Val::List(
                                child.spec_vals().subrange(offv[i as int], offv[i + 1]),
                            ));
                        }
                    }
                    i = i + 1;
                }
                proof {
                    lemma_vals_view(cells@);
                }
                let dtype = LogicalType::List(Box::new(child.dtype().duplicate()));
                proof {
                    assert(crate::dtype::dtype_view(&dtype) == crate::dtype::DTypeV::List(
                        Box::new(child.spec_dtype()),
                    ));
                    assert forall|j: int| 0 <= j < vals_view(cells@).len() implies
                        val_matches_dtype(
                        #[trigger] vals_view(cells@)[j],
                        crate::dtype::dtype_view(&dtype),
                    ) by {
                        assert(vals_view(cells@)[j] == cells@[j]@);
                    }
                }
                let out = Series::from_checked(name.to_owned(), dtype, cells);
                proof {
                    assert(out.spec_vals() =~= spec_list_cells(offv, child.spec_vals(), valv));
                }
                Ok(out)
            },
            ArrowArr::List64 { offsets, values, validity } => {
                proof {
                    assert(decreases_to!(*self => self->List64_values));
                }
                let child = values.to_series(name)?;
                let ghost offv = offsets@.map_values(|x: i64| x as int);
                let ghost valv = match validity {
                    Some(v) => Some(v@),
                    None => None,
                };
                let n = offsets.len() - 1;
                let mut cells: Vec<AnyVal> = Vec::new();
                let mut i: usize = 0;
                while i < n
                    invariant
                        i <= n,
                        n == offsets@.len() - 1,
                        offv == offsets@.map_values(|x: i64| x as int),
                        valv == (match validity {
                            Some(v) => Some(v@),
                            None => None::<Seq<bool>>,
                        }),
                        arr_wf(self@),
                        child.wf(),
                        child.spec_vals() == spec_arr_series(arr_view(values))->Ok_0.1,
                        child.spec_vals().len() == arr_len(arr_view(values)),
                        cells@.len() == i,
                        forall|j: int|
                            0 <= j < i ==> (#[trigger] cells@[j])@ == spec_list_cells(
                                offv,
                                child.spec_vals(),
                                valv,
                            )[j],
                        forall|j: int|
                            0 <= j < i ==> val_matches_dtype(
                                (#[trigger] cells@[j])@,
                                crate::dtype::DTypeV::List(Box::new(child.spec_dtype())),
                            ),
                    decreases n - i,
                {
                    let row_valid = match validity {
                        Some(v) => v[i],
                        None => true,
                    };
                    if !row_valid {
                        cells.push(AnyVal::Null);
                    } else {
                        let lo = offsets[i];
                        let hi = offsets[i + 1];
                        proof {
                            assert(offv[i as int] == offsets@[i as int] as int);
                            assert(offv[i + 1] == offsets@[i + 1] as int);
                            assert(offv[0] == offsets@[0] as int);
                            assert(offv[0] <= offv[i as int] && offv[i as int] <= offv[i + 1]
                                && offv[i + 1] <= offv[offv.len() - 1]);
                            assert(offv[offv.len() - 1] <= arr_len(arr_view(values)));
                        }
                        let child_len = child.len();
                        proof {
                            assert(0 <= lo as int);
                            assert(lo as int <= hi as int);
                            assert(hi as int <= child_len as int);
                        }
                        let mut items: Vec<AnyVal> = Vec::new();
                        let mut k: usize = lo as usize;
                        while k < hi as usize
                            invariant
                                lo as int <= k as int <= hi as int,
                                0 <= lo as int,
                                hi as int <= child.spec_vals().len(),
                                child.wf(),
                                items@.len() == k - lo as int,
                                forall|q: int|
                                    0 <= q < items@.len() ==> (#[trigger] items@[q])@
                                        == child.spec_vals()[lo as int + q],
                            decreases hi as int - k as int,
                        {
                            items.push(child.cell(k).duplicate());
                            k = k + 1;
                        }
                        proof {
                            crate::value::lemma_vals_view(items@);
                            assert(vals_view(items@) =~= child.spec_vals().subrange(
                                lo as int,
                                hi as int,
                            ));
                        }
                        cells.push(AnyVal::List(items));
                        proof {
                            assert(cells@.last()@ == Val::List(
                                child.spec_vals().subrange(offv[i as int], offv[i + 1]),
                            ));
                        }
                    }
                    i = i + 1;
                }
                proof {
                    lemma_vals_view(cells@);
                }
                let dtype = LogicalType::List(Box::new(child.dtype().duplicate()));
                proof {
                    assert(crate::dtype::dtype_view(&dtype) == crate::dtype::DTypeV::List(
                        Box::new(child.spec_dtype()),
                    ));
                    assert forall|j: int| 0 <= j < vals_view(cells@).len() implies
                        val_matches_dtype(
                        #[trigger] vals_view(cells@)[j],
                        crate::dtype::dtype_view(&dtype),
                    ) by {
                        assert(vals_view(cells@)[j] == cells@[j]@);
                    }
                }
                let out = Series::from_checked(name.to_owned(), dtype, cells);
                proof {
                    assert(out.spec_vals() =~= spec_list_cells(offv, child.spec_vals(), valv));
                }
                Ok(out)
            },
            ArrowArr::StructArr { .. } => Err(
                EngineError::compute("struct-typed cells are not representable as column values"),
            ),
        }
    }
}

/// The columns a record batch denotes: a struct root maps to one column
/// per field; the first failing field wins.
pub open spec fn spec_batch_cols(fields: Seq<(Seq<char>, ArrV)>) -> Result<
    Seq<crate::expr::ColV>,
    ErrorKind,
>
    decreases fields,
{
    if fields.len() == 0 {
        Ok(Seq::empty())
    } else {
        match spec_batch_cols(fields.drop_last()) {
            Err(k) => Err(k),
            Ok(prefix) => match spec_arr_series(fields.last().1) {
                Err(k) => Err(k),
                Ok((t, vals)) => Ok(
                    prefix.push(
                        crate::expr::ColV { name: fields.last().0, dtype: t, vals },
                    ),
                ),
            },
        }
    }
}

/// An error in a prefix of the fields is the whole batch's error.
proof fn lemma_batch_cols_prefix_err(fields: Seq<(Seq<char>, ArrV)>, j: int)
    requires
        0 <= j <= fields.len(),
        spec_batch_cols(fields.take(j)) is Err,
    ensures
        spec_batch_cols(fields) == spec_batch_cols(fields.take(j)),
    decreases fields.len() - j,
{
    if j < fields.len() {
        assert(fields.take(j + 1).drop_last() =~= fields.take(j));
        lemma_batch_cols_prefix_err(fields, j + 1);
    } else {
        assert(fields.take(j) =~= fields);
    }
}

/// Imports a record batch: a struct root maps to one column per field, in
/// order; any other root maps to a single column carrying the given name.
/// Duplicate field names are a schema error.
#[verifier::loop_isolation(false)]
#[verifier::rlimit(60)]
pub fn frame_from_batch(root: &ArrowArr, name: &str) -> (r: Result<DataFrame, EngineError>)
    requires
        arr_wf(root@),
    ensures
        match root@ {
            ArrV::StructArr { length, fields } => match spec_batch_cols(fields) {
                Err(k) => r matches Err(e) && e.kind() == k,
                Ok(cols) => {
                    if crate::schema::names_unique(crate::exec::entries_of(cols)) {
                        r matches Ok(df) && df.model() == cols && df.wf()
                    } else {
                        r matches Err(e) && e.kind() == ErrorKind::Schema
                    }
                },
            },
            _ => match spec_arr_series(root@) {
                Err(k) => r matches Err(e) && e.kind() == k,
                Ok((t, vals)) => r matches Ok(df) && df.model() == seq![
                    crate::expr::ColV { name: name@, dtype: t, vals },
                ] && df.wf(),
            },
        },
{
    match root {
        ArrowArr::StructArr { length, fields } => {
            let ghost fv = arrow_fields_view(fields@);
            proof {
                lemma_arrow_fields_view(fields@);
            }
            let n = fields.len();
            let mut cols: Vec<Series> = Vec::new();
            let mut i: usize = 0;
            proof {
                assert(spec_batch_cols(fv.take(0)) == Ok::<Seq<crate::expr::ColV>, ErrorKind>(
                    Seq::empty(),
                ));
                assert(crate::expr::cols_model(cols@) =~= Seq::<crate::expr::ColV>::empty());
            }
            while i < n
                invariant
                    i <= n,
                    n == fields@.len(),
                    arr_wf(root@),
                    fv == arrow_fields_view(fields@),
                    fv.len() == n,
                    forall|j: int|
                        0 <= j < n ==> #[trigger] fv[j] == (
                        fields@[j].name@,
                        arr_view(&fields@[j].values),
                        ),
                    cols@.len() == i,
                    spec_batch_cols(fv.take(i as int)) matches Ok(p) && p
                        == crate::expr::cols_model(cols@),
                    forall|j: int| 0 <= j < i ==> (#[trigger] cols@[j]).wf(),
                    forall|j: int|
                        0 <= j < i ==> (#[trigger] cols@[j]).spec_vals().len() == *length as int,
                decreases n - i,
            {
                proof {
                    assert(fv.take(i + 1).drop_last() =~= fv.take(i as int));
                    assert(fv.take(i + 1).last() == fv[i as int]);
                    assert(arr_wf(fv[i as int].1));
                }
                let f = &fields[i];
                let col = match f.values.to_series(f.name.as_str()) {
                    Ok(c) => c,
                    Err(err) => {
                        proof {
                            assert(spec_batch_cols(fv.take(i + 1)) == Err::<
                                Seq<crate::expr::ColV>,
                                ErrorKind,
                            >(err.kind()));
                            lemma_batch_cols_prefix_err(fv, i + 1);
                        }
                        return Err(err);
                    },
                };
                proof {
                    lemma_arr_series_len(fv[i as int].1);
                }
                let ghost old_cols = cols@;
                cols.push(col);
                proof {
                    assert(cols@.drop_last() =~= old_cols);
                    assert(crate::expr::cols_model(cols@) =~= crate::expr::cols_model(
                        old_cols,
                    ).push(crate::expr::ColV::of_series(cols@.last())));
                }
                i = i + 1;
            }
            proof {
                assert(fv.take(n as int) =~= fv);
            }
            let ghost target = spec_batch_cols(fv)->Ok_0;
            // unique output names
            let total = cols.len();
            let mut x: usize = 0;
            while x < total
                invariant
                    x <= total,
                    total == cols@.len(),
                    crate::expr::cols_model(cols@) == target,
                    forall|p: int, q: int|
                        0 <= p < q < total && p < x ==> (#[trigger] target[p]).name != (
                        #[trigger] target[q]).name,
                decreases total - x,
            {
                let mut y: usize = x + 1;
                while y < total
                    invariant
                        x < y <= total,
                        total == cols@.len(),
                        crate::expr::cols_model(cols@) == target,
                        forall|q: int|
                            x < q < y ==> target[x as int].name != (#[trigger] target[q]).name,
                    decreases total - y,
                {
                    if cols[x].name().to_owned().eq(&cols[y].name().to_owned()) {
                        proof {
                            assert(crate::exec::entries_of(target)[x as int].0
                                == crate::exec::entries_of(target)[y as int].0);
                            assert(!crate::schema::names_unique(crate::exec::entries_of(target)));
                        }
                        return Err(EngineError::schema("duplicate field name in the batch"));
                    }
                    y = y + 1;
                }
                x = x + 1;
            }
            proof {
                assert(crate::schema::names_unique(crate::exec::entries_of(target))) by {
                    assert forall|p: int, q: int|
                        0 <= p < q < crate::exec::entries_of(target).len() implies (
                    #[trigger] crate::exec::entries_of(target)[p]).0 != (
                    #[trigger] crate::exec::entries_of(target)[q]).0 by {
                        assert(target[p].name != target[q].name);
                    }
                }
                assert(frame_wf(cols@)) by {
                    if cols@.len() > 0 {
                        assert(crate::frame::frame_height(cols@) == cols@[0].spec_vals().len());
                    }
                    assert forall|p: int, q: int|
                        0 <= p < q < cols@.len() implies (#[trigger] cols@[p]).spec_name() != (
                    #[trigger] cols@[q]).spec_name() by {
                        assert(crate::expr::ColV::of_series(cols@[p]) == target[p]);
                        assert(crate::expr::ColV::of_series(cols@[q]) == target[q]);
                    }
                }
            }
            let df = DataFrame::from_checked(cols);
            proof {
                assert(df.model() =~= target);
            }
            Ok(df)
        },
        _ => {
            let col = root.to_series(name)?;
            let mut cols: Vec<Series> = Vec::new();
            cols.push(col);
            proof {
                assert(frame_wf(cols@)) by {
                    assert(crate::frame::frame_height(cols@) == cols@[0].spec_vals().len());
                }
            }
            let df = DataFrame::from_checked(cols);
            proof {
                assert(df.model() =~= seq![
                    crate::expr::ColV {
                        name: name@,
                        dtype: spec_arr_series(root@)->Ok_0.0,
                        vals: spec_arr_series(root@)->Ok_0.1,
                    },
                ]);
            }
            Ok(df)
        },
    }
}

/// The fields a table exports as: one flat array per column, in order.
pub open spec fn spec_export_fields(m: Seq<crate::expr::ColV>) -> Seq<(Seq<char>, ArrV)> {
    m.map_values(|c: crate::expr::ColV| (c.name, ArrV::Prim(c.dtype, c.vals)))
}

/// Exports a table as one record batch: a struct array of the table's
/// height whose fields are the columns, in order, each a flat array.
#[verifier::loop_isolation(false)]
pub fn frame_to_batch(df: &DataFrame) -> (r: ArrowArr)
    requires
        df.wf(),
    ensures
        r@ == (ArrV::StructArr {
            length: df.spec_height(),
            fields: spec_export_fields(df.model()),
        }),
        arr_wf(r@),
{
    let w = df.width();
    let h = df.height();
    let mut fields: Vec<ArrowField> = Vec::new();
    let mut c: usize = 0;
    while c < w
        invariant
            c <= w,
            w == df.spec_cols().len(),
            df.wf(),
            h == df.spec_height(),
            fields@.len() == c,
            forall|j: int|
                0 <= j < c ==> (#[trigger] fields@[j]).name@ == df.model()[j].name && arr_view(
                    &fields@[j].values,
                ) == (ArrV::Prim(df.model()[j].dtype, df.model()[j].vals)),
        decreases w - c,
    {
        let col = match df.column_at(c) {
            Some(s) => s,
            None => {
                proof {
                    assert(false);
                }
                return ArrowArr::StructArr { length: 0, fields: Vec::new() };
            },
        };
        proof {
            assert(df.model()[c as int] == crate::expr::ColV::of_series(
                df.spec_cols()[c as int],
            ));
        }
        let dup = col.duplicate();
        fields.push(ArrowField { name: col.name().to_owned(), values: ArrowArr::Prim(dup) });
        c = c + 1;
    }
    let r = ArrowArr::StructArr { length: h, fields };
    proof {
        lemma_arrow_fields_view(r->StructArr_fields@);
        assert(arrow_fields_view(r->StructArr_fields@) =~= spec_export_fields(df.model()));
        assert(r@ =~= (ArrV::StructArr {
            length: df.spec_height(),
            fields: spec_export_fields(df.model()),
        }));
        assert(arr_wf(r@)) by {
            assert forall|i: int|
                0 <= i < spec_export_fields(df.model()).len() implies arr_len(
                (#[trigger] spec_export_fields(df.model())[i]).1,
            ) == df.spec_height() as int && arr_wf(spec_export_fields(df.model())[i].1) by {
                assert(df.model()[i].vals.len() == df.spec_cols()[i].spec_vals().len());
                assert(df.spec_cols()[i].spec_vals().len() == crate::frame::frame_height(
                    df.spec_cols(),
                ));
                assert(df.spec_cols()[i].wf());
                assert(df.model()[i].vals == df.spec_cols()[i].spec_vals());
                assert(df.model()[i].dtype == df.spec_cols()[i].spec_dtype());
            }
        }
    }
    r
}

} // verus!
