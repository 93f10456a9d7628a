//! The columnar value container: a named, typed, nullable sequence of
//! cells. Every operation yields a new Series; only `rename` mutates in
//! place.

use vstd::prelude::*;

use crate::dtype::DTypeV;
use crate::dtype::LogicalType;
use crate::error::EngineError;
use crate::error::ErrorKind;
use crate::value::lemma_vals_view;
use crate::value::val_matches_dtype;
use crate::value::vals_view;
use crate::value::AnyVal;
use crate::value::Val;

verus! {

broadcast use vstd::std_specs::vec::group_vec_axioms;

/// A named, typed, nullable column of cells.
#[derive(Debug)]
pub struct Series {
    name: String,
    dtype: LogicalType,
    values: Vec<AnyVal>,
}

impl Series {
    /// The column name, as a character sequence.
    pub closed spec fn spec_name(&self) -> Seq<char> {
        self.name@
    }

    /// The logical type of the column.
    pub closed spec fn spec_dtype(&self) -> DTypeV {
        self.dtype@
    }

    /// The cells of the column, in order.
    pub closed spec fn spec_vals(&self) -> Seq<Val> {
        vals_view(self.values@)
    }

    /// Every cell is null or has the shape the type demands.
    pub open spec fn wf(&self) -> bool {
        forall|i: int|
            0 <= i < self.spec_vals().len() ==> val_matches_dtype(
                #[trigger] self.spec_vals()[i],
                self.spec_dtype(),
            )
    }

    /// The number of nulls among the cells.
    pub open spec fn spec_null_count(&self) -> nat {
        Self::count_nulls(self.spec_vals())
    }

    /// The number of nulls in a cell sequence.
    pub open spec fn count_nulls(vals: Seq<Val>) -> nat
        decreases vals,
    {
        if vals.len() == 0 {
            0
        } else {
            Self::count_nulls(vals.drop_last()) + (if vals.last() is Null {
                1nat
            } else {
                0nat
            })
        }
    }

    /// General constructor: the cells must fit the declared type, else a
    /// type error is returned.
    #[verifier::loop_isolation(false)]
    pub fn new(name: &str, dtype: LogicalType, values: Vec<AnyVal>) -> (r: Result<
        Series,
        EngineError,
    >)
        ensures
            match r {
                Ok(s) => {
                    &&& s.wf()
                    &&& s.spec_name() == name@
                    &&& s.spec_dtype() == dtype@
                    &&& s.spec_vals() == vals_view(values@)
                },
                Err(e) => {
                    &&& e.kind() == ErrorKind::Type
                    &&& exists|i: int|
                        0 <= i < values@.len() && !val_matches_dtype(
                            #[trigger] vals_view(values@)[i],
                            dtype@,
                        )
                },
            },
    {
        let n = values.len();
        let mut i: usize = 0;
        proof {
            lemma_vals_view(values@);
        }
        while i < n
            invariant
                i <= n,
                forall|j: int|
                    0 <= j < i ==> val_matches_dtype(#[trigger] vals_view(values@)[j], dtype@),
            decreases n - i,
        {
            if !values[i].matches_dtype(&dtype) {
                proof {
                    assert(!val_matches_dtype(vals_view(values@)[i as int], dtype@));
                    assert(exists|j: int|
                        0 <= j < values@.len() && !val_matches_dtype(
                            #[trigger] vals_view(values@)[j],
                            dtype@,
                        ));
                }
                return Err(EngineError::type_error("cell value does not fit the column type"));
            }
            i = i + 1;
        }
        Ok(Series { name: name.to_owned(), dtype, values })
    }

    /// Constructor that trusts its cells; callers must have established
    /// that they fit the type.
    pub fn from_checked(name: String, dtype: LogicalType, values: Vec<AnyVal>) -> (s: Series)
        requires
            forall|i: int|
                0 <= i < values@.len() ==> val_matches_dtype(
                    #[trigger] vals_view(values@)[i],
                    dtype_view(&dtype),
                ),
        ensures
            s.wf(),
            s.spec_name() == name@,
            s.spec_dtype() == dtype_view(&dtype),
            s.spec_vals() == vals_view(values@),
    {
        let ghost dt = dtype_view(&dtype);
        let ghost vv = vals_view(values@);
        proof {
            lemma_vals_view(values@);
        }
        let s = Series { name, dtype, values };
        proof {
            assert forall|i: int| 0 <= i < s.spec_vals().len() implies val_matches_dtype(
                #[trigger] s.spec_vals()[i],
                s.spec_dtype(),
            ) by {
                assert(val_matches_dtype(vv[i], dt));
            }
        }
        s
    }

    /// The number of cells.
    pub fn len(&self) -> (n: usize)
        ensures
            n == self.spec_vals().len(),
    {
        proof {
            lemma_vals_view(self.values@);
        }
        self.values.len()
    }

    /// The column name.
    pub fn name(&self) -> (r: &str)
        ensures
            r@ == self.spec_name(),
    {
        self.name.as_str()
    }

    /// The logical type.
    pub fn dtype(&self) -> (t: &LogicalType)
        ensures
            t@ == self.spec_dtype(),
    {
        &self.dtype
    }

    /// Renames the column in place; the cells are untouched.
    pub fn rename(&mut self, name: &str)
        ensures
            final (self).spec_name() == name@,
            final (self).spec_dtype() == old(self).spec_dtype(),
            final (self).spec_vals() == old(self).spec_vals(),
            old(self).wf() ==> final (self).wf(),
    {
        self.name = name.to_owned();
    }

    /// The cell at an index.
    pub fn get(&self, index: usize) -> (r: Option<&AnyVal>)
        ensures
            match r {
                Some(v) => index < self.spec_vals().len() && v@ == self.spec_vals()[index as int],
                None => index >= self.spec_vals().len(),
            },
    {
        proof {
            lemma_vals_view(self.values@);
        }
        if index < self.values.len() {
            Some(&self.values[index])
        } else {
            None
        }
    }

    /// The cell at an index known to be in range.
    pub fn cell(&self, index: usize) -> (v: &AnyVal)
        requires
            index < self.spec_vals().len(),
        ensures
            v@ == self.spec_vals()[index as int],
    {
        proof {
            lemma_vals_view(self.values@);
        }
        &self.values[index]
    }

    /// Whether the cell at an index is null; false out of range, by
    /// design, so the query path never fails on bounds.
    pub fn is_null_at(&self, index: usize) -> (r: bool)
        ensures
            r == (index < self.spec_vals().len() && self.spec_vals()[index as int] is Null),
    {
        proof {
            lemma_vals_view(self.values@);
        }
        if index >= self.values.len() {
            return false;
        }
        self.values[index].is_null()
    }

    /// The total number of null cells.
    #[verifier::loop_isolation(false)]
    pub fn null_count(&self) -> (n: usize)
        ensures
            n == self.spec_null_count(),
    {
        let m = self.values.len();
        let mut i: usize = 0;
        let mut n: usize = 0;
        proof {
            lemma_vals_view(self.values@);
            assert(self.spec_vals().take(0) =~= Seq::<Val>::empty());
        }
        while i < m
            invariant
                i <= m,
                n <= i,
                n == Self::count_nulls(self.spec_vals().take(i as int)),
            decreases m - i,
        {
            proof {
                let ghost vs = self.spec_vals();
                assert(vs.take(i + 1).drop_last() =~= vs.take(i as int));
                assert(vs.take(i + 1).last() == vs[i as int]);
            }
            if self.values[i].is_null() {
                n = n + 1;
            }
            i = i + 1;
        }
        proof {
            assert(self.spec_vals().take(m as int) =~= self.spec_vals());
        }
        n
    }

    /// A deep copy with the same name, type and cells.
    #[verifier::loop_isolation(false)]
    pub fn duplicate(&self) -> (r: Series)
        ensures
            r.spec_name() == self.spec_name(),
            r.spec_dtype() == self.spec_dtype(),
            r.spec_vals() == self.spec_vals(),
            self.wf() ==> r.wf(),
    {
        let n = self.values.len();
        let mut out: Vec<AnyVal> = Vec::new();
        let mut i: usize = 0;
        proof {
            lemma_vals_view(self.values@);
        }
        while i < n
            invariant
                i <= n,
                out.len() == i,
                forall|j: int| 0 <= j < i ==> (#[trigger] out@[j])@ == self.values@[j]@,
            decreases n - i,
        {
            out.push(self.values[i].duplicate());
            i = i + 1;
        }
        proof {
            lemma_vals_view(out@);
            assert(vals_view(out@) =~= vals_view(self.values@));
        }
        Series { name: self.name.clone(), dtype: self.dtype.duplicate(), values: out }
    }

    /// Consolidates the cells into one contiguous buffer. In this engine a
    /// Series is always contiguous, so this is a copy with equal contents.
    pub fn rechunk(&self) -> (r: Series)
        ensures
            r.spec_name() == self.spec_name(),
            r.spec_dtype() == self.spec_dtype(),
            r.spec_vals() == self.spec_vals(),
            self.wf() ==> r.wf(),
    {
        self.duplicate()
    }

    /// A contiguous sub-range of the cells. A negative offset counts from
    /// the end; a range reaching past the end is clipped.
    #[verifier::loop_isolation(false)]
    pub fn slice(&self, offset: i64, length: usize) -> (r: Series)
        ensures
            r.spec_name() == self.spec_name(),
            r.spec_dtype() == self.spec_dtype(),
            r.spec_vals() == self.spec_vals().subrange(
                spec_slice_start(offset, self.spec_vals().len()),
                spec_slice_end(offset, length, self.spec_vals().len()),
            ),
            self.wf() ==> r.wf(),
    {
        proof {
            lemma_vals_view(self.values@);
        }
        let n = self.values.len();
        let start: usize = if offset < 0 {
            let back = if offset == i64::MIN {
                9223372036854775808u64
            } else {
                (-offset) as u64
            };
            if back >= n as u64 {
                0
            } else {
                n - (back as usize)
            }
        } else {
            if offset as u64 >= n as u64 {
                n
            } else {
                offset as usize
            }
        };
        let end: usize = if length >= n - start {
            n
        } else {
            start + length
        };
        let mut out: Vec<AnyVal> = Vec::new();
        let mut i: usize = start;
        while i < end
            invariant
                start <= i <= end,
                out.len() == i - start,
                forall|j: int| 0 <= j < i - start ==> (#[trigger] out@[j])@ == self.values@[
                    start + j]@,
            decreases end - i,
        {
            out.push(self.values[i].duplicate());
            i = i + 1;
        }
        proof {
            lemma_vals_view(out@);
            assert(vals_view(out@) =~= self.spec_vals().subrange(
                spec_slice_start(offset, self.spec_vals().len()),
                spec_slice_end(offset, length, self.spec_vals().len()),
            ));
        }
        Series { name: self.name.clone(), dtype: self.dtype.duplicate(), values: out }
    }
}

/// The clipped start index of a slice.
pub open spec fn spec_slice_start(offset: i64, len: nat) -> int {
    if offset < 0 {
        if -offset >= len {
            0
        } else {
            len + offset
        }
    } else {
        if offset >= len {
            len as int
        } else {
            offset as int
        }
    }
}

/// The clipped end index of a slice.
pub open spec fn spec_slice_end(offset: i64, length: usize, len: nat) -> int {
    let start = spec_slice_start(offset, len);
    if start + length >= len {
        len as int
    } else {
        start + length
    }
}

/// A column of length zero has no nulls. Together with the contracts of
/// `get` and `is_null_at` (which decline every index at length zero) this
/// is the empty-column law.
pub proof fn lemma_empty_series(s: &Series)
    requires
        s.spec_vals().len() == 0,
    ensures
        s.spec_null_count() == 0,
{
    assert(s.spec_vals() =~= Seq::<Val>::empty());
}

use crate::dtype::dtype_view;

/// Applies an optional validity mask to a cell buffer: where the mask is
/// false the cell becomes null; an absent mask keeps every cell. The mask
/// must have the buffer's length.
#[verifier::loop_isolation(false)]
fn apply_validity(cells: Vec<AnyVal>, validity: &Option<Vec<bool>>) -> (r: Result<
    Vec<AnyVal>,
    EngineError,
>)
    ensures
        match r {
            Ok(out) => {
                &&& (validity matches Some(v) ==> v@.len() == cells@.len())
                &&& out@.len() == cells@.len()
                &&& forall|i: int|
                    0 <= i < out@.len() ==> (#[trigger] out@[i])@ == (match validity {
                        Some(v) => if v@[i] {
                            cells@[i]@
                        } else {
                            Val::Null
                        },
                        None => cells@[i]@,
                    })
            },
            Err(e) => {
                &&& e.kind() == ErrorKind::Shape
                &&& validity matches Some(v) && v@.len() != cells@.len()
            },
        },
{
    match validity {
        None => {
            proof {
                lemma_vals_view(cells@);
            }
            Ok(cells)
        },
        Some(v) => {
            if v.len() != cells.len() {
                return Err(EngineError::shape("validity mask length differs from buffer length"));
            }
            let n = cells.len();
            let mut out: Vec<AnyVal> = Vec::new();
            let mut i: usize = 0;
            let mut rest = cells;
            while i < n
                invariant
                    i <= n,
                    n == v@.len(),
                    rest@.len() == n,
                    out.len() == i,
                    forall|j: int| i <= j < n ==> (#[trigger] rest@[j])@ == cells@[j]@,
                    forall|j: int|
                        0 <= j < i ==> (#[trigger] out@[j])@ == (if v@[j] {
                            cells@[j]@
                        } else {
                            Val::Null
                        }),
                decreases n - i,
            {
                if v[i] {
                    let cell = rest[i].duplicate();
                    out.push(cell);
                } else {
                    out.push(AnyVal::Null);
                }
                i = i + 1;
            }
            Ok(out)
        },
    }
}

// Typed constructors: a primitive buffer plus an optional parallel
// validity mask (absent mask means all cells valid).
impl Series {
    /// Builds a boolean column.
    pub fn new_bool(name: &str, data: Vec<bool>, validity: Option<Vec<bool>>) -> (r: Result<
        Series,
        EngineError,
    >)
        ensures
            new_primitive_ensures(
                r,
                name@,
                DTypeV::Boolean,
                data@.map_values(|b: bool| Val::Bool(b)),
                match validity {
                    Some(v) => Some(v@),
                    None => None,
                },
            ),
    {
        let n = data.len();
        let mut cells: Vec<AnyVal> = Vec::new();
        let mut i: usize = 0;
        while i < n
            invariant
                i <= n,
                n == data.len(),
                cells.len() == i,
                forall|j: int| 0 <= j < i ==> (#[trigger] cells@[j])@ == Val::Bool(data@[j]),
            decreases n - i,
        {
            cells.push(AnyVal::Bool(data[i]));
            i = i + 1;
        }
        let masked = apply_validity(cells, &validity)?;
        proof {
            lemma_vals_view(masked@);
        }
        Ok(Series { name: name.to_owned(), dtype: LogicalType::Boolean, values: masked })
    }

    /// Builds a 64-bit integer column.
    pub fn new_i64(name: &str, data: Vec<i64>, validity: Option<Vec<bool>>) -> (r: Result<
        Series,
        EngineError,
    >)
        ensures
            new_primitive_ensures(
                r,
                name@,
                DTypeV::Int64,
                data@.map_values(|x: i64| Val::Int(x as int)),
                match validity {
                    Some(v) => Some(v@),
                    None => None,
                },
            ),
    {
        let n = data.len();
        let mut cells: Vec<AnyVal> = Vec::new();
        let mut i: usize = 0;
        while i < n
            invariant
                i <= n,
                n == data.len(),
                cells.len() == i,
                forall|j: int| 0 <= j < i ==> (#[trigger] cells@[j])@ == Val::Int(data@[j] as int),
            decreases n - i,
        {
            cells.push(AnyVal::Int(data[i]));
            i = i + 1;
        }
        let masked = apply_validity(cells, &validity)?;
        proof {
            lemma_vals_view(masked@);
        }
        Ok(Series { name: name.to_owned(), dtype: LogicalType::Int64, values: masked })
    }

    /// Builds a 32-bit integer column; cells are held as 64-bit physical
    /// values within the 32-bit range.
    pub fn new_i32(name: &str, data: Vec<i32>, validity: Option<Vec<bool>>) -> (r: Result<
        Series,
        EngineError,
    >)
        ensures
            new_primitive_ensures(
                r,
                name@,
                DTypeV::Int32,
                data@.map_values(|x: i32| Val::Int(x as int)),
                match validity {
                    Some(v) => Some(v@),
                    None => None,
                },
            ),
    {
        let n = data.len();
        let mut cells: Vec<AnyVal> = Vec::new();
        let mut i: usize = 0;
        while i < n
            invariant
                i <= n,
                n == data.len(),
                cells.len() == i,
                forall|j: int| 0 <= j < i ==> (#[trigger] cells@[j])@ == Val::Int(data@[j] as int),
            decreases n - i,
        {
            cells.push(AnyVal::Int(data[i] as i64));
            i = i + 1;
        }
        let masked = apply_validity(cells, &validity)?;
        proof {
            lemma_vals_view(masked@);
        }
        Ok(Series { name: name.to_owned(), dtype: LogicalType::Int32, values: masked })
    }

    /// Builds a double-precision float column from IEEE-754 bit patterns.
    pub fn new_f64_bits(name: &str, data: Vec<u64>, validity: Option<Vec<bool>>) -> (r: Result<
        Series,
        EngineError,
    >)
        ensures
            new_primitive_ensures(
                r,
                name@,
                DTypeV::Float64,
                data@.map_values(|x: u64| Val::F64Bits(x)),
                match validity {
                    Some(v) => Some(v@),
                    None => None,
                },
            ),
    {
        let n = data.len();
        let mut cells: Vec<AnyVal> = Vec::new();
        let mut i: usize = 0;
        while i < n
            invariant
                i <= n,
                n == data.len(),
                cells.len() == i,
                forall|j: int| 0 <= j < i ==> (#[trigger] cells@[j])@ == Val::F64Bits(data@[j]),
            decreases n - i,
        {
            cells.push(AnyVal::F64Bits(data[i]));
            i = i + 1;
        }
        let masked = apply_validity(cells, &validity)?;
        proof {
            lemma_vals_view(masked@);
        }
        Ok(Series { name: name.to_owned(), dtype: LogicalType::Float64, values: masked })
    }

    /// Builds a string column; each element may independently be null.
    #[verifier::loop_isolation(false)]
    pub fn new_str(name: &str, data: Vec<Option<String>>) -> (s: Series)
        ensures
            s.wf(),
            s.spec_name() == name@,
            s.spec_dtype() == DTypeV::Str,
            s.spec_vals().len() == data@.len(),
            forall|i: int|
                0 <= i < data@.len() ==> #[trigger] s.spec_vals()[i] == (match data@[i] {
                    Some(t) => Val::Text(t@),
                    None => Val::Null,
                }),
    {
        let n = data.len();
        let mut cells: Vec<AnyVal> = Vec::new();
        let mut i: usize = 0;
        let mut rest = data;
        while i < n
            invariant
                i <= n,
                rest@.len() == n,
                cells.len() == i,
                forall|j: int| i <= j < n ==> #[trigger] rest@[j] == data@[j],
                forall|j: int|
                    0 <= j < i ==> (#[trigger] cells@[j])@ == (match data@[j] {
                        Some(t) => Val::Text(t@),
                        None => Val::Null,
                    }),
            decreases n - i,
        {
            match &rest[i] {
                Some(t) => {
                    let copied: String = t.clone();
                    cells.push(AnyVal::Text(copied));
                },
                None => {
                    cells.push(AnyVal::Null);
                },
            }
            i = i + 1;
        }
        proof {
            lemma_vals_view(cells@);
        }
        Series { name: name.to_owned(), dtype: LogicalType::Str, values: cells }
    }

    /// Builds a decimal column from pre-scaled 128-bit integers; the scale
    /// is recorded in the type and the precision is left unspecified.
    pub fn new_decimal(
        name: &str,
        data: Vec<i128>,
        validity: Option<Vec<bool>>,
        scale: usize,
    ) -> (r: Result<Series, EngineError>)
        ensures
            new_primitive_ensures(
                r,
                name@,
                DTypeV::Decimal(None, Some(scale as int)),
                data@.map_values(|x: i128| Val::Dec(x as int)),
                match validity {
                    Some(v) => Some(v@),
                    None => None,
                },
            ),
    {
        let n = data.len();
        let mut cells: Vec<AnyVal> = Vec::new();
        let mut i: usize = 0;
        while i < n
            invariant
                i <= n,
                n == data.len(),
                cells.len() == i,
                forall|j: int| 0 <= j < i ==> (#[trigger] cells@[j])@ == Val::Dec(data@[j] as int),
            decreases n - i,
        {
            cells.push(AnyVal::Dec(data[i]));
            i = i + 1;
        }
        let masked = apply_validity(cells, &validity)?;
        proof {
            lemma_vals_view(masked@);
        }
        Ok(
            Series {
                name: name.to_owned(),
                dtype: LogicalType::Decimal(None, Some(scale)),
                values: masked,
            },
        )
    }
}

/// What a typed constructor promises: a shape error exactly when a
/// validity mask of the wrong length is supplied; otherwise a well-formed
/// column whose cell `i` is the buffer value where the mask is true and
/// null where it is false.
pub open spec fn new_primitive_ensures(
    r: Result<Series, EngineError>,
    name: Seq<char>,
    dtype: DTypeV,
    cells: Seq<Val>,
    validity: Option<Seq<bool>>,
) -> bool {
    match r {
        Ok(s) => {
            &&& (validity matches Some(v) ==> v.len() == cells.len())
            &&& s.wf()
            &&& s.spec_name() == name
            &&& s.spec_dtype() == dtype
            &&& s.spec_vals().len() == cells.len()
            &&& forall|i: int|
                0 <= i < cells.len() ==> #[trigger] s.spec_vals()[i] == (match validity {
                    Some(v) => if v[i] {
                        cells[i]
                    } else {
                        Val::Null
                    },
                    None => cells[i],
                })
        },
        Err(e) => {
            &&& e.kind() == ErrorKind::Shape
            &&& validity matches Some(v) && v.len() != cells.len()
        },
    }
}

} // verus!
