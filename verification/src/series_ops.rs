//! Operations on Series: typed scalar access, null introspection, the
//! float predicates over IEEE-754 bit patterns, non-strict casts,
//! elementwise arithmetic and comparison with length-1 broadcasting, and
//! the reductions sum, min and max.

use vstd::prelude::*;

use crate::dtype::spec_kind_of;
use crate::dtype::DTypeV;
use crate::dtype::LogicalType;
use crate::error::EngineError;
use crate::error::ErrorKind;
use crate::series::Series;
use crate::value::val_matches_dtype;
use crate::value::AnyVal;
use crate::value::Val;

verus! {

broadcast use vstd::std_specs::vec::group_vec_axioms;

impl Series {
    /// The integer cell at an index, as a signed 64-bit value: succeeds
    /// exactly when the index is in range, the column's kind is a signed
    /// or unsigned integer, the cell is not null, and an unsigned cell
    /// fits the signed range.
    pub fn get_i64(&self, index: usize) -> (r: Option<i64>)
        requires
            self.wf(),
        ensures
            match r {
                Some(v) => {
                    &&& index < self.spec_vals().len()
                    &&& 2 <= spec_kind_of(self.spec_dtype()) <= 9
                    &&& (self.spec_vals()[index as int] == Val::Int(v as int)
                        || self.spec_vals()[index as int] == Val::UInt(v as int))
                },
                None => index >= self.spec_vals().len() || !(2 <= spec_kind_of(self.spec_dtype())
                    <= 9) || self.spec_vals()[index as int] is Null || (
                self.spec_vals()[index as int] is UInt && self.spec_vals()[index as int]->UInt_0
                    > i64::MAX as int),
            },
    {
        let k = self.dtype().kind_of();
        if !(2 <= k && k <= 9) {
            return None;
        }
        if index >= self.len() {
            return None;
        }
        match self.cell(index) {
            AnyVal::Int(v) => Some(*v),
            AnyVal::UInt(x) => {
                // an unsigned cell is handed out only when it fits
                if *x <= i64::MAX as u64 {
                    Some(*x as i64)
                } else {
                    None
                }
            },
            _ => None,
        }
    }

    /// The unsigned-integer cell at an index: succeeds exactly when the
    /// index is in range, the column's kind is an unsigned integer, and
    /// the cell is not null.
    pub fn get_u64(&self, index: usize) -> (r: Option<u64>)
        requires
            self.wf(),
        ensures
            match r {
                Some(v) => {
                    &&& index < self.spec_vals().len()
                    &&& 6 <= spec_kind_of(self.spec_dtype()) <= 9
                    &&& self.spec_vals()[index as int] == Val::UInt(v as int)
                },
                None => index >= self.spec_vals().len() || !(6 <= spec_kind_of(self.spec_dtype())
                    <= 9) || self.spec_vals()[index as int] is Null,
            },
    {
        let k = self.dtype().kind_of();
        if !(6 <= k && k <= 9) {
            return None;
        }
        if index >= self.len() {
            return None;
        }
        match self.cell(index) {
            AnyVal::UInt(v) => Some(*v),
            _ => None,
        }
    }

    /// The boolean cell at an index.
    pub fn get_bool(&self, index: usize) -> (r: Option<bool>)
        requires
            self.wf(),
        ensures
            match r {
                Some(v) => {
                    &&& index < self.spec_vals().len()
                    &&& self.spec_dtype() is Boolean
                    &&& self.spec_vals()[index as int] == Val::Bool(v)
                },
                None => index >= self.spec_vals().len() || !(self.spec_dtype() is Boolean)
                    || self.spec_vals()[index as int] is Null,
            },
    {
        let k = self.dtype().kind_of();
        if k != 1 {
            return None;
        }
        if index >= self.len() {
            return None;
        }
        match self.cell(index) {
            AnyVal::Bool(v) => Some(*v),
            _ => None,
        }
    }

    /// The string cell at an index.
    pub fn get_str(&self, index: usize) -> (r: Option<&str>)
        requires
            self.wf(),
        ensures
            match r {
                Some(v) => {
                    &&& index < self.spec_vals().len()
                    &&& self.spec_dtype() is Str
                    &&& self.spec_vals()[index as int] == Val::Text(v@)
                },
                None => index >= self.spec_vals().len() || !(self.spec_dtype() is Str)
                    || self.spec_vals()[index as int] is Null,
            },
    {
        let k = self.dtype().kind_of();
        if k != 12 {
            return None;
        }
        if index >= self.len() {
            return None;
        }
        match self.cell(index) {
            AnyVal::Text(v) => Some(v.as_str()),
            _ => None,
        }
    }

    /// The double-precision cell at an index, as its IEEE-754 bit pattern.
    pub fn get_f64_bits(&self, index: usize) -> (r: Option<u64>)
        requires
            self.wf(),
        ensures
            match r {
                Some(v) => {
                    &&& index < self.spec_vals().len()
                    &&& self.spec_dtype() is Float64
                    &&& self.spec_vals()[index as int] == Val::F64Bits(v)
                },
                None => index >= self.spec_vals().len() || !(self.spec_dtype() is Float64)
                    || self.spec_vals()[index as int] is Null,
            },
    {
        let k = self.dtype().kind_of();
        if k != 11 {
            return None;
        }
        if index >= self.len() {
            return None;
        }
        match self.cell(index) {
            AnyVal::F64Bits(v) => Some(*v),
            _ => None,
        }
    }

    /// The decimal cell at an index, with the column's scale (engine
    /// default 9 when unspecified).
    pub fn get_decimal(&self, index: usize) -> (r: Option<(i128, u64)>)
        requires
            self.wf(),
            self.spec_dtype() matches DTypeV::Decimal(p, s) ==> (s is Some ==> 0 <= s->0
                <= u64::MAX as int),
        ensures
            match r {
                Some((v, sc)) => {
                    &&& index < self.spec_vals().len()
                    &&& self.spec_dtype() matches DTypeV::Decimal(_, s)
                    &&& self.spec_vals()[index as int] == Val::Dec(v as int)
                    &&& sc as int == (match self.spec_dtype() {
                        DTypeV::Decimal(_, Some(s)) => s,
                        _ => 9int,
                    })
                },
                None => index >= self.spec_vals().len() || !(self.spec_dtype() is Decimal)
                    || self.spec_vals()[index as int] is Null,
            },
    {
        let scale: u64 = match self.dtype() {
            LogicalType::Decimal(_, s) => match s {
                Some(v) => *v as u64,
                None => 9,
            },
            _ => {
                return None;
            },
        };
        if index >= self.len() {
            return None;
        }
        match self.cell(index) {
            AnyVal::Dec(v) => Some((*v, scale)),
            _ => None,
        }
    }

    /// The date cell at an index, as days since the epoch.
    pub fn get_date(&self, index: usize) -> (r: Option<i32>)
        requires
            self.wf(),
        ensures
            match r {
                Some(v) => {
                    &&& index < self.spec_vals().len()
                    &&& self.spec_dtype() is Date
                    &&& self.spec_vals()[index as int] == Val::Int(v as int)
                },
                None => index >= self.spec_vals().len() || !(self.spec_dtype() is Date)
                    || self.spec_vals()[index as int] is Null,
            },
    {
        let k = self.dtype().kind_of();
        if k != 13 {
            return None;
        }
        if index >= self.len() {
            return None;
        }
        proof {
            assert(val_matches_dtype(self.spec_vals()[index as int], self.spec_dtype()));
        }
        match self.cell(index) {
            AnyVal::Int(v) => Some(*v as i32),
            _ => None,
        }
    }

    /// The time-of-day cell at an index, in nanoseconds.
    pub fn get_time(&self, index: usize) -> (r: Option<i64>)
        requires
            self.wf(),
        ensures
            match r {
                Some(v) => {
                    &&& index < self.spec_vals().len()
                    &&& self.spec_dtype() is Time
                    &&& self.spec_vals()[index as int] == Val::Int(v as int)
                },
                None => index >= self.spec_vals().len() || !(self.spec_dtype() is Time)
                    || self.spec_vals()[index as int] is Null,
            },
    {
        let k = self.dtype().kind_of();
        if k != 15 {
            return None;
        }
        if index >= self.len() {
            return None;
        }
        match self.cell(index) {
            AnyVal::Int(v) => Some(*v),
            _ => None,
        }
    }

    /// The datetime cell at an index, in the column's time unit.
    pub fn get_datetime(&self, index: usize) -> (r: Option<i64>)
        requires
            self.wf(),
        ensures
            match r {
                Some(v) => {
                    &&& index < self.spec_vals().len()
                    &&& self.spec_dtype() is Datetime
                    &&& self.spec_vals()[index as int] == Val::Int(v as int)
                },
                None => index >= self.spec_vals().len() || !(self.spec_dtype() is Datetime)
                    || self.spec_vals()[index as int] is Null,
            },
    {
        let k = self.dtype().kind_of();
        if k != 14 {
            return None;
        }
        if index >= self.len() {
            return None;
        }
        match self.cell(index) {
            AnyVal::Int(v) => Some(*v),
            _ => None,
        }
    }

    /// The duration cell at an index, in the column's time unit.
    pub fn get_duration(&self, index: usize) -> (r: Option<i64>)
        requires
            self.wf(),
        ensures
            match r {
                Some(v) => {
                    &&& index < self.spec_vals().len()
                    &&& self.spec_dtype() is Duration
                    &&& self.spec_vals()[index as int] == Val::Int(v as int)
                },
                None => index >= self.spec_vals().len() || !(self.spec_dtype() is Duration)
                    || self.spec_vals()[index as int] is Null,
            },
    {
        let k = self.dtype().kind_of();
        if k != 16 {
            return None;
        }
        if index >= self.len() {
            return None;
        }
        match self.cell(index) {
            AnyVal::Int(v) => Some(*v),
            _ => None,
        }
    }
}

/// The cells of an elementwise null test.
pub open spec fn spec_null_mask(vals: Seq<Val>, want_null: bool) -> Seq<Val> {
    vals.map_values(|v: Val| Val::Bool((v is Null) == want_null))
}

impl Series {
    #[verifier::loop_isolation(false)]
    fn null_mask(&self, want_null: bool) -> (r: Series)
        ensures
            r.spec_name() == self.spec_name(),
            r.spec_dtype() == DTypeV::Boolean,
            r.spec_vals() == spec_null_mask(self.spec_vals(), want_null),
            r.wf(),
    {
        let n = self.len();
        let mut out: Vec<AnyVal> = Vec::new();
        let mut i: usize = 0;
        while i < n
            invariant
                i <= n,
                n == self.spec_vals().len(),
                out.len() == i,
                forall|j: int|
                    0 <= j < i ==> (#[trigger] out@[j])@ == Val::Bool(
                        (self.spec_vals()[j] is Null) == want_null,
                    ),
            decreases n - i,
        {
            let is_n = self.cell(i).is_null();
            out.push(AnyVal::Bool(is_n == want_null));
            i = i + 1;
        }
        proof {
            crate::value::lemma_vals_view(out@);
            assert(crate::value::vals_view(out@) =~= spec_null_mask(self.spec_vals(), want_null));
        }
        let name: String = self.name().to_owned();
        let r = Series::from_checked(name, LogicalType::Boolean, out);
        r
    }

    /// An elementwise Boolean column: true where the cell is null.
    pub fn is_null(&self) -> (r: Series)
        ensures
            r.spec_name() == self.spec_name(),
            r.spec_dtype() == DTypeV::Boolean,
            r.spec_vals() == spec_null_mask(self.spec_vals(), true),
            r.wf(),
    {
        self.null_mask(true)
    }

    /// An elementwise Boolean column: true where the cell is valid.
    pub fn is_not_null(&self) -> (r: Series)
        ensures
            r.spec_name() == self.spec_name(),
            r.spec_dtype() == DTypeV::Boolean,
            r.spec_vals() == spec_null_mask(self.spec_vals(), false),
            r.wf(),
    {
        self.null_mask(false)
    }
}

/// Whether a double-precision bit pattern encodes a NaN: maximal exponent
/// and a non-zero mantissa.
pub open spec fn f64_bits_is_nan(bits: u64) -> bool {
    (bits >> 52) & 0x7ff == 0x7ff && (bits & 0xfffffffffffff) != 0
}

/// Whether a double-precision bit pattern encodes an infinity.
pub open spec fn f64_bits_is_inf(bits: u64) -> bool {
    (bits >> 52) & 0x7ff == 0x7ff && (bits & 0xfffffffffffff) == 0
}

/// Whether a single-precision bit pattern encodes a NaN.
pub open spec fn f32_bits_is_nan(bits: u32) -> bool {
    (bits >> 23) & 0xff == 0xff && (bits & 0x7fffff) != 0
}

/// Whether a single-precision bit pattern encodes an infinity.
pub open spec fn f32_bits_is_inf(bits: u32) -> bool {
    (bits >> 23) & 0xff == 0xff && (bits & 0x7fffff) == 0
}

/// The float predicates.
#[derive(Clone, Copy, Debug, PartialEq, Eq, Structural)]
pub enum FloatPred {
    IsNan,
    IsNotNan,
    IsFinite,
    IsInfinite,
}

/// The value of a float predicate on one cell: null stays null.
pub open spec fn spec_float_pred_cell(p: FloatPred, v: Val) -> Val {
    match v {
        Val::Null => Val::Null,
        Val::F32Bits(b) => Val::Bool(spec_float_pred_holds(p, f32_bits_is_nan(b), f32_bits_is_inf(b))),
        Val::F64Bits(b) => Val::Bool(spec_float_pred_holds(p, f64_bits_is_nan(b), f64_bits_is_inf(b))),
        _ => Val::Null,
    }
}

/// How a predicate reads the NaN and infinity classifications.
pub open spec fn spec_float_pred_holds(p: FloatPred, nan: bool, inf: bool) -> bool {
    match p {
        FloatPred::IsNan => nan,
        FloatPred::IsNotNan => !nan,
        FloatPred::IsFinite => !nan && !inf,
        FloatPred::IsInfinite => inf,
    }
}

impl Series {
    /// Evaluates a float predicate elementwise. Defined only for float
    /// columns; any other type is a type error.
    #[verifier::loop_isolation(false)]
    pub fn float_pred(&self, p: FloatPred) -> (r: Result<Series, EngineError>)
        requires
            self.wf(),
        ensures
            match r {
                Ok(s) => {
                    &&& self.spec_dtype() is Float32 || self.spec_dtype() is Float64
                    &&& s.spec_name() == self.spec_name()
                    &&& s.spec_dtype() == DTypeV::Boolean
                    &&& s.spec_vals().len() == self.spec_vals().len()
                    &&& forall|i: int|
                        0 <= i < s.spec_vals().len() ==> #[trigger] s.spec_vals()[i]
                            == spec_float_pred_cell(p, self.spec_vals()[i])
                    &&& s.wf()
                },
                Err(e) => {
                    &&& e.kind() == ErrorKind::Type
                    &&& !(self.spec_dtype() is Float32 || self.spec_dtype() is Float64)
                },
            },
    {
        let k = self.dtype().kind_of();
        if !(k == 10 || k == 11) {
            return Err(EngineError::type_error("float predicate on a non-float column"));
        }
        let n = self.len();
        let mut out: Vec<AnyVal> = Vec::new();
        let mut i: usize = 0;
        while i < n
            invariant
                i <= n,
                n == self.spec_vals().len(),
                out.len() == i,
                forall|j: int|
                    0 <= j < i ==> (#[trigger] out@[j])@ == spec_float_pred_cell(
                        p,
                        self.spec_vals()[j],
                    ),
            decreases n - i,
        {
            let cell = match self.cell(i) {
                AnyVal::F64Bits(b) => {
                    let bits = *b;
                    let nan = (bits >> 52) & 0x7ff == 0x7ff && (bits & 0xfffffffffffff) != 0;
                    let inf = (bits >> 52) & 0x7ff == 0x7ff && (bits & 0xfffffffffffff) == 0;
                    AnyVal::Bool(float_pred_holds(p, nan, inf))
                },
                AnyVal::F32Bits(b) => {
                    let bits = *b;
                    let nan = (bits >> 23) & 0xff == 0xff && (bits & 0x7fffff) != 0;
                    let inf = (bits >> 23) & 0xff == 0xff && (bits & 0x7fffff) == 0;
                    AnyVal::Bool(float_pred_holds(p, nan, inf))
                },
                _ => AnyVal::Null,
            };
            proof {
                assert(val_matches_dtype(self.spec_vals()[i as int], self.spec_dtype()));
            }
            out.push(cell);
            i = i + 1;
        }
        proof {
            crate::value::lemma_vals_view(out@);
        }
        let name: String = self.name().to_owned();
        Ok(Series::from_checked(name, LogicalType::Boolean, out))
    }
}

fn float_pred_holds(p: FloatPred, nan: bool, inf: bool) -> (r: bool)
    ensures
        r == spec_float_pred_holds(p, nan, inf),
{
    match p {
        FloatPred::IsNan => nan,
        FloatPred::IsNotNan => !nan,
        FloatPred::IsFinite => !nan && !inf,
        FloatPred::IsInfinite => inf,
    }
}

// ------------------------------------------------------------------
// Non-strict cast
// ------------------------------------------------------------------
use crate::numtext::int_dec_str;
use crate::numtext::int_text_val;
use crate::numtext::is_int_text;
use crate::numtext::is_uint_text;
use crate::numtext::digits_val;
use crate::numtext::i64_to_string;
use crate::numtext::parse_i64;
use crate::numtext::parse_u64;
use crate::value::int_range_of;
use crate::value::uint_range_of;

/// Whether a type belongs to the signed-integer physical family (the
/// signed widths and the temporal types).
pub open spec fn is_intlike(t: DTypeV) -> bool {
    int_range_of(t) is Some
}

/// Whether a type is an unsigned-integer width.
pub open spec fn is_uintlike(t: DTypeV) -> bool {
    uint_range_of(t) is Some
}

/// Whether a type holds text cells.
pub open spec fn is_textlike(t: DTypeV) -> bool {
    t is Str || t is Categorical
}

/// Whether a cast between two types is structurally possible. Casts among
/// the integer, unsigned, boolean and text families convert cell by cell
/// (a cell that cannot be represented becomes null); every type casts to
/// itself; an all-null column casts to anything. Anything else — floats,
/// decimals, nested types — is rejected with a cast error, since this
/// engine cannot re-encode their cells.
pub open spec fn spec_castable(from: DTypeV, to: DTypeV) -> bool {
    ||| from == to
    ||| from is Null
    ||| ((is_intlike(from) || is_uintlike(from) || from is Boolean || is_textlike(from)) && (
    is_intlike(to) || is_uintlike(to) || to is Boolean || is_textlike(to)))
}

/// The non-strict cast of one cell: a value that cannot be represented in
/// the target type becomes null, never an error.
pub open spec fn spec_cast_cell(v: Val, to: DTypeV) -> Val {
    match v {
        Val::Null => Val::Null,
        Val::Bool(b) => {
            if to is Boolean {
                v
            } else if is_intlike(to) {
                Val::Int(
                    if b {
                        1
                    } else {
                        0
                    },
                )
            } else if is_uintlike(to) {
                Val::UInt(
                    if b {
                        1
                    } else {
                        0
                    },
                )
            } else if is_textlike(to) {
                Val::Text(
                    if b {
                        "true"@
                    } else {
                        "false"@
                    },
                )
            } else {
                v
            }
        },
        Val::Int(x) => {
            if is_intlike(to) {
                match int_range_of(to) {
                    Some((lo, hi)) => if lo <= x <= hi {
                        Val::Int(x)
                    } else {
                        Val::Null
                    },
                    None => Val::Null,
                }
            } else if is_uintlike(to) {
                match uint_range_of(to) {
                    Some((lo, hi)) => if lo <= x <= hi {
                        Val::UInt(x)
                    } else {
                        Val::Null
                    },
                    None => Val::Null,
                }
            } else if to is Boolean {
                Val::Bool(x != 0)
            } else if is_textlike(to) {
                Val::Text(int_dec_str(x))
            } else {
                v
            }
        },
        Val::UInt(x) => {
            if is_uintlike(to) {
                match uint_range_of(to) {
                    Some((lo, hi)) => if lo <= x <= hi {
                        Val::UInt(x)
                    } else {
                        Val::Null
                    },
                    None => Val::Null,
                }
            } else if is_intlike(to) {
                match int_range_of(to) {
                    Some((lo, hi)) => if lo <= x <= hi {
                        Val::Int(x)
                    } else {
                        Val::Null
                    },
                    None => Val::Null,
                }
            } else if to is Boolean {
                Val::Bool(x != 0)
            } else if is_textlike(to) {
                Val::Text(int_dec_str(x))
            } else {
                v
            }
        },
        Val::Text(s) => {
            if is_textlike(to) {
                v
            } else if is_intlike(to) {
                match int_range_of(to) {
                    Some((lo, hi)) => if is_int_text(s) && lo <= int_text_val(s) <= hi {
                        Val::Int(int_text_val(s))
                    } else {
                        Val::Null
                    },
                    None => Val::Null,
                }
            } else if is_uintlike(to) {
                match uint_range_of(to) {
                    Some((lo, hi)) => if is_uint_text(s) && digits_val(s) <= hi {
                        Val::UInt(digits_val(s) as int)
                    } else {
                        Val::Null
                    },
                    None => Val::Null,
                }
            } else if to is Boolean {
                if s == "true"@ {
                    Val::Bool(true)
                } else if s == "false"@ {
                    Val::Bool(false)
                } else {
                    Val::Null
                }
            } else {
                v
            }
        },
        _ => v,
    }
}

/// The signed bounds of an integer-family type.
fn dtype_int_bounds(t: &LogicalType) -> (r: Option<(i64, i64)>)
    ensures
        match r {
            Some((lo, hi)) => int_range_of(t@) == Some((lo as int, hi as int)),
            None => int_range_of(t@) is None,
        },
{
    match t {
        LogicalType::Int8 => Some((-128, 127)),
        LogicalType::Int16 => Some((-32768, 32767)),
        LogicalType::Int32 => Some((-2147483648, 2147483647)),
        LogicalType::Int64 => Some((i64::MIN, i64::MAX)),
        LogicalType::Date => Some((-2147483648, 2147483647)),
        LogicalType::Time => Some((i64::MIN, i64::MAX)),
        LogicalType::Datetime(_, _) => Some((i64::MIN, i64::MAX)),
        LogicalType::Duration(_) => Some((i64::MIN, i64::MAX)),
        _ => None,
    }
}

/// The bounds of an unsigned-integer type.
fn dtype_uint_bounds(t: &LogicalType) -> (r: Option<(u64, u64)>)
    ensures
        match r {
            Some((lo, hi)) => uint_range_of(t@) == Some((lo as int, hi as int)),
            None => uint_range_of(t@) is None,
        },
{
    match t {
        LogicalType::UInt8 => Some((0, 255)),
        LogicalType::UInt16 => Some((0, 65535)),
        LogicalType::UInt32 => Some((0, 4294967295)),
        LogicalType::UInt64 => Some((0, u64::MAX)),
        _ => None,
    }
}

/// Casts one cell, non-strictly.
fn cast_cell(v: &AnyVal, to: &LogicalType) -> (r: AnyVal)
    ensures
        r@ == spec_cast_cell(v@, to@),
{
    proof {
        reveal_strlit("true");
        reveal_strlit("false");
    }
    match v {
        AnyVal::Null => AnyVal::Null,
        AnyVal::Bool(b) => {
            if to.kind_of() == 1 {
                AnyVal::Bool(*b)
            } else if dtype_int_bounds(to).is_some() {
                AnyVal::Int(
                    if *b {
                        1
                    } else {
                        0
                    },
                )
            } else if dtype_uint_bounds(to).is_some() {
                AnyVal::UInt(
                    if *b {
                        1
                    } else {
                        0
                    },
                )
            } else if to.kind_of() == 12 || to.kind_of() == 21 {
                let t: String = if *b {
                    "true".to_owned()
                } else {
                    "false".to_owned()
                };
                AnyVal::Text(t)
            } else {
                AnyVal::Bool(*b)
            }
        },
        AnyVal::Int(x) => {
            if let Some((lo, hi)) = dtype_int_bounds(to) {
                if lo <= *x && *x <= hi {
                    AnyVal::Int(*x)
                } else {
                    AnyVal::Null
                }
            } else if let Some((_lo, hi)) = dtype_uint_bounds(to) {
                if *x >= 0 && (*x as u64) <= hi {
                    AnyVal::UInt(*x as u64)
                } else {
                    AnyVal::Null
                }
            } else if to.kind_of() == 1 {
                AnyVal::Bool(*x != 0)
            } else if to.kind_of() == 12 || to.kind_of() == 21 {
                AnyVal::Text(i64_to_string(*x))
            } else {
                AnyVal::Int(*x)
            }
        },
        AnyVal::UInt(x) => {
            if let Some((_lo, hi)) = dtype_uint_bounds(to) {
                if *x <= hi {
                    AnyVal::UInt(*x)
                } else {
                    AnyVal::Null
                }
            } else if let Some((lo, hi)) = dtype_int_bounds(to) {
                if *x <= i64::MAX as u64 && lo <= (*x as i64) && (*x as i64) <= hi {
                    AnyVal::Int(*x as i64)
                } else {
                    AnyVal::Null
                }
            } else if to.kind_of() == 1 {
                AnyVal::Bool(*x != 0)
            } else if to.kind_of() == 12 || to.kind_of() == 21 {
                AnyVal::Text(crate::numtext::u64_to_string(*x))
            } else {
                AnyVal::UInt(*x)
            }
        },
        AnyVal::Text(s) => {
            if to.kind_of() == 12 || to.kind_of() == 21 {
                AnyVal::Text(s.clone())
            } else if let Some((lo, hi)) = dtype_int_bounds(to) {
                match parse_i64(s.as_str()) {
                    Some(parsed) => {
                        if lo <= parsed && parsed <= hi {
                            AnyVal::Int(parsed)
                        } else {
                            AnyVal::Null
                        }
                    },
                    None => AnyVal::Null,
                }
            } else if let Some((_lo, hi)) = dtype_uint_bounds(to) {
                match parse_u64(s.as_str()) {
                    Some(parsed) => {
                        if parsed <= hi {
                            AnyVal::UInt(parsed)
                        } else {
                            AnyVal::Null
                        }
                    },
                    None => AnyVal::Null,
                }
            } else if to.kind_of() == 1 {
                if s.eq(&"true".to_owned()) {
                    AnyVal::Bool(true)
                } else if s.eq(&"false".to_owned()) {
                    AnyVal::Bool(false)
                } else {
                    AnyVal::Null
                }
            } else {
                AnyVal::Text(s.clone())
            }
        },
        _ => v.duplicate(),
    }
}

/// A cell cast to a type it may inhabit stays well-formed.
pub proof fn lemma_cast_cell_wf(v: Val, from: DTypeV, to: DTypeV)
    requires
        val_matches_dtype(v, from),
        spec_castable(from, to),
    ensures
        val_matches_dtype(spec_cast_cell(v, to), to),
{
}

impl Series {
    /// Non-strict cast to a target type: a cell that cannot be represented
    /// becomes null; only a structurally impossible cast fails, with a
    /// cast error.
    #[verifier::loop_isolation(false)]
    pub fn cast(&self, to: &LogicalType) -> (r: Result<Series, EngineError>)
        requires
            self.wf(),
        ensures
            match r {
                Ok(s) => {
                    &&& spec_castable(self.spec_dtype(), to@)
                    &&& s.wf()
                    &&& s.spec_name() == self.spec_name()
                    &&& s.spec_dtype() == to@
                    &&& s.spec_vals().len() == self.spec_vals().len()
                    &&& forall|i: int|
                        0 <= i < s.spec_vals().len() ==> #[trigger] s.spec_vals()[i]
                            == spec_cast_cell(self.spec_vals()[i], to@)
                },
                Err(e) => {
                    &&& e.kind() == ErrorKind::Cast
                    &&& !spec_castable(self.spec_dtype(), to@)
                },
            },
    {
        let from = self.dtype();
        let from_ok = from.kind_of() == 1 || from.kind_of() == 12 || from.kind_of() == 21
            || dtype_int_bounds(from).is_some() || dtype_uint_bounds(from).is_some();
        let to_ok = to.kind_of() == 1 || to.kind_of() == 12 || to.kind_of() == 21
            || dtype_int_bounds(to).is_some() || dtype_uint_bounds(to).is_some();
        if !(from.dtype_eq(to) || from.kind_of() == 18 || (from_ok && to_ok)) {
            return Err(EngineError::cast("cast between these types is not supported"));
        }
        let n = self.len();
        let mut out: Vec<AnyVal> = Vec::new();
        let mut i: usize = 0;
        while i < n
            invariant
                i <= n,
                n == self.spec_vals().len(),
                out.len() == i,
                forall|j: int|
                    0 <= j < i ==> (#[trigger] out@[j])@ == spec_cast_cell(
                        self.spec_vals()[j],
                        to@,
                    ),
            decreases n - i,
        {
            let cell = cast_cell(self.cell(i), to);
            out.push(cell);
            i = i + 1;
        }
        proof {
            crate::value::lemma_vals_view(out@);
            assert forall|j: int| 0 <= j < crate::value::vals_view(out@).len() implies
                val_matches_dtype(#[trigger] crate::value::vals_view(out@)[j], to@) by {
                lemma_cast_cell_wf(self.spec_vals()[j], self.spec_dtype(), to@);
            }
        }
        let name: String = self.name().to_owned();
        Ok(Series::from_checked(name, to.duplicate(), out))
    }
}

/// Whether a cast from one type to another loses nothing: every non-null
/// cell of the source type stays representable, so no cell becomes null.
pub open spec fn spec_lossless_cast(from: DTypeV, to: DTypeV) -> bool {
    ||| from == to
    ||| (is_intlike(from) && is_intlike(to) && range_within(int_range_of(from), int_range_of(to)))
    ||| (is_uintlike(from) && is_uintlike(to) && range_within(
        uint_range_of(from),
        uint_range_of(to),
    ))
    ||| (is_uintlike(from) && is_intlike(to) && range_within(uint_range_of(from), int_range_of(to)))
    ||| (from is Boolean && (is_intlike(to) || is_uintlike(to)))
}

/// Whether the first range sits inside the second.
pub open spec fn range_within(a: Option<(int, int)>, b: Option<(int, int)>) -> bool {
    match (a, b) {
        (Some((alo, ahi)), Some((blo, bhi))) => blo <= alo && ahi <= bhi,
        _ => false,
    }
}

/// Casting to a losslessly-convertible type and back is idempotent in
/// shape: both casts are possible, neither direction turns a valid cell
/// null or a null cell valid, so the length and the null positions of the
/// round-tripped column equal the original's.
pub proof fn lemma_cast_roundtrip_shape(v: Val, from: DTypeV, to: DTypeV)
    requires
        val_matches_dtype(v, from),
        spec_lossless_cast(from, to),
    ensures
        spec_castable(from, to),
        spec_castable(to, from),
        (spec_cast_cell(v, to) is Null) == (v is Null),
        (spec_cast_cell(spec_cast_cell(v, to), from) is Null) == (v is Null),
{
}

// ------------------------------------------------------------------
// Elementwise arithmetic and comparison, with length-1 broadcasting
// ------------------------------------------------------------------
use crate::value::spec_val_lt;

/// The elementwise arithmetic operators.
#[derive(Clone, Copy, Debug, PartialEq, Eq, Structural)]
pub enum ArithOp {
    Add,
    Sub,
    Mul,
    Div,
}

/// The elementwise comparison operators.
#[derive(Clone, Copy, Debug, PartialEq, Eq, Structural)]
pub enum CmpOp {
    Eq,
    Neq,
    Gt,
    GtEq,
    Lt,
    LtEq,
}

/// Integer division truncating toward zero, the engine's division rule.
pub open spec fn trunc_div(x: int, d: int) -> int {
    if x == 0 {
        0
    } else if x > 0 && d > 0 {
        x / d
    } else if x < 0 && d < 0 {
        ((x * -1) / (d * -1))
    } else if x < 0 {
        ((x * -1) / d) * -1
    } else {
        (x / (d * -1)) * -1
    }
}

/// One cell of an arithmetic result. A null operand gives null; a result
/// outside the column type's range gives null; division by zero gives
/// null. Arithmetic is defined for the signed and unsigned integer
/// families only.
pub open spec fn spec_arith_cell(op: ArithOp, t: DTypeV, a: Val, b: Val) -> Val {
    if a is Null || b is Null {
        Val::Null
    } else {
        match (a, b) {
            (Val::Int(x), Val::Int(y)) => match int_range_of(t) {
                Some((lo, hi)) => {
                    if op is Div && y == 0 {
                        Val::Null
                    } else {
                        let r = match op {
                            ArithOp::Add => x + y,
                            ArithOp::Sub => x - y,
                            ArithOp::Mul => x * y,
                            ArithOp::Div => trunc_div(x, y),
                        };
                        if lo <= r <= hi {
                            Val::Int(r)
                        } else {
                            Val::Null
                        }
                    }
                },
                None => Val::Null,
            },
            (Val::UInt(x), Val::UInt(y)) => match uint_range_of(t) {
                Some((lo, hi)) => {
                    if op is Div && y == 0 {
                        Val::Null
                    } else {
                        let r = match op {
                            ArithOp::Add => x + y,
                            ArithOp::Sub => x - y,
                            ArithOp::Mul => x * y,
                            ArithOp::Div => x / y,
                        };
                        if lo <= r <= hi {
                            Val::UInt(r)
                        } else {
                            Val::Null
                        }
                    }
                },
                None => Val::Null,
            },
            _ => Val::Null,
        }
    }
}

/// One cell of a comparison result: null compares as null, never true or
/// false; otherwise the engine's total value order decides.
pub open spec fn spec_cmp_cell(op: CmpOp, a: Val, b: Val) -> Val {
    if a is Null || b is Null {
        Val::Null
    } else {
        let lt = spec_val_lt(a, b);
        let gt = spec_val_lt(b, a);
        let eq = a == b;
        Val::Bool(
            match op {
                CmpOp::Eq => eq,
                CmpOp::Neq => !eq,
                CmpOp::Lt => lt,
                CmpOp::LtEq => lt || eq,
                CmpOp::Gt => gt,
                CmpOp::GtEq => gt || eq,
            },
        )
    }
}

/// The operand cell for row `i` under length-1 broadcasting.
pub open spec fn bcast_cell(vals: Seq<Val>, i: int) -> Val {
    if vals.len() == 1 {
        vals[0]
    } else {
        vals[i]
    }
}

/// The result length of a broadcast pair.
pub open spec fn bcast_len(a: nat, b: nat) -> nat {
    if a == 1 {
        b
    } else {
        a
    }
}

/// Whether two lengths are compatible: equal, or either is one.
pub open spec fn bcast_ok(a: nat, b: nat) -> bool {
    a == b || a == 1 || b == 1
}

fn arith_cell(op: ArithOp, t: &LogicalType, a: &AnyVal, b: &AnyVal) -> (r: AnyVal)
    ensures
        r@ == spec_arith_cell(op, t@, a@, b@),
{
    match (a, b) {
        (AnyVal::Int(xr), AnyVal::Int(yr)) => {
            let x = *xr;
            let y = *yr;
            match dtype_int_bounds(t) {
                Some((lo, hi)) => {
                    let checked: Option<i64> = match op {
                        ArithOp::Add => x.checked_add(y),
                        ArithOp::Sub => x.checked_sub(y),
                        ArithOp::Mul => x.checked_mul(y),
                        ArithOp::Div => {
                            if y == 0 {
                                return AnyVal::Null;
                            }
                            x.checked_div(y)
                        },
                    };
                    match checked {
                        Some(rv) => {
                            if lo <= rv && rv <= hi {
                                AnyVal::Int(rv)
                            } else {
                                AnyVal::Null
                            }
                        },
                        None => AnyVal::Null,
                    }
                },
                None => AnyVal::Null,
            }
        },
        (AnyVal::UInt(xr), AnyVal::UInt(yr)) => {
            let x = *xr;
            let y = *yr;
            match dtype_uint_bounds(t) {
                Some((lo, hi)) => {
                    let checked: Option<u64> = match op {
                        ArithOp::Add => x.checked_add(y),
                        ArithOp::Sub => x.checked_sub(y),
                        ArithOp::Mul => x.checked_mul(y),
                        ArithOp::Div => {
                            if y == 0 {
                                return AnyVal::Null;
                            }
                            Some(x / y)
                        },
                    };
                    match checked {
                        Some(rv) => {
                            if lo <= rv && rv <= hi {
                                AnyVal::UInt(rv)
                            } else {
                                AnyVal::Null
                            }
                        },
                        None => AnyVal::Null,
                    }
                },
                None => AnyVal::Null,
            }
        },
        (AnyVal::Null, _) => AnyVal::Null,
        (_, AnyVal::Null) => AnyVal::Null,
        _ => AnyVal::Null,
    }
}

fn cmp_cell(op: CmpOp, a: &AnyVal, b: &AnyVal) -> (r: AnyVal)
    ensures
        r@ == spec_cmp_cell(op, a@, b@),
{
    if a.is_null() || b.is_null() {
        return AnyVal::Null;
    }
    let eq = a.val_eq(b);
    let out = match op {
        CmpOp::Eq => eq,
        CmpOp::Neq => !eq,
        CmpOp::Lt => a.val_lt(b),
        CmpOp::LtEq => a.val_lt(b) || eq,
        CmpOp::Gt => b.val_lt(a),
        CmpOp::GtEq => b.val_lt(a) || eq,
    };
    AnyVal::Bool(out)
}

/// An arithmetic result cell stays within its column type.
pub proof fn lemma_arith_cell_wf(op: ArithOp, t: DTypeV, a: Val, b: Val)
    ensures
        val_matches_dtype(spec_arith_cell(op, t, a, b), t),
{
}

impl Series {
    /// Elementwise arithmetic over two columns of the same integer or
    /// unsigned-integer type, broadcasting a length-1 operand. A cell
    /// whose exact result leaves the type's range becomes null, as does
    /// division by zero. The result keeps the left column's name.
    #[verifier::loop_isolation(false)]
    pub fn arith(&self, other: &Series, op: ArithOp) -> (r: Result<Series, EngineError>)
        requires
            self.wf(),
            other.wf(),
        ensures
            match r {
                Ok(s) => {
                    &&& self.spec_dtype() == other.spec_dtype()
                    &&& is_intlike(self.spec_dtype()) || is_uintlike(self.spec_dtype())
                    &&& bcast_ok(self.spec_vals().len(), other.spec_vals().len())
                    &&& s.spec_name() == self.spec_name()
                    &&& s.spec_dtype() == self.spec_dtype()
                    &&& s.spec_vals().len() == bcast_len(
                        self.spec_vals().len(),
                        other.spec_vals().len(),
                    )
                    &&& forall|i: int|
                        0 <= i < s.spec_vals().len() ==> #[trigger] s.spec_vals()[i]
                            == spec_arith_cell(
                            op,
                            self.spec_dtype(),
                            bcast_cell(self.spec_vals(), i),
                            bcast_cell(other.spec_vals(), i),
                        )
                    &&& s.wf()
                },
                Err(e) => {
                    &&& !(self.spec_dtype() == other.spec_dtype() && (is_intlike(self.spec_dtype())
                        || is_uintlike(self.spec_dtype())) && bcast_ok(
                        self.spec_vals().len(),
                        other.spec_vals().len(),
                    ))
                    &&& e.kind() == (if self.spec_dtype() == other.spec_dtype() && (is_intlike(
                        self.spec_dtype(),
                    ) || is_uintlike(self.spec_dtype())) {
                        ErrorKind::Shape
                    } else {
                        ErrorKind::Type
                    })
                },
            },
    {
        if !self.dtype().dtype_eq(other.dtype()) {
            return Err(EngineError::type_error("arithmetic requires matching column types"));
        }
        let family_ok = dtype_int_bounds(self.dtype()).is_some() || dtype_uint_bounds(
            self.dtype(),
        ).is_some();
        if !family_ok {
            return Err(EngineError::type_error("arithmetic requires an integer column type"));
        }
        let ln = self.len();
        let rn = other.len();
        if !(ln == rn || ln == 1 || rn == 1) {
            return Err(EngineError::shape("column lengths differ and neither is one"));
        }
        let n = if ln == 1 {
            rn
        } else {
            ln
        };
        let mut out: Vec<AnyVal> = Vec::new();
        let mut i: usize = 0;
        while i < n
            invariant
                i <= n,
                out.len() == i,
                forall|j: int|
                    0 <= j < i ==> (#[trigger] out@[j])@ == spec_arith_cell(
                        op,
                        self.spec_dtype(),
                        bcast_cell(self.spec_vals(), j),
                        bcast_cell(other.spec_vals(), j),
                    ),
            decreases n - i,
        {
            let la = if ln == 1 {
                self.cell(0)
            } else {
                self.cell(i)
            };
            let rb = if rn == 1 {
                other.cell(0)
            } else {
                other.cell(i)
            };
            let cell = arith_cell(op, self.dtype(), la, rb);
            out.push(cell);
            i = i + 1;
        }
        proof {
            crate::value::lemma_vals_view(out@);
            assert forall|j: int| 0 <= j < crate::value::vals_view(out@).len() implies
                val_matches_dtype(
                #[trigger] crate::value::vals_view(out@)[j],
                self.spec_dtype(),
            ) by {
                lemma_arith_cell_wf(
                    op,
                    self.spec_dtype(),
                    bcast_cell(self.spec_vals(), j),
                    bcast_cell(other.spec_vals(), j),
                );
            }
        }
        let name: String = self.name().to_owned();
        Ok(Series::from_checked(name, self.dtype().duplicate(), out))
    }

    /// Elementwise comparison over two columns of the same type,
    /// broadcasting a length-1 operand; the result is a Boolean column and
    /// a null operand yields a null cell. Comparisons on float columns are
    /// rejected: the engine does not order IEEE-754 payloads.
    #[verifier::loop_isolation(false)]
    pub fn compare(&self, other: &Series, op: CmpOp) -> (r: Result<Series, EngineError>)
        requires
            self.wf(),
            other.wf(),
        ensures
            match r {
                Ok(s) => {
                    &&& self.spec_dtype() == other.spec_dtype()
                    &&& !(self.spec_dtype() is Float32 || self.spec_dtype() is Float64)
                    &&& bcast_ok(self.spec_vals().len(), other.spec_vals().len())
                    &&& s.spec_name() == self.spec_name()
                    &&& s.spec_dtype() == DTypeV::Boolean
                    &&& s.spec_vals().len() == bcast_len(
                        self.spec_vals().len(),
                        other.spec_vals().len(),
                    )
                    &&& forall|i: int|
                        0 <= i < s.spec_vals().len() ==> #[trigger] s.spec_vals()[i]
                            == spec_cmp_cell(
                            op,
                            bcast_cell(self.spec_vals(), i),
                            bcast_cell(other.spec_vals(), i),
                        )
                    &&& s.wf()
                },
                Err(e) => {
                    &&& !(self.spec_dtype() == other.spec_dtype() && !(self.spec_dtype() is Float32
                        || self.spec_dtype() is Float64) && bcast_ok(
                        self.spec_vals().len(),
                        other.spec_vals().len(),
                    ))
                    &&& e.kind() == (if self.spec_dtype() == other.spec_dtype() && !(
                    self.spec_dtype() is Float32 || self.spec_dtype() is Float64) {
                        ErrorKind::Shape
                    } else {
                        ErrorKind::Type
                    })
                },
            },
    {
        if !self.dtype().dtype_eq(other.dtype()) {
            return Err(EngineError::type_error("comparison requires matching column types"));
        }
        let k = self.dtype().kind_of();
        if k == 10 || k == 11 {
            return Err(EngineError::type_error("comparison on float columns is not supported"));
        }
        let ln = self.len();
        let rn = other.len();
        if !(ln == rn || ln == 1 || rn == 1) {
            return Err(EngineError::shape("column lengths differ and neither is one"));
        }
        let n = if ln == 1 {
            rn
        } else {
            ln
        };
        let mut out: Vec<AnyVal> = Vec::new();
        let mut i: usize = 0;
        while i < n
            invariant
                i <= n,
                out.len() == i,
                forall|j: int|
                    0 <= j < i ==> (#[trigger] out@[j])@ == spec_cmp_cell(
                        op,
                        bcast_cell(self.spec_vals(), j),
                        bcast_cell(other.spec_vals(), j),
                    ),
            decreases n - i,
        {
            let la = if ln == 1 {
                self.cell(0)
            } else {
                self.cell(i)
            };
            let rb = if rn == 1 {
                other.cell(0)
            } else {
                other.cell(i)
            };
            let cell = cmp_cell(op, la, rb);
            out.push(cell);
            i = i + 1;
        }
        proof {
            crate::value::lemma_vals_view(out@);
        }
        let name: String = self.name().to_owned();
        Ok(Series::from_checked(name, LogicalType::Boolean, out))
    }
}

// ------------------------------------------------------------------
// Reductions: sum, min, max
// ------------------------------------------------------------------
/// The exact sum of the non-null numeric cells.
pub open spec fn spec_sum_nums(vals: Seq<Val>) -> int
    decreases vals,
{
    if vals.len() == 0 {
        0
    } else {
        spec_sum_nums(vals.drop_last()) + (match vals.last() {
            Val::Int(x) => x,
            Val::UInt(x) => x,
            _ => 0,
        })
    }
}

/// No cell sequence has more nulls than cells.
pub proof fn lemma_count_nulls_le(vals: Seq<Val>)
    ensures
        Series::count_nulls(vals) <= vals.len(),
    decreases vals,
{
    if vals.len() > 0 {
        lemma_count_nulls_le(vals.drop_last());
    }
}

/// An all-null column sums to zero.
pub proof fn lemma_all_null_sum_zero(vals: Seq<Val>)
    requires
        Series::count_nulls(vals) == vals.len(),
    ensures
        spec_sum_nums(vals) == 0,
    decreases vals,
{
    if vals.len() > 0 {
        lemma_count_nulls_le(vals.drop_last());
        lemma_all_null_sum_zero(vals.drop_last());
    }
}

/// The least non-null cell under the engine's value order, or null when
/// there is none; ties keep the earlier cell.
pub open spec fn spec_fold_min(vals: Seq<Val>) -> Val
    decreases vals,
{
    if vals.len() == 0 {
        Val::Null
    } else {
        let rest = spec_fold_min(vals.drop_last());
        let x = vals.last();
        if x is Null {
            rest
        } else if rest is Null {
            x
        } else if spec_val_lt(x, rest) {
            x
        } else {
            rest
        }
    }
}

/// The greatest non-null cell, or null when there is none; ties keep the
/// earlier cell.
pub open spec fn spec_fold_max(vals: Seq<Val>) -> Val
    decreases vals,
{
    if vals.len() == 0 {
        Val::Null
    } else {
        let rest = spec_fold_max(vals.drop_last());
        let x = vals.last();
        if x is Null {
            rest
        } else if rest is Null {
            x
        } else if spec_val_lt(rest, x) {
            x
        } else {
            rest
        }
    }
}

/// A fold result is null or one of the cells, so it stays well-formed.
pub proof fn lemma_fold_min_wf(vals: Seq<Val>, t: DTypeV)
    requires
        forall|i: int| 0 <= i < vals.len() ==> val_matches_dtype(#[trigger] vals[i], t),
    ensures
        val_matches_dtype(spec_fold_min(vals), t),
        val_matches_dtype(spec_fold_max(vals), t),
    decreases vals,
{
    if vals.len() > 0 {
        assert(forall|i: int|
            0 <= i < vals.drop_last().len() ==> val_matches_dtype(
                #[trigger] vals.drop_last()[i],
                t,
            ));
        lemma_fold_min_wf(vals.drop_last(), t);
        assert(val_matches_dtype(vals.last(), t));
    }
}

impl Series {
    /// Sums the non-null cells into a single-cell column that keeps the
    /// name. Signed integer columns sum into `Int64`, unsigned into
    /// `UInt64`; an empty or all-null column sums to null; a sum beyond
    /// the 64-bit range is a compute error; any other column type is a
    /// type error.
    #[verifier::loop_isolation(false)]
    pub fn sum(&self) -> (r: Result<Series, EngineError>)
        requires
            self.wf(),
        ensures
            match r {
                Ok(s) => {
                    &&& 2 <= spec_kind_of(self.spec_dtype()) <= 9
                    &&& s.spec_name() == self.spec_name()
                    &&& s.spec_dtype() == (if 2 <= spec_kind_of(self.spec_dtype()) <= 5 {
                        DTypeV::Int64
                    } else {
                        DTypeV::UInt64
                    })
                    &&& s.spec_vals().len() == 1
                    &&& s.spec_vals()[0] == (if Self::count_nulls(self.spec_vals())
                        == self.spec_vals().len() {
                        Val::Null
                    } else if 2 <= spec_kind_of(self.spec_dtype()) <= 5 {
                        Val::Int(spec_sum_nums(self.spec_vals()))
                    } else {
                        Val::UInt(spec_sum_nums(self.spec_vals()))
                    })
                    &&& s.wf()
                },
                Err(e) => {
                    if 2 <= spec_kind_of(self.spec_dtype()) <= 5 {
                        &&& e.kind() == ErrorKind::Compute
                        &&& !(i64::MIN <= spec_sum_nums(self.spec_vals()) <= i64::MAX)
                    } else if 6 <= spec_kind_of(self.spec_dtype()) <= 9 {
                        &&& e.kind() == ErrorKind::Compute
                        &&& spec_sum_nums(self.spec_vals()) > u64::MAX
                    } else {
                        e.kind() == ErrorKind::Type
                    }
                },
            },
    {
        let k = self.dtype().kind_of();
        if 2 <= k && k <= 5 {
            let n = self.len();
            let mut acc: i128 = 0;
            let mut nulls: usize = 0;
            let mut i: usize = 0;
            proof {
                assert(self.spec_vals().take(0) =~= Seq::<Val>::empty());
            }
            while i < n
                invariant
                    i <= n,
                    n == self.spec_vals().len(),
                    nulls == Self::count_nulls(self.spec_vals().take(i as int)),
                    nulls <= i,
                    acc == spec_sum_nums(self.spec_vals().take(i as int)),
                    -0x8000000000000000i128 * (i as i128) <= acc <= 0x7fffffffffffffffi128 * (
                    i as i128),
                decreases n - i,
            {
                proof {
                    let ghost vs = self.spec_vals();
                    assert(vs.take(i + 1).drop_last() =~= vs.take(i as int));
                    assert(vs.take(i + 1).last() == vs[i as int]);
                    assert(val_matches_dtype(vs[i as int], self.spec_dtype()));
                    assert(-0x8000000000000000i128 * ((i + 1) as i128) <= acc
                        - 0x8000000000000000i128 && acc + 0x7fffffffffffffffi128
                        <= 0x7fffffffffffffffi128 * ((i + 1) as i128)) by (nonlinear_arith)
                        requires
                            -0x8000000000000000i128 * (i as i128) <= acc
                                <= 0x7fffffffffffffffi128 * (i as i128),
                            0 <= i < 0x10000000000000000,
                    ;
                }
                match self.cell(i) {
                    AnyVal::Int(x) => {
                        acc = acc + (*x as i128);
                    },
                    AnyVal::Null => {
                        nulls = nulls + 1;
                    },
                    _ => {},
                }
                i = i + 1;
            }
            proof {
                assert(self.spec_vals().take(n as int) =~= self.spec_vals());
            }
            let cell: AnyVal = if nulls == n {
                AnyVal::Null
            } else {
                if acc < i64::MIN as i128 || acc > i64::MAX as i128 {
                    return Err(EngineError::compute("integer sum exceeds the 64-bit range"));
                }
                AnyVal::Int(acc as i64)
            };
            let mut out: Vec<AnyVal> = Vec::new();
            out.push(cell);
            proof {
                crate::value::lemma_vals_view(out@);
            }
            let name: String = self.name().to_owned();
            Ok(Series::from_checked(name, LogicalType::Int64, out))
        } else if 6 <= k && k <= 9 {
            let n = self.len();
            let mut acc: u128 = 0;
            let mut nulls: usize = 0;
            let mut i: usize = 0;
            proof {
                assert(self.spec_vals().take(0) =~= Seq::<Val>::empty());
            }
            while i < n
                invariant
                    i <= n,
                    n == self.spec_vals().len(),
                    nulls == Self::count_nulls(self.spec_vals().take(i as int)),
                    nulls <= i,
                    acc == spec_sum_nums(self.spec_vals().take(i as int)),
                    acc <= 0xffffffffffffffffu128 * (i as u128),
                decreases n - i,
            {
                proof {
                    let ghost vs = self.spec_vals();
                    assert(vs.take(i + 1).drop_last() =~= vs.take(i as int));
                    assert(vs.take(i + 1).last() == vs[i as int]);
                    assert(val_matches_dtype(vs[i as int], self.spec_dtype()));
                    assert(acc + 0xffffffffffffffffu128 <= 0xffffffffffffffffu128 * ((i + 1)
                        as u128)) by (nonlinear_arith)
                        requires
                            acc <= 0xffffffffffffffffu128 * (i as u128),
                            0 <= i < 0x10000000000000000,
                    ;
                }
                match self.cell(i) {
                    AnyVal::UInt(x) => {
                        acc = acc + (*x as u128);
                    },
                    AnyVal::Null => {
                        nulls = nulls + 1;
                    },
                    _ => {},
                }
                i = i + 1;
            }
            proof {
                assert(self.spec_vals().take(n as int) =~= self.spec_vals());
            }
            let cell: AnyVal = if nulls == n {
                AnyVal::Null
            } else {
                if acc > u64::MAX as u128 {
                    return Err(EngineError::compute("unsigned sum exceeds the 64-bit range"));
                }
                AnyVal::UInt(acc as u64)
            };
            let mut out: Vec<AnyVal> = Vec::new();
            out.push(cell);
            proof {
                crate::value::lemma_vals_view(out@);
            }
            let name: String = self.name().to_owned();
            Ok(Series::from_checked(name, LogicalType::UInt64, out))
        } else {
            Err(EngineError::type_error("sum requires an integer column type"))
        }
    }

    /// The least non-null cell as a single-cell column of the same name
    /// and type; null when the column is empty or all null. Float columns
    /// are a type error: the engine does not order IEEE-754 payloads.
    pub fn min(&self) -> (r: Result<Series, EngineError>)
        requires
            self.wf(),
        ensures
            match r {
                Ok(s) => {
                    &&& !(self.spec_dtype() is Float32 || self.spec_dtype() is Float64)
                    &&& s.spec_name() == self.spec_name()
                    &&& s.spec_dtype() == self.spec_dtype()
                    &&& s.spec_vals().len() == 1
                    &&& s.spec_vals()[0] == spec_fold_min(self.spec_vals())
                    &&& s.wf()
                },
                Err(e) => {
                    &&& e.kind() == ErrorKind::Type
                    &&& self.spec_dtype() is Float32 || self.spec_dtype() is Float64
                },
            },
    {
        self.fold_extreme(true)
    }

    /// The greatest non-null cell, under the same rules as `min`.
    pub fn max(&self) -> (r: Result<Series, EngineError>)
        requires
            self.wf(),
        ensures
            match r {
                Ok(s) => {
                    &&& !(self.spec_dtype() is Float32 || self.spec_dtype() is Float64)
                    &&& s.spec_name() == self.spec_name()
                    &&& s.spec_dtype() == self.spec_dtype()
                    &&& s.spec_vals().len() == 1
                    &&& s.spec_vals()[0] == spec_fold_max(self.spec_vals())
                    &&& s.wf()
                },
                Err(e) => {
                    &&& e.kind() == ErrorKind::Type
                    &&& self.spec_dtype() is Float32 || self.spec_dtype() is Float64
                },
            },
    {
        self.fold_extreme(false)
    }

    #[verifier::loop_isolation(false)]
    fn fold_extreme(&self, want_min: bool) -> (r: Result<Series, EngineError>)
        requires
            self.wf(),
        ensures
            match r {
                Ok(s) => {
                    &&& !(self.spec_dtype() is Float32 || self.spec_dtype() is Float64)
                    &&& s.spec_name() == self.spec_name()
                    &&& s.spec_dtype() == self.spec_dtype()
                    &&& s.spec_vals().len() == 1
                    &&& s.spec_vals()[0] == (if want_min {
                        spec_fold_min(self.spec_vals())
                    } else {
                        spec_fold_max(self.spec_vals())
                    })
                    &&& s.wf()
                },
                Err(e) => {
                    &&& e.kind() == ErrorKind::Type
                    &&& self.spec_dtype() is Float32 || self.spec_dtype() is Float64
                },
            },
    {
        let k = self.dtype().kind_of();
        if k == 10 || k == 11 {
            return Err(EngineError::type_error("min and max on float columns are not supported"));
        }
        let n = self.len();
        let mut best: Option<usize> = None;
        let mut i: usize = 0;
        proof {
            assert(self.spec_vals().take(0) =~= Seq::<Val>::empty());
        }
        while i < n
            invariant
                i <= n,
                n == self.spec_vals().len(),
                best is None ==> (if want_min {
                    spec_fold_min(self.spec_vals().take(i as int))
                } else {
                    spec_fold_max(self.spec_vals().take(i as int))
                }) is Null,
                best matches Some(b) ==> b < i && !(self.spec_vals()[b as int] is Null) && (
                if want_min {
                    spec_fold_min(self.spec_vals().take(i as int))
                } else {
                    spec_fold_max(self.spec_vals().take(i as int))
                }) == self.spec_vals()[b as int],
            decreases n - i,
        {
            proof {
                let ghost vs = self.spec_vals();
                assert(vs.take(i + 1).drop_last() =~= vs.take(i as int));
                assert(vs.take(i + 1).last() == vs[i as int]);
            }
            let x = self.cell(i);
            proof {
                let ghost vs = self.spec_vals();
                let ghost pre = if want_min {
                    spec_fold_min(vs.take(i as int))
                } else {
                    spec_fold_max(vs.take(i as int))
                };
                let ghost post = if want_min {
                    spec_fold_min(vs.take(i + 1))
                } else {
                    spec_fold_max(vs.take(i + 1))
                };
                if vs[i as int] is Null {
                    assert(post == pre);
                } else if pre is Null {
                    assert(post == vs[i as int]);
                } else if want_min {
                    assert(post == (if spec_val_lt(vs[i as int], pre) {
                        vs[i as int]
                    } else {
                        pre
                    }));
                } else {
                    assert(post == (if spec_val_lt(pre, vs[i as int]) {
                        vs[i as int]
                    } else {
                        pre
                    }));
                }
            }
            if !x.is_null() {
                match best {
                    None => {
                        best = Some(i);
                    },
                    Some(b) => {
                        let cur = self.cell(b);
                        let replace = if want_min {
                            x.val_lt(cur)
                        } else {
                            cur.val_lt(x)
                        };
                        if replace {
                            best = Some(i);
                        }
                    },
                }
            }
            i = i + 1;
        }
        proof {
            assert(self.spec_vals().take(n as int) =~= self.spec_vals());
        }
        let cell: AnyVal = match best {
            Some(b) => self.cell(b).duplicate(),
            None => AnyVal::Null,
        };
        let mut out: Vec<AnyVal> = Vec::new();
        out.push(cell);
        proof {
            crate::value::lemma_vals_view(out@);
            lemma_fold_min_wf(self.spec_vals(), self.spec_dtype());
        }
        let name: String = self.name().to_owned();
        Ok(Series::from_checked(name, self.dtype().duplicate(), out))
    }
}

} // verus!
