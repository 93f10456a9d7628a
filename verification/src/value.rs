//! Cell values of a column: every element of a Series is either null or a
//! plain value whose physical shape is fixed by the column's logical type.
//! Float cells carry their IEEE-754 bit patterns; the engine never performs
//! floating-point arithmetic itself.

use vstd::prelude::*;

use crate::dtype::DTypeV;
use crate::numtext::int_dec_str;

verus! {

broadcast use vstd::std_specs::vec::group_vec_axioms;

/// A single cell value.
#[derive(Debug)]
pub enum AnyVal {
    Null,
    Bool(bool),
    /// Physical value of the signed-integer and temporal types.
    Int(i64),
    UInt(u64),
    /// IEEE-754 single-precision bit pattern.
    F32Bits(u32),
    /// IEEE-754 double-precision bit pattern.
    F64Bits(u64),
    Text(String),
    /// Unscaled decimal digits; the scale lives in the column type.
    Dec(i128),
    List(Vec<AnyVal>),
}

/// The mathematical model of a cell value.
#[verifier::ext_equal]
pub enum Val {
    Null,
    Bool(bool),
    Int(int),
    UInt(int),
    F32Bits(u32),
    F64Bits(u64),
    Text(Seq<char>),
    Dec(int),
    List(Seq<Val>),
}

pub open spec fn val_view(v: &AnyVal) -> Val
    decreases v,
{
    match v {
        AnyVal::Null => Val::Null,
        AnyVal::Bool(b) => Val::Bool(*b),
        AnyVal::Int(x) => Val::Int(*x as int),
        AnyVal::UInt(x) => Val::UInt(*x as int),
        AnyVal::F32Bits(x) => Val::F32Bits(*x),
        AnyVal::F64Bits(x) => Val::F64Bits(*x),
        AnyVal::Text(s) => Val::Text(s@),
        AnyVal::Dec(x) => Val::Dec(*x as int),
        AnyVal::List(items) => Val::List(vals_view(items@)),
    }
}

/// The models of a sequence of cells, in order.
pub open spec fn vals_view(s: Seq<AnyVal>) -> Seq<Val>
    decreases s,
{
    if s.len() == 0 {
        Seq::empty()
    } else {
        vals_view(s.drop_last()).push(val_view(&s.last()))
    }
}

/// Pointwise characterization of `vals_view`.
pub proof fn lemma_vals_view(s: Seq<AnyVal>)
    ensures
        vals_view(s).len() == s.len(),
        forall|i: int| 0 <= i < s.len() ==> #[trigger] vals_view(s)[i] == val_view(&s[i]),
    decreases s,
{
    if s.len() > 0 {
        lemma_vals_view(s.drop_last());
    }
}

impl View for AnyVal {
    type V = Val;

    open spec fn view(&self) -> Val {
        val_view(self)
    }
}

/// The inclusive physical range of an integer-family type, `None` for a
/// non-integer type. Temporal types share the 64-bit signed range except
/// `Date`, which is 32-bit.
pub open spec fn int_range_of(t: DTypeV) -> Option<(int, int)> {
    match t {
        DTypeV::Int8 => Some((i8::MIN as int, i8::MAX as int)),
        DTypeV::Int16 => Some((i16::MIN as int, i16::MAX as int)),
        DTypeV::Int32 => Some((i32::MIN as int, i32::MAX as int)),
        DTypeV::Int64 => Some((i64::MIN as int, i64::MAX as int)),
        DTypeV::Date => Some((i32::MIN as int, i32::MAX as int)),
        DTypeV::Time => Some((i64::MIN as int, i64::MAX as int)),
        DTypeV::Datetime(_, _) => Some((i64::MIN as int, i64::MAX as int)),
        DTypeV::Duration(_) => Some((i64::MIN as int, i64::MAX as int)),
        _ => None,
    }
}

/// The inclusive range of an unsigned-integer type.
pub open spec fn uint_range_of(t: DTypeV) -> Option<(int, int)> {
    match t {
        DTypeV::UInt8 => Some((0int, u8::MAX as int)),
        DTypeV::UInt16 => Some((0int, u16::MAX as int)),
        DTypeV::UInt32 => Some((0int, u32::MAX as int)),
        DTypeV::UInt64 => Some((0int, u64::MAX as int)),
        _ => None,
    }
}

/// Whether a non-null value has the physical shape and range the type
/// demands. `Null` matches every type.
pub open spec fn val_matches_dtype(v: Val, t: DTypeV) -> bool
    decreases v,
{
    match v {
        Val::Null => true,
        Val::Bool(_) => t is Boolean,
        Val::Int(x) => match int_range_of(t) {
            Some((lo, hi)) => lo <= x <= hi,
            None => false,
        },
        Val::UInt(x) => match uint_range_of(t) {
            Some((lo, hi)) => lo <= x <= hi,
            None => false,
        },
        Val::F32Bits(_) => t is Float32,
        Val::F64Bits(_) => t is Float64,
        Val::Text(_) => t is Str || t is Categorical,
        Val::Dec(_) => t is Decimal,
        Val::List(items) => match t {
            DTypeV::List(inner) => forall|i: int|
                0 <= i < items.len() ==> val_matches_dtype(#[trigger] items[i], *inner),
            _ => false,
        },
    }
}

impl AnyVal {
    /// Whether this cell may inhabit a column of the given type.
    #[verifier::loop_isolation(false)]
    pub fn matches_dtype(&self, t: &crate::dtype::LogicalType) -> (r: bool)
        ensures
            r == val_matches_dtype(self@, t@),
        decreases self,
    {
        match self {
            AnyVal::Null => true,
            AnyVal::Bool(_) => t.kind_of() == 1,
            AnyVal::Int(x) => {
                let k = t.kind_of();
                if k == 2 {
                    -128 <= *x && *x <= 127
                } else if k == 3 {
                    -32768 <= *x && *x <= 32767
                } else if k == 4 || k == 13 {
                    -2147483648 <= *x && *x <= 2147483647
                } else {
                    k == 5 || k == 14 || k == 15 || k == 16
                }
            },
            AnyVal::UInt(x) => {
                let k = t.kind_of();
                if k == 6 {
                    *x <= 255
                } else if k == 7 {
                    *x <= 65535
                } else if k == 8 {
                    *x <= 4294967295
                } else {
                    k == 9
                }
            },
            AnyVal::F32Bits(_) => t.kind_of() == 10,
            AnyVal::F64Bits(_) => t.kind_of() == 11,
            AnyVal::Text(_) => {
                let k = t.kind_of();
                k == 12 || k == 21
            },
            AnyVal::Dec(_) => t.kind_of() == 22,
            AnyVal::List(items) => match t.inner_type() {
                Some(inner) => {
                    proof {
                        assert(t@ is List);
                        lemma_vals_view(items@);
                    }
                    let n = items.len();
                    let mut i: usize = 0;
                    while i < n
                        invariant
                            i <= n,
                            forall|j: int|
                                0 <= j < i ==> val_matches_dtype(
                                    #[trigger] vals_view(items@)[j],
                                    inner@,
                                ),
                        decreases n - i,
                    {
                        proof {
                            assert(decreases_to!(*self => self->List_0));
                            assert(decreases_to!(self->List_0 => self->List_0@));
                            assert(decreases_to!(items@ => items@[i as int]));
                        }
                        if !items[i].matches_dtype(inner) {
                            proof {
                                let ghost itemsv = vals_view(items@);
                                let ghost ib = t@->List_0;
                                assert(!val_matches_dtype(itemsv[i as int], *ib));
                                assert(exists|j: int|
                                    0 <= j < itemsv.len() && !val_matches_dtype(
                                        #[trigger] itemsv[j],
                                        *ib,
                                    ));
                                assert(!val_matches_dtype(self@, t@)) by {
                                    reveal_with_fuel(val_matches_dtype, 2);
                                }
                            }
                            return false;
                        }
                        i = i + 1;
                    }
                    proof {
                        assert(val_matches_dtype(self@, t@));
                    }
                    true
                },
                None => false,
            },
        }
    }

    /// A deep copy with the same model.
    #[verifier::loop_isolation(false)]
    pub fn duplicate(&self) -> (r: AnyVal)
        ensures
            r@ == self@,
        decreases self,
    {
        match self {
            AnyVal::Null => AnyVal::Null,
            AnyVal::Bool(b) => AnyVal::Bool(*b),
            AnyVal::Int(x) => AnyVal::Int(*x),
            AnyVal::UInt(x) => AnyVal::UInt(*x),
            AnyVal::F32Bits(x) => AnyVal::F32Bits(*x),
            AnyVal::F64Bits(x) => AnyVal::F64Bits(*x),
            AnyVal::Text(s) => AnyVal::Text(s.clone()),
            AnyVal::Dec(x) => AnyVal::Dec(*x),
            AnyVal::List(items) => {
                let n = items.len();
                let mut out: Vec<AnyVal> = Vec::new();
                let mut i: usize = 0;
                proof {
                    lemma_vals_view(items@);
                }
                while i < n
                    invariant
                        i <= n,
                        out.len() == i,
                        forall|j: int| 0 <= j < i ==> (#[trigger] out@[j])@ == items@[j]@,
                    decreases n - i,
                {
                    proof {
                        assert(decreases_to!(*self => self->List_0));
                        assert(decreases_to!(self->List_0 => self->List_0@));
                        assert(decreases_to!(items@ => items@[i as int]));
                    }
                    out.push(items[i].duplicate());
                    i = i + 1;
                }
                let r = AnyVal::List(out);
                proof {
                    lemma_vals_view(out@);
                    assert(vals_view(out@) =~= vals_view(items@));
                }
                r
            },
        }
    }

    /// Structural equality of the models: exact on every field; float bit
    /// patterns compare bitwise, and lists compare elementwise.
    #[verifier::loop_isolation(false)]
    pub fn val_eq(&self, other: &AnyVal) -> (r: bool)
        ensures
            r == (self@ == other@),
        decreases self,
    {
        match (self, other) {
            (AnyVal::Null, AnyVal::Null) => true,
            (AnyVal::Bool(a), AnyVal::Bool(b)) => *a == *b,
            (AnyVal::Int(a), AnyVal::Int(b)) => *a == *b,
            (AnyVal::UInt(a), AnyVal::UInt(b)) => *a == *b,
            (AnyVal::F32Bits(a), AnyVal::F32Bits(b)) => *a == *b,
            (AnyVal::F64Bits(a), AnyVal::F64Bits(b)) => *a == *b,
            (AnyVal::Text(a), AnyVal::Text(b)) => a.eq(b),
            (AnyVal::Dec(a), AnyVal::Dec(b)) => *a == *b,
            (AnyVal::List(xs), AnyVal::List(ys)) => {
                proof {
                    lemma_vals_view(xs@);
                    lemma_vals_view(ys@);
                }
                if xs.len() != ys.len() {
                    proof {
                        assert(vals_view(xs@).len() != vals_view(ys@).len());
                    }
                    false
                } else {
                    let n = xs.len();
                    let mut i: usize = 0;
                    while i < n
                        invariant
                            i <= n,
                            forall|j: int| 0 <= j < i ==> (#[trigger] xs@[j])@ == ys@[j]@,
                        decreases n - i,
                    {
                        proof {
                            assert(decreases_to!(*self => self->List_0));
                            assert(decreases_to!(self->List_0 => self->List_0@));
                            assert(decreases_to!(xs@ => xs@[i as int]));
                        }
                        if !xs[i].val_eq(&ys[i]) {
                            proof {
                                assert(vals_view(xs@)[i as int] != vals_view(ys@)[i as int]);
                            }
                            return false;
                        }
                        proof {
                            assert forall|j: int| 0 <= j < i + 1 implies (#[trigger] xs@[j])@
                                == ys@[j]@ by {
                                if j == i as int {
                                    assert(xs@[j]@ == ys@[j]@);
                                }
                            }
                        }
                        i = i + 1;
                    }
                    proof {
                        assert(vals_view(xs@) =~= vals_view(ys@));
                    }
                    true
                }
            },
            _ => {
                proof {
                    assert(self@ != other@);
                }
                false
            },
        }
    }

    /// Whether this cell is null.
    pub fn is_null(&self) -> (r: bool)
        ensures
            r == (self@ is Null),
    {
        match self {
            AnyVal::Null => true,
            _ => false,
        }
    }
}

/// Strict lexicographic order on character sequences, by code point.
pub open spec fn lex_lt(a: Seq<char>, b: Seq<char>) -> bool
    decreases a.len(),
{
    if b.len() == 0 {
        false
    } else if a.len() == 0 {
        true
    } else if a[0] != b[0] {
        (a[0] as nat) < (b[0] as nat)
    } else {
        lex_lt(a.skip(1), b.skip(1))
    }
}

/// Lexicographic comparison of strings.
#[verifier::loop_isolation(false)]
pub fn str_lt(x: &str, y: &str) -> (r: bool)
    ensures
        r == lex_lt(x@, y@),
{
    let xn = x.unicode_len();
    let yn = y.unicode_len();
    let mut i: usize = 0;
    proof {
        assert(x@.skip(0) =~= x@);
        assert(y@.skip(0) =~= y@);
    }
    while i < xn && i < yn
        invariant
            i <= xn,
            i <= yn,
            lex_lt(x@, y@) == lex_lt(x@.skip(i as int), y@.skip(i as int)),
        decreases xn - i,
    {
        let cx = x.get_char(i);
        let cy = y.get_char(i);
        proof {
            assert(x@.skip(i as int)[0] == x@[i as int]);
            assert(y@.skip(i as int)[0] == y@[i as int]);
        }
        if cx != cy {
            return cx < cy;
        }
        proof {
            assert(x@.skip(i as int).skip(1) =~= x@.skip(i + 1));
            assert(y@.skip(i as int).skip(1) =~= y@.skip(i + 1));
        }
        i = i + 1;
    }
    proof {
        assert(x@.skip(i as int).len() == xn - i);
        assert(y@.skip(i as int).len() == yn - i);
    }
    i < yn
}

/// The ordering rank of a value's variant; values of different variants
/// order by rank (`Null` sorts before everything).
pub open spec fn val_rank(v: Val) -> int {
    match v {
        Val::Null => 0,
        Val::Bool(_) => 1,
        Val::Int(_) => 2,
        Val::UInt(_) => 3,
        Val::F32Bits(_) => 4,
        Val::F64Bits(_) => 5,
        Val::Text(_) => 6,
        Val::Dec(_) => 7,
        Val::List(_) => 8,
    }
}

/// The engine's total strict order on cell values: by variant rank, then
/// by the value. Nulls sort first; float bit patterns order as unsigned
/// integers; lists order by length, then elementwise.
pub open spec fn spec_val_lt(a: Val, b: Val) -> bool
    decreases a, 0int,
{
    if val_rank(a) != val_rank(b) {
        val_rank(a) < val_rank(b)
    } else {
        match (a, b) {
            (Val::Bool(x), Val::Bool(y)) => !x && y,
            (Val::Int(x), Val::Int(y)) => x < y,
            (Val::UInt(x), Val::UInt(y)) => x < y,
            (Val::F32Bits(x), Val::F32Bits(y)) => x < y,
            (Val::F64Bits(x), Val::F64Bits(y)) => x < y,
            (Val::Text(x), Val::Text(y)) => lex_lt(x, y),
            (Val::Dec(x), Val::Dec(y)) => x < y,
            (Val::List(xs), Val::List(ys)) => {
                if xs.len() != ys.len() {
                    xs.len() < ys.len()
                } else {
                    spec_list_lt(xs, ys)
                }
            },
            _ => false,
        }
    }
}

/// Elementwise strict order on equal-length value sequences.
pub open spec fn spec_list_lt(xs: Seq<Val>, ys: Seq<Val>) -> bool
    decreases xs, 1int,
{
    if xs.len() == 0 {
        false
    } else if xs[0] != ys[0] {
        spec_val_lt(xs[0], ys[0])
    } else {
        spec_list_lt(xs.skip(1), ys.skip(1))
    }
}

impl AnyVal {
    /// The engine's strict value order.
    #[verifier::loop_isolation(false)]
    #[verifier::rlimit(50)]
    pub fn val_lt(&self, other: &AnyVal) -> (r: bool)
        ensures
            r == spec_val_lt(self@, other@),
        decreases self,
    {
        match (self, other) {
            (AnyVal::Bool(x), AnyVal::Bool(y)) => !*x && *y,
            (AnyVal::Int(x), AnyVal::Int(y)) => *x < *y,
            (AnyVal::UInt(x), AnyVal::UInt(y)) => *x < *y,
            (AnyVal::F32Bits(x), AnyVal::F32Bits(y)) => *x < *y,
            (AnyVal::F64Bits(x), AnyVal::F64Bits(y)) => *x < *y,
            (AnyVal::Text(x), AnyVal::Text(y)) => str_lt(x.as_str(), y.as_str()),
            (AnyVal::Dec(x), AnyVal::Dec(y)) => *x < *y,
            (AnyVal::List(xs), AnyVal::List(ys)) => {
                proof {
                    lemma_vals_view(xs@);
                    lemma_vals_view(ys@);
                }
                if xs.len() != ys.len() {
                    xs.len() < ys.len()
                } else {
                    let n = xs.len();
                    let mut i: usize = 0;
                    proof {
                        assert(vals_view(xs@).skip(0) =~= vals_view(xs@));
                        assert(vals_view(ys@).skip(0) =~= vals_view(ys@));
                    }
                    while i < n
                        invariant
                            i <= n,
                            forall|j: int| 0 <= j < i ==> (#[trigger] xs@[j])@ == ys@[j]@,
                            spec_list_lt(vals_view(xs@), vals_view(ys@)) == spec_list_lt(
                                vals_view(xs@).skip(i as int),
                                vals_view(ys@).skip(i as int),
                            ),
                        decreases n - i,
                    {
                        proof {
                            assert(decreases_to!(*self => self->List_0));
                            assert(decreases_to!(self->List_0 => self->List_0@));
                            assert(decreases_to!(xs@ => xs@[i as int]));
                        }
                        let elems_eq = xs[i].val_eq(&ys[i]);
                        if !elems_eq {
                            let r = xs[i].val_lt(&ys[i]);
                            proof {
                                let ghost xv = vals_view(xs@);
                                let ghost yv = vals_view(ys@);
                                assert(xv.skip(i as int)[0] == xv[i as int]);
                                assert(yv.skip(i as int)[0] == yv[i as int]);
                            }
                            return r;
                        }
                        proof {
                            let ghost xv = vals_view(xs@);
                            let ghost yv = vals_view(ys@);
                            assert(xv.skip(i as int)[0] == xv[i as int]);
                            assert(yv.skip(i as int)[0] == yv[i as int]);
                            assert(xv.skip(i as int).skip(1) =~= xv.skip(i + 1));
                            assert(yv.skip(i as int).skip(1) =~= yv.skip(i + 1));
                            assert forall|j: int| 0 <= j < i + 1 implies (#[trigger] xs@[j])@
                                == ys@[j]@ by {
                                if j == i as int {
                                    assert(xs@[j]@ == ys@[j]@);
                                }
                            }
                        }
                        i = i + 1;
                    }
                    proof {
                        assert(vals_view(xs@).skip(i as int).len() == 0);
                    }
                    false
                }
            },
            _ => {
                let ra = self.rank_code();
                let rb = other.rank_code();
                ra < rb
            },
        }
    }

    fn rank_code(&self) -> (r: i32)
        ensures
            r as int == val_rank(self@),
    {
        match self {
            AnyVal::Null => 0,
            AnyVal::Bool(_) => 1,
            AnyVal::Int(_) => 2,
            AnyVal::UInt(_) => 3,
            AnyVal::F32Bits(_) => 4,
            AnyVal::F64Bits(_) => 5,
            AnyVal::Text(_) => 6,
            AnyVal::Dec(_) => 7,
            AnyVal::List(_) => 8,
        }
    }
}

/// Non-strict counterpart of `spec_val_lt`.
pub open spec fn spec_val_le(a: Val, b: Val) -> bool {
    spec_val_lt(a, b) || a == b
}

/// Renders an integer cell as text, as the string cast does.
pub open spec fn spec_int_to_text(x: int) -> Seq<char> {
    int_dec_str(x)
}

} // verus!
