//! The logical type system: a closed, recursively-defined set of column
//! types with stable discriminant codes, canonical display strings, and
//! default constructors for each kind.

use vstd::prelude::*;

use crate::numtext::dec_str;
use crate::numtext::u64_to_string;

verus! {

broadcast use vstd::std_specs::vec::group_vec_axioms;

/// Temporal resolution of `Datetime` and `Duration` types.
#[derive(Clone, Copy, Debug, PartialEq, Eq, Structural)]
pub enum TimeUnit {
    Nanoseconds,
    Microseconds,
    Milliseconds,
}

/// A named field of a `Struct` type.
#[derive(Debug)]
pub struct Field {
    pub name: String,
    pub dtype: LogicalType,
}

/// The closed set of logical column types.
#[derive(Debug)]
pub enum LogicalType {
    Null,
    Boolean,
    Int8,
    Int16,
    Int32,
    Int64,
    UInt8,
    UInt16,
    UInt32,
    UInt64,
    Float32,
    Float64,
    Str,
    Binary,
    Date,
    Time,
    Datetime(TimeUnit, Option<String>),
    Duration(TimeUnit),
    Decimal(Option<usize>, Option<usize>),
    List(Box<LogicalType>),
    Struct(Vec<Field>),
    Categorical,
    Unknown,
}

/// The mathematical model of a logical type: strings become character
/// sequences and field lists become sequences of pairs.
#[verifier::ext_equal]
pub enum DTypeV {
    Null,
    Boolean,
    Int8,
    Int16,
    Int32,
    Int64,
    UInt8,
    UInt16,
    UInt32,
    UInt64,
    Float32,
    Float64,
    Str,
    Binary,
    Date,
    Time,
    Datetime(TimeUnit, Option<Seq<char>>),
    Duration(TimeUnit),
    Decimal(Option<int>, Option<int>),
    List(Box<DTypeV>),
    Struct(Seq<(Seq<char>, DTypeV)>),
    Categorical,
    Unknown,
}

/// The models of a struct's fields, in order.
pub open spec fn struct_fields_view(fields: Seq<Field>) -> Seq<(Seq<char>, DTypeV)>
    decreases fields,
{
    if fields.len() == 0 {
        Seq::empty()
    } else {
        struct_fields_view(fields.drop_last()).push(
            (fields.last().name@, dtype_view(&fields.last().dtype)),
        )
    }
}

/// Pointwise characterization of `struct_fields_view`.
pub proof fn lemma_struct_fields_view(fields: Seq<Field>)
    ensures
        struct_fields_view(fields).len() == fields.len(),
        forall|i: int|
            0 <= i < fields.len() ==> #[trigger] struct_fields_view(fields)[i] == (
            fields[i].name@,
            dtype_view(&fields[i].dtype),
            ),
    decreases fields,
{
    if fields.len() > 0 {
        lemma_struct_fields_view(fields.drop_last());
    }
}

pub open spec fn dtype_view(t: &LogicalType) -> DTypeV
    decreases t,
{
    match t {
        LogicalType::Null => DTypeV::Null,
        LogicalType::Boolean => DTypeV::Boolean,
        LogicalType::Int8 => DTypeV::Int8,
        LogicalType::Int16 => DTypeV::Int16,
        LogicalType::Int32 => DTypeV::Int32,
        LogicalType::Int64 => DTypeV::Int64,
        LogicalType::UInt8 => DTypeV::UInt8,
        LogicalType::UInt16 => DTypeV::UInt16,
        LogicalType::UInt32 => DTypeV::UInt32,
        LogicalType::UInt64 => DTypeV::UInt64,
        LogicalType::Float32 => DTypeV::Float32,
        LogicalType::Float64 => DTypeV::Float64,
        LogicalType::Str => DTypeV::Str,
        LogicalType::Binary => DTypeV::Binary,
        LogicalType::Date => DTypeV::Date,
        LogicalType::Time => DTypeV::Time,
        LogicalType::Datetime(u, tz) => DTypeV::Datetime(
            *u,
            match tz {
                Some(z) => Some(z@),
                None => None,
            },
        ),
        LogicalType::Duration(u) => DTypeV::Duration(*u),
        LogicalType::Decimal(p, s) => DTypeV::Decimal(
            match p {
                Some(pv) => Some(*pv as int),
                None => None,
            },
            match s {
                Some(sv) => Some(*sv as int),
                None => None,
            },
        ),
        LogicalType::List(inner) => DTypeV::List(Box::new(dtype_view(inner))),
        LogicalType::Struct(fields) => DTypeV::Struct(struct_fields_view(fields@)),
        LogicalType::Categorical => DTypeV::Categorical,
        LogicalType::Unknown => DTypeV::Unknown,
    }
}

impl View for LogicalType {
    type V = DTypeV;

    open spec fn view(&self) -> DTypeV {
        dtype_view(self)
    }
}

/// The stable discriminant code of a type's kind.
pub open spec fn spec_kind_of(t: DTypeV) -> i32 {
    match t {
        DTypeV::Unknown => 0,
        DTypeV::Boolean => 1,
        DTypeV::Int8 => 2,
        DTypeV::Int16 => 3,
        DTypeV::Int32 => 4,
        DTypeV::Int64 => 5,
        DTypeV::UInt8 => 6,
        DTypeV::UInt16 => 7,
        DTypeV::UInt32 => 8,
        DTypeV::UInt64 => 9,
        DTypeV::Float32 => 10,
        DTypeV::Float64 => 11,
        DTypeV::Str => 12,
        DTypeV::Date => 13,
        DTypeV::Datetime(_, _) => 14,
        DTypeV::Time => 15,
        DTypeV::Duration(_) => 16,
        DTypeV::Binary => 17,
        DTypeV::Null => 18,
        DTypeV::Struct(_) => 19,
        DTypeV::List(_) => 20,
        DTypeV::Categorical => 21,
        DTypeV::Decimal(_, _) => 22,
    }
}

/// The default type constructed for a kind code. Parametric kinds get
/// neutral parameters; a code outside the closed set yields `Unknown`.
pub open spec fn spec_default_for(code: i32) -> DTypeV {
    if code == 1 {
        DTypeV::Boolean
    } else if code == 2 {
        DTypeV::Int8
    } else if code == 3 {
        DTypeV::Int16
    } else if code == 4 {
        DTypeV::Int32
    } else if code == 5 {
        DTypeV::Int64
    } else if code == 6 {
        DTypeV::UInt8
    } else if code == 7 {
        DTypeV::UInt16
    } else if code == 8 {
        DTypeV::UInt32
    } else if code == 9 {
        DTypeV::UInt64
    } else if code == 10 {
        DTypeV::Float32
    } else if code == 11 {
        DTypeV::Float64
    } else if code == 12 {
        DTypeV::Str
    } else if code == 13 {
        DTypeV::Date
    } else if code == 14 {
        DTypeV::Datetime(TimeUnit::Microseconds, None)
    } else if code == 15 {
        DTypeV::Time
    } else if code == 16 {
        DTypeV::Duration(TimeUnit::Microseconds)
    } else if code == 17 {
        DTypeV::Binary
    } else if code == 18 {
        DTypeV::Null
    } else if code == 19 {
        DTypeV::Struct(Seq::empty())
    } else if code == 20 {
        DTypeV::List(Box::new(DTypeV::Null))
    } else if code == 21 {
        DTypeV::Categorical
    } else if code == 22 {
        DTypeV::Decimal(None, None)
    } else {
        DTypeV::Unknown
    }
}

/// Whether a type carries no parameters, so that its kind code alone
/// reconstructs it exactly.
pub open spec fn is_non_parametric(t: DTypeV) -> bool {
    match t {
        DTypeV::Datetime(_, _) => false,
        DTypeV::Duration(_) => false,
        DTypeV::Decimal(_, _) => false,
        DTypeV::List(_) => false,
        DTypeV::Struct(_) => false,
        DTypeV::Unknown => true,
        _ => true,
    }
}

/// Kind-code round trip: a non-parametric type is reconstructed exactly
/// from its kind code, and every type's kind survives the round trip.
pub proof fn lemma_kind_code_roundtrip(t: DTypeV)
    ensures
        is_non_parametric(t) ==> spec_default_for(spec_kind_of(t)) == t,
        spec_kind_of(spec_default_for(spec_kind_of(t))) == spec_kind_of(t),
{
}

/// Whether a type is numeric: an integer, unsigned integer, or float.
pub open spec fn spec_is_numeric(t: DTypeV) -> bool {
    let k = spec_kind_of(t);
    2 <= k <= 11
}

/// Whether the kind of a type is an integer family member whose physical
/// representation is a signed 64-bit value.
pub open spec fn spec_is_signed_int(t: DTypeV) -> bool {
    let k = spec_kind_of(t);
    2 <= k <= 5
}

/// Whether the kind of a type is an unsigned integer family member.
pub open spec fn spec_is_unsigned_int(t: DTypeV) -> bool {
    let k = spec_kind_of(t);
    6 <= k <= 9
}

impl LogicalType {
    /// The stable kind code of this type.
    pub fn kind_of(&self) -> (code: i32)
        ensures
            code == spec_kind_of(self@),
    {
        match self {
            LogicalType::Unknown => 0,
            LogicalType::Boolean => 1,
            LogicalType::Int8 => 2,
            LogicalType::Int16 => 3,
            LogicalType::Int32 => 4,
            LogicalType::Int64 => 5,
            LogicalType::UInt8 => 6,
            LogicalType::UInt16 => 7,
            LogicalType::UInt32 => 8,
            LogicalType::UInt64 => 9,
            LogicalType::Float32 => 10,
            LogicalType::Float64 => 11,
            LogicalType::Str => 12,
            LogicalType::Date => 13,
            LogicalType::Datetime(_, _) => 14,
            LogicalType::Time => 15,
            LogicalType::Duration(_) => 16,
            LogicalType::Binary => 17,
            LogicalType::Null => 18,
            LogicalType::Struct(_) => 19,
            LogicalType::List(_) => 20,
            LogicalType::Categorical => 21,
            LogicalType::Decimal(_, _) => 22,
        }
    }

    /// The default type for a kind code; `Unknown` for a code outside the
    /// closed set.
    pub fn default_for(code: i32) -> (t: LogicalType)
        ensures
            t@ == spec_default_for(code),
    {
        if code == 1 {
            LogicalType::Boolean
        } else if code == 2 {
            LogicalType::Int8
        } else if code == 3 {
            LogicalType::Int16
        } else if code == 4 {
            LogicalType::Int32
        } else if code == 5 {
            LogicalType::Int64
        } else if code == 6 {
            LogicalType::UInt8
        } else if code == 7 {
            LogicalType::UInt16
        } else if code == 8 {
            LogicalType::UInt32
        } else if code == 9 {
            LogicalType::UInt64
        } else if code == 10 {
            LogicalType::Float32
        } else if code == 11 {
            LogicalType::Float64
        } else if code == 12 {
            LogicalType::Str
        } else if code == 13 {
            LogicalType::Date
        } else if code == 14 {
            LogicalType::Datetime(TimeUnit::Microseconds, None)
        } else if code == 15 {
            LogicalType::Time
        } else if code == 16 {
            LogicalType::Duration(TimeUnit::Microseconds)
        } else if code == 17 {
            LogicalType::Binary
        } else if code == 18 {
            LogicalType::Null
        } else if code == 19 {
            let t = LogicalType::Struct(Vec::new());
            proof {
                assert(struct_fields_view(Seq::<Field>::empty()) =~= Seq::<(
                    Seq<char>,
                    DTypeV,
                )>::empty());
                assert(t@ =~= DTypeV::Struct(Seq::empty()));
            }
            t
        } else if code == 20 {
            let t = LogicalType::List(Box::new(LogicalType::Null));
            proof {
                assert(dtype_view(&LogicalType::Null) == DTypeV::Null);
                assert(t@ == DTypeV::List(Box::new(DTypeV::Null)));
            }
            t
        } else if code == 21 {
            LogicalType::Categorical
        } else if code == 22 {
            LogicalType::Decimal(None, None)
        } else {
            LogicalType::Unknown
        }
    }

    /// Whether this type is numeric.
    pub fn is_numeric(&self) -> (r: bool)
        ensures
            r == spec_is_numeric(self@),
    {
        let k = self.kind_of();
        2 <= k && k <= 11
    }

    /// The time unit code of a `Datetime` or `Duration` type: 0 for
    /// nanoseconds, 1 for microseconds, 2 for milliseconds; -1 otherwise.
    pub fn time_unit_code(&self) -> (code: i32)
        ensures
            match self@ {
                DTypeV::Datetime(u, _) => code == spec_time_unit_code(u),
                DTypeV::Duration(u) => code == spec_time_unit_code(u),
                _ => code == -1,
            },
    {
        match self {
            LogicalType::Datetime(u, _) => match u {
                TimeUnit::Nanoseconds => 0,
                TimeUnit::Microseconds => 1,
                TimeUnit::Milliseconds => 2,
            },
            LogicalType::Duration(u) => match u {
                TimeUnit::Nanoseconds => 0,
                TimeUnit::Microseconds => 1,
                TimeUnit::Milliseconds => 2,
            },
            _ => -1,
        }
    }

    /// The timezone of a zone-aware `Datetime`; `None` for a naive
    /// datetime or any other type.
    pub fn timezone(&self) -> (tz: Option<String>)
        ensures
            match self@ {
                DTypeV::Datetime(_, Some(z)) => tz matches Some(s) && s@ == z,
                _ => tz is None,
            },
    {
        match self {
            LogicalType::Datetime(_, Some(z)) => Some(z.clone()),
            _ => None,
        }
    }

    /// Precision and scale of a `Decimal` type, with the engine defaults
    /// (38 and 9) for unspecified parameters; `(0, 0)` for any other type.
    pub fn decimal_info(&self) -> (r: (u64, u64))
        requires
            self.fits_u64_decimal(),
        ensures
            match self@ {
                DTypeV::Decimal(p, s) => {
                    &&& r.0 as int == (if p is Some {
                        p->0
                    } else {
                        38int
                    })
                    &&& r.1 as int == (if s is Some {
                        s->0
                    } else {
                        9int
                    })
                },
                _ => r == (0u64, 0u64),
            },
    {
        match self {
            LogicalType::Decimal(p, s) => {
                let pv: u64 = match p {
                    Some(v) => *v as u64,
                    None => 38,
                };
                let sv: u64 = match s {
                    Some(v) => *v as u64,
                    None => 9,
                };
                (pv, sv)
            },
            _ => (0, 0),
        }
    }

    /// Whether decimal parameters fit in 64 bits (always true of types the
    /// engine constructs; stated for the accessor's arithmetic).
    pub open spec fn fits_u64_decimal(&self) -> bool {
        match self@ {
            DTypeV::Decimal(p, s) => {
                &&& (p is Some ==> p->0 <= u64::MAX as int)
                &&& (s is Some ==> s->0 <= u64::MAX as int)
            },
            _ => true,
        }
    }

    /// The element type of a `List`; `None` for any other type.
    pub fn inner_type(&self) -> (r: Option<&LogicalType>)
        ensures
            match self@ {
                DTypeV::List(inner) => r matches Some(t) && t@ == *inner,
                _ => r is None,
            },
    {
        match self {
            LogicalType::List(inner) => Some(inner),
            _ => None,
        }
    }

    /// The number of fields of a `Struct`; 0 for any other type.
    pub fn struct_len(&self) -> (n: usize)
        ensures
            match self@ {
                DTypeV::Struct(fs) => n == fs.len(),
                _ => n == 0,
            },
    {
        match self {
            LogicalType::Struct(fields) => {
                proof {
                    lemma_struct_fields_view(fields@);
                }
                fields.len()
            },
            _ => 0,
        }
    }

    /// The field at an index of a `Struct`; `None` when out of range or
    /// not a struct.
    pub fn struct_field(&self, index: usize) -> (r: Option<&Field>)
        ensures
            match self@ {
                DTypeV::Struct(fs) => {
                    if index < fs.len() {
                        r matches Some(f) && f.name@ == fs[index as int].0 && f.dtype@
                            == fs[index as int].1
                    } else {
                        r is None
                    }
                },
                _ => r is None,
            },
    {
        match self {
            LogicalType::Struct(fields) => {
                proof {
                    lemma_struct_fields_view(fields@);
                }
                if index < fields.len() {
                    Some(&fields[index])
                } else {
                    None
                }
            },
            _ => None,
        }
    }
}

/// Time unit code used across the engine: 0 ns, 1 us, 2 ms.
pub open spec fn spec_time_unit_code(u: TimeUnit) -> i32 {
    match u {
        TimeUnit::Nanoseconds => 0,
        TimeUnit::Microseconds => 1,
        TimeUnit::Milliseconds => 2,
    }
}

/// The time unit for a code; an unrecognised code defaults to
/// microseconds.
pub fn time_unit_from_code(code: i32) -> (u: TimeUnit)
    ensures
        code == 0 ==> u == TimeUnit::Nanoseconds,
        code == 2 ==> u == TimeUnit::Milliseconds,
        code != 0 && code != 2 ==> u == TimeUnit::Microseconds,
{
    if code == 0 {
        TimeUnit::Nanoseconds
    } else if code == 2 {
        TimeUnit::Milliseconds
    } else {
        TimeUnit::Microseconds
    }
}

impl LogicalType {
    /// A deep copy whose model is the same.
    #[verifier::loop_isolation(false)]
    pub fn duplicate(&self) -> (r: LogicalType)
        ensures
            r@ == self@,
        decreases self,
    {
        match self {
            LogicalType::Null => LogicalType::Null,
            LogicalType::Boolean => LogicalType::Boolean,
            LogicalType::Int8 => LogicalType::Int8,
            LogicalType::Int16 => LogicalType::Int16,
            LogicalType::Int32 => LogicalType::Int32,
            LogicalType::Int64 => LogicalType::Int64,
            LogicalType::UInt8 => LogicalType::UInt8,
            LogicalType::UInt16 => LogicalType::UInt16,
            LogicalType::UInt32 => LogicalType::UInt32,
            LogicalType::UInt64 => LogicalType::UInt64,
            LogicalType::Float32 => LogicalType::Float32,
            LogicalType::Float64 => LogicalType::Float64,
            LogicalType::Str => LogicalType::Str,
            LogicalType::Binary => LogicalType::Binary,
            LogicalType::Date => LogicalType::Date,
            LogicalType::Time => LogicalType::Time,
            LogicalType::Datetime(u, tz) => LogicalType::Datetime(
                *u,
                match tz {
                    Some(z) => Some(z.clone()),
                    None => None,
                },
            ),
            LogicalType::Duration(u) => LogicalType::Duration(*u),
            LogicalType::Decimal(p, s) => LogicalType::Decimal(*p, *s),
            LogicalType::List(inner) => LogicalType::List(Box::new(inner.duplicate())),
            LogicalType::Struct(fields) => {
                let mut out: Vec<Field> = Vec::new();
                let n = fields.len();
                let mut i: usize = 0;
                while i < n
                    invariant
                        i <= n,
                        n == fields.len(),
                        out.len() == i,
                        forall|j: int|
                            0 <= j < i ==> (#[trigger] out[j].name@) == fields[j].name@
                                && out[j].dtype@ == fields[j].dtype@,
                    decreases n - i,
                {
                    let f = &fields[i];
                    proof {
                        assert(decreases_to!(*self => self->Struct_0));
                        assert(decreases_to!(self->Struct_0 => self->Struct_0@));
                        assert(decreases_to!(fields@ => fields@[i as int]));
                        assert(decreases_to!(fields@[i as int] => fields@[i as int].dtype));
                    }
                    out.push(Field { name: f.name.clone(), dtype: f.dtype.duplicate() });
                    i = i + 1;
                }
                let r = LogicalType::Struct(out);
                proof {
                    lemma_struct_fields_view(out@);
                    lemma_struct_fields_view(fields@);
                    assert(struct_fields_view(out@) =~= struct_fields_view(fields@));
                }
                r
            },
            LogicalType::Categorical => LogicalType::Categorical,
            LogicalType::Unknown => LogicalType::Unknown,
        }
    }

    /// Structural equality of the models: exact on every parameter, unit
    /// and timezone included.
    #[verifier::loop_isolation(false)]
    pub fn dtype_eq(&self, other: &LogicalType) -> (r: bool)
        ensures
            r == (self@ == other@),
        decreases self,
    {
        match (self, other) {
            (LogicalType::Null, LogicalType::Null) => true,
            (LogicalType::Boolean, LogicalType::Boolean) => true,
            (LogicalType::Int8, LogicalType::Int8) => true,
            (LogicalType::Int16, LogicalType::Int16) => true,
            (LogicalType::Int32, LogicalType::Int32) => true,
            (LogicalType::Int64, LogicalType::Int64) => true,
            (LogicalType::UInt8, LogicalType::UInt8) => true,
            (LogicalType::UInt16, LogicalType::UInt16) => true,
            (LogicalType::UInt32, LogicalType::UInt32) => true,
            (LogicalType::UInt64, LogicalType::UInt64) => true,
            (LogicalType::Float32, LogicalType::Float32) => true,
            (LogicalType::Float64, LogicalType::Float64) => true,
            (LogicalType::Str, LogicalType::Str) => true,
            (LogicalType::Binary, LogicalType::Binary) => true,
            (LogicalType::Date, LogicalType::Date) => true,
            (LogicalType::Time, LogicalType::Time) => true,
            (LogicalType::Datetime(u1, tz1), LogicalType::Datetime(u2, tz2)) => {
                let units_eq = match (u1, u2) {
                    (TimeUnit::Nanoseconds, TimeUnit::Nanoseconds) => true,
                    (TimeUnit::Microseconds, TimeUnit::Microseconds) => true,
                    (TimeUnit::Milliseconds, TimeUnit::Milliseconds) => true,
                    _ => false,
                };
                let tz_eq = match (tz1, tz2) {
                    (None, None) => true,
                    (Some(z1), Some(z2)) => z1.eq(z2),
                    _ => false,
                };
                units_eq && tz_eq
            },
            (LogicalType::Duration(u1), LogicalType::Duration(u2)) => {
                match (u1, u2) {
                    (TimeUnit::Nanoseconds, TimeUnit::Nanoseconds) => true,
                    (TimeUnit::Microseconds, TimeUnit::Microseconds) => true,
                    (TimeUnit::Milliseconds, TimeUnit::Milliseconds) => true,
                    _ => false,
                }
            },
            (LogicalType::Decimal(p1, s1), LogicalType::Decimal(p2, s2)) => {
                let p_eq = match (p1, p2) {
                    (None, None) => true,
                    (Some(a), Some(b)) => *a == *b,
                    _ => false,
                };
                let s_eq = match (s1, s2) {
                    (None, None) => true,
                    (Some(a), Some(b)) => *a == *b,
                    _ => false,
                };
                p_eq && s_eq
            },
            (LogicalType::List(a), LogicalType::List(b)) => a.dtype_eq(b),
            (LogicalType::Struct(fs1), LogicalType::Struct(fs2)) => {
                proof {
                    lemma_struct_fields_view(fs1@);
                    lemma_struct_fields_view(fs2@);
                }
                if fs1.len() != fs2.len() {
                    proof {
                        assert(struct_fields_view(fs1@).len() != struct_fields_view(fs2@).len());
                    }
                    false
                } else {
                    let n = fs1.len();
                    let mut i: usize = 0;
                    while i < n
                        invariant
                            i <= n,
                            n == fs1.len(),
                            n == fs2.len(),
                            forall|j: int|
                                0 <= j < i ==> (#[trigger] fs1@[j].name@) == fs2@[j].name@
                                    && dtype_view(&fs1@[j].dtype) == dtype_view(&fs2@[j].dtype),
                        decreases n - i,
                    {
                        proof {
                            assert(decreases_to!(*self => self->Struct_0));
                            assert(decreases_to!(self->Struct_0 => self->Struct_0@));
                            assert(decreases_to!(fs1@ => fs1@[i as int]));
                            assert(decreases_to!(fs1@[i as int] => fs1@[i as int].dtype));
                        }
                        let names_eq = fs1[i].name.eq(&fs2[i].name);
                        let types_eq = fs1[i].dtype.dtype_eq(&fs2[i].dtype);
                        if !(names_eq && types_eq) {
                            proof {
                                assert(struct_fields_view(fs1@)[i as int] != struct_fields_view(
                                    fs2@,
                                )[i as int]);
                            }
                            return false;
                        }
                        proof {
                            assert forall|j: int| 0 <= j < i + 1 implies (#[trigger] fs1@[j].name@)
                                == fs2@[j].name@ && dtype_view(&fs1@[j].dtype) == dtype_view(
                                &fs2@[j].dtype,
                            ) by {
                                if j == i as int {
                                    assert(fs1@[j].name@ == fs2@[j].name@);
                                    assert(dtype_view(&fs1@[j].dtype) == dtype_view(
                                        &fs2@[j].dtype,
                                    ));
                                }
                            }
                        }
                        i = i + 1;
                    }
                    proof {
                        assert(struct_fields_view(fs1@) =~= struct_fields_view(fs2@));
                    }
                    true
                }
            },
            (LogicalType::Categorical, LogicalType::Categorical) => true,
            (LogicalType::Unknown, LogicalType::Unknown) => true,
            _ => false,
        }
    }
}

/// The display text for a time unit.
pub open spec fn spec_unit_display(u: TimeUnit) -> Seq<char> {
    match u {
        TimeUnit::Nanoseconds => "ns"@,
        TimeUnit::Microseconds => "us"@,
        TimeUnit::Milliseconds => "ms"@,
    }
}

/// The canonical display string of a type: nested types render as
/// `struct[field: type, ...]` and `list[type]`; `Decimal` renders the
/// engine defaults (precision 38, scale 9) for unspecified parameters.
pub open spec fn spec_dtype_display(t: DTypeV) -> Seq<char>
    decreases t,
{
    match t {
        DTypeV::Null => "null"@,
        DTypeV::Boolean => "bool"@,
        DTypeV::Int8 => "i8"@,
        DTypeV::Int16 => "i16"@,
        DTypeV::Int32 => "i32"@,
        DTypeV::Int64 => "i64"@,
        DTypeV::UInt8 => "u8"@,
        DTypeV::UInt16 => "u16"@,
        DTypeV::UInt32 => "u32"@,
        DTypeV::UInt64 => "u64"@,
        DTypeV::Float32 => "f32"@,
        DTypeV::Float64 => "f64"@,
        DTypeV::Str => "str"@,
        DTypeV::Binary => "binary"@,
        DTypeV::Date => "date"@,
        DTypeV::Time => "time"@,
        DTypeV::Datetime(u, tz) => {
            let base = "datetime["@ + spec_unit_display(u);
            match tz {
                Some(z) => base + ", "@ + z + "]"@,
                None => base + "]"@,
            }
        },
        DTypeV::Duration(u) => "duration["@ + spec_unit_display(u) + "]"@,
        DTypeV::Decimal(p, s) => {
            let pv = if p is Some {
                p->0
            } else {
                38int
            };
            let sv = if s is Some {
                s->0
            } else {
                9int
            };
            "decimal["@ + dec_str(pv as nat) + ","@ + dec_str(sv as nat) + "]"@
        },
        DTypeV::List(inner) => "list["@ + spec_dtype_display(*inner) + "]"@,
        DTypeV::Struct(fields) => "struct["@ + spec_fields_display(fields) + "]"@,
        DTypeV::Categorical => "cat"@,
        DTypeV::Unknown => "unknown"@,
    }
}

/// The comma-separated rendering of struct fields.
pub open spec fn spec_fields_display(fields: Seq<(Seq<char>, DTypeV)>) -> Seq<char>
    decreases fields,
{
    if fields.len() == 0 {
        Seq::empty()
    } else if fields.len() == 1 {
        fields[0].0 + ": "@ + spec_dtype_display(fields[0].1)
    } else {
        spec_fields_display(fields.drop_last()) + ", "@ + fields.last().0 + ": "@
            + spec_dtype_display(fields.last().1)
    }
}

fn unit_display(u: TimeUnit) -> (r: &'static str)
    ensures
        r@ == spec_unit_display(u),
{
    match u {
        TimeUnit::Nanoseconds => "ns",
        TimeUnit::Microseconds => "us",
        TimeUnit::Milliseconds => "ms",
    }
}

impl LogicalType {
    /// Renders the canonical display string of this type.
    #[verifier::loop_isolation(false)]
    pub fn to_display_string(&self) -> (s: String)
        requires
            self.display_fits(),
        ensures
            s@ == spec_dtype_display(self@),
        decreases self,
    {
        proof {
            reveal_strlit("null");
            reveal_strlit("bool");
            reveal_strlit("i8");
            reveal_strlit("i16");
            reveal_strlit("i32");
            reveal_strlit("i64");
            reveal_strlit("u8");
            reveal_strlit("u16");
            reveal_strlit("u32");
            reveal_strlit("u64");
            reveal_strlit("f32");
            reveal_strlit("f64");
            reveal_strlit("str");
            reveal_strlit("binary");
            reveal_strlit("date");
            reveal_strlit("time");
            reveal_strlit("cat");
            reveal_strlit("unknown");
        }
        match self {
            LogicalType::Null => "null".to_owned(),
            LogicalType::Boolean => "bool".to_owned(),
            LogicalType::Int8 => "i8".to_owned(),
            LogicalType::Int16 => "i16".to_owned(),
            LogicalType::Int32 => "i32".to_owned(),
            LogicalType::Int64 => "i64".to_owned(),
            LogicalType::UInt8 => "u8".to_owned(),
            LogicalType::UInt16 => "u16".to_owned(),
            LogicalType::UInt32 => "u32".to_owned(),
            LogicalType::UInt64 => "u64".to_owned(),
            LogicalType::Float32 => "f32".to_owned(),
            LogicalType::Float64 => "f64".to_owned(),
            LogicalType::Str => "str".to_owned(),
            LogicalType::Binary => "binary".to_owned(),
            LogicalType::Date => "date".to_owned(),
            LogicalType::Time => "time".to_owned(),
            LogicalType::Datetime(u, tz) => {
                let mut s = String::new();
                proof {
                    reveal_strlit("datetime[");
                    reveal_strlit(", ");
                    reveal_strlit("]");
                }
                s.append("datetime[");
                s.append(unit_display(*u));
                match tz {
                    Some(z) => {
                        s.append(", ");
                        s.append(z.as_str());
                        s.append("]");
                    },
                    None => {
                        s.append("]");
                    },
                }
                proof {
                    assert(s@ =~= spec_dtype_display(self@));
                }
                s
            },
            LogicalType::Duration(u) => {
                let mut s = String::new();
                proof {
                    reveal_strlit("duration[");
                    reveal_strlit("]");
                }
                s.append("duration[");
                s.append(unit_display(*u));
                s.append("]");
                proof {
                    assert(s@ =~= spec_dtype_display(self@));
                }
                s
            },
            LogicalType::Decimal(p, s_param) => {
                let pv: u64 = match p {
                    Some(v) => *v as u64,
                    None => 38,
                };
                let sv: u64 = match s_param {
                    Some(v) => *v as u64,
                    None => 9,
                };
                let mut s = String::new();
                proof {
                    reveal_strlit("decimal[");
                    reveal_strlit(",");
                    reveal_strlit("]");
                }
                s.append("decimal[");
                let ptext = u64_to_string(pv);
                s.append(ptext.as_str());
                s.append(",");
                let stext = u64_to_string(sv);
                s.append(stext.as_str());
                s.append("]");
                proof {
                    assert(s@ =~= spec_dtype_display(self@));
                }
                s
            },
            LogicalType::List(inner) => {
                let mut s = String::new();
                proof {
                    reveal_strlit("list[");
                    reveal_strlit("]");
                }
                s.append("list[");
                let inner_text = inner.to_display_string();
                s.append(inner_text.as_str());
                s.append("]");
                proof {
                    assert(s@ =~= spec_dtype_display(self@));
                }
                s
            },
            LogicalType::Struct(fields) => {
                let mut s = String::new();
                proof {
                    reveal_strlit("struct[");
                    reveal_strlit(", ");
                    reveal_strlit(": ");
                    reveal_strlit("]");
                }
                s.append("struct[");
                let n = fields.len();
                let mut i: usize = 0;
                proof {
                    lemma_struct_fields_view(fields@);
                    let ghost fsv = struct_fields_view(fields@);
                    assert(fsv.take(0) =~= Seq::<(Seq<char>, DTypeV)>::empty());
                }
                while i < n
                    invariant
                        i <= n,
                        n == fields.len(),
                        self@ == DTypeV::Struct(struct_fields_view(fields@)),
                        struct_fields_view(fields@).len() == n,
                        forall|j: int|
                            0 <= j < n ==> #[trigger] struct_fields_view(fields@)[j] == (
                            fields[j].name@,
                            dtype_view(&fields[j].dtype),
                            ),
                        forall|j: int| 0 <= j < n ==> (#[trigger] fields[j].dtype).display_fits(),
                        s@ == "struct["@ + spec_fields_display(
                            struct_fields_view(fields@).take(i as int),
                        ),
                    decreases n - i,
                {
                    if i > 0 {
                        s.append(", ");
                    }
                    s.append(fields[i].name.as_str());
                    s.append(": ");
                    proof {
                        assert(decreases_to!(*self => self->Struct_0));
                        assert(decreases_to!(self->Struct_0 => self->Struct_0@));
                        assert(decreases_to!(fields@ => fields@[i as int]));
                        assert(decreases_to!(fields@[i as int] => fields@[i as int].dtype));
                    }
                    let ftext = fields[i].dtype.to_display_string();
                    s.append(ftext.as_str());
                    proof {
                        let ghost fsv = struct_fields_view(fields@);
                        assert(fsv.take(i + 1).drop_last() =~= fsv.take(i as int));
                        assert(fsv.take(i + 1).last() == fsv[i as int]);
                        assert(s@ =~= "struct["@ + spec_fields_display(fsv.take(i + 1)));
                    }
                    i = i + 1;
                }
                s.append("]");
                proof {
                    let ghost fsv = struct_fields_view(fields@);
                    assert(fsv.take(n as int) =~= fsv);
                    assert(s@ =~= spec_dtype_display(self@));
                }
                s
            },
            LogicalType::Categorical => "cat".to_owned(),
            LogicalType::Unknown => "unknown".to_owned(),
        }
    }

    /// Whether every decimal parameter in the type fits in 64 bits, so the
    /// renderer's arithmetic is exact.
    pub open spec fn display_fits(&self) -> bool
        decreases self,
    {
        match self {
            LogicalType::Decimal(p, s) => {
                &&& (p matches Some(pv) ==> pv as int <= u64::MAX as int)
                &&& (s matches Some(sv) ==> sv as int <= u64::MAX as int)
            },
            LogicalType::List(inner) => inner.display_fits(),
            LogicalType::Struct(fields) => forall|j: int|
                0 <= j < fields.len() ==> (#[trigger] fields[j].dtype).display_fits(),
            _ => true,
        }
    }
}

} // verus!
