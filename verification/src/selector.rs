//! The column-selector algebra: a small boolean algebra over "which
//! columns match", resolved against a concrete schema into the list of
//! matching column names. Name patterns are regular expressions, matched
//! by an outside engine behind a trusted wrapper.

use vstd::prelude::*;

use crate::dtype::spec_is_numeric;
use crate::dtype::spec_kind_of;
use crate::dtype::DTypeV;
use crate::dtype::LogicalType;
use crate::error::EngineError;
use crate::error::ErrorKind;

verus! {

broadcast use vstd::std_specs::vec::group_vec_axioms;

/// Whether a pattern is a valid regular expression. The result of the
/// outside compiler on a given pattern, named but not described.
pub uninterp spec fn regex_valid(pattern: Seq<char>) -> bool;

/// Whether a pattern finds a match anywhere in a text. The result of the
/// outside matcher on given inputs, named but not described; it depends on
/// the pattern and the text alone.
pub uninterp spec fn regex_matches(pattern: Seq<char>, text: Seq<char>) -> bool;

/// Relies on regex::Regex::new and regex::Regex::is_match: compilation
/// succeeds exactly for valid patterns, and a search's outcome is a
/// function of the pattern and the haystack alone.
#[verifier::external_body]
fn regex_match_str(pattern: &str, text: &str) -> (r: Option<bool>)
    ensures
        r is Some <==> regex_valid(pattern@),
        r matches Some(b) ==> b == regex_matches(pattern@, text@),
{
    match regex::Regex::new(pattern) {
        Ok(re) => Some(re.is_match(text)),
        Err(_) => None,
    }
}

/// A set of column types, for type-driven selection.
pub enum DTypeSet {
    /// Matches nothing.
    Empty,
    /// Matches columns whose type kind equals the kind of a listed type
    /// (parametric kinds match on the variant alone).
    AnyOf(Vec<LogicalType>),
    /// Matches the numeric kinds: integers, unsigned integers, floats.
    Numeric,
    /// Matches any datetime, whatever its unit and timezone.
    AnyDatetime,
    /// Matches any duration, whatever its unit.
    AnyDuration,
    /// Matches any struct-typed column, whatever its fields.
    StructAny,
}

/// The selector algebra.
pub enum Selector {
    /// Every column.
    Wildcard,
    /// The columns with a listed name.
    ByName(Vec<String>),
    /// The columns whose type falls in a set.
    ByDType(DTypeSet),
    /// The columns whose name matches a regular expression.
    Matches(String),
    /// Columns matching either side.
    Union(Box<Selector>, Box<Selector>),
    /// Columns matching both sides.
    Intersect(Box<Selector>, Box<Selector>),
    /// Columns matching the left side but not the right.
    Difference(Box<Selector>, Box<Selector>),
}

/// The model of a type set.
#[verifier::ext_equal]
pub enum DTypeSetV {
    Empty,
    AnyOf(Seq<DTypeV>),
    Numeric,
    AnyDatetime,
    AnyDuration,
    StructAny,
}

/// The model of a selector.
#[verifier::ext_equal]
pub enum SelV {
    Wildcard,
    ByName(Seq<Seq<char>>),
    ByDType(DTypeSetV),
    Matches(Seq<char>),
    Union(Box<SelV>, Box<SelV>),
    Intersect(Box<SelV>, Box<SelV>),
    Difference(Box<SelV>, Box<SelV>),
}

/// The models of a list of types.
pub open spec fn dtypes_view(ts: Seq<LogicalType>) -> Seq<DTypeV>
    decreases ts,
{
    if ts.len() == 0 {
        Seq::empty()
    } else {
        dtypes_view(ts.drop_last()).push(crate::dtype::dtype_view(&ts.last()))
    }
}

/// Pointwise characterization of `dtypes_view`.
pub proof fn lemma_dtypes_view(ts: Seq<LogicalType>)
    ensures
        dtypes_view(ts).len() == ts.len(),
        forall|i: int|
            0 <= i < ts.len() ==> #[trigger] dtypes_view(ts)[i] == crate::dtype::dtype_view(
                &ts[i],
            ),
    decreases ts,
{
    if ts.len() > 0 {
        lemma_dtypes_view(ts.drop_last());
    }
}

/// The models of a list of names.
pub open spec fn names_view(ns: Seq<String>) -> Seq<Seq<char>>
    decreases ns,
{
    if ns.len() == 0 {
        Seq::empty()
    } else {
        names_view(ns.drop_last()).push(ns.last()@)
    }
}

/// Pointwise characterization of `names_view`.
pub proof fn lemma_names_view(ns: Seq<String>)
    ensures
        names_view(ns).len() == ns.len(),
        forall|i: int| 0 <= i < ns.len() ==> #[trigger] names_view(ns)[i] == ns[i]@,
    decreases ns,
{
    if ns.len() > 0 {
        lemma_names_view(ns.drop_last());
    }
}

pub open spec fn dtypeset_view(ds: &DTypeSet) -> DTypeSetV {
    match ds {
        DTypeSet::Empty => DTypeSetV::Empty,
        DTypeSet::AnyOf(ts) => DTypeSetV::AnyOf(dtypes_view(ts@)),
        DTypeSet::Numeric => DTypeSetV::Numeric,
        DTypeSet::AnyDatetime => DTypeSetV::AnyDatetime,
        DTypeSet::AnyDuration => DTypeSetV::AnyDuration,
        DTypeSet::StructAny => DTypeSetV::StructAny,
    }
}

pub open spec fn sel_view(s: &Selector) -> SelV
    decreases s,
{
    match s {
        Selector::Wildcard => SelV::Wildcard,
        Selector::ByName(ns) => SelV::ByName(names_view(ns@)),
        Selector::ByDType(ds) => SelV::ByDType(dtypeset_view(ds)),
        Selector::Matches(p) => SelV::Matches(p@),
        Selector::Union(a, b) => SelV::Union(Box::new(sel_view(a)), Box::new(sel_view(b))),
        Selector::Intersect(a, b) => SelV::Intersect(Box::new(sel_view(a)), Box::new(sel_view(b))),
        Selector::Difference(a, b) => SelV::Difference(
            Box::new(sel_view(a)),
            Box::new(sel_view(b)),
        ),
    }
}

impl View for Selector {
    type V = SelV;

    open spec fn view(&self) -> SelV {
        sel_view(self)
    }
}

/// Whether a type belongs to a type set: parametric kinds compare on the
/// variant alone, so a datetime matches a listed datetime whatever their
/// units and timezones.
pub open spec fn spec_set_matches(ds: DTypeSetV, t: DTypeV) -> bool {
    match ds {
        DTypeSetV::Empty => false,
        DTypeSetV::AnyOf(ts) => exists|i: int|
            0 <= i < ts.len() && spec_kind_of(#[trigger] ts[i]) == spec_kind_of(t),
        DTypeSetV::Numeric => spec_is_numeric(t),
        DTypeSetV::AnyDatetime => t is Datetime,
        DTypeSetV::AnyDuration => t is Duration,
        DTypeSetV::StructAny => t is Struct,
    }
}

/// Whether a column of a given name and type matches a selector. The
/// boolean combinators act as set union, intersection and difference over
/// the matching column names.
pub open spec fn spec_sel_matches(s: SelV, name: Seq<char>, dtype: DTypeV) -> bool
    decreases s,
{
    match s {
        SelV::Wildcard => true,
        SelV::ByName(ns) => ns.contains(name),
        SelV::ByDType(ds) => spec_set_matches(ds, dtype),
        SelV::Matches(p) => regex_matches(p, name),
        SelV::Union(a, b) => spec_sel_matches(*a, name, dtype) || spec_sel_matches(*b, name, dtype),
        SelV::Intersect(a, b) => spec_sel_matches(*a, name, dtype) && spec_sel_matches(
            *b,
            name,
            dtype,
        ),
        SelV::Difference(a, b) => spec_sel_matches(*a, name, dtype) && !spec_sel_matches(
            *b,
            name,
            dtype,
        ),
    }
}

/// Whether every pattern in a selector compiles.
pub open spec fn spec_sel_valid(s: SelV) -> bool
    decreases s,
{
    match s {
        SelV::Matches(p) => regex_valid(p),
        SelV::Union(a, b) => spec_sel_valid(*a) && spec_sel_valid(*b),
        SelV::Intersect(a, b) => spec_sel_valid(*a) && spec_sel_valid(*b),
        SelV::Difference(a, b) => spec_sel_valid(*a) && spec_sel_valid(*b),
        _ => true,
    }
}

/// The names a selector picks from a schema, in schema order.
pub open spec fn spec_resolve(s: SelV, entries: Seq<(Seq<char>, DTypeV)>) -> Seq<Seq<char>>
    decreases entries,
{
    if entries.len() == 0 {
        Seq::empty()
    } else {
        let prefix = spec_resolve(s, entries.drop_last());
        if spec_sel_matches(s, entries.last().0, entries.last().1) {
            prefix.push(entries.last().0)
        } else {
            prefix
        }
    }
}

impl Selector {
    /// Whether a column matches; fails exactly when some pattern in the
    /// selector does not compile.
    #[verifier::loop_isolation(false)]
    pub fn matches_column(&self, name: &str, dtype: &LogicalType) -> (r: Result<
        bool,
        EngineError,
    >)
        ensures
            match r {
                Ok(b) => b == spec_sel_matches(self@, name@, dtype@),
                Err(e) => e.kind() == ErrorKind::Compute,
            },
            r is Ok <==> spec_sel_valid(self@),
        decreases self,
    {
        match self {
            Selector::Wildcard => Ok(true),
            Selector::ByName(ns) => {
                proof {
                    lemma_names_view(ns@);
                }
                let n = ns.len();
                let mut i: usize = 0;
                while i < n
                    invariant
                        i <= n,
                        forall|j: int| 0 <= j < i ==> names_view(ns@)[j] != name@,
                    decreases n - i,
                {
                    if ns[i].eq(&name.to_owned()) {
                        proof {
                            assert(names_view(ns@)[i as int] == name@);
                        }
                        return Ok(true);
                    }
                    i = i + 1;
                }
                proof {
                    if names_view(ns@).contains(name@) {
                        let ghost w = choose|j: int|
                            0 <= j < names_view(ns@).len() && names_view(ns@)[j] == name@;
                        assert(names_view(ns@)[w] != name@);
                    }
                }
                Ok(false)
            },
            Selector::ByDType(ds) => Ok(set_matches_exec(ds, dtype)),
            Selector::Matches(p) => match regex_match_str(p.as_str(), name) {
                Some(b) => Ok(b),
                None => Err(EngineError::compute("invalid name pattern in selector")),
            },
            Selector::Union(a, b) => {
                let ra = a.matches_column(name, dtype)?;
                let rb = b.matches_column(name, dtype)?;
                Ok(ra || rb)
            },
            Selector::Intersect(a, b) => {
                let ra = a.matches_column(name, dtype)?;
                let rb = b.matches_column(name, dtype)?;
                Ok(ra && rb)
            },
            Selector::Difference(a, b) => {
                let ra = a.matches_column(name, dtype)?;
                let rb = b.matches_column(name, dtype)?;
                Ok(ra && !rb)
            },
        }
    }

    /// The names this selector picks from a schema, in schema order; fails
    /// exactly when some pattern in the selector does not compile.
    #[verifier::loop_isolation(false)]
    pub fn resolve(&self, schema: &crate::schema::Schema) -> (r: Result<Vec<String>, EngineError>)
        ensures
            match r {
                Ok(names) => {
                    &&& names_view(names@) == spec_resolve(self@, schema.spec_entries())
                    &&& names@.len() == spec_resolve(self@, schema.spec_entries()).len()
                },
                Err(e) => e.kind() == ErrorKind::Compute,
            },
            r is Ok <==> spec_sel_valid(self@),
    {
        let probe = self.matches_column("", &crate::dtype::LogicalType::Null);
        match probe {
            Err(e) => {
                return Err(e);
            },
            Ok(_) => {},
        }
        let n = schema.len();
        let mut out: Vec<String> = Vec::new();
        let mut i: usize = 0;
        proof {
            assert(schema.spec_entries().take(0) =~= Seq::<(Seq<char>, DTypeV)>::empty());
        }
        while i < n
            invariant
                i <= n,
                n == schema.spec_entries().len(),
                names_view(out@) == spec_resolve(self@, schema.spec_entries().take(i as int)),
                out@.len() == names_view(out@).len(),
            decreases n - i,
        {
            proof {
                let ghost es = schema.spec_entries();
                assert(es.take(i + 1).drop_last() =~= es.take(i as int));
                assert(es.take(i + 1).last() == es[i as int]);
            }
            let (name, dtype) = match schema.get_at_index(i) {
                Some(pair) => pair,
                None => {
                    proof {
                        assert(false);
                    }
                    return Err(EngineError::compute("schema index out of range"));
                },
            };
            let m = self.matches_column(name.as_str(), dtype)?;
            if m {
                proof {
                    lemma_names_view(out@);
                }
                out.push(name.clone());
                proof {
                    lemma_names_view(out@);
                    assert(names_view(out@) =~= spec_resolve(
                        self@,
                        schema.spec_entries().take(i + 1),
                    ));
                }
            }
            i = i + 1;
        }
        proof {
            assert(schema.spec_entries().take(n as int) =~= schema.spec_entries());
        }
        Ok(out)
    }
}

#[verifier::loop_isolation(false)]
fn set_matches_exec(ds: &DTypeSet, t: &LogicalType) -> (r: bool)
    ensures
        r == spec_set_matches(dtypeset_view(ds), t@),
{
    match ds {
        DTypeSet::Empty => false,
        DTypeSet::AnyOf(ts) => {
            proof {
                lemma_dtypes_view(ts@);
            }
            let k = t.kind_of();
            let n = ts.len();
            let mut i: usize = 0;
            while i < n
                invariant
                    i <= n,
                    n == ts@.len(),
                    k == spec_kind_of(t@),
                    dtypes_view(ts@).len() == n,
                    forall|j: int|
                        0 <= j < n ==> #[trigger] dtypes_view(ts@)[j] == crate::dtype::dtype_view(
                            &ts@[j],
                        ),
                    forall|j: int| 0 <= j < i ==> spec_kind_of(#[trigger] dtypes_view(ts@)[j]) != k,
                decreases n - i,
            {
                if ts[i].kind_of() == k {
                    proof {
                        assert(spec_kind_of(dtypes_view(ts@)[i as int]) == spec_kind_of(t@));
                        assert(exists|j: int|
                            0 <= j < dtypes_view(ts@).len() && spec_kind_of(
                                #[trigger] dtypes_view(ts@)[j],
                            ) == spec_kind_of(t@));
                        assert(dtypeset_view(ds) == DTypeSetV::AnyOf(dtypes_view(ts@)));
                        assert(spec_set_matches(dtypeset_view(ds), t@));
                    }
                    return true;
                }
                i = i + 1;
            }
            proof {
                if spec_set_matches(dtypeset_view(ds), t@) {
                    let ghost w = choose|j: int|
                        0 <= j < dtypes_view(ts@).len() && spec_kind_of(
                            #[trigger] dtypes_view(ts@)[j],
                        ) == spec_kind_of(t@);
                    assert(spec_kind_of(dtypes_view(ts@)[w]) != k);
                }
            }
            false
        },
        DTypeSet::Numeric => t.is_numeric(),
        DTypeSet::AnyDatetime => t.kind_of() == 14,
        DTypeSet::AnyDuration => t.kind_of() == 16,
        DTypeSet::StructAny => t.kind_of() == 19,
    }
}

// Constructors mirroring the selector surface: wildcard, name exclusion,
// the string matchers, the type selectors, and the boolean combinators.
impl Selector {
    /// Every column.
    pub fn all() -> (s: Selector)
        ensures
            s@ == SelV::Wildcard,
    {
        Selector::Wildcard
    }

    /// This selector minus the listed names.
    pub fn exclude(self, names: Vec<String>) -> (s: Selector)
        ensures
            s@ == SelV::Difference(
                Box::new(self@),
                Box::new(SelV::ByName(names_view(names@))),
            ),
    {
        let ghost nv = names_view(names@);
        let inner = Selector::ByName(names);
        proof {
            assert(sel_view(&inner) == SelV::ByName(nv));
        }
        Selector::Difference(Box::new(self), Box::new(inner))
    }

    /// Columns whose name starts with a literal prefix: an anchored
    /// pattern `^prefix`.
    pub fn starts_with(prefix: &str) -> (s: Selector)
        ensures
            s@ == SelV::Matches("^"@ + prefix@),
    {
        proof {
            reveal_strlit("^");
        }
        let mut p = String::new();
        p.append("^");
        p.append(prefix);
        Selector::Matches(p)
    }

    /// Columns whose name ends with a literal suffix: a pattern
    /// `suffix$`.
    pub fn ends_with(suffix: &str) -> (s: Selector)
        ensures
            s@ == SelV::Matches(suffix@ + "$"@),
    {
        proof {
            reveal_strlit("$");
        }
        let mut p = String::new();
        p.append(suffix);
        p.append("$");
        Selector::Matches(p)
    }

    /// Columns whose name contains a match of the pattern anywhere.
    pub fn contains(pattern: &str) -> (s: Selector)
        ensures
            s@ == SelV::Matches(pattern@),
    {
        Selector::Matches(pattern.to_owned())
    }

    /// Columns whose name matches a regular expression.
    pub fn matches(pattern: &str) -> (s: Selector)
        ensures
            s@ == SelV::Matches(pattern@),
    {
        Selector::Matches(pattern.to_owned())
    }

    /// Columns of the numeric kinds.
    pub fn numeric() -> (s: Selector)
        ensures
            s@ == SelV::ByDType(DTypeSetV::Numeric),
    {
        Selector::ByDType(DTypeSet::Numeric)
    }

    /// Columns whose type has the kind named by a discriminant code:
    /// datetime and duration codes match any unit, the struct code matches
    /// any field list, and an unrecognised code matches nothing.
    pub fn by_dtype_code(code: i32) -> (s: Selector)
        ensures
            s@ == SelV::ByDType(spec_set_for_code(code)),
    {
        if code == 14 {
            Selector::ByDType(DTypeSet::AnyDatetime)
        } else if code == 16 {
            Selector::ByDType(DTypeSet::AnyDuration)
        } else if code == 19 {
            Selector::ByDType(DTypeSet::StructAny)
        } else if code == 0 {
            Selector::ByDType(DTypeSet::Empty)
        } else if 1 <= code && code <= 22 {
            let mut ts: Vec<LogicalType> = Vec::new();
            ts.push(LogicalType::default_for(code));
            let s = Selector::ByDType(DTypeSet::AnyOf(ts));
            proof {
                lemma_dtypes_view(s->ByDType_0->AnyOf_0@);
                assert(dtypes_view(s->ByDType_0->AnyOf_0@) =~= seq![
                    crate::dtype::spec_default_for(code),
                ]);
            }
            s
        } else {
            Selector::ByDType(DTypeSet::Empty)
        }
    }

    /// Columns matching either selector.
    pub fn union(self, other: Selector) -> (s: Selector)
        ensures
            s@ == SelV::Union(Box::new(self@), Box::new(other@)),
    {
        Selector::Union(Box::new(self), Box::new(other))
    }

    /// Columns matching both selectors.
    pub fn intersect(self, other: Selector) -> (s: Selector)
        ensures
            s@ == SelV::Intersect(Box::new(self@), Box::new(other@)),
    {
        Selector::Intersect(Box::new(self), Box::new(other))
    }

    /// Columns matching this selector but not the other.
    pub fn difference(self, other: Selector) -> (s: Selector)
        ensures
            s@ == SelV::Difference(Box::new(self@), Box::new(other@)),
    {
        Selector::Difference(Box::new(self), Box::new(other))
    }

    /// The complement: every column not matching this selector — the
    /// wildcard minus the operand, not a per-subtree negation.
    pub fn complement(self) -> (s: Selector)
        ensures
            s@ == SelV::Difference(Box::new(SelV::Wildcard), Box::new(self@)),
    {
        let w = Selector::Wildcard;
        proof {
            assert(sel_view(&w) == SelV::Wildcard);
        }
        Selector::Difference(Box::new(w), Box::new(self))
    }
}

/// The type set selected for a kind code.
pub open spec fn spec_set_for_code(code: i32) -> DTypeSetV {
    if code == 14 {
        DTypeSetV::AnyDatetime
    } else if code == 16 {
        DTypeSetV::AnyDuration
    } else if code == 19 {
        DTypeSetV::StructAny
    } else if code == 0 {
        DTypeSetV::Empty
    } else if 1 <= code <= 22 {
        DTypeSetV::AnyOf(seq![crate::dtype::spec_default_for(code)])
    } else {
        DTypeSetV::Empty
    }
}

} // verus!
