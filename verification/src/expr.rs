//! The expression model: an immutable tree of per-column computations,
//! evaluated against a table. Expressions reference column names, not
//! values; a selector embeds as an expression and is expanded against the
//! concrete schema where a multi-column context consumes it.

use vstd::prelude::*;

use crate::dtype::DTypeV;
use crate::dtype::LogicalType;
use crate::error::EngineError;
use crate::error::ErrorKind;
use crate::frame::frame_wf;
use crate::frame::lemma_col_index;
use crate::frame::spec_col_index;
use crate::frame::DataFrame;
use crate::selector::SelV;
use crate::selector::Selector;
use crate::series::Series;
use crate::series_ops::bcast_cell;
use crate::series_ops::bcast_len;
use crate::series_ops::bcast_ok;
use crate::series_ops::is_intlike;
use crate::series_ops::is_uintlike;
use crate::series_ops::spec_arith_cell;
use crate::series_ops::spec_cast_cell;
use crate::series_ops::spec_castable;
use crate::series_ops::spec_cmp_cell;
use crate::series_ops::spec_fold_max;
use crate::series_ops::spec_fold_min;
use crate::series_ops::spec_null_mask;
use crate::series_ops::spec_sum_nums;
use crate::series_ops::ArithOp;
use crate::series_ops::CmpOp;
use crate::value::val_matches_dtype;
use crate::value::AnyVal;
use crate::value::Val;

verus! {

broadcast use vstd::std_specs::vec::group_vec_axioms;

/// The reduction kinds an expression can apply.
#[derive(Clone, Copy, Debug, PartialEq, Eq, Structural)]
pub enum AggKind {
    Sum,
    Min,
    Max,
}

/// An expression tree.
pub enum Expr {
    /// The column with a name.
    Column(String),
    /// A one-cell literal column of a declared type.
    Literal(LogicalType, AnyVal),
    /// Elementwise arithmetic over two subexpressions.
    BinaryArith(ArithOp, Box<Expr>, Box<Expr>),
    /// Elementwise comparison over two subexpressions.
    BinaryCmp(CmpOp, Box<Expr>, Box<Expr>),
    /// A reduction of a subexpression to one cell.
    Aggregate(AggKind, Box<Expr>),
    /// A non-strict cast of a subexpression.
    CastTo(Box<Expr>, LogicalType),
    /// The elementwise null test of a subexpression.
    NullTest(Box<Expr>, bool),
    /// A selector, expanded against the schema where a multi-column
    /// context consumes the expression.
    SelectorRef(Selector),
}

/// The model of an expression.
#[verifier::ext_equal]
pub enum ExprV {
    Column(Seq<char>),
    Literal(DTypeV, Val),
    BinaryArith(ArithOp, Box<ExprV>, Box<ExprV>),
    BinaryCmp(CmpOp, Box<ExprV>, Box<ExprV>),
    Aggregate(AggKind, Box<ExprV>),
    CastTo(Box<ExprV>, DTypeV),
    NullTest(Box<ExprV>, bool),
    SelectorRef(SelV),
}

pub open spec fn expr_view(e: &Expr) -> ExprV
    decreases e,
{
    match e {
        Expr::Column(n) => ExprV::Column(n@),
        Expr::Literal(t, v) => ExprV::Literal(t@, v@),
        Expr::BinaryArith(op, a, b) => ExprV::BinaryArith(
            *op,
            Box::new(expr_view(a)),
            Box::new(expr_view(b)),
        ),
        Expr::BinaryCmp(op, a, b) => ExprV::BinaryCmp(
            *op,
            Box::new(expr_view(a)),
            Box::new(expr_view(b)),
        ),
        Expr::Aggregate(k, a) => ExprV::Aggregate(*k, Box::new(expr_view(a))),
        Expr::CastTo(a, t) => ExprV::CastTo(Box::new(expr_view(a)), t@),
        Expr::NullTest(a, want) => ExprV::NullTest(Box::new(expr_view(a)), *want),
        Expr::SelectorRef(s) => ExprV::SelectorRef(s@),
    }
}

impl View for Expr {
    type V = ExprV;

    open spec fn view(&self) -> ExprV {
        expr_view(self)
    }
}

/// The model of an evaluated column: name, type, cells.
#[verifier::ext_equal]
pub struct ColV {
    pub name: Seq<char>,
    pub dtype: DTypeV,
    pub vals: Seq<Val>,
}

impl ColV {
    /// The model of a concrete column.
    pub open spec fn of_series(s: Series) -> ColV {
        ColV { name: s.spec_name(), dtype: s.spec_dtype(), vals: s.spec_vals() }
    }
}

/// The model of a table: its columns' models, in order.
pub open spec fn cols_model(cols: Seq<Series>) -> Seq<ColV> {
    cols.map_values(|c: Series| ColV::of_series(c))
}

/// The index of the column with a name in a model table.
pub open spec fn col_index_m(cols: Seq<ColV>, name: Seq<char>) -> Option<int>
    decreases cols.len(),
{
    if cols.len() == 0 {
        None
    } else if cols[0].name == name {
        Some(0)
    } else {
        match col_index_m(cols.skip(1), name) {
            Some(i) => Some(i + 1),
            None => None,
        }
    }
}

/// Column lookup agrees between a table and its model.
pub proof fn lemma_col_index_model(cols: Seq<Series>, name: Seq<char>)
    ensures
        col_index_m(cols_model(cols), name) == spec_col_index(cols, name),
    decreases cols.len(),
{
    if cols.len() > 0 {
        assert(cols_model(cols).len() == cols.len());
        assert(cols_model(cols)[0] == ColV::of_series(cols[0]));
        if cols[0].spec_name() != name {
            lemma_col_index_model(cols.skip(1), name);
            assert(cols_model(cols).skip(1) =~= cols_model(cols.skip(1)));
        }
    }
}

/// What `col_index_m` means.
pub proof fn lemma_col_index_m(cols: Seq<ColV>, name: Seq<char>)
    ensures
        match col_index_m(cols, name) {
            Some(i) => 0 <= i < cols.len() && cols[i].name == name && (forall|j: int|
                0 <= j < i ==> (#[trigger] cols[j]).name != name),
            None => forall|j: int| 0 <= j < cols.len() ==> (#[trigger] cols[j]).name != name,
        },
    decreases cols.len(),
{
    if cols.len() > 0 && cols[0].name != name {
        lemma_col_index_m(cols.skip(1), name);
        let r = col_index_m(cols.skip(1), name);
        if r is Some {
            let i = r->0;
            assert(cols.skip(1)[i] == cols[i + 1]);
            assert forall|j: int| 0 <= j < i + 1 implies (#[trigger] cols[j]).name != name by {
                if j > 0 {
                    assert(cols.skip(1)[j - 1] == cols[j]);
                }
            }
        } else {
            assert forall|j: int| 0 <= j < cols.len() implies (#[trigger] cols[j]).name != name by {
                if j > 0 {
                    assert(cols.skip(1)[j - 1] == cols[j]);
                }
            }
        }
    }
}

/// The first index carrying a name is the model lookup's result.
pub proof fn lemma_col_index_m_first(cols: Seq<ColV>, name: Seq<char>, i: int)
    requires
        0 <= i < cols.len(),
        cols[i].name == name,
        forall|j: int| 0 <= j < i ==> (#[trigger] cols[j]).name != name,
    ensures
        col_index_m(cols, name) == Some(i),
    decreases i,
{
    if i > 0 {
        assert forall|j: int| 0 <= j < i - 1 implies (#[trigger] cols.skip(1)[j]).name != name by {
            assert(cols.skip(1)[j] == cols[j + 1]);
        }
        assert(cols.skip(1)[i - 1] == cols[i]);
        lemma_col_index_m_first(cols.skip(1), name, i - 1);
    }
}

/// The denotation of an expression against a table's columns: the column
/// it produces, or the kind of the first error, evaluating left to right.
pub open spec fn spec_eval(e: ExprV, cols: Seq<ColV>) -> Result<ColV, ErrorKind>
    decreases e,
{
    match e {
        ExprV::Column(n) => match col_index_m(cols, n) {
            Some(i) => Ok(cols[i]),
            None => Err(ErrorKind::Schema),
        },
        ExprV::Literal(t, v) => {
            if val_matches_dtype(v, t) {
                Ok(ColV { name: "literal"@, dtype: t, vals: seq![v] })
            } else {
                Err(ErrorKind::Type)
            }
        },
        ExprV::BinaryArith(op, a, b) => match (spec_eval(*a, cols), spec_eval(*b, cols)) {
            (Err(k), _) => Err(k),
            (Ok(_), Err(k)) => Err(k),
            (Ok(l), Ok(r)) => {
                if !(l.dtype == r.dtype && (is_intlike(l.dtype) || is_uintlike(l.dtype))) {
                    Err(ErrorKind::Type)
                } else if !bcast_ok(l.vals.len(), r.vals.len()) {
                    Err(ErrorKind::Shape)
                } else {
                    Ok(
                        ColV {
                            name: l.name,
                            dtype: l.dtype,
                            vals: Seq::new(
                                bcast_len(l.vals.len(), r.vals.len()),
                                |i: int|
                                    spec_arith_cell(
                                        op,
                                        l.dtype,
                                        bcast_cell(l.vals, i),
                                        bcast_cell(r.vals, i),
                                    ),
                            ),
                        },
                    )
                }
            },
        },
        ExprV::BinaryCmp(op, a, b) => match (spec_eval(*a, cols), spec_eval(*b, cols)) {
            (Err(k), _) => Err(k),
            (Ok(_), Err(k)) => Err(k),
            (Ok(l), Ok(r)) => {
                if !(l.dtype == r.dtype && !(l.dtype is Float32 || l.dtype is Float64)) {
                    Err(ErrorKind::Type)
                } else if !bcast_ok(l.vals.len(), r.vals.len()) {
                    Err(ErrorKind::Shape)
                } else {
                    Ok(
                        ColV {
                            name: l.name,
                            dtype: DTypeV::Boolean,
                            vals: Seq::new(
                                bcast_len(l.vals.len(), r.vals.len()),
                                |i: int|
                                    spec_cmp_cell(op, bcast_cell(l.vals, i), bcast_cell(r.vals, i)),
                            ),
                        },
                    )
                }
            },
        },
        ExprV::Aggregate(k, a) => match spec_eval(*a, cols) {
            Err(e0) => Err(e0),
            Ok(c) => spec_agg(k, c),
        },
        ExprV::CastTo(a, t) => match spec_eval(*a, cols) {
            Err(e0) => Err(e0),
            Ok(c) => {
                if spec_castable(c.dtype, t) {
                    Ok(
                        ColV {
                            name: c.name,
                            dtype: t,
                            vals: c.vals.map_values(|v: Val| spec_cast_cell(v, t)),
                        },
                    )
                } else {
                    Err(ErrorKind::Cast)
                }
            },
        },
        ExprV::NullTest(a, want) => match spec_eval(*a, cols) {
            Err(e0) => Err(e0),
            Ok(c) => Ok(
                ColV { name: c.name, dtype: DTypeV::Boolean, vals: spec_null_mask(c.vals, want) },
            ),
        },
        ExprV::SelectorRef(_) => Err(ErrorKind::Compute),
    }
}

/// The denotation of a reduction over an evaluated column.
pub open spec fn spec_agg(k: AggKind, c: ColV) -> Result<ColV, ErrorKind> {
    match k {
        AggKind::Sum => {
            let kd = crate::dtype::spec_kind_of(c.dtype);
            if 2 <= kd <= 5 {
                if crate::series::Series::count_nulls(c.vals) == c.vals.len() {
                    Ok(ColV { name: c.name, dtype: DTypeV::Int64, vals: seq![Val::Null] })
                } else if i64::MIN <= spec_sum_nums(c.vals) <= i64::MAX {
                    Ok(
                        ColV {
                            name: c.name,
                            dtype: DTypeV::Int64,
                            vals: seq![Val::Int(spec_sum_nums(c.vals))],
                        },
                    )
                } else {
                    Err(ErrorKind::Compute)
                }
            } else if 6 <= kd <= 9 {
                if crate::series::Series::count_nulls(c.vals) == c.vals.len() {
                    Ok(ColV { name: c.name, dtype: DTypeV::UInt64, vals: seq![Val::Null] })
                } else if spec_sum_nums(c.vals) <= u64::MAX {
                    Ok(
                        ColV {
                            name: c.name,
                            dtype: DTypeV::UInt64,
                            vals: seq![Val::UInt(spec_sum_nums(c.vals))],
                        },
                    )
                } else {
                    Err(ErrorKind::Compute)
                }
            } else {
                Err(ErrorKind::Type)
            }
        },
        AggKind::Min => {
            if c.dtype is Float32 || c.dtype is Float64 {
                Err(ErrorKind::Type)
            } else {
                Ok(ColV { name: c.name, dtype: c.dtype, vals: seq![spec_fold_min(c.vals)] })
            }
        },
        AggKind::Max => {
            if c.dtype is Float32 || c.dtype is Float64 {
                Err(ErrorKind::Type)
            } else {
                Ok(ColV { name: c.name, dtype: c.dtype, vals: seq![spec_fold_max(c.vals)] })
            }
        },
    }
}

impl Expr {
    /// Evaluates the expression against a table, producing a new column.
    /// The result, and the kind of the first failure, follow the
    /// expression's denotation exactly; a bare selector cannot be
    /// evaluated to a single column and is a compute error.
    pub fn eval(&self, df: &DataFrame) -> (r: Result<Series, EngineError>)
        requires
            df.wf(),
        ensures
            match spec_eval(self@, cols_model(df.spec_cols())) {
                Ok(cv) => r matches Ok(s) && ColV::of_series(s) == cv && s.wf(),
                Err(k) => r matches Err(e) && e.kind() == k,
            },
        decreases self,
    {
        match self {
            Expr::Column(n) => {
                proof {
                    lemma_col_index(df.spec_cols(), n@);
                    lemma_col_index_model(df.spec_cols(), n@);
                }
                let c = df.column(n.as_str())?;
                proof {
                    assert(c.wf());
                }
                let s = c.duplicate();
                proof {
                    assert(ColV::of_series(s) =~= spec_eval(self@, cols_model(df.spec_cols()))->Ok_0);
                }
                Ok(s)
            },
            Expr::Literal(t, v) => {
                if !v.matches_dtype(t) {
                    return Err(EngineError::type_error("literal does not fit its declared type"));
                }
                let mut cells: Vec<AnyVal> = Vec::new();
                cells.push(v.duplicate());
                proof {
                    crate::value::lemma_vals_view(cells@);
                    reveal_strlit("literal");
                }
                let s = Series::from_checked("literal".to_owned(), t.duplicate(), cells);
                proof {
                    assert(ColV::of_series(s) =~= spec_eval(self@, cols_model(df.spec_cols()))->Ok_0);
                }
                Ok(s)
            },
            Expr::BinaryArith(op, a, b) => {
                let l = a.eval(df)?;
                let r = b.eval(df)?;
                let out = l.arith(&r, *op)?;
                proof {
                    assert(ColV::of_series(out).vals =~= spec_eval(self@, cols_model(df.spec_cols()))->Ok_0.vals);
                    assert(ColV::of_series(out) =~= spec_eval(self@, cols_model(df.spec_cols()))->Ok_0);
                }
                Ok(out)
            },
            Expr::BinaryCmp(op, a, b) => {
                let l = a.eval(df)?;
                let r = b.eval(df)?;
                let out = l.compare(&r, *op)?;
                proof {
                    assert(ColV::of_series(out).vals =~= spec_eval(self@, cols_model(df.spec_cols()))->Ok_0.vals);
                    assert(ColV::of_series(out) =~= spec_eval(self@, cols_model(df.spec_cols()))->Ok_0);
                }
                Ok(out)
            },
            Expr::Aggregate(k, a) => {
                let inner = a.eval(df)?;
                let ghost cv = ColV::of_series(inner);
                proof {
                    assert(spec_eval(self@, cols_model(df.spec_cols())) == spec_agg(*k, cv));
                }
                match k {
                    AggKind::Sum => match inner.sum() {
                        Ok(out) => {
                            proof {
                                assert(ColV::of_series(out) =~= spec_agg(AggKind::Sum, cv)->Ok_0);
                            }
                            Ok(out)
                        },
                        Err(e) => {
                            proof {
                                if crate::series::Series::count_nulls(cv.vals) == cv.vals.len() {
                                    crate::series_ops::lemma_all_null_sum_zero(cv.vals);
                                }
                                assert(spec_agg(AggKind::Sum, cv) == Err::<ColV, ErrorKind>(
                                    e.kind(),
                                ));
                            }
                            Err(e)
                        },
                    },
                    AggKind::Min => match inner.min() {
                        Ok(out) => {
                            proof {
                                assert(ColV::of_series(out) =~= spec_agg(AggKind::Min, cv)->Ok_0);
                            }
                            Ok(out)
                        },
                        Err(e) => {
                            proof {
                                assert(spec_agg(AggKind::Min, cv) == Err::<ColV, ErrorKind>(
                                    e.kind(),
                                ));
                            }
                            Err(e)
                        },
                    },
                    AggKind::Max => match inner.max() {
                        Ok(out) => {
                            proof {
                                assert(ColV::of_series(out) =~= spec_agg(AggKind::Max, cv)->Ok_0);
                            }
                            Ok(out)
                        },
                        Err(e) => {
                            proof {
                                assert(spec_agg(AggKind::Max, cv) == Err::<ColV, ErrorKind>(
                                    e.kind(),
                                ));
                            }
                            Err(e)
                        },
                    },
                }
            },
            Expr::CastTo(a, t) => {
                let inner = a.eval(df)?;
                let out = inner.cast(t)?;
                proof {
                    assert(ColV::of_series(out).vals =~= spec_eval(self@, cols_model(df.spec_cols()))->Ok_0.vals);
                    assert(ColV::of_series(out) =~= spec_eval(self@, cols_model(df.spec_cols()))->Ok_0);
                }
                Ok(out)
            },
            Expr::NullTest(a, want) => {
                let inner = a.eval(df)?;
                let out = if *want {
                    inner.is_null()
                } else {
                    inner.is_not_null()
                };
                proof {
                    assert(ColV::of_series(out) =~= spec_eval(self@, cols_model(df.spec_cols()))->Ok_0);
                }
                Ok(out)
            },
            Expr::SelectorRef(_) => Err(
                EngineError::compute("a bare selector must be expanded against a schema"),
            ),
        }
    }

    /// The column with a name.
    pub fn col(name: &str) -> (e: Expr)
        ensures
            e@ == ExprV::Column(name@),
    {
        Expr::Column(name.to_owned())
    }

    /// A one-cell 64-bit integer literal.
    pub fn lit_i64(v: i64) -> (e: Expr)
        ensures
            e@ == ExprV::Literal(DTypeV::Int64, Val::Int(v as int)),
    {
        Expr::Literal(LogicalType::Int64, AnyVal::Int(v))
    }

    /// A one-cell boolean literal.
    pub fn lit_bool(v: bool) -> (e: Expr)
        ensures
            e@ == ExprV::Literal(DTypeV::Boolean, Val::Bool(v)),
    {
        Expr::Literal(LogicalType::Boolean, AnyVal::Bool(v))
    }

    /// A one-cell string literal.
    pub fn lit_str(v: &str) -> (e: Expr)
        ensures
            e@ == ExprV::Literal(DTypeV::Str, Val::Text(v@)),
    {
        Expr::Literal(LogicalType::Str, AnyVal::Text(v.to_owned()))
    }
}

impl Selector {
    /// Embeds a selector as an expression, to be expanded where a
    /// multi-column context consumes it.
    pub fn into_expr(self) -> (e: Expr)
        ensures
            e@ == ExprV::SelectorRef(self@),
    {
        Expr::SelectorRef(self)
    }
}

} // verus!
