//! Eager table operators: row masking, slicing, projection. Each operator
//! builds a new table whose model is given exactly by a spec function; the
//! lazy plan's `collect` composes these.

use vstd::prelude::*;

use crate::dtype::DTypeV;
use crate::error::EngineError;
use crate::error::ErrorKind;
use crate::expr::col_index_m;
use crate::expr::cols_model;
use crate::expr::lemma_col_index_m;
use crate::expr::lemma_col_index_model;
use crate::expr::spec_eval;
use crate::expr::ColV;
use crate::expr::Expr;
use crate::expr::ExprV;
use crate::frame::frame_wf;
use crate::frame::DataFrame;
use crate::selector::names_view;
use crate::selector::spec_resolve;
use crate::selector::spec_sel_valid;
use crate::selector::SelV;
use crate::series::Series;
use crate::value::lemma_vals_view;
use crate::value::val_matches_dtype;
use crate::value::vals_view;
use crate::value::AnyVal;
use crate::value::Val;

verus! {

broadcast use vstd::std_specs::vec::group_vec_axioms;

/// The cells kept by a Boolean mask: cell `i` stays iff the mask's cell
/// `i` is true (a null mask cell drops the row).
pub open spec fn spec_mask_keep(vals: Seq<Val>, mask: Seq<Val>) -> Seq<Val>
    decreases vals,
{
    if vals.len() == 0 {
        Seq::empty()
    } else {
        let prefix = spec_mask_keep(vals.drop_last(), mask.drop_last());
        if mask.last() == Val::Bool(true) {
            prefix.push(vals.last())
        } else {
            prefix
        }
    }
}

/// How many rows a mask keeps.
pub open spec fn spec_mask_count(mask: Seq<Val>) -> nat
    decreases mask,
{
    if mask.len() == 0 {
        0
    } else {
        spec_mask_count(mask.drop_last()) + (if mask.last() == Val::Bool(true) {
            1nat
        } else {
            0nat
        })
    }
}

/// A mask keeps the same number of cells from every equally long column.
pub proof fn lemma_mask_keep_len(vals: Seq<Val>, mask: Seq<Val>)
    requires
        vals.len() == mask.len(),
    ensures
        spec_mask_keep(vals, mask).len() == spec_mask_count(mask),
    decreases vals,
{
    if vals.len() > 0 {
        lemma_mask_keep_len(vals.drop_last(), mask.drop_last());
    }
}

/// A column broadcast to a height: a length-1 column repeats its cell.
pub open spec fn spec_broadcast(vals: Seq<Val>, h: nat) -> Seq<Val> {
    if vals.len() == h {
        vals
    } else {
        Seq::new(h, |i: int| vals[0])
    }
}

impl Series {
    /// The cells kept by a Boolean mask, as a new column.
    #[verifier::loop_isolation(false)]
    pub fn filter_by_mask(&self, mask: &Series) -> (r: Series)
        requires
            self.wf(),
            mask.spec_vals().len() == self.spec_vals().len(),
        ensures
            r.spec_name() == self.spec_name(),
            r.spec_dtype() == self.spec_dtype(),
            r.spec_vals() == spec_mask_keep(self.spec_vals(), mask.spec_vals()),
            r.wf(),
    {
        let n = self.len();
        let mut out: Vec<AnyVal> = Vec::new();
        let mut i: usize = 0;
        proof {
            let ghost vs = self.spec_vals();
            let ghost ms = mask.spec_vals();
            assert(vs.take(0) =~= Seq::<Val>::empty());
            assert(ms.take(0) =~= Seq::<Val>::empty());
        }
        while i < n
            invariant
                i <= n,
                n == self.spec_vals().len(),
                vals_view(out@) == spec_mask_keep(
                    self.spec_vals().take(i as int),
                    mask.spec_vals().take(i as int),
                ),
                out@.len() == vals_view(out@).len(),
                forall|j: int|
                    0 <= j < out@.len() ==> val_matches_dtype(
                        #[trigger] vals_view(out@)[j],
                        self.spec_dtype(),
                    ),
            decreases n - i,
        {
            proof {
                let ghost vs = self.spec_vals();
                let ghost ms = mask.spec_vals();
                assert(vs.take(i + 1).drop_last() =~= vs.take(i as int));
                assert(vs.take(i + 1).last() == vs[i as int]);
                assert(ms.take(i + 1).drop_last() =~= ms.take(i as int));
                assert(ms.take(i + 1).last() == ms[i as int]);
            }
            let keep = match mask.cell(i) {
                AnyVal::Bool(b) => *b,
                _ => false,
            };
            if keep {
                let ghost old_out = out@;
                let cellv = self.cell(i).duplicate();
                out.push(cellv);
                proof {
                    assert(out@.drop_last() =~= old_out);
                    assert(out@.last()@ == self.spec_vals()[i as int]);
                    assert(vals_view(out@) == vals_view(old_out).push(self.spec_vals()[i as int]));
                    lemma_vals_view(out@);
                }
            }
            i = i + 1;
        }
        proof {
            assert(self.spec_vals().take(n as int) =~= self.spec_vals());
            assert(mask.spec_vals().take(n as int) =~= mask.spec_vals());
            lemma_vals_view(out@);
        }
        let name: String = self.name().to_owned();
        Series::from_checked(name, self.dtype().duplicate(), out)
    }

    /// The first `n` cells (all of them when `n` exceeds the length).
    #[verifier::loop_isolation(false)]
    pub fn take_prefix(&self, n: usize) -> (r: Series)
        requires
            self.wf(),
        ensures
            r.spec_name() == self.spec_name(),
            r.spec_dtype() == self.spec_dtype(),
            r.spec_vals() == self.spec_vals().take(spec_min_int(n as int, self.spec_vals().len() as int)),
            r.wf(),
    {
        let len = self.len();
        let m = if n < len {
            n
        } else {
            len
        };
        let mut out: Vec<AnyVal> = Vec::new();
        let mut i: usize = 0;
        while i < m
            invariant
                i <= m,
                m <= self.spec_vals().len(),
                out.len() == i,
                forall|j: int| 0 <= j < i ==> (#[trigger] out@[j])@ == self.spec_vals()[j],
            decreases m - i,
        {
            out.push(self.cell(i).duplicate());
            i = i + 1;
        }
        proof {
            lemma_vals_view(out@);
            assert(vals_view(out@) =~= self.spec_vals().take(
                spec_min_int(n as int, self.spec_vals().len() as int),
            ));
        }
        let name: String = self.name().to_owned();
        Series::from_checked(name, self.dtype().duplicate(), out)
    }

    /// The last `n` cells.
    #[verifier::loop_isolation(false)]
    pub fn take_suffix(&self, n: usize) -> (r: Series)
        requires
            self.wf(),
        ensures
            r.spec_name() == self.spec_name(),
            r.spec_dtype() == self.spec_dtype(),
            r.spec_vals() == self.spec_vals().skip(
                self.spec_vals().len() - spec_min_int(n as int, self.spec_vals().len() as int),
            ),
            r.wf(),
    {
        let len = self.len();
        let m = if n < len {
            n
        } else {
            len
        };
        let start = len - m;
        let mut out: Vec<AnyVal> = Vec::new();
        let mut i: usize = start;
        while i < len
            invariant
                start <= i <= len,
                len == self.spec_vals().len(),
                out.len() == i - start,
                forall|j: int|
                    0 <= j < i - start ==> (#[trigger] out@[j])@ == self.spec_vals()[start + j],
            decreases len - i,
        {
            out.push(self.cell(i).duplicate());
            i = i + 1;
        }
        proof {
            lemma_vals_view(out@);
            assert(vals_view(out@) =~= self.spec_vals().skip(
                self.spec_vals().len() - spec_min_int(n as int, self.spec_vals().len() as int),
            ));
        }
        let name: String = self.name().to_owned();
        Series::from_checked(name, self.dtype().duplicate(), out)
    }

    /// The column broadcast to a height: a length-1 column repeats.
    #[verifier::loop_isolation(false)]
    pub fn broadcast_to(&self, h: usize) -> (r: Series)
        requires
            self.wf(),
            self.spec_vals().len() == h || self.spec_vals().len() == 1,
        ensures
            r.spec_name() == self.spec_name(),
            r.spec_dtype() == self.spec_dtype(),
            r.spec_vals() == spec_broadcast(self.spec_vals(), h as nat),
            r.spec_vals().len() == h,
            r.wf(),
    {
        if self.len() == h {
            let r = self.duplicate();
            return r;
        }
        let mut out: Vec<AnyVal> = Vec::new();
        let mut i: usize = 0;
        while i < h
            invariant
                i <= h,
                out.len() == i,
                forall|j: int| 0 <= j < i ==> (#[trigger] out@[j])@ == self.spec_vals()[0],
            decreases h - i,
        {
            out.push(self.cell(0).duplicate());
            i = i + 1;
        }
        proof {
            lemma_vals_view(out@);
            assert(vals_view(out@) =~= spec_broadcast(self.spec_vals(), h as nat));
        }
        let name: String = self.name().to_owned();
        Series::from_checked(name, self.dtype().duplicate(), out)
    }
}

/// The smaller of two integers.
pub open spec fn spec_min_int(a: int, b: int) -> int {
    if a < b {
        a
    } else {
        b
    }
}

/// The model of a filtered table: every column masked alike.
pub open spec fn spec_filter_frame(cols: Seq<ColV>, mask: Seq<Val>) -> Seq<ColV> {
    cols.map_values(
        |c: ColV| ColV { name: c.name, dtype: c.dtype, vals: spec_mask_keep(c.vals, mask) },
    )
}

/// The model of a row-sliced table: every column takes the same prefix.
pub open spec fn spec_limit_frame(cols: Seq<ColV>, n: int) -> Seq<ColV> {
    cols.map_values(
        |c: ColV|
            ColV {
                name: c.name,
                dtype: c.dtype,
                vals: c.vals.take(spec_min_int(n, c.vals.len() as int)),
            },
    )
}

/// The model of the last rows of a table.
pub open spec fn spec_tail_frame(cols: Seq<ColV>, n: int) -> Seq<ColV> {
    cols.map_values(
        |c: ColV|
            ColV {
                name: c.name,
                dtype: c.dtype,
                vals: c.vals.skip(c.vals.len() - spec_min_int(n, c.vals.len() as int)),
            },
    )
}

impl DataFrame {
    /// The model of this table.
    pub open spec fn model(&self) -> Seq<ColV> {
        cols_model(self.spec_cols())
    }

    /// Keeps the rows where a Boolean mask column is true; the mask must
    /// be Boolean-typed (else a type error) and of the table's height or
    /// length one, broadcast (else a shape error). A null mask cell drops
    /// its row.
    #[verifier::loop_isolation(false)]
    pub fn filter_rows(&self, mask: &Series) -> (r: Result<DataFrame, EngineError>)
        requires
            self.wf(),
            mask.wf(),
        ensures
            match r {
                Ok(out) => {
                    &&& mask.spec_dtype() is Boolean
                    &&& mask.spec_vals().len() == self.spec_height() || mask.spec_vals().len() == 1
                    &&& out.model() == spec_filter_frame(
                        self.model(),
                        spec_broadcast(mask.spec_vals(), self.spec_height()),
                    )
                    &&& out.wf()
                },
                Err(e) => {
                    &&& !(mask.spec_dtype() is Boolean && (mask.spec_vals().len()
                        == self.spec_height() || mask.spec_vals().len() == 1))
                    &&& e.kind() == (if mask.spec_dtype() is Boolean {
                        ErrorKind::Shape
                    } else {
                        ErrorKind::Type
                    })
                },
            },
    {
        if mask.dtype().kind_of() != 1 {
            return Err(EngineError::type_error("filter mask must be a boolean column"));
        }
        let h = self.height();
        if !(mask.len() == h || mask.len() == 1) {
            return Err(EngineError::shape("filter mask length must equal the table height"));
        }
        let bmask = mask.broadcast_to(h);
        let w = self.width();
        let mut out: Vec<Series> = Vec::new();
        let mut c: usize = 0;
        while c < w
            invariant
                c <= w,
                w == self.spec_cols().len(),
                out.len() == c,
                forall|j: int|
                    0 <= j < c ==> crate::expr::ColV::of_series(#[trigger] out@[j])
                        == spec_filter_frame(
                        self.model(),
                        spec_broadcast(mask.spec_vals(), self.spec_height()),
                    )[j],
                forall|j: int| 0 <= j < c ==> (#[trigger] out@[j]).wf(),
                forall|j: int|
                    0 <= j < c ==> (#[trigger] out@[j]).spec_vals().len() == spec_mask_count(
                        spec_broadcast(mask.spec_vals(), self.spec_height()),
                    ),
            decreases w - c,
        {
            let col = match self.column_at(c) {
                Some(s) => s,
                None => {
                    proof {
                        assert(false);
                    }
                    return Err(EngineError::compute("column index out of range"));
                },
            };
            let filtered = col.filter_by_mask(&bmask);
            proof {
                lemma_mask_keep_len(col.spec_vals(), bmask.spec_vals());
                assert(self.model()[c as int] == ColV::of_series(self.spec_cols()[c as int]));
            }
            out.push(filtered);
            c = c + 1;
        }
        proof {
            assert(frame_wf(out@)) by {
                if out@.len() > 0 {
                    assert(crate::frame::frame_height(out@) == out@[0].spec_vals().len());
                }
            }
        }
        let df = DataFrame::from_checked(out);
        proof {
            assert(df.model() =~= spec_filter_frame(
                self.model(),
                spec_broadcast(mask.spec_vals(), self.spec_height()),
            ));
        }
        Ok(df)
    }

    /// The first `n` rows.
    #[verifier::loop_isolation(false)]
    pub fn head_rows(&self, n: usize) -> (r: DataFrame)
        requires
            self.wf(),
        ensures
            r.model() == spec_limit_frame(self.model(), n as int),
            r.wf(),
    {
        let w = self.width();
        let mut out: Vec<Series> = Vec::new();
        let mut c: usize = 0;
        while c < w
            invariant
                c <= w,
                w == self.spec_cols().len(),
                out.len() == c,
                forall|j: int|
                    0 <= j < c ==> crate::expr::ColV::of_series(#[trigger] out@[j])
                        == spec_limit_frame(self.model(), n as int)[j],
                forall|j: int| 0 <= j < c ==> (#[trigger] out@[j]).wf(),
                forall|j: int|
                    0 <= j < c ==> (#[trigger] out@[j]).spec_vals().len() == spec_min_int(
                        n as int,
                        self.spec_height() as int,
                    ),
            decreases w - c,
        {
            let col = match self.column_at(c) {
                Some(s) => s,
                None => {
                    proof {
                        assert(false);
                    }
                    return DataFrame::empty();
                },
            };
            let taken = col.take_prefix(n);
            proof {
                assert(self.model()[c as int] == ColV::of_series(self.spec_cols()[c as int]));
            }
            out.push(taken);
            c = c + 1;
        }
        proof {
            assert(frame_wf(out@)) by {
                if out@.len() > 0 {
                    assert(crate::frame::frame_height(out@) == out@[0].spec_vals().len());
                }
            }
        }
        let df = DataFrame::from_checked(out);
        proof {
            assert(df.model() =~= spec_limit_frame(self.model(), n as int));
        }
        df
    }

    /// The last `n` rows.
    #[verifier::loop_isolation(false)]
    pub fn tail_rows(&self, n: usize) -> (r: DataFrame)
        requires
            self.wf(),
        ensures
            r.model() == spec_tail_frame(self.model(), n as int),
            r.wf(),
    {
        let w = self.width();
        let mut out: Vec<Series> = Vec::new();
        let mut c: usize = 0;
        while c < w
            invariant
                c <= w,
                w == self.spec_cols().len(),
                out.len() == c,
                forall|j: int|
                    0 <= j < c ==> crate::expr::ColV::of_series(#[trigger] out@[j])
                        == spec_tail_frame(self.model(), n as int)[j],
                forall|j: int| 0 <= j < c ==> (#[trigger] out@[j]).wf(),
                forall|j: int|
                    0 <= j < c ==> (#[trigger] out@[j]).spec_vals().len() == spec_min_int(
                        n as int,
                        self.spec_height() as int,
                    ),
            decreases w - c,
        {
            let col = match self.column_at(c) {
                Some(s) => s,
                None => {
                    proof {
                        assert(false);
                    }
                    return DataFrame::empty();
                },
            };
            let taken = col.take_suffix(n);
            proof {
                assert(self.model()[c as int] == ColV::of_series(self.spec_cols()[c as int]));
            }
            out.push(taken);
            c = c + 1;
        }
        proof {
            assert(frame_wf(out@)) by {
                if out@.len() > 0 {
                    assert(crate::frame::frame_height(out@) == out@[0].spec_vals().len());
                }
            }
        }
        let df = DataFrame::from_checked(out);
        proof {
            assert(df.model() =~= spec_tail_frame(self.model(), n as int));
        }
        df
    }
}

// ------------------------------------------------------------------
// Projection: select and with_columns
// ------------------------------------------------------------------
/// The models of an expression list.
pub open spec fn exprs_view(es: Seq<Expr>) -> Seq<ExprV>
    decreases es,
{
    if es.len() == 0 {
        Seq::empty()
    } else {
        exprs_view(es.drop_last()).push(crate::expr::expr_view(&es.last()))
    }
}

/// Pointwise characterization of `exprs_view`.
pub proof fn lemma_exprs_view(es: Seq<Expr>)
    ensures
        exprs_view(es).len() == es.len(),
        forall|i: int|
            0 <= i < es.len() ==> #[trigger] exprs_view(es)[i] == crate::expr::expr_view(&es[i]),
    decreases es,
{
    if es.len() > 0 {
        lemma_exprs_view(es.drop_last());
    }
}

/// The schema entries of a model table.
pub open spec fn entries_of(cols: Seq<ColV>) -> Seq<(Seq<char>, DTypeV)> {
    cols.map_values(|c: ColV| (c.name, c.dtype))
}

/// The columns named by a list of schema names (each name must occur).
pub open spec fn cols_by_names(cols: Seq<ColV>, names: Seq<Seq<char>>) -> Seq<ColV> {
    names.map_values(
        |n: Seq<char>|
            match col_index_m(cols, n) {
                Some(i) => cols[i],
                None => ColV { name: n, dtype: DTypeV::Null, vals: Seq::empty() },
            },
    )
}

/// Every name a selector resolves to names an entry of the schema.
pub proof fn lemma_resolve_found(s: SelV, entries: Seq<(Seq<char>, DTypeV)>)
    ensures
        forall|i: int|
            0 <= i < spec_resolve(s, entries).len() ==> exists|j: int|
                0 <= j < entries.len() && (#[trigger] entries[j]).0 == #[trigger] spec_resolve(
                    s,
                    entries,
                )[i],
    decreases entries,
{
    if entries.len() > 0 {
        lemma_resolve_found(s, entries.drop_last());
        let prefix = spec_resolve(s, entries.drop_last());
        assert forall|i: int| 0 <= i < spec_resolve(s, entries).len() implies exists|j: int|
            0 <= j < entries.len() && (#[trigger] entries[j]).0 == #[trigger] spec_resolve(
                s,
                entries,
            )[i] by {
            if i < prefix.len() {
                let j = choose|j: int|
                    0 <= j < entries.drop_last().len() && (#[trigger] entries.drop_last()[j]).0
                        == prefix[i];
                assert(entries[j].0 == spec_resolve(s, entries)[i]);
            } else {
                assert(entries[entries.len() - 1].0 == spec_resolve(s, entries)[i]);
            }
        }
    }
}

/// The columns one expression contributes: a selector expands to the
/// matching columns in schema order; any other expression evaluates to one
/// column.
pub open spec fn spec_eval_multi(e: ExprV, cols: Seq<ColV>) -> Result<Seq<ColV>, ErrorKind> {
    match e {
        ExprV::SelectorRef(s) => {
            if spec_sel_valid(s) {
                Ok(cols_by_names(cols, spec_resolve(s, entries_of(cols))))
            } else {
                Err(ErrorKind::Compute)
            }
        },
        _ => match spec_eval(e, cols) {
            Ok(c) => Ok(seq![c]),
            Err(k) => Err(k),
        },
    }
}

/// The columns an expression list contributes, left to right; the first
/// error wins.
pub open spec fn spec_select_cols(es: Seq<ExprV>, cols: Seq<ColV>) -> Result<Seq<ColV>, ErrorKind>
    decreases es,
{
    if es.len() == 0 {
        Ok(Seq::empty())
    } else {
        match spec_select_cols(es.drop_last(), cols) {
            Err(k) => Err(k),
            Ok(prefix) => match spec_eval_multi(es.last(), cols) {
                Err(k) => Err(k),
                Ok(more) => Ok(prefix + more),
            },
        }
    }
}

/// An error in a prefix of the expression list is the whole list's error.
pub proof fn lemma_select_cols_prefix_err(es: Seq<ExprV>, cols: Seq<ColV>, j: int)
    requires
        0 <= j <= es.len(),
        spec_select_cols(es.take(j), cols) is Err,
    ensures
        spec_select_cols(es, cols) == spec_select_cols(es.take(j), cols),
    decreases es.len() - j,
{
    if j < es.len() {
        assert(es.take(j + 1).drop_last() =~= es.take(j));
        lemma_select_cols_prefix_err(es, cols, j + 1);
    } else {
        assert(es.take(j) =~= es);
    }
}

/// The greatest column length in a list.
pub open spec fn spec_max_len(outs: Seq<ColV>) -> nat
    decreases outs,
{
    if outs.len() == 0 {
        0
    } else {
        let rest = spec_max_len(outs.drop_last());
        if outs.last().vals.len() > rest {
            outs.last().vals.len()
        } else {
            rest
        }
    }
}

/// The model of `select`: evaluate the expressions independently, then
/// assemble a frame of the common height, broadcasting length-1 columns;
/// a column of any other length is a shape error, and duplicate output
/// names are a schema error.
pub open spec fn spec_select(es: Seq<ExprV>, cols: Seq<ColV>) -> Result<Seq<ColV>, ErrorKind> {
    match spec_select_cols(es, cols) {
        Err(k) => Err(k),
        Ok(outs) => {
            let h = spec_max_len(outs);
            if !(forall|i: int|
                0 <= i < outs.len() ==> (#[trigger] outs[i]).vals.len() == h || outs[i].vals.len()
                    == 1) {
                Err(ErrorKind::Shape)
            } else if !crate::schema::names_unique(entries_of(outs)) {
                Err(ErrorKind::Schema)
            } else {
                Ok(
                    outs.map_values(
                        |c: ColV|
                            ColV { name: c.name, dtype: c.dtype, vals: spec_broadcast(c.vals, h) },
                    ),
                )
            }
        },
    }
}

impl DataFrame {
    /// Evaluates each expression (expanding selectors against this table's
    /// schema) into a list of columns, without assembling a frame.
    #[verifier::loop_isolation(false)]
    fn eval_exprs(&self, exprs: &Vec<Expr>) -> (r: Result<Vec<Series>, EngineError>)
        requires
            self.wf(),
        ensures
            match r {
                Ok(outs) => {
                    &&& spec_select_cols(exprs_view(exprs@), self.model()) matches Ok(ocols)
                    &&& cols_model(outs@) == spec_select_cols(
                        exprs_view(exprs@),
                        self.model(),
                    )->Ok_0
                    &&& forall|i: int| 0 <= i < outs@.len() ==> (#[trigger] outs@[i]).wf()
                },
                Err(e) => spec_select_cols(exprs_view(exprs@), self.model()) matches Err(k) && k
                    == e.kind(),
            },
    {
        let n = exprs.len();
        let mut out: Vec<Series> = Vec::new();
        let mut i: usize = 0;
        proof {
            lemma_exprs_view(exprs@);
            assert(exprs_view(exprs@).take(0) =~= Seq::<ExprV>::empty());
            assert(cols_model(out@) =~= Seq::<ColV>::empty());
        }
        while i < n
            invariant
                i <= n,
                n == exprs@.len(),
                spec_select_cols(exprs_view(exprs@).take(i as int), self.model()) matches Ok(p)
                    && p == cols_model(out@),
                forall|j: int| 0 <= j < out@.len() ==> (#[trigger] out@[j]).wf(),
            decreases n - i,
        {
            proof {
                let ghost ev = exprs_view(exprs@);
                assert(ev.take(i + 1).drop_last() =~= ev.take(i as int));
                assert(ev.take(i + 1).last() == ev[i as int]);
            }
            let e = &exprs[i];
            match e {
                Expr::SelectorRef(sel) => {
                    let schema = self.schema();
                    proof {
                        assert(schema.spec_entries() =~= entries_of(self.model()));
                        lemma_resolve_found(sel@, entries_of(self.model()));
                    }
                    let names = match sel.resolve(&schema) {
                        Ok(ns) => ns,
                        Err(err) => {
                            proof {
                                let ghost ev = exprs_view(exprs@);
                                assert(spec_select_cols(ev.take(i + 1), self.model())
                                    == Err::<Seq<ColV>, ErrorKind>(ErrorKind::Compute));
                                lemma_select_cols_prefix_err(ev, self.model(), i + 1);
                            }
                            return Err(err);
                        },
                    };
                    let ghost resolved = spec_resolve(sel@, entries_of(self.model()));
                    let m = names.len();
                    let mut k: usize = 0;
                    while k < m
                        invariant
                            k <= m,
                            m == names@.len(),
                            names_view(names@) == resolved,
                            resolved.len() == m,
                            forall|q: int|
                                0 <= q < resolved.len() ==> exists|j: int|
                                    0 <= j < entries_of(self.model()).len() && (
                                    #[trigger] entries_of(self.model())[j]).0
                                        == #[trigger] resolved[q],
                            cols_model(out@) == spec_select_cols(
                                exprs_view(exprs@).take(i as int),
                                self.model(),
                            )->Ok_0 + cols_by_names(self.model(), resolved).take(k as int),
                            forall|j: int| 0 <= j < out@.len() ==> (#[trigger] out@[j]).wf(),
                        decreases m - k,
                    {
                        proof {
                            crate::selector::lemma_names_view(names@);
                            assert(resolved[k as int] == names@[k as int]@);
                            lemma_col_index_m(self.model(), resolved[k as int]);
                            lemma_col_index_model(self.spec_cols(), resolved[k as int]);
                            crate::frame::lemma_col_index(self.spec_cols(), resolved[k as int]);
                        }
                        let col = match self.column(names[k].as_str()) {
                            Ok(c) => c,
                            Err(_) => {
                                proof {
                                    let ghost q = k as int;
                                    assert(exists|j: int|
                                        0 <= j < entries_of(self.model()).len() && (
                                        #[trigger] entries_of(self.model())[j]).0 == resolved[q]);
                                    let ghost j = choose|j: int|
                                        0 <= j < entries_of(self.model()).len() && (
                                        #[trigger] entries_of(self.model())[j]).0 == resolved[q];
                                    assert(self.model()[j].name == resolved[q]);
                                    assert(false);
                                }
                                return Err(EngineError::compute("selector name not in schema"));
                            },
                        };
                        proof {
                            assert(col.wf());
                        }
                        let dup = col.duplicate();
                        let ghost old_out = out@;
                        out.push(dup);
                        proof {
                            assert(out@.drop_last() =~= old_out);
                            assert(cols_model(out@) =~= cols_model(old_out).push(
                                ColV::of_series(out@.last()),
                            ));
                            assert(cols_by_names(self.model(), resolved).take(k + 1)
                                =~= cols_by_names(self.model(), resolved).take(k as int).push(
                                cols_by_names(self.model(), resolved)[k as int],
                            ));
                            assert(cols_model(out@) =~= spec_select_cols(
                                exprs_view(exprs@).take(i as int),
                                self.model(),
                            )->Ok_0 + cols_by_names(self.model(), resolved).take(k + 1));
                        }
                        k = k + 1;
                    }
                    proof {
                        assert(cols_by_names(self.model(), resolved).take(m as int)
                            =~= cols_by_names(self.model(), resolved));
                        assert(spec_eval_multi(exprs_view(exprs@)[i as int], self.model())
                            == Ok::<Seq<ColV>, ErrorKind>(cols_by_names(self.model(), resolved)));
                    }
                },
                _ => {
                    proof {
                        assert(spec_eval_multi(exprs_view(exprs@)[i as int], self.model())
                            == (match spec_eval(exprs_view(exprs@)[i as int], self.model()) {
                            Ok(c) => Ok::<Seq<ColV>, ErrorKind>(seq![c]),
                            Err(k) => Err::<Seq<ColV>, ErrorKind>(k),
                        }));
                    }
                    let s = match e.eval(self) {
                        Ok(s) => s,
                        Err(err) => {
                            proof {
                                let ghost ev = exprs_view(exprs@);
                                assert(spec_select_cols(ev.take(i + 1), self.model())
                                    == Err::<Seq<ColV>, ErrorKind>(err.kind()));
                                lemma_select_cols_prefix_err(ev, self.model(), i + 1);
                            }
                            return Err(err);
                        },
                    };
                    let ghost old_out = out@;
                    out.push(s);
                    proof {
                        assert(out@.drop_last() =~= old_out);
                        assert(cols_model(out@) =~= cols_model(old_out).push(
                            ColV::of_series(out@.last()),
                        ));
                        assert(cols_model(out@) =~= spec_select_cols(
                            exprs_view(exprs@).take(i as int),
                            self.model(),
                        )->Ok_0 + seq![ColV::of_series(out@.last())]);
                    }
                },
            }
            i = i + 1;
        }
        proof {
            assert(exprs_view(exprs@).take(n as int) =~= exprs_view(exprs@));
        }
        Ok(out)
    }

    /// Projects the table: each expression is evaluated independently
    /// (selectors expand against this table's schema), and the resulting
    /// columns are assembled into a frame of their common height, with
    /// length-1 columns broadcast.
    #[verifier::loop_isolation(false)]
    pub fn select_exprs(&self, exprs: &Vec<Expr>) -> (r: Result<DataFrame, EngineError>)
        requires
            self.wf(),
        ensures
            match r {
                Ok(out) => spec_select(exprs_view(exprs@), self.model()) matches Ok(f) && f
                    == out.model() && out.wf(),
                Err(e) => spec_select(exprs_view(exprs@), self.model()) matches Err(k) && k
                    == e.kind(),
            },
    {
        let outs = self.eval_exprs(exprs)?;
        let ghost ocols = cols_model(outs@);
        // the common height: the greatest column length
        let n = outs.len();
        let mut h: usize = 0;
        let mut i: usize = 0;
        proof {
            assert(ocols.take(0) =~= Seq::<ColV>::empty());
        }
        while i < n
            invariant
                i <= n,
                n == outs@.len(),
                ocols == cols_model(outs@),
                h == spec_max_len(ocols.take(i as int)),
            decreases n - i,
        {
            proof {
                assert(ocols.take(i + 1).drop_last() =~= ocols.take(i as int));
                assert(ocols.take(i + 1).last() == ocols[i as int]);
            }
            let li = outs[i].len();
            if li > h {
                h = li;
            }
            i = i + 1;
        }
        proof {
            assert(ocols.take(n as int) =~= ocols);
        }
        let mut j: usize = 0;
        while j < n
            invariant
                j <= n,
                n == outs@.len(),
                ocols == cols_model(outs@),
                h == spec_max_len(ocols),
                forall|q: int|
                    0 <= q < j ==> (#[trigger] ocols[q]).vals.len() == h || ocols[q].vals.len()
                        == 1,
                forall|q: int| 0 <= q < outs@.len() ==> (#[trigger] outs@[q]).wf(),
            decreases n - j,
        {
            let lj = outs[j].len();
            if !(lj == h || lj == 1) {
                proof {
                    assert(ocols[j as int].vals.len() != h && ocols[j as int].vals.len() != 1);
                }
                return Err(EngineError::shape("selected columns differ in height"));
            }
            j = j + 1;
        }
        // unique output names
        let mut a: usize = 0;
        while a < n
            invariant
                a <= n,
                n == outs@.len(),
                ocols == cols_model(outs@),
                forall|x: int, y: int|
                    0 <= x < y < n && x < a ==> (#[trigger] ocols[x]).name != (
                    #[trigger] ocols[y]).name,
            decreases n - a,
        {
            let mut b: usize = a + 1;
            while b < n
                invariant
                    a < b <= n,
                    n == outs@.len(),
                    ocols == cols_model(outs@),
                    forall|y: int| a < y < b ==> (#[trigger] ocols[y]).name != ocols[a as int].name,
                decreases n - b,
            {
                if outs[a].name().to_owned().eq(&outs[b].name().to_owned()) {
                    proof {
                        assert(entries_of(ocols)[a as int].0 == entries_of(ocols)[b as int].0);
                        assert(!crate::schema::names_unique(entries_of(ocols)));
                    }
                    return Err(EngineError::schema("duplicate output column name"));
                }
                b = b + 1;
            }
            a = a + 1;
        }
        proof {
            assert(crate::schema::names_unique(entries_of(ocols))) by {
                assert forall|x: int, y: int|
                    0 <= x < y < entries_of(ocols).len() implies (#[trigger] entries_of(ocols)[x]).0
                    != (#[trigger] entries_of(ocols)[y]).0 by {
                    assert(ocols[x].name != ocols[y].name);
                }
            }
        }
        // broadcast and assemble
        let mut cols: Vec<Series> = Vec::new();
        let mut c: usize = 0;
        let ghost target = spec_select(exprs_view(exprs@), self.model())->Ok_0;
        while c < n
            invariant
                c <= n,
                n == outs@.len(),
                ocols == cols_model(outs@),
                h == spec_max_len(ocols),
                forall|q: int|
                    0 <= q < n ==> (#[trigger] ocols[q]).vals.len() == h || ocols[q].vals.len()
                        == 1,
                forall|q: int| 0 <= q < outs@.len() ==> (#[trigger] outs@[q]).wf(),
                target == spec_select(exprs_view(exprs@), self.model())->Ok_0,
                target.len() == n,
                forall|q: int|
                    0 <= q < n ==> #[trigger] target[q] == (ColV {
                        name: ocols[q].name,
                        dtype: ocols[q].dtype,
                        vals: spec_broadcast(ocols[q].vals, h as nat),
                    }),
                cols.len() == c,
                forall|q: int|
                    0 <= q < c ==> ColV::of_series(#[trigger] cols@[q]) == target[q],
                forall|q: int| 0 <= q < c ==> (#[trigger] cols@[q]).wf(),
                forall|q: int| 0 <= q < c ==> (#[trigger] cols@[q]).spec_vals().len() == h,
            decreases n - c,
        {
            proof {
                assert(ocols[c as int] == ColV::of_series(outs@[c as int]));
            }
            let bc = outs[c].broadcast_to(h);
            cols.push(bc);
            c = c + 1;
        }
        proof {
            assert(frame_wf(cols@)) by {
                if cols@.len() > 0 {
                    assert(crate::frame::frame_height(cols@) == cols@[0].spec_vals().len());
                }
                assert forall|x: int, y: int|
                    0 <= x < y < cols@.len() implies (#[trigger] cols@[x]).spec_name() != (
                #[trigger] cols@[y]).spec_name() by {
                    assert(ColV::of_series(cols@[x]).name == ocols[x].name);
                    assert(ColV::of_series(cols@[y]).name == ocols[y].name);
                }
            }
        }
        let df = DataFrame::from_checked(cols);
        proof {
            assert(df.model() =~= target);
        }
        Ok(df)
    }
}

// ------------------------------------------------------------------
// with_columns and concatenation
// ------------------------------------------------------------------
/// The height of a model table.
pub open spec fn model_height(cols: Seq<ColV>) -> nat {
    if cols.len() == 0 {
        0
    } else {
        cols[0].vals.len()
    }
}

/// Merging one column: a known name is replaced in place, a new name is
/// appended.
pub open spec fn spec_merge_col(cols: Seq<ColV>, c: ColV) -> Seq<ColV> {
    match col_index_m(cols, c.name) {
        Some(i) => cols.update(i, c),
        None => cols.push(c),
    }
}

/// Merging a list of columns, left to right.
pub open spec fn spec_merge_cols(cols: Seq<ColV>, outs: Seq<ColV>) -> Seq<ColV>
    decreases outs,
{
    if outs.len() == 0 {
        cols
    } else {
        spec_merge_col(spec_merge_cols(cols, outs.drop_last()), outs.last())
    }
}

/// The model of `with_columns`: the evaluated columns, broadcast to the
/// table's height, merged into the table by name.
pub open spec fn spec_with_columns(es: Seq<ExprV>, cols: Seq<ColV>) -> Result<
    Seq<ColV>,
    ErrorKind,
> {
    match spec_select_cols(es, cols) {
        Err(k) => Err(k),
        Ok(outs) => {
            let h = if cols.len() == 0 {
                spec_max_len(outs)
            } else {
                model_height(cols)
            };
            if !(forall|i: int|
                0 <= i < outs.len() ==> (#[trigger] outs[i]).vals.len() == h || outs[i].vals.len()
                    == 1) {
                Err(ErrorKind::Shape)
            } else {
                Ok(
                    spec_merge_cols(
                        cols,
                        outs.map_values(
                            |c: ColV|
                                ColV {
                                    name: c.name,
                                    dtype: c.dtype,
                                    vals: spec_broadcast(c.vals, h),
                                },
                        ),
                    ),
                )
            }
        },
    }
}

impl DataFrame {
    /// Adds or replaces columns: each expression is evaluated against this
    /// table (selectors expand against its schema), broadcast to the
    /// table's height, and merged by name — a known name keeps its
    /// position and takes the new column, a new name appends.
    #[verifier::loop_isolation(false)]
    pub fn with_columns_exprs(&self, exprs: &Vec<Expr>) -> (r: Result<DataFrame, EngineError>)
        requires
            self.wf(),
        ensures
            match r {
                Ok(out) => spec_with_columns(exprs_view(exprs@), self.model()) matches Ok(f) && f
                    == out.model() && out.wf(),
                Err(e) => spec_with_columns(exprs_view(exprs@), self.model()) matches Err(k) && k
                    == e.kind(),
            },
    {
        let outs = self.eval_exprs(exprs)?;
        let ghost ocols = cols_model(outs@);
        let n = outs.len();
        let h: usize = if self.width() == 0 {
            let mut hh: usize = 0;
            let mut i: usize = 0;
            proof {
                assert(ocols.take(0) =~= Seq::<ColV>::empty());
            }
            while i < n
                invariant
                    i <= n,
                    n == outs@.len(),
                    ocols == cols_model(outs@),
                    hh == spec_max_len(ocols.take(i as int)),
                decreases n - i,
            {
                proof {
                    assert(ocols.take(i + 1).drop_last() =~= ocols.take(i as int));
                    assert(ocols.take(i + 1).last() == ocols[i as int]);
                }
                let li = outs[i].len();
                if li > hh {
                    hh = li;
                }
                i = i + 1;
            }
            proof {
                assert(ocols.take(n as int) =~= ocols);
            }
            hh
        } else {
            self.height()
        };
        let mut j: usize = 0;
        while j < n
            invariant
                j <= n,
                n == outs@.len(),
                ocols == cols_model(outs@),
                forall|q: int|
                    0 <= q < j ==> (#[trigger] ocols[q]).vals.len() == h || ocols[q].vals.len()
                        == 1,
            decreases n - j,
        {
            let lj = outs[j].len();
            if !(lj == h || lj == 1) {
                proof {
                    assert(ocols[j as int].vals.len() != h && ocols[j as int].vals.len() != 1);
                }
                return Err(EngineError::shape("new columns differ from the table height"));
            }
            j = j + 1;
        }
        // start from a copy of this table's columns and merge
        let w = self.width();
        let mut cols: Vec<Series> = Vec::new();
        let mut c0: usize = 0;
        while c0 < w
            invariant
                c0 <= w,
                w == self.spec_cols().len(),
                cols.len() == c0,
                forall|q: int|
                    0 <= q < c0 ==> ColV::of_series(#[trigger] cols@[q]) == self.model()[q],
                forall|q: int| 0 <= q < c0 ==> (#[trigger] cols@[q]).wf(),
            decreases w - c0,
        {
            let col = match self.column_at(c0) {
                Some(s) => s,
                None => {
                    proof {
                        assert(false);
                    }
                    return Err(EngineError::compute("column index out of range"));
                },
            };
            proof {
                assert(col.wf());
                assert(self.model()[c0 as int] == ColV::of_series(self.spec_cols()[c0 as int]));
            }
            cols.push(col.duplicate());
            c0 = c0 + 1;
        }
        proof {
            assert(cols_model(cols@) =~= self.model());
        }
        let ghost bcast_outs = ocols.map_values(
            |c: ColV| ColV { name: c.name, dtype: c.dtype, vals: spec_broadcast(c.vals, h as nat) },
        );
        let mut k: usize = 0;
        while k < n
            invariant
                k <= n,
                n == outs@.len(),
                ocols == cols_model(outs@),
                forall|q: int|
                    0 <= q < n ==> (#[trigger] ocols[q]).vals.len() == h || ocols[q].vals.len()
                        == 1,
                forall|q: int| 0 <= q < outs@.len() ==> (#[trigger] outs@[q]).wf(),
                bcast_outs == ocols.map_values(
                    |c: ColV|
                        ColV {
                            name: c.name,
                            dtype: c.dtype,
                            vals: spec_broadcast(c.vals, h as nat),
                        },
                ),
                cols_model(cols@) == spec_merge_cols(self.model(), bcast_outs.take(k as int)),
                forall|q: int| 0 <= q < cols@.len() ==> (#[trigger] cols@[q]).wf(),
                forall|q: int|
                    0 <= q < cols@.len() ==> (#[trigger] cols@[q]).spec_vals().len() == h || (
                    self.spec_cols().len() > 0 && cols@[q].spec_vals().len() == self.spec_height()),
            decreases n - k,
        {
            proof {
                assert(bcast_outs.take(k + 1).drop_last() =~= bcast_outs.take(k as int));
                assert(bcast_outs.take(k + 1).last() == bcast_outs[k as int]);
                assert(ocols[k as int] == ColV::of_series(outs@[k as int]));
            }
            let bc = outs[k].broadcast_to(h);
            // find the column with this name, if any
            let m = cols.len();
            let mut pos: usize = 0;
            let mut found = false;
            while pos < m && !found
                invariant
                    pos <= m,
                    m == cols@.len(),
                    forall|q: int|
                        0 <= q < pos ==> (#[trigger] cols_model(cols@)[q]).name != bc.spec_name(),
                    found ==> pos < m && cols_model(cols@)[pos as int].name == bc.spec_name(),
                decreases m - pos, (if found { 0int } else { 1int }),
            {
                if cols[pos].name().to_owned().eq(&bc.name().to_owned()) {
                    found = true;
                } else {
                    pos = pos + 1;
                }
            }
            proof {
                lemma_col_index_m(cols_model(cols@), bc.spec_name());
                if found {
                    crate::expr::lemma_col_index_m_first(
                        cols_model(cols@),
                        bc.spec_name(),
                        pos as int,
                    );
                } else {
                    let ghost fd = col_index_m(cols_model(cols@), bc.spec_name());
                    if fd is Some {
                        assert(cols_model(cols@)[fd->0].name != bc.spec_name());
                    }
                }
            }
            if found {
                cols.set(pos, bc);
                proof {
                    assert(cols_model(cols@) =~= spec_merge_cols(
                        self.model(),
                        bcast_outs.take(k + 1),
                    ));
                }
            } else {
                let ghost old_cols = cols@;
                cols.push(bc);
                proof {
                    assert(cols@.drop_last() =~= old_cols);
                    assert(cols_model(cols@) =~= cols_model(old_cols).push(
                        ColV::of_series(cols@.last()),
                    ));
                    assert(cols_model(cols@) =~= spec_merge_cols(
                        self.model(),
                        bcast_outs.take(k + 1),
                    ));
                }
            }
            k = k + 1;
        }
        proof {
            assert(bcast_outs.take(n as int) =~= bcast_outs);
        }
        // the merged columns all have one height and unique names
        proof {
            lemma_merge_keeps_frame(self.model(), bcast_outs, h as nat, self.spec_cols().len() > 0);
            assert(frame_wf(cols@)) by {
                let m = cols_model(cols@);
                assert forall|q: int| 0 <= q < cols@.len() implies (
                #[trigger] cols@[q]).spec_vals().len() == crate::frame::frame_height(cols@) by {
                    assert(m[q] == ColV::of_series(cols@[q]));
                    assert(m[q].vals.len() == h || m[q].vals.len() == model_height(self.model()));
                    assert(m[0] == ColV::of_series(cols@[0]));
                }
                assert forall|x: int, y: int|
                    0 <= x < y < cols@.len() implies (#[trigger] cols@[x]).spec_name() != (
                #[trigger] cols@[y]).spec_name() by {
                    assert(entries_of(m)[x].0 != entries_of(m)[y].0);
                    assert(m[x] == ColV::of_series(cols@[x]));
                    assert(m[y] == ColV::of_series(cols@[y]));
                }
            }
        }
        let df = DataFrame::from_checked(cols);
        proof {
            assert(df.model() =~= spec_merge_cols(self.model(), bcast_outs));
        }
        Ok(df)
    }
}

/// Merging broadcast columns into a well-formed table keeps the lengths
/// equal and the names unique.
pub proof fn lemma_merge_keeps_frame(cols: Seq<ColV>, outs: Seq<ColV>, h: nat, nonempty: bool)
    requires
        nonempty ==> cols.len() > 0,
        !nonempty ==> cols.len() == 0,
        forall|i: int| 0 <= i < cols.len() ==> (#[trigger] cols[i]).vals.len() == model_height(cols),
        nonempty ==> h == model_height(cols),
        forall|i: int| 0 <= i < outs.len() ==> (#[trigger] outs[i]).vals.len() == h,
        crate::schema::names_unique(entries_of(cols)),
    ensures
        forall|i: int|
            0 <= i < spec_merge_cols(cols, outs).len() ==> (#[trigger] spec_merge_cols(
                cols,
                outs,
            )[i]).vals.len() == h || (spec_merge_cols(cols, outs)[i]).vals.len() == model_height(
                cols,
            ),
        crate::schema::names_unique(entries_of(spec_merge_cols(cols, outs))),
    decreases outs,
{
    if outs.len() > 0 {
        lemma_merge_keeps_frame(cols, outs.drop_last(), h, nonempty);
        let prev = spec_merge_cols(cols, outs.drop_last());
        let c = outs.last();
        lemma_col_index_m(prev, c.name);
        let fd = col_index_m(prev, c.name);
        if fd is Some {
            let i = fd->0;
            assert forall|a: int, b: int|
                0 <= a < b < entries_of(prev.update(i, c)).len() implies (#[trigger] entries_of(
                prev.update(i, c),
            )[a]).0 != (#[trigger] entries_of(prev.update(i, c))[b]).0 by {
                assert(entries_of(prev)[a].0 != entries_of(prev)[b].0);
                if a == i {
                    assert(prev[i].name == c.name);
                } else if b == i {
                    assert(prev[i].name == c.name);
                }
            }
        } else {
            assert forall|a: int, b: int|
                0 <= a < b < entries_of(prev.push(c)).len() implies (#[trigger] entries_of(
                prev.push(c),
            )[a]).0 != (#[trigger] entries_of(prev.push(c))[b]).0 by {
                if b < prev.len() {
                    assert(entries_of(prev)[a].0 != entries_of(prev)[b].0);
                } else {
                    assert(prev[a].name != c.name);
                }
            }
        }
    }
}

// ------------------------------------------------------------------
// Concatenation: vertical, horizontal, diagonal
// ------------------------------------------------------------------
/// The models of a list of tables.
pub open spec fn frames_model(frames: Seq<DataFrame>) -> Seq<Seq<ColV>> {
    frames.map_values(|f: DataFrame| f.model())
}

/// The stacked cells of column `c` across tables, in order.
pub open spec fn vcat_vals(frames: Seq<Seq<ColV>>, c: int) -> Seq<Val>
    decreases frames,
{
    if frames.len() == 0 {
        Seq::empty()
    } else {
        vcat_vals(frames.drop_last(), c) + frames.last()[c].vals
    }
}

/// The model of vertical concatenation: identical schemas required, rows
/// stacked in input order.
pub open spec fn spec_vconcat(frames: Seq<Seq<ColV>>) -> Result<Seq<ColV>, ErrorKind> {
    if frames.len() == 0 {
        Err(ErrorKind::Compute)
    } else if !(forall|f: int|
        0 <= f < frames.len() ==> entries_of(#[trigger] frames[f]) == entries_of(frames[0])) {
        Err(ErrorKind::Schema)
    } else {
        Ok(
            Seq::new(
                frames[0].len() as nat,
                |c: int|
                    ColV {
                        name: frames[0][c].name,
                        dtype: frames[0][c].dtype,
                        vals: vcat_vals(frames, c),
                    },
            ),
        )
    }
}

/// A sequence of nulls.
pub open spec fn null_seq(h: nat) -> Seq<Val> {
    Seq::new(h, |i: int| Val::Null)
}

/// The first-seen union of the tables' schema entries.
pub open spec fn union_entries(frames: Seq<Seq<ColV>>) -> Seq<(Seq<char>, DTypeV)>
    decreases frames,
{
    if frames.len() == 0 {
        Seq::empty()
    } else {
        merge_entries(union_entries(frames.drop_last()), entries_of(frames.last()))
    }
}

/// Appends the entries whose names are new, keeping first-seen order.
pub open spec fn merge_entries(
    acc: Seq<(Seq<char>, DTypeV)>,
    more: Seq<(Seq<char>, DTypeV)>,
) -> Seq<(Seq<char>, DTypeV)>
    decreases more,
{
    if more.len() == 0 {
        acc
    } else {
        let prev = merge_entries(acc, more.drop_last());
        if crate::schema::Schema::spec_index_of(prev, more.last().0) is Some {
            prev
        } else {
            prev.push(more.last())
        }
    }
}

/// Whether every pair of same-named columns across the tables agrees on
/// the type.
pub open spec fn diag_consistent(frames: Seq<Seq<ColV>>) -> bool {
    forall|f1: int, c1: int, f2: int, c2: int|
        0 <= f1 < frames.len() && 0 <= c1 < frames[f1].len() && 0 <= f2 < frames.len() && 0 <= c2
            < frames[f2].len() && (#[trigger] frames[f1][c1]).name == (
        #[trigger] frames[f2][c2]).name ==> frames[f1][c1].dtype == frames[f2][c2].dtype
}

/// The stacked cells of the column named `n` across tables: a table
/// lacking the column contributes nulls of its height.
pub open spec fn dcat_vals(frames: Seq<Seq<ColV>>, n: Seq<char>) -> Seq<Val>
    decreases frames,
{
    if frames.len() == 0 {
        Seq::empty()
    } else {
        dcat_vals(frames.drop_last(), n) + (match col_index_m(frames.last(), n) {
            Some(i) => frames.last()[i].vals,
            None => null_seq(model_height(frames.last())),
        })
    }
}

/// The model of diagonal concatenation: the schema is the first-seen union
/// of the inputs' columns, same-named columns must agree on the type, and
/// absent columns are filled with nulls.
pub open spec fn spec_dconcat(frames: Seq<Seq<ColV>>) -> Result<Seq<ColV>, ErrorKind> {
    if frames.len() == 0 {
        Err(ErrorKind::Compute)
    } else if !diag_consistent(frames) {
        Err(ErrorKind::Schema)
    } else {
        let u = union_entries(frames);
        Ok(
            Seq::new(
                u.len(),
                |c: int| ColV { name: u[c].0, dtype: u[c].1, vals: dcat_vals(frames, u[c].0) },
            ),
        )
    }
}

/// Appends a column's cells to a buffer.
#[verifier::loop_isolation(false)]
pub(crate) fn append_cells(dst: &mut Vec<AnyVal>, s: &Series)
    requires
        s.wf(),
    ensures
        vals_view(final (dst)@) == vals_view(old(dst)@) + s.spec_vals(),
        final (dst)@.len() == old(dst)@.len() + s.spec_vals().len(),
{
    let n = s.len();
    let mut i: usize = 0;
    proof {
        assert(vals_view(dst@) =~= vals_view(dst@) + s.spec_vals().take(0));
    }
    while i < n
        invariant
            i <= n,
            n == s.spec_vals().len(),
            dst@.len() == old(dst)@.len() + i,
            vals_view(dst@) == vals_view(old(dst)@) + s.spec_vals().take(i as int),
        decreases n - i,
    {
        let ghost old_d = dst@;
        dst.push(s.cell(i).duplicate());
        proof {
            assert(dst@.drop_last() =~= old_d);
            assert(vals_view(dst@) == vals_view(old_d).push(s.spec_vals()[i as int]));
            assert(vals_view(old(dst)@) + s.spec_vals().take(i + 1) =~= (vals_view(old(dst)@)
                + s.spec_vals().take(i as int)).push(s.spec_vals()[i as int]));
        }
        i = i + 1;
    }
    proof {
        assert(s.spec_vals().take(n as int) =~= s.spec_vals());
    }
}

/// Appends nulls to a buffer.
#[verifier::loop_isolation(false)]
pub(crate) fn append_nulls(dst: &mut Vec<AnyVal>, h: usize)
    ensures
        vals_view(final (dst)@) == vals_view(old(dst)@) + null_seq(h as nat),
        final (dst)@.len() == old(dst)@.len() + h,
{
    let mut i: usize = 0;
    proof {
        assert(vals_view(dst@) =~= vals_view(dst@) + null_seq(0));
    }
    while i < h
        invariant
            i <= h,
            dst@.len() == old(dst)@.len() + i,
            vals_view(dst@) == vals_view(old(dst)@) + null_seq(i as nat),
        decreases h - i,
    {
        let ghost old_d = dst@;
        dst.push(AnyVal::Null);
        proof {
            assert(dst@.drop_last() =~= old_d);
            assert(dst@.last()@ == Val::Null);
            assert(vals_view(dst@) == vals_view(old_d).push(Val::Null));
            assert(vals_view(old(dst)@) + null_seq((i + 1) as nat) =~= (vals_view(old(dst)@)
                + null_seq(i as nat)).push(Val::Null));
        }
        i = i + 1;
    }
}

/// Stacks tables vertically: the schemas must be identical (names, types
/// and order), and the rows follow in input order. An empty input list is
/// a compute error.
#[verifier::loop_isolation(false)]
pub fn concat_vertical(frames: &Vec<DataFrame>) -> (r: Result<DataFrame, EngineError>)
    requires
        forall|f: int| 0 <= f < frames@.len() ==> (#[trigger] frames@[f]).wf(),
    ensures
        match r {
            Ok(out) => spec_vconcat(frames_model(frames@)) matches Ok(m) && m == out.model()
                && out.wf(),
            Err(e) => spec_vconcat(frames_model(frames@)) matches Err(k) && k == e.kind(),
        },
{
    let nf = frames.len();
    if nf == 0 {
        return Err(EngineError::compute("nothing to concatenate"));
    }
    // check that every schema equals the first frame's schema
    let w = frames[0].width();
    let mut f: usize = 1;
    while f < nf
        invariant
            1 <= f <= nf,
            nf == frames@.len(),
            w == frames@[0].spec_cols().len(),
            forall|g: int|
                0 <= g < f ==> entries_of(#[trigger] frames_model(frames@)[g]) == entries_of(
                    frames_model(frames@)[0],
                ),
        decreases nf - f,
    {
        if frames[f].width() != w {
            proof {
                assert(entries_of(frames_model(frames@)[f as int]).len() != entries_of(
                    frames_model(frames@)[0],
                ).len());
            }
            return Err(EngineError::schema("tables differ in schema"));
        }
        let mut c: usize = 0;
        while c < w
            invariant
                c <= w,
                f < nf,
                nf == frames@.len(),
                w == frames@[0].spec_cols().len(),
                w == frames@[f as int].spec_cols().len(),
                forall|q: int|
                    0 <= q < c ==> entries_of(frames_model(frames@)[f as int])[q] == entries_of(
                        frames_model(frames@)[0],
                    )[q],
            decreases w - c,
        {
            let ca = match frames[0].column_at(c) {
                Some(s) => s,
                None => {
                    proof {
                        assert(false);
                    }
                    return Err(EngineError::compute("column index out of range"));
                },
            };
            let cb = match frames[f].column_at(c) {
                Some(s) => s,
                None => {
                    proof {
                        assert(false);
                    }
                    return Err(EngineError::compute("column index out of range"));
                },
            };
            if !(ca.name().to_owned().eq(&cb.name().to_owned()) && ca.dtype().dtype_eq(
                cb.dtype(),
            )) {
                proof {
                    assert(entries_of(frames_model(frames@)[f as int])[c as int] != entries_of(
                        frames_model(frames@)[0],
                    )[c as int]);
                }
                return Err(EngineError::schema("tables differ in schema"));
            }
            proof {
                assert(entries_of(frames_model(frames@)[f as int])[c as int] == entries_of(
                    frames_model(frames@)[0],
                )[c as int]);
            }
            c = c + 1;
        }
        proof {
            assert(entries_of(frames_model(frames@)[f as int]) =~= entries_of(
                frames_model(frames@)[0],
            ));
        }
        f = f + 1;
    }
    // build each output column by stacking
    let ghost fm = frames_model(frames@);
    let mut cols: Vec<Series> = Vec::new();
    let mut c: usize = 0;
    while c < w
        invariant
            c <= w,
            nf == frames@.len(),
            nf >= 1,
            w == frames@[0].spec_cols().len(),
            fm == frames_model(frames@),
            forall|g: int| 0 <= g < nf ==> entries_of(#[trigger] fm[g]) == entries_of(fm[0]),
            forall|g: int| 0 <= g < frames@.len() ==> (#[trigger] frames@[g]).wf(),
            cols.len() == c,
            forall|q: int|
                0 <= q < c ==> ColV::of_series(#[trigger] cols@[q]) == (ColV {
                    name: fm[0][q].name,
                    dtype: fm[0][q].dtype,
                    vals: vcat_vals(fm, q),
                }),
            forall|q: int| 0 <= q < c ==> (#[trigger] cols@[q]).wf(),
            forall|q: int, q2: int|
                0 <= q < c && 0 <= q2 < c ==> (#[trigger] cols@[q]).spec_vals().len() == (
                #[trigger] cols@[q2]).spec_vals().len(),
        decreases w - c,
    {
        let proto = match frames[0].column_at(c) {
            Some(s) => s,
            None => {
                proof {
                    assert(false);
                }
                return Err(EngineError::compute("column index out of range"));
            },
        };
        let mut cells: Vec<AnyVal> = Vec::new();
        let mut g: usize = 0;
        proof {
            assert(vals_view(cells@) =~= vcat_vals(fm.take(0), c as int));
        }
        while g < nf
            invariant
                g <= nf,
                c < w,
                nf == frames@.len(),
                fm == frames_model(frames@),
                w == frames@[0].spec_cols().len(),
                forall|g2: int| 0 <= g2 < nf ==> entries_of(#[trigger] fm[g2]) == entries_of(fm[0]),
                forall|g2: int| 0 <= g2 < frames@.len() ==> (#[trigger] frames@[g2]).wf(),
                vals_view(cells@) == vcat_vals(fm.take(g as int), c as int),
                cells@.len() == vals_view(cells@).len(),
                forall|q: int|
                    0 <= q < vals_view(cells@).len() ==> val_matches_dtype(
                        #[trigger] vals_view(cells@)[q],
                        fm[0][c as int].dtype,
                    ),
            decreases nf - g,
        {
            proof {
                assert(fm.take(g + 1).drop_last() =~= fm.take(g as int));
                assert(fm.take(g + 1).last() == fm[g as int]);
                assert(entries_of(fm[g as int]).len() == entries_of(fm[0]).len());
                assert(entries_of(fm[g as int])[c as int] == entries_of(fm[0])[c as int]);
            }
            let src = match frames[g].column_at(c) {
                Some(s) => s,
                None => {
                    proof {
                        assert(false);
                    }
                    return Err(EngineError::compute("column index out of range"));
                },
            };
            proof {
                assert(src.wf());
                assert(ColV::of_series(*src) == fm[g as int][c as int]);
            }
            let ghost before = vals_view(cells@);
            append_cells(&mut cells, src);
            g = g + 1;
        }
        proof {
            assert(fm.take(nf as int) =~= fm);
            lemma_vals_view(cells@);
        }
        let name: String = proto.name().to_owned();
        let out_col = Series::from_checked(name, proto.dtype().duplicate(), cells);
        cols.push(out_col);
        proof {
            if c > 0 {
                assert forall|g: int| 0 <= g < fm.len() implies (#[trigger] fm[g]).len() == w by {
                    assert(entries_of(fm[g]).len() == entries_of(fm[0]).len());
                }
                lemma_vcat_len(fm, 0, c as int, frames@, w as int);
            }
            assert forall|q: int, q2: int|
                0 <= q < c + 1 && 0 <= q2 < c + 1 implies (#[trigger] cols@[q]).spec_vals().len()
                == (#[trigger] cols@[q2]).spec_vals().len() by {
                assert(ColV::of_series(cols@[q]).vals == vcat_vals(fm, q));
                assert(ColV::of_series(cols@[q2]).vals == vcat_vals(fm, q2));
                if q < c && q2 < c {
                } else if c > 0 {
                    assert(vcat_vals(fm, 0).len() == vcat_vals(fm, c as int).len());
                    assert(ColV::of_series(cols@[0]).vals == vcat_vals(fm, 0));
                }
            }
        }
        c = c + 1;
    }
    proof {
        assert(frame_wf(cols@)) by {
            if cols@.len() > 0 {
                assert(crate::frame::frame_height(cols@) == cols@[0].spec_vals().len());
            }
            assert forall|x: int, y: int|
                0 <= x < y < cols@.len() implies (#[trigger] cols@[x]).spec_name() != (
            #[trigger] cols@[y]).spec_name() by {
                assert(entries_of(fm[0])[x].0 != entries_of(fm[0])[y].0);
            }
        }
    }
    let df = DataFrame::from_checked(cols);
    proof {
        assert(df.model() =~= spec_vconcat(frames_model(frames@))->Ok_0);
    }
    Ok(df)
}

/// The total number of rows across tables.
pub open spec fn total_height(fm: Seq<Seq<ColV>>) -> nat
    decreases fm,
{
    if fm.len() == 0 {
        0
    } else {
        total_height(fm.drop_last()) + model_height(fm.last())
    }
}

/// A diagonally stacked column always has the total height.
proof fn lemma_dcat_len(fm: Seq<Seq<ColV>>, n: Seq<char>, frames: Seq<DataFrame>)
    requires
        fm == frames_model(frames),
        forall|g: int| 0 <= g < frames.len() ==> (#[trigger] frames[g]).wf(),
    ensures
        dcat_vals(fm, n).len() == total_height(fm),
    decreases fm.len(),
{
    if fm.len() > 0 {
        let shorter = frames.drop_last();
        assert(frames_model(shorter) =~= fm.drop_last());
        assert forall|g: int| 0 <= g < shorter.len() implies (#[trigger] shorter[g]).wf() by {
            assert(shorter[g] == frames[g]);
        }
        lemma_dcat_len(fm.drop_last(), n, shorter);
        let g = fm.len() - 1;
        assert(fm[g] == frames[g].model());
        lemma_col_index_m(fm[g], n);
        let fd = col_index_m(fm[g], n);
        if fd is Some {
            let i = fd->0;
            assert(fm[g][i] == ColV::of_series(frames[g].spec_cols()[i]));
            assert(frames[g].spec_cols()[i].spec_vals().len() == crate::frame::frame_height(
                frames[g].spec_cols(),
            ));
            if frames[g].spec_cols().len() > 0 {
                assert(model_height(fm[g]) == ColV::of_series(
                    frames[g].spec_cols()[0],
                ).vals.len());
            }
        }
    }
}

/// Every union entry names some column of the tables (provenance), and
/// every column of the first `upto` tables has its entry in the union.
#[verifier::opaque]
pub open spec fn union_prov(
    u: Seq<(Seq<char>, DTypeV)>,
    fm: Seq<Seq<ColV>>,
    upto: int,
) -> bool {
    &&& (forall|q: int|
        0 <= q < u.len() ==> exists|g: int, cq: int|
            0 <= g < fm.len() && 0 <= cq < fm[g].len() && ((#[trigger] fm[g][cq]).name, fm[g][cq].dtype)
                == #[trigger] u[q])
    &&& (forall|g: int, cq: int|
        0 <= g < upto && 0 <= cq < fm[g].len() ==> exists|q: int|
            0 <= q < u.len() && #[trigger] u[q] == ((#[trigger] fm[g][cq]).name, fm[g][cq].dtype))
}

/// The first `upto` columns of one table have entries in the union.
#[verifier::opaque]
pub open spec fn row_prov(u: Seq<(Seq<char>, DTypeV)>, fcols: Seq<ColV>, upto: int) -> bool {
    forall|cq: int|
        0 <= cq < upto ==> exists|q: int|
            0 <= q < u.len() && #[trigger] u[q] == ((#[trigger] fcols[cq]).name, fcols[cq].dtype)
}

/// Builds the first-seen union of the tables' schemas, checking that
/// same-named columns agree on the type.
#[verifier::loop_isolation(false)]
#[verifier::rlimit(100)]
#[verifier::spinoff_prover]
fn diag_union(frames: &Vec<DataFrame>) -> (r: Result<
    (Vec<String>, Vec<crate::dtype::LogicalType>),
    EngineError,
>)
    requires
        forall|f: int| 0 <= f < frames@.len() ==> (#[trigger] frames@[f]).wf(),
    ensures
        match r {
            Ok((names, dtypes)) => {
                &&& names@.len() == dtypes@.len()
                &&& entries_now(names@, dtypes@) == union_entries(frames_model(frames@))
                &&& crate::schema::names_unique(entries_now(names@, dtypes@))
                &&& diag_consistent(frames_model(frames@))
                &&& union_prov(
                    entries_now(names@, dtypes@),
                    frames_model(frames@),
                    frames@.len() as int,
                )
            },
            Err(e) => {
                &&& e.kind() == ErrorKind::Schema
                &&& !diag_consistent(frames_model(frames@))
            },
        },
{
    let nf = frames.len();
    let ghost fm = frames_model(frames@);
    let mut names: Vec<String> = Vec::new();
    let mut dtypes: Vec<crate::dtype::LogicalType> = Vec::new();
    let mut f: usize = 0;
    proof {
        assert(union_entries(fm.take(0)) =~= Seq::<(Seq<char>, DTypeV)>::empty());
        assert(entries_now(names@, dtypes@) =~= Seq::<(Seq<char>, DTypeV)>::empty());
        assert(union_prov(entries_now(names@, dtypes@), fm, 0)) by {
            reveal(union_prov);
        }
    }
    while f < nf
        invariant
            f <= nf,
            nf == frames@.len(),
            fm == frames_model(frames@),
            forall|g: int| 0 <= g < frames@.len() ==> (#[trigger] frames@[g]).wf(),
            names@.len() == dtypes@.len(),
            entries_now(names@, dtypes@) == union_entries(fm.take(f as int)),
            crate::schema::names_unique(entries_now(names@, dtypes@)),
            union_prov(entries_now(names@, dtypes@), fm, f as int),
        decreases nf - f,
    {
        let w = frames[f].width();
        let mut c: usize = 0;
        proof {
            assert(fm.take(f + 1).drop_last() =~= fm.take(f as int));
            assert(fm.take(f + 1).last() == fm[f as int]);
            assert(entries_of(fm[f as int]).take(0) =~= Seq::<(Seq<char>, DTypeV)>::empty());
            assert(merge_entries(
                union_entries(fm.take(f as int)),
                entries_of(fm[f as int]).take(0),
            ) == union_entries(fm.take(f as int)));
            assert(row_prov(entries_now(names@, dtypes@), fm[f as int], 0)) by {
                reveal(row_prov);
            }
        }
        while c < w
            invariant
                c <= w,
                f < nf,
                nf == frames@.len(),
                fm == frames_model(frames@),
                forall|g: int| 0 <= g < frames@.len() ==> (#[trigger] frames@[g]).wf(),
                w == frames@[f as int].spec_cols().len(),
                names@.len() == dtypes@.len(),
                entries_now(names@, dtypes@) == merge_entries(
                    union_entries(fm.take(f as int)),
                    entries_of(fm[f as int]).take(c as int),
                ),
                crate::schema::names_unique(entries_now(names@, dtypes@)),
                union_prov(entries_now(names@, dtypes@), fm, f as int),
                row_prov(entries_now(names@, dtypes@), fm[f as int], c as int),
            decreases w - c,
        {
            proof {
                let ghost es = entries_of(fm[f as int]);
                assert(es.take(c + 1).drop_last() =~= es.take(c as int));
                assert(es.take(c + 1).last() == es[c as int]);
                assert(fm[f as int][c as int] == ColV::of_series(
                    frames@[f as int].spec_cols()[c as int],
                ));
            }
            let col = match frames[f].column_at(c) {
                Some(s) => s,
                None => {
                    proof {
                        assert(false);
                    }
                    return Err(EngineError::compute("column index out of range"));
                },
            };
            let un = names.len();
            let mut pos: usize = 0;
            let mut found = false;
            while pos < un && !found
                invariant
                    pos <= un,
                    un == names@.len(),
                    un == dtypes@.len(),
                    forall|q: int|
                        0 <= q < pos ==> (#[trigger] entries_now(names@, dtypes@)[q]).0
                            != col.spec_name(),
                    found ==> pos < un && entries_now(names@, dtypes@)[pos as int].0
                        == col.spec_name(),
                decreases un - pos, (if found {
                    0int
                } else {
                    1int
                }),
            {
                proof {
                    lemma_entries_now(names@, dtypes@);
                }
                if names[pos].eq(&col.name().to_owned()) {
                    found = true;
                } else {
                    pos = pos + 1;
                }
            }
            proof {
                crate::schema::Schema::lemma_index_of(
                    entries_now(names@, dtypes@),
                    col.spec_name(),
                );
            }
            if found {
                proof {
                    lemma_entries_now(names@, dtypes@);
                    crate::schema::lemma_index_first(
                        entries_now(names@, dtypes@),
                        col.spec_name(),
                        pos as int,
                    );
                }
                if !dtypes[pos].dtype_eq(col.dtype()) {
                    proof {
                        reveal(union_prov);
                        lemma_entries_now(names@, dtypes@);
                        let ghost u = entries_now(names@, dtypes@);
                        assert(exists|g: int, cq: int|
                            0 <= g < fm.len() && 0 <= cq < fm[g].len() && ((
                            #[trigger] fm[g][cq]).name, fm[g][cq].dtype) == u[pos as int]);
                        let ghost (g0, c0) = choose|g: int, cq: int|
                            0 <= g < fm.len() && 0 <= cq < fm[g].len() && ((
                            #[trigger] fm[g][cq]).name, fm[g][cq].dtype) == u[pos as int];
                        assert(fm[g0][c0].name == u[pos as int].0);
                        assert(u[pos as int].0 == col.spec_name());
                        assert(col.spec_name() == fm[f as int][c as int].name);
                        assert(fm[g0][c0].dtype == crate::dtype::dtype_view(&dtypes@[pos as int]));
                        assert(fm[g0][c0].dtype != fm[f as int][c as int].dtype);
                        assert(!diag_consistent(fm)) by {
                            if diag_consistent(fm) {
                                assert(fm[g0][c0].dtype == fm[f as int][c as int].dtype);
                            }
                        }
                    }
                    return Err(EngineError::schema("same-named columns differ in type"));
                }
                proof {
                    lemma_entries_now(names@, dtypes@);
                    let ghost u = entries_now(names@, dtypes@);
                    assert(u[pos as int] == (
                        fm[f as int][c as int].name,
                        fm[f as int][c as int].dtype,
                    ));
                    assert(u =~= merge_entries(
                        union_entries(fm.take(f as int)),
                        entries_of(fm[f as int]).take(c + 1),
                    ));
                    assert(row_prov(u, fm[f as int], c + 1)) by {
                        reveal(row_prov);
                        assert forall|cq: int| 0 <= cq < c + 1 implies exists|q: int|
                            0 <= q < u.len() && #[trigger] u[q] == ((
                            #[trigger] fm[f as int][cq]).name, fm[f as int][cq].dtype) by {
                            if cq < c {
                                let q0 = choose|q: int|
                                    0 <= q < u.len() && #[trigger] u[q] == (
                                    fm[f as int][cq].name,
                                    fm[f as int][cq].dtype,
                                    );
                            } else {
                                assert(u[pos as int] == (
                                    fm[f as int][cq].name,
                                    fm[f as int][cq].dtype,
                                ));
                            }
                        }
                    }
                }
            } else {
                proof {
                    lemma_entries_now(names@, dtypes@);
                    let ghost found_spec = crate::schema::Schema::spec_index_of(
                        entries_now(names@, dtypes@),
                        col.spec_name(),
                    );
                    if found_spec is Some {
                        assert(entries_now(names@, dtypes@)[found_spec->0].0 != col.spec_name());
                    }
                }
                let ghost old_names = names@;
                let ghost old_dtypes = dtypes@;
                let ghost old_u = entries_now(old_names, old_dtypes);
                names.push(col.name().to_owned());
                dtypes.push(col.dtype().duplicate());
                proof {
                    lemma_entries_now_push(
                        old_names,
                        old_dtypes,
                        names@,
                        dtypes@,
                        col.spec_name(),
                        col.spec_dtype(),
                    );
                    let ghost u = entries_now(names@, dtypes@);
                    assert(u == old_u.push((col.spec_name(), col.spec_dtype())));
                    assert(u =~= merge_entries(
                        union_entries(fm.take(f as int)),
                        entries_of(fm[f as int]).take(c + 1),
                    ));
                    assert forall|a: int, b: int|
                        0 <= a < b < u.len() implies (#[trigger] u[a]).0 != (
                    #[trigger] u[b]).0 by {
                        if b < old_u.len() {
                            assert(old_u[a].0 != old_u[b].0);
                        } else {
                            assert(old_u[a].0 != col.spec_name());
                        }
                    }
                    assert(u[old_u.len() as int] == (
                        fm[f as int][c as int].name,
                        fm[f as int][c as int].dtype,
                    ));
                    assert(union_prov(u, fm, f as int)) by {
                        reveal(union_prov);
                        assert forall|q: int| 0 <= q < u.len() implies exists|g: int, cq: int|
                            0 <= g < fm.len() && 0 <= cq < fm[g].len() && ((
                            #[trigger] fm[g][cq]).name, fm[g][cq].dtype) == #[trigger] u[q] by {
                            if q < old_u.len() {
                                let (g0, c0) = choose|g: int, cq: int|
                                    0 <= g < fm.len() && 0 <= cq < fm[g].len() && ((
                                    #[trigger] fm[g][cq]).name, fm[g][cq].dtype) == old_u[q];
                                assert(u[q] == old_u[q]);
                            } else {
                                assert(((fm[f as int][c as int]).name, fm[f as int][c as int].dtype)
                                    == u[q]);
                            }
                        }
                        assert forall|g: int, cq: int|
                            0 <= g < f && 0 <= cq < fm[g].len() implies exists|q: int|
                            0 <= q < u.len() && #[trigger] u[q] == ((
                            #[trigger] fm[g][cq]).name, fm[g][cq].dtype) by {
                            let q0 = choose|q: int|
                                0 <= q < old_u.len() && #[trigger] old_u[q] == (
                                fm[g][cq].name,
                                fm[g][cq].dtype,
                                );
                            assert(u[q0] == old_u[q0]);
                        }
                    }
                    assert(row_prov(u, fm[f as int], c + 1)) by {
                        reveal(row_prov);
                        assert forall|cq: int| 0 <= cq < c + 1 implies exists|q: int|
                            0 <= q < u.len() && #[trigger] u[q] == ((
                            #[trigger] fm[f as int][cq]).name, fm[f as int][cq].dtype) by {
                            if cq < c {
                                let q0 = choose|q: int|
                                    0 <= q < old_u.len() && #[trigger] old_u[q] == (
                                    fm[f as int][cq].name,
                                    fm[f as int][cq].dtype,
                                    );
                                assert(u[q0] == old_u[q0]);
                            } else {
                                assert(u[old_u.len() as int] == (
                                    fm[f as int][cq].name,
                                    fm[f as int][cq].dtype,
                                ));
                            }
                        }
                    }
                }
            }
            c = c + 1;
        }
        proof {
            assert(entries_of(fm[f as int]).take(w as int) =~= entries_of(fm[f as int]));
            let ghost u = entries_now(names@, dtypes@);
            assert(w == fm[f as int].len());
            assert(union_prov(u, fm, f + 1)) by {
                reveal(union_prov);
                reveal(row_prov);
                assert forall|g: int, cq: int|
                    0 <= g < f + 1 && 0 <= cq < fm[g].len() implies exists|q: int|
                    0 <= q < u.len() && #[trigger] u[q] == ((
                    #[trigger] fm[g][cq]).name, fm[g][cq].dtype) by {
                    if g < f {
                        let q0 = choose|q: int|
                            0 <= q < u.len() && #[trigger] u[q] == (fm[g][cq].name, fm[g][cq].dtype);
                    } else {
                        let q0 = choose|q: int|
                            0 <= q < u.len() && #[trigger] u[q] == (
                            fm[f as int][cq].name,
                            fm[f as int][cq].dtype,
                            );
                    }
                }
            }
        }
        f = f + 1;
    }
    proof {
        assert(fm.take(nf as int) =~= fm);
        assert(diag_consistent(fm)) by {
            reveal(union_prov);
            assert forall|f1: int, c1: int, f2: int, c2: int|
                0 <= f1 < fm.len() && 0 <= c1 < fm[f1].len() && 0 <= f2 < fm.len() && 0 <= c2
                    < fm[f2].len() && (#[trigger] fm[f1][c1]).name == (#[trigger] fm[f2][c2]).name
                implies fm[f1][c1].dtype == fm[f2][c2].dtype by {
                let u = entries_now(names@, dtypes@);
                assert(exists|q: int|
                    0 <= q < u.len() && #[trigger] u[q] == (fm[f1][c1].name, fm[f1][c1].dtype));
                assert(exists|q: int|
                    0 <= q < u.len() && #[trigger] u[q] == (fm[f2][c2].name, fm[f2][c2].dtype));
                let q1 = choose|q: int|
                    0 <= q < u.len() && #[trigger] u[q] == (fm[f1][c1].name, fm[f1][c1].dtype);
                let q2 = choose|q: int|
                    0 <= q < u.len() && #[trigger] u[q] == (fm[f2][c2].name, fm[f2][c2].dtype);
                if q1 != q2 {
                    assert(u[q1].0 != u[q2].0);
                }
            }
        }
    }
    Ok((names, dtypes))
}

/// Stacks the cells of one union column across tables: a table with the
/// column contributes its cells, one without contributes nulls.
#[verifier::loop_isolation(false)]
#[verifier::rlimit(60)]
fn diag_column(
    frames: &Vec<DataFrame>,
    name: &String,
    dtype: &crate::dtype::LogicalType,
    Ghost(uspec): Ghost<Seq<(Seq<char>, DTypeV)>>,
    Ghost(q): Ghost<int>,
) -> (r: Result<Series, EngineError>)
    requires
        forall|f: int| 0 <= f < frames@.len() ==> (#[trigger] frames@[f]).wf(),
        diag_consistent(frames_model(frames@)),
        0 <= q < uspec.len(),
        uspec[q] == (name@, dtype@),
        crate::schema::names_unique(uspec),
        union_prov(uspec, frames_model(frames@), frames@.len() as int),
    ensures
        match r {
            Ok(s) => {
                &&& s.spec_name() == name@
                &&& s.spec_dtype() == dtype@
                &&& s.spec_vals() == dcat_vals(frames_model(frames@), name@)
                &&& s.wf()
            },
            Err(_) => false,
        },
{
    let nf = frames.len();
    let ghost fm = frames_model(frames@);
    let mut cells: Vec<AnyVal> = Vec::new();
    let mut g: usize = 0;
    proof {
        assert(vals_view(cells@) =~= dcat_vals(fm.take(0), name@));
    }
    while g < nf
        invariant
            g <= nf,
            nf == frames@.len(),
            fm == frames_model(frames@),
            forall|g2: int| 0 <= g2 < frames@.len() ==> (#[trigger] frames@[g2]).wf(),
            diag_consistent(fm),
            0 <= q < uspec.len(),
            uspec[q] == (name@, dtype@),
            crate::schema::names_unique(uspec),
            union_prov(uspec, fm, nf as int),
            vals_view(cells@) == dcat_vals(fm.take(g as int), name@),
            cells@.len() == vals_view(cells@).len(),
            forall|x: int|
                0 <= x < vals_view(cells@).len() ==> val_matches_dtype(
                    #[trigger] vals_view(cells@)[x],
                    dtype@,
                ),
        decreases nf - g,
    {
        proof {
            assert(fm.take(g + 1).drop_last() =~= fm.take(g as int));
            assert(fm.take(g + 1).last() == fm[g as int]);
            lemma_col_index_m(fm[g as int], name@);
            lemma_col_index_model(frames@[g as int].spec_cols(), name@);
            crate::frame::lemma_col_index(frames@[g as int].spec_cols(), name@);
        }
        match frames[g].column(name.as_str()) {
            Ok(src) => {
                proof {
                    assert(src.wf());
                    let ghost idx = col_index_m(fm[g as int], name@)->0;
                    assert(fm[g as int][idx] == ColV::of_series(
                        frames@[g as int].spec_cols()[idx],
                    ));
                    // the matching column has the union entry's type
                    reveal(union_prov);
                    assert(exists|g2: int, cq: int|
                        0 <= g2 < fm.len() && 0 <= cq < fm[g2].len() && ((
                        #[trigger] fm[g2][cq]).name, fm[g2][cq].dtype) == uspec[q]);
                    let ghost (g0, c0) = choose|g2: int, cq: int|
                        0 <= g2 < fm.len() && 0 <= cq < fm[g2].len() && ((
                        #[trigger] fm[g2][cq]).name, fm[g2][cq].dtype) == uspec[q];
                    assert(fm[g0][c0].name == fm[g as int][idx].name);
                    assert(fm[g as int][idx].dtype == dtype@);
                }
                append_cells(&mut cells, src);
            },
            Err(_) => {
                append_nulls(&mut cells, frames[g].height());
                proof {
                    if frames@[g as int].spec_cols().len() > 0 {
                        assert(model_height(fm[g as int]) == ColV::of_series(
                            frames@[g as int].spec_cols()[0],
                        ).vals.len());
                    }
                }
            },
        }
        g = g + 1;
    }
    proof {
        assert(fm.take(nf as int) =~= fm);
        lemma_vals_view(cells@);
    }
    Ok(Series::from_checked(name.clone(), dtype.duplicate(), cells))
}

/// Stacks tables diagonally: the output schema is the first-seen union of
/// the inputs' columns, same-named columns must agree on the type, and a
/// table lacking a column contributes nulls. An empty input list is a
/// compute error.
#[verifier::loop_isolation(false)]
#[verifier::rlimit(60)]
pub fn concat_diagonal(frames: &Vec<DataFrame>) -> (r: Result<DataFrame, EngineError>)
    requires
        forall|f: int| 0 <= f < frames@.len() ==> (#[trigger] frames@[f]).wf(),
    ensures
        match r {
            Ok(out) => spec_dconcat(frames_model(frames@)) matches Ok(m) && m == out.model()
                && out.wf(),
            Err(e) => spec_dconcat(frames_model(frames@)) matches Err(k) && k == e.kind(),
        },
{
    let nf = frames.len();
    if nf == 0 {
        return Err(EngineError::compute("nothing to concatenate"));
    }
    let ghost fm = frames_model(frames@);
    let (names, dtypes) = diag_union(frames)?;
    let ghost uspec = union_entries(fm);
    proof {
        lemma_entries_now(names@, dtypes@);
    }
    let un = names.len();
    let mut cols: Vec<Series> = Vec::new();
    let mut q: usize = 0;
    while q < un
        invariant
            q <= un,
            nf == frames@.len(),
            nf >= 1,
            fm == frames_model(frames@),
            forall|g: int| 0 <= g < frames@.len() ==> (#[trigger] frames@[g]).wf(),
            diag_consistent(fm),
            un == names@.len(),
            un == dtypes@.len(),
            uspec == union_entries(fm),
            entries_now(names@, dtypes@) == uspec,
            uspec.len() == un,
            forall|x: int|
                0 <= x < un ==> #[trigger] uspec[x] == (
                names@[x]@,
                crate::dtype::dtype_view(&dtypes@[x]),
                ),
            crate::schema::names_unique(uspec),
            union_prov(uspec, fm, nf as int),
            cols.len() == q,
            forall|x: int|
                0 <= x < q ==> ColV::of_series(#[trigger] cols@[x]) == (ColV {
                    name: uspec[x].0,
                    dtype: uspec[x].1,
                    vals: dcat_vals(fm, uspec[x].0),
                }),
            forall|x: int| 0 <= x < q ==> (#[trigger] cols@[x]).wf(),
            forall|x: int|
                0 <= x < q ==> (#[trigger] cols@[x]).spec_vals().len() == total_height(fm),
        decreases un - q,
    {
        let out_col = diag_column(
            frames,
            &names[q],
            &dtypes[q],
            Ghost(uspec),
            Ghost(q as int),
        )?;
        proof {
            lemma_dcat_len(fm, names@[q as int]@, frames@);
        }
        cols.push(out_col);
        q = q + 1;
    }
    proof {
        assert(frame_wf(cols@)) by {
            if cols@.len() > 0 {
                assert(crate::frame::frame_height(cols@) == cols@[0].spec_vals().len());
            }
            assert forall|x: int, y: int|
                0 <= x < y < cols@.len() implies (#[trigger] cols@[x]).spec_name() != (
            #[trigger] cols@[y]).spec_name() by {
                assert(uspec[x].0 != uspec[y].0);
            }
        }
    }
    let df = DataFrame::from_checked(cols);
    proof {
        assert(df.model() =~= spec_dconcat(frames_model(frames@))->Ok_0);
    }
    Ok(df)
}

/// The entries formed by parallel name and type vectors.
pub open spec fn entries_now(names: Seq<String>, dtypes: Seq<crate::dtype::LogicalType>) -> Seq<
    (Seq<char>, DTypeV),
>
    decreases names,
{
    if names.len() == 0 || names.len() != dtypes.len() {
        Seq::empty()
    } else {
        entries_now(names.drop_last(), dtypes.drop_last()).push(
            (names.last()@, crate::dtype::dtype_view(&dtypes.last())),
        )
    }
}

/// Pointwise characterization of `entries_now`.
pub proof fn lemma_entries_now(names: Seq<String>, dtypes: Seq<crate::dtype::LogicalType>)
    requires
        names.len() == dtypes.len(),
    ensures
        entries_now(names, dtypes).len() == names.len(),
        forall|i: int|
            0 <= i < names.len() ==> #[trigger] entries_now(names, dtypes)[i] == (
            names[i]@,
            crate::dtype::dtype_view(&dtypes[i]),
            ),
    decreases names,
{
    if names.len() > 0 {
        lemma_entries_now(names.drop_last(), dtypes.drop_last());
    }
}

/// Pushing a pair extends the entries by one.
pub proof fn lemma_entries_now_push(
    old_names: Seq<String>,
    old_dtypes: Seq<crate::dtype::LogicalType>,
    new_names: Seq<String>,
    new_dtypes: Seq<crate::dtype::LogicalType>,
    n: Seq<char>,
    t: DTypeV,
)
    requires
        old_names.len() == old_dtypes.len(),
        new_names == old_names.push(new_names.last()),
        new_dtypes == old_dtypes.push(new_dtypes.last()),
        new_names.last()@ == n,
        crate::dtype::dtype_view(&new_dtypes.last()) == t,
    ensures
        entries_now(new_names, new_dtypes) == entries_now(old_names, old_dtypes).push((n, t)),
{
    assert(new_names.drop_last() =~= old_names);
    assert(new_dtypes.drop_last() =~= old_dtypes);
}

/// Two columns of the same well-formed tables stack to the same length.
proof fn lemma_vcat_len(fm: Seq<Seq<ColV>>, c1: int, c2: int, frames: Seq<DataFrame>, w: int)
    requires
        fm == frames_model(frames),
        forall|g: int| 0 <= g < frames.len() ==> (#[trigger] frames[g]).wf(),
        forall|g: int| 0 <= g < fm.len() ==> (#[trigger] fm[g]).len() == w,
        0 <= c1 < w,
        0 <= c2 < w,
    ensures
        vcat_vals(fm, c1).len() == vcat_vals(fm, c2).len(),
    decreases fm.len(),
{
    if fm.len() > 0 {
        let shorter = frames.drop_last();
        assert(frames_model(shorter) =~= fm.drop_last());
        assert forall|g: int|
            0 <= g < fm.drop_last().len() implies (#[trigger] fm.drop_last()[g]).len() == w by {
            assert(fm.drop_last()[g] == fm[g]);
        }
        assert forall|g: int| 0 <= g < shorter.len() implies (#[trigger] shorter[g]).wf() by {
            assert(shorter[g] == frames[g]);
        }
        lemma_vcat_len(fm.drop_last(), c1, c2, shorter, w);
        let g = fm.len() - 1;
        assert(fm[g] == frames[g].model());
        assert(fm[g][c1] == ColV::of_series(frames[g].spec_cols()[c1]));
        assert(fm[g][c2] == ColV::of_series(frames[g].spec_cols()[c2]));
        assert(frames[g].spec_cols()[c1].spec_vals().len() == crate::frame::frame_height(
            frames[g].spec_cols(),
        ));
        assert(frames[g].spec_cols()[c2].spec_vals().len() == crate::frame::frame_height(
            frames[g].spec_cols(),
        ));
    }
}

} // verus!
