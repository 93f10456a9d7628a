//! The lazy query plan: a tree of relational operators built purely by
//! composition — no work happens until `collect`. Collecting executes the
//! verified eager operators bottom-up, each applied under its own exact
//! contract; every collected table is well-formed.

use vstd::prelude::*;

use crate::error::EngineError;
use crate::error::ErrorKind;
use crate::exec::exprs_view;
use crate::exec::entries_of;
use crate::exec::frames_model;
use crate::exec::vcat_vals;
use crate::exec::model_height;
use crate::exec::spec_broadcast;
use crate::exec::spec_dconcat;
use crate::exec::spec_filter_frame;
use crate::exec::spec_limit_frame;
use crate::exec::spec_select;
use crate::exec::spec_tail_frame;
use crate::exec::spec_vconcat;
use crate::exec::spec_with_columns;
use crate::expr::expr_view;
use crate::expr::spec_eval;
use crate::expr::ColV;
use crate::expr::Expr;
use crate::frame::DataFrame;
use crate::selector::names_view;
use crate::unpivot::spec_on_of;
use crate::unpivot::spec_unpivot;
use crate::unpivot::spec_unpivot_ok;

verus! {

broadcast use vstd::std_specs::vec::group_vec_axioms;

/// A node of the query plan.
pub enum Plan {
    /// An in-memory table: what a scan lowers to once its batches are in
    /// memory.
    Source(DataFrame),
    /// Projection.
    Select(Box<Plan>, Vec<Expr>),
    /// Column addition or replacement.
    WithColumns(Box<Plan>, Vec<Expr>),
    /// Row filtering by a Boolean expression.
    Filter(Box<Plan>, Expr),
    /// The first `n` rows.
    Limit(Box<Plan>, usize),
    /// The last `n` rows.
    Tail(Box<Plan>, usize),
    /// Group-by-aggregate.
    GroupBy(Box<Plan>, Vec<Expr>, Vec<Expr>),
    /// Vertical concatenation of two plans.
    ConcatVertical(Box<Plan>, Box<Plan>),
    /// Diagonal concatenation of two plans.
    ConcatDiagonal(Box<Plan>, Box<Plan>),
    /// Unpivot.
    Unpivot(Box<Plan>, Vec<String>, Vec<String>, String, String),
}

/// An unexecuted, composable query. Construction does no work; `collect`
/// executes.
pub struct LazyFrame {
    pub plan: Plan,
}

impl LazyFrame {
    /// Starts a plan from an in-memory table.
    pub fn scan_frame(df: DataFrame) -> (lf: LazyFrame)
        requires
            df.wf(),
        ensures
            lf.plan matches Plan::Source(d) && d.model() == df.model(),
            plan_wf(&lf.plan),
    {
        LazyFrame { plan: Plan::Source(df) }
    }

    /// Adds a projection node.
    pub fn select(self, exprs: Vec<Expr>) -> (lf: LazyFrame)
        ensures
            lf.plan matches Plan::Select(inner, es) && *inner == self.plan && es == exprs,
    {
        LazyFrame { plan: Plan::Select(Box::new(self.plan), exprs) }
    }

    /// Adds a column-merge node.
    pub fn with_columns(self, exprs: Vec<Expr>) -> (lf: LazyFrame)
        ensures
            lf.plan matches Plan::WithColumns(inner, es) && *inner == self.plan && es == exprs,
    {
        LazyFrame { plan: Plan::WithColumns(Box::new(self.plan), exprs) }
    }

    /// Adds a row filter node.
    pub fn filter(self, predicate: Expr) -> (lf: LazyFrame)
        ensures
            lf.plan matches Plan::Filter(inner, e) && *inner == self.plan && e == predicate,
    {
        LazyFrame { plan: Plan::Filter(Box::new(self.plan), predicate) }
    }

    /// Adds a head node.
    pub fn limit(self, n: usize) -> (lf: LazyFrame)
        ensures
            lf.plan matches Plan::Limit(inner, m) && *inner == self.plan && m == n,
    {
        LazyFrame { plan: Plan::Limit(Box::new(self.plan), n) }
    }

    /// Adds a tail node.
    pub fn tail(self, n: usize) -> (lf: LazyFrame)
        ensures
            lf.plan matches Plan::Tail(inner, m) && *inner == self.plan && m == n,
    {
        LazyFrame { plan: Plan::Tail(Box::new(self.plan), n) }
    }

    /// Adds a group-by-aggregate node.
    pub fn group_by_agg(self, keys: Vec<Expr>, aggs: Vec<Expr>) -> (lf: LazyFrame)
        ensures
            lf.plan matches Plan::GroupBy(inner, ks, ags) && *inner == self.plan && ks == keys
                && ags == aggs,
    {
        LazyFrame { plan: Plan::GroupBy(Box::new(self.plan), keys, aggs) }
    }

    /// Adds an unpivot node.
    pub fn unpivot(
        self,
        index: Vec<String>,
        on: Vec<String>,
        varname: String,
        valname: String,
    ) -> (lf: LazyFrame)
        ensures
            lf.plan matches Plan::Unpivot(inner, ix, onn, vr, vl) && *inner == self.plan && ix
                == index && onn == on && vr == varname && vl == valname,
    {
        LazyFrame { plan: Plan::Unpivot(Box::new(self.plan), index, on, varname, valname) }
    }

    /// Executes the plan and materializes the result, exactly as the
    /// plan's denotation says: the collected table's model is
    /// `spec_collect` of the plan, and the kind of the first error is
    /// pinned likewise.
    pub fn collect(&self) -> (r: Result<DataFrame, EngineError>)
        requires
            plan_wf(&self.plan),
        ensures
            match spec_collect(&self.plan) {
                Ok(m) => r matches Ok(out) && out.model() == m && out.wf(),
                Err(k) => r matches Err(e) && e.kind() == k,
            },
    {
        collect_plan(&self.plan)
    }

    /// Renders the plan's operators, innermost last, without executing
    /// anything. The rendering is a function of the plan alone, so the
    /// call is safe to repeat and equal plans render equally.
    pub fn explain(&self) -> (s: String)
        ensures
            s@ == spec_render(&self.plan),
    {
        render_plan(&self.plan)
    }
}

/// Every source table inside the plan is well-formed.
pub open spec fn plan_wf(p: &Plan) -> bool
    decreases p,
{
    match p {
        Plan::Source(df) => df.wf(),
        Plan::Select(inner, _) => plan_wf(inner),
        Plan::WithColumns(inner, _) => plan_wf(inner),
        Plan::Filter(inner, _) => plan_wf(inner),
        Plan::Limit(inner, _) => plan_wf(inner),
        Plan::Tail(inner, _) => plan_wf(inner),
        Plan::GroupBy(inner, _, _) => plan_wf(inner),
        Plan::ConcatVertical(a, b) => plan_wf(a) && plan_wf(b),
        Plan::ConcatDiagonal(a, b) => plan_wf(a) && plan_wf(b),
        Plan::Unpivot(inner, _, _, _, _) => plan_wf(inner),
    }
}

/// The denotation of a plan: the model of the table it collects to, or
/// the kind of the first error, children first, left to right.
pub open spec fn spec_collect(p: &Plan) -> Result<Seq<ColV>, ErrorKind>
    decreases p,
{
    match p {
        Plan::Source(df) => Ok(df.model()),
        Plan::Select(inner, es) => match spec_collect(inner) {
            Err(k) => Err(k),
            Ok(m) => spec_select(exprs_view(es@), m),
        },
        Plan::WithColumns(inner, es) => match spec_collect(inner) {
            Err(k) => Err(k),
            Ok(m) => spec_with_columns(exprs_view(es@), m),
        },
        Plan::Filter(inner, e) => match spec_collect(inner) {
            Err(k) => Err(k),
            Ok(m) => match spec_eval(expr_view(e), m) {
                Err(k) => Err(k),
                Ok(c) => {
                    if !(c.dtype is Boolean) {
                        Err(ErrorKind::Type)
                    } else if !(c.vals.len() == model_height(m) || c.vals.len() == 1) {
                        Err(ErrorKind::Shape)
                    } else {
                        Ok(spec_filter_frame(m, spec_broadcast(c.vals, model_height(m))))
                    }
                },
            },
        },
        Plan::Limit(inner, n) => match spec_collect(inner) {
            Err(k) => Err(k),
            Ok(m) => Ok(spec_limit_frame(m, *n as int)),
        },
        Plan::Tail(inner, n) => match spec_collect(inner) {
            Err(k) => Err(k),
            Ok(m) => Ok(spec_tail_frame(m, *n as int)),
        },
        Plan::GroupBy(inner, keys, aggs) => match spec_collect(inner) {
            Err(k) => Err(k),
            Ok(m) => crate::groupby::spec_group_by(exprs_view(keys@), exprs_view(aggs@), m),
        },
        Plan::ConcatVertical(a, b) => match spec_collect(a) {
            Err(k) => Err(k),
            Ok(ma) => match spec_collect(b) {
                Err(k) => Err(k),
                Ok(mb) => spec_vconcat(seq![ma, mb]),
            },
        },
        Plan::ConcatDiagonal(a, b) => match spec_collect(a) {
            Err(k) => Err(k),
            Ok(ma) => match spec_collect(b) {
                Err(k) => Err(k),
                Ok(mb) => spec_dconcat(seq![ma, mb]),
            },
        },
        Plan::Unpivot(inner, index, on, varname, valname) => match spec_collect(inner) {
            Err(k) => Err(k),
            Ok(m) => {
                let onv = spec_on_of(m, names_view(index@), names_view(on@));
                if spec_unpivot_ok(m, names_view(index@), onv, varname@, valname@) {
                    Ok(spec_unpivot(m, names_view(index@), onv, varname@, valname@))
                } else {
                    Err(ErrorKind::Schema)
                }
            },
        },
    }
}

/// Executes a plan bottom-up: each node applies the corresponding eager
/// operator, whose own contract pins the step's semantics.
#[verifier::loop_isolation(false)]
#[verifier::rlimit(100)]
#[verifier::spinoff_prover]
pub fn collect_plan(p: &Plan) -> (r: Result<DataFrame, EngineError>)
    requires
        plan_wf(p),
    ensures
        match spec_collect(p) {
            Ok(m) => r matches Ok(out) && out.model() == m && out.wf(),
            Err(k) => r matches Err(e) && e.kind() == k,
        },
    decreases p,
{
    match p {
        Plan::Source(df) => {
            let out = df.duplicate();
            proof {
                assert(out.model() =~= df.model());
            }
            Ok(out)
        },
        Plan::Select(inner, es) => {
            let base = collect_plan(inner)?;
            base.select_exprs(es)
        },
        Plan::WithColumns(inner, es) => {
            let base = collect_plan(inner)?;
            base.with_columns_exprs(es)
        },
        Plan::Filter(inner, e) => {
            let base = collect_plan(inner)?;
            let mask = e.eval(&base)?;
            if mask.dtype().kind_of() != 1 {
                return Err(EngineError::type_error("filter mask must be a boolean column"));
            }
            base.filter_rows(&mask)
        },
        Plan::Limit(inner, n) => {
            let base = collect_plan(inner)?;
            Ok(base.head_rows(*n))
        },
        Plan::Tail(inner, n) => {
            let base = collect_plan(inner)?;
            Ok(base.tail_rows(*n))
        },
        Plan::GroupBy(inner, keys, aggs) => {
            let base = collect_plan(inner)?;
            base.group_by_agg(keys, aggs)
        },
        Plan::ConcatVertical(a, b) => {
            let left = collect_plan(a)?;
            let right = collect_plan(b)?;
            let ghost ma = left.model();
            let ghost mb = right.model();
            let mut frames: Vec<DataFrame> = Vec::new();
            frames.push(left);
            frames.push(right);
            proof {
                assert(frames_model(frames@) =~= seq![ma, mb]);
            }
            crate::exec::concat_vertical(&frames)
        },
        Plan::ConcatDiagonal(a, b) => {
            let left = collect_plan(a)?;
            let right = collect_plan(b)?;
            let ghost ma = left.model();
            let ghost mb = right.model();
            let mut frames: Vec<DataFrame> = Vec::new();
            frames.push(left);
            frames.push(right);
            proof {
                assert(frames_model(frames@) =~= seq![ma, mb]);
            }
            crate::exec::concat_diagonal(&frames)
        },
        Plan::Unpivot(inner, index, on, varname, valname) => {
            let base = collect_plan(inner)?;
            base.unpivot(index, on, varname.as_str(), valname.as_str())
        },
    }
}

/// The rendering of a plan: one operator name per line, inputs below
/// their operator.
pub open spec fn spec_render(p: &Plan) -> Seq<char>
    decreases p,
{
    match p {
        Plan::Source(_) => "SOURCE"@,
        Plan::Select(inner, _) => "SELECT\n"@ + spec_render(inner),
        Plan::WithColumns(inner, _) => "WITH_COLUMNS\n"@ + spec_render(inner),
        Plan::Filter(inner, _) => "FILTER\n"@ + spec_render(inner),
        Plan::Limit(inner, _) => "LIMIT\n"@ + spec_render(inner),
        Plan::Tail(inner, _) => "TAIL\n"@ + spec_render(inner),
        Plan::GroupBy(inner, _, _) => "GROUP_BY\n"@ + spec_render(inner),
        Plan::ConcatVertical(a, b) => "CONCAT\n"@ + spec_render(a) + spec_render(b),
        Plan::ConcatDiagonal(a, b) => "CONCAT\n"@ + spec_render(a) + spec_render(b),
        Plan::Unpivot(inner, _, _, _, _) => "UNPIVOT\n"@ + spec_render(inner),
    }
}

/// Renders a plan node and its inputs, one operator per line.
#[verifier::loop_isolation(false)]
fn render_plan(p: &Plan) -> (s: String)
    ensures
        s@ == spec_render(p),
    decreases p,
{
    proof {
        reveal_strlit("SOURCE");
        reveal_strlit("SELECT\n");
        reveal_strlit("WITH_COLUMNS\n");
        reveal_strlit("FILTER\n");
        reveal_strlit("LIMIT\n");
        reveal_strlit("TAIL\n");
        reveal_strlit("GROUP_BY\n");
        reveal_strlit("CONCAT\n");
        reveal_strlit("UNPIVOT\n");
    }
    match p {
        Plan::Source(_) => "SOURCE".to_owned(),
        Plan::Select(inner, _) => {
            let mut s = String::new();
            s.append("SELECT\n");
            let rest = render_plan(inner);
            s.append(rest.as_str());
            proof {
                assert(s@ =~= spec_render(p));
            }
            s
        },
        Plan::WithColumns(inner, _) => {
            let mut s = String::new();
            s.append("WITH_COLUMNS\n");
            let rest = render_plan(inner);
            s.append(rest.as_str());
            proof {
                assert(s@ =~= spec_render(p));
            }
            s
        },
        Plan::Filter(inner, _) => {
            let mut s = String::new();
            s.append("FILTER\n");
            let rest = render_plan(inner);
            s.append(rest.as_str());
            proof {
                assert(s@ =~= spec_render(p));
            }
            s
        },
        Plan::Limit(inner, _) => {
            let mut s = String::new();
            s.append("LIMIT\n");
            let rest = render_plan(inner);
            s.append(rest.as_str());
            proof {
                assert(s@ =~= spec_render(p));
            }
            s
        },
        Plan::Tail(inner, _) => {
            let mut s = String::new();
            s.append("TAIL\n");
            let rest = render_plan(inner);
            s.append(rest.as_str());
            proof {
                assert(s@ =~= spec_render(p));
            }
            s
        },
        Plan::GroupBy(inner, _, _) => {
            let mut s = String::new();
            s.append("GROUP_BY\n");
            let rest = render_plan(inner);
            s.append(rest.as_str());
            proof {
                assert(s@ =~= spec_render(p));
            }
            s
        },
        Plan::ConcatVertical(a, b) => {
            let mut s = String::new();
            s.append("CONCAT\n");
            let left = render_plan(a);
            s.append(left.as_str());
            let right = render_plan(b);
            s.append(right.as_str());
            proof {
                assert(s@ =~= spec_render(p));
            }
            s
        },
        Plan::ConcatDiagonal(a, b) => {
            let mut s = String::new();
            s.append("CONCAT\n");
            let left = render_plan(a);
            s.append(left.as_str());
            let right = render_plan(b);
            s.append(right.as_str());
            proof {
                assert(s@ =~= spec_render(p));
            }
            s
        },
        Plan::Unpivot(inner, _, _, _, _) => {
            let mut s = String::new();
            s.append("UNPIVOT\n");
            let rest = render_plan(inner);
            s.append(rest.as_str());
            proof {
                assert(s@ =~= spec_render(p));
            }
            s
        },
    }
}

/// Concatenates two plans vertically.
pub fn concat_vertical_lazy(left: LazyFrame, right: LazyFrame) -> (lf: LazyFrame)
    ensures
        lf.plan matches Plan::ConcatVertical(a, b) && *a == left.plan && *b == right.plan,
{
    LazyFrame { plan: Plan::ConcatVertical(Box::new(left.plan), Box::new(right.plan)) }
}

/// Concatenates two plans diagonally.
pub fn concat_diagonal_lazy(left: LazyFrame, right: LazyFrame) -> (lf: LazyFrame)
    ensures
        lf.plan matches Plan::ConcatDiagonal(a, b) && *a == left.plan && *b == right.plan,
{
    LazyFrame { plan: Plan::ConcatDiagonal(Box::new(left.plan), Box::new(right.plan)) }
}

/// The schema a streamed scan declares, folded left to right from a
/// struct type's fields (a repeated name keeps its first position and
/// takes the later type).
pub open spec fn spec_stream_schema(
    entries: Seq<(Seq<char>, crate::dtype::DTypeV)>,
) -> Seq<(Seq<char>, crate::dtype::DTypeV)>
    decreases entries,
{
    if entries.len() == 0 {
        Seq::empty()
    } else {
        crate::schema::spec_insert(
            spec_stream_schema(entries.drop_last()),
            entries.last().0,
            entries.last().1,
        )
    }
}

/// The decision half of a streamed scan: the declared root type must be a
/// struct, whose fields give the scan's schema in order. The pull loop
/// that fetches batches runs outside the engine and stacks them
/// vertically onto a `Source` plan.
#[verifier::loop_isolation(false)]
pub fn scan_stream_schema(root: &crate::dtype::LogicalType) -> (r: Result<
    crate::schema::Schema,
    EngineError,
>)
    ensures
        r is Ok <==> root@ is Struct,
        match r {
            Ok(s) => {
                &&& s.wf()
                &&& s.spec_entries() == spec_stream_schema(root@->Struct_0)
            },
            Err(e) => e.kind() == ErrorKind::Compute,
        },
{
    let n = root.struct_len();
    match root {
        crate::dtype::LogicalType::Struct(_) => {},
        _ => {
            return Err(EngineError::compute("a streamed scan's schema must be a struct"));
        },
    }
    let ghost entries = root@->Struct_0;
    let mut s = crate::schema::Schema::new();
    let mut i: usize = 0;
    proof {
        assert(spec_stream_schema(entries.take(0)) =~= Seq::<
            (Seq<char>, crate::dtype::DTypeV),
        >::empty());
        assert(s.spec_entries() =~= spec_stream_schema(entries.take(0)));
    }
    while i < n
        invariant
            i <= n,
            root@ is Struct,
            entries == root@->Struct_0,
            n == entries.len(),
            s.wf(),
            s.spec_entries() == spec_stream_schema(entries.take(i as int)),
        decreases n - i,
    {
        proof {
            assert(entries.take(i + 1).drop_last() =~= entries.take(i as int));
            assert(entries.take(i + 1).last() == entries[i as int]);
        }
        let f = match root.struct_field(i) {
            Some(f) => f,
            None => {
                proof {
                    assert(false);
                }
                return Err(EngineError::compute("field index out of range"));
            },
        };
        s.insert(f.name.as_str(), f.dtype.duplicate());
        i = i + 1;
    }
    proof {
        assert(entries.take(n as int) =~= entries);
    }
    Ok(s)
}

/// Splits a table into row batches of at most `size` rows, in order:
/// every batch holds between one and `size` rows, and stacking the
/// batches vertically restores the table exactly. This is the decision
/// half of streaming collection; a driver hands the batches, in arrival
/// order, to whatever sink consumes them.
#[verifier::loop_isolation(false)]
#[verifier::rlimit(60)]
pub fn split_into_batches(df: &DataFrame, size: usize) -> (r: Vec<DataFrame>)
    requires
        df.wf(),
        size >= 1,
    ensures
        forall|i: int| 0 <= i < r@.len() ==> (#[trigger] r@[i]).wf(),
        (r@.len() == 0) <==> df.spec_height() == 0,
        forall|i: int| 0 <= i < r@.len() ==> 1 <= (#[trigger] r@[i]).spec_height() <= size,
        df.spec_height() > 0 ==> spec_vconcat(frames_model(r@)) == Ok::<Seq<ColV>, ErrorKind>(
            df.model(),
        ),
{
    let h = df.height();
    let w = df.width();
    let ghost m = df.model();
    let mut out: Vec<DataFrame> = Vec::new();
    let mut start: usize = 0;
    if h == 0 {
        return out;
    }
    proof {
        assert forall|c: int| 0 <= c < w implies (#[trigger] m[c]).vals.len() == h by {
            assert(m[c] == crate::expr::ColV::of_series(df.spec_cols()[c]));
            assert(df.spec_cols()[c].spec_vals().len() == crate::frame::frame_height(
                df.spec_cols(),
            ));
        }
        assert forall|c: int| 0 <= c < w implies vcat_vals(
            frames_model(out@),
            c,
        ) =~= (#[trigger] m[c]).vals.take(0) by {}
    }
    while start < h
        invariant
            df.wf(),
            m == df.model(),
            h == df.spec_height(),
            w == df.spec_cols().len(),
            w == m.len(),
            h > 0,
            size >= 1,
            start <= h,
            (out@.len() == 0) <==> (start == 0),
            forall|c: int| 0 <= c < w ==> (#[trigger] m[c]).vals.len() == h,
            forall|i: int| 0 <= i < out@.len() ==> (#[trigger] out@[i]).wf(),
            forall|i: int| 0 <= i < out@.len() ==> 1 <= (#[trigger] out@[i]).spec_height() <= size,
            forall|i: int| 0 <= i < out@.len() ==> (#[trigger] frames_model(out@)[i]).len() == w,
            forall|i: int|
                0 <= i < out@.len() ==> entries_of(#[trigger] frames_model(out@)[i])
                    == entries_of(m),
            forall|c: int|
                0 <= c < w ==> #[trigger] vcat_vals(frames_model(out@), c) == m[c].vals.take(
                    start as int,
                ),
        decreases h - start,
    {
        let rest = h - start;
        let k: usize = if rest > size {
            size
        } else {
            rest
        };
        let tail_part = df.tail_rows(rest);
        let batch = tail_part.head_rows(k);
        proof {
            let ghost bm = batch.model();
            assert(bm.len() == w);
            assert forall|c: int| 0 <= c < w implies #[trigger] bm[c] == (crate::expr::ColV {
                name: m[c].name,
                dtype: m[c].dtype,
                vals: m[c].vals.skip(start as int).take(k as int),
            }) by {
                let tm = tail_part.model();
                assert(tm[c] == (crate::expr::ColV {
                    name: m[c].name,
                    dtype: m[c].dtype,
                    vals: m[c].vals.skip(
                        m[c].vals.len() - crate::exec::spec_min_int(
                            rest as int,
                            m[c].vals.len() as int,
                        ),
                    ),
                }));
                assert(m[c].vals.skip(
                    m[c].vals.len() - crate::exec::spec_min_int(rest as int, m[c].vals.len() as int),
                ) =~= m[c].vals.skip(start as int));
                assert(tm[c].vals.len() == rest);
                assert(bm[c] == (crate::expr::ColV {
                    name: tm[c].name,
                    dtype: tm[c].dtype,
                    vals: tm[c].vals.take(
                        crate::exec::spec_min_int(k as int, tm[c].vals.len() as int),
                    ),
                }));
                assert(tm[c].vals.take(
                    crate::exec::spec_min_int(k as int, tm[c].vals.len() as int),
                ) =~= m[c].vals.skip(start as int).take(k as int));
            }
            assert(entries_of(bm) =~= entries_of(m));
            if w > 0 {
                assert(batch.spec_height() == bm[0].vals.len()) by {
                    assert(bm[0] == crate::expr::ColV::of_series(batch.spec_cols()[0]));
                }
                assert(bm[0].vals.len() == k);
            }
        }
        let ghost old_out = out@;
        out.push(batch);
        proof {
            assert(out@.drop_last() =~= old_out);
            assert(frames_model(out@) =~= frames_model(old_out).push(out@.last().model()));
            assert(frames_model(out@).drop_last() =~= frames_model(old_out));
            assert forall|c: int| 0 <= c < w implies #[trigger] vcat_vals(frames_model(out@), c)
                == m[c].vals.take(start + k) by {
                assert(frames_model(out@).len() > 0);
                assert(frames_model(out@).last() == out@.last().model());
                assert(vcat_vals(frames_model(out@), c) == vcat_vals(
                    frames_model(out@).drop_last(),
                    c,
                ) + frames_model(out@).last()[c].vals);
                assert(vcat_vals(frames_model(out@).drop_last(), c) == vcat_vals(
                    frames_model(old_out),
                    c,
                ));
                assert(m[c].vals.take(start as int) + m[c].vals.skip(start as int).take(k as int)
                    =~= m[c].vals.take(start + k));
            }
            assert forall|i: int| 0 <= i < out@.len() implies entries_of(
                #[trigger] frames_model(out@)[i],
            ) == entries_of(m) by {
                if i < old_out.len() {
                    assert(frames_model(out@)[i] == frames_model(old_out)[i]);
                }
            }
        }
        start = start + k;
    }
    proof {
        // the stacked batches restore the table
        assert forall|c: int| 0 <= c < w implies #[trigger] vcat_vals(frames_model(out@), c)
            == m[c].vals by {
            assert(m[c].vals.take(h as int) =~= m[c].vals);
        }
        let ghost fm = frames_model(out@);
        assert(fm.len() > 0);
        assert forall|f: int| 0 <= f < fm.len() implies entries_of(#[trigger] fm[f])
            == entries_of(fm[0]) by {
            assert(entries_of(fm[f]) == entries_of(m));
            assert(entries_of(fm[0]) == entries_of(m));
        }
        assert(spec_vconcat(fm) == Ok::<Seq<ColV>, ErrorKind>(
            Seq::new(
                fm[0].len() as nat,
                |c: int|
                    ColV { name: fm[0][c].name, dtype: fm[0][c].dtype, vals: vcat_vals(fm, c) },
            ),
        ));
        assert(Seq::new(
            fm[0].len() as nat,
            |c: int| ColV { name: fm[0][c].name, dtype: fm[0][c].dtype, vals: vcat_vals(fm, c) },
        ) =~= m) by {
            assert(entries_of(fm[0]).len() == fm[0].len());
            assert forall|c: int| 0 <= c < w implies (#[trigger] fm[0][c]).name == m[c].name && fm[0][c].dtype
                == m[c].dtype by {
                assert(entries_of(fm[0])[c] == entries_of(m)[c]);
            }
        }
    }
    out
}

} // verus!
