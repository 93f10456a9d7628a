//! Group-by-aggregate: rows are grouped by the values of the key
//! expressions, compared as tuples; each aggregate expression is evaluated
//! over each group's rows; the output has one row per distinct key tuple,
//! keys first, in first-seen group order.

use vstd::prelude::*;

use crate::error::EngineError;
use crate::exec::entries_of;
use crate::exec::model_height;
use crate::exec::spec_broadcast;
use crate::exec::spec_select;
use crate::expr::cols_model;
use crate::expr::spec_eval;
use crate::expr::ColV;
use crate::expr::Expr;
use crate::frame::frame_wf;
use crate::frame::DataFrame;
use crate::series::Series;
use crate::value::lemma_vals_view;
use crate::value::val_matches_dtype;
use crate::value::vals_view;
use crate::value::AnyVal;
use crate::value::Val;

verus! {

broadcast use vstd::std_specs::vec::group_vec_axioms;

/// The key tuple of row `i`: one value per key column.
pub open spec fn row_of(cols: Seq<ColV>, i: int) -> Seq<Val> {
    cols.map_values(|c: ColV| c.vals[i])
}

/// The key tuples of all rows.
pub open spec fn tuples_of(cols: Seq<ColV>, h: nat) -> Seq<Seq<Val>> {
    Seq::new(h, |i: int| row_of(cols, i))
}

/// The distinct tuples in first-seen order.
pub open spec fn distinct_tuples(tuples: Seq<Seq<Val>>) -> Seq<Seq<Val>>
    decreases tuples,
{
    if tuples.len() == 0 {
        Seq::empty()
    } else {
        let prefix = distinct_tuples(tuples.drop_last());
        if prefix.contains(tuples.last()) {
            prefix
        } else {
            prefix.push(tuples.last())
        }
    }
}

/// The Boolean mask of the rows whose tuple equals `key`.
pub open spec fn group_mask(tuples: Seq<Seq<Val>>, key: Seq<Val>) -> Seq<Val> {
    Seq::new(tuples.len(), |i: int| Val::Bool(tuples[i] == key))
}

/// The models of tuple buffers.
pub open spec fn rows_model(gs: Seq<Vec<AnyVal>>) -> Seq<Seq<Val>> {
    gs.map_values(|r: Vec<AnyVal>| vals_view(r@))
}

/// Tuple cells compare elementwise.
#[verifier::loop_isolation(false)]
pub fn tuple_eq(a: &Vec<AnyVal>, b: &Vec<AnyVal>) -> (r: bool)
    ensures
        r == (vals_view(a@) == vals_view(b@)),
{
    proof {
        lemma_vals_view(a@);
        lemma_vals_view(b@);
    }
    if a.len() != b.len() {
        proof {
            assert(vals_view(a@).len() != vals_view(b@).len());
        }
        return false;
    }
    let n = a.len();
    let mut i: usize = 0;
    while i < n
        invariant
            i <= n,
            n == a@.len(),
            n == b@.len(),
            forall|j: int| 0 <= j < i ==> (#[trigger] a@[j])@ == b@[j]@,
        decreases n - i,
    {
        if !a[i].val_eq(&b[i]) {
            proof {
                assert(vals_view(a@)[i as int] != vals_view(b@)[i as int]);
            }
            return false;
        }
        i = i + 1;
    }
    proof {
        assert(vals_view(a@) =~= vals_view(b@));
    }
    true
}

impl DataFrame {
    /// The cells of row `i`, one per column.
    #[verifier::loop_isolation(false)]
    pub fn row_cells(&self, i: usize) -> (r: Vec<AnyVal>)
        requires
            self.wf(),
            i < self.spec_height(),
        ensures
            vals_view(r@) == row_of(self.model(), i as int),
            r@.len() == self.spec_cols().len(),
    {
        let w = self.width();
        let mut out: Vec<AnyVal> = Vec::new();
        let mut c: usize = 0;
        while c < w
            invariant
                c <= w,
                w == self.spec_cols().len(),
                out@.len() == c,
                forall|q: int|
                    0 <= q < c ==> (#[trigger] out@[q])@ == self.model()[q].vals[i as int],
            decreases w - c,
        {
            let col = match self.column_at(c) {
                Some(s) => s,
                None => {
                    proof {
                        assert(false);
                    }
                    return Vec::new();
                },
            };
            proof {
                assert(self.model()[c as int] == ColV::of_series(self.spec_cols()[c as int]));
                assert(col.spec_vals().len() == crate::frame::frame_height(self.spec_cols()));
            }
            out.push(col.cell(i).duplicate());
            c = c + 1;
        }
        proof {
            lemma_vals_view(out@);
            assert(vals_view(out@) =~= row_of(self.model(), i as int));
        }
        out
    }

    /// The distinct row tuples of this table, in first-seen order.
    #[verifier::loop_isolation(false)]
    fn distinct_rows(&self) -> (r: Vec<Vec<AnyVal>>)
        requires
            self.wf(),
        ensures
            rows_model(r@) == distinct_tuples(tuples_of(self.model(), self.spec_height())),
            r@.len() == rows_model(r@).len(),
    {
        let h = self.height();
        let ghost tuples = tuples_of(self.model(), self.spec_height());
        let mut groups: Vec<Vec<AnyVal>> = Vec::new();
        let mut i: usize = 0;
        proof {
            assert(rows_model(groups@) =~= distinct_tuples(tuples.take(0)));
        }
        while i < h
            invariant
                i <= h,
                h == self.spec_height(),
                self.wf(),
                tuples == tuples_of(self.model(), self.spec_height()),
                rows_model(groups@) == distinct_tuples(tuples.take(i as int)),
                groups@.len() == rows_model(groups@).len(),
            decreases h - i,
        {
            proof {
                assert(tuples.take(i + 1).drop_last() =~= tuples.take(i as int));
                assert(tuples.take(i + 1).last() == tuples[i as int]);
            }
            let t = self.row_cells(i);
            let gn = groups.len();
            let mut gpos: usize = 0;
            let mut gfound = false;
            while gpos < gn && !gfound
                invariant
                    gpos <= gn,
                    gn == groups@.len(),
                    vals_view(t@) == tuples[i as int],
                    forall|q: int| 0 <= q < gpos ==> rows_model(groups@)[q] != tuples[i as int],
                    gfound ==> gpos < gn && rows_model(groups@)[gpos as int] == tuples[i as int],
                decreases gn - gpos, (if gfound {
                    0int
                } else {
                    1int
                }),
            {
                if tuple_eq(&groups[gpos], &t) {
                    gfound = true;
                } else {
                    gpos = gpos + 1;
                }
            }
            if gfound {
                proof {
                    assert(distinct_tuples(tuples.take(i as int)).contains(tuples[i as int]));
                    assert(rows_model(groups@) =~= distinct_tuples(tuples.take(i + 1)));
                }
            } else {
                proof {
                    if distinct_tuples(tuples.take(i as int)).contains(tuples[i as int]) {
                        let ghost wv = choose|q: int|
                            0 <= q < distinct_tuples(tuples.take(i as int)).len()
                                && distinct_tuples(tuples.take(i as int))[q] == tuples[i as int];
                        assert(rows_model(groups@)[wv] != tuples[i as int]);
                    }
                }
                let ghost old_groups = groups@;
                groups.push(t);
                proof {
                    assert(groups@.drop_last() =~= old_groups);
                    assert(rows_model(groups@) =~= rows_model(old_groups).push(
                        tuples[i as int],
                    ));
                    assert(rows_model(groups@) =~= distinct_tuples(tuples.take(i + 1)));
                }
            }
            i = i + 1;
        }
        proof {
            assert(tuples.take(h as int) =~= tuples);
        }
        groups
    }

    /// Groups rows by the key expressions (evaluated as a projection of
    /// this table) and evaluates each aggregate over each group's rows.
    /// The result, and the kind of the first failure, follow the
    /// denotation `spec_group_by` exactly: one output row per distinct key
    /// tuple, in first-seen order, the key columns first and one column
    /// per aggregate, each aggregate reducing every group to a single cell
    /// of its whole-table type; grouping needs at least one key of the
    /// table's height, and the output names must be unique.
    #[verifier::loop_isolation(false)]
    #[verifier::rlimit(60)]
    pub fn group_by_agg(&self, keys: &Vec<Expr>, aggs: &Vec<Expr>) -> (r: Result<
        DataFrame,
        EngineError,
    >)
        requires
            self.wf(),
        ensures
            match spec_group_by(
                crate::exec::exprs_view(keys@),
                crate::exec::exprs_view(aggs@),
                self.model(),
            ) {
                Ok(om) => r matches Ok(out) && out.model() == om && out.wf(),
                Err(k) => r matches Err(e) && e.kind() == k,
            },
            // one output row per distinct key tuple of the input
            r matches Ok(out) ==> out.spec_height() == distinct_tuples(
                tuples_of(
                    spec_select(crate::exec::exprs_view(keys@), self.model())->Ok_0,
                    model_height(
                        spec_select(crate::exec::exprs_view(keys@), self.model())->Ok_0,
                    ),
                ),
            ).len(),
    {
        let ghost m = self.model();
        let ghost keysv = crate::exec::exprs_view(keys@);
        let ghost aggsv = crate::exec::exprs_view(aggs@);
        proof {
            crate::exec::lemma_exprs_view(aggs@);
        }
        let kf = self.select_exprs(keys)?;
        if kf.width() == 0 {
            return Err(EngineError::compute("grouping requires at least one key"));
        }
        let h = self.height();
        let ghost kfm = kf.model();
        proof {
            assert(kf.spec_height() == model_height(kfm)) by {
                if kf.spec_cols().len() > 0 {
                    assert(kfm[0] == ColV::of_series(kf.spec_cols()[0]));
                }
            }
        }
        if kf.height() != h {
            return Err(EngineError::shape("key columns must have the table height"));
        }
        let ghost tuples = tuples_of(kfm, model_height(kfm));
        let groups = kf.distinct_rows();
        let ghost groupsv = distinct_tuples(tuples);
        let gcount = groups.len();
        let kw = kf.width();
        // the key output columns: one row per group
        let mut out_cols: Vec<Series> = Vec::new();
        let mut kc: usize = 0;
        while kc < kw
            invariant
                kc <= kw,
                kw == kf.spec_cols().len(),
                kw == kfm.len(),
                kf.wf(),
                kfm == kf.model(),
                tuples == tuples_of(kfm, model_height(kfm)),
                groupsv == distinct_tuples(tuples),
                rows_model(groups@) == groupsv,
                groups@.len() == groupsv.len(),
                gcount == groups@.len(),
                out_cols@.len() == kc,
                forall|q: int| 0 <= q < kc ==> (#[trigger] out_cols@[q]).wf(),
                forall|q: int|
                    0 <= q < kc ==> ColV::of_series(#[trigger] out_cols@[q]) == spec_key_cols(
                        kfm,
                        groupsv,
                    )[q],
            decreases kw - kc,
        {
            let src = match kf.column_at(kc) {
                Some(s) => s,
                None => {
                    proof {
                        assert(false);
                    }
                    return Err(EngineError::compute("column index out of range"));
                },
            };
            proof {
                assert(kfm[kc as int] == ColV::of_series(kf.spec_cols()[kc as int]));
            }
            let mut cells: Vec<AnyVal> = Vec::new();
            let mut g3: usize = 0;
            while g3 < gcount
                invariant
                    g3 <= gcount,
                    kc < kw,
                    kw == kfm.len(),
                    kf.wf(),
                    kfm == kf.model(),
                    tuples == tuples_of(kfm, model_height(kfm)),
                    groupsv == distinct_tuples(tuples),
                    gcount == groups@.len(),
                    rows_model(groups@) == groupsv,
                    groups@.len() == groupsv.len(),
                    cells@.len() == g3,
                    forall|q: int| 0 <= q < g3 ==> (#[trigger] cells@[q])@ == groupsv[q][kc as int],
                    forall|q: int|
                        0 <= q < g3 ==> val_matches_dtype(
                            (#[trigger] cells@[q])@,
                            kfm[kc as int].dtype,
                        ),
                decreases gcount - g3,
            {
                proof {
                    assert(rows_model(groups@)[g3 as int] == vals_view(groups@[g3 as int]@));
                    lemma_vals_view(groups@[g3 as int]@);
                    lemma_distinct_from_rows(tuples, g3 as int);
                    let ghost src_row = choose|i: int|
                        0 <= i < tuples.len() && tuples[i] == groupsv[g3 as int];
                    assert(tuples[src_row] == row_of(kfm, src_row));
                    assert(row_of(kfm, src_row)[kc as int] == kfm[kc as int].vals[src_row]);
                    assert(kfm[kc as int] == ColV::of_series(kf.spec_cols()[kc as int]));
                    assert(kf.spec_cols()[kc as int].wf());
                    assert(kf.spec_cols()[kc as int].spec_vals().len()
                        == crate::frame::frame_height(kf.spec_cols()));
                }
                if groups[g3].len() != kw {
                    proof {
                        assert(rows_model(groups@)[g3 as int].len() == vals_view(
                            groups@[g3 as int]@,
                        ).len());
                        assert(groupsv[g3 as int].len() == kfm.len());
                    }
                    return Err(EngineError::compute("key tuple width mismatch"));
                }
                let cell = groups[g3][kc].duplicate();
                cells.push(cell);
                g3 = g3 + 1;
            }
            proof {
                lemma_vals_view(cells@);
                assert forall|q: int| 0 <= q < vals_view(cells@).len() implies val_matches_dtype(
                    #[trigger] vals_view(cells@)[q],
                    kfm[kc as int].dtype,
                ) by {
                    assert(vals_view(cells@)[q] == cells@[q]@);
                }
            }
            let out_col = Series::from_checked(
                src.name().to_owned(),
                src.dtype().duplicate(),
                cells,
            );
            out_cols.push(out_col);
            proof {
                assert(ColV::of_series(out_cols@.last()) =~= spec_key_cols(kfm, groupsv)[
                    kc as int]);
            }
            kc = kc + 1;
        }
        // one column per aggregate, one cell per group
        let mut a: usize = 0;
        proof {
            assert(spec_agg_cols(aggsv.take(0), m, tuples, groupsv) == Ok::<
                Seq<ColV>,
                crate::error::ErrorKind,
            >(Seq::empty()));
        }
        while a < aggs.len()
            invariant
                a <= aggs@.len(),
                m == self.model(),
                self.wf(),
                h == self.spec_height(),
                kw == kfm.len(),
                kf.wf(),
                kfm == kf.model(),
                kf.spec_height() == model_height(kfm),
                h == model_height(kfm),
                tuples == tuples_of(kfm, model_height(kfm)),
                groupsv == distinct_tuples(tuples),
                rows_model(groups@) == groupsv,
                groups@.len() == groupsv.len(),
                gcount == groups@.len(),
                aggsv == crate::exec::exprs_view(aggs@),
                forall|q: int|
                    0 <= q < aggs@.len() ==> #[trigger] aggsv[q] == crate::expr::expr_view(
                        &aggs@[q],
                    ),
                out_cols@.len() == kw + a,
                forall|q: int| 0 <= q < kw + a ==> (#[trigger] out_cols@[q]).wf(),
                forall|q: int|
                    0 <= q < kw ==> ColV::of_series(#[trigger] out_cols@[q]) == spec_key_cols(
                        kfm,
                        groupsv,
                    )[q],
                spec_agg_cols(aggsv.take(a as int), m, tuples, groupsv) matches Ok(acc) && acc
                    == cols_model(out_cols@).skip(kw as int),
            decreases aggs@.len() - a,
        {
            proof {
                assert(aggsv.take(a + 1).drop_last() =~= aggsv.take(a as int));
                assert(aggsv.take(a + 1).last() == aggsv[a as int]);
            }
            let col = match self.agg_column(&kf, &groups, &aggs[a]) {
                Ok(c) => c,
                Err(err) => {
                    proof {
                        assert(spec_agg_cols(aggsv.take(a + 1), m, tuples, groupsv) == Err::<
                            Seq<ColV>,
                            crate::error::ErrorKind,
                        >(err.kind()));
                        lemma_agg_cols_prefix_err(aggsv, m, tuples, groupsv, a + 1);
                    }
                    return Err(err);
                },
            };
            let ghost old_out = out_cols@;
            out_cols.push(col);
            proof {
                assert(out_cols@.drop_last() =~= old_out);
                assert(cols_model(out_cols@) =~= cols_model(old_out).push(
                    ColV::of_series(out_cols@.last()),
                ));
                assert(cols_model(out_cols@).skip(kw as int) =~= cols_model(old_out).skip(
                    kw as int,
                ).push(ColV::of_series(out_cols@.last())));
            }
            a = a + 1;
        }
        proof {
            assert(aggsv.take(aggs@.len() as int) =~= aggsv);
        }
        let ghost acols = spec_agg_cols(aggsv, m, tuples, groupsv)->Ok_0;
        let ghost target = spec_key_cols(kfm, groupsv) + acols;
        proof {
            lemma_agg_cols_len(aggsv, m, tuples, groupsv);
            assert(cols_model(out_cols@) =~= target);
            lemma_entries_pointwise(out_cols@, target);
        }
        // output names must be unique
        let total = out_cols.len();
        let mut x: usize = 0;
        while x < total
            invariant
                total == out_cols@.len(),
                x <= total,
                cols_model(out_cols@) == target,
                forall|p: int, q: int|
                    0 <= p < q < total && p < x ==> (#[trigger] target[p]).name != (
                    #[trigger] target[q]).name,
            decreases total - x,
        {
            let mut y: usize = x + 1;
            while y < total
                invariant
                    x < y <= total,
                    total == out_cols@.len(),
                    cols_model(out_cols@) == target,
                    forall|q: int| x < q < y ==> target[x as int].name != (#[trigger] target[q]).name,
                decreases total - y,
            {
                if out_cols[x].name().to_owned().eq(&out_cols[y].name().to_owned()) {
                    proof {
                        assert(ColV::of_series(out_cols@[x as int]).name == ColV::of_series(
                            out_cols@[y as int],
                        ).name);
                        assert(entries_of(target)[x as int].0 == entries_of(target)[y as int].0);
                        assert(!crate::schema::names_unique(entries_of(target)));
                    }
                    return Err(EngineError::schema("duplicate output column name"));
                }
                y = y + 1;
            }
            x = x + 1;
        }
        proof {
            assert(crate::schema::names_unique(entries_of(target))) by {
                assert forall|p: int, q: int|
                    0 <= p < q < entries_of(target).len() implies (
                #[trigger] entries_of(target)[p]).0 != (#[trigger] entries_of(target)[q]).0 by {
                    assert(target[p].name != target[q].name);
                }
            }
            // every output column has one cell per group
            lemma_agg_cols_heights(aggsv, m, tuples, groupsv);
            assert(frame_wf(out_cols@)) by {
                assert forall|q: int| 0 <= q < out_cols@.len() implies (
                #[trigger] out_cols@[q]).spec_vals().len() == groupsv.len() by {
                    assert(ColV::of_series(out_cols@[q]) == target[q]);
                    if q < kw {
                        assert(target[q] == spec_key_cols(kfm, groupsv)[q]);
                    } else {
                        assert(target[q] == acols[q - kw]);
                    }
                }
                if out_cols@.len() > 0 {
                    assert(crate::frame::frame_height(out_cols@) == out_cols@[
                        0].spec_vals().len());
                }
                assert forall|p: int, q: int|
                    0 <= p < q < out_cols@.len() implies (#[trigger] out_cols@[p]).spec_name() != (
                #[trigger] out_cols@[q]).spec_name() by {
                    assert(target[p].name != target[q].name);
                    assert(ColV::of_series(out_cols@[p]) == target[p]);
                    assert(ColV::of_series(out_cols@[q]) == target[q]);
                }
            }
        }
        let df = DataFrame::from_checked(out_cols);
        proof {
            assert(df.model() =~= target);
            assert(spec_group_by(keysv, aggsv, m) == Ok::<Seq<ColV>, crate::error::ErrorKind>(
                target,
            ));
            if df.spec_cols().len() > 0 {
                assert(df.spec_height() == ColV::of_series(df.spec_cols()[0]).vals.len());
                assert(ColV::of_series(df.spec_cols()[0]) == target[0]);
                assert(target[0] == spec_key_cols(kfm, groupsv)[0]);
            }
        }
        Ok(df)
    }

    /// One aggregate's output column: the aggregate's whole-table
    /// evaluation fixes its name and type, then each group's sub-table is
    /// reduced to a single cell of that type.
    #[verifier::loop_isolation(false)]
    #[verifier::rlimit(60)]
    fn agg_column(&self, kf: &DataFrame, groups: &Vec<Vec<AnyVal>>, agg: &Expr) -> (r: Result<
        Series,
        EngineError,
    >)
        requires
            self.wf(),
            kf.wf(),
            kf.spec_height() == model_height(kf.model()),
            model_height(kf.model()) == self.spec_height(),
            rows_model(groups@) == distinct_tuples(
                tuples_of(kf.model(), model_height(kf.model())),
            ),
            groups@.len() == rows_model(groups@).len(),
        ensures
            match spec_agg_result(
                crate::expr::expr_view(agg),
                self.model(),
                tuples_of(kf.model(), model_height(kf.model())),
                distinct_tuples(tuples_of(kf.model(), model_height(kf.model()))),
            ) {
                Ok(cv) => r matches Ok(s) && ColV::of_series(s) == cv && s.wf(),
                Err(k) => r matches Err(e) && e.kind() == k,
            },
    {
        let ghost m = self.model();
        let ghost kfm = kf.model();
        let ghost tuples = tuples_of(kfm, model_height(kfm));
        let ghost groupsv = distinct_tuples(tuples);
        let h = self.height();
        let proto = agg.eval(self)?;
        let gcount = groups.len();
        let mut cells: Vec<AnyVal> = Vec::new();
        let mut g: usize = 0;
        proof {
            assert(spec_agg_vals(crate::expr::expr_view(agg), m, tuples, groupsv.take(0),
                proto.spec_dtype()) == Ok::<Seq<Val>, crate::error::ErrorKind>(Seq::empty()));
            assert(vals_view(cells@) =~= Seq::<Val>::empty());
        }
        while g < gcount
            invariant
                g <= gcount,
                m == self.model(),
                self.wf(),
                h == self.spec_height(),
                kf.wf(),
                kfm == kf.model(),
                kf.spec_height() == model_height(kfm),
                h == model_height(kfm),
                tuples == tuples_of(kfm, model_height(kfm)),
                groupsv == distinct_tuples(tuples),
                rows_model(groups@) == groupsv,
                groups@.len() == groupsv.len(),
                gcount == groups@.len(),
                ColV::of_series(proto) == spec_eval(crate::expr::expr_view(agg), m)->Ok_0,
                spec_eval(crate::expr::expr_view(agg), m) is Ok,
                spec_agg_vals(crate::expr::expr_view(agg), m, tuples, groupsv.take(g as int),
                    proto.spec_dtype()) matches Ok(vs) && vs == vals_view(cells@),
                cells@.len() == vals_view(cells@).len(),
                forall|q: int|
                    0 <= q < vals_view(cells@).len() ==> val_matches_dtype(
                        #[trigger] vals_view(cells@)[q],
                        proto.spec_dtype(),
                    ),
            decreases gcount - g,
        {
            proof {
                assert(groupsv.take(g + 1).drop_last() =~= groupsv.take(g as int));
                assert(groupsv.take(g + 1).last() == groupsv[g as int]);
            }
            // the mask of this group's rows
            let mut mask_cells: Vec<AnyVal> = Vec::new();
            let mut rr: usize = 0;
            while rr < h
                invariant
                    rr <= h,
                    g < gcount,
                    h == self.spec_height(),
                    kf.wf(),
                    kfm == kf.model(),
                    kf.spec_height() == model_height(kfm),
                    h == model_height(kfm),
                    tuples == tuples_of(kfm, model_height(kfm)),
                    gcount == groups@.len(),
                    rows_model(groups@) == groupsv,
                    mask_cells@.len() == rr,
                    forall|q: int|
                        0 <= q < rr ==> (#[trigger] mask_cells@[q])@ == Val::Bool(
                            tuples[q] == groupsv[g as int],
                        ),
                decreases h - rr,
            {
                let t = kf.row_cells(rr);
                let same = tuple_eq(&t, &groups[g]);
                proof {
                    assert(rows_model(groups@)[g as int] == vals_view(groups@[g as int]@));
                }
                mask_cells.push(AnyVal::Bool(same));
                rr = rr + 1;
            }
            proof {
                lemma_vals_view(mask_cells@);
                assert(vals_view(mask_cells@) =~= group_mask(tuples, groupsv[g as int]));
                assert forall|q: int| 0 <= q < vals_view(mask_cells@).len() implies
                    val_matches_dtype(
                    #[trigger] vals_view(mask_cells@)[q],
                    crate::dtype::DTypeV::Boolean,
                ) by {
                    assert(vals_view(mask_cells@)[q] == mask_cells@[q]@);
                }
            }
            let mask = Series::from_checked(
                "mask".to_owned(),
                crate::dtype::LogicalType::Boolean,
                mask_cells,
            );
            let sub = match self.filter_rows(&mask) {
                Ok(s) => s,
                Err(_) => {
                    proof {
                        assert(false);
                    }
                    return Err(EngineError::compute("group mask rejected"));
                },
            };
            proof {
                assert(spec_broadcast(mask.spec_vals(), self.spec_height()) == mask.spec_vals());
                assert(sub.model() == crate::exec::spec_filter_frame(
                    m,
                    group_mask(tuples, groupsv[g as int]),
                ));
            }
            let c = match agg.eval(&sub) {
                Ok(s) => s,
                Err(err) => {
                    proof {
                        assert(spec_agg_vals(crate::expr::expr_view(agg), m, tuples,
                            groupsv.take(g + 1), proto.spec_dtype()) == Err::<
                            Seq<Val>,
                            crate::error::ErrorKind,
                        >(err.kind()));
                        lemma_agg_vals_prefix_err(
                            crate::expr::expr_view(agg),
                            m,
                            tuples,
                            groupsv,
                            proto.spec_dtype(),
                            g + 1,
                        );
                    }
                    return Err(err);
                },
            };
            if c.len() != 1 || !c.dtype().dtype_eq(proto.dtype()) {
                proof {
                    assert(spec_agg_vals(crate::expr::expr_view(agg), m, tuples,
                        groupsv.take(g + 1), proto.spec_dtype()) == Err::<
                        Seq<Val>,
                        crate::error::ErrorKind,
                    >(crate::error::ErrorKind::Compute));
                    lemma_agg_vals_prefix_err(
                        crate::expr::expr_view(agg),
                        m,
                        tuples,
                        groupsv,
                        proto.spec_dtype(),
                        g + 1,
                    );
                }
                return Err(
                    EngineError::compute("aggregate must yield one cell of its whole-table type"),
                );
            }
            proof {
                assert(c.wf());
                assert(val_matches_dtype(c.spec_vals()[0], c.spec_dtype()));
            }
            let ghost old_cells = cells@;
            cells.push(c.cell(0).duplicate());
            proof {
                assert(cells@.drop_last() =~= old_cells);
                assert(vals_view(cells@) == vals_view(old_cells).push(c.spec_vals()[0]));
            }
            g = g + 1;
        }
        proof {
            assert(groupsv.take(gcount as int) =~= groupsv);
            lemma_vals_view(cells@);
        }
        let out = Series::from_checked(
            proto.name().to_owned(),
            proto.dtype().duplicate(),
            cells,
        );
        proof {
            assert(ColV::of_series(out) =~= spec_agg_result(
                crate::expr::expr_view(agg),
                m,
                tuples,
                groupsv,
            )->Ok_0);
        }
        Ok(out)
    }
}

/// The key part of the output: one column per key, one cell per group.
pub open spec fn spec_key_cols(kf: Seq<ColV>, groups: Seq<Seq<Val>>) -> Seq<ColV> {
    Seq::new(
        kf.len(),
        |kc: int|
            ColV {
                name: kf[kc].name,
                dtype: kf[kc].dtype,
                vals: Seq::new(groups.len(), |g: int| groups[g][kc]),
            },
    )
}

/// One aggregate's cells, one per group: the aggregate evaluated over each
/// group's sub-table must give a single cell of the whole-table type.
pub open spec fn spec_agg_vals(
    agg: crate::expr::ExprV,
    m: Seq<ColV>,
    tuples: Seq<Seq<Val>>,
    groups: Seq<Seq<Val>>,
    proto_dtype: crate::dtype::DTypeV,
) -> Result<Seq<Val>, crate::error::ErrorKind>
    decreases groups,
{
    if groups.len() == 0 {
        Ok(Seq::empty())
    } else {
        match spec_agg_vals(agg, m, tuples, groups.drop_last(), proto_dtype) {
            Err(k) => Err(k),
            Ok(prefix) => {
                let sub = crate::exec::spec_filter_frame(m, group_mask(tuples, groups.last()));
                match spec_eval(agg, sub) {
                    Err(k) => Err(k),
                    Ok(c) => {
                        if c.vals.len() == 1 && c.dtype == proto_dtype {
                            Ok(prefix.push(c.vals[0]))
                        } else {
                            Err(crate::error::ErrorKind::Compute)
                        }
                    },
                }
            },
        }
    }
}

/// One aggregate's output column: its whole-table evaluation gives the
/// name and type, the per-group reductions give the cells.
pub open spec fn spec_agg_result(
    agg: crate::expr::ExprV,
    m: Seq<ColV>,
    tuples: Seq<Seq<Val>>,
    groups: Seq<Seq<Val>>,
) -> Result<ColV, crate::error::ErrorKind> {
    match spec_eval(agg, m) {
        Err(k) => Err(k),
        Ok(proto) => match spec_agg_vals(agg, m, tuples, groups, proto.dtype) {
            Err(k) => Err(k),
            Ok(vals) => Ok(ColV { name: proto.name, dtype: proto.dtype, vals }),
        },
    }
}

/// The aggregate columns, left to right; the first error wins.
pub open spec fn spec_agg_cols(
    aggs: Seq<crate::expr::ExprV>,
    m: Seq<ColV>,
    tuples: Seq<Seq<Val>>,
    groups: Seq<Seq<Val>>,
) -> Result<Seq<ColV>, crate::error::ErrorKind>
    decreases aggs,
{
    if aggs.len() == 0 {
        Ok(Seq::empty())
    } else {
        match spec_agg_cols(aggs.drop_last(), m, tuples, groups) {
            Err(k) => Err(k),
            Ok(prefix) => match spec_agg_result(aggs.last(), m, tuples, groups) {
                Err(k) => Err(k),
                Ok(c) => Ok(prefix.push(c)),
            },
        }
    }
}

/// The denotation of group-by-aggregate: the keys evaluated as a
/// projection, rows grouped by key tuple in first-seen order, the key
/// columns then one column per aggregate, with unique output names.
pub open spec fn spec_group_by(
    keys: Seq<crate::expr::ExprV>,
    aggs: Seq<crate::expr::ExprV>,
    m: Seq<ColV>,
) -> Result<Seq<ColV>, crate::error::ErrorKind> {
    match spec_select(keys, m) {
        Err(k) => Err(k),
        Ok(kf) => {
            if kf.len() == 0 {
                Err(crate::error::ErrorKind::Compute)
            } else if model_height(kf) != model_height(m) {
                Err(crate::error::ErrorKind::Shape)
            } else {
                let tuples = tuples_of(kf, model_height(kf));
                let groups = distinct_tuples(tuples);
                match spec_agg_cols(aggs, m, tuples, groups) {
                    Err(k) => Err(k),
                    Ok(acols) => {
                        let out = spec_key_cols(kf, groups) + acols;
                        if crate::schema::names_unique(entries_of(out)) {
                            Ok(out)
                        } else {
                            Err(crate::error::ErrorKind::Schema)
                        }
                    },
                }
            }
        },
    }
}

/// An error in a prefix of the groups is the whole column's error.
proof fn lemma_agg_vals_prefix_err(
    agg: crate::expr::ExprV,
    m: Seq<ColV>,
    tuples: Seq<Seq<Val>>,
    groups: Seq<Seq<Val>>,
    proto_dtype: crate::dtype::DTypeV,
    j: int,
)
    requires
        0 <= j <= groups.len(),
        spec_agg_vals(agg, m, tuples, groups.take(j), proto_dtype) is Err,
    ensures
        spec_agg_vals(agg, m, tuples, groups, proto_dtype) == spec_agg_vals(
            agg,
            m,
            tuples,
            groups.take(j),
            proto_dtype,
        ),
    decreases groups.len() - j,
{
    if j < groups.len() {
        assert(groups.take(j + 1).drop_last() =~= groups.take(j));
        lemma_agg_vals_prefix_err(agg, m, tuples, groups, proto_dtype, j + 1);
    } else {
        assert(groups.take(j) =~= groups);
    }
}

/// An error in a prefix of the aggregate list is the whole list's error.
proof fn lemma_agg_cols_prefix_err(
    aggs: Seq<crate::expr::ExprV>,
    m: Seq<ColV>,
    tuples: Seq<Seq<Val>>,
    groups: Seq<Seq<Val>>,
    j: int,
)
    requires
        0 <= j <= aggs.len(),
        spec_agg_cols(aggs.take(j), m, tuples, groups) is Err,
    ensures
        spec_agg_cols(aggs, m, tuples, groups) == spec_agg_cols(aggs.take(j), m, tuples, groups),
    decreases aggs.len() - j,
{
    if j < aggs.len() {
        assert(aggs.take(j + 1).drop_last() =~= aggs.take(j));
        lemma_agg_cols_prefix_err(aggs, m, tuples, groups, j + 1);
    } else {
        assert(aggs.take(j) =~= aggs);
    }
}

/// The aggregate column list has one entry per aggregate.
pub proof fn lemma_agg_cols_len(
    aggs: Seq<crate::expr::ExprV>,
    m: Seq<ColV>,
    tuples: Seq<Seq<Val>>,
    groups: Seq<Seq<Val>>,
)
    requires
        spec_agg_cols(aggs, m, tuples, groups) is Ok,
    ensures
        spec_agg_cols(aggs, m, tuples, groups)->Ok_0.len() == aggs.len(),
    decreases aggs,
{
    if aggs.len() > 0 {
        lemma_agg_cols_len(aggs.drop_last(), m, tuples, groups);
    }
}

/// Every aggregate column has one cell per group, so group-by-aggregate
/// yields exactly one output row per distinct key tuple.
pub proof fn lemma_agg_cols_heights(
    aggs: Seq<crate::expr::ExprV>,
    m: Seq<ColV>,
    tuples: Seq<Seq<Val>>,
    groups: Seq<Seq<Val>>,
)
    requires
        spec_agg_cols(aggs, m, tuples, groups) is Ok,
    ensures
        spec_agg_cols(aggs, m, tuples, groups)->Ok_0.len() == aggs.len(),
        forall|a: int|
            0 <= a < aggs.len() ==> (#[trigger] spec_agg_cols(aggs, m, tuples, groups)->Ok_0[
                a]).vals.len() == groups.len(),
    decreases aggs,
{
    if aggs.len() > 0 {
        lemma_agg_cols_heights(aggs.drop_last(), m, tuples, groups);
        let proto = spec_eval(aggs.last(), m)->Ok_0;
        lemma_agg_vals_len(aggs.last(), m, tuples, groups, proto.dtype);
    }
}

/// The per-group cell list has one entry per group.
proof fn lemma_agg_vals_len(
    agg: crate::expr::ExprV,
    m: Seq<ColV>,
    tuples: Seq<Seq<Val>>,
    groups: Seq<Seq<Val>>,
    proto_dtype: crate::dtype::DTypeV,
)
    requires
        spec_agg_vals(agg, m, tuples, groups, proto_dtype) is Ok,
    ensures
        spec_agg_vals(agg, m, tuples, groups, proto_dtype)->Ok_0.len() == groups.len(),
    decreases groups,
{
    if groups.len() > 0 {
        lemma_agg_vals_len(agg, m, tuples, groups.drop_last(), proto_dtype);
    }
}

/// Pointwise name equality between built columns and their models.
proof fn lemma_entries_pointwise(cols: Seq<Series>, target: Seq<ColV>)
    requires
        cols_model(cols) == target,
    ensures
        entries_of(target).len() == target.len(),
        forall|q: int|
            0 <= q < target.len() ==> #[trigger] entries_of(target)[q] == (
            target[q].name,
            target[q].dtype,
            ),
{
}

/// A distinct tuple is one of the rows' tuples.
pub proof fn lemma_distinct_from_rows(tuples: Seq<Seq<Val>>, g: int)
    requires
        0 <= g < distinct_tuples(tuples).len(),
    ensures
        exists|i: int| 0 <= i < tuples.len() && tuples[i] == distinct_tuples(tuples)[g],
    decreases tuples,
{
    if tuples.len() > 0 {
        let prefix = distinct_tuples(tuples.drop_last());
        if prefix.contains(tuples.last()) {
            lemma_distinct_from_rows(tuples.drop_last(), g);
            let i = choose|i: int|
                0 <= i < tuples.drop_last().len() && tuples.drop_last()[i] == distinct_tuples(
                    tuples,
                )[g];
            assert(tuples[i] == distinct_tuples(tuples)[g]);
        } else {
            if g < prefix.len() {
                lemma_distinct_from_rows(tuples.drop_last(), g);
                let i = choose|i: int|
                    0 <= i < tuples.drop_last().len() && tuples.drop_last()[i] == distinct_tuples(
                        tuples.drop_last(),
                    )[g];
                assert(tuples[i] == distinct_tuples(tuples)[g]);
            } else {
                assert(tuples[tuples.len() - 1] == distinct_tuples(tuples)[g]);
            }
        }
    }
}

} // verus!
