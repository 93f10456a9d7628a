//! Unpivot (melt): index columns are retained per output row; the `on`
//! columns (all non-index columns when unspecified) are stacked into a
//! variable-name column and a value column, giving `len(on) * height`
//! rows.

use vstd::prelude::*;

use crate::dtype::DTypeV;
use crate::dtype::LogicalType;
use crate::error::EngineError;
use crate::error::ErrorKind;
use crate::exec::entries_of;
use crate::exec::model_height;
use crate::expr::col_index_m;
use crate::expr::cols_model;
use crate::expr::lemma_col_index_m;
use crate::expr::lemma_col_index_model;
use crate::expr::ColV;
use crate::frame::frame_wf;
use crate::frame::DataFrame;
use crate::selector::names_view;
use crate::series::Series;
use crate::value::lemma_vals_view;
use crate::value::val_matches_dtype;
use crate::value::vals_view;
use crate::value::AnyVal;
use crate::value::Val;

verus! {

broadcast use vstd::std_specs::vec::group_vec_axioms;

/// A cell sequence repeated `k` times.
pub open spec fn tile_vals(vals: Seq<Val>, k: nat) -> Seq<Val>
    decreases k,
{
    if k == 0 {
        Seq::empty()
    } else {
        tile_vals(vals, (k - 1) as nat) + vals
    }
}

/// The variable column: each `on` name repeated `h` times, in order.
pub open spec fn var_vals(on: Seq<Seq<char>>, h: nat) -> Seq<Val>
    decreases on,
{
    if on.len() == 0 {
        Seq::empty()
    } else {
        var_vals(on.drop_last(), h) + Seq::new(h, |i: int| Val::Text(on.last()))
    }
}

/// The value column: the `on` columns' cells, stacked in order.
pub open spec fn value_vals(cols: Seq<ColV>, on: Seq<Seq<char>>) -> Seq<Val>
    decreases on,
{
    if on.len() == 0 {
        Seq::empty()
    } else {
        value_vals(cols, on.drop_last()) + (match col_index_m(cols, on.last()) {
            Some(i) => cols[i].vals,
            None => Seq::empty(),
        })
    }
}

/// The names of the columns not in the index list, in schema order: the
/// default `on` list.
pub open spec fn spec_default_on(cols: Seq<ColV>, index: Seq<Seq<char>>) -> Seq<Seq<char>>
    decreases cols,
{
    if cols.len() == 0 {
        Seq::empty()
    } else {
        let prefix = spec_default_on(cols.drop_last(), index);
        if index.contains(cols.last().name) {
            prefix
        } else {
            prefix.push(cols.last().name)
        }
    }
}

/// Whether the unpivot arguments are acceptable against a table: every
/// index and `on` name present, the `on` columns sharing one type, and the
/// output names (index, variable, value) pairwise distinct.
pub open spec fn spec_unpivot_ok(
    cols: Seq<ColV>,
    index: Seq<Seq<char>>,
    on: Seq<Seq<char>>,
    varname: Seq<char>,
    valname: Seq<char>,
) -> bool {
    &&& (forall|i: int| 0 <= i < index.len() ==> col_index_m(cols, #[trigger] index[i]) is Some)
    &&& (forall|i: int| 0 <= i < on.len() ==> col_index_m(cols, #[trigger] on[i]) is Some)
    &&& (forall|i: int|
        0 <= i < on.len() ==> (match col_index_m(cols, #[trigger] on[i]) {
            Some(ci) => cols[ci].dtype == on_dtype(cols, on),
            None => false,
        }))
    &&& (forall|i: int, j: int| 0 <= i < j < index.len() ==> index[i] != index[j])
    &&& varname != valname
    &&& !index.contains(varname)
    &&& !index.contains(valname)
}

/// The shared type of the `on` columns (the first one's type; `Null` when
/// the list is empty).
pub open spec fn on_dtype(cols: Seq<ColV>, on: Seq<Seq<char>>) -> DTypeV {
    if on.len() == 0 {
        DTypeV::Null
    } else {
        match col_index_m(cols, on[0]) {
            Some(ci) => cols[ci].dtype,
            None => DTypeV::Null,
        }
    }
}

/// The model of an unpivoted table: the index columns tiled once per `on`
/// column, then the variable and value columns.
pub open spec fn spec_unpivot(
    cols: Seq<ColV>,
    index: Seq<Seq<char>>,
    on: Seq<Seq<char>>,
    varname: Seq<char>,
    valname: Seq<char>,
) -> Seq<ColV> {
    let k = on.len();
    let idx_cols = index.map_values(
        |n: Seq<char>|
            match col_index_m(cols, n) {
                Some(ci) => ColV {
                    name: n,
                    dtype: cols[ci].dtype,
                    vals: tile_vals(cols[ci].vals, k),
                },
                None => ColV { name: n, dtype: DTypeV::Null, vals: Seq::empty() },
            },
    );
    idx_cols.push(
        ColV { name: varname, dtype: DTypeV::Str, vals: var_vals(on, model_height(cols)) },
    ).push(ColV { name: valname, dtype: on_dtype(cols, on), vals: value_vals(cols, on) })
}

/// Tiling multiplies the length.
proof fn lemma_tile_len(vals: Seq<Val>, k: nat)
    ensures
        tile_vals(vals, k).len() == k * vals.len(),
    decreases k,
{
    if k > 0 {
        lemma_tile_len(vals, (k - 1) as nat);
        assert(tile_vals(vals, k) == tile_vals(vals, (k - 1) as nat) + vals);
        assert(tile_vals(vals, k).len() == ((k - 1) as nat) * vals.len() + vals.len());
        assert(k * vals.len() == ((k - 1) as nat) * vals.len() + vals.len()) by (nonlinear_arith)
            requires
                k >= 1,
        ;
    } else {
        assert(k * vals.len() == 0) by (nonlinear_arith)
            requires
                k == 0,
        ;
    }
}

/// Tiled cells keep their type.
proof fn lemma_tile_wf(vals: Seq<Val>, k: nat, t: DTypeV)
    requires
        forall|i: int| 0 <= i < vals.len() ==> val_matches_dtype(#[trigger] vals[i], t),
    ensures
        forall|i: int|
            0 <= i < tile_vals(vals, k).len() ==> val_matches_dtype(
                #[trigger] tile_vals(vals, k)[i],
                t,
            ),
    decreases k,
{
    if k > 0 {
        lemma_tile_wf(vals, (k - 1) as nat, t);
        let prev = tile_vals(vals, (k - 1) as nat);
        assert forall|i: int| 0 <= i < tile_vals(vals, k).len() implies val_matches_dtype(
            #[trigger] tile_vals(vals, k)[i],
            t,
        ) by {
            if i < prev.len() {
                assert(tile_vals(vals, k)[i] == prev[i]);
            } else {
                assert(tile_vals(vals, k)[i] == vals[i - prev.len()]);
            }
        }
    }
}

/// The variable column's length.
proof fn lemma_var_len(on: Seq<Seq<char>>, h: nat)
    ensures
        var_vals(on, h).len() == on.len() * h,
        forall|i: int|
            0 <= i < var_vals(on, h).len() ==> val_matches_dtype(
                #[trigger] var_vals(on, h)[i],
                DTypeV::Str,
            ),
    decreases on,
{
    if on.len() > 0 {
        lemma_var_len(on.drop_last(), h);
        assert(on.len() * h == (on.len() - 1) * h + h) by (nonlinear_arith)
            requires
                on.len() >= 1,
        ;
    }
}

/// The value column's length and cell types, when every `on` column is
/// present, has the table's height and the shared type.
proof fn lemma_value_len(cols: Seq<ColV>, on: Seq<Seq<char>>, t: DTypeV, h: nat)
    requires
        forall|i: int| 0 <= i < on.len() ==> col_index_m(cols, #[trigger] on[i]) is Some,
        forall|i: int|
            0 <= i < on.len() ==> (match col_index_m(cols, #[trigger] on[i]) {
                Some(ci) => 0 <= ci < cols.len() && cols[ci].dtype == t && cols[ci].vals.len() == h
                    && (forall|x: int|
                    0 <= x < cols[ci].vals.len() ==> val_matches_dtype(
                        #[trigger] cols[ci].vals[x],
                        t,
                    )),
                None => false,
            }),
    ensures
        value_vals(cols, on).len() == on.len() * h,
        forall|i: int|
            0 <= i < value_vals(cols, on).len() ==> val_matches_dtype(
                #[trigger] value_vals(cols, on)[i],
                t,
            ),
    decreases on,
{
    if on.len() > 0 {
        assert forall|i: int| 0 <= i < on.drop_last().len() implies col_index_m(
            cols,
            #[trigger] on.drop_last()[i],
        ) is Some by {
            assert(on.drop_last()[i] == on[i]);
        }
        assert forall|i: int| 0 <= i < on.drop_last().len() implies (match col_index_m(
            cols,
            #[trigger] on.drop_last()[i],
        ) {
            Some(ci) => 0 <= ci < cols.len() && cols[ci].dtype == t && cols[ci].vals.len() == h && (
            forall|x: int|
                0 <= x < cols[ci].vals.len() ==> val_matches_dtype(
                    #[trigger] cols[ci].vals[x],
                    t,
                )),
            None => false,
        }) by {
            assert(on.drop_last()[i] == on[i]);
        }
        lemma_value_len(cols, on.drop_last(), t, h);
        assert(on.len() * h == (on.len() - 1) * h + h) by (nonlinear_arith)
            requires
                on.len() >= 1,
        ;
        assert(on.drop_last().len() == on.len() - 1);
        assert(on.last() == on[on.len() - 1]);
    }
}

impl DataFrame {
    /// Unpivots the table: the listed index columns are kept (tiled once
    /// per stacked column), every other listed column is stacked into a
    /// variable-name column and a value column. An empty `on` list means
    /// every non-index column. All stacked columns must share one type and
    /// the output names must be distinct; any violation is a schema error.
    #[verifier::loop_isolation(false)]
    #[verifier::rlimit(60)]
    pub fn unpivot(
        &self,
        index: &Vec<String>,
        on_given: &Vec<String>,
        varname: &str,
        valname: &str,
    ) -> (r: Result<DataFrame, EngineError>)
        requires
            self.wf(),
        ensures
            match r {
                Ok(out) => {
                    &&& spec_unpivot_ok(
                        self.model(),
                        names_view(index@),
                        spec_on_of(self.model(), names_view(index@), names_view(on_given@)),
                        varname@,
                        valname@,
                    )
                    &&& out.model() == spec_unpivot(
                        self.model(),
                        names_view(index@),
                        spec_on_of(self.model(), names_view(index@), names_view(on_given@)),
                        varname@,
                        valname@,
                    )
                    &&& out.wf()
                },
                Err(e) => {
                    &&& e.kind() == ErrorKind::Schema
                    &&& !spec_unpivot_ok(
                        self.model(),
                        names_view(index@),
                        spec_on_of(self.model(), names_view(index@), names_view(on_given@)),
                        varname@,
                        valname@,
                    )
                },
            },
    {
        proof {
            crate::selector::lemma_names_view(index@);
            crate::selector::lemma_names_view(on_given@);
        }
        let ghost m = self.model();
        // resolve the `on` list: the given names, or every non-index column
        let on: Vec<String> = if on_given.len() > 0 {
            let mut v: Vec<String> = Vec::new();
            let mut i: usize = 0;
            while i < on_given.len()
                invariant
                    i <= on_given@.len(),
                    v@.len() == i,
                    forall|j: int| 0 <= j < i ==> (#[trigger] v@[j])@ == on_given@[j]@,
                decreases on_given@.len() - i,
            {
                v.push(on_given[i].clone());
                i = i + 1;
            }
            proof {
                crate::selector::lemma_names_view(v@);
                assert(names_view(v@) =~= names_view(on_given@));
            }
            v
        } else {
            let w = self.width();
            let mut v: Vec<String> = Vec::new();
            let mut c: usize = 0;
            proof {
                assert(names_view(v@) =~= spec_default_on(m.take(0), names_view(index@)));
            }
            while c < w
                invariant
                    c <= w,
                    w == self.spec_cols().len(),
                    m == self.model(),
                    names_view(v@) == spec_default_on(m.take(c as int), names_view(index@)),
                decreases w - c,
            {
                proof {
                    assert(m.take(c + 1).drop_last() =~= m.take(c as int));
                    assert(m.take(c + 1).last() == m[c as int]);
                    assert(m[c as int] == ColV::of_series(self.spec_cols()[c as int]));
                }
                let col = match self.column_at(c) {
                    Some(s) => s,
                    None => {
                        proof {
                            assert(false);
                        }
                        return Err(EngineError::schema("column index out of range"));
                    },
                };
                // is this column's name in the index list?
                let mut in_index = false;
                let mut k: usize = 0;
                while k < index.len() && !in_index
                    invariant
                        k <= index@.len(),
                        forall|j: int| 0 <= j < k ==> names_view(index@)[j] != col.spec_name(),
                        in_index ==> k < index@.len() && names_view(index@)[k as int]
                            == col.spec_name(),
                    decreases index@.len() - k, (if in_index {
                        0int
                    } else {
                        1int
                    }),
                {
                    if index[k].eq(&col.name().to_owned()) {
                        in_index = true;
                    } else {
                        k = k + 1;
                    }
                }
                proof {
                    if in_index {
                        assert(names_view(index@).contains(col.spec_name()));
                    } else {
                        if names_view(index@).contains(col.spec_name()) {
                            let ghost wv = choose|j: int|
                                0 <= j < names_view(index@).len() && names_view(index@)[j]
                                    == col.spec_name();
                            assert(names_view(index@)[wv] != col.spec_name());
                        }
                    }
                }
                if !in_index {
                    let ghost old_v = v@;
                    v.push(col.name().to_owned());
                    proof {
                        assert(v@.drop_last() =~= old_v);
                        assert(names_view(v@) =~= names_view(old_v).push(col.spec_name()));
                    }
                }
                c = c + 1;
            }
            proof {
                assert(m.take(w as int) =~= m);
                crate::selector::lemma_names_view(v@);
            }
            v
        };
        let ghost onv = names_view(on@);
        proof {
            assert(onv == spec_on_of(m, names_view(index@), names_view(on_given@)));
            crate::selector::lemma_names_view(on@);
        }
        self.unpivot_resolved(index, &on, varname, valname)
    }
}

impl DataFrame {
    /// Unpivot with a fully resolved `on` list.
    #[verifier::loop_isolation(false)]
    #[verifier::rlimit(60)]
    fn unpivot_resolved(
        &self,
        index: &Vec<String>,
        on: &Vec<String>,
        varname: &str,
        valname: &str,
    ) -> (r: Result<DataFrame, EngineError>)
        requires
            self.wf(),
        ensures
            match r {
                Ok(out) => {
                    &&& spec_unpivot_ok(
                        self.model(),
                        names_view(index@),
                        names_view(on@),
                        varname@,
                        valname@,
                    )
                    &&& out.model() == spec_unpivot(
                        self.model(),
                        names_view(index@),
                        names_view(on@),
                        varname@,
                        valname@,
                    )
                    &&& out.wf()
                },
                Err(e) => {
                    &&& e.kind() == ErrorKind::Schema
                    &&& !spec_unpivot_ok(
                        self.model(),
                        names_view(index@),
                        names_view(on@),
                        varname@,
                        valname@,
                    )
                },
            },
    {
        let ghost m = self.model();
        let ghost idxv = names_view(index@);
        let ghost onv = names_view(on@);
        proof {
            crate::selector::lemma_names_view(index@);
            crate::selector::lemma_names_view(on@);
        }
        // every index name present
        let mut i: usize = 0;
        while i < index.len()
            invariant
                i <= index@.len(),
                forall|j: int| 0 <= j < i ==> col_index_m(m, #[trigger] idxv[j]) is Some,
            decreases index@.len() - i,
        {
            proof {
                lemma_col_index_m(m, idxv[i as int]);
                lemma_col_index_model(self.spec_cols(), idxv[i as int]);
                crate::frame::lemma_col_index(self.spec_cols(), idxv[i as int]);
            }
            match self.column(index[i].as_str()) {
                Ok(_) => {},
                Err(_) => {
                    proof {
                        assert(col_index_m(m, idxv[i as int]) is None);
                        assert(!spec_unpivot_ok(m, idxv, onv, varname@, valname@));
                    }
                    return Err(EngineError::schema("index column not found"));
                },
            }
            i = i + 1;
        }
        // every on name present, and their types agree
        let mut j: usize = 0;
        while j < on.len()
            invariant
                j <= on@.len(),
                forall|q: int| 0 <= q < j ==> col_index_m(m, #[trigger] onv[q]) is Some,
                forall|q: int|
                    0 <= q < j ==> (match col_index_m(m, #[trigger] onv[q]) {
                        Some(ci) => m[ci].dtype == on_dtype(m, onv),
                        None => false,
                    }),
            decreases on@.len() - j,
        {
            proof {
                lemma_col_index_m(m, onv[j as int]);
                lemma_col_index_model(self.spec_cols(), onv[j as int]);
                crate::frame::lemma_col_index(self.spec_cols(), onv[j as int]);
                lemma_col_index_m(m, onv[0]);
                lemma_col_index_model(self.spec_cols(), onv[0]);
                crate::frame::lemma_col_index(self.spec_cols(), onv[0]);
            }
            let cj = match self.column(on[j].as_str()) {
                Ok(s) => s,
                Err(_) => {
                    proof {
                        assert(col_index_m(m, onv[j as int]) is None);
                        assert(!spec_unpivot_ok(m, idxv, onv, varname@, valname@));
                    }
                    return Err(EngineError::schema("stacked column not found"));
                },
            };
            let c0 = match self.column(on[0].as_str()) {
                Ok(s) => s,
                Err(_) => {
                    proof {
                        assert(false);
                    }
                    return Err(EngineError::schema("stacked column not found"));
                },
            };
            if !cj.dtype().dtype_eq(c0.dtype()) {
                proof {
                    let ghost ci = col_index_m(m, onv[j as int])->0;
                    assert(m[ci] == ColV::of_series(self.spec_cols()[ci]));
                    let ghost c0i = col_index_m(m, onv[0])->0;
                    assert(m[c0i] == ColV::of_series(self.spec_cols()[c0i]));
                    assert(m[ci].dtype != on_dtype(m, onv));
                    assert(!spec_unpivot_ok(m, idxv, onv, varname@, valname@));
                }
                return Err(EngineError::schema("stacked columns differ in type"));
            }
            proof {
                let ghost ci = col_index_m(m, onv[j as int])->0;
                assert(m[ci] == ColV::of_series(self.spec_cols()[ci]));
                let ghost c0i = col_index_m(m, onv[0])->0;
                assert(m[c0i] == ColV::of_series(self.spec_cols()[c0i]));
                assert(m[ci].dtype == on_dtype(m, onv));
            }
            j = j + 1;
        }
        // output names distinct
        let mut a: usize = 0;
        while a < index.len()
            invariant
                a <= index@.len(),
                forall|x: int, y: int| 0 <= x < y < index@.len() && x < a ==> idxv[x] != idxv[y],
                forall|x: int| 0 <= x < a ==> idxv[x] != varname@ && idxv[x] != valname@,
            decreases index@.len() - a,
        {
            let mut b: usize = a + 1;
            while b < index.len()
                invariant
                    a < b <= index@.len(),
                    forall|y: int| a < y < b ==> idxv[a as int] != idxv[y],
                decreases index@.len() - b,
            {
                if index[a].eq(&index[b]) {
                    proof {
                        assert(idxv[a as int] == idxv[b as int]);
                        assert(!spec_unpivot_ok(m, idxv, onv, varname@, valname@));
                    }
                    return Err(EngineError::schema("duplicate output column name"));
                }
                b = b + 1;
            }
            if index[a].eq(&varname.to_owned()) || index[a].eq(&valname.to_owned()) {
                proof {
                    assert(idxv[a as int] == varname@ || idxv[a as int] == valname@);
                    assert(idxv.contains(varname@) || idxv.contains(valname@));
                    assert(!spec_unpivot_ok(m, idxv, onv, varname@, valname@));
                }
                return Err(EngineError::schema("index name collides with an output name"));
            }
            a = a + 1;
        }
        if varname.to_owned().eq(&valname.to_owned()) {
            proof {
                assert(!spec_unpivot_ok(m, idxv, onv, varname@, valname@));
            }
            return Err(EngineError::schema("variable and value columns share a name"));
        }
        proof {
            if idxv.contains(varname@) {
                let ghost wv = choose|x: int| 0 <= x < idxv.len() && idxv[x] == varname@;
                assert(idxv[wv] != varname@);
            }
            if idxv.contains(valname@) {
                let ghost wv = choose|x: int| 0 <= x < idxv.len() && idxv[x] == valname@;
                assert(idxv[wv] != valname@);
            }
            assert(spec_unpivot_ok(m, idxv, onv, varname@, valname@));
        }
        // build the output columns
        let h = self.height();
        let k = on.len();
        let ghost target = spec_unpivot(m, idxv, onv, varname@, valname@);
        let ghost dt_shared = on_dtype(m, onv);
        let mut cols: Vec<Series> = Vec::new();
        let mut ix: usize = 0;
        while ix < index.len()
            invariant
                ix <= index@.len(),
                m == self.model(),
                self.wf(),
                h == self.spec_height(),
                k == on@.len(),
                idxv == names_view(index@),
                onv == names_view(on@),
                target == spec_unpivot(m, idxv, onv, varname@, valname@),
                spec_unpivot_ok(m, idxv, onv, varname@, valname@),
                forall|q: int| 0 <= q < index@.len() ==> #[trigger] idxv[q] == index@[q]@,
                forall|q: int| 0 <= q < on@.len() ==> #[trigger] onv[q] == on@[q]@,
                cols.len() == ix,
                forall|x: int|
                    0 <= x < ix ==> ColV::of_series(#[trigger] cols@[x]) == target[x],
                forall|x: int| 0 <= x < ix ==> (#[trigger] cols@[x]).wf(),
                forall|x: int|
                    0 <= x < ix ==> (#[trigger] cols@[x]).spec_vals().len() == k * h,
            decreases index@.len() - ix,
        {
            proof {
                lemma_col_index_m(m, idxv[ix as int]);
                lemma_col_index_model(self.spec_cols(), idxv[ix as int]);
                crate::frame::lemma_col_index(self.spec_cols(), idxv[ix as int]);
            }
            let src = match self.column(index[ix].as_str()) {
                Ok(s) => s,
                Err(_) => {
                    proof {
                        assert(false);
                    }
                    return Err(EngineError::schema("index column not found"));
                },
            };
            proof {
                assert(src.wf());
                let ghost ci = col_index_m(m, idxv[ix as int])->0;
                assert(m[ci] == ColV::of_series(self.spec_cols()[ci]));
            }
            let mut cells: Vec<AnyVal> = Vec::new();
            let mut t: usize = 0;
            proof {
                assert(vals_view(cells@) =~= tile_vals(src.spec_vals(), 0));
            }
            while t < k
                invariant
                    t <= k,
                    src.wf(),
                    vals_view(cells@) == tile_vals(src.spec_vals(), t as nat),
                    cells@.len() == vals_view(cells@).len(),
                decreases k - t,
            {
                crate::exec::append_cells(&mut cells, src);
                t = t + 1;
            }
            proof {
                lemma_vals_view(cells@);
                lemma_tile_len(src.spec_vals(), k as nat);
                lemma_tile_wf(src.spec_vals(), k as nat, src.spec_dtype());
                assert(src.spec_vals().len() == h);
            }
            let out_col = Series::from_checked(
                index[ix].clone(),
                src.dtype().duplicate(),
                cells,
            );
            cols.push(out_col);
            proof {
                assert(ColV::of_series(cols@.last()) == target[ix as int]);
            }
            ix = ix + 1;
        }
        // the variable column
        let mut var_cells: Vec<AnyVal> = Vec::new();
        let mut j2: usize = 0;
        proof {
            assert(vals_view(var_cells@) =~= var_vals(onv.take(0), h as nat));
        }
        while j2 < k
            invariant
                j2 <= k,
                k == on@.len(),
                onv == names_view(on@),
                forall|q: int| 0 <= q < on@.len() ==> #[trigger] onv[q] == on@[q]@,
                h == self.spec_height(),
                vals_view(var_cells@) == var_vals(onv.take(j2 as int), h as nat),
                var_cells@.len() == vals_view(var_cells@).len(),
            decreases k - j2,
        {
            proof {
                assert(onv.take(j2 + 1).drop_last() =~= onv.take(j2 as int));
                assert(onv.take(j2 + 1).last() == onv[j2 as int]);
            }
            let mut rrow: usize = 0;
            while rrow < h
                invariant
                    rrow <= h,
                    j2 < k,
                    onv == names_view(on@),
                    forall|q: int| 0 <= q < on@.len() ==> #[trigger] onv[q] == on@[q]@,
                    vals_view(var_cells@) == var_vals(onv.take(j2 as int), h as nat) + Seq::new(
                        rrow as nat,
                        |i: int| Val::Text(onv[j2 as int]),
                    ),
                    var_cells@.len() == vals_view(var_cells@).len(),
                decreases h - rrow,
            {
                let ghost old_vc = var_cells@;
                var_cells.push(AnyVal::Text(on[j2].clone()));
                proof {
                    assert(var_cells@.drop_last() =~= old_vc);
                    assert(var_cells@.last()@ == Val::Text(onv[j2 as int]));
                    assert(vals_view(var_cells@) == vals_view(old_vc).push(
                        Val::Text(onv[j2 as int]),
                    ));
                    assert(var_vals(onv.take(j2 as int), h as nat) + Seq::new(
                        (rrow + 1) as nat,
                        |i: int| Val::Text(onv[j2 as int]),
                    ) =~= (var_vals(onv.take(j2 as int), h as nat) + Seq::new(
                        rrow as nat,
                        |i: int| Val::Text(onv[j2 as int]),
                    )).push(Val::Text(onv[j2 as int])));
                }
                rrow = rrow + 1;
            }
            proof {
                assert(vals_view(var_cells@) =~= var_vals(onv.take(j2 + 1), h as nat));
            }
            j2 = j2 + 1;
        }
        proof {
            assert(onv.take(k as int) =~= onv);
            lemma_vals_view(var_cells@);
            lemma_var_len(onv, h as nat);
        }
        let var_col = Series::from_checked(
            varname.to_owned(),
            LogicalType::Str,
            var_cells,
        );
        cols.push(var_col);
        // the value column
        let mut val_cells: Vec<AnyVal> = Vec::new();
        let mut j3: usize = 0;
        proof {
            assert(vals_view(val_cells@) =~= value_vals(m, onv.take(0)));
        }
        while j3 < k
            invariant
                j3 <= k,
                k == on@.len(),
                m == self.model(),
                self.wf(),
                h == self.spec_height(),
                onv == names_view(on@),
                forall|q: int| 0 <= q < on@.len() ==> #[trigger] onv[q] == on@[q]@,
                spec_unpivot_ok(m, idxv, onv, varname@, valname@),
                dt_shared == on_dtype(m, onv),
                vals_view(val_cells@) == value_vals(m, onv.take(j3 as int)),
                val_cells@.len() == vals_view(val_cells@).len(),
                forall|x: int|
                    0 <= x < vals_view(val_cells@).len() ==> val_matches_dtype(
                        #[trigger] vals_view(val_cells@)[x],
                        dt_shared,
                    ),
            decreases k - j3,
        {
            proof {
                assert(onv.take(j3 + 1).drop_last() =~= onv.take(j3 as int));
                assert(onv.take(j3 + 1).last() == onv[j3 as int]);
                lemma_col_index_m(m, onv[j3 as int]);
                lemma_col_index_model(self.spec_cols(), onv[j3 as int]);
                crate::frame::lemma_col_index(self.spec_cols(), onv[j3 as int]);
            }
            let src = match self.column(on[j3].as_str()) {
                Ok(s) => s,
                Err(_) => {
                    proof {
                        assert(false);
                    }
                    return Err(EngineError::schema("stacked column not found"));
                },
            };
            proof {
                assert(src.wf());
                let ghost ci = col_index_m(m, onv[j3 as int])->0;
                assert(m[ci] == ColV::of_series(self.spec_cols()[ci]));
                assert(src.spec_dtype() == dt_shared);
            }
            crate::exec::append_cells(&mut val_cells, src);
            j3 = j3 + 1;
        }
        proof {
            assert(onv.take(k as int) =~= onv);
            lemma_vals_view(val_cells@);
            assert forall|q: int| 0 <= q < onv.len() implies (match col_index_m(
                m,
                #[trigger] onv[q],
            ) {
                Some(ci) => 0 <= ci < m.len() && m[ci].dtype == dt_shared && m[ci].vals.len()
                    == h && (forall|x: int|
                    0 <= x < m[ci].vals.len() ==> val_matches_dtype(
                        #[trigger] m[ci].vals[x],
                        dt_shared,
                    )),
                None => false,
            }) by {
                lemma_col_index_m(m, onv[q]);
                let ci = col_index_m(m, onv[q])->0;
                assert(m[ci] == ColV::of_series(self.spec_cols()[ci]));
                assert(self.spec_cols()[ci].wf());
                assert(self.spec_cols()[ci].spec_vals().len() == crate::frame::frame_height(
                    self.spec_cols(),
                ));
            }
            lemma_value_len(m, onv, dt_shared, h as nat);
        }
        // the shared value type as a concrete type
        let val_dtype: LogicalType = if k > 0 {
            proof {
                lemma_col_index_m(m, onv[0]);
                lemma_col_index_model(self.spec_cols(), onv[0]);
                crate::frame::lemma_col_index(self.spec_cols(), onv[0]);
            }
            match self.column(on[0].as_str()) {
                Ok(s) => {
                    proof {
                        let ghost ci = col_index_m(m, onv[0])->0;
                        assert(m[ci] == ColV::of_series(self.spec_cols()[ci]));
                    }
                    s.dtype().duplicate()
                },
                Err(_) => {
                    proof {
                        assert(false);
                    }
                    return Err(EngineError::schema("stacked column not found"));
                },
            }
        } else {
            LogicalType::Null
        };
        let val_col = Series::from_checked(valname.to_owned(), val_dtype, val_cells);
        cols.push(val_col);
        proof {
            assert(cols@.len() == index@.len() + 2);
            assert(target.len() == index@.len() + 2);
            assert forall|x: int| 0 <= x < cols@.len() implies ColV::of_series(
                #[trigger] cols@[x],
            ) == target[x] by {
                if x < index@.len() {
                } else if x == index@.len() {
                    assert(cols@[x] == cols@[cols@.len() - 2]);
                } else {
                    assert(cols@[x] == cols@.last());
                }
            }
            lemma_var_len(onv, h as nat);
            assert(frame_wf(cols@)) by {
                if cols@.len() > 0 {
                    assert(crate::frame::frame_height(cols@) == cols@[0].spec_vals().len());
                    assert forall|x: int| 0 <= x < cols@.len() implies (
                    #[trigger] cols@[x]).spec_vals().len() == crate::frame::frame_height(
                        cols@,
                    ) by {
                        assert(ColV::of_series(cols@[x]).vals.len() == k * h);
                        assert(ColV::of_series(cols@[0]).vals.len() == k * h);
                    }
                }
                assert forall|x: int, y: int|
                    0 <= x < y < cols@.len() implies (#[trigger] cols@[x]).spec_name() != (
                #[trigger] cols@[y]).spec_name() by {
                    assert(ColV::of_series(cols@[x]).name == target[x].name);
                    assert(ColV::of_series(cols@[y]).name == target[y].name);
                    if y < index@.len() {
                        assert(idxv[x] != idxv[y]);
                    } else if y == index@.len() {
                        assert(!idxv.contains(varname@));
                        if idxv.contains(target[x].name) {
                        } else {
                            assert(idxv[x] == target[x].name);
                        }
                    } else {
                        assert(!idxv.contains(valname@));
                        if x < index@.len() {
                            assert(idxv[x] == target[x].name);
                        } else {
                            assert(varname@ != valname@);
                        }
                    }
                }
            }
        }
        let df = DataFrame::from_checked(cols);
        proof {
            assert(df.model() =~= target);
        }
        Ok(df)
    }
}

/// The effective `on` list: the given names when any, else every
/// non-index column.
pub open spec fn spec_on_of(
    cols: Seq<ColV>,
    index: Seq<Seq<char>>,
    on_given: Seq<Seq<char>>,
) -> Seq<Seq<char>> {
    if on_given.len() > 0 {
        on_given
    } else {
        spec_default_on(cols, index)
    }
}

} // verus!
