//! The tabular container: an ordered collection of equal-length Series
//! with unique column names. Height zero is a valid, empty table.

use vstd::prelude::*;

use crate::error::EngineError;
use crate::error::ErrorKind;
use crate::schema::Schema;
use crate::series::Series;
use crate::value::Val;

verus! {

broadcast use vstd::std_specs::vec::group_vec_axioms;

/// An ordered table of equal-length columns.
#[derive(Debug)]
pub struct DataFrame {
    cols: Vec<Series>,
}

/// Whether a column list is a well-formed table: every column well-formed
/// and of the first column's length, and no two columns share a name.
pub open spec fn frame_wf(cols: Seq<Series>) -> bool {
    &&& forall|i: int| 0 <= i < cols.len() ==> (#[trigger] cols[i]).wf()
    &&& forall|i: int|
        0 <= i < cols.len() ==> (#[trigger] cols[i]).spec_vals().len() == frame_height(cols)
    &&& forall|i: int, j: int|
        0 <= i < j < cols.len() ==> (#[trigger] cols[i]).spec_name() != (
        #[trigger] cols[j]).spec_name()
}

/// The height of a column list: the first column's length (zero when
/// there are no columns).
pub open spec fn frame_height(cols: Seq<Series>) -> nat {
    if cols.len() == 0 {
        0
    } else {
        cols[0].spec_vals().len()
    }
}

/// The values of row `i`, one per column, in column order.
pub open spec fn frame_row(cols: Seq<Series>, i: int) -> Seq<Val> {
    cols.map_values(|c: Series| c.spec_vals()[i])
}

/// The index of the column with a name, if any.
pub open spec fn spec_col_index(cols: Seq<Series>, name: Seq<char>) -> Option<int>
    decreases cols.len(),
{
    if cols.len() == 0 {
        None
    } else if cols[0].spec_name() == name {
        Some(0)
    } else {
        match spec_col_index(cols.skip(1), name) {
            Some(i) => Some(i + 1),
            None => None,
        }
    }
}

/// What `spec_col_index` means.
pub proof fn lemma_col_index(cols: Seq<Series>, name: Seq<char>)
    ensures
        match spec_col_index(cols, name) {
            Some(i) => 0 <= i < cols.len() && cols[i].spec_name() == name && (forall|j: int|
                0 <= j < i ==> (#[trigger] cols[j]).spec_name() != name),
            None => forall|j: int|
                0 <= j < cols.len() ==> (#[trigger] cols[j]).spec_name() != name,
        },
    decreases cols.len(),
{
    if cols.len() > 0 && cols[0].spec_name() != name {
        lemma_col_index(cols.skip(1), name);
        let r = spec_col_index(cols.skip(1), name);
        if r is Some {
            let i = r->0;
            assert(cols.skip(1)[i] == cols[i + 1]);
            assert forall|j: int| 0 <= j < i + 1 implies (#[trigger] cols[j]).spec_name()
                != name by {
                if j > 0 {
                    assert(cols.skip(1)[j - 1] == cols[j]);
                }
            }
        } else {
            assert forall|j: int| 0 <= j < cols.len() implies (#[trigger] cols[j]).spec_name()
                != name by {
                if j > 0 {
                    assert(cols.skip(1)[j - 1] == cols[j]);
                }
            }
        }
    }
}

impl DataFrame {
    /// The columns, in order.
    pub closed spec fn spec_cols(&self) -> Seq<Series> {
        self.cols@
    }

    /// Table well-formedness.
    pub open spec fn wf(&self) -> bool {
        frame_wf(self.spec_cols())
    }

    /// The number of rows.
    pub open spec fn spec_height(&self) -> nat {
        frame_height(self.spec_cols())
    }

    /// An empty table: no columns, height zero.
    pub fn empty() -> (df: DataFrame)
        ensures
            df.spec_cols() =~= Seq::<Series>::empty(),
            df.wf(),
    {
        DataFrame { cols: Vec::new() }
    }

    /// Builds a table from columns: the lengths must agree (else a shape
    /// error) and the names must be unique (else a schema error, reported
    /// after shape).
    #[verifier::loop_isolation(false)]
    pub fn new(cols: Vec<Series>) -> (r: Result<DataFrame, EngineError>)
        requires
            forall|i: int| 0 <= i < cols@.len() ==> (#[trigger] cols@[i]).wf(),
        ensures
            match r {
                Ok(df) => {
                    &&& df.spec_cols() == cols@
                    &&& df.wf()
                },
                Err(e) => {
                    &&& !frame_wf(cols@)
                    &&& (e.kind() == ErrorKind::Shape || e.kind() == ErrorKind::Schema)
                    &&& (e.kind() == ErrorKind::Shape <==> exists|i: int|
                        0 <= i < cols@.len() && (#[trigger] cols@[i]).spec_vals().len()
                            != frame_height(cols@))
                },
            },
    {
        let n = cols.len();
        if n > 0 {
            let h = cols[0].len();
            let mut i: usize = 0;
            while i < n
                invariant
                    i <= n,
                    forall|j: int|
                        0 <= j < i ==> (#[trigger] cols@[j]).spec_vals().len() == frame_height(
                            cols@,
                        ),
                decreases n - i,
            {
                if cols[i].len() != h {
                    proof {
                        assert(cols@[i as int].spec_vals().len() != frame_height(cols@));
                    }
                    return Err(EngineError::shape("columns differ in length"));
                }
                i = i + 1;
            }
            let mut a: usize = 0;
            while a < n
                invariant
                    a <= n,
                    forall|i2: int|
                        0 <= i2 < cols@.len() ==> (#[trigger] cols@[i2]).spec_vals().len()
                            == frame_height(cols@),
                    forall|i2: int, j2: int|
                        0 <= i2 < j2 < cols@.len() && i2 < a ==> (#[trigger] cols@[i2]).spec_name()
                            != (#[trigger] cols@[j2]).spec_name(),
                decreases n - a,
            {
                let mut b: usize = a + 1;
                while b < n
                    invariant
                        a < b <= n,
                        forall|j2: int|
                            a < j2 < b ==> (#[trigger] cols@[j2]).spec_name()
                                != cols@[a as int].spec_name(),
                    decreases n - b,
                {
                    if cols[a].name().to_owned().eq(&cols[b].name().to_owned()) {
                        return Err(EngineError::schema("duplicate column name"));
                    }
                    b = b + 1;
                }
                a = a + 1;
            }
            Ok(DataFrame { cols })
        } else {
            Ok(DataFrame { cols })
        }
    }

    /// The number of rows.
    pub fn height(&self) -> (h: usize)
        ensures
            h == self.spec_height(),
    {
        if self.cols.len() == 0 {
            0
        } else {
            self.cols[0].len()
        }
    }

    /// The number of columns.
    pub fn width(&self) -> (w: usize)
        ensures
            w == self.spec_cols().len(),
    {
        self.cols.len()
    }

    /// The column at an index.
    pub fn column_at(&self, index: usize) -> (r: Option<&Series>)
        ensures
            match r {
                Some(c) => index < self.spec_cols().len() && *c == self.spec_cols()[index as int],
                None => index >= self.spec_cols().len(),
            },
    {
        if index < self.cols.len() {
            Some(&self.cols[index])
        } else {
            None
        }
    }

    /// The column with a name, or a schema error naming the failure.
    #[verifier::loop_isolation(false)]
    pub fn column(&self, name: &str) -> (r: Result<&Series, EngineError>)
        ensures
            match r {
                Ok(c) => spec_col_index(self.spec_cols(), name@) matches Some(i) && *c
                    == self.spec_cols()[i],
                Err(e) => {
                    &&& e.kind() == ErrorKind::Schema
                    &&& spec_col_index(self.spec_cols(), name@) is None
                },
            },
    {
        proof {
            lemma_col_index(self.spec_cols(), name@);
        }
        let n = self.cols.len();
        let mut i: usize = 0;
        while i < n
            invariant
                i <= n,
                forall|j: int| 0 <= j < i ==> (#[trigger] self.spec_cols()[j]).spec_name() != name@,
            decreases n - i,
        {
            if self.cols[i].name().to_owned().eq(&name.to_owned()) {
                proof {
                    lemma_col_index_first(self.spec_cols(), name@, i as int);
                }
                return Ok(&self.cols[i]);
            }
            i = i + 1;
        }
        proof {
            let ghost found = spec_col_index(self.spec_cols(), name@);
            if found is Some {
                assert(self.spec_cols()[found->0].spec_name() != name@);
            }
        }
        Err(EngineError::schema("no column with this name"))
    }

    /// The table's schema: one entry per column, in column order.
    #[verifier::loop_isolation(false)]
    pub fn schema(&self) -> (s: Schema)
        requires
            self.wf(),
        ensures
            s.spec_entries().len() == self.spec_cols().len(),
            forall|i: int|
                0 <= i < self.spec_cols().len() ==> #[trigger] s.spec_entries()[i] == (
                self.spec_cols()[i].spec_name(),
                self.spec_cols()[i].spec_dtype(),
                ),
            s.wf(),
    {
        let n = self.cols.len();
        let mut s = Schema::new();
        let mut i: usize = 0;
        while i < n
            invariant
                i <= n,
                s.spec_entries().len() == i,
                forall|j: int|
                    0 <= j < i ==> #[trigger] s.spec_entries()[j] == (
                    self.spec_cols()[j].spec_name(),
                    self.spec_cols()[j].spec_dtype(),
                    ),
                s.wf(),
            decreases n - i,
        {
            let c = &self.cols[i];
            proof {
                crate::schema::Schema::lemma_index_of(s.spec_entries(), c.spec_name());
                let ghost found = crate::schema::Schema::spec_index_of(
                    s.spec_entries(),
                    c.spec_name(),
                );
                if found is Some {
                    let ghost j = found->0;
                    assert(s.spec_entries()[j].0 == self.spec_cols()[j].spec_name());
                    assert(self.spec_cols()[j].spec_name() != self.spec_cols()[
                        i as int].spec_name());
                }
            }
            s.insert(c.name(), c.dtype().duplicate());
            i = i + 1;
        }
        s
    }

    /// A deep copy of the table.
    #[verifier::loop_isolation(false)]
    pub fn duplicate(&self) -> (r: DataFrame)
        ensures
            r.spec_cols().len() == self.spec_cols().len(),
            forall|i: int|
                0 <= i < self.spec_cols().len() ==> equal_series(
                    #[trigger] r.spec_cols()[i],
                    self.spec_cols()[i],
                ),
            self.wf() ==> r.wf(),
    {
        let n = self.cols.len();
        let mut out: Vec<Series> = Vec::new();
        let mut i: usize = 0;
        while i < n
            invariant
                i <= n,
                out.len() == i,
                forall|j: int|
                    0 <= j < i ==> equal_series(#[trigger] out@[j], self.spec_cols()[j]),
            decreases n - i,
        {
            out.push(self.cols[i].duplicate());
            i = i + 1;
        }
        proof {
            if self.wf() {
                assert(frame_height(out@) == frame_height(self.spec_cols()));
            }
        }
        DataFrame { cols: out }
    }

    /// Builds a table from columns already known to form one.
    pub fn from_checked(cols: Vec<Series>) -> (df: DataFrame)
        requires
            frame_wf(cols@),
        ensures
            df.spec_cols() == cols@,
            df.wf(),
    {
        DataFrame { cols }
    }
}

/// The first index carrying a name is the lookup's result.
proof fn lemma_col_index_first(cols: Seq<Series>, name: Seq<char>, i: int)
    requires
        0 <= i < cols.len(),
        cols[i].spec_name() == name,
        forall|j: int| 0 <= j < i ==> (#[trigger] cols[j]).spec_name() != name,
    ensures
        spec_col_index(cols, name) == Some(i),
    decreases i,
{
    if i > 0 {
        assert forall|j: int| 0 <= j < i - 1 implies (#[trigger] cols.skip(1)[j]).spec_name()
            != name by {
            assert(cols.skip(1)[j] == cols[j + 1]);
        }
        assert(cols.skip(1)[i - 1] == cols[i]);
        lemma_col_index_first(cols.skip(1), name, i - 1);
    }
}

/// Whether two columns agree in name, type and cells.
pub open spec fn equal_series(a: Series, b: Series) -> bool {
    a.spec_name() == b.spec_name() && a.spec_dtype() == b.spec_dtype() && a.spec_vals()
        == b.spec_vals()
}

} // verus!
