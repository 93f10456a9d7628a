//! Reading delimiter-separated text into a table. The dialect is plain:
//! records split on newlines (one trailing newline ignored), fields split
//! on a separator character, no quoting or escapes. Every parsed column is
//! a string column; typed reads apply a schema override afterwards with
//! the non-strict `cast`, whose documented policy turns an unparsable
//! cell null rather than failing the read.

use vstd::prelude::*;

use crate::dtype::LogicalType;
use crate::error::EngineError;
use crate::error::ErrorKind;
use crate::expr::ColV;
use crate::frame::frame_wf;
use crate::frame::DataFrame;
use crate::numtext::dec_str;
use crate::numtext::u64_to_string;
use crate::selector::lemma_names_view;
use crate::selector::names_view;
use crate::series::Series;
use crate::value::lemma_vals_view;
use crate::value::val_matches_dtype;
use crate::value::vals_view;
use crate::value::AnyVal;
use crate::value::Val;

verus! {

broadcast use vstd::std_specs::vec::group_vec_axioms;

/// The fields of a text split on a separator: always at least one field,
/// the separators themselves dropped.
pub open spec fn split_by(s: Seq<char>, sep: char) -> Seq<Seq<char>>
    decreases s.len(),
{
    if s.len() == 0 {
        seq![Seq::<char>::empty()]
    } else if s[0] == sep {
        seq![Seq::<char>::empty()] + split_by(s.skip(1), sep)
    } else {
        let rest = split_by(s.skip(1), sep);
        seq![seq![s[0]] + rest[0]] + rest.skip(1)
    }
}

/// A split has at least one field.
pub proof fn lemma_split_len(s: Seq<char>, sep: char)
    ensures
        split_by(s, sep).len() >= 1,
    decreases s.len(),
{
    if s.len() > 0 && s[0] != sep {
        lemma_split_len(s.skip(1), sep);
    }
}

/// Splitting at the first separator: the text up to it is the first
/// field, the rest splits on its own.
proof fn lemma_split_at(s: Seq<char>, sep: char, k: int)
    requires
        0 <= k < s.len(),
        s[k] == sep,
        forall|j: int| 0 <= j < k ==> s[j] != sep,
    ensures
        split_by(s, sep) == seq![s.take(k)] + split_by(s.skip(k + 1), sep),
    decreases k,
{
    if k == 0 {
        assert(s.take(0) =~= Seq::<char>::empty());
        assert(split_by(s, sep) =~= seq![s.take(0)] + split_by(s.skip(1), sep));
    } else {
        assert(s.skip(1)[k - 1] == s[k]);
        assert forall|j: int| 0 <= j < k - 1 implies s.skip(1)[j] != sep by {
            assert(s.skip(1)[j] == s[j + 1]);
        }
        lemma_split_at(s.skip(1), sep, k - 1);
        lemma_split_len(s.skip(1).skip(k), sep);
        assert(s.skip(1).take(k - 1) =~= s.take(k).skip(1));
        assert(s.skip(1).skip(k) =~= s.skip(k + 1));
        let rest = split_by(s.skip(1), sep);
        assert(rest == seq![s.skip(1).take(k - 1)] + split_by(s.skip(k + 1), sep));
        assert(rest[0] == s.skip(1).take(k - 1));
        assert(seq![s[0]] + rest[0] =~= s.take(k));
        assert(rest.skip(1) =~= split_by(s.skip(k + 1), sep));
        assert(split_by(s, sep) =~= seq![s.take(k)] + split_by(s.skip(k + 1), sep));
    }
}

/// A separator-free text is a single field.
proof fn lemma_split_nosep(s: Seq<char>, sep: char)
    requires
        forall|j: int| 0 <= j < s.len() ==> s[j] != sep,
    ensures
        split_by(s, sep) == seq![s],
    decreases s.len(),
{
    if s.len() == 0 {
        assert(split_by(s, sep) =~~= seq![s]);
    } else {
        assert forall|j: int| 0 <= j < s.skip(1).len() implies s.skip(1)[j] != sep by {
            assert(s.skip(1)[j] == s[j + 1]);
        }
        lemma_split_nosep(s.skip(1), sep);
        assert(seq![s[0]] + s.skip(1) =~= s);
        assert(split_by(s, sep) =~~= seq![s]);
    }
}

/// Splits a text on a separator character.
#[verifier::loop_isolation(false)]
pub fn split_text(s: &str, sep: char) -> (r: Vec<String>)
    ensures
        names_view(r@) == split_by(s@, sep),
{
    let n = s.unicode_len();
    let mut out: Vec<String> = Vec::new();
    let mut start: usize = 0;
    let mut i: usize = 0;
    proof {
        assert(s@.skip(0) =~= s@);
        assert(names_view(out@) =~= Seq::<Seq<char>>::empty());
        assert(names_view(out@) + split_by(s@.skip(0), sep) =~= split_by(s@, sep));
    }
    while i < n
        invariant
            start <= i <= n,
            n == s@.len(),
            forall|j: int| start <= j < i ==> s@[j] != sep,
            split_by(s@, sep) == names_view(out@) + split_by(s@.skip(start as int), sep),
        decreases n - i,
    {
        let c = s.get_char(i);
        if c == sep {
            let field = s.substring_char(start, i);
            let ghost old_out = out@;
            out.push(field.to_owned());
            proof {
                assert(out@.drop_last() =~= old_out);
                assert(names_view(out@) =~= names_view(old_out).push(s@.subrange(
                    start as int,
                    i as int,
                )));
                let ghost suffix = s@.skip(start as int);
                assert forall|j: int| 0 <= j < i - start implies suffix[j] != sep by {
                    assert(suffix[j] == s@[start + j]);
                }
                assert(suffix[i - start] == s@[i as int]);
                lemma_split_at(suffix, sep, i - start);
                assert(suffix.take(i - start) =~= s@.subrange(start as int, i as int));
                assert(suffix.skip(i - start + 1) =~= s@.skip(i + 1));
                assert(names_view(out@) + split_by(s@.skip(i + 1), sep) =~= split_by(s@, sep));
            }
            start = i + 1;
        }
        i = i + 1;
    }
    let field = s.substring_char(start, n);
    let ghost old_out = out@;
    out.push(field.to_owned());
    proof {
        assert(out@.drop_last() =~= old_out);
        assert(names_view(out@) =~= names_view(old_out).push(s@.subrange(start as int, n as int)));
        let ghost suffix = s@.skip(start as int);
        assert forall|j: int| 0 <= j < suffix.len() implies suffix[j] != sep by {
            assert(suffix[j] == s@[start + j]);
        }
        lemma_split_nosep(suffix, sep);
        assert(suffix =~= s@.subrange(start as int, n as int));
        assert(names_view(out@) =~= split_by(s@, sep));
    }
    out
}

/// The text with one trailing newline removed.
pub open spec fn strip_trailing_newline(text: Seq<char>) -> Seq<char> {
    if text.len() > 0 && text.last() == '\n' {
        text.drop_last()
    } else {
        text
    }
}

/// The records of a delimiter-separated text: empty text has none.
pub open spec fn csv_records(text: Seq<char>) -> Seq<Seq<char>> {
    if text.len() == 0 {
        Seq::empty()
    } else {
        split_by(strip_trailing_newline(text), '\n')
    }
}

/// The fields of every record.
pub open spec fn csv_cells(text: Seq<char>, sep: char) -> Seq<Seq<Seq<char>>> {
    csv_records(text).map_values(|row: Seq<char>| split_by(row, sep))
}

/// The generated column names when no header row is present.
pub open spec fn default_names(w: nat) -> Seq<Seq<char>> {
    Seq::new(w, |c: int| "column_"@ + dec_str((c + 1) as nat))
}

/// Whether a name list is pairwise distinct.
pub open spec fn names_distinct(names: Seq<Seq<char>>) -> bool {
    forall|a: int, b: int| 0 <= a < b < names.len() ==> names[a] != names[b]
}

/// The model of a parsed table: the first record gives the field count
/// (a ragged record is a shape error) and, with a header, the column
/// names (which must be unique; generated names always are); every column
/// is a string column.
pub open spec fn spec_csv_frame(text: Seq<char>, sep: char, has_header: bool) -> Result<
    Seq<ColV>,
    ErrorKind,
> {
    let rows = csv_cells(text, sep);
    if rows.len() == 0 {
        Ok(Seq::empty())
    } else {
        let w = rows[0].len();
        if !(forall|r: int| 0 <= r < rows.len() ==> (#[trigger] rows[r]).len() == w) {
            Err(ErrorKind::Shape)
        } else {
            let names = if has_header {
                rows[0]
            } else {
                default_names(w)
            };
            let data = if has_header {
                rows.skip(1)
            } else {
                rows
            };
            if !names_distinct(names) {
                Err(ErrorKind::Schema)
            } else {
                Ok(
                    Seq::new(
                        w,
                        |c: int|
                            ColV {
                                name: names[c],
                                dtype: crate::dtype::DTypeV::Str,
                                vals: Seq::new(data.len(), |r: int| Val::Text(data[r][c])),
                            },
                    ),
                )
            }
        }
    }
}

/// The views of parsed records.
pub open spec fn parsed_rows_view(rs: Seq<Vec<String>>) -> Seq<Seq<Seq<char>>> {
    rs.map_values(|v: Vec<String>| names_view(v@))
}

impl DataFrame {
    /// Parses delimiter-separated text into a table of string columns,
    /// exactly as `spec_csv_frame` says: records on newlines (one trailing
    /// newline ignored), fields on the separator, a header row naming the
    /// columns when present and generated names otherwise. Apply a typed
    /// schema afterwards with `cast`, whose non-strict policy nulls any
    /// cell that does not parse.
    #[verifier::loop_isolation(false)]
    #[verifier::rlimit(100)]
    pub fn from_csv_text(text: &str, sep: char, has_header: bool) -> (r: Result<
        DataFrame,
        EngineError,
    >)
        ensures
            match spec_csv_frame(text@, sep, has_header) {
                Ok(m) => r matches Ok(df) && df.model() == m && df.wf(),
                Err(k) => r matches Err(e) && e.kind() == k,
            },
    {
        let n = text.unicode_len();
        if n == 0 {
            let df = DataFrame::empty();
            proof {
                assert(csv_cells(text@, sep).len() == 0);
                assert(df.model() =~= Seq::<ColV>::empty());
            }
            return Ok(df);
        }
        let trimmed: &str = if text.get_char(n - 1) == '\n' {
            let t = text.substring_char(0, n - 1);
            proof {
                assert(t@ =~= strip_trailing_newline(text@));
            }
            t
        } else {
            proof {
                assert(text@ =~= strip_trailing_newline(text@));
            }
            text
        };
        let lines = split_text(trimmed, '\n');
        let ghost recs = csv_records(text@);
        proof {
            lemma_names_view(lines@);
            assert(names_view(lines@) == recs);
            lemma_split_len(strip_trailing_newline(text@), '\n');
        }
        // split every record into fields
        let m = lines.len();
        let mut rows: Vec<Vec<String>> = Vec::new();
        let mut li: usize = 0;
        while li < m
            invariant
                li <= m,
                m == lines@.len(),
                recs == csv_records(text@),
                names_view(lines@) == recs,
                recs.len() == m,
                forall|q: int| 0 <= q < m ==> #[trigger] names_view(lines@)[q] == lines@[q]@,
                rows@.len() == li,
                forall|q: int|
                    0 <= q < li ==> #[trigger] parsed_rows_view(rows@)[q] == csv_cells(
                        text@,
                        sep,
                    )[q],
            decreases m - li,
        {
            let fields = split_text(lines[li].as_str(), sep);
            let ghost old_rows = rows@;
            rows.push(fields);
            proof {
                assert(rows@.drop_last() =~= old_rows);
                assert(parsed_rows_view(rows@) =~= parsed_rows_view(old_rows).push(
                    names_view(rows@.last()@),
                ));
                assert(csv_cells(text@, sep)[li as int] == split_by(recs[li as int], sep));
            }
            li = li + 1;
        }
        let ghost cellsv = csv_cells(text@, sep);
        proof {
            assert(cellsv.len() == m);
            assert(parsed_rows_view(rows@) =~= cellsv);
        }
        // every record must have the first record's field count
        let w = rows[0].len();
        proof {
            lemma_names_view(rows@[0]@);
            assert(cellsv[0].len() == w);
        }
        let mut ri: usize = 0;
        while ri < m
            invariant
                ri <= m,
                m == rows@.len(),
                cellsv == csv_cells(text@, sep),
                parsed_rows_view(rows@) == cellsv,
                cellsv.len() == m,
                m >= 1,
                w == cellsv[0].len(),
                forall|q: int| 0 <= q < ri ==> (#[trigger] cellsv[q]).len() == w,
            decreases m - ri,
        {
            proof {
                lemma_names_view(rows@[ri as int]@);
                assert(cellsv[ri as int] == names_view(rows@[ri as int]@));
            }
            if rows[ri].len() != w {
                proof {
                    assert(cellsv[ri as int].len() != w);
                }
                return Err(EngineError::shape("records differ in field count"));
            }
            ri = ri + 1;
        }
        // the column names
        let ghost namesv = if has_header {
            cellsv[0]
        } else {
            default_names(w as nat)
        };
        let mut names: Vec<String> = Vec::new();
        if has_header {
            let mut c: usize = 0;
            while c < w
                invariant
                    c <= w,
                    m == rows@.len(),
                    m >= 1,
                    parsed_rows_view(rows@) == cellsv,
                    cellsv.len() == m,
                    w == cellsv[0].len(),
                    namesv == cellsv[0],
                    names@.len() == c,
                    forall|q: int| 0 <= q < c ==> (#[trigger] names@[q])@ == namesv[q],
                decreases w - c,
            {
                proof {
                    lemma_names_view(rows@[0]@);
                }
                names.push(rows[0][c].clone());
                c = c + 1;
            }
        } else {
            let mut c: usize = 0;
            proof {
                reveal_strlit("column_");
            }
            while c < w
                invariant
                    c <= w,
                    w <= usize::MAX,
                    namesv == default_names(w as nat),
                    names@.len() == c,
                    forall|q: int| 0 <= q < c ==> (#[trigger] names@[q])@ == namesv[q],
                decreases w - c,
            {
                let mut nm = String::new();
                nm.append("column_");
                let digits = u64_to_string((c as u64) + 1);
                nm.append(digits.as_str());
                proof {
                    assert(nm@ =~= "column_"@ + dec_str((c + 1) as nat));
                }
                names.push(nm);
                c = c + 1;
            }
        }
        // unique names
        let mut a: usize = 0;
        while a < w
            invariant
                a <= w,
                names@.len() == w,
                forall|q: int| 0 <= q < w ==> (#[trigger] names@[q])@ == namesv[q],
                forall|p: int, q: int| 0 <= p < q < w && p < a ==> namesv[p] != namesv[q],
            decreases w - a,
        {
            let mut b: usize = a + 1;
            while b < w
                invariant
                    a < b <= w,
                    names@.len() == w,
                    forall|q: int| 0 <= q < w ==> (#[trigger] names@[q])@ == namesv[q],
                    forall|q: int| a < q < b ==> namesv[a as int] != namesv[q],
                decreases w - b,
            {
                if names[a].eq(&names[b]) {
                    proof {
                        assert(namesv[a as int] == namesv[b as int]);
                        assert(!(forall|p: int, q: int|
                            0 <= p < q < w ==> namesv[p] != namesv[q])) by {
                            if (forall|p: int, q: int|
                                0 <= p < q < w ==> namesv[p] != namesv[q]) {
                                assert(namesv[a as int] != namesv[b as int]);
                            }
                        }
                        assert(cellsv.len() >= 1);
                        assert(csv_cells(text@, sep).len() >= 1);
                        assert(forall|r2: int|
                            0 <= r2 < csv_cells(text@, sep).len() ==> (#[trigger] csv_cells(
                                text@,
                                sep,
                            )[r2]).len() == w);
                        assert(w == csv_cells(text@, sep)[0].len());
                        assert(namesv == (if has_header {
                            csv_cells(text@, sep)[0]
                        } else {
                            default_names(csv_cells(text@, sep)[0].len())
                        }));
                        let ghost rows_s = csv_cells(text@, sep);
                        let ghost w_s = rows_s[0].len();
                        let ghost names_s = if has_header {
                            rows_s[0]
                        } else {
                            default_names(w_s)
                        };
                        assert(names_s.len() == w_s);
                        assert(!names_distinct(names_s)) by {
                            if names_distinct(names_s) {
                                assert(names_s == namesv);
                                assert(names_s[a as int] != names_s[b as int]);
                            }
                        }
                        assert(spec_csv_frame(text@, sep, has_header) == Err::<
                            Seq<ColV>,
                            ErrorKind,
                        >(ErrorKind::Schema));
                    }
                    return Err(EngineError::schema("duplicate column name"));
                }
                b = b + 1;
            }
            a = a + 1;
        }
        proof {
            assert(names_distinct(namesv)) by {
                assert forall|p: int, q: int|
                    0 <= p < q < namesv.len() implies namesv[p] != namesv[q] by {}
            }
        }
        // transpose into string columns
        let data_start: usize = if has_header {
            1
        } else {
            0
        };
        let ghost datav = if has_header {
            cellsv.skip(1)
        } else {
            cellsv
        };
        let nrows = m - data_start;
        proof {
            assert(datav.len() == nrows);
            assert forall|q: int| 0 <= q < nrows implies #[trigger] datav[q] == cellsv[q
                + data_start] by {}
        }
        let mut cols: Vec<Series> = Vec::new();
        let mut c: usize = 0;
        let ghost target = spec_csv_frame(text@, sep, has_header)->Ok_0;
        proof {
            assert(spec_csv_frame(text@, sep, has_header) is Ok);
            assert(target.len() == w);
            assert forall|q: int| 0 <= q < w implies #[trigger] target[q] == (ColV {
                name: namesv[q],
                dtype: crate::dtype::DTypeV::Str,
                vals: Seq::new(datav.len(), |r2: int| Val::Text(datav[r2][q])),
            }) by {}
        }
        while c < w
            invariant
                c <= w,
                m == rows@.len(),
                m >= 1,
                data_start <= m,
                nrows == m - data_start,
                parsed_rows_view(rows@) == cellsv,
                cellsv.len() == m,
                w == cellsv[0].len(),
                forall|q: int| 0 <= q < m ==> (#[trigger] cellsv[q]).len() == w,
                datav.len() == nrows,
                forall|q: int| 0 <= q < nrows ==> #[trigger] datav[q] == cellsv[q + data_start],
                names@.len() == w,
                forall|q: int| 0 <= q < w ==> (#[trigger] names@[q])@ == namesv[q],
                target.len() == w,
                forall|q: int|
                    0 <= q < w ==> #[trigger] target[q] == (ColV {
                        name: namesv[q],
                        dtype: crate::dtype::DTypeV::Str,
                        vals: Seq::new(datav.len(), |r2: int| Val::Text(datav[r2][q])),
                    }),
                cols@.len() == c,
                forall|q: int| 0 <= q < c ==> ColV::of_series(#[trigger] cols@[q]) == target[q],
                forall|q: int| 0 <= q < c ==> (#[trigger] cols@[q]).wf(),
                forall|q: int| 0 <= q < c ==> (#[trigger] cols@[q]).spec_vals().len() == nrows,
            decreases w - c,
        {
            let mut cells: Vec<AnyVal> = Vec::new();
            let mut r2: usize = 0;
            while r2 < nrows
                invariant
                    r2 <= nrows,
                    c < w,
                    m == rows@.len(),
                    data_start <= m,
                    nrows == m - data_start,
                    parsed_rows_view(rows@) == cellsv,
                    cellsv.len() == m,
                    forall|q: int| 0 <= q < m ==> (#[trigger] cellsv[q]).len() == w,
                    datav.len() == nrows,
                    forall|q: int| 0 <= q < nrows ==> #[trigger] datav[q] == cellsv[q + data_start],
                    cells@.len() == r2,
                    forall|q: int|
                        0 <= q < r2 ==> (#[trigger] cells@[q])@ == Val::Text(datav[q][c as int]),
                decreases nrows - r2,
            {
                proof {
                    lemma_names_view(rows@[r2 + data_start]@);
                    assert(cellsv[r2 + data_start] == names_view(rows@[r2 + data_start]@));
                }
                let cell = rows[data_start + r2][c].clone();
                cells.push(AnyVal::Text(cell));
                r2 = r2 + 1;
            }
            proof {
                lemma_vals_view(cells@);
                assert forall|q: int| 0 <= q < vals_view(cells@).len() implies val_matches_dtype(
                    #[trigger] vals_view(cells@)[q],
                    crate::dtype::DTypeV::Str,
                ) by {
                    assert(vals_view(cells@)[q] == cells@[q]@);
                }
            }
            let col = Series::from_checked(names[c].clone(), LogicalType::Str, cells);
            cols.push(col);
            proof {
                assert(ColV::of_series(cols@.last()) =~= target[c as int]);
            }
            c = c + 1;
        }
        proof {
            assert(frame_wf(cols@)) by {
                if cols@.len() > 0 {
                    assert(crate::frame::frame_height(cols@) == cols@[0].spec_vals().len());
                }
                assert forall|p: int, q: int|
                    0 <= p < q < cols@.len() implies (#[trigger] cols@[p]).spec_name() != (
                #[trigger] cols@[q]).spec_name() by {
                    assert(ColV::of_series(cols@[p]).name == namesv[p]);
                    assert(ColV::of_series(cols@[q]).name == namesv[q]);
                }
            }
        }
        let df = DataFrame::from_checked(cols);
        proof {
            assert(df.model() =~= target);
        }
        Ok(df)
    }
}

} // verus!
