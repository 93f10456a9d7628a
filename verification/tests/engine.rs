use columnar::dtype::LogicalType;
use columnar::error::ErrorKind;
use columnar::exec::concat_diagonal;
use columnar::expr::AggKind;
use columnar::expr::Expr;
use columnar::frame::DataFrame;
use columnar::plan::concat_diagonal_lazy;
use columnar::plan::LazyFrame;
use columnar::selector::Selector;
use columnar::series::Series;
use columnar::series_ops::ArithOp;
use columnar::series_ops::CmpOp;
use columnar::series_ops::FloatPred;
use columnar::interchange::ArrowArr;
use columnar::interchange::ArrowField;
use columnar::value::AnyVal;

fn int_col(name: &str, vals: &[i64]) -> Series {
    Series::new_i64(name, vals.to_vec(), None).unwrap()
}

fn int_col_masked(name: &str, vals: &[i64], mask: &[bool]) -> Series {
    Series::new_i64(name, vals.to_vec(), Some(mask.to_vec())).unwrap()
}

#[test]
fn empty_series_has_no_nulls_and_accessors_decline() {
    let s = Series::new_i64("a", Vec::new(), None).unwrap();
    assert_eq!(s.len(), 0);
    assert_eq!(s.null_count(), 0);
    assert!(s.get_i64(0).is_none());
    assert!(s.get_bool(0).is_none());
    assert!(s.get_str(0).is_none());
    assert!(s.get_f64_bits(0).is_none());
    assert!(s.get_date(0).is_none());
    assert!(!s.is_null_at(0));
    let t = Series::new_str("t", Vec::new());
    assert_eq!(t.null_count(), 0);
    assert!(t.get_str(3).is_none());
}

#[test]
fn kind_codes_round_trip_for_non_parametric_kinds() {
    // every non-parametric kind reconstructs exactly from its code
    for code in [1, 2, 3, 4, 5, 6, 7, 8, 9, 10, 11, 12, 13, 15, 17, 18, 21] {
        let t = LogicalType::default_for(code);
        assert_eq!(t.kind_of(), code);
        let back = LogicalType::default_for(t.kind_of());
        assert!(back.dtype_eq(&t));
    }
    // parametric kinds keep their kind, not their parameters
    let dt = LogicalType::Datetime(
        columnar::dtype::TimeUnit::Nanoseconds,
        Some("UTC".to_string()),
    );
    assert_eq!(dt.kind_of(), 14);
    let back = LogicalType::default_for(14);
    assert_eq!(back.kind_of(), 14);
    assert!(!back.dtype_eq(&dt));
}

#[test]
fn dtype_display_strings() {
    assert_eq!(LogicalType::Int64.to_display_string(), "i64");
    assert_eq!(LogicalType::Str.to_display_string(), "str");
    assert_eq!(
        LogicalType::Decimal(None, Some(2)).to_display_string(),
        "decimal[38,2]"
    );
    let nested = LogicalType::List(Box::new(LogicalType::Int32));
    assert_eq!(nested.to_display_string(), "list[i32]");
    let st = LogicalType::Struct(vec![
        columnar::dtype::Field { name: "a".to_string(), dtype: LogicalType::Int64 },
        columnar::dtype::Field { name: "b".to_string(), dtype: LogicalType::Str },
    ]);
    assert_eq!(st.to_display_string(), "struct[a: i64, b: str]");
}

#[test]
fn cast_round_trip_keeps_shape_for_lossless_targets() {
    let s = int_col_masked("a", &[1, 2, 3, 4], &[true, false, true, true]);
    // Int64 -> Int32 is not lossless, but Int32 -> Int64 is; build an Int32
    let s32 = s.cast(&LogicalType::Int32).unwrap();
    let up = s32.cast(&LogicalType::Int64).unwrap();
    let back = up.cast(&LogicalType::Int32).unwrap();
    assert_eq!(back.len(), s32.len());
    for i in 0..back.len() {
        assert_eq!(back.is_null_at(i), s32.is_null_at(i));
    }
}

#[test]
fn cast_out_of_range_becomes_null() {
    let s = int_col("a", &[1, 300, -7]);
    let c = s.cast(&LogicalType::Int8).unwrap();
    assert_eq!(c.get_i64(0), Some(1));
    assert!(c.is_null_at(1));
    assert_eq!(c.get_i64(2), Some(-7));
}

#[test]
fn cast_string_to_int_nulls_unparsable_cells() {
    // the engine's documented override policy: a cell that does not parse
    // becomes null rather than failing the read
    let s = Series::new_str(
        "n",
        vec![Some("1".to_string()), Some("2".to_string()), Some("x".to_string())],
    );
    let c = s.cast(&LogicalType::Int64).unwrap();
    assert_eq!(c.get_i64(0), Some(1));
    assert_eq!(c.get_i64(1), Some(2));
    assert!(c.is_null_at(2));
    assert_eq!(c.null_count(), 1);
}

#[test]
fn cast_between_unsupported_types_is_cast_error() {
    let s = int_col("a", &[1]);
    let e = s.cast(&LogicalType::List(Box::new(LogicalType::Int64))).unwrap_err();
    assert_eq!(e.error_kind(), ErrorKind::Cast);
}

#[test]
fn arithmetic_broadcasts_and_nulls_on_overflow_and_zero_division() {
    let a = int_col("a", &[6, 9, i64::MAX]);
    let b = int_col("b", &[3]);
    let sum = a.arith(&b, ArithOp::Add).unwrap();
    assert_eq!(sum.get_i64(0), Some(9));
    assert_eq!(sum.get_i64(1), Some(12));
    assert!(sum.is_null_at(2)); // exceeds the 64-bit range
    let div = a.arith(&int_col("z", &[0]), ArithOp::Div).unwrap();
    assert!(div.is_null_at(0)); // division by zero is null
    let trunc = int_col("x", &[-7]).arith(&int_col("y", &[2]), ArithOp::Div).unwrap();
    assert_eq!(trunc.get_i64(0), Some(-3)); // truncation toward zero
}

#[test]
fn arithmetic_shape_and_type_errors() {
    let a = int_col("a", &[1, 2]);
    let b = int_col("b", &[1, 2, 3]);
    assert_eq!(a.arith(&b, ArithOp::Add).unwrap_err().error_kind(), ErrorKind::Shape);
    let s = Series::new_str("s", vec![Some("x".to_string()), Some("y".to_string())]);
    assert_eq!(a.arith(&s, ArithOp::Add).unwrap_err().error_kind(), ErrorKind::Type);
}

#[test]
fn comparisons_propagate_nulls() {
    let a = int_col_masked("a", &[1, 5, 0], &[true, true, false]);
    let b = int_col("b", &[3]);
    let lt = a.compare(&b, CmpOp::Lt).unwrap();
    assert_eq!(lt.get_bool(0), Some(true));
    assert_eq!(lt.get_bool(1), Some(false));
    assert!(lt.is_null_at(2)); // null compares as null, never true or false
}

#[test]
fn sum_min_max_exact_values() {
    let s = int_col_masked("v", &[5, 7, 100], &[true, true, false]);
    let sum = s.sum().unwrap();
    assert_eq!(sum.len(), 1);
    assert_eq!(sum.get_i64(0), Some(12));
    let mn = s.min().unwrap();
    assert_eq!(mn.get_i64(0), Some(5));
    let mx = s.max().unwrap();
    assert_eq!(mx.get_i64(0), Some(7));
    // an all-null column sums to null
    let alln = int_col_masked("v", &[1, 2], &[false, false]);
    assert!(alln.sum().unwrap().is_null_at(0));
    assert!(alln.min().unwrap().is_null_at(0));
}

#[test]
fn float_predicates_work_on_bit_patterns() {
    let bits = vec![f64::NAN.to_bits(), 1.5f64.to_bits(), f64::INFINITY.to_bits()];
    let s = Series::new_f64_bits("f", bits, None).unwrap();
    let nan = s.float_pred(FloatPred::IsNan).unwrap();
    assert_eq!(nan.get_bool(0), Some(true));
    assert_eq!(nan.get_bool(1), Some(false));
    assert_eq!(nan.get_bool(2), Some(false));
    let fin = s.float_pred(FloatPred::IsFinite).unwrap();
    assert_eq!(fin.get_bool(0), Some(false));
    assert_eq!(fin.get_bool(1), Some(true));
    assert_eq!(fin.get_bool(2), Some(false));
    // a non-float column is a type error
    let e = int_col("a", &[1]).float_pred(FloatPred::IsNan).unwrap_err();
    assert_eq!(e.error_kind(), ErrorKind::Type);
}

#[test]
fn frame_construction_checks_shape_and_names() {
    let a = int_col("a", &[1, 2]);
    let b = int_col("b", &[1]);
    let e = DataFrame::new(vec![a, b]).unwrap_err();
    assert_eq!(e.error_kind(), ErrorKind::Shape);
    let e2 = DataFrame::new(vec![int_col("a", &[1]), int_col("a", &[2])]).unwrap_err();
    assert_eq!(e2.error_kind(), ErrorKind::Schema);
    let df = DataFrame::new(vec![int_col("a", &[1, 2]), int_col("b", &[3, 4])]).unwrap();
    assert_eq!(df.height(), 2);
    assert_eq!(df.width(), 2);
}

#[test]
fn missing_column_is_schema_error() {
    let df = DataFrame::new(vec![int_col("a", &[1])]).unwrap();
    let e = df.column("nope").unwrap_err();
    assert_eq!(e.error_kind(), ErrorKind::Schema);
}

#[test]
fn group_by_row_count_equals_distinct_key_tuples() {
    let df = DataFrame::new(vec![
        int_col("k1", &[1, 1, 2, 1, 2]),
        int_col("k2", &[0, 0, 0, 1, 0]),
        int_col("v", &[10, 20, 30, 40, 50]),
    ])
    .unwrap();
    let out = df
        .group_by_agg(
            &vec![Expr::col("k1"), Expr::col("k2")],
            &vec![Expr::Aggregate(AggKind::Sum, Box::new(Expr::col("v")))],
        )
        .unwrap();
    // distinct key tuples: (1,0), (2,0), (1,1) -> three rows
    assert_eq!(out.height(), 3);
    let k1 = out.column("k1").unwrap();
    let k2 = out.column("k2").unwrap();
    let v = out.column("v").unwrap();
    assert_eq!(k1.get_i64(0), Some(1));
    assert_eq!(k2.get_i64(0), Some(0));
    assert_eq!(v.get_i64(0), Some(30)); // 10 + 20
    assert_eq!(k1.get_i64(1), Some(2));
    assert_eq!(v.get_i64(1), Some(80)); // 30 + 50
    assert_eq!(k1.get_i64(2), Some(1));
    assert_eq!(k2.get_i64(2), Some(1));
    assert_eq!(v.get_i64(2), Some(40));
}

#[test]
fn concat_diagonal_fills_missing_columns_with_nulls() {
    // frames with disjoint schemas {a} (height 2) and {b} (height 3)
    let f1 = DataFrame::new(vec![int_col("a", &[1, 2])]).unwrap();
    let f2 = DataFrame::new(vec![int_col("b", &[7, 8, 9])]).unwrap();
    let out = concat_diagonal(&vec![f1, f2]).unwrap();
    assert_eq!(out.height(), 5);
    assert_eq!(out.width(), 2);
    let a = out.column("a").unwrap();
    let b = out.column("b").unwrap();
    for i in 0..2 {
        assert!(!a.is_null_at(i));
        assert!(b.is_null_at(i));
    }
    for i in 2..5 {
        assert!(a.is_null_at(i));
        assert!(!b.is_null_at(i));
    }
    assert_eq!(a.get_i64(0), Some(1));
    assert_eq!(b.get_i64(2), Some(7));
}

#[test]
fn unpivot_stacks_on_columns() {
    let df = DataFrame::new(vec![
        int_col("id", &[1, 2, 3]),
        int_col("x", &[10, 20, 30]),
        int_col("y", &[40, 50, 60]),
    ])
    .unwrap();
    // default `on`: every non-index column, in schema order
    let out = df
        .unpivot(&vec!["id".to_string()], &Vec::new(), "variable", "value")
        .unwrap();
    assert_eq!(out.height(), 6); // len(on) * height = 2 * 3
    let id = out.column("id").unwrap();
    let var = out.column("variable").unwrap();
    let val = out.column("value").unwrap();
    // each id appears twice: once under x, once under y
    for i in 0..3 {
        assert_eq!(id.get_i64(i), Some(i as i64 + 1));
        assert_eq!(id.get_i64(i + 3), Some(i as i64 + 1));
        assert_eq!(var.get_str(i), Some("x"));
        assert_eq!(var.get_str(i + 3), Some("y"));
    }
    assert_eq!(val.get_i64(0), Some(10));
    assert_eq!(val.get_i64(3), Some(40));
}

#[test]
fn selector_by_dtype_intersect_matches() {
    // schema {val_a: Int64, val_b: String, other: Int64} and the selector
    // numeric() intersect matches("^val_") picks exactly val_a
    let df = DataFrame::new(vec![
        int_col("val_a", &[1]),
        Series::new_str("val_b", vec![Some("s".to_string())]),
        int_col("other", &[2]),
    ])
    .unwrap();
    let schema = df.schema();
    let sel = Selector::numeric().intersect(Selector::matches("^val_"));
    let names = sel.resolve(&schema).unwrap();
    assert_eq!(names.len(), 1);
    assert_eq!(names[0], "val_a");
}

#[test]
fn selector_complement_and_exclusion() {
    let df = DataFrame::new(vec![int_col("a", &[1]), int_col("b", &[2])]).unwrap();
    let schema = df.schema();
    let not_a = Selector::matches("^a$").complement();
    let names = not_a.resolve(&schema).unwrap();
    assert_eq!(names, vec!["b".to_string()]);
    let invalid = Selector::matches("(");
    let e = invalid.resolve(&schema).unwrap_err();
    assert_eq!(e.error_kind(), ErrorKind::Compute);
}

#[test]
fn lazy_plan_builds_without_work_and_collects() {
    let df = DataFrame::new(vec![int_col("a", &[1, 2, 3, 4]), int_col("b", &[10, 20, 30, 40])])
        .unwrap();
    let lf = LazyFrame::scan_frame(df)
        .filter(Expr::BinaryCmp(
            CmpOp::Gt,
            Box::new(Expr::col("a")),
            Box::new(Expr::lit_i64(1)),
        ))
        .select(vec![Expr::col("b")])
        .limit(2);
    let plan_text = lf.explain();
    assert!(plan_text.contains("LIMIT"));
    assert!(plan_text.contains("FILTER"));
    assert!(plan_text.contains("SOURCE"));
    let out = lf.collect().unwrap();
    assert_eq!(out.height(), 2);
    assert_eq!(out.width(), 1);
    let b = out.column("b").unwrap();
    assert_eq!(b.get_i64(0), Some(20));
    assert_eq!(b.get_i64(1), Some(30));
}

#[test]
fn lazy_concat_diagonal_matches_eager() {
    let f1 = DataFrame::new(vec![int_col("a", &[1, 2])]).unwrap();
    let f2 = DataFrame::new(vec![int_col("b", &[7, 8, 9])]).unwrap();
    let lf = concat_diagonal_lazy(LazyFrame::scan_frame(f1), LazyFrame::scan_frame(f2));
    let out = lf.collect().unwrap();
    assert_eq!(out.height(), 5);
    assert_eq!(out.width(), 2);
}

#[test]
fn filter_mask_type_error() {
    let df = DataFrame::new(vec![int_col("a", &[1, 2])]).unwrap();
    let mask = int_col("m", &[1, 0]);
    let e = df.filter_rows(&mask).unwrap_err();
    assert_eq!(e.error_kind(), ErrorKind::Type);
}

#[test]
fn slice_and_rename() {
    let mut s = int_col("a", &[1, 2, 3, 4, 5]);
    let part = s.slice(1, 3);
    assert_eq!(part.len(), 3);
    assert_eq!(part.get_i64(0), Some(2));
    let tail = s.slice(-2, 5);
    assert_eq!(tail.len(), 2);
    assert_eq!(tail.get_i64(0), Some(4));
    s.rename("renamed");
    assert_eq!(s.name(), "renamed");
}

#[test]
fn series_general_constructor_checks_cells() {
    let bad = Series::new(
        "a",
        LogicalType::Int8,
        vec![AnyVal::Int(5), AnyVal::Int(300)],
    );
    assert_eq!(bad.unwrap_err().error_kind(), ErrorKind::Type);
    let good = Series::new(
        "a",
        LogicalType::Int8,
        vec![AnyVal::Int(5), AnyVal::Null],
    )
    .unwrap();
    assert_eq!(good.null_count(), 1);
}

#[test]
fn decimal_and_temporal_accessors() {
    let d = Series::new_decimal("d", vec![12345i128], None, 2).unwrap();
    assert_eq!(d.get_decimal(0), Some((12345i128, 2)));
    let dt = LogicalType::Datetime(columnar::dtype::TimeUnit::Milliseconds, None);
    assert_eq!(dt.time_unit_code(), 2);
    assert_eq!(dt.timezone(), None);
    let tz = LogicalType::Datetime(
        columnar::dtype::TimeUnit::Microseconds,
        Some("UTC".to_string()),
    );
    assert_eq!(tz.timezone(), Some("UTC".to_string()));
    assert_eq!(LogicalType::Decimal(None, Some(4)).decimal_info(), (38, 4));
}

#[test]
fn with_columns_replaces_in_place_and_appends() {
    let df = DataFrame::new(vec![int_col("a", &[1, 2]), int_col("b", &[3, 4])]).unwrap();
    let out = df
        .with_columns_exprs(&vec![
            Expr::BinaryArith(ArithOp::Mul, Box::new(Expr::col("a")), Box::new(Expr::lit_i64(10))),
            Expr::BinaryArith(ArithOp::Add, Box::new(Expr::col("b")), Box::new(Expr::lit_i64(1))),
        ])
        .unwrap();
    assert_eq!(out.width(), 2);
    // `a` keeps its position but takes the new cells
    let a = out.column_at(0).unwrap();
    assert_eq!(a.name(), "a");
    assert_eq!(a.get_i64(0), Some(10));
    let b = out.column_at(1).unwrap();
    assert_eq!(b.get_i64(1), Some(5));
}

#[test]
fn split_into_batches_covers_all_rows() {
    let df = DataFrame::new(vec![int_col("a", &[1, 2, 3, 4, 5])]).unwrap();
    let batches = columnar::plan::split_into_batches(&df, 2);
    assert_eq!(batches.len(), 3);
    assert_eq!(batches[0].height(), 2);
    assert_eq!(batches[1].height(), 2);
    assert_eq!(batches[2].height(), 1);
    assert_eq!(batches[2].column("a").unwrap().get_i64(0), Some(5));
}

#[test]
fn parse_integers_exactly() {
    assert_eq!(columnar::numtext::parse_i64("123"), Some(123));
    assert_eq!(columnar::numtext::parse_i64("-9"), Some(-9));
    assert_eq!(columnar::numtext::parse_i64("12x"), None);
    assert_eq!(columnar::numtext::parse_i64(""), None);
    assert_eq!(
        columnar::numtext::parse_i64("9223372036854775807"),
        Some(i64::MAX)
    );
    assert_eq!(columnar::numtext::parse_i64("9223372036854775808"), None);
    assert_eq!(columnar::numtext::u64_to_string(98765), "98765");
    assert_eq!(columnar::numtext::i64_to_string(-42), "-42");
}

#[test]
fn vertical_concat_requires_identical_schemas() {
    let f1 = DataFrame::new(vec![int_col("a", &[1])]).unwrap();
    let f2 = DataFrame::new(vec![int_col("b", &[2])]).unwrap();
    let e = columnar::exec::concat_vertical(&vec![f1, f2]).unwrap_err();
    assert_eq!(e.error_kind(), ErrorKind::Schema);
    let f3 = DataFrame::new(vec![int_col("a", &[1])]).unwrap();
    let f4 = DataFrame::new(vec![int_col("a", &[2, 3])]).unwrap();
    let out = columnar::exec::concat_vertical(&vec![f3, f4]).unwrap();
    assert_eq!(out.height(), 3);
    assert_eq!(out.column("a").unwrap().get_i64(2), Some(3));
}

#[test]
fn asof_backward_matches_greatest_key_at_or_before() {
    let left = Series::new_i64("l", vec![1, 4, 10, 0], None).unwrap();
    let right = Series::new_i64("r", vec![2, 4, 7], None).unwrap();
    let idx = left.asof_backward_indices(&right, true).unwrap();
    assert_eq!(idx[0], None); // nothing at or before 1
    assert_eq!(idx[1], Some(1)); // 4 matches the key 4 exactly
    assert_eq!(idx[2], Some(2)); // 7 is the greatest key at or before 10
    assert_eq!(idx[3], None);
    // with equality disallowed, 4 falls back to 2
    let strict = left.asof_backward_indices(&right, false).unwrap();
    assert_eq!(strict[1], Some(0));
}

#[test]
fn asof_requires_sorted_right_keys() {
    let left = Series::new_i64("l", vec![1], None).unwrap();
    let unsorted = Series::new_i64("r", vec![5, 2], None).unwrap();
    let e = left.asof_backward_indices(&unsorted, true).unwrap_err();
    assert_eq!(e.error_kind(), ErrorKind::NotSorted);
}

#[test]
fn unsigned_scalar_access() {
    let s = Series::new(
        "u",
        LogicalType::UInt64,
        vec![AnyVal::UInt(7), AnyVal::UInt(u64::MAX), AnyVal::Null],
    )
    .unwrap();
    assert_eq!(s.get_u64(0), Some(7));
    assert_eq!(s.get_u64(1), Some(u64::MAX));
    assert_eq!(s.get_u64(2), None);
    // unsigned cells read through get_i64 when they fit the signed range
    assert_eq!(s.get_i64(0), Some(7));
    assert_eq!(s.get_i64(1), None);
}

#[test]
fn csv_text_parses_and_override_nulls_bad_cells() {
    // a declared-type override over values "1","2","x" nulls the third row
    let text = "n,label\n1,a\n2,b\nx,c\n";
    let df = DataFrame::from_csv_text(text, ',', true).unwrap();
    assert_eq!(df.height(), 3);
    assert_eq!(df.width(), 2);
    let n = df.column("n").unwrap();
    assert_eq!(n.get_str(0), Some("1"));
    let typed = n.cast(&LogicalType::Int64).unwrap();
    assert_eq!(typed.get_i64(0), Some(1));
    assert_eq!(typed.get_i64(1), Some(2));
    assert!(typed.is_null_at(2));
    // without a header, names are generated
    let df2 = DataFrame::from_csv_text("5;6\n7;8", ';', false).unwrap();
    assert_eq!(df2.column("column_1").unwrap().get_str(1), Some("7"));
    // ragged records are a shape error
    let e = DataFrame::from_csv_text("a,b\n1\n", ',', true).unwrap_err();
    assert_eq!(e.error_kind(), ErrorKind::Shape);
    // duplicate header names are a schema error
    let e2 = DataFrame::from_csv_text("a,a\n1,2\n", ',', true).unwrap_err();
    assert_eq!(e2.error_kind(), ErrorKind::Schema);
}

#[test]
fn interchange_round_trip_and_widening() {
    let df = DataFrame::new(vec![int_col("a", &[1, 2]), int_col("b", &[3, 4])]).unwrap();
    let batch = columnar::interchange::frame_to_batch(&df);
    let back = columnar::interchange::frame_from_batch(&batch, "").unwrap();
    assert_eq!(back.height(), 2);
    assert_eq!(back.column("a").unwrap().get_i64(1), Some(2));
    // a 32-bit-offset list widens to 64-bit offsets, values untouched
    let child = int_col("items", &[10, 20, 30]);
    let arr = ArrowArr::List32 {
        offsets: vec![0, 2, 3],
        values: Box::new(ArrowArr::Prim(child)),
        validity: None,
    };
    let wide = arr.upgrade_to_large_list();
    match &wide {
        ArrowArr::List64 { offsets, .. } => assert_eq!(offsets, &vec![0i64, 2, 3]),
        _ => panic!("expected 64-bit offsets"),
    }
    // the widened list decodes into a list column
    let s = wide.to_series("lists").unwrap();
    assert_eq!(s.len(), 2);
    match s.get(0).unwrap() {
        AnyVal::List(items) => assert_eq!(items.len(), 2),
        _ => panic!("expected a list cell"),
    }
    // a struct root with duplicate names is a schema error
    let bad = ArrowArr::StructArr {
        length: 1,
        fields: vec![
            ArrowField { name: "x".to_string(), values: ArrowArr::Prim(int_col("x", &[1])) },
            ArrowField { name: "x".to_string(), values: ArrowArr::Prim(int_col("x", &[2])) },
        ],
    };
    let e = columnar::interchange::frame_from_batch(&bad, "").unwrap_err();
    assert_eq!(e.error_kind(), ErrorKind::Schema);
}

#[test]
fn stream_scan_schema_requires_a_struct() {
    let root = LogicalType::Struct(vec![
        columnar::dtype::Field { name: "a".to_string(), dtype: LogicalType::Int64 },
        columnar::dtype::Field { name: "b".to_string(), dtype: LogicalType::Str },
    ]);
    let s = columnar::plan::scan_stream_schema(&root).unwrap();
    assert_eq!(s.len(), 2);
    let (n0, t0) = s.get_at_index(0).unwrap();
    assert_eq!(n0, "a");
    assert_eq!(t0.kind_of(), 5);
    let e = columnar::plan::scan_stream_schema(&LogicalType::Int64).unwrap_err();
    assert_eq!(e.error_kind(), ErrorKind::Compute);
}

#[test]
fn asof_accepts_temporal_keys() {
    let left = Series::new("l", LogicalType::Datetime(columnar::dtype::TimeUnit::Microseconds, None),
        vec![AnyVal::Int(50)]).unwrap();
    let right = Series::new("r", LogicalType::Datetime(columnar::dtype::TimeUnit::Microseconds, None),
        vec![AnyVal::Int(10), AnyVal::Int(40)]).unwrap();
    let idx = left.asof_backward_indices(&right, true).unwrap();
    assert_eq!(idx[0], Some(1));
    let e = Series::new_str("s", vec![Some("x".to_string())])
        .asof_backward_indices(&right, true)
        .unwrap_err();
    assert_eq!(e.error_kind(), ErrorKind::Type);
}
