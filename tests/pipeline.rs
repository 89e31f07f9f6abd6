use sanitise::config::{ConfigIssue, Doc};
use sanitise::parse::SyntaxError;
use sanitise::pipeline::Failure;
use sanitise::value::Value;
use sanitise::{sanitise, SanitiseError};

fn chars(x: &str) -> Vec<char> {
    x.chars().collect()
}

fn st(x: &str) -> Doc {
    Doc::Str(chars(x))
}

fn map(entries: Vec<(&str, Doc)>) -> Doc {
    Doc::Mapping(entries.into_iter().map(|(k, v)| (chars(k), v)).collect())
}

fn list(items: Vec<Doc>) -> Doc {
    Doc::List(items)
}

fn program(processes: Vec<Doc>) -> Doc {
    map(vec![("processes", list(processes))])
}

fn process(name: &str, columns: Vec<Doc>) -> Doc {
    map(vec![("name", st(name)), ("columns", list(columns))])
}

fn int_col(title: &str, extra: Vec<(&str, Doc)>) -> Doc {
    let mut e = vec![("title", st(title)), ("column-type", st("integer"))];
    e.extend(extra);
    map(e)
}

fn ints(v: &[Value]) -> Vec<i64> {
    v.iter()
        .map(|x| match x {
            Value::Integer(i) => *i,
            other => panic!("not an integer: {:?}", other),
        })
        .collect()
}

fn bools(v: &[Value]) -> Vec<bool> {
    v.iter()
        .map(|x| match x {
            Value::Boolean(b) => *b,
            other => panic!("not a boolean: {:?}", other),
        })
        .collect()
}

fn strs(v: &[Value]) -> Vec<String> {
    v.iter()
        .map(|x| match x {
            Value::Str(s) => s.iter().collect(),
            other => panic!("not a string: {:?}", other),
        })
        .collect()
}

/// The outputs of the single section and the single process.
fn run_one(config: &Doc, csv: &str) -> Vec<Vec<Value>> {
    let mut r = sanitise(config, csv).expect("run failed");
    assert_eq!(r.len(), 1);
    let mut section = r.remove(0);
    section.remove(0)
}

fn run_err(config: &Doc, csv: &str) -> Failure {
    match sanitise(config, csv) {
        Err(SanitiseError::Run(f)) => f,
        Err(SanitiseError::Config(e)) => panic!("config error: {:?}", e),
        Ok(_) => panic!("run succeeded"),
    }
}

fn validate_config() -> Doc {
    program(vec![process(
        "validate",
        vec![
            int_col("time", vec![]),
            int_col(
                "pulse",
                vec![
                    ("max", Doc::Int(100)),
                    ("min", Doc::Int(40)),
                    ("on-invalid", st("average")),
                    ("valid-streak", Doc::Int(3)),
                ],
            ),
            int_col(
                "movement",
                vec![
                    ("valid-values", list(vec![Doc::Int(0), Doc::Int(1)])),
                    ("output-type", st("boolean")),
                    ("output", st("value == 1")),
                ],
            ),
        ],
    )])
}

#[test]
fn simple_validate() {
    let out = run_one(&validate_config(), "time,pulse,movement\n0,67,0\n15,45,1\n126,132,1\n");
    assert_eq!(ints(&out[0]), vec![0, 15, 126]);
    assert_eq!(ints(&out[1]), vec![67, 45, 45]);
    assert_eq!(bools(&out[2]), vec![false, true, true]);
}

#[test]
fn delete_propagation() {
    let config = program(vec![process(
        "p",
        vec![
            int_col("a", vec![("max", Doc::Int(50)), ("on-invalid", st("delete"))]),
            int_col("b", vec![("max", Doc::Int(3)), ("on-invalid", st("abort"))]),
        ],
    )]);
    let out = run_one(&config, "a,b\n99,5\n1,2\n");
    assert_eq!(ints(&out[0]), vec![1]);
    assert_eq!(ints(&out[1]), vec![2]);
}

#[test]
fn delete_undoes_earlier_columns() {
    let config = program(vec![process(
        "p",
        vec![
            int_col("a", vec![]),
            int_col("b", vec![("max", Doc::Int(10)), ("on-invalid", st("delete"))]),
            int_col("c", vec![]),
        ],
    )]);
    let out = run_one(&config, "a,b,c\n1,2,3\n4,50,6\n7,8,9\n");
    assert_eq!(ints(&out[0]), vec![1, 7]);
    assert_eq!(ints(&out[1]), vec![2, 8]);
    assert_eq!(ints(&out[2]), vec![3, 9]);
}

#[test]
fn sentinel_on_null() {
    let config = program(vec![process(
        "p",
        vec![int_col("x", vec![("on-null", st("sentinel")), ("null-sentinel", Doc::Int(-1))])],
    )]);
    let out = run_one(&config, "x\n\n\n\n7\n");
    assert_eq!(ints(&out[0]), vec![-1, -1, -1, 7]);
}

#[test]
fn previous_fallback() {
    let config = program(vec![process(
        "p",
        vec![int_col(
            "x",
            vec![
                ("on-invalid", st("previous")),
                ("invalid-sentinel", Doc::Int(0)),
                ("max", Doc::Int(10)),
            ],
        )],
    )]);
    let out = run_one(&config, "x\n5\n20\n20\n3\n");
    assert_eq!(ints(&out[0]), vec![5, 5, 5, 3]);
    let out = run_one(&config, "x\n20\n4\n");
    assert_eq!(ints(&out[0]), vec![0, 4]);
}

fn average_config() -> Doc {
    program(vec![process(
        "p",
        vec![int_col(
            "p",
            vec![
                ("on-invalid", st("average")),
                ("valid-streak", Doc::Int(3)),
                ("max", Doc::Int(100)),
                ("min", Doc::Int(40)),
            ],
        )],
    )])
}

#[test]
fn average_commit_and_backfill() {
    let out = run_one(&average_config(), "p\n50\n200\n200\n60\n70\n80\n");
    assert_eq!(ints(&out[0]), vec![50, 55, 55, 60, 70, 80]);
}

#[test]
fn average_mean_truncates() {
    let out = run_one(&average_config(), "p\n50\n200\n61\n70\n80\n");
    assert_eq!(ints(&out[0]), vec![50, 55, 61, 70, 80]);
}

#[test]
fn average_without_prior_output_uses_streak_value() {
    let out = run_one(&average_config(), "p\n200\n60\n70\n80\n");
    assert_eq!(ints(&out[0]), vec![60, 60, 70, 80]);
}

#[test]
fn average_broken_streak_is_discarded() {
    let out = run_one(&average_config(), "p\n50\n200\n60\n200\n60\n70\n80\n");
    // missing = 1, then the streak [60] is discarded: missing = 3, then a full streak.
    assert_eq!(ints(&out[0]), vec![50, 55, 55, 55, 60, 70, 80]);
}

#[test]
fn average_pending_at_end_without_output_fails() {
    let f = run_err(&average_config(), "p\n200\n60\n");
    match f {
        Failure::Process { process, error } => {
            assert_eq!(process, 0);
            assert_eq!(error.line, 2);
            assert!(matches!(error.error, sanitise::column::ColumnError::NoValidValues));
        }
        other => panic!("unexpected failure {:?}", other),
    }
}

fn aggregate_config() -> Doc {
    program(vec![map(vec![
        ("name", st("agg")),
        ("aggregate-column", st("t")),
        (
            "columns",
            list(vec![
                int_col("t", vec![]),
                int_col("v", vec![("aggregate", st("average"))]),
                int_col("f", vec![("aggregate", st("first"))]),
                int_col("l", vec![("aggregate", st("last"))]),
            ]),
        ),
    ])])
}

#[test]
fn aggregate_by_run_length() {
    let csv = "t,v,f,l\n1,10,1,1\n1,20,2,2\n2,30,3,3\n2,40,4,4\n2,50,5,5\n3,60,6,6\n";
    let out = run_one(&aggregate_config(), csv);
    assert_eq!(ints(&out[0]), vec![1, 2, 3]);
    assert_eq!(ints(&out[1]), vec![15, 40, 60]);
    assert_eq!(ints(&out[2]), vec![1, 3, 6]);
    assert_eq!(ints(&out[3]), vec![2, 5, 6]);
}

#[test]
fn aggregate_keys_never_repeat() {
    let csv = "t,v,f,l\n1,1,1,1\n1,1,1,1\n2,1,1,1\n1,1,1,1\n1,1,1,1\n2,1,1,1\n2,1,1,1\n";
    let out = run_one(&aggregate_config(), csv);
    let keys = ints(&out[0]);
    assert_eq!(keys, vec![1, 2, 1, 2]);
    for w in keys.windows(2) {
        assert_ne!(w[0], w[1]);
    }
}

#[test]
fn aggregate_average_truncates_negative_mean() {
    let csv = "t,v,f,l\n1,-3,0,0\n1,-4,0,0\n";
    let out = run_one(&aggregate_config(), csv);
    assert_eq!(ints(&out[1]), vec![-3]);
}

#[test]
fn aggregate_of_nothing_is_empty() {
    let out = run_one(&aggregate_config(), "t,v,f,l\n");
    assert!(out.iter().all(|c| c.is_empty()));
}

fn expr_config(output: &str, output_type: &str) -> Doc {
    program(vec![process(
        "p",
        vec![
            int_col("a", vec![("output", st(output)), ("output-type", st(output_type))]),
            int_col("b", vec![]),
        ],
    )])
}

#[test]
fn integer_division_truncates() {
    let out = run_one(&expr_config("value / value_b", "integer"), "a,b\n-7,2\n7,-2\n7,2\n");
    assert_eq!(ints(&out[0]), vec![-3, -3, 3]);
    let out = run_one(&expr_config("value % value_b", "integer"), "a,b\n-7,2\n7,-2\n");
    assert_eq!(ints(&out[0]), vec![-1, 1]);
}

#[test]
fn multiplication_binds_tighter() {
    let out = run_one(&expr_config("value + value_b * 2 - -1", "integer"), "a,b\n1,3\n");
    assert_eq!(ints(&out[0]), vec![8]);
    let out = run_one(&expr_config("(value + value_b) * 2", "integer"), "a,b\n1,3\n");
    assert_eq!(ints(&out[0]), vec![8]);
}

#[test]
fn comparisons() {
    let out = run_one(&expr_config("value >= value_b", "boolean"), "a,b\n1,3\n3,3\n4,3\n");
    assert_eq!(bools(&out[0]), vec![false, true, true]);
    let out = run_one(&expr_config("!(value <= value_b)", "boolean"), "a,b\n1,3\n3,3\n4,3\n");
    assert_eq!(bools(&out[0]), vec![false, false, true]);
}

#[test]
fn conversions_and_concat() {
    let out = run_one(
        &expr_config("concat(string(value), concat(\"/\", string(value_b)))", "string"),
        "a,b\n-12,30\n",
    );
    assert_eq!(strs(&out[0]), vec!["-12/30".to_string()]);
    let out = run_one(&expr_config("boolean(value)", "boolean"), "a,b\n0,1\n5,1\n");
    assert_eq!(bools(&out[0]), vec![false, true]);
    let out = run_one(&expr_config("integer(value > value_b)", "integer"), "a,b\n0,1\n5,1\n");
    assert_eq!(ints(&out[0]), vec![0, 1]);
}

#[test]
fn string_to_integer_conversion() {
    let config = program(vec![process(
        "p",
        vec![map(vec![
            ("title", st("s")),
            ("column-type", st("string")),
            ("output-type", st("integer")),
            ("output", st("integer(value)")),
        ])],
    )]);
    let out = run_one(&config, "s\n+42\n-7\n");
    assert_eq!(ints(&out[0]), vec![42, -7]);
    match run_err(&config, "s\n4x\n") {
        Failure::Process { error, .. } => assert!(matches!(
            error.error,
            sanitise::column::ColumnError::Evaluation(sanitise::expr::EvalError::BadConversion)
        )),
        other => panic!("unexpected failure {:?}", other),
    }
}

#[test]
fn overflow_is_an_error() {
    match run_err(&expr_config("value * value_b", "integer"), "a,b\n9223372036854775807,2\n") {
        Failure::Process { error, .. } => {
            assert_eq!(error.line, 1);
            assert!(matches!(
                error.error,
                sanitise::column::ColumnError::Evaluation(sanitise::expr::EvalError::Overflow)
            ));
        }
        other => panic!("unexpected failure {:?}", other),
    }
}

#[test]
fn division_by_zero_is_an_error() {
    match run_err(&expr_config("value / value_b", "integer"), "a,b\n1,0\n") {
        Failure::Process { error, .. } => assert!(matches!(
            error.error,
            sanitise::column::ColumnError::Evaluation(sanitise::expr::EvalError::DivideByZero)
        )),
        other => panic!("unexpected failure {:?}", other),
    }
}

#[test]
fn abort_reports_line_and_value() {
    let config = program(vec![process("p", vec![int_col("x", vec![("max", Doc::Int(10))])])]);
    match run_err(&config, "x\n1\n2\n30\n") {
        Failure::Process { process, error } => {
            assert_eq!(process, 0);
            assert_eq!(error.line, 3);
            assert_eq!(error.column, 0);
            match error.error {
                sanitise::column::ColumnError::Invalid(Value::Integer(v)) => assert_eq!(v, 30),
                other => panic!("unexpected error {:?}", other),
            }
        }
        other => panic!("unexpected failure {:?}", other),
    }
}

#[test]
fn null_under_abort_fails() {
    let config = program(vec![process("p", vec![int_col("x", vec![])])]);
    match run_err(&config, "x\n1\n\n") {
        Failure::Process { error, .. } => {
            assert_eq!(error.line, 2);
            assert!(matches!(error.error, sanitise::column::ColumnError::UnexpectedNull));
        }
        other => panic!("unexpected failure {:?}", other),
    }
}

#[test]
fn null_surrogate_takes_precedence() {
    let config = program(vec![process(
        "p",
        vec![int_col(
            "x",
            vec![
                ("max", Doc::Int(10)),
                ("null-surrogates", list(vec![Doc::Int(999)])),
                ("on-null", st("sentinel")),
                ("null-sentinel", Doc::Int(0)),
            ],
        )],
    )]);
    let out = run_one(&config, "x\n999\n5\n");
    assert_eq!(ints(&out[0]), vec![0, 5]);
}

#[test]
fn invalid_values_blacklist() {
    let config = program(vec![process(
        "p",
        vec![int_col(
            "x",
            vec![
                ("invalid-values", list(vec![Doc::Int(3)])),
                ("on-invalid", st("sentinel")),
                ("invalid-sentinel", Doc::Int(-1)),
            ],
        )],
    )]);
    let out = run_one(&config, "x\n3\n4\n");
    assert_eq!(ints(&out[0]), vec![-1, 4]);
}

#[test]
fn string_bounds_compare_lexicographically() {
    let config = program(vec![process(
        "p",
        vec![map(vec![
            ("title", st("s")),
            ("column-type", st("string")),
            ("max", st("m")),
            ("on-invalid", st("sentinel")),
            ("invalid-sentinel", st("?")),
        ])],
    )]);
    let out = run_one(&config, "s\napple\nzebra\nm\n");
    assert_eq!(strs(&out[0]), vec!["apple", "?", "m"]);
}

#[test]
fn booleans_parse() {
    let config = program(vec![process(
        "p",
        vec![map(vec![("title", st("b")), ("column-type", st("boolean"))])],
    )]);
    let out = run_one(&config, "b\ntrue\nfalse\r\n");
    assert_eq!(bools(&out[0]), vec![true, false]);
    match run_err(&config, "b\nyes\n") {
        Failure::Line { line, issue, .. } => {
            assert_eq!(line, 1);
            assert_eq!(issue, sanitise::csv::LineError::Field(0));
        }
        other => panic!("unexpected failure {:?}", other),
    }
}

#[test]
fn whitespace_is_not_trimmed() {
    let config = program(vec![process("p", vec![int_col("x", vec![])])]);
    match run_err(&config, "x\n1\n 2\n") {
        Failure::Line { line, issue, field } => {
            assert_eq!(field, chars(" 2"));
            assert_eq!(line, 2);
            assert_eq!(issue, sanitise::csv::LineError::Field(0));
        }
        other => panic!("unexpected failure {:?}", other),
    }
}

#[test]
fn wrong_arity() {
    let config = program(vec![process("p", vec![int_col("x", vec![]), int_col("y", vec![])])]);
    match run_err(&config, "x,y\n1,2\n1,2,3\n") {
        Failure::Line { line, issue, .. } => {
            assert_eq!(line, 2);
            assert_eq!(issue, sanitise::csv::LineError::Length(3));
        }
        other => panic!("unexpected failure {:?}", other),
    }
}

#[test]
fn ignored_columns_are_parsed_but_not_output() {
    let config = program(vec![process(
        "p",
        vec![
            int_col("x", vec![]),
            map(vec![("title", st("skip")), ("column-type", st("string")), ("ignore", Doc::Bool(true))]),
            int_col("y", vec![]),
        ],
    )]);
    let out = run_one(&config, "x,skip,y\n1,a,2\n3,,4\n");
    assert_eq!(out.len(), 2);
    assert_eq!(ints(&out[0]), vec![1, 3]);
    assert_eq!(ints(&out[1]), vec![2, 4]);
}

#[test]
fn chained_processes() {
    let config = program(vec![
        process("first", vec![int_col("a", vec![]), int_col("b", vec![("output", st("value * 2"))])]),
        process("second", vec![int_col("a", vec![("output", st("value + value_b"))]), int_col("b", vec![])]),
    ]);
    let mut r = sanitise(&config, "a,b\n1,2\n3,4\n").expect("run failed");
    let section = r.remove(0);
    assert_eq!(section.len(), 2);
    assert_eq!(ints(&section[0][0]), vec![1, 3]);
    assert_eq!(ints(&section[0][1]), vec![4, 8]);
    assert_eq!(ints(&section[1][0]), vec![5, 11]);
    assert_eq!(ints(&section[1][1]), vec![4, 8]);
}

fn titled(on_title: &str) -> Doc {
    map(vec![
        ("processes", list(vec![process("p", vec![int_col("x", vec![])])])),
        ("on-title", st(on_title)),
    ])
}

#[test]
fn once_rejects_extra_header() {
    match run_err(&titled("once"), "x\n1\n2\nx\n3\n") {
        Failure::ExtraHeader { line } => assert_eq!(line, 3),
        other => panic!("unexpected failure {:?}", other),
    }
}

#[test]
fn missing_header() {
    match run_err(&titled("once"), "1\n2\n") {
        Failure::NoHeader => {}
        other => panic!("unexpected failure {:?}", other),
    }
}

#[test]
fn combine_joins_sections() {
    let r = sanitise(&titled("combine"), "x\n1\n2\nx\n3\n").expect("run failed");
    assert_eq!(r.len(), 1);
    assert_eq!(ints(&r[0][0][0]), vec![1, 2, 3]);
}

#[test]
fn split_keeps_sections_apart() {
    let r = sanitise(&titled("split"), "x\n1\n2\nx\n3\n").expect("run failed");
    assert_eq!(r.len(), 2);
    assert_eq!(ints(&r[0][0][0]), vec![1, 2]);
    assert_eq!(ints(&r[1][0][0]), vec![3]);
}

fn config_err(config: &Doc) -> sanitise::config::ConfigIssue {
    match sanitise(config, "x\n1\n") {
        Err(SanitiseError::Config(e)) => e.issue,
        other => panic!("expected a config error, got {:?}", other),
    }
}

#[test]
fn unknown_key_is_rejected() {
    let config = program(vec![process("p", vec![int_col("x", vec![("colour", st("red"))])])]);
    match config_err(&config) {
        sanitise::config::ConfigIssue::UnknownKey(k) => assert_eq!(k, chars("colour")),
        other => panic!("unexpected issue {:?}", other),
    }
}

#[test]
fn average_requires_streak() {
    let config = program(vec![process("p", vec![int_col("x", vec![("on-invalid", st("average"))])])]);
    assert!(matches!(config_err(&config), sanitise::config::ConfigIssue::MissingKey(_)));
    let config = program(vec![process(
        "p",
        vec![int_col("x", vec![("on-invalid", st("average")), ("valid-streak", Doc::Int(0))])],
    )]);
    assert!(matches!(config_err(&config), sanitise::config::ConfigIssue::StreakNotPositive));
}

#[test]
fn null_average_needs_invalid_average() {
    let config = program(vec![process(
        "p",
        vec![int_col("x", vec![("on-null", st("average")), ("valid-streak", Doc::Int(2))])],
    )]);
    assert!(matches!(config_err(&config), sanitise::config::ConfigIssue::NullAverage));
}

#[test]
fn output_type_is_checked() {
    let config = program(vec![process(
        "p",
        vec![int_col("x", vec![("output", st("value == 1"))])],
    )]);
    assert!(matches!(config_err(&config), sanitise::config::ConfigIssue::OutputType));
    let config = program(vec![process("p", vec![int_col("x", vec![("output", st("value + nope"))])])]);
    assert!(matches!(config_err(&config), sanitise::config::ConfigIssue::OutputType));
}

#[test]
fn constant_type_is_checked() {
    let config = program(vec![process("p", vec![int_col("x", vec![("max", st("ten"))])])]);
    assert!(matches!(config_err(&config), sanitise::config::ConfigIssue::ConstantType(_)));
}

#[test]
fn ignored_column_takes_no_rules() {
    let config = program(vec![process(
        "p",
        vec![int_col("x", vec![("ignore", Doc::Bool(true)), ("max", Doc::Int(3))])],
    )]);
    assert!(matches!(config_err(&config), sanitise::config::ConfigIssue::IgnoredWithKeys));
}

#[test]
fn equal_length_outputs() {
    let config = program(vec![process(
        "p",
        vec![
            int_col(
                "a",
                vec![
                    ("on-invalid", st("average")),
                    ("valid-streak", Doc::Int(2)),
                    ("max", Doc::Int(10)),
                ],
            ),
            int_col("b", vec![("max", Doc::Int(10)), ("on-invalid", st("delete"))]),
            int_col("c", vec![("on-null", st("sentinel")), ("null-sentinel", Doc::Int(0))]),
        ],
    )]);
    let out = run_one(&config, "a,b,c\n1,1,1\n50,1,\n2,50,3\n3,1,\n4,1,4\n50,50,5\n");
    assert_eq!(ints(&out[0]), vec![1, 2, 3, 4]);
    assert_eq!(ints(&out[1]), vec![1, 1, 1, 1]);
    assert_eq!(ints(&out[2]), vec![1, 0, 0, 4]);
}

#[test]
fn deleted_row_leaves_no_trace() {
    let config = program(vec![process(
        "p",
        vec![
            int_col("a", vec![("on-invalid", st("previous")), ("invalid-sentinel", Doc::Int(0)), ("max", Doc::Int(10))]),
            int_col("b", vec![("max", Doc::Int(10)), ("on-invalid", st("delete"))]),
        ],
    )]);
    let with = run_one(&config, "a,b\n1,1\n20,50\n2,2\n");
    let without = run_one(&config, "a,b\n1,1\n2,2\n");
    assert_eq!(ints(&with[0]), ints(&without[0]));
    assert_eq!(ints(&with[1]), ints(&without[1]));
}

#[test]
fn reprocessing_own_output_is_stable() {
    let config = program(vec![process(
        "p",
        vec![int_col("a", vec![]), map(vec![("title", st("s")), ("column-type", st("string"))])],
    )]);
    let csv = "a,s\n-5,x\n12,yy\n";
    let out = run_one(&config, csv);
    let mut again = String::from("a,s\n");
    for (a, s) in ints(&out[0]).iter().zip(strs(&out[1])) {
        again.push_str(&format!("{},{}\n", a, s));
    }
    let out2 = run_one(&config, &again);
    assert_eq!(ints(&out[0]), ints(&out2[0]));
    assert_eq!(strs(&out[1]), strs(&out2[1]));
}

#[test]
fn runs_are_deterministic() {
    let csv = "time,pulse,movement\n0,67,0\n15,45,1\n126,132,1\n";
    let a = run_one(&validate_config(), csv);
    let b = run_one(&validate_config(), csv);
    assert_eq!(ints(&a[0]), ints(&b[0]));
    assert_eq!(ints(&a[1]), ints(&b[1]));
    assert_eq!(bools(&a[2]), bools(&b[2]));
}

#[test]
fn syntax_errors_are_config_errors() {
    let bad = |text: &str| {
        let config = program(vec![process("p", vec![int_col("x", vec![("output", st(text))])])]);
        match config_err(&config) {
            ConfigIssue::Syntax(e) => e,
            other => panic!("unexpected issue {:?}", other),
        }
    };
    assert_eq!(bad("value +"), SyntaxError::UnexpectedEnd);
    assert_eq!(bad("value 1"), SyntaxError::UnexpectedToken(1));
    assert_eq!(bad("1.5"), SyntaxError::RealLiteral);
    assert_eq!(bad("value # 2"), SyntaxError::UnexpectedChar(6));
    assert_eq!(bad("\"open"), SyntaxError::UnterminatedString);
    assert_eq!(bad("99999999999999999999"), SyntaxError::IntegerRange);
    assert_eq!(bad("(value"), SyntaxError::UnexpectedEnd);
}

#[test]
fn string_literals_and_escapes() {
    let config = program(vec![process(
        "p",
        vec![map(vec![
            ("title", st("s")),
            ("column-type", st("string")),
            ("output", st("concat(value, \"\\\"!\")")),
        ])],
    )]);
    let out = run_one(&config, "s\nhi\n");
    assert_eq!(strs(&out[0]), vec!["hi\"!".to_string()]);
}

#[test]
fn boolean_literals_and_not() {
    let config = program(vec![process(
        "p",
        vec![map(vec![
            ("title", st("b")),
            ("column-type", st("boolean")),
            ("output", st("!value == true")),
        ])],
    )]);
    let out = run_one(&config, "b\ntrue\nfalse\n");
    assert_eq!(bools(&out[0]), vec![false, true]);
}

#[test]
fn failure_lines() {
    let config = program(vec![process("p", vec![int_col("x", vec![("max", Doc::Int(1))])])]);
    assert_eq!(run_err(&config, "x\n1\n5\n").line(), 2);
    assert_eq!(run_err(&config, "y\n1\n").line(), 1);
}

#[test]
fn real_columns_are_refused() {
    let config = program(vec![process(
        "p",
        vec![map(vec![("title", st("r")), ("column-type", st("real"))])],
    )]);
    assert!(matches!(config_err(&config), sanitise::config::ConfigIssue::RealUnsupported));
}

#[test]
fn columnar_input_runs_the_chain() {
    let config = program(vec![
        process("first", vec![int_col("a", vec![("on-null", st("sentinel")), ("null-sentinel", Doc::Int(0))])]),
        process("second", vec![int_col("a", vec![("output", st("value * 10"))])]),
    ]);
    let p = sanitise::config::load_program(&config).expect("config loads");
    let cells = vec![vec![Some(Value::Integer(1)), None, Some(Value::Integer(3))]];
    let out = p.run_chain(&cells, 3).expect("run succeeds");
    assert_eq!(ints(&out[0][0]), vec![1, 0, 3]);
    assert_eq!(ints(&out[1][0]), vec![10, 0, 30]);
}

#[test]
fn only_the_last_process_is_aggregated() {
    let first = map(vec![
        ("name", st("first")),
        ("aggregate-column", st("t")),
        ("columns", list(vec![int_col("t", vec![]), int_col("v", vec![])])),
    ]);
    let second = process("second", vec![int_col("t", vec![]), int_col("v", vec![])]);
    let config = program(vec![first, second]);
    let mut r = sanitise(&config, "t,v\n1,10\n1,20\n2,30\n").expect("run failed");
    let section = r.remove(0);
    assert_eq!(ints(&section[0][0]), vec![1, 1, 2]);
    assert_eq!(ints(&section[1][0]), vec![1, 1, 2]);
    assert_eq!(ints(&section[1][1]), vec![10, 20, 30]);
}

#[test]
fn null_surrogates_apply_to_raw_input_only() {
    let surrogate = vec![
        ("null-surrogates", list(vec![Doc::Int(0)])),
        ("on-null", st("sentinel")),
        ("null-sentinel", Doc::Int(-1)),
    ];
    let config = program(vec![
        process("first", vec![int_col("x", vec![])]),
        process("second", vec![int_col("x", surrogate)]),
    ]);
    let mut r = sanitise(&config, "x\n0\n5\n").expect("run failed");
    let section = r.remove(0);
    assert_eq!(ints(&section[1][0]), vec![0, 5]);
}

#[test]
fn unused_companion_keys_are_rejected() {
    let config = program(vec![process("p", vec![int_col("x", vec![("invalid-sentinel", Doc::Int(0))])])]);
    match config_err(&config) {
        ConfigIssue::UnusedKey(k) => assert_eq!(k, chars("invalid-sentinel")),
        other => panic!("unexpected issue {:?}", other),
    }
    let config = program(vec![process("p", vec![int_col("x", vec![("valid-streak", Doc::Int(2))])])]);
    assert!(matches!(config_err(&config), ConfigIssue::UnusedKey(_)));
    let config = program(vec![process(
        "p",
        vec![int_col("x", vec![("on-invalid", st("delete")), ("null-sentinel", Doc::Int(0))])],
    )]);
    assert!(matches!(config_err(&config), ConfigIssue::UnusedKey(_)));
}

#[test]
fn config_errors_name_their_path() {
    let config = program(vec![process("validate", vec![int_col("pulse", vec![("colour", st("red"))])])]);
    match sanitise(&config, "pulse\n1\n") {
        Err(SanitiseError::Config(e)) => {
            assert_eq!(e.process, chars("validate"));
            assert_eq!(e.column, chars("pulse"));
        }
        other => panic!("expected a config error, got {:?}", other),
    }
    let config = program(vec![map(vec![
        ("name", st("validate")),
        ("colour", st("red")),
        ("columns", list(vec![int_col("x", vec![])])),
    ])]);
    match sanitise(&config, "x\n1\n") {
        Err(SanitiseError::Config(e)) => {
            assert_eq!(e.process, chars("validate"));
            assert!(e.column.is_empty());
        }
        other => panic!("expected a config error, got {:?}", other),
    }
}

#[test]
fn constants_keep_their_values() {
    let d = Doc::Int(42);
    match sanitise::config::constant(&d, sanitise::value::ColumnType::Integer, "max") {
        Ok(Value::Integer(v)) => assert_eq!(v, 42),
        other => panic!("unexpected {:?}", other),
    }
    let d = Doc::Str(chars("ab"));
    match sanitise::config::constant(&d, sanitise::value::ColumnType::Str, "max") {
        Ok(Value::Str(v)) => assert_eq!(v, chars("ab")),
        other => panic!("unexpected {:?}", other),
    }
}

#[test]
fn fill_while_averaging_is_refused() {
    let config = program(vec![process(
        "p",
        vec![
            int_col(
                "a",
                vec![
                    ("max", Doc::Int(100)),
                    ("on-invalid", st("average")),
                    ("valid-streak", Doc::Int(2)),
                    ("on-null", st("sentinel")),
                    ("null-sentinel", Doc::Int(0)),
                ],
            ),
            int_col("b", vec![("max", Doc::Int(100)), ("on-invalid", st("delete"))]),
        ],
    )]);
    match sanitise(&config, "a,b\n200,1\n60,200\n,200\n") {
        Err(SanitiseError::Config(e)) => {
            assert!(matches!(e.issue, ConfigIssue::FillWhileAveraging));
            assert_eq!(e.column, chars("a"));
        }
        other => panic!("expected a config error, got {:?}", other),
    }
}

#[test]
fn unknown_key_wins_over_missing_title() {
    let config = program(vec![process("p", vec![map(vec![("colour", st("red"))])])]);
    match config_err(&config) {
        ConfigIssue::UnknownKey(k) => assert_eq!(k, chars("colour")),
        other => panic!("unexpected issue {:?}", other),
    }
}

#[test]
fn ill_typed_output_names_its_column() {
    let config = program(vec![process(
        "p",
        vec![int_col("x", vec![]), int_col("y", vec![("output", st("value == 1"))])],
    )]);
    match sanitise(&config, "x,y\n1,1\n") {
        Err(SanitiseError::Config(e)) => {
            assert!(matches!(e.issue, ConfigIssue::OutputType));
            assert_eq!(e.column, chars("y"));
            assert_eq!(e.process, chars("p"));
        }
        other => panic!("expected a config error, got {:?}", other),
    }
}

#[test]
fn commit_on_deleted_row_follows_the_undo_table() {
    let config = program(vec![process(
        "p",
        vec![
            int_col(
                "p",
                vec![("max", Doc::Int(100)), ("on-invalid", st("average")), ("valid-streak", Doc::Int(1))],
            ),
            int_col("b", vec![("max", Doc::Int(100)), ("on-invalid", st("delete"))]),
        ],
    )]);
    // Row 3 completes p's streak (back-filling 55) and is then deleted by b: undo removes
    // only the last output.
    let with = run_one(&config, "p,b\n50,1\n200,1\n60,200\n");
    assert_eq!(ints(&with[0]), vec![50, 55]);
    assert_eq!(ints(&with[1]), vec![1, 1]);
    let without = run_one(&config, "p,b\n50,1\n200,1\n");
    assert_eq!(ints(&without[0]), vec![50, 50]);
}
