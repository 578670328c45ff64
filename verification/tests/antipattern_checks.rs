use cli_test::analysis::antipatterns::{collect, duplicate_functions, god_class, is_measurable, long_function, long_params};
use cli_test::analysis::FileAnalysis;
use cli_test::config::{Config, DuplicateFunctionsConfig, GodClassNames, LongFunctionConfig, LongParamsConfig};
use cli_test::json::{Json, JsonNumber};

fn text(s: &str) -> Json {
    Json::Str(s.to_string())
}

fn num(n: u64) -> Json {
    Json::Number(JsonNumber::Unsigned(n))
}

fn obj(entries: Vec<(&str, Json)>) -> Json {
    Json::Object(entries.into_iter().map(|(k, v)| (k.to_string(), v)).collect())
}

fn func(name: &str, line: u64, end_line: u64, params: &[&str]) -> Json {
    obj(vec![
        ("name", text(name)),
        ("line", num(line)),
        ("end_line", num(end_line)),
        ("parameters", Json::Array(params.iter().map(|p| obj(vec![("name", text(p))])).collect())),
    ])
}

fn class(name: &str, methods: Vec<Json>) -> Json {
    obj(vec![("name", text(name)), ("methods", Json::Array(methods))])
}

fn file_data(functions: Vec<Json>, classes: Vec<Json>) -> Json {
    obj(vec![("functions", Json::Array(functions)), ("classes", Json::Array(classes))])
}

fn analysis(path: &str, data: Json) -> FileAnalysis {
    FileAnalysis { path: path.to_string(), data }
}

fn names(v: &[String]) -> Vec<&str> {
    v.iter().map(|s| s.as_str()).collect()
}

#[test]
fn long_functions_are_those_over_the_limit() {
    let data = file_data(
        vec![func("f", 1, 40, &[]), func("g", 1, 31, &[]), func("h", 10, 41, &[])],
        vec![class("C", vec![func("m", 5, 50, &[])])],
    );
    let found = long_function::check(&data, "main.py", &LongFunctionConfig { max_lines: 30 });
    let got: Vec<(&str, &str, usize)> = found.iter().map(|v| (v.file.as_str(), v.function.as_str(), v.lines)).collect();
    assert_eq!(got, vec![("main.py", "f", 39), ("main.py", "h", 31), ("main.py", "m", 45)]);
}

#[test]
fn long_function_needs_name_and_both_lines() {
    let data = file_data(
        vec![
            obj(vec![("line", num(1)), ("end_line", num(100))]),
            obj(vec![("name", text("no_end")), ("line", num(1))]),
            obj(vec![("name", text("neg")), ("line", Json::Number(JsonNumber::Signed(-1))), ("end_line", num(100))]),
        ],
        vec![],
    );
    assert!(long_function::has_ordered_spans(&data));
    assert!(long_function::check(&data, "a.py", &LongFunctionConfig { max_lines: 0 }).is_empty());
}

#[test]
fn long_function_span_backwards_is_detected() {
    let data = file_data(vec![func("back", 20, 10, &[])], vec![]);
    assert!(!long_function::has_ordered_spans(&data));
    let nameless = file_data(vec![obj(vec![("line", num(20)), ("end_line", num(10))])], vec![]);
    assert!(long_function::has_ordered_spans(&nameless));
}

#[test]
fn long_params_do_not_count_self() {
    let data = file_data(
        vec![func("six", 1, 2, &["a", "b", "c", "d", "e", "f"]), func("five", 1, 2, &["a", "b", "c", "d", "e"])],
        vec![class(
            "K",
            vec![
                func("meth", 1, 2, &["self", "a", "b", "c", "d", "e"]),
                func("meth6", 1, 2, &["self", "a", "b", "c", "d", "e", "f"]),
            ],
        )],
    );
    let found = long_params::check(&data, "k.py", &LongParamsConfig { max_params: 5 });
    let got: Vec<(&str, usize)> = found.iter().map(|v| (v.function.as_str(), v.param_count)).collect();
    assert_eq!(got, vec![("six", 6), ("meth6", 6)]);
}

#[test]
fn long_params_count_unnamed_parameters() {
    let params = Json::Array(vec![obj(vec![]), obj(vec![("name", num(3))]), obj(vec![("name", text("self"))])]);
    let data = file_data(vec![obj(vec![("name", text("f")), ("parameters", params)])], vec![]);
    let found = long_params::check(&data, "x.py", &LongParamsConfig { max_params: 1 });
    assert_eq!(found.len(), 1);
    assert_eq!(found[0].param_count, 2);
}

#[test]
fn duplicates_across_files_with_sorted_file_names() {
    let a = analysis("proj/zeta.py", file_data(vec![func("helper", 1, 2, &[]), func("run", 1, 2, &[])], vec![]));
    let b = analysis(
        "proj/sub/alpha.py",
        file_data(vec![func("run", 1, 2, &[])], vec![class("C", vec![func("helper", 1, 2, &[]), func("only_here", 1, 2, &[])])]),
    );
    let c = analysis("proj/mid.py", file_data(vec![func("helper", 1, 2, &[])], vec![]));
    let config = DuplicateFunctionsConfig { ignored_names: vec!["run".to_string()] };
    let found = duplicate_functions::check(&[a, b, c], &config);
    assert_eq!(found.len(), 1);
    assert_eq!(found[0].function, "helper");
    assert_eq!(names(&found[0].files), vec!["alpha.py", "mid.py", "zeta.py"]);
}

#[test]
fn duplicates_count_files_by_their_path() {
    let a = analysis("one/util.py", file_data(vec![func("f", 1, 2, &[])], vec![]));
    let b = analysis("two/util.py", file_data(vec![func("f", 1, 2, &[])], vec![]));
    let found = duplicate_functions::check(&[a, b], &DuplicateFunctionsConfig { ignored_names: vec![] });
    assert_eq!(found.len(), 1);
    assert_eq!(found[0].function, "f");
    assert_eq!(names(&found[0].files), vec!["util.py", "util.py"]);
}

#[test]
fn duplicates_compare_paths_as_paths() {
    let a = analysis("src/x.py", file_data(vec![func("parse", 1, 2, &[])], vec![]));
    let b = analysis("src//x.py", file_data(vec![func("parse", 1, 2, &[])], vec![]));
    let found = duplicate_functions::check(&[a, b], &DuplicateFunctionsConfig { ignored_names: vec![] });
    assert!(found.is_empty());
}

#[test]
fn duplicates_in_one_file_are_not_reported() {
    let a = analysis("one/util.py", file_data(vec![func("f", 1, 2, &[]), func("f", 5, 6, &[])], vec![class("C", vec![func("f", 1, 2, &[])])]));
    let found = duplicate_functions::check(&[a], &DuplicateFunctionsConfig { ignored_names: vec![] });
    assert!(found.is_empty());
}

#[test]
fn duplicates_do_not_depend_on_file_order() {
    let make = || {
        vec![
            analysis("x/b.py", file_data(vec![func("g", 1, 2, &[]), func("h", 1, 2, &[])], vec![])),
            analysis("y/a.py", file_data(vec![func("h", 1, 2, &[]), func("g", 1, 2, &[])], vec![])),
            analysis("z/c.py", file_data(vec![func("g", 1, 2, &[])], vec![])),
        ]
    };
    let config = DuplicateFunctionsConfig { ignored_names: vec![] };
    let forward = duplicate_functions::check(&make(), &config);
    let mut reversed_input = make();
    reversed_input.reverse();
    let backward = duplicate_functions::check(&reversed_input, &config);
    let mut f: Vec<(String, Vec<String>)> = forward.into_iter().map(|v| (v.function, v.files)).collect();
    let mut b: Vec<(String, Vec<String>)> = backward.into_iter().map(|v| (v.function, v.files)).collect();
    f.sort();
    b.sort();
    assert_eq!(f, b);
    assert_eq!(f[0], ("g".to_string(), vec!["a.py".to_string(), "b.py".to_string(), "c.py".to_string()]));
}

#[test]
fn duplicates_come_in_first_seen_order() {
    let a = analysis("a.py", file_data(vec![func("second", 1, 2, &[]), func("first", 1, 2, &[])], vec![]));
    let b = analysis("b.py", file_data(vec![func("first", 1, 2, &[]), func("second", 1, 2, &[]), func("first", 3, 4, &[])], vec![]));
    let found = duplicate_functions::check(&[a, b], &DuplicateFunctionsConfig { ignored_names: vec![] });
    let got: Vec<&str> = found.iter().map(|v| v.function.as_str()).collect();
    assert_eq!(got, vec!["second", "first"]);
    assert_eq!(names(&found[1].files), vec!["a.py", "b.py"]);
}

fn call(import_name: &str) -> Json {
    obj(vec![("name", text("x")), ("import_name", text(import_name))])
}

fn method_with_calls(line: u64, end_line: u64, calls: Vec<Json>) -> Json {
    obj(vec![
        ("name", text("m")),
        ("line", num(line)),
        ("end_line", num(end_line)),
        ("function_calls", Json::Array(calls)),
    ])
}

#[test]
fn class_metrics_of_a_manager() {
    let k = obj(vec![
        ("name", text("UserManager")),
        (
            "methods",
            Json::Array(vec![
                method_with_calls(1, 11, vec![call("os"), call("sys"), call("")]),
                method_with_calls(20, 15, vec![call("os")]),
                obj(vec![("name", text("bare")), ("end_line", num(7))]),
            ]),
        ),
    ]);
    let config = GodClassNames { god_names: vec!["manager".to_string(), "handler".to_string()] };
    let m = god_class::measure_class(&k, "users.py", &config).unwrap();
    assert_eq!(m.file, "users.py");
    assert_eq!(m.class, "UserManager");
    assert_eq!(m.method_count, 3);
    assert_eq!(m.distinct_imports, 2);
    assert_eq!(m.total_lines, 17);
    assert!(m.has_god_name);
}

#[test]
fn god_name_is_matched_case_insensitively_on_the_class_only() {
    let config = GodClassNames { god_names: vec!["manager".to_string()] };
    assert!(god_class::has_god_name("DATAMANAGER", &config));
    assert!(!god_class::has_god_name("Data", &config));
    let upper = GodClassNames { god_names: vec!["Manager".to_string()] };
    assert!(!god_class::has_god_name("DataManager", &upper));
}

#[test]
fn classes_without_name_or_methods_are_not_measured() {
    let config = GodClassNames { god_names: vec![] };
    assert!(god_class::measure_class(&obj(vec![("methods", Json::Array(vec![]))]), "a.py", &config).is_none());
    assert!(god_class::measure_class(&obj(vec![("name", text("A"))]), "a.py", &config).is_none());
}

#[test]
fn collect_runs_every_check() {
    let a = analysis(
        "p/a.py",
        file_data(vec![func("long_one", 1, 100, &["a", "b", "c", "d", "e", "f"]), func("shared", 1, 2, &[])], vec![class("Helper", vec![])]),
    );
    let b = analysis("p/b.py", file_data(vec![func("shared", 1, 2, &[])], vec![]));
    let analyses = vec![a, b];
    assert!(is_measurable(&analyses));
    let findings = collect(&analyses, &Config::load_default());
    assert_eq!(findings.long_functions.len(), 1);
    assert_eq!(findings.long_functions[0].file, "a.py");
    assert_eq!(findings.long_functions[0].lines, 99);
    assert_eq!(findings.long_params.len(), 1);
    assert_eq!(findings.long_params[0].param_count, 6);
    assert_eq!(findings.duplicates.len(), 1);
    assert_eq!(names(&findings.duplicates[0].files), vec!["a.py", "b.py"]);
    assert_eq!(findings.classes.len(), 1);
    assert!(findings.classes[0].has_god_name);
    assert_eq!(findings.classes[0].method_count, 0);
}

#[test]
fn default_config_values() {
    let c = Config::load_default();
    assert_eq!(c.long_function.max_lines, 30);
    assert_eq!(c.long_params.max_params, 5);
    assert_eq!(c.god_class.god_names.len(), 9);
    assert_eq!(c.god_class.god_names[0], "manager");
    assert_eq!(c.duplicate_functions.ignored_names.len(), 24);
    assert!(c.duplicate_functions.ignored_names.iter().any(|n| n == "__init__"));
    assert_eq!(c.duplicate_functions.ignored_names[23], "teardown");
}
