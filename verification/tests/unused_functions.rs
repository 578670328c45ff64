use cli_test::analysis::unused::{collect, find_unused_functions, has_lists, is_well_shaped, save_function_reference, save_functions, Connections, FunctionsInFiles};
use cli_test::analysis::FileAnalysis;
use cli_test::json::{Json, JsonNumber};

fn text(s: &str) -> Json {
    Json::Str(s.to_string())
}

fn num(n: u64) -> Json {
    Json::Number(JsonNumber::Unsigned(n))
}

fn obj(entries: Vec<(&str, Json)>) -> Json {
    Json::Object(entries.into_iter().map(|(k, v)| (k.to_string(), v)).collect())
}

fn arr(items: Vec<Json>) -> Json {
    Json::Array(items)
}

fn call(fields: Vec<(&str, Json)>) -> Json {
    obj(fields)
}

fn function(name: &str, line: u64, calls: Vec<Json>, locals: Vec<Json>) -> Json {
    obj(vec![
        ("name", text(name)),
        ("line", num(line)),
        ("function_calls", arr(calls)),
        ("local_variables", arr(locals)),
    ])
}

fn file(path: &str, imports: Vec<(&str, &str)>, functions: Vec<Json>, classes: Vec<Json>) -> FileAnalysis {
    let imports = imports.into_iter().map(|(n, p)| obj(vec![("name", text(n)), ("path", text(p))])).collect();
    FileAnalysis {
        path: path.to_string(),
        data: obj(vec![("imports", arr(imports)), ("functions", arr(functions)), ("classes", arr(classes))]),
    }
}

fn site(file: &str, function: &str, line: i64) -> FunctionsInFiles {
    FunctionsInFiles { file_src: file.to_string(), function: function.to_string(), line }
}

fn link(src: &str, function: &str) -> Connections {
    Connections { file_src: src.to_string(), file_use: "u.py".to_string(), line: 1, function: function.to_string() }
}

fn project() -> Vec<FileAnalysis> {
    let main = file(
        "proj/main.py",
        vec![("utils", "proj//utils.py"), ("models", "proj/models.py")],
        vec![
            function(
                "main",
                1,
                vec![
                    call(vec![("name", text("clean")), ("import_name", text("utils")), ("line", num(3))]),
                    call(vec![("name", text("make_user")), ("import_name", text("models")), ("line", num(4))]),
                    call(vec![("name", text("save")), ("object_name", text("u")), ("line", num(5))]),
                    call(vec![("name", text("local_helper")), ("line", num(6))]),
                    call(vec![("name", text("print")), ("line", num(7))]),
                ],
                vec![obj(vec![("name", text("u")), ("assigned_from", text("make_user"))])],
            ),
            function("local_helper", 10, vec![], vec![]),
            function("_private", 12, vec![], vec![]),
        ],
        vec![],
    );
    let utils = file(
        "proj/utils.py",
        vec![],
        vec![function("clean", 1, vec![], vec![]), function("never_called", 5, vec![], vec![])],
        vec![],
    );
    let models = file(
        "proj/models.py",
        vec![],
        vec![obj(vec![("name", text("make_user")), ("line", num(1)), ("return_type", text("User")), ("function_calls", arr(vec![]))])],
        vec![obj(vec![
            ("name", text("User")),
            ("methods", arr(vec![function("save", 3, vec![], vec![]), function("delete", 8, vec![], vec![])])),
        ])],
    );
    vec![main, utils, models]
}

#[test]
fn connections_of_a_project() {
    let files = project();
    let links = save_function_reference(&files);
    let got: Vec<(&str, &str, i64, &str)> =
        links.iter().map(|c| (c.file_src.as_str(), c.file_use.as_str(), c.line, c.function.as_str())).collect();
    assert_eq!(
        got,
        vec![
            ("proj//utils.py", "proj/main.py", 3, "clean"),
            ("proj/models.py", "proj/main.py", 4, "make_user"),
            ("proj/models.py", "proj/main.py", 5, "save"),
            ("proj/main.py", "proj/main.py", 6, "local_helper"),
        ]
    );
}

#[test]
fn definitions_of_a_project() {
    let files = project();
    let defs = save_functions(&files);
    let got: Vec<(&str, &str, i64)> = defs.iter().map(|d| (d.file_src.as_str(), d.function.as_str(), d.line)).collect();
    assert_eq!(
        got,
        vec![
            ("proj/main.py", "main", 1),
            ("proj/main.py", "local_helper", 10),
            ("proj/main.py", "_private", 12),
            ("proj/utils.py", "clean", 1),
            ("proj/utils.py", "never_called", 5),
            ("proj/models.py", "save", 3),
            ("proj/models.py", "delete", 8),
            ("proj/models.py", "make_user", 1),
        ]
    );
}

#[test]
fn unused_functions_of_a_project() {
    let files = project();
    for f in &files {
        assert!(is_well_shaped(&f.data));
    }
    let unused = collect(&files);
    let got: Vec<(&str, &str, i64)> = unused.iter().map(|u| (u.file.as_str(), u.function.as_str(), u.line)).collect();
    // `clean` is linked through the import path "proj//utils.py", which names
    // the same file as "proj/utils.py" only by path comparison, yet the link
    // keeps the import's text, so it does not reach the definition.
    assert_eq!(
        got,
        vec![("proj/utils.py", "clean", 1), ("proj/utils.py", "never_called", 5), ("proj/models.py", "delete", 8)]
    );
}

#[test]
fn path_comparison_finds_the_module_of_a_return_type() {
    let main = file(
        "p/main.py",
        vec![("models", "p/./models.py")],
        vec![function(
            "run",
            1,
            vec![
                call(vec![("name", text("make")), ("import_name", text("models"))]),
                call(vec![("name", text("go")), ("object_name", text("x")), ("line", num(9))]),
            ],
            vec![obj(vec![("name", text("x")), ("assigned_from", text("make"))])],
        )],
        vec![],
    );
    let models = file(
        "p/models.py",
        vec![],
        vec![obj(vec![("name", text("make")), ("return_type", text("Car")), ("function_calls", arr(vec![]))])],
        vec![obj(vec![("name", text("Car")), ("methods", arr(vec![]))])],
    );
    let links = save_function_reference(&[main, models]);
    assert_eq!(links.len(), 2);
    assert_eq!(links[1].file_src, "p/models.py");
    assert_eq!(links[1].function, "go");
    assert_eq!(links[1].line, 9);
}

#[test]
fn later_import_of_a_name_wins() {
    let main = file(
        "m.py",
        vec![("lib", "first.py"), ("lib", "second.py")],
        vec![function("f", 1, vec![call(vec![("name", text("g")), ("import_name", text("lib"))])], vec![])],
        vec![],
    );
    let links = save_function_reference(&[main]);
    assert_eq!(links.len(), 1);
    assert_eq!(links[0].file_src, "second.py");
    assert_eq!(links[0].line, 0);
}

#[test]
fn unnamed_call_links_only_to_a_function_so_named() {
    let main = file(
        "m.py",
        vec![],
        vec![function("<sin nombre>", 1, vec![call(vec![("line", num(2))])], vec![])],
        vec![],
    );
    let links = save_function_reference(&[main]);
    assert_eq!(links.len(), 1);
    assert_eq!(links[0].function, "<sin nombre>");
    assert_eq!(links[0].file_src, "m.py");
}

#[test]
fn find_unused_skips_main_private_and_linked() {
    let defs = vec![
        site("a.py", "main", 1),
        site("a.py", "_hidden", 2),
        site("a.py", "used", 3),
        site("a.py", "lonely", 4),
        site("b.py", "used", 5),
    ];
    let links = vec![link("a.py", "used")];
    let unused = find_unused_functions(&defs, &links);
    let got: Vec<(&str, &str, i64)> = unused.iter().map(|d| (d.file_src.as_str(), d.function.as_str(), d.line)).collect();
    assert_eq!(got, vec![("a.py", "lonely", 4), ("b.py", "used", 5)]);
}

#[test]
fn find_unused_with_nothing_linked_keeps_order() {
    let defs = vec![site("x.py", "b", 2), site("x.py", "a", 1)];
    let unused = find_unused_functions(&defs, &[]);
    assert_eq!(unused, defs);
}

#[test]
fn shape_requires_every_list() {
    let ok = file("a.py", vec![], vec![function("f", 1, vec![], vec![])], vec![]);
    assert!(is_well_shaped(&ok.data));
    let no_imports = obj(vec![("functions", arr(vec![])), ("classes", arr(vec![]))]);
    assert!(!is_well_shaped(&no_imports));
    let no_calls = obj(vec![
        ("imports", arr(vec![])),
        ("functions", arr(vec![obj(vec![("name", text("f"))])])),
        ("classes", arr(vec![])),
    ]);
    assert!(!is_well_shaped(&no_calls));
    let class_without_methods = obj(vec![
        ("imports", arr(vec![])),
        ("functions", arr(vec![])),
        ("classes", arr(vec![obj(vec![("name", text("C"))])])),
    ]);
    assert!(!is_well_shaped(&class_without_methods));
}

#[test]
fn definition_line_defaults_to_one() {
    let f = FileAnalysis {
        path: "z.py".to_string(),
        data: obj(vec![("functions", arr(vec![obj(vec![("name", text("f"))])])), ("classes", arr(vec![]))]),
    };
    let defs = save_functions(&[f]);
    assert_eq!(defs, vec![site("z.py", "f", 1)]);
}

#[test]
fn only_the_last_analysis_of_a_path_is_searched_for_classes() {
    let old_models = file(
        "q/lib.py",
        vec![],
        vec![obj(vec![("name", text("make")), ("return_type", text("Car")), ("function_calls", arr(vec![]))])],
        vec![obj(vec![("name", text("Car")), ("methods", arr(vec![]))])],
    );
    let main = file(
        "q/main.py",
        vec![("lib", "q/lib.py")],
        vec![function(
            "run",
            1,
            vec![
                call(vec![("name", text("make")), ("import_name", text("lib"))]),
                call(vec![("name", text("go")), ("object_name", text("x"))]),
            ],
            vec![obj(vec![("name", text("x")), ("assigned_from", text("make"))])],
        )],
        vec![],
    );
    let new_models = file(
        "q/lib.py",
        vec![],
        vec![obj(vec![("name", text("make")), ("return_type", text("Car")), ("function_calls", arr(vec![]))])],
        vec![],
    );
    let links = save_function_reference(&[old_models, main, new_models]);
    assert_eq!(links.len(), 1);
    assert_eq!(links[0].function, "make");
}

#[test]
fn a_class_file_is_named_by_the_first_path_of_its_file() {
    let first = file("q/./lib.py", vec![], vec![], vec![]);
    let main = file(
        "q/main.py",
        vec![("lib", "q/lib.py")],
        vec![function(
            "run",
            1,
            vec![
                call(vec![("name", text("make")), ("import_name", text("lib"))]),
                call(vec![("name", text("go")), ("object_name", text("x"))]),
            ],
            vec![obj(vec![("name", text("x")), ("assigned_from", text("make"))])],
        )],
        vec![],
    );
    let last = file(
        "q/lib.py",
        vec![],
        vec![obj(vec![("name", text("make")), ("return_type", text("Car")), ("function_calls", arr(vec![]))])],
        vec![obj(vec![("name", text("Car")), ("methods", arr(vec![]))])],
    );
    let links = save_function_reference(&[first, main, last]);
    assert_eq!(links.len(), 2);
    assert_eq!(links[1].function, "go");
    assert_eq!(links[1].file_src, "q/./lib.py");
}

#[test]
fn definition_lists_without_imports_suffice() {
    let no_imports = obj(vec![
        ("functions", arr(vec![obj(vec![("name", text("f"))])])),
        ("classes", arr(vec![obj(vec![("name", text("C")), ("methods", arr(vec![]))])])),
    ]);
    assert!(has_lists(&no_imports));
    assert!(!is_well_shaped(&no_imports));
    let no_methods = obj(vec![("functions", arr(vec![])), ("classes", arr(vec![obj(vec![("name", text("C"))])]))]);
    assert!(!has_lists(&no_methods));
    assert!(!has_lists(&obj(vec![("classes", arr(vec![]))])));
}
