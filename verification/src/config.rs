use vstd::prelude::*;

verus! {

/// Limit on a function's length, in lines.
#[derive(Debug, Clone, Copy, PartialEq, Eq)]
pub struct LongFunctionConfig {
    pub max_lines: usize,
}

/// Limit on a function's parameter count (`self` not counted).
#[derive(Debug, Clone, Copy, PartialEq, Eq)]
pub struct LongParamsConfig {
    pub max_params: usize,
}

/// Names that may be defined in several files without being reported.
#[derive(Debug, Clone, PartialEq, Eq)]
pub struct DuplicateFunctionsConfig {
    pub ignored_names: Vec<String>,
}

/// The words that mark a class name as that of a likely god class.
#[derive(Debug, Clone, PartialEq, Eq)]
pub struct GodClassNames {
    pub god_names: Vec<String>,
}

/// The settings of the antipattern checks, but for the weights and
/// thresholds of the god-class score, which are floating point.
#[derive(Debug, Clone, PartialEq, Eq)]
pub struct Config {
    pub long_function: LongFunctionConfig,
    pub long_params: LongParamsConfig,
    pub god_class: GodClassNames,
    pub duplicate_functions: DuplicateFunctionsConfig,
}

/// The default words of god-class names.
pub open spec fn default_god_names() -> Seq<Seq<char>> {
    seq![
        "manager"@,
        "coordinator"@,
        "handler"@,
        "controller"@,
        "processor"@,
        "helper"@,
        "utils"@,
        "utility"@,
        "service"@,
    ]
}

/// The default names left out of the duplicate-name check.
pub open spec fn default_ignored_names() -> Seq<Seq<char>> {
    seq![
        "__init__"@,
        "__str__"@,
        "__repr__"@,
        "__len__"@,
        "__eq__"@,
        "__hash__"@,
        "__del__"@,
        "__enter__"@,
        "__exit__"@,
        "__iter__"@,
        "__next__"@,
        "__call__"@,
        "constructor"@,
        "toString"@,
        "valueOf"@,
        "render"@,
        "run"@,
        "main"@,
        "execute"@,
        "start"@,
        "stop"@,
        "init"@,
        "setup"@,
        "teardown"@,
    ]
}

impl Config {
    /// The settings used where no configuration file is given.
    pub fn load_default() -> (r: Config)
        ensures
            r.long_function.max_lines == 30,
            r.long_params.max_params == 5,
            r.god_class.god_names.deep_view() == default_god_names(),
            r.duplicate_functions.ignored_names.deep_view() == default_ignored_names(),
    {
        let god_names = vec![
            "manager".to_owned(),
            "coordinator".to_owned(),
            "handler".to_owned(),
            "controller".to_owned(),
            "processor".to_owned(),
            "helper".to_owned(),
            "utils".to_owned(),
            "utility".to_owned(),
            "service".to_owned(),
        ];
        let ignored_names = vec![
            "__init__".to_owned(),
            "__str__".to_owned(),
            "__repr__".to_owned(),
            "__len__".to_owned(),
            "__eq__".to_owned(),
            "__hash__".to_owned(),
            "__del__".to_owned(),
            "__enter__".to_owned(),
            "__exit__".to_owned(),
            "__iter__".to_owned(),
            "__next__".to_owned(),
            "__call__".to_owned(),
            "constructor".to_owned(),
            "toString".to_owned(),
            "valueOf".to_owned(),
            "render".to_owned(),
            "run".to_owned(),
            "main".to_owned(),
            "execute".to_owned(),
            "start".to_owned(),
            "stop".to_owned(),
            "init".to_owned(),
            "setup".to_owned(),
            "teardown".to_owned(),
        ];
        assert(god_names.deep_view() =~= default_god_names());
        assert(ignored_names.deep_view() =~= default_ignored_names());
        Config {
            long_function: LongFunctionConfig { max_lines: 30 },
            long_params: LongParamsConfig { max_params: 5 },
            god_class: GodClassNames { god_names },
            duplicate_functions: DuplicateFunctionsConfig { ignored_names },
        }
    }
}

} // verus!
