use vstd::prelude::*;

verus! {

/// A function or method longer than the configured limit.
#[derive(Debug, Clone, PartialEq, Eq)]
pub struct LongFunctionViolation {
    pub file: String,
    pub function: String,
    pub lines: usize,
}

/// A function or method with more parameters than the configured limit.
#[derive(Debug, Clone, PartialEq, Eq)]
pub struct LongParamsViolation {
    pub file: String,
    pub function: String,
    pub param_count: usize,
}

/// A name defined in more than one file, with those files' names in order.
#[derive(Debug, Clone, PartialEq, Eq)]
pub struct DuplicateViolation {
    pub function: String,
    pub files: Vec<String>,
}

/// A function that nothing in the project calls.
#[derive(Debug, Clone, PartialEq, Eq)]
pub struct UnusedFunction {
    pub file: String,
    pub function: String,
    pub line: i64,
}

/// What a `LongFunctionViolation` says, as texts.
pub struct LongFunctionFinding {
    pub file: Seq<char>,
    pub function: Seq<char>,
    pub lines: usize,
}

/// What a `LongParamsViolation` says, as texts.
pub struct LongParamsFinding {
    pub file: Seq<char>,
    pub function: Seq<char>,
    pub param_count: usize,
}

/// What a `DuplicateViolation` says, as texts.
pub struct DuplicateFinding {
    pub function: Seq<char>,
    pub files: Seq<Seq<char>>,
}

/// What an `UnusedFunction` says, as texts.
pub struct UnusedFinding {
    pub file: Seq<char>,
    pub function: Seq<char>,
    pub line: i64,
}

impl DeepView for LongFunctionViolation {
    type V = LongFunctionFinding;

    open spec fn deep_view(&self) -> LongFunctionFinding {
        LongFunctionFinding { file: self.file@, function: self.function@, lines: self.lines }
    }
}

impl DeepView for LongParamsViolation {
    type V = LongParamsFinding;

    open spec fn deep_view(&self) -> LongParamsFinding {
        LongParamsFinding {
            file: self.file@,
            function: self.function@,
            param_count: self.param_count,
        }
    }
}

impl DeepView for DuplicateViolation {
    type V = DuplicateFinding;

    open spec fn deep_view(&self) -> DuplicateFinding {
        DuplicateFinding { function: self.function@, files: self.files.deep_view() }
    }
}

impl DeepView for UnusedFunction {
    type V = UnusedFinding;

    open spec fn deep_view(&self) -> UnusedFinding {
        UnusedFinding { file: self.file@, function: self.function@, line: self.line }
    }
}

} // verus!
