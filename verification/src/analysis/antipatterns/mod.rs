pub mod duplicate_functions;
pub mod god_class;
pub mod long_function;
pub mod long_params;

use vstd::prelude::*;

use crate::analysis::antipatterns::duplicate_functions::{all_name_sites, duplicates_reported};
use crate::analysis::antipatterns::god_class::{all_class_measures, all_lines_fit, ClassMetrics};
use crate::analysis::antipatterns::long_function::{long_function_findings, spans_ordered};
use crate::analysis::antipatterns::long_params::long_params_findings;
use crate::analysis::report::{
    DuplicateViolation,
    LongFunctionFinding,
    LongFunctionViolation,
    LongParamsFinding,
    LongParamsViolation,
};
use crate::analysis::{callables, FileAnalysis};
use crate::config::Config;
use crate::paths::{display_file_name, file_name_or_empty};

verus! {

/// What the antipattern checks find in a project, but for the god-class
/// scores, which are computed in floating point from `classes`.
pub struct AntipatternFindings {
    pub long_functions: Vec<LongFunctionViolation>,
    pub long_params: Vec<LongParamsViolation>,
    pub duplicates: Vec<DuplicateViolation>,
    pub classes: Vec<ClassMetrics>,
}

/// The long functions of every file, file after file.
pub open spec fn all_long_functions(files: Seq<FileAnalysis>, max_lines: usize) -> Seq<
    LongFunctionFinding,
>
    decreases files.len(),
{
    if files.len() == 0 {
        Seq::empty()
    } else {
        all_long_functions(files.drop_last(), max_lines) + long_function_findings(
            callables(files.last().data),
            display_file_name(files.last().path@),
            max_lines,
        )
    }
}

/// The functions with long parameter lists of every file, file after file.
pub open spec fn all_long_params(files: Seq<FileAnalysis>, max_params: usize) -> Seq<
    LongParamsFinding,
>
    decreases files.len(),
{
    if files.len() == 0 {
        Seq::empty()
    } else {
        all_long_params(files.drop_last(), max_params) + long_params_findings(
            callables(files.last().data),
            display_file_name(files.last().path@),
            max_params,
        )
    }
}

/// Every file can be measured by the checks (the checks stop on a
/// function whose end comes before its start, and on method lengths that
/// overflow a `usize`).
pub open spec fn measurable(files: Seq<FileAnalysis>) -> bool {
    &&& forall|k: int| 0 <= k < files.len() ==> spans_ordered(#[trigger] files[k].data)
    &&& all_lines_fit(files)
}

/// Whether `collect` can measure every file.
pub fn is_measurable(analyses: &[FileAnalysis]) -> (r: bool)
    ensures
        r == measurable(analyses@),
{
    let mut k: usize = 0;
    while k < analyses.len()
        invariant
            0 <= k <= analyses@.len(),
            forall|j: int| 0 <= j < k ==> spans_ordered(#[trigger] analyses@[j].data),
        decreases analyses@.len() - k,
    {
        if !long_function::has_ordered_spans(&analyses[k].data) {
            return false;
        }
        k = k + 1;
    }
    god_class::lines_fit(analyses)
}

/// Runs every antipattern check on the analyses of a project: long
/// functions and long parameter lists per file (named by the file's name),
/// names defined in several files, and the measures of every class.
pub fn collect(analyses: &[FileAnalysis], config: &Config) -> (r: AntipatternFindings)
    requires
        measurable(analyses@),
    ensures
        r.long_functions.deep_view() == all_long_functions(
            analyses@,
            config.long_function.max_lines,
        ),
        r.long_params.deep_view() == all_long_params(analyses@, config.long_params.max_params),
        duplicates_reported(
            all_name_sites(analyses@, config.duplicate_functions.ignored_names.deep_view()),
            r.duplicates.deep_view(),
        ),
        r.classes.deep_view() == all_class_measures(
            analyses@,
            config.god_class.god_names.deep_view(),
        ),
{
    let mut long_functions: Vec<LongFunctionViolation> = Vec::new();
    let mut long_params: Vec<LongParamsViolation> = Vec::new();
    let mut k: usize = 0;
    assert(analyses@.take(0) =~= Seq::<FileAnalysis>::empty());
    assert(long_functions.deep_view() =~= Seq::<LongFunctionFinding>::empty());
    assert(long_params.deep_view() =~= Seq::<LongParamsFinding>::empty());
    while k < analyses.len()
        invariant
            0 <= k <= analyses@.len(),
            measurable(analyses@),
            long_functions.deep_view() == all_long_functions(
                analyses@.take(k as int),
                config.long_function.max_lines,
            ),
            long_params.deep_view() == all_long_params(
                analyses@.take(k as int),
                config.long_params.max_params,
            ),
        decreases analyses@.len() - k,
    {
        assert(analyses@.take(k + 1).drop_last() =~= analyses@.take(k as int));
        let file = &analyses[k];
        assert(spans_ordered(analyses@[k as int].data));
        let file_name = file_name_or_empty(file.path.as_str());
        let mut found = long_function::check(&file.data, file_name.as_str(), &config.long_function);
        let ghost lf_before = long_functions.deep_view();
        let ghost lf_found = found.deep_view();
        long_functions.append(&mut found);
        assert(long_functions.deep_view() =~= lf_before + lf_found);
        let mut params = long_params::check(&file.data, file_name.as_str(), &config.long_params);
        let ghost lp_before = long_params.deep_view();
        let ghost lp_found = params.deep_view();
        long_params.append(&mut params);
        assert(long_params.deep_view() =~= lp_before + lp_found);
        k = k + 1;
    }
    assert(analyses@.take(analyses@.len() as int) =~= analyses@);
    let duplicates = duplicate_functions::check(analyses, &config.duplicate_functions);
    let classes = god_class::measure(analyses, &config.god_class);
    AntipatternFindings { long_functions, long_params, duplicates, classes }
}

} // verus!
