use vstd::prelude::*;

use crate::analysis::report::{LongFunctionFinding, LongFunctionViolation};
use crate::analysis::{callables, collect_callables, derefs};
use crate::config::LongFunctionConfig;
use crate::json::{field_str, field_u64, get_str, get_u64, Json};

verus! {

/// A function's first and last line can be subtracted: where it has a name,
/// a `line` and an `end_line`, the end is not before the start.
pub open spec fn span_ok(func: Json) -> bool {
    match (field_str(func, "name"@), field_u64(func, "line"@), field_u64(func, "end_line"@)) {
        (Some(_), Some(start), Some(end)) => start <= end,
        _ => true,
    }
}

/// Every function and method of a file has a span that can be measured.
pub open spec fn spans_ordered(data: Json) -> bool {
    forall|i: int| 0 <= i < callables(data).len() ==> span_ok(#[trigger] callables(data)[i])
}

/// The violation a function or method makes, if it has a name, a `line` and
/// an `end_line`, and spans more than `max_lines` lines (`end_line - line`).
pub open spec fn long_function_finding(func: Json, file: Seq<char>, max_lines: usize) -> Option<
    LongFunctionFinding,
> {
    match (field_str(func, "name"@), field_u64(func, "line"@), field_u64(func, "end_line"@)) {
        (Some(name), Some(start), Some(end)) => if end - start > max_lines {
            Some(
                LongFunctionFinding {
                    file,
                    function: name,
                    lines: (end - start) as u64 as usize,
                },
            )
        } else {
            None
        },
        _ => None,
    }
}

/// The violations of the given functions, in their order.
pub open spec fn long_function_findings(
    funcs: Seq<Json>,
    file: Seq<char>,
    max_lines: usize,
) -> Seq<LongFunctionFinding>
    decreases funcs.len(),
{
    if funcs.len() == 0 {
        Seq::empty()
    } else {
        let rest = long_function_findings(funcs.drop_last(), file, max_lines);
        match long_function_finding(funcs.last(), file, max_lines) {
            Some(f) => rest.push(f),
            None => rest,
        }
    }
}

fn span_ok_one(func: &Json) -> (r: bool)
    ensures
        r == span_ok(*func),
{
    match (get_str(func, "name"), get_u64(func, "line"), get_u64(func, "end_line")) {
        (Some(_), Some(start), Some(end)) => start <= end,
        _ => true,
    }
}

/// Whether `check` can measure every function and method of the file (the
/// lines are subtracted, which is an error where the end comes first).
pub fn has_ordered_spans(data: &Json) -> (r: bool)
    ensures
        r == spans_ordered(*data),
{
    let funcs = collect_callables(data);
    let mut i: usize = 0;
    while i < funcs.len()
        invariant
            0 <= i <= funcs@.len(),
            derefs(funcs@) == callables(*data),
            forall|k: int| 0 <= k < i ==> span_ok(#[trigger] callables(*data)[k]),
        decreases funcs@.len() - i,
    {
        assert(derefs(funcs@)[i as int] == *funcs@[i as int]);
        if !span_ok_one(funcs[i]) {
            return false;
        }
        i = i + 1;
    }
    true
}

fn check_one(func: &Json, file_name: &str, config: &LongFunctionConfig) -> (r: Option<
    LongFunctionViolation,
>)
    requires
        span_ok(*func),
    ensures
        r.deep_view() == long_function_finding(*func, file_name@, config.max_lines),
{
    let name = match get_str(func, "name") {
        Some(n) => n,
        None => return None,
    };
    let start = match get_u64(func, "line") {
        Some(s) => s,
        None => return None,
    };
    let end = match get_u64(func, "end_line") {
        Some(e) => e,
        None => return None,
    };
    let length = end - start;
    if length > config.max_lines as u64 {
        Some(
            LongFunctionViolation {
                file: file_name.to_owned(),
                function: name.to_owned(),
                lines: length as usize,
            },
        )
    } else {
        None
    }
}

/// The functions and methods of one file that span more than
/// `config.max_lines` lines, measured as `end_line - line`: the file's
/// functions first, then its classes' methods.
pub fn check(data: &Json, file_name: &str, config: &LongFunctionConfig) -> (r: Vec<
    LongFunctionViolation,
>)
    requires
        spans_ordered(*data),
    ensures
        r.deep_view() == long_function_findings(callables(*data), file_name@, config.max_lines),
{
    let funcs = collect_callables(data);
    let mut violations: Vec<LongFunctionViolation> = Vec::new();
    let mut i: usize = 0;
    while i < funcs.len()
        invariant
            0 <= i <= funcs@.len(),
            derefs(funcs@) == callables(*data),
            spans_ordered(*data),
            violations.deep_view() == long_function_findings(
                derefs(funcs@).take(i as int),
                file_name@,
                config.max_lines,
            ),
        decreases funcs@.len() - i,
    {
        let ghost before = violations.deep_view();
        assert(derefs(funcs@).take(i + 1).drop_last() =~= derefs(funcs@).take(i as int));
        assert(derefs(funcs@)[i as int] == *funcs@[i as int]);
        assert(span_ok(callables(*data)[i as int]));
        match check_one(funcs[i], file_name, config) {
            Some(v) => {
                violations.push(v);
                assert(violations.deep_view() =~= before.push(v.deep_view()));
            },
            None => {},
        }
        i = i + 1;
    }
    assert(derefs(funcs@).take(funcs@.len() as int) =~= derefs(funcs@));
    violations
}

/// Every function or method that has a name, a `line` and an `end_line`,
/// and spans more than `max_lines` lines, is reported, whatever its name.
pub proof fn law_long_functions_reported(
    funcs: Seq<Json>,
    file: Seq<char>,
    max_lines: usize,
    i: int,
    name: Seq<char>,
    start: u64,
    end: u64,
)
    requires
        0 <= i < funcs.len(),
        field_str(funcs[i], "name"@) == Some(name),
        field_u64(funcs[i], "line"@) == Some(start),
        field_u64(funcs[i], "end_line"@) == Some(end),
        end - start > max_lines,
    ensures
        long_function_findings(funcs, file, max_lines).contains(
            LongFunctionFinding { file, function: name, lines: (end - start) as u64 as usize },
        ),
    decreases funcs.len(),
{
    let rest = long_function_findings(funcs.drop_last(), file, max_lines);
    let x = LongFunctionFinding { file, function: name, lines: (end - start) as u64 as usize };
    if i == funcs.len() - 1 {
        assert(long_function_findings(funcs, file, max_lines) == rest.push(x));
        assert(rest.push(x)[rest.len() as int] == x);
    } else {
        assert(funcs.drop_last()[i] == funcs[i]);
        law_long_functions_reported(funcs.drop_last(), file, max_lines, i, name, start, end);
        let k = choose|k: int| 0 <= k < rest.len() && rest[k] == x;
        match long_function_finding(funcs.last(), file, max_lines) {
            Some(f) => {
                assert(rest.push(f)[k] == x);
            },
            None => {},
        }
    }
}

/// Only such functions are reported: each report names a function or
/// method with a name, a `line` and an `end_line` more than `max_lines`
/// apart, with its file and its length.
pub proof fn law_long_functions_only(
    funcs: Seq<Json>,
    file: Seq<char>,
    max_lines: usize,
    x: LongFunctionFinding,
)
    requires
        long_function_findings(funcs, file, max_lines).contains(x),
    ensures
        x.file == file,
        exists|i: int|
            0 <= i < funcs.len() && field_str(#[trigger] funcs[i], "name"@) == Some(x.function)
                && field_u64(funcs[i], "line"@) is Some && field_u64(funcs[i], "end_line"@) is Some
                && field_u64(funcs[i], "end_line"@)->0 - field_u64(funcs[i], "line"@)->0 > max_lines
                && x.lines == (field_u64(funcs[i], "end_line"@)->0 - field_u64(
                funcs[i],
                "line"@,
            )->0) as u64 as usize,
    decreases funcs.len(),
{
    let rest = long_function_findings(funcs.drop_last(), file, max_lines);
    let last = funcs.last();
    let all = long_function_findings(funcs, file, max_lines);
    let k = choose|k: int| 0 <= k < all.len() && all[k] == x;
    if k < rest.len() {
        assert(rest[k] == x);
        assert(rest.contains(x));
        law_long_functions_only(funcs.drop_last(), file, max_lines, x);
        let i = choose|i: int|
            0 <= i < funcs.drop_last().len() && field_str(
                #[trigger] funcs.drop_last()[i],
                "name"@,
            ) == Some(x.function) && field_u64(funcs.drop_last()[i], "line"@) is Some && field_u64(
                funcs.drop_last()[i],
                "end_line"@,
            ) is Some && field_u64(funcs.drop_last()[i], "end_line"@)->0 - field_u64(
                funcs.drop_last()[i],
                "line"@,
            )->0 > max_lines && x.lines == (field_u64(funcs.drop_last()[i], "end_line"@)->0
                - field_u64(funcs.drop_last()[i], "line"@)->0) as u64 as usize;
        assert(funcs[i] == funcs.drop_last()[i]);
    } else {
        let i = funcs.len() - 1;
        assert(funcs[i] == last);
        assert(field_str(funcs[i], "name"@) == Some(x.function));
    }
}

} // verus!