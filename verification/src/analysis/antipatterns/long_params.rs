use vstd::prelude::*;

use crate::analysis::report::{LongParamsFinding, LongParamsViolation};
use crate::analysis::{callables, collect_callables, derefs};
use crate::config::LongParamsConfig;
use crate::json::{field_array, field_str, get_array, get_str, Json};
use crate::text::same_text;

verus! {

/// A parameter counts unless it is named `self` (a missing or non-text name
/// counts).
pub open spec fn counts_as_parameter(p: Json) -> bool {
    field_str(p, "name"@) != Some("self"@)
}

/// How many of the parameters count.
pub open spec fn parameter_count(params: Seq<Json>) -> nat
    decreases params.len(),
{
    if params.len() == 0 {
        0
    } else {
        parameter_count(params.drop_last()) + if counts_as_parameter(params.last()) {
            1nat
        } else {
            0nat
        }
    }
}

/// The violation a function or method makes, if it has a name and a
/// parameter list with more counted parameters than `max_params`.
pub open spec fn long_params_finding(func: Json, file: Seq<char>, max_params: usize) -> Option<
    LongParamsFinding,
> {
    match field_str(func, "name"@) {
        Some(name) => match field_array(func, "parameters"@) {
            Some(params) => if parameter_count(params) > max_params {
                Some(
                    LongParamsFinding {
                        file,
                        function: name,
                        param_count: parameter_count(params) as usize,
                    },
                )
            } else {
                None
            },
            None => None,
        },
        None => None,
    }
}

/// The violations of the given functions, in their order.
pub open spec fn long_params_findings(funcs: Seq<Json>, file: Seq<char>, max_params: usize) -> Seq<
    LongParamsFinding,
>
    decreases funcs.len(),
{
    if funcs.len() == 0 {
        Seq::empty()
    } else {
        let rest = long_params_findings(funcs.drop_last(), file, max_params);
        match long_params_finding(funcs.last(), file, max_params) {
            Some(f) => rest.push(f),
            None => rest,
        }
    }
}

proof fn lemma_parameter_count_bound(params: Seq<Json>)
    ensures
        parameter_count(params) <= params.len(),
    decreases params.len(),
{
    if params.len() > 0 {
        lemma_parameter_count_bound(params.drop_last());
    }
}

fn count_parameters(params: &Vec<Json>) -> (r: usize)
    ensures
        r == parameter_count(params@),
{
    let mut count: usize = 0;
    let mut i: usize = 0;
    while i < params.len()
        invariant
            0 <= i <= params@.len(),
            count == parameter_count(params@.take(i as int)),
        decreases params@.len() - i,
    {
        proof {
            assert(params@.take(i + 1).drop_last() =~= params@.take(i as int));
            lemma_parameter_count_bound(params@.take(i as int));
        }
        let counts = match get_str(&params[i], "name") {
            Some(n) => !same_text(n, "self"),
            None => true,
        };
        if counts {
            count = count + 1;
        }
        i = i + 1;
    }
    assert(params@.take(params@.len() as int) =~= params@);
    count
}

fn check_one(func: &Json, file_name: &str, config: &LongParamsConfig) -> (r: Option<
    LongParamsViolation,
>)
    ensures
        r.deep_view() == long_params_finding(*func, file_name@, config.max_params),
{
    let name = match get_str(func, "name") {
        Some(n) => n,
        None => return None,
    };
    let params = match get_array(func, "parameters") {
        Some(p) => p,
        None => return None,
    };
    let count = count_parameters(params);
    if count > config.max_params {
        Some(
            LongParamsViolation {
                file: file_name.to_owned(),
                function: name.to_owned(),
                param_count: count,
            },
        )
    } else {
        None
    }
}

/// The functions and methods of one file that take more parameters than
/// `config.max_params`, `self` not counted: the file's functions first, then
/// its classes' methods, each in the order the analysis lists them.
pub fn check(data: &Json, file_name: &str, config: &LongParamsConfig) -> (r: Vec<
    LongParamsViolation,
>)
    ensures
        r.deep_view() == long_params_findings(callables(*data), file_name@, config.max_params),
{
    let funcs = collect_callables(data);
    let mut violations: Vec<LongParamsViolation> = Vec::new();
    let mut i: usize = 0;
    while i < funcs.len()
        invariant
            0 <= i <= funcs@.len(),
            derefs(funcs@) == callables(*data),
            violations.deep_view() == long_params_findings(
                derefs(funcs@).take(i as int),
                file_name@,
                config.max_params,
            ),
        decreases funcs@.len() - i,
    {
        let ghost before = violations.deep_view();
        assert(derefs(funcs@).take(i + 1).drop_last() =~= derefs(funcs@).take(i as int));
        match check_one(funcs[i], file_name, config) {
            Some(v) => {
                violations.push(v);
                assert(violations.deep_view() =~= before.push(v.deep_view()));
            },
            None => {},
        }
        i = i + 1;
    }
    assert(derefs(funcs@).take(funcs@.len() as int) =~= derefs(funcs@));
    violations
}

/// The parameters of a list that are not named `self`.
pub open spec fn non_self_parameters(params: Seq<Json>) -> Seq<Json> {
    params.filter(|p: Json| field_str(p, "name"@) != Some("self"@))
}

/// The counted parameters are those not named `self`.
pub proof fn lemma_parameter_count_non_self(params: Seq<Json>)
    ensures
        parameter_count(params) == non_self_parameters(params).len(),
    decreases params.len(),
{
    reveal(Seq::filter);
    if params.len() > 0 {
        lemma_parameter_count_non_self(params.drop_last());
    }
}

/// Every function or method with a name and a parameter list holding more
/// than `max_params` parameters not named `self` is reported, with that
/// count, whatever its name.
pub proof fn law_long_params_reported(
    funcs: Seq<Json>,
    file: Seq<char>,
    max_params: usize,
    i: int,
    name: Seq<char>,
    params: Seq<Json>,
)
    requires
        0 <= i < funcs.len(),
        field_str(funcs[i], "name"@) == Some(name),
        field_array(funcs[i], "parameters"@) == Some(params),
        non_self_parameters(params).len() > max_params,
    ensures
        long_params_findings(funcs, file, max_params).contains(
            LongParamsFinding {
                file,
                function: name,
                param_count: non_self_parameters(params).len() as usize,
            },
        ),
    decreases funcs.len(),
{
    lemma_parameter_count_non_self(params);
    let rest = long_params_findings(funcs.drop_last(), file, max_params);
    let x = LongParamsFinding {
        file,
        function: name,
        param_count: non_self_parameters(params).len() as usize,
    };
    if i == funcs.len() - 1 {
        assert(long_params_findings(funcs, file, max_params) == rest.push(x));
        assert(rest.push(x)[rest.len() as int] == x);
    } else {
        assert(funcs.drop_last()[i] == funcs[i]);
        law_long_params_reported(funcs.drop_last(), file, max_params, i, name, params);
        let k = choose|k: int| 0 <= k < rest.len() && rest[k] == x;
        match long_params_finding(funcs.last(), file, max_params) {
            Some(f) => {
                assert(rest.push(f)[k] == x);
            },
            None => {},
        }
    }
}

/// Only such functions are reported: each report names a function or
/// method whose parameter list holds more than `max_params` parameters not
/// named `self`, with that count.
pub proof fn law_long_params_only(
    funcs: Seq<Json>,
    file: Seq<char>,
    max_params: usize,
    x: LongParamsFinding,
)
    requires
        long_params_findings(funcs, file, max_params).contains(x),
    ensures
        x.file == file,
        exists|i: int|
            0 <= i < funcs.len() && field_str(#[trigger] funcs[i], "name"@) == Some(x.function)
                && field_array(funcs[i], "parameters"@) is Some && non_self_parameters(
                field_array(funcs[i], "parameters"@)->0,
            ).len() > max_params && x.param_count == non_self_parameters(
                field_array(funcs[i], "parameters"@)->0,
            ).len() as usize,
    decreases funcs.len(),
{
    let rest = long_params_findings(funcs.drop_last(), file, max_params);
    let last = funcs.last();
    let all = long_params_findings(funcs, file, max_params);
    let k = choose|k: int| 0 <= k < all.len() && all[k] == x;
    if k < rest.len() {
        assert(rest[k] == x);
        assert(rest.contains(x));
        law_long_params_only(funcs.drop_last(), file, max_params, x);
        let i = choose|i: int|
            0 <= i < funcs.drop_last().len() && field_str(
                #[trigger] funcs.drop_last()[i],
                "name"@,
            ) == Some(x.function) && field_array(funcs.drop_last()[i], "parameters"@) is Some
                && non_self_parameters(field_array(funcs.drop_last()[i], "parameters"@)->0).len()
                > max_params && x.param_count == non_self_parameters(
                field_array(funcs.drop_last()[i], "parameters"@)->0,
            ).len() as usize;
        assert(funcs[i] == funcs.drop_last()[i]);
    } else {
        let i = funcs.len() - 1;
        assert(funcs[i] == last);
        lemma_parameter_count_non_self(field_array(last, "parameters"@)->0);
        assert(field_str(funcs[i], "name"@) == Some(x.function));
    }
}

} // verus!
