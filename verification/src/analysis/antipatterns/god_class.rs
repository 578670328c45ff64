use vstd::prelude::*;

use crate::analysis::{classes_of, FileAnalysis};
use crate::config::GodClassNames;
use crate::json::{field_array, field_items, field_str, field_u64, get_array, get_str, get_u64, Json};
use crate::paths::{display_file_name, file_name_or_empty};
use crate::text::{contains_text, lowercase_of, same_text, text_contains, to_lowercase};

verus! {

/// The integer measures of one class, from which the god-class score is
/// computed.
#[derive(Debug, Clone, PartialEq, Eq)]
pub struct ClassMetrics {
    pub file: String,
    pub class: String,
    pub method_count: usize,
    pub distinct_imports: usize,
    pub total_lines: usize,
    pub has_god_name: bool,
}

/// What a `ClassMetrics` says, as texts.
pub struct ClassMeasure {
    pub file: Seq<char>,
    pub class: Seq<char>,
    pub method_count: nat,
    pub distinct_imports: nat,
    pub total_lines: nat,
    pub has_god_name: bool,
}

impl DeepView for ClassMetrics {
    type V = ClassMeasure;

    open spec fn deep_view(&self) -> ClassMeasure {
        ClassMeasure {
            file: self.file@,
            class: self.class@,
            method_count: self.method_count as nat,
            distinct_imports: self.distinct_imports as nat,
            total_lines: self.total_lines as nat,
            has_god_name: self.has_god_name,
        }
    }
}

/// The non-empty module names that the given calls import from.
pub open spec fn call_imports(calls: Seq<Json>) -> Seq<Seq<char>>
    decreases calls.len(),
{
    if calls.len() == 0 {
        Seq::empty()
    } else {
        let rest = call_imports(calls.drop_last());
        match field_str(calls.last(), "import_name"@) {
            Some(m) => if m.len() > 0 {
                rest.push(m)
            } else {
                rest
            },
            None => rest,
        }
    }
}

/// The module names that the calls of the given methods import from.
pub open spec fn method_imports(methods: Seq<Json>) -> Seq<Seq<char>>
    decreases methods.len(),
{
    if methods.len() == 0 {
        Seq::empty()
    } else {
        method_imports(methods.drop_last()) + call_imports(
            field_items(methods.last(), "function_calls"@),
        )
    }
}

/// How many different modules the calls of the methods import from.
pub open spec fn distinct_import_count(methods: Seq<Json>) -> nat {
    method_imports(methods).to_set().len()
}

/// A method's length: `end_line - line` (a missing one read as 0), and 0
/// where the end comes first.
pub open spec fn method_span(m: Json) -> nat {
    let start = match field_u64(m, "line"@) {
        Some(s) => s,
        None => 0,
    };
    let end = match field_u64(m, "end_line"@) {
        Some(e) => e,
        None => 0,
    };
    if end >= start {
        (end - start) as nat
    } else {
        0
    }
}

/// The lengths of the methods added up.
pub open spec fn total_span(methods: Seq<Json>) -> nat
    decreases methods.len(),
{
    if methods.len() == 0 {
        0
    } else {
        total_span(methods.drop_last()) + method_span(methods.last())
    }
}

/// Some god-class word occurs in the lower-cased class name.
pub open spec fn god_name(name: Seq<char>, god_names: Seq<Seq<char>>) -> bool {
    exists|i: int| 0 <= i < god_names.len() && contains_text(lowercase_of(name), god_names[i])
}

/// The measures of a class that has a name and a method list.
pub open spec fn class_measure(class: Json, file: Seq<char>, god_names: Seq<Seq<char>>) -> Option<
    ClassMeasure,
> {
    match (field_str(class, "name"@), field_array(class, "methods"@)) {
        (Some(name), Some(methods)) => Some(
            ClassMeasure {
                file,
                class: name,
                method_count: methods.len(),
                distinct_imports: distinct_import_count(methods),
                total_lines: total_span(methods),
                has_god_name: god_name(name, god_names),
            },
        ),
        _ => None,
    }
}

/// The lengths of a measured class's methods add up to a `usize` (the
/// sum is kept in a `usize`, and overflowing it is an error).
pub open spec fn class_lines_fit(class: Json) -> bool {
    match (field_str(class, "name"@), field_array(class, "methods"@)) {
        (Some(_), Some(methods)) => total_span(methods) <= usize::MAX,
        _ => true,
    }
}

/// Every class of every file has method lengths that add up to a `usize`.
pub open spec fn all_lines_fit(files: Seq<FileAnalysis>) -> bool {
    forall|k: int, c: int|
        0 <= k < files.len() && 0 <= c < classes_of(files[k].data).len() ==> class_lines_fit(
            #[trigger] classes_of(files[k].data)[c],
        )
}

/// The measures of the given classes of one file, in order.
pub open spec fn class_measures(classes: Seq<Json>, file: Seq<char>, god_names: Seq<Seq<char>>) -> Seq<
    ClassMeasure,
>
    decreases classes.len(),
{
    if classes.len() == 0 {
        Seq::empty()
    } else {
        let rest = class_measures(classes.drop_last(), file, god_names);
        match class_measure(classes.last(), file, god_names) {
            Some(m) => rest.push(m),
            None => rest,
        }
    }
}

/// The measures of every class of every file, file after file.
pub open spec fn all_class_measures(files: Seq<FileAnalysis>, god_names: Seq<Seq<char>>) -> Seq<
    ClassMeasure,
>
    decreases files.len(),
{
    if files.len() == 0 {
        Seq::empty()
    } else {
        all_class_measures(files.drop_last(), god_names) + class_measures(
            classes_of(files.last().data),
            display_file_name(files.last().path@),
            god_names,
        )
    }
}

proof fn lemma_method_imports_step(methods: Seq<Json>, i: int)
    requires
        0 <= i < methods.len(),
    ensures
        method_imports(methods.take(i + 1)) == method_imports(methods.take(i)) + call_imports(
            field_items(methods[i], "function_calls"@),
        ),
{
    assert(methods.take(i + 1).drop_last() =~= methods.take(i));
}

proof fn lemma_call_imports_step(calls: Seq<Json>, j: int)
    requires
        0 <= j < calls.len(),
    ensures
        call_imports(calls.take(j + 1)) == match field_str(calls[j], "import_name"@) {
            Some(m) => if m.len() > 0 {
                call_imports(calls.take(j)).push(m)
            } else {
                call_imports(calls.take(j))
            },
            None => call_imports(calls.take(j)),
        },
{
    assert(calls.take(j + 1).drop_last() =~= calls.take(j));
}

/// Adds `name` to a list without repeats, unless it is there already.
fn add_distinct(seen: &mut Vec<String>, name: &str)
    requires
        old(seen).deep_view().no_duplicates(),
    ensures
        final(seen).deep_view().no_duplicates(),
        final(seen).deep_view().to_set() == old(seen).deep_view().to_set().insert(name@),
{
    let ghost before = seen.deep_view();
    let mut p: usize = 0;
    while p < seen.len()
        invariant
            0 <= p <= seen@.len(),
            seen.deep_view() == before,
            before.no_duplicates(),
            forall|k: int| 0 <= k < p ==> before[k] != name@,
        decreases seen@.len() - p,
    {
        if same_text(seen[p].as_str(), name) {
            assert(before.to_set().insert(name@) =~= before.to_set()) by {
                assert(before[p as int] == name@);
            }
            return;
        }
        p = p + 1;
    }
    seen.push(name.to_owned());
    assert(seen.deep_view() =~= before.push(name@));
    assert(seen.deep_view().to_set() =~= before.to_set().insert(name@)) by {
        assert forall|x: Seq<char>| seen.deep_view().to_set().contains(x) implies before.to_set().insert(name@).contains(x) by {
            let i = choose|i: int| 0 <= i < seen.deep_view().len() && seen.deep_view()[i] == x;
            if i < before.len() {
                assert(before[i] == x);
            }
        }
        assert forall|x: Seq<char>| before.to_set().insert(name@).contains(x) implies seen.deep_view().to_set().contains(x) by {
            if x == name@ {
                assert(seen.deep_view()[before.len() as int] == x);
            } else {
                let i = choose|i: int| 0 <= i < before.len() && before[i] == x;
                assert(seen.deep_view()[i] == x);
            }
        }
    }
}

/// How many different non-empty module names the calls of the methods
/// import from.
pub fn count_distinct_imports(methods: &Vec<Json>) -> (r: usize)
    ensures
        r == distinct_import_count(methods@),
{
    let mut seen: Vec<String> = Vec::new();
    assert(seen.deep_view() =~= Seq::<Seq<char>>::empty());
    assert(methods@.take(0) =~= Seq::<Json>::empty());
    assert(seen.deep_view().to_set() =~= method_imports(methods@.take(0)).to_set());
    let mut i: usize = 0;
    while i < methods.len()
        invariant
            0 <= i <= methods@.len(),
            seen.deep_view().no_duplicates(),
            seen.deep_view().to_set() == method_imports(methods@.take(i as int)).to_set(),
        decreases methods@.len() - i,
    {
        proof {
            lemma_method_imports_step(methods@, i as int);
        }
        let ghost prefix = method_imports(methods@.take(i as int));
        match get_array(&methods[i], "function_calls") {
            Some(calls) => {
                let mut j: usize = 0;
                assert(calls@.take(0) =~= Seq::<Json>::empty());
                assert(prefix + call_imports(calls@.take(0)) =~= prefix);
                while j < calls.len()
                    invariant
                        0 <= j <= calls@.len(),
                        seen.deep_view().no_duplicates(),
                        seen.deep_view().to_set() == (prefix + call_imports(
                            calls@.take(j as int),
                        )).to_set(),
                    decreases calls@.len() - j,
                {
                    proof {
                        lemma_call_imports_step(calls@, j as int);
                    }
                    match get_str(&calls[j], "import_name") {
                        Some(m) => {
                            if m.unicode_len() > 0 {
                                add_distinct(&mut seen, m);
                                let ghost shorter = prefix + call_imports(calls@.take(j as int));
                                assert(prefix + call_imports(calls@.take(j + 1)) =~= shorter.push(
                                    m@,
                                ));
                                proof {
                                    shorter.lemma_push_to_set_commute(m@);
                                }
                            } else {
                                assert(prefix + call_imports(calls@.take(j + 1)) =~= prefix
                                    + call_imports(calls@.take(j as int)));
                            }
                        },
                        None => {
                            assert(prefix + call_imports(calls@.take(j + 1)) =~= prefix
                                + call_imports(calls@.take(j as int)));
                        },
                    }
                    j = j + 1;
                }
                assert(calls@.take(calls@.len() as int) =~= calls@);
                assert(field_items(methods@[i as int], "function_calls"@) == calls@);
            },
            None => {
                assert(field_items(methods@[i as int], "function_calls"@) =~= Seq::<Json>::empty());
                assert(prefix + call_imports(Seq::<Json>::empty()) =~= prefix);
            },
        }
        i = i + 1;
    }
    assert(methods@.take(methods@.len() as int) =~= methods@);
    proof {
        seen.deep_view().unique_seq_to_set();
    }
    seen.len()
}

/// The length of the first methods is at most that of all of them.
proof fn lemma_total_span_prefix(methods: Seq<Json>, i: int)
    requires
        0 <= i <= methods.len(),
    ensures
        total_span(methods.take(i)) <= total_span(methods),
    decreases methods.len() - i,
{
    if i < methods.len() {
        lemma_total_span_prefix(methods, i + 1);
        assert(methods.take(i + 1).drop_last() =~= methods.take(i));
    } else {
        assert(methods.take(i) =~= methods);
    }
}

fn method_span_of(m: &Json) -> (r: u64)
    ensures
        r == method_span(*m),
{
    let start = match get_u64(m, "line") {
        Some(s) => s,
        None => 0,
    };
    let end = match get_u64(m, "end_line") {
        Some(e) => e,
        None => 0,
    };
    end.saturating_sub(start)
}

/// The lengths of the methods added up (`end_line - line`, saturating at 0,
/// a missing one read as 0).
pub fn sum_method_lines(methods: &Vec<Json>) -> (r: usize)
    requires
        total_span(methods@) <= usize::MAX,
    ensures
        r == total_span(methods@),
{
    let mut total: usize = 0;
    let mut i: usize = 0;
    assert(methods@.take(0) =~= Seq::<Json>::empty());
    while i < methods.len()
        invariant
            0 <= i <= methods@.len(),
            total_span(methods@) <= usize::MAX,
            total == total_span(methods@.take(i as int)),
        decreases methods@.len() - i,
    {
        proof {
            assert(methods@.take(i + 1).drop_last() =~= methods@.take(i as int));
            lemma_total_span_prefix(methods@, i + 1);
        }
        let span = method_span_of(&methods[i]);
        total = total + span as usize;
        i = i + 1;
    }
    assert(methods@.take(methods@.len() as int) =~= methods@);
    total
}

/// Whether the lengths of the methods add up to a `usize`.
pub fn method_lines_fit(methods: &Vec<Json>) -> (r: bool)
    ensures
        r == (total_span(methods@) <= usize::MAX),
{
    let mut total: usize = 0;
    let mut i: usize = 0;
    assert(methods@.take(0) =~= Seq::<Json>::empty());
    while i < methods.len()
        invariant
            0 <= i <= methods@.len(),
            total == total_span(methods@.take(i as int)),
        decreases methods@.len() - i,
    {
        proof {
            assert(methods@.take(i + 1).drop_last() =~= methods@.take(i as int));
        }
        let span = method_span_of(&methods[i]);
        if span as u128 > (usize::MAX - total) as u128 {
            proof {
                lemma_total_span_prefix(methods@, i + 1);
            }
            return false;
        }
        total = total + span as usize;
        i = i + 1;
    }
    assert(methods@.take(methods@.len() as int) =~= methods@);
    true
}

/// Whether some god-class word occurs in the lower-cased class name (the
/// words themselves are used as they are).
pub fn has_god_name(class_name: &str, config: &GodClassNames) -> (r: bool)
    ensures
        r == god_name(class_name@, config.god_names.deep_view()),
{
    let lower = to_lowercase(class_name);
    let ghost names = config.god_names.deep_view();
    let mut i: usize = 0;
    while i < config.god_names.len()
        invariant
            0 <= i <= config.god_names@.len(),
            names == config.god_names.deep_view(),
            lower@ == lowercase_of(class_name@),
            forall|k: int| 0 <= k < i ==> !contains_text(lowercase_of(class_name@), #[trigger] names[k]),
        decreases config.god_names@.len() - i,
    {
        if text_contains(lower.as_str(), config.god_names[i].as_str()) {
            assert(names[i as int] == config.god_names@[i as int]@);
            return true;
        }
        i = i + 1;
    }
    false
}

/// Whether the method lengths of a class to be measured add up to a `usize`.
pub fn class_lines_fit_check(class: &Json) -> (r: bool)
    ensures
        r == class_lines_fit(*class),
{
    match (get_str(class, "name"), get_array(class, "methods")) {
        (Some(_), Some(methods)) => method_lines_fit(methods),
        _ => true,
    }
}

/// The measures of one class, if it has a name and a method list.
pub fn measure_class(class: &Json, file_name: &str, config: &GodClassNames) -> (r: Option<
    ClassMetrics,
>)
    requires
        class_lines_fit(*class),
    ensures
        r.deep_view() == class_measure(*class, file_name@, config.god_names.deep_view()),
{
    let class_name = match get_str(class, "name") {
        Some(n) => n,
        None => return None,
    };
    let methods = match get_array(class, "methods") {
        Some(m) => m,
        None => return None,
    };
    let method_count = methods.len();
    let distinct_imports = count_distinct_imports(methods);
    let total_lines = sum_method_lines(methods);
    let god = has_god_name(class_name, config);
    Some(
        ClassMetrics {
            file: file_name.to_owned(),
            class: class_name.to_owned(),
            method_count,
            distinct_imports,
            total_lines,
            has_god_name: god,
        },
    )
}

proof fn lemma_class_measures_step(
    classes: Seq<Json>,
    file: Seq<char>,
    god_names: Seq<Seq<char>>,
    c: int,
)
    requires
        0 <= c < classes.len(),
    ensures
        class_measures(classes.take(c + 1), file, god_names) == match class_measure(
            classes[c],
            file,
            god_names,
        ) {
            Some(m) => class_measures(classes.take(c), file, god_names).push(m),
            None => class_measures(classes.take(c), file, god_names),
        },
{
    assert(classes.take(c + 1).drop_last() =~= classes.take(c));
}

proof fn lemma_all_class_measures_step(files: Seq<FileAnalysis>, god_names: Seq<Seq<char>>, k: int)
    requires
        0 <= k < files.len(),
    ensures
        all_class_measures(files.take(k + 1), god_names) == all_class_measures(
            files.take(k),
            god_names,
        ) + class_measures(classes_of(files[k].data), display_file_name(files[k].path@), god_names),
{
    assert(files.take(k + 1).drop_last() =~= files.take(k));
}

/// Whether every class of every file can be measured (its method lengths
/// add up to a `usize`).
pub fn lines_fit(analyses: &[FileAnalysis]) -> (r: bool)
    ensures
        r == all_lines_fit(analyses@),
{
    let mut k: usize = 0;
    while k < analyses.len()
        invariant
            0 <= k <= analyses@.len(),
            forall|kk: int, c: int|
                0 <= kk < k && 0 <= c < classes_of(analyses@[kk].data).len() ==> class_lines_fit(
                    #[trigger] classes_of(analyses@[kk].data)[c],
                ),
        decreases analyses@.len() - k,
    {
        match get_array(&analyses[k].data, "classes") {
            Some(classes) => {
                let mut c: usize = 0;
                while c < classes.len()
                    invariant
                        0 <= c <= classes@.len(),
                        0 <= k < analyses@.len(),
                        classes@ == classes_of(analyses@[k as int].data),
                        forall|cc: int| 0 <= cc < c ==> class_lines_fit(#[trigger] classes@[cc]),
                    decreases classes@.len() - c,
                {
                    if !class_lines_fit_check(&classes[c]) {
                        return false;
                    }
                    c = c + 1;
                }
            },
            None => {},
        }
        k = k + 1;
    }
    true
}

/// The integer measures of every named class with a method list, file after
/// file: its method count, the number of different modules its methods'
/// calls import from, the added lengths of its methods, and whether its name
/// holds a god-class word.
pub fn measure(analyses: &[FileAnalysis], config: &GodClassNames) -> (r: Vec<ClassMetrics>)
    requires
        all_lines_fit(analyses@),
    ensures
        r.deep_view() == all_class_measures(analyses@, config.god_names.deep_view()),
{
    let ghost god_names = config.god_names.deep_view();
    let mut out: Vec<ClassMetrics> = Vec::new();
    let mut k: usize = 0;
    assert(analyses@.take(0) =~= Seq::<FileAnalysis>::empty());
    assert(out.deep_view() =~= Seq::<ClassMeasure>::empty());
    while k < analyses.len()
        invariant
            0 <= k <= analyses@.len(),
            god_names == config.god_names.deep_view(),
            all_lines_fit(analyses@),
            out.deep_view() == all_class_measures(analyses@.take(k as int), god_names),
        decreases analyses@.len() - k,
    {
        proof {
            lemma_all_class_measures_step(analyses@, god_names, k as int);
        }
        let file = &analyses[k];
        let file_name = file_name_or_empty(file.path.as_str());
        let ghost before = out.deep_view();
        match get_array(&file.data, "classes") {
            Some(classes) => {
                let mut c: usize = 0;
                assert(classes@.take(0) =~= Seq::<Json>::empty());
                assert(before + class_measures(classes@.take(0), file_name@, god_names) =~= before);
                while c < classes.len()
                    invariant
                        0 <= c <= classes@.len(),
                        0 <= k < analyses@.len(),
                        classes@ == classes_of(analyses@[k as int].data),
                        all_lines_fit(analyses@),
                        god_names == config.god_names.deep_view(),
                        out.deep_view() == before + class_measures(
                            classes@.take(c as int),
                            file_name@,
                            god_names,
                        ),
                    decreases classes@.len() - c,
                {
                    proof {
                        lemma_class_measures_step(classes@, file_name@, god_names, c as int);
                        assert(class_lines_fit(classes_of(analyses@[k as int].data)[c as int]));
                    }
                    let ghost prior = out.deep_view();
                    match measure_class(&classes[c], file_name.as_str(), config) {
                        Some(m) => {
                            out.push(m);
                            assert(out.deep_view() =~= prior.push(m.deep_view()));
                        },
                        None => {},
                    }
                    c = c + 1;
                }
                assert(classes@.take(classes@.len() as int) =~= classes@);
            },
            None => {
                assert(classes_of(file.data) =~= Seq::<Json>::empty());
                assert(before + class_measures(Seq::<Json>::empty(), file_name@, god_names) =~= before);
            },
        }
        k = k + 1;
    }
    assert(analyses@.take(analyses@.len() as int) =~= analyses@);
    out
}

/// The call `c` of method `i` imports from module `m`.
pub open spec fn call_imports_from(methods: Seq<Json>, i: int, c: int, m: Seq<char>) -> bool {
    &&& 0 <= i < methods.len()
    &&& 0 <= c < field_items(methods[i], "function_calls"@).len()
    &&& field_str(field_items(methods[i], "function_calls"@)[c], "import_name"@) == Some(m)
}

/// The non-empty module names that some call of some method imports from.
pub open spec fn imported_modules(methods: Seq<Json>) -> Set<Seq<char>> {
    Set::new(
        |m: Seq<char>|
            m.len() > 0 && exists|i: int, c: int| #[trigger] call_imports_from(methods, i, c, m),
    )
}

proof fn lemma_call_imports_contains(calls: Seq<Json>, m: Seq<char>)
    ensures
        call_imports(calls).contains(m) <==> (m.len() > 0 && exists|c: int|
            0 <= c < calls.len() && field_str(#[trigger] calls[c], "import_name"@) == Some(m)),
    decreases calls.len(),
{
    if calls.len() > 0 {
        let rest = calls.drop_last();
        lemma_call_imports_contains(rest, m);
        let r = call_imports(rest);
        if call_imports(calls).contains(m) {
            if r.contains(m) {
                let c = choose|c: int|
                    0 <= c < rest.len() && field_str(#[trigger] rest[c], "import_name"@) == Some(m);
                assert(calls[c] == rest[c]);
            } else {
                assert(field_str(calls[calls.len() - 1], "import_name"@) == Some(m));
            }
        }
        if m.len() > 0 && exists|c: int|
            0 <= c < calls.len() && field_str(#[trigger] calls[c], "import_name"@) == Some(m) {
            let c = choose|c: int|
                0 <= c < calls.len() && field_str(#[trigger] calls[c], "import_name"@) == Some(m);
            if c < calls.len() - 1 {
                assert(rest[c] == calls[c]);
                assert(r.contains(m));
                let k = choose|k: int| 0 <= k < r.len() && r[k] == m;
                match field_str(calls.last(), "import_name"@) {
                    Some(x) => if x.len() > 0 {
                        assert(r.push(x)[k] == m);
                    },
                    None => {},
                }
            } else {
                assert(r.push(m)[r.len() as int] == m);
            }
        }
    }
}

proof fn lemma_method_imports_contains(methods: Seq<Json>, m: Seq<char>)
    ensures
        method_imports(methods).contains(m) <==> (m.len() > 0 && exists|i: int, c: int|
            #[trigger] call_imports_from(methods, i, c, m)),
    decreases methods.len(),
{
    if methods.len() > 0 {
        let rest = methods.drop_last();
        lemma_method_imports_contains(rest, m);
        let last_calls = field_items(methods.last(), "function_calls"@);
        lemma_call_imports_contains(last_calls, m);
        let r = method_imports(rest);
        let t = call_imports(last_calls);
        if method_imports(methods).contains(m) {
            let k = choose|k: int| 0 <= k < (r + t).len() && (r + t)[k] == m;
            if k < r.len() {
                assert(r[k] == m);
                let (i, c) = choose|i: int, c: int| #[trigger] call_imports_from(rest, i, c, m);
                assert(methods[i] == rest[i]);
                assert(call_imports_from(methods, i, c, m));
            } else {
                assert(t[k - r.len()] == m);
                let c = choose|c: int|
                    0 <= c < last_calls.len() && field_str(#[trigger] last_calls[c], "import_name"@)
                        == Some(m);
                assert(methods[methods.len() - 1] == methods.last());
                assert(call_imports_from(methods, methods.len() - 1, c, m));
            }
        }
        if m.len() > 0 && exists|i: int, c: int| #[trigger] call_imports_from(methods, i, c, m) {
            let (i, c) = choose|i: int, c: int| #[trigger] call_imports_from(methods, i, c, m);
            if i < methods.len() - 1 {
                assert(rest[i] == methods[i]);
                assert(call_imports_from(rest, i, c, m));
                assert(r.contains(m));
                let k = choose|k: int| 0 <= k < r.len() && r[k] == m;
                assert((r + t)[k] == m);
            } else {
                assert(methods[i] == methods.last());
                assert(field_str(last_calls[c], "import_name"@) == Some(m));
                assert(t.contains(m));
                let k = choose|k: int| 0 <= k < t.len() && t[k] == m;
                assert((r + t)[r.len() + k] == m);
            }
        }
    }
}

/// The distinct-import count of a class is the number of different
/// non-empty module names that the calls of its methods, all of them,
/// import from.
pub proof fn law_distinct_imports(methods: Seq<Json>)
    ensures
        distinct_import_count(methods) == imported_modules(methods).len(),
{
    assert forall|m: Seq<char>| method_imports(methods).to_set().contains(m) <==> imported_modules(
        methods,
    ).contains(m) by {
        lemma_method_imports_contains(methods, m);
    }
    assert(method_imports(methods).to_set() =~= imported_modules(methods));
}

} // verus!
