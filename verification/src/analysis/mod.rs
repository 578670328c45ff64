use vstd::prelude::*;

use crate::json::{field_items, get_array, Json};
use crate::text::{same_text, starts_with_char};

pub mod antipatterns;
pub mod report;
pub mod unused;

verus! {

/// The analysis of one source file: its path and the JSON description of
/// its functions, classes and imports.
pub struct FileAnalysis {
    pub path: String,
    pub data: Json,
}

/// The values behind a sequence of references.
pub open spec fn derefs(s: Seq<&Json>) -> Seq<Json> {
    s.map_values(|x: &Json| *x)
}

/// The top-level functions of a file (`data["functions"]`, or none).
pub open spec fn top_functions(data: Json) -> Seq<Json> {
    field_items(data, "functions"@)
}

/// The classes of a file (`data["classes"]`, or none).
pub open spec fn classes_of(data: Json) -> Seq<Json> {
    field_items(data, "classes"@)
}

/// The methods of a class (`class["methods"]`, or none).
pub open spec fn methods_of(class: Json) -> Seq<Json> {
    field_items(class, "methods"@)
}

/// The methods of the given classes, class after class.
pub open spec fn methods_of_all(classes: Seq<Json>) -> Seq<Json>
    decreases classes.len(),
{
    if classes.len() == 0 {
        Seq::empty()
    } else {
        methods_of_all(classes.drop_last()) + methods_of(classes.last())
    }
}

/// Every method of every class of a file.
pub open spec fn class_methods(data: Json) -> Seq<Json> {
    methods_of_all(classes_of(data))
}

/// The functions and then the methods of a file: the order in which the
/// antipattern checks visit them.
pub open spec fn callables(data: Json) -> Seq<Json> {
    top_functions(data) + class_methods(data)
}

/// The methods and then the functions of a file: the order in which the
/// unused-function analysis visits them.
pub open spec fn definitions(data: Json) -> Seq<Json> {
    class_methods(data) + top_functions(data)
}

pub proof fn lemma_methods_of_all_step(classes: Seq<Json>, i: int)
    requires
        0 <= i < classes.len(),
    ensures
        methods_of_all(classes.take(i + 1)) == methods_of_all(classes.take(i)) + methods_of(
            classes[i],
        ),
{
    assert(classes.take(i + 1).drop_last() =~= classes.take(i));
}

/// Appends to `out` every element of the array under `key` in `v`.
fn push_items<'a>(out: &mut Vec<&'a Json>, v: &'a Json, key: &str)
    ensures
        derefs(final(out)@) == derefs(old(out)@) + field_items(*v, key@),
{
    match get_array(v, key) {
        Some(items) => {
            let ghost start = derefs(out@);
            let mut j: usize = 0;
            while j < items.len()
                invariant
                    0 <= j <= items@.len(),
                    derefs(out@) == start + items@.take(j as int),
                decreases items@.len() - j,
            {
                let ghost before = out@;
                let item = &items[j];
                out.push(item);
                assert(out@ =~= before.push(item));
                assert(derefs(out@) =~= derefs(before).push(items@[j as int]));
                assert(items@.take(j + 1) =~= items@.take(j as int).push(items@[j as int]));
                assert(derefs(out@) =~= start + items@.take(j + 1));
                j = j + 1;
            }
            assert(items@.take(items@.len() as int) =~= items@);
        },
        None => {
            assert(derefs(out@) =~= derefs(out@) + Seq::<Json>::empty());
        },
    }
}

/// Appends to `out` every method of every class of `data`.
fn push_class_methods<'a>(out: &mut Vec<&'a Json>, data: &'a Json)
    ensures
        derefs(final(out)@) == derefs(old(out)@) + class_methods(*data),
{
    let ghost start = derefs(out@);
    match get_array(data, "classes") {
        Some(classes) => {
            let mut i: usize = 0;
            assert(classes@.take(0) =~= Seq::<Json>::empty());
            while i < classes.len()
                invariant
                    0 <= i <= classes@.len(),
                    classes_of(*data) == classes@,
                    derefs(out@) == start + methods_of_all(classes@.take(i as int)),
                decreases classes@.len() - i,
            {
                push_items(out, &classes[i], "methods");
                proof {
                    lemma_methods_of_all_step(classes@, i as int);
                }
                assert(derefs(out@) =~= start + methods_of_all(classes@.take(i + 1)));
                i = i + 1;
            }
            assert(classes@.take(classes@.len() as int) =~= classes@);
        },
        None => {
            assert(derefs(out@) =~= start + class_methods(*data));
        },
    }
}

/// The functions and then the methods of a file.
pub fn collect_callables(data: &Json) -> (r: Vec<&Json>)
    ensures
        derefs(r@) == callables(*data),
{
    let mut out: Vec<&Json> = Vec::new();
    assert(derefs(out@) =~= Seq::<Json>::empty());
    push_items(&mut out, data, "functions");
    push_class_methods(&mut out, data);
    assert(derefs(out@) =~= callables(*data));
    out
}

/// The methods and then the functions of a file.
pub fn collect_definitions(data: &Json) -> (r: Vec<&Json>)
    ensures
        derefs(r@) == definitions(*data),
{
    let mut out: Vec<&Json> = Vec::new();
    assert(derefs(out@) =~= Seq::<Json>::empty());
    push_class_methods(&mut out, data);
    push_items(&mut out, data, "functions");
    assert(derefs(out@) =~= definitions(*data));
    out
}

/// The file extensions of the sources that the project walk analyses.
pub open spec fn source_extensions() -> Seq<Seq<char>> {
    seq!["py"@, "ts"@, "tsx"@, "js"@, "jsx"@]
}

/// Whether the project walk analyses a file with this extension.
pub fn is_source_extension(ext: &str) -> (r: bool)
    ensures
        r == source_extensions().contains(ext@),
{
    let ghost exts = source_extensions();
    if same_text(ext, "py") {
        assert(exts[0] == ext@);
        true
    } else if same_text(ext, "ts") {
        assert(exts[1] == ext@);
        true
    } else if same_text(ext, "tsx") {
        assert(exts[2] == ext@);
        true
    } else if same_text(ext, "js") {
        assert(exts[3] == ext@);
        true
    } else if same_text(ext, "jsx") {
        assert(exts[4] == ext@);
        true
    } else {
        false
    }
}

/// Whether the project walk enters a directory of this name: it skips
/// hidden directories (a name beginning with `.`), `node_modules` and
/// `target`.
pub fn descends_into(dir_name: &str) -> (r: bool)
    ensures
        r == (!(dir_name@.len() > 0 && dir_name@[0] == '.') && dir_name@ != "node_modules"@
            && dir_name@ != "target"@),
{
    !starts_with_char(dir_name, '.') && !same_text(dir_name, "node_modules") && !same_text(
        dir_name,
        "target",
    )
}

} // verus!
