use vstd::prelude::*;

use crate::analysis::report::{UnusedFinding, UnusedFunction};
use crate::analysis::{
    classes_of, collect_definitions, definitions, derefs, top_functions, FileAnalysis,
};
use crate::json::{field_array, field_i64, field_items, field_str, get_array, get_i64, get_str, Json};
use crate::paths::{paths_equal, same_path};
use crate::text::{same_text, starts_with_char};

verus! {

/// A function or method definition: the file that defines it, its name and
/// its line.
#[derive(Debug, Clone, PartialEq, Eq)]
pub struct FunctionsInFiles {
    pub file_src: String,
    pub function: String,
    pub line: i64,
}

/// A call of `function`, defined in `file_src`, made in `file_use` at `line`.
#[derive(Debug, Clone, PartialEq, Eq)]
pub struct Connections {
    pub file_src: String,
    pub file_use: String,
    pub line: i64,
    pub function: String,
}

/// What a `FunctionsInFiles` says, as texts.
pub struct FunctionSite {
    pub file_src: Seq<char>,
    pub function: Seq<char>,
    pub line: i64,
}

/// What a `Connections` says, as texts.
pub struct CallLink {
    pub file_src: Seq<char>,
    pub file_use: Seq<char>,
    pub line: i64,
    pub function: Seq<char>,
}

impl DeepView for FunctionsInFiles {
    type V = FunctionSite;

    open spec fn deep_view(&self) -> FunctionSite {
        FunctionSite { file_src: self.file_src@, function: self.function@, line: self.line }
    }
}

impl DeepView for Connections {
    type V = CallLink;

    open spec fn deep_view(&self) -> CallLink {
        CallLink {
            file_src: self.file_src@,
            file_use: self.file_use@,
            line: self.line,
            function: self.function@,
        }
    }
}

// ---------------------------------------------------------------------------
// What the analysis of a file must hold for the unused-function analysis.

/// The file lists its classes and functions, and every class its methods
/// (the analysis stops on a file that does not).
pub open spec fn lists_present(data: Json) -> bool {
    &&& field_array(data, "classes"@) is Some
    &&& field_array(data, "functions"@) is Some
    &&& forall|c: int|
        0 <= c < classes_of(data).len() ==> (field_array(
            #[trigger] classes_of(data)[c],
            "methods"@,
        ) is Some)
}

/// Besides its lists, the file lists its imports, and every function and
/// method lists its calls (the analysis stops on a file that does not).
pub open spec fn well_shaped(data: Json) -> bool {
    &&& lists_present(data)
    &&& field_array(data, "imports"@) is Some
    &&& forall|o: int|
        0 <= o < definitions(data).len() ==> (field_array(
            #[trigger] definitions(data)[o],
            "function_calls"@,
        ) is Some)
}

// ---------------------------------------------------------------------------
// Definitions.

/// The definition a function or method makes, if it has a name; its line is
/// `line`, or 1 where there is no integer `line`.
pub open spec fn definition_site(func: Json, file: Seq<char>) -> Option<FunctionSite> {
    match field_str(func, "name"@) {
        Some(name) => Some(
            FunctionSite {
                file_src: file,
                function: name,
                line: match field_i64(func, "line"@) {
                    Some(l) => l,
                    None => 1,
                },
            },
        ),
        None => None,
    }
}

/// The definitions the given functions of one file make, in order.
pub open spec fn definition_sites(funcs: Seq<Json>, file: Seq<char>) -> Seq<FunctionSite>
    decreases funcs.len(),
{
    if funcs.len() == 0 {
        Seq::empty()
    } else {
        let rest = definition_sites(funcs.drop_last(), file);
        match definition_site(funcs.last(), file) {
            Some(d) => rest.push(d),
            None => rest,
        }
    }
}

/// The definitions of every file, file after file, each file's methods
/// before its functions.
pub open spec fn all_definition_sites(files: Seq<FileAnalysis>) -> Seq<FunctionSite>
    decreases files.len(),
{
    if files.len() == 0 {
        Seq::empty()
    } else {
        all_definition_sites(files.drop_last()) + definition_sites(
            definitions(files.last().data),
            files.last().path@,
        )
    }
}

// ---------------------------------------------------------------------------
// Calls.

/// `o.and_then(as_str).unwrap_or(d)`.
pub open spec fn text_or(o: Option<Seq<char>>, d: Seq<char>) -> Seq<char> {
    match o {
        Some(t) => t,
        None => d,
    }
}

/// The imports of a file as (name, path) pairs, a missing text read as
/// empty.
pub open spec fn import_table(imports: Seq<Json>) -> Seq<(Seq<char>, Seq<char>)>
    decreases imports.len(),
{
    if imports.len() == 0 {
        Seq::empty()
    } else {
        import_table(imports.drop_last()).push(
            (
                text_or(field_str(imports.last(), "name"@), Seq::empty()),
                text_or(field_str(imports.last(), "path"@), Seq::empty()),
            ),
        )
    }
}

/// The path that the import named `module` refers to: that of the last
/// import of that name (a later import replaces an earlier one).
pub open spec fn import_path(table: Seq<(Seq<char>, Seq<char>)>, module: Seq<char>) -> Option<
    Seq<char>,
>
    decreases table.len(),
{
    if table.len() == 0 {
        None
    } else if table.last().0 == module {
        Some(table.last().1)
    } else {
        import_path(table.drop_last(), module)
    }
}

/// The analysis of the file at `path`: that of the last file whose path
/// equals it (a later analysis of a path replaces an earlier one).
pub open spec fn analysis_at(files: Seq<FileAnalysis>, path: Seq<char>) -> Option<Json>
    decreases files.len(),
{
    if files.len() == 0 {
        None
    } else if paths_equal(files.last().path@, path) {
        Some(files.last().data)
    } else {
        analysis_at(files.drop_last(), path)
    }
}

/// What the local variable named `object` was assigned from: the
/// `assigned_from` of the first local of that name.
pub open spec fn assigned_from(locals: Seq<Json>, object: Seq<char>) -> Option<Seq<char>>
    decreases locals.len(),
{
    if locals.len() == 0 {
        None
    } else if field_str(locals[0], "name"@) == Some(object) {
        field_str(locals[0], "assigned_from"@)
    } else {
        assigned_from(locals.drop_first(), object)
    }
}

/// The module that the first call of `func` imports it from.
pub open spec fn source_import(calls: Seq<Json>, func: Seq<char>) -> Option<Seq<char>>
    decreases calls.len(),
{
    if calls.len() == 0 {
        None
    } else if field_str(calls[0], "name"@) == Some(func) {
        field_str(calls[0], "import_name"@)
    } else {
        source_import(calls.drop_first(), func)
    }
}

/// The return type of the function `func` among `funcs`: the search goes
/// in order and gives up at the first function without a text name.
pub open spec fn return_type_in(funcs: Seq<Json>, func: Seq<char>) -> Option<Seq<char>>
    decreases funcs.len(),
{
    if funcs.len() == 0 {
        None
    } else {
        match field_str(funcs[0], "name"@) {
            None => None,
            Some(n) => if n == func {
                field_str(funcs[0], "return_type"@)
            } else {
                return_type_in(funcs.drop_first(), func)
            },
        }
    }
}

/// The return type of `func`, imported from `module` in a file whose
/// imports are `table`.
pub open spec fn imported_return_type(
    files: Seq<FileAnalysis>,
    table: Seq<(Seq<char>, Seq<char>)>,
    module: Seq<char>,
    func: Seq<char>,
) -> Option<Seq<char>> {
    match import_path(table, module) {
        None => None,
        Some(path) => match analysis_at(files, path) {
            None => None,
            Some(data) => match field_array(data, "functions"@) {
                None => None,
                Some(funcs) => return_type_in(funcs, func),
            },
        },
    }
}

/// How a search through a file's classes ends.
pub enum ClassSearch {
    Found,
    GaveUp,
    NotHere,
}

/// Looks for the class `name` among `classes`, in order, giving up at the
/// first class without a text name.
pub open spec fn search_classes(classes: Seq<Json>, name: Seq<char>) -> ClassSearch
    decreases classes.len(),
{
    if classes.len() == 0 {
        ClassSearch::NotHere
    } else {
        match field_str(classes[0], "name"@) {
            None => ClassSearch::GaveUp,
            Some(n) => if n == name {
                ClassSearch::Found
            } else {
                search_classes(classes.drop_first(), name)
            },
        }
    }
}

/// A later analysis has a path equal to that of `files[i]`, and replaces it
/// (as a later entry of a map keyed by path replaces an earlier one).
pub open spec fn superseded(files: Seq<FileAnalysis>, i: int) -> bool {
    exists|j: int| i < j < files.len() && paths_equal(files[i].path@, #[trigger] files[j].path@)
}

/// The path under which the analysis `files[i]` is kept: that of the first
/// analysis whose path equals it (a map keyed by path keeps the first key of
/// each path).
pub open spec fn kept_path(files: Seq<FileAnalysis>, i: int) -> Seq<char> {
    if exists|j: int|
        0 <= j < i && paths_equal(#[trigger] files[j].path@, files[i].path@) && forall|m: int|
            0 <= m < j ==> !paths_equal(#[trigger] files[m].path@, files[i].path@) {
        let j = choose|j: int|
            0 <= j < i && paths_equal(#[trigger] files[j].path@, files[i].path@) && forall|m: int|
                0 <= m < j ==> !paths_equal(#[trigger] files[m].path@, files[i].path@);
        files[j].path@
    } else {
        files[i].path@
    }
}

/// The path of the file that defines the class `name`, searching the
/// analyses from `files[i]` on: only the last analysis of each path counts,
/// and the search gives up at a file without a class list or at a class
/// without a name.
pub open spec fn class_file_from(files: Seq<FileAnalysis>, i: int, name: Seq<char>) -> Option<
    Seq<char>,
>
    decreases files.len() - i,
{
    if i < 0 || i >= files.len() {
        None
    } else if superseded(files, i) {
        class_file_from(files, i + 1, name)
    } else {
        match field_array(files[i].data, "classes"@) {
            None => None,
            Some(classes) => match search_classes(classes, name) {
                ClassSearch::Found => Some(kept_path(files, i)),
                ClassSearch::GaveUp => None,
                ClassSearch::NotHere => class_file_from(files, i + 1, name),
            },
        }
    }
}

/// The path of the file that defines the class `name`: the analyses are
/// searched in order, each path once, by its last analysis.
pub open spec fn class_file(files: Seq<FileAnalysis>, name: Seq<char>) -> Option<Seq<char>> {
    class_file_from(files, 0, name)
}

/// Whether the file defines a top-level function named `name`.
pub open spec fn defines_function(data: Json, name: Seq<char>) -> bool {
    exists|i: int|
        0 <= i < top_functions(data).len() && field_str(#[trigger] top_functions(data)[i], "name"@)
            == Some(name)
}

/// The connection that one call, made by `owner` in `file`, establishes:
/// - a call through an import (`import_name`) links to the imported path;
/// - a method call on a local object (`object_name`) links to the file of
///   the class that the object's initializer returns, where the initializer
///   is a function imported by a call of the same owner;
/// - any other call links to the calling file itself, if that file defines
///   a top-level function of the called name.
pub open spec fn call_link(
    files: Seq<FileAnalysis>,
    file: FileAnalysis,
    owner: Json,
    call: Json,
) -> Option<CallLink> {
    let name = text_or(field_str(call, "name"@), "<sin nombre>"@);
    let line = match field_i64(call, "line"@) {
        Some(l) => l,
        None => 0,
    };
    let table = import_table(field_items(file.data, "imports"@));
    let link_to = |src: Seq<char>|
        CallLink { file_src: src, file_use: file.path@, line, function: name };
    match field_str(call, "import_name"@) {
        Some(module) => match import_path(table, module) {
            Some(path) => Some(link_to(path)),
            None => None,
        },
        None => match field_str(call, "object_name"@) {
            Some(object) => match assigned_from(field_items(owner, "local_variables"@), object) {
                None => None,
                Some(initializer) => match source_import(
                    field_items(owner, "function_calls"@),
                    initializer,
                ) {
                    None => None,
                    Some(module) => match imported_return_type(
                        files,
                        table,
                        module,
                        initializer,
                    ) {
                        None => None,
                        Some(class) => match class_file(files, class) {
                            Some(src) => Some(link_to(src)),
                            None => None,
                        },
                    },
                },
            },
            None => if defines_function(file.data, name) {
                Some(link_to(file.path@))
            } else {
                None
            },
        },
    }
}

/// The connections that the given calls of `owner` establish, in order.
pub open spec fn call_links(
    files: Seq<FileAnalysis>,
    file: FileAnalysis,
    owner: Json,
    calls: Seq<Json>,
) -> Seq<CallLink>
    decreases calls.len(),
{
    if calls.len() == 0 {
        Seq::empty()
    } else {
        let rest = call_links(files, file, owner, calls.drop_last());
        match call_link(files, file, owner, calls.last()) {
            Some(l) => rest.push(l),
            None => rest,
        }
    }
}

/// The connections that the calls of the given functions of `file`
/// establish.
pub open spec fn owner_links(files: Seq<FileAnalysis>, file: FileAnalysis, owners: Seq<Json>) -> Seq<
    CallLink,
>
    decreases owners.len(),
{
    if owners.len() == 0 {
        Seq::empty()
    } else {
        owner_links(files, file, owners.drop_last()) + call_links(
            files,
            file,
            owners.last(),
            field_items(owners.last(), "function_calls"@),
        )
    }
}

/// The connections of the files in `prefix`, resolved against all `files`,
/// file after file, each file's methods before its functions.
pub open spec fn file_links(files: Seq<FileAnalysis>, prefix: Seq<FileAnalysis>) -> Seq<CallLink>
    decreases prefix.len(),
{
    if prefix.len() == 0 {
        Seq::empty()
    } else {
        file_links(files, prefix.drop_last()) + owner_links(
            files,
            prefix.last(),
            definitions(prefix.last().data),
        )
    }
}

/// Every connection of the project.
pub open spec fn all_links(files: Seq<FileAnalysis>) -> Seq<CallLink> {
    file_links(files, files)
}

// ---------------------------------------------------------------------------
// Unused functions.

/// A connection reaches the definition: same defining file, same name.
pub open spec fn links_to(link: CallLink, site: FunctionSite) -> bool {
    link.file_src == site.file_src && link.function == site.function
}

/// A definition is reported unused when it is not `main`, its name does not
/// begin with `_`, and no connection reaches it.
pub open spec fn is_unused(site: FunctionSite, links: Seq<CallLink>) -> bool {
    &&& site.function != "main"@
    &&& !(site.function.len() > 0 && site.function[0] == '_')
    &&& forall|i: int| 0 <= i < links.len() ==> !links_to(#[trigger] links[i], site)
}

/// The definitions reported unused, in order.
pub open spec fn unused_sites(sites: Seq<FunctionSite>, links: Seq<CallLink>) -> Seq<FunctionSite>
    decreases sites.len(),
{
    if sites.len() == 0 {
        Seq::empty()
    } else {
        let rest = unused_sites(sites.drop_last(), links);
        if is_unused(sites.last(), links) {
            rest.push(sites.last())
        } else {
            rest
        }
    }
}

/// A copy of a definition.
fn copy_site(site: &FunctionsInFiles) -> (r: FunctionsInFiles)
    ensures
        r.deep_view() == site.deep_view(),
{
    FunctionsInFiles {
        file_src: site.file_src.clone(),
        function: site.function.clone(),
        line: site.line,
    }
}

/// Whether some connection reaches the definition.
fn is_reached(site: &FunctionsInFiles, connections: &[Connections]) -> (r: bool)
    ensures
        r == exists|i: int|
            0 <= i < connections@.len() && links_to(
                #[trigger] connections.deep_view()[i],
                site.deep_view(),
            ),
{
    let mut i: usize = 0;
    while i < connections.len()
        invariant
            0 <= i <= connections@.len(),
            forall|k: int|
                0 <= k < i ==> !links_to(#[trigger] connections.deep_view()[k], site.deep_view()),
        decreases connections@.len() - i,
    {
        if connections[i].file_src == site.file_src && connections[i].function == site.function {
            assert(links_to(connections.deep_view()[i as int], site.deep_view()));
            return true;
        }
        i = i + 1;
    }
    false
}

/// The definitions that nothing uses: those that are not `main`, whose name
/// does not begin with `_`, and that no connection reaches (same defining
/// file, same name), in their order.
pub fn find_unused_functions(
    functions_in_files: &[FunctionsInFiles],
    connections: &[Connections],
) -> (r: Vec<FunctionsInFiles>)
    ensures
        r.deep_view() == unused_sites(functions_in_files.deep_view(), connections.deep_view()),
{
    let ghost sites = functions_in_files.deep_view();
    let ghost links = connections.deep_view();
    let mut out: Vec<FunctionsInFiles> = Vec::new();
    let mut i: usize = 0;
    assert(sites.take(0) =~= Seq::<FunctionSite>::empty());
    assert(out.deep_view() =~= Seq::<FunctionSite>::empty());
    while i < functions_in_files.len()
        invariant
            0 <= i <= functions_in_files@.len(),
            sites == functions_in_files.deep_view(),
            links == connections.deep_view(),
            out.deep_view() == unused_sites(sites.take(i as int), links),
        decreases functions_in_files@.len() - i,
    {
        assert(sites.take(i + 1).drop_last() =~= sites.take(i as int));
        let f = &functions_in_files[i];
        assert(sites[i as int] == f.deep_view());
        let keep = !same_text(f.function.as_str(), "main") && !starts_with_char(
            f.function.as_str(),
            '_',
        ) && !is_reached(f, connections);
        if keep {
            let ghost before = out.deep_view();
            let copy = copy_site(f);
            out.push(copy);
            assert(out.deep_view() =~= before.push(copy.deep_view()));
        }
        i = i + 1;
    }
    assert(sites.take(sites.len() as int) =~= sites);
    out
}

proof fn lemma_definition_sites_step(funcs: Seq<Json>, file: Seq<char>, j: int)
    requires
        0 <= j < funcs.len(),
    ensures
        definition_sites(funcs.take(j + 1), file) == match definition_site(funcs[j], file) {
            Some(d) => definition_sites(funcs.take(j), file).push(d),
            None => definition_sites(funcs.take(j), file),
        },
{
    assert(funcs.take(j + 1).drop_last() =~= funcs.take(j));
}

proof fn lemma_all_definition_sites_step(files: Seq<FileAnalysis>, k: int)
    requires
        0 <= k < files.len(),
    ensures
        all_definition_sites(files.take(k + 1)) == all_definition_sites(files.take(k))
            + definition_sites(definitions(files[k].data), files[k].path@),
{
    assert(files.take(k + 1).drop_last() =~= files.take(k));
}

/// Every function and method definition with a name, file after file (each
/// file's methods before its functions), with its file's path and its line
/// (1 where the analysis gives none).
pub fn save_functions(values: &[FileAnalysis]) -> (r: Vec<FunctionsInFiles>)
    requires
        forall|k: int| 0 <= k < values@.len() ==> lists_present(#[trigger] values@[k].data),
    ensures
        r.deep_view() == all_definition_sites(values@),
{
    let mut out: Vec<FunctionsInFiles> = Vec::new();
    let mut k: usize = 0;
    assert(values@.take(0) =~= Seq::<FileAnalysis>::empty());
    assert(out.deep_view() =~= Seq::<FunctionSite>::empty());
    while k < values.len()
        invariant
            0 <= k <= values@.len(),
            out.deep_view() == all_definition_sites(values@.take(k as int)),
        decreases values@.len() - k,
    {
        proof {
            lemma_all_definition_sites_step(values@, k as int);
        }
        let file = &values[k];
        let defs = collect_definitions(&file.data);
        let ghost before = out.deep_view();
        let mut j: usize = 0;
        assert(derefs(defs@).take(0) =~= Seq::<Json>::empty());
        assert(before + definition_sites(derefs(defs@).take(0), file.path@) =~= before);
        while j < defs.len()
            invariant
                0 <= j <= defs@.len(),
                0 <= k < values@.len(),
                file == values@[k as int],
                out.deep_view() == before + definition_sites(
                    derefs(defs@).take(j as int),
                    file.path@,
                ),
            decreases defs@.len() - j,
        {
            proof {
                lemma_definition_sites_step(derefs(defs@), file.path@, j as int);
            }
            assert(derefs(defs@)[j as int] == *defs@[j as int]);
            let def = defs[j];
            match get_str(def, "name") {
                Some(name) => {
                    let line = match get_i64(def, "line") {
                        Some(l) => l,
                        None => 1,
                    };
                    let site = FunctionsInFiles {
                        file_src: file.path.clone(),
                        function: name.to_owned(),
                        line,
                    };
                    let ghost prior = out.deep_view();
                    out.push(site);
                    assert(out.deep_view() =~= prior.push(site.deep_view()));
                },
                None => {},
            }
            j = j + 1;
        }
        assert(derefs(defs@).take(defs@.len() as int) =~= definitions(file.data));
        k = k + 1;
    }
    assert(values@.take(values@.len() as int) =~= values@);
    out
}

/// The (name, path) pairs of a file's imports.
fn build_import_table(data: &Json) -> (r: Vec<(String, String)>)
    ensures
        r.deep_view() == import_table(field_items(*data, "imports"@)),
{
    let mut table: Vec<(String, String)> = Vec::new();
    assert(table.deep_view() =~= Seq::<(Seq<char>, Seq<char>)>::empty());
    match get_array(data, "imports") {
        Some(imports) => {
            let mut i: usize = 0;
            assert(imports@.take(0) =~= Seq::<Json>::empty());
            while i < imports.len()
                invariant
                    0 <= i <= imports@.len(),
                    imports@ == field_items(*data, "imports"@),
                    table.deep_view() == import_table(imports@.take(i as int)),
                decreases imports@.len() - i,
            {
                assert(imports@.take(i + 1).drop_last() =~= imports@.take(i as int));
                assert(imports@.take(i + 1).last() == imports@[i as int]);
                proof {
                    reveal_strlit("");
                    assert(""@ =~= Seq::<char>::empty());
                }
                let name = match get_str(&imports[i], "name") {
                    Some(n) => n,
                    None => "",
                };
                let path = match get_str(&imports[i], "path") {
                    Some(p) => p,
                    None => "",
                };
                let ghost before = table.deep_view();
                let entry = (name.to_owned(), path.to_owned());
                assert(name@ == text_or(field_str(imports@[i as int], "name"@), Seq::empty()));
                assert(path@ == text_or(field_str(imports@[i as int], "path"@), Seq::empty()));
                table.push(entry);
                assert(table.deep_view() =~= before.push(entry.deep_view()));
                i = i + 1;
            }
            assert(imports@.take(imports@.len() as int) =~= imports@);
        },
        None => {},
    }
    table
}

/// The path of the last import named `module`.
fn lookup_import(table: &Vec<(String, String)>, module: &str) -> (r: Option<String>)
    ensures
        r.deep_view() == import_path(table.deep_view(), module@),
{
    let ghost t = table.deep_view();
    let mut i: usize = table.len();
    assert(t.take(t.len() as int) =~= t);
    while i > 0
        invariant
            0 <= i <= table@.len(),
            t == table.deep_view(),
            import_path(t, module@) == import_path(t.take(i as int), module@),
        decreases i,
    {
        assert(t.take(i as int).drop_last() =~= t.take(i - 1));
        assert(t.take(i as int).last() == t[i - 1]);
        if same_text(table[i - 1].0.as_str(), module) {
            return Some(table[i - 1].1.clone());
        }
        i = i - 1;
    }
    None
}

/// The analysis of the last file whose path equals `path`.
fn find_analysis<'a>(files: &'a [FileAnalysis], path: &str) -> (r: Option<&'a Json>)
    ensures
        crate::json::opt_deref(r) == analysis_at(files@, path@),
{
    let mut i: usize = files.len();
    assert(files@.take(files@.len() as int) =~= files@);
    while i > 0
        invariant
            0 <= i <= files@.len(),
            analysis_at(files@, path@) == analysis_at(files@.take(i as int), path@),
        decreases i,
    {
        assert(files@.take(i as int).drop_last() =~= files@.take(i - 1));
        assert(files@.take(i as int).last() == files@[i - 1]);
        if same_path(files[i - 1].path.as_str(), path) {
            return Some(&files[i - 1].data);
        }
        i = i - 1;
    }
    None
}

/// What the first local named `object` was assigned from.
fn find_assigned_from<'a>(locals: &'a Vec<Json>, object: &str) -> (r: Option<&'a str>)
    ensures
        match r {
            Some(t) => assigned_from(locals@, object@) == Some(t@),
            None => assigned_from(locals@, object@) is None,
        },
{
    let mut i: usize = 0;
    assert(locals@.skip(0) =~= locals@);
    while i < locals.len()
        invariant
            0 <= i <= locals@.len(),
            assigned_from(locals@, object@) == assigned_from(locals@.skip(i as int), object@),
        decreases locals@.len() - i,
    {
        assert(locals@.skip(i as int).drop_first() =~= locals@.skip(i + 1));
        assert(locals@.skip(i as int)[0] == locals@[i as int]);
        match get_str(&locals[i], "name") {
            Some(n) => {
                if same_text(n, object) {
                    return get_str(&locals[i], "assigned_from");
                }
            },
            None => {},
        }
        i = i + 1;
    }
    None
}

/// The module that the first call of `func` imports it from.
fn find_source_import<'a>(calls: &'a Vec<Json>, func: &str) -> (r: Option<&'a str>)
    ensures
        match r {
            Some(t) => source_import(calls@, func@) == Some(t@),
            None => source_import(calls@, func@) is None,
        },
{
    let mut i: usize = 0;
    assert(calls@.skip(0) =~= calls@);
    while i < calls.len()
        invariant
            0 <= i <= calls@.len(),
            source_import(calls@, func@) == source_import(calls@.skip(i as int), func@),
        decreases calls@.len() - i,
    {
        assert(calls@.skip(i as int).drop_first() =~= calls@.skip(i + 1));
        assert(calls@.skip(i as int)[0] == calls@[i as int]);
        match get_str(&calls[i], "name") {
            Some(n) => {
                if same_text(n, func) {
                    return get_str(&calls[i], "import_name");
                }
            },
            None => {},
        }
        i = i + 1;
    }
    None
}

/// The return type of `func` among `funcs`, giving up at a function without
/// a name.
fn find_return_type<'a>(funcs: &'a Vec<Json>, func: &str) -> (r: Option<&'a str>)
    ensures
        match r {
            Some(t) => return_type_in(funcs@, func@) == Some(t@),
            None => return_type_in(funcs@, func@) is None,
        },
{
    let mut i: usize = 0;
    assert(funcs@.skip(0) =~= funcs@);
    while i < funcs.len()
        invariant
            0 <= i <= funcs@.len(),
            return_type_in(funcs@, func@) == return_type_in(funcs@.skip(i as int), func@),
        decreases funcs@.len() - i,
    {
        assert(funcs@.skip(i as int).drop_first() =~= funcs@.skip(i + 1));
        assert(funcs@.skip(i as int)[0] == funcs@[i as int]);
        match get_str(&funcs[i], "name") {
            Some(n) => {
                if same_text(n, func) {
                    return get_str(&funcs[i], "return_type");
                }
            },
            None => {
                return None;
            },
        }
        i = i + 1;
    }
    None
}

/// Looks for the class `name` among `classes`.
fn find_class(classes: &Vec<Json>, name: &str) -> (r: ClassSearch)
    ensures
        r == search_classes(classes@, name@),
{
    let mut i: usize = 0;
    assert(classes@.skip(0) =~= classes@);
    while i < classes.len()
        invariant
            0 <= i <= classes@.len(),
            search_classes(classes@, name@) == search_classes(classes@.skip(i as int), name@),
        decreases classes@.len() - i,
    {
        assert(classes@.skip(i as int).drop_first() =~= classes@.skip(i + 1));
        assert(classes@.skip(i as int)[0] == classes@[i as int]);
        match get_str(&classes[i], "name") {
            Some(n) => {
                if same_text(n, name) {
                    return ClassSearch::Found;
                }
            },
            None => {
                return ClassSearch::GaveUp;
            },
        }
        i = i + 1;
    }
    ClassSearch::NotHere
}

/// Whether a later analysis has a path equal to that of `files[i]`.
fn is_superseded(files: &[FileAnalysis], i: usize) -> (r: bool)
    requires
        i < files@.len(),
    ensures
        r == superseded(files@, i as int),
{
    let n = files.len();
    assert(i < n);
    let mut j: usize = i + 1;
    while j < files.len()
        invariant
            i < j <= files@.len(),
            forall|m: int|
                i < m < j ==> !paths_equal(files@[i as int].path@, #[trigger] files@[m].path@),
        decreases files@.len() - j,
    {
        if same_path(files[i].path.as_str(), files[j].path.as_str()) {
            return true;
        }
        j = j + 1;
    }
    false
}

/// The path under which the analysis `files[i]` is kept.
fn kept_path_of(files: &[FileAnalysis], i: usize) -> (r: String)
    requires
        i < files@.len(),
    ensures
        r@ == kept_path(files@, i as int),
{
    let mut j: usize = 0;
    while j < i
        invariant
            0 <= j <= i < files@.len(),
            forall|m: int|
                0 <= m < j ==> !paths_equal(#[trigger] files@[m].path@, files@[i as int].path@),
        decreases i - j,
    {
        if same_path(files[j].path.as_str(), files[i].path.as_str()) {
            let ghost c = choose|c: int|
                0 <= c < i && paths_equal(#[trigger] files@[c].path@, files@[i as int].path@)
                    && forall|m: int|
                    0 <= m < c ==> !paths_equal(#[trigger] files@[m].path@, files@[i as int].path@);
            assert(c == j) by {
                if c < j {
                    assert(!paths_equal(files@[c].path@, files@[i as int].path@));
                }
                if j < c {
                    assert(!paths_equal(files@[j as int].path@, files@[i as int].path@));
                }
            }
            return files[j].path.clone();
        }
        j = j + 1;
    }
    files[i].path.clone()
}

/// The path of the file that defines the class `name`.
fn find_class_file(files: &[FileAnalysis], name: &str) -> (r: Option<String>)
    ensures
        r.deep_view() == class_file(files@, name@),
{
    let mut k: usize = 0;
    while k < files.len()
        invariant
            0 <= k <= files@.len(),
            class_file(files@, name@) == class_file_from(files@, k as int, name@),
        decreases files@.len() - k,
    {
        if !is_superseded(files, k) {
            match get_array(&files[k].data, "classes") {
                None => {
                    return None;
                },
                Some(classes) => match find_class(classes, name) {
                    ClassSearch::Found => {
                        return Some(kept_path_of(files, k));
                    },
                    ClassSearch::GaveUp => {
                        return None;
                    },
                    ClassSearch::NotHere => {},
                },
            }
        }
        k = k + 1;
    }
    None
}

/// Whether the file defines a top-level function named `name`.
fn find_defined_function(data: &Json, name: &str) -> (r: bool)
    ensures
        r == defines_function(*data, name@),
{
    match get_array(data, "functions") {
        Some(funcs) => {
            let mut i: usize = 0;
            while i < funcs.len()
                invariant
                    0 <= i <= funcs@.len(),
                    funcs@ == top_functions(*data),
                    forall|j: int|
                        0 <= j < i ==> field_str(#[trigger] top_functions(*data)[j], "name"@)
                            != Some(name@),
                decreases funcs@.len() - i,
            {
                match get_str(&funcs[i], "name") {
                    Some(n) => {
                        if same_text(n, name) {
                            return true;
                        }
                    },
                    None => {},
                }
                i = i + 1;
            }
            false
        },
        None => false,
    }
}

/// The connection that one call of `owner`, a function or method of `file`,
/// establishes.
fn resolve_call(
    files: &[FileAnalysis],
    file: &FileAnalysis,
    table: &Vec<(String, String)>,
    owner_calls: &Vec<Json>,
    owner_locals: &Vec<Json>,
    call: &Json,
    Ghost(owner): Ghost<Json>,
) -> (r: Option<Connections>)
    requires
        table.deep_view() == import_table(field_items(file.data, "imports"@)),
        owner_calls@ == field_items(owner, "function_calls"@),
        owner_locals@ == field_items(owner, "local_variables"@),
    ensures
        r.deep_view() == call_link(files@, *file, owner, *call),
{
    proof {
        reveal_strlit("<sin nombre>");
    }
    let name = match get_str(call, "name") {
        Some(n) => n,
        None => "<sin nombre>",
    };
    let line = match get_i64(call, "line") {
        Some(l) => l,
        None => 0,
    };
    match get_str(call, "import_name") {
        Some(module) => match lookup_import(table, module) {
            Some(path) => Some(
                Connections {
                    file_src: path,
                    file_use: file.path.clone(),
                    line,
                    function: name.to_owned(),
                },
            ),
            None => None,
        },
        None => match get_str(call, "object_name") {
            Some(object) => {
                let initializer = match find_assigned_from(owner_locals, object) {
                    Some(a) => a,
                    None => return None,
                };
                let module = match find_source_import(owner_calls, initializer) {
                    Some(m) => m,
                    None => return None,
                };
                let path = match lookup_import(table, module) {
                    Some(p) => p,
                    None => return None,
                };
                let data = match find_analysis(files, path.as_str()) {
                    Some(d) => d,
                    None => return None,
                };
                let funcs = match get_array(data, "functions") {
                    Some(f) => f,
                    None => return None,
                };
                let class = match find_return_type(funcs, initializer) {
                    Some(c) => c,
                    None => return None,
                };
                match find_class_file(files, class) {
                    Some(src) => Some(
                        Connections {
                            file_src: src,
                            file_use: file.path.clone(),
                            line,
                            function: name.to_owned(),
                        },
                    ),
                    None => None,
                }
            },
            None => {
                if find_defined_function(&file.data, name) {
                    Some(
                        Connections {
                            file_src: file.path.clone(),
                            file_use: file.path.clone(),
                            line,
                            function: name.to_owned(),
                        },
                    )
                } else {
                    None
                }
            },
        },
    }
}

proof fn lemma_call_links_step(
    files: Seq<FileAnalysis>,
    file: FileAnalysis,
    owner: Json,
    calls: Seq<Json>,
    c: int,
)
    requires
        0 <= c < calls.len(),
    ensures
        call_links(files, file, owner, calls.take(c + 1)) == match call_link(
            files,
            file,
            owner,
            calls[c],
        ) {
            Some(l) => call_links(files, file, owner, calls.take(c)).push(l),
            None => call_links(files, file, owner, calls.take(c)),
        },
{
    assert(calls.take(c + 1).drop_last() =~= calls.take(c));
}

proof fn lemma_owner_links_step(
    files: Seq<FileAnalysis>,
    file: FileAnalysis,
    owners: Seq<Json>,
    o: int,
)
    requires
        0 <= o < owners.len(),
    ensures
        owner_links(files, file, owners.take(o + 1)) == owner_links(files, file, owners.take(o))
            + call_links(files, file, owners[o], field_items(owners[o], "function_calls"@)),
{
    assert(owners.take(o + 1).drop_last() =~= owners.take(o));
}

proof fn lemma_file_links_step(files: Seq<FileAnalysis>, k: int)
    requires
        0 <= k < files.len(),
    ensures
        file_links(files, files.take(k + 1)) == file_links(files, files.take(k)) + owner_links(
            files,
            files[k],
            definitions(files[k].data),
        ),
{
    assert(files.take(k + 1).drop_last() =~= files.take(k));
}

/// Every connection that the calls of the project establish, file after
/// file (each file's methods before its functions, each function's calls in
/// order); see `call_link` for how a call is resolved.
pub fn save_function_reference(values: &[FileAnalysis]) -> (r: Vec<Connections>)
    requires
        forall|k: int| 0 <= k < values@.len() ==> well_shaped(#[trigger] values@[k].data),
    ensures
        r.deep_view() == all_links(values@),
{
    let empty: Vec<Json> = Vec::new();
    let mut out: Vec<Connections> = Vec::new();
    let mut k: usize = 0;
    assert(values@.take(0) =~= Seq::<FileAnalysis>::empty());
    assert(out.deep_view() =~= Seq::<CallLink>::empty());
    while k < values.len()
        invariant
            0 <= k <= values@.len(),
            empty@ == Seq::<Json>::empty(),
            out.deep_view() == file_links(values@, values@.take(k as int)),
        decreases values@.len() - k,
    {
        proof {
            lemma_file_links_step(values@, k as int);
        }
        let file = &values[k];
        let table = build_import_table(&file.data);
        let owners = collect_definitions(&file.data);
        let ghost before_file = out.deep_view();
        let mut o: usize = 0;
        assert(derefs(owners@).take(0) =~= Seq::<Json>::empty());
        assert(before_file + owner_links(values@, *file, derefs(owners@).take(0)) =~= before_file);
        while o < owners.len()
            invariant
                0 <= o <= owners@.len(),
                0 <= k < values@.len(),
                *file == values@[k as int],
                empty@ == Seq::<Json>::empty(),
                table.deep_view() == import_table(field_items(file.data, "imports"@)),
                out.deep_view() == before_file + owner_links(
                    values@,
                    *file,
                    derefs(owners@).take(o as int),
                ),
            decreases owners@.len() - o,
        {
            proof {
                lemma_owner_links_step(values@, *file, derefs(owners@), o as int);
            }
            assert(derefs(owners@)[o as int] == *owners@[o as int]);
            let owner = owners[o];
            let calls = match get_array(owner, "function_calls") {
                Some(c) => c,
                None => &empty,
            };
            let locals = match get_array(owner, "local_variables") {
                Some(l) => l,
                None => &empty,
            };
            let ghost before_owner = out.deep_view();
            let mut c: usize = 0;
            assert(calls@.take(0) =~= Seq::<Json>::empty());
            assert(before_owner + call_links(values@, *file, *owner, calls@.take(0))
                =~= before_owner);
            while c < calls.len()
                invariant
                    0 <= c <= calls@.len(),
                    table.deep_view() == import_table(field_items(file.data, "imports"@)),
                    calls@ == field_items(*owner, "function_calls"@),
                    locals@ == field_items(*owner, "local_variables"@),
                    out.deep_view() == before_owner + call_links(
                        values@,
                        *file,
                        *owner,
                        calls@.take(c as int),
                    ),
                decreases calls@.len() - c,
            {
                proof {
                    lemma_call_links_step(values@, *file, *owner, calls@, c as int);
                }
                let ghost prior = out.deep_view();
                match resolve_call(values, file, &table, calls, locals, &calls[c], Ghost(*owner)) {
                    Some(link) => {
                        out.push(link);
                        assert(out.deep_view() =~= prior.push(link.deep_view()));
                    },
                    None => {},
                }
                c = c + 1;
            }
            assert(calls@.take(calls@.len() as int) =~= calls@);
            assert(out.deep_view() =~= before_file + owner_links(
                values@,
                *file,
                derefs(owners@).take(o + 1),
            ));
            o = o + 1;
        }
        assert(derefs(owners@).take(owners@.len() as int) =~= definitions(file.data));
        k = k + 1;
    }
    assert(values@.take(values@.len() as int) =~= values@);
    out
}

/// Whether the file lists its classes and functions, and every class its
/// methods, as `save_functions` needs.
pub fn has_lists(data: &Json) -> (r: bool)
    ensures
        r == lists_present(*data),
{
    let classes = match get_array(data, "classes") {
        Some(c) => c,
        None => return false,
    };
    if get_array(data, "functions").is_none() {
        return false;
    }
    let mut c: usize = 0;
    while c < classes.len()
        invariant
            0 <= c <= classes@.len(),
            classes@ == classes_of(*data),
            forall|j: int| 0 <= j < c ==> (field_array(#[trigger] classes_of(*data)[j], "methods"@) is Some),
        decreases classes@.len() - c,
    {
        if get_array(&classes[c], "methods").is_none() {
            return false;
        }
        c = c + 1;
    }
    true
}

/// Whether the file holds every list that the unused-function analysis
/// reads; callers must stop on a file that does not.
pub fn is_well_shaped(data: &Json) -> (r: bool)
    ensures
        r == well_shaped(*data),
{
    let classes = match get_array(data, "classes") {
        Some(c) => c,
        None => return false,
    };
    if get_array(data, "functions").is_none() || get_array(data, "imports").is_none() {
        return false;
    }
    let mut c: usize = 0;
    while c < classes.len()
        invariant
            0 <= c <= classes@.len(),
            classes@ == classes_of(*data),
            forall|j: int| 0 <= j < c ==> (field_array(#[trigger] classes_of(*data)[j], "methods"@) is Some),
        decreases classes@.len() - c,
    {
        if get_array(&classes[c], "methods").is_none() {
            return false;
        }
        c = c + 1;
    }
    let owners = collect_definitions(data);
    let mut o: usize = 0;
    while o < owners.len()
        invariant
            0 <= o <= owners@.len(),
            derefs(owners@) == definitions(*data),
            forall|j: int|
                0 <= j < o ==> (field_array(#[trigger] definitions(*data)[j], "function_calls"@) is Some),
        decreases owners@.len() - o,
    {
        assert(derefs(owners@)[o as int] == *owners@[o as int]);
        if get_array(owners[o], "function_calls").is_none() {
            return false;
        }
        o = o + 1;
    }
    true
}

/// The functions of the project that nothing uses, found from the
/// definitions (`save_functions`) and the connections
/// (`save_function_reference`) of the analyses.
pub fn collect(analyses: &[FileAnalysis]) -> (r: Vec<UnusedFunction>)
    requires
        forall|k: int| 0 <= k < analyses@.len() ==> well_shaped(#[trigger] analyses@[k].data),
    ensures
        ({
            let u = unused_sites(all_definition_sites(analyses@), all_links(analyses@));
            &&& r.deep_view().len() == u.len()
            &&& forall|i: int|
                0 <= i < u.len() ==> #[trigger] r.deep_view()[i] == (UnusedFinding {
                    file: u[i].file_src,
                    function: u[i].function,
                    line: u[i].line,
                })
        }),
{
    let connections = save_function_reference(analyses);
    let functions_in_files = save_functions(analyses);
    let unused = find_unused_functions(functions_in_files.as_slice(), connections.as_slice());
    let mut out: Vec<UnusedFunction> = Vec::new();
    let mut i: usize = 0;
    while i < unused.len()
        invariant
            0 <= i <= unused@.len(),
            out.deep_view().len() == i,
            forall|j: int|
                0 <= j < i ==> #[trigger] out.deep_view()[j] == (UnusedFinding {
                    file: unused.deep_view()[j].file_src,
                    function: unused.deep_view()[j].function,
                    line: unused.deep_view()[j].line,
                }),
        decreases unused@.len() - i,
    {
        let f = &unused[i];
        let entry = UnusedFunction {
            file: f.file_src.clone(),
            function: f.function.clone(),
            line: f.line,
        };
        let ghost before = out.deep_view();
        out.push(entry);
        assert(out.deep_view() =~= before.push(entry.deep_view()));
        i = i + 1;
    }
    out
}

// ---------------------------------------------------------------------------
// Laws.

/// A definition is reported unused exactly when it is among the definitions
/// and is unused: not `main`, not beginning with `_`, and reached by no
/// connection.
pub proof fn law_unused_exactly(sites: Seq<FunctionSite>, links: Seq<CallLink>, x: FunctionSite)
    ensures
        unused_sites(sites, links).contains(x) <==> (sites.contains(x) && is_unused(x, links)),
    decreases sites.len(),
{
    if sites.len() > 0 {
        let rest = sites.drop_last();
        law_unused_exactly(rest, links, x);
        assert(sites =~= rest.push(sites.last()));
        if sites.contains(x) && is_unused(x, links) {
            let i = choose|i: int| 0 <= i < sites.len() && sites[i] == x;
            if i < sites.len() - 1 {
                assert(rest[i] == x);
            }
        }
        if unused_sites(sites, links).contains(x) && !unused_sites(rest, links).contains(x) {
            assert(x == sites.last());
        }
        if rest.contains(x) {
            let i = choose|i: int| 0 <= i < rest.len() && rest[i] == x;
            assert(sites[i] == x);
        }
        if is_unused(sites.last(), links) {
            let u = unused_sites(rest, links);
            assert(unused_sites(sites, links) == u.push(sites.last()));
            if u.contains(x) {
                let i = choose|i: int| 0 <= i < u.len() && u[i] == x;
                assert(u.push(sites.last())[i] == x);
            }
            if x == sites.last() {
                assert(u.push(sites.last())[u.len() as int] == x);
            }
        }
    }
}

proof fn lemma_call_links_contains(
    files: Seq<FileAnalysis>,
    file: FileAnalysis,
    owner: Json,
    calls: Seq<Json>,
    c: int,
    link: CallLink,
)
    requires
        0 <= c < calls.len(),
        call_link(files, file, owner, calls[c]) == Some(link),
    ensures
        call_links(files, file, owner, calls).contains(link),
    decreases calls.len(),
{
    let rest = call_links(files, file, owner, calls.drop_last());
    if c == calls.len() - 1 {
        assert(call_links(files, file, owner, calls) == rest.push(link));
        assert(rest.push(link)[rest.len() as int] == link);
    } else {
        assert(calls.drop_last()[c] == calls[c]);
        lemma_call_links_contains(files, file, owner, calls.drop_last(), c, link);
        let i = choose|i: int| 0 <= i < rest.len() && rest[i] == link;
        match call_link(files, file, owner, calls.last()) {
            Some(l) => {
                assert(rest.push(l)[i] == link);
            },
            None => {},
        }
    }
}

proof fn lemma_owner_links_contains(
    files: Seq<FileAnalysis>,
    file: FileAnalysis,
    owners: Seq<Json>,
    o: int,
    link: CallLink,
)
    requires
        0 <= o < owners.len(),
        call_links(files, file, owners[o], field_items(owners[o], "function_calls"@)).contains(
            link,
        ),
    ensures
        owner_links(files, file, owners).contains(link),
    decreases owners.len(),
{
    let rest = owner_links(files, file, owners.drop_last());
    let tail = call_links(files, file, owners.last(), field_items(owners.last(), "function_calls"@));
    if o == owners.len() - 1 {
        let i = choose|i: int| 0 <= i < tail.len() && tail[i] == link;
        assert((rest + tail)[rest.len() + i] == link);
    } else {
        assert(owners.drop_last()[o] == owners[o]);
        lemma_owner_links_contains(files, file, owners.drop_last(), o, link);
        let i = choose|i: int| 0 <= i < rest.len() && rest[i] == link;
        assert((rest + tail)[i] == link);
    }
}

proof fn lemma_file_links_contains(
    files: Seq<FileAnalysis>,
    prefix: Seq<FileAnalysis>,
    k: int,
    link: CallLink,
)
    requires
        0 <= k < prefix.len(),
        owner_links(files, prefix[k], definitions(prefix[k].data)).contains(link),
    ensures
        file_links(files, prefix).contains(link),
    decreases prefix.len(),
{
    let rest = file_links(files, prefix.drop_last());
    let tail = owner_links(files, prefix.last(), definitions(prefix.last().data));
    if k == prefix.len() - 1 {
        let i = choose|i: int| 0 <= i < tail.len() && tail[i] == link;
        assert((rest + tail)[rest.len() + i] == link);
    } else {
        assert(prefix.drop_last()[k] == prefix[k]);
        lemma_file_links_contains(files, prefix.drop_last(), k, link);
        let i = choose|i: int| 0 <= i < rest.len() && rest[i] == link;
        assert((rest + tail)[i] == link);
    }
}

/// The connection that a call establishes is among the project's
/// connections.
pub proof fn lemma_call_link_in_all_links(files: Seq<FileAnalysis>, k: int, o: int, c: int)
    requires
        0 <= k < files.len(),
        0 <= o < definitions(files[k].data).len(),
        0 <= c < field_items(definitions(files[k].data)[o], "function_calls"@).len(),
    ensures
        ({
            let owner = definitions(files[k].data)[o];
            let call = field_items(owner, "function_calls"@)[c];
            call_link(files, files[k], owner, call) matches Some(link) ==> all_links(
                files,
            ).contains(link)
        }),
{
    let owner = definitions(files[k].data)[o];
    let calls = field_items(owner, "function_calls"@);
    if let Some(link) = call_link(files, files[k], owner, calls[c]) {
        lemma_call_links_contains(files, files[k], owner, calls, c, link);
        lemma_owner_links_contains(files, files[k], definitions(files[k].data), o, link);
        lemma_file_links_contains(files, files, k, link);
    }
}

/// A function that a file defines at top level, and that a function or
/// method of the same file calls by its bare name (no import, no object), is
/// not reported unused.
pub proof fn law_local_call_marks_used(
    files: Seq<FileAnalysis>,
    k: int,
    o: int,
    c: int,
    site: FunctionSite,
)
    requires
        0 <= k < files.len(),
        0 <= o < definitions(files[k].data).len(),
        0 <= c < field_items(definitions(files[k].data)[o], "function_calls"@).len(),
        ({
            let call = field_items(definitions(files[k].data)[o], "function_calls"@)[c];
            &&& field_str(call, "import_name"@) is None
            &&& field_str(call, "object_name"@) is None
            &&& field_str(call, "name"@) == Some(site.function)
        }),
        defines_function(files[k].data, site.function),
        site.file_src == files[k].path@,
    ensures
        !is_unused(site, all_links(files)),
{
    lemma_call_link_in_all_links(files, k, o, c);
    let owner = definitions(files[k].data)[o];
    let call = field_items(owner, "function_calls"@)[c];
    let link = call_link(files, files[k], owner, call)->0;
    assert(links_to(link, site));
    let links = all_links(files);
    let i = choose|i: int| 0 <= i < links.len() && links[i] == link;
    assert(links_to(links[i], site));
}

/// A function that a call reaches through an import (the call's
/// `import_name` is an import of the calling file whose path is the
/// function's file) is not reported unused.
pub proof fn law_imported_call_marks_used(
    files: Seq<FileAnalysis>,
    k: int,
    o: int,
    c: int,
    site: FunctionSite,
)
    requires
        0 <= k < files.len(),
        0 <= o < definitions(files[k].data).len(),
        0 <= c < field_items(definitions(files[k].data)[o], "function_calls"@).len(),
        ({
            let call = field_items(definitions(files[k].data)[o], "function_calls"@)[c];
            &&& field_str(call, "import_name"@) matches Some(module)
            &&& import_path(import_table(field_items(files[k].data, "imports"@)), module) == Some(
                site.file_src,
            )
            &&& field_str(call, "name"@) == Some(site.function)
        }),
    ensures
        !is_unused(site, all_links(files)),
{
    lemma_call_link_in_all_links(files, k, o, c);
    let owner = definitions(files[k].data)[o];
    let call = field_items(owner, "function_calls"@)[c];
    let link = call_link(files, files[k], owner, call)->0;
    assert(links_to(link, site));
    let links = all_links(files);
    let i = choose|i: int| 0 <= i < links.len() && links[i] == link;
    assert(links_to(links[i], site));
}

/// The first local named `object`, wherever it stands among the locals,
/// gives what the object was assigned from.
proof fn lemma_assigned_from_first(locals: Seq<Json>, object: Seq<char>, v: int)
    requires
        0 <= v < locals.len(),
        field_str(locals[v], "name"@) == Some(object),
        forall|j: int| 0 <= j < v ==> field_str(#[trigger] locals[j], "name"@) != Some(object),
    ensures
        assigned_from(locals, object) == field_str(locals[v], "assigned_from"@),
    decreases v,
{
    if v > 0 {
        assert(field_str(locals[0], "name"@) != Some(object));
        let rest = locals.drop_first();
        assert forall|j: int| 0 <= j < v - 1 implies field_str(#[trigger] rest[j], "name"@) != Some(
            object,
        ) by {
            assert(rest[j] == locals[j + 1]);
        }
        lemma_assigned_from_first(rest, object, v - 1);
    }
}

/// The first call of `func`, wherever it stands among the calls, gives the
/// module it is imported from.
proof fn lemma_source_import_first(calls: Seq<Json>, func: Seq<char>, c: int)
    requires
        0 <= c < calls.len(),
        field_str(calls[c], "name"@) == Some(func),
        forall|j: int| 0 <= j < c ==> field_str(#[trigger] calls[j], "name"@) != Some(func),
    ensures
        source_import(calls, func) == field_str(calls[c], "import_name"@),
    decreases c,
{
    if c > 0 {
        assert(field_str(calls[0], "name"@) != Some(func));
        let rest = calls.drop_first();
        assert forall|j: int| 0 <= j < c - 1 implies field_str(#[trigger] rest[j], "name"@) != Some(
            func,
        ) by {
            assert(rest[j] == calls[j + 1]);
        }
        lemma_source_import_first(rest, func, c - 1);
    }
}

/// A method called on a local object is not reported unused when the
/// object is found among the owner's locals (the first local of that name,
/// at any position), was assigned from a function that the owner calls
/// through an import (its first call of that function), and that function
/// returns a class defined in the method's file.
pub proof fn law_object_call_marks_used(
    files: Seq<FileAnalysis>,
    k: int,
    o: int,
    c: int,
    v: int,
    ic: int,
    object: Seq<char>,
    initializer: Seq<char>,
    module: Seq<char>,
    class: Seq<char>,
    site: FunctionSite,
)
    requires
        0 <= k < files.len(),
        0 <= o < definitions(files[k].data).len(),
        ({
            let owner = definitions(files[k].data)[o];
            let calls = field_items(owner, "function_calls"@);
            let locals = field_items(owner, "local_variables"@);
            &&& 0 <= c < calls.len()
            &&& field_str(calls[c], "import_name"@) is None
            &&& field_str(calls[c], "object_name"@) == Some(object)
            &&& field_str(calls[c], "name"@) == Some(site.function)
            &&& 0 <= v < locals.len()
            &&& field_str(locals[v], "name"@) == Some(object)
            &&& forall|j: int| 0 <= j < v ==> field_str(#[trigger] locals[j], "name"@) != Some(object)
            &&& field_str(locals[v], "assigned_from"@) == Some(initializer)
            &&& 0 <= ic < calls.len()
            &&& field_str(calls[ic], "name"@) == Some(initializer)
            &&& forall|j: int|
                0 <= j < ic ==> field_str(#[trigger] calls[j], "name"@) != Some(initializer)
            &&& field_str(calls[ic], "import_name"@) == Some(module)
        }),
        imported_return_type(
            files,
            import_table(field_items(files[k].data, "imports"@)),
            module,
            initializer,
        ) == Some(class),
        class_file(files, class) == Some(site.file_src),
    ensures
        !is_unused(site, all_links(files)),
{
    let owner = definitions(files[k].data)[o];
    let calls = field_items(owner, "function_calls"@);
    let locals = field_items(owner, "local_variables"@);
    lemma_assigned_from_first(locals, object, v);
    lemma_source_import_first(calls, initializer, ic);
    lemma_call_link_in_all_links(files, k, o, c);
    let call = calls[c];
    assert(call_link(files, files[k], owner, call) is Some);
    let link = call_link(files, files[k], owner, call)->0;
    assert(links_to(link, site));
    let links = all_links(files);
    let i = choose|i: int| 0 <= i < links.len() && links[i] == link;
    assert(links_to(links[i], site));
}

} // verus!
