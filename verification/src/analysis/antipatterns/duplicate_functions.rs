use vstd::prelude::*;

use crate::analysis::report::{DuplicateFinding, DuplicateViolation};
use crate::analysis::{callables, collect_callables, derefs, FileAnalysis};
use crate::config::DuplicateFunctionsConfig;
use crate::json::{field_str, get_str, Json};
use crate::paths::{display_file_name, file_name_or_empty, paths_equal, same_path};
use crate::text::{
    lemma_text_lt_irreflexive,
    lemma_text_lt_total,
    lemma_text_lt_transitive,
    same_text,
    text_less,
    text_lt,
};

verus! {

/// The name that a function or method adds to the check: its name, where it
/// has a text one that is not among the ignored names.
pub open spec fn counted_name(func: Json, ignored: Seq<Seq<char>>) -> Option<Seq<char>> {
    match field_str(func, "name"@) {
        Some(n) => if ignored.contains(n) {
            None
        } else {
            Some(n)
        },
        None => None,
    }
}

/// The (name, file path) pairs that the given functions of one file add.
pub open spec fn name_sites(funcs: Seq<Json>, path: Seq<char>, ignored: Seq<Seq<char>>) -> Seq<
    (Seq<char>, Seq<char>),
>
    decreases funcs.len(),
{
    if funcs.len() == 0 {
        Seq::empty()
    } else {
        let rest = name_sites(funcs.drop_last(), path, ignored);
        match counted_name(funcs.last(), ignored) {
            Some(n) => rest.push((n, path)),
            None => rest,
        }
    }
}

/// The (name, file path) pairs of every file, file after file, each file's
/// functions before its methods.
pub open spec fn all_name_sites(files: Seq<FileAnalysis>, ignored: Seq<Seq<char>>) -> Seq<
    (Seq<char>, Seq<char>),
>
    decreases files.len(),
{
    if files.len() == 0 {
        Seq::empty()
    } else {
        all_name_sites(files.drop_last(), ignored) + name_sites(
            callables(files.last().data),
            files.last().path@,
            ignored,
        )
    }
}

/// One of `paths` names the same file as `path` (compared as `Path`s).
pub open spec fn has_equal_path(paths: Seq<Seq<char>>, path: Seq<char>) -> bool {
    exists|k: int| 0 <= k < paths.len() && paths_equal(#[trigger] paths[k], path)
}

/// The paths of the files that define `name`, in the order in which they
/// first occur: a path that names the same file as one already there (as
/// `Path`s compare) is not added again.
pub open spec fn paths_defining(sites: Seq<(Seq<char>, Seq<char>)>, name: Seq<char>) -> Seq<
    Seq<char>,
>
    decreases sites.len(),
{
    if sites.len() == 0 {
        Seq::empty()
    } else {
        let rest = paths_defining(sites.drop_last(), name);
        if sites.last().0 == name && !has_equal_path(rest, sites.last().1) {
            rest.push(sites.last().1)
        } else {
            rest
        }
    }
}

/// The names that occur in `sites`, each once, in the order they first occur.
pub open spec fn names_in_order(sites: Seq<(Seq<char>, Seq<char>)>) -> Seq<Seq<char>>
    decreases sites.len(),
{
    if sites.len() == 0 {
        Seq::empty()
    } else {
        let rest = names_in_order(sites.drop_last());
        if rest.contains(sites.last().0) {
            rest
        } else {
            rest.push(sites.last().0)
        }
    }
}

/// Those of `names` that are defined in more than one file.
pub open spec fn duplicated_names(
    sites: Seq<(Seq<char>, Seq<char>)>,
    names: Seq<Seq<char>>,
) -> Seq<Seq<char>>
    decreases names.len(),
{
    if names.len() == 0 {
        Seq::empty()
    } else {
        let rest = duplicated_names(sites, names.drop_last());
        if paths_defining(sites, names.last()).len() > 1 {
            rest.push(names.last())
        } else {
            rest
        }
    }
}

/// The file names (last path components) of the given paths.
pub open spec fn file_names_of(paths: Seq<Seq<char>>) -> Seq<Seq<char>> {
    paths.map_values(|p: Seq<char>| display_file_name(p))
}

/// No text comes after a later one: sorted, repeats allowed.
pub open spec fn name_sorted(s: Seq<Seq<char>>) -> bool {
    forall|i: int, j: int| 0 <= i < j < s.len() ==> !text_lt(#[trigger] s[j], #[trigger] s[i])
}

/// What `check` reports of the given sites: one entry per name defined in
/// files of more than one path, in the order the names first occur, each
/// with the file names of those paths (one per path), sorted.
pub open spec fn duplicates_reported(
    sites: Seq<(Seq<char>, Seq<char>)>,
    r: Seq<DuplicateFinding>,
) -> bool {
    let expected = duplicated_names(sites, names_in_order(sites));
    &&& r.len() == expected.len()
    &&& forall|k: int| 0 <= k < r.len() ==> (#[trigger] r[k]).function == expected[k]
    &&& forall|k: int|
        0 <= k < r.len() ==> {
            &&& name_sorted((#[trigger] r[k]).files)
            &&& r[k].files.to_multiset() == file_names_of(
                paths_defining(sites, r[k].function),
            ).to_multiset()
        }
}

/// Inserts `item` into a sorted list of texts, keeping it sorted.
fn insert_by_name(list: &mut Vec<String>, item: String)
    requires
        name_sorted(old(list).deep_view()),
    ensures
        name_sorted(final(list).deep_view()),
        final(list).deep_view().to_multiset() == old(list).deep_view().to_multiset().insert(
            item@,
        ),
{
    let ghost old_view = list.deep_view();
    let mut p: usize = 0;
    while p < list.len() && text_less(list[p].as_str(), item.as_str())
        invariant
            0 <= p <= list@.len(),
            list.deep_view() == old_view,
            forall|k: int| 0 <= k < p ==> text_lt(#[trigger] old_view[k], item@),
        decreases list@.len() - p,
    {
        p = p + 1;
    }
    let ghost item_view = item@;
    assert(p < old_view.len() ==> !text_lt(old_view[p as int], item_view));
    list.insert(p, item);
    let ghost new_view = list.deep_view();
    assert(new_view =~= old_view.insert(p as int, item_view));
    assert forall|i: int, j: int| 0 <= i < j < new_view.len() implies !text_lt(
        #[trigger] new_view[j],
        #[trigger] new_view[i],
    ) by {
        if j < p {
        } else if j == p {
            lemma_text_lt_total(old_view[i], item_view);
        } else if i < p {
            assert(new_view[j] == old_view[j - 1]);
            assert(!text_lt(old_view[j - 1], old_view[i]));
        } else if i == p {
            assert(new_view[j] == old_view[j - 1]);
            if j - 1 > p {
                assert(!text_lt(old_view[j - 1], old_view[p as int]));
                lemma_text_lt_total(old_view[p as int], item_view);
                if text_lt(old_view[j - 1], item_view) {
                    if old_view[p as int] != item_view {
                        lemma_text_lt_transitive(old_view[j - 1], item_view, old_view[p as int]);
                    }
                }
            }
        } else {
            assert(new_view[i] == old_view[i - 1]);
            assert(new_view[j] == old_view[j - 1]);
        }
    }
    proof {
        vstd::seq_lib::to_multiset_insert(old_view, p as int, item_view);
    }
}

/// Each name occurs once in `names_in_order`, and exactly the names of the
/// sites occur there.
pub proof fn lemma_names_in_order(sites: Seq<(Seq<char>, Seq<char>)>)
    ensures
        names_in_order(sites).no_duplicates(),
        forall|m: Seq<char>|
            #![trigger names_in_order(sites).contains(m)]
            names_in_order(sites).contains(m) <==> exists|f: Seq<char>|
                sites.contains((m, f)),
    decreases sites.len(),
{
    if sites.len() > 0 {
        let rest = sites.drop_last();
        lemma_names_in_order(rest);
        let last = sites.last();
        assert(sites =~= rest.push(last));
        if !names_in_order(rest).contains(last.0) {
            assert(names_in_order(sites) == names_in_order(rest).push(last.0));
            assert(names_in_order(sites).no_duplicates());
        }
        assert forall|m: Seq<char>|
            #![trigger names_in_order(sites).contains(m)]
            names_in_order(sites).contains(m) <==> exists|f: Seq<char>|
                sites.contains((m, f)) by {
            if names_in_order(sites).contains(m) {
                if names_in_order(rest).contains(m) {
                    let f = choose|f: Seq<char>| rest.contains((m, f));
                    let i = choose|i: int| 0 <= i < rest.len() && rest[i] == (m, f);
                    assert(sites[i] == (m, f));
                    assert(sites.contains((m, f)));
                } else {
                    assert(m == last.0);
                    assert(sites[sites.len() - 1] == (m, last.1));
                    assert(sites.contains((m, last.1)));
                }
            }
            if exists|f: Seq<char>| sites.contains((m, f)) {
                let f = choose|f: Seq<char>| sites.contains((m, f));
                let i = choose|i: int| 0 <= i < sites.len() && sites[i] == (m, f);
                if i < sites.len() - 1 {
                    assert(rest[i] == (m, f));
                    assert(rest.contains((m, f)));
                    assert(names_in_order(rest).contains(m));
                    if !names_in_order(rest).contains(last.0) {
                        let k = choose|k: int|
                            0 <= k < names_in_order(rest).len() && names_in_order(rest)[k] == m;
                        assert(names_in_order(sites)[k] == m);
                    }
                } else {
                    assert(m == last.0);
                    if !names_in_order(rest).contains(last.0) {
                        assert(names_in_order(sites)[names_in_order(rest).len() as int] == m);
                    }
                }
            }
        }
    }
}

/// The index of the first of `names` that is `name`, or the length of
/// `names` where none is.
fn position_of(names: &Vec<String>, name: &str) -> (r: usize)
    ensures
        r <= names@.len(),
        r < names@.len() ==> names.deep_view()[r as int] == name@,
        forall|k: int| 0 <= k < r ==> names.deep_view()[k] != name@,
{
    let mut p: usize = 0;
    while p < names.len()
        invariant
            0 <= p <= names@.len(),
            forall|k: int| 0 <= k < p ==> names.deep_view()[k] != name@,
        decreases names@.len() - p,
    {
        if same_text(names[p].as_str(), name) {
            return p;
        }
        p = p + 1;
    }
    p
}

/// Whether `name` is one of the ignored names.
fn is_ignored(name: &str, ignored: &Vec<String>) -> (r: bool)
    ensures
        r == ignored.deep_view().contains(name@),
{
    let p = position_of(ignored, name);
    p < ignored.len()
}

/// Every path in `paths_defining` is that of a site of `name`.
pub proof fn lemma_paths_defining_sound(sites: Seq<(Seq<char>, Seq<char>)>, name: Seq<char>)
    ensures
        forall|q: Seq<char>|
            #![trigger paths_defining(sites, name).contains(q)]
            paths_defining(sites, name).contains(q) ==> sites.contains((name, q)),
    decreases sites.len(),
{
    if sites.len() > 0 {
        let rest = sites.drop_last();
        lemma_paths_defining_sound(rest, name);
        let last = sites.last();
        let pr = paths_defining(rest, name);
        assert(sites =~= rest.push(last));
        assert forall|q: Seq<char>|
            #![trigger paths_defining(sites, name).contains(q)]
            paths_defining(sites, name).contains(q) implies sites.contains((name, q)) by {
            if pr.contains(q) {
                let i = choose|i: int| 0 <= i < rest.len() && rest[i] == (name, q);
                assert(sites[i] == (name, q));
            } else {
                assert(q == last.1 && last.0 == name);
                assert(sites[sites.len() - 1] == (name, q));
            }
        }
    }
}

/// The paths of the sites compare as `Path`s exactly as they compare as
/// texts (as for paths listed from a directory, which are each spelled one
/// way).
pub open spec fn text_paths(sites: Seq<(Seq<char>, Seq<char>)>) -> bool {
    forall|i: int, j: int|
        0 <= i < sites.len() && 0 <= j < sites.len() ==> (paths_equal(
            #[trigger] sites[i].1,
            #[trigger] sites[j].1,
        ) <==> sites[i].1 == sites[j].1)
}

/// Where paths compare as texts, each path occurs once in `paths_defining`,
/// and exactly the paths of the sites of `name` occur there.
pub proof fn lemma_paths_defining(sites: Seq<(Seq<char>, Seq<char>)>, name: Seq<char>)
    requires
        text_paths(sites),
    ensures
        paths_defining(sites, name).no_duplicates(),
        forall|q: Seq<char>|
            #![trigger paths_defining(sites, name).contains(q)]
            paths_defining(sites, name).contains(q) <==> sites.contains((name, q)),
    decreases sites.len(),
{
    if sites.len() > 0 {
        let rest = sites.drop_last();
        assert forall|i: int, j: int|
            0 <= i < rest.len() && 0 <= j < rest.len() implies (paths_equal(
            #[trigger] rest[i].1,
            #[trigger] rest[j].1,
        ) <==> rest[i].1 == rest[j].1) by {
            assert(rest[i] == sites[i] && rest[j] == sites[j]);
        }
        lemma_paths_defining(rest, name);
        let last = sites.last();
        let pr = paths_defining(rest, name);
        assert(sites =~= rest.push(last));
        assert(has_equal_path(pr, last.1) <==> pr.contains(last.1)) by {
            if has_equal_path(pr, last.1) {
                let k = choose|k: int| 0 <= k < pr.len() && paths_equal(#[trigger] pr[k], last.1);
                assert(pr.contains(pr[k]));
                assert(rest.contains((name, pr[k])));
                let i = choose|i: int| 0 <= i < rest.len() && rest[i] == (name, pr[k]);
                assert(sites[i] == rest[i]);
                assert(paths_equal(sites[i].1, sites[sites.len() - 1].1));
            }
            if pr.contains(last.1) {
                let k = choose|k: int| 0 <= k < pr.len() && pr[k] == last.1;
                assert(rest.contains((name, pr[k])));
                let i = choose|i: int| 0 <= i < rest.len() && rest[i] == (name, pr[k]);
                assert(sites[i] == rest[i]);
                assert(sites[i].1 == sites[sites.len() - 1].1);
                assert(paths_equal(sites[i].1, sites[sites.len() - 1].1));
                assert(paths_equal(pr[k], last.1));
            }
        }
        assert forall|q: Seq<char>|
            #![trigger paths_defining(sites, name).contains(q)]
            paths_defining(sites, name).contains(q) <==> sites.contains((name, q)) by {
            if sites.contains((name, q)) {
                let i = choose|i: int| 0 <= i < sites.len() && sites[i] == (name, q);
                if i < sites.len() - 1 {
                    assert(rest[i] == (name, q));
                    assert(rest.contains((name, q)));
                    assert(pr.contains(q));
                    if last.0 == name && !pr.contains(last.1) {
                        let k = choose|k: int| 0 <= k < pr.len() && pr[k] == q;
                        assert(pr.push(last.1)[k] == q);
                    }
                } else {
                    if !pr.contains(last.1) {
                        assert(pr.push(last.1)[pr.len() as int] == q);
                    }
                }
            }
            if paths_defining(sites, name).contains(q) {
                if pr.contains(q) {
                    let i = choose|i: int| 0 <= i < rest.len() && rest[i] == (name, q);
                    assert(sites[i] == (name, q));
                } else {
                    assert(q == last.1 && last.0 == name);
                    assert(sites[sites.len() - 1] == (name, q));
                }
            }
        }
    }
}

/// The index of the first of `paths` that names the same file as `path`, or
/// the length of `paths` where none does.
fn position_of_path(paths: &Vec<String>, path: &str) -> (r: usize)
    ensures
        r <= paths@.len(),
        r < paths@.len() ==> paths_equal(paths.deep_view()[r as int], path@),
        forall|k: int| 0 <= k < r ==> !paths_equal(#[trigger] paths.deep_view()[k], path@),
{
    let mut p: usize = 0;
    while p < paths.len()
        invariant
            0 <= p <= paths@.len(),
            forall|k: int| 0 <= k < p ==> !paths_equal(#[trigger] paths.deep_view()[k], path@),
        decreases paths@.len() - p,
    {
        if same_path(paths[p].as_str(), path) {
            return p;
        }
        p = p + 1;
    }
    p
}

/// The names met so far and, for each, the paths of its files, agree with
/// the sites met so far.
spec fn seen_matches(
    names: Seq<Seq<char>>,
    lists: Seq<Seq<Seq<char>>>,
    sites: Seq<(Seq<char>, Seq<char>)>,
) -> bool {
    &&& names == names_in_order(sites)
    &&& lists.len() == names.len()
    &&& forall|i: int| 0 <= i < lists.len() ==> #[trigger] lists[i] == paths_defining(sites, names[i])
}

/// Records that `name` is defined in the file at `path`.
fn record_site(
    names: &mut Vec<String>,
    lists: &mut Vec<Vec<String>>,
    name: &str,
    path: &str,
    Ghost(sites): Ghost<Seq<(Seq<char>, Seq<char>)>>,
)
    requires
        seen_matches(old(names).deep_view(), old(lists).deep_view(), sites),
    ensures
        seen_matches(final(names).deep_view(), final(lists).deep_view(), sites.push((name@, path@))),
{
    let ghost longer = sites.push((name@, path@));
    proof {
        lemma_names_in_order(sites);
        assert(longer.drop_last() =~= sites);
        assert(longer.last() == (name@, path@));
    }
    let ghost old_names = names.deep_view();
    let ghost old_lists = lists.deep_view();
    let p = position_of(names, name);
    if p < names.len() {
        assert(old_names.contains(name@));
        assert(names_in_order(longer) == old_names);
        let mut list = lists.remove(p);
        let ghost before_list = list.deep_view();
        assert(before_list == old_lists[p as int]);
        let q = position_of_path(&list, path);
        assert(q < list@.len() ==> has_equal_path(before_list, path@));
        if q == list.len() {
            list.push(path.to_owned());
            assert(list.deep_view() =~= before_list.push(path@));
        }
        assert(list.deep_view() == paths_defining(longer, name@));
        lists.insert(p, list);
        assert forall|i: int| 0 <= i < lists.deep_view().len() implies #[trigger] lists.deep_view()[i]
            == paths_defining(longer, old_names[i]) by {
            if i != p {
                assert(lists.deep_view()[i] == old_lists[i]);
                assert(old_names[i] != name@) by {
                    assert(old_names.no_duplicates());
                }
            }
        }
    } else {
        assert(!old_names.contains(name@));
        assert(names_in_order(longer) == old_names.push(name@));
        proof {
            lemma_paths_defining_sound(sites, name@);
            assert forall|q: Seq<char>| !sites.contains((name@, q)) by {
                if sites.contains((name@, q)) {
                    assert(exists|f: Seq<char>| sites.contains((name@, f)));
                }
            }
            assert(paths_defining(sites, name@) =~= Seq::<Seq<char>>::empty()) by {
                if paths_defining(sites, name@).len() > 0 {
                    assert(paths_defining(sites, name@).contains(paths_defining(sites, name@)[0]));
                }
            }
        }
        names.push(name.to_owned());
        let ghost before_lists = lists.deep_view();
        let single = vec![path.to_owned()];
        assert(single.deep_view() =~= seq![path@]);
        lists.push(single);
        assert(lists.deep_view() =~= before_lists.push(seq![path@]));
        assert(names.deep_view() =~= old_names.push(name@));
        assert(paths_defining(longer, name@) =~= seq![path@]);
    }
}

proof fn lemma_name_sites_step(funcs: Seq<Json>, path: Seq<char>, ignored: Seq<Seq<char>>, j: int)
    requires
        0 <= j < funcs.len(),
    ensures
        name_sites(funcs.take(j + 1), path, ignored) == match counted_name(funcs[j], ignored) {
            Some(n) => name_sites(funcs.take(j), path, ignored).push((n, path)),
            None => name_sites(funcs.take(j), path, ignored),
        },
{
    assert(funcs.take(j + 1).drop_last() =~= funcs.take(j));
}

proof fn lemma_all_name_sites_step(files: Seq<FileAnalysis>, ignored: Seq<Seq<char>>, k: int)
    requires
        0 <= k < files.len(),
    ensures
        all_name_sites(files.take(k + 1), ignored) == all_name_sites(files.take(k), ignored)
            + name_sites(callables(files[k].data), files[k].path@, ignored),
{
    assert(files.take(k + 1).drop_last() =~= files.take(k));
}

proof fn lemma_duplicated_step(sites: Seq<(Seq<char>, Seq<char>)>, names: Seq<Seq<char>>, i: int)
    requires
        0 <= i < names.len(),
    ensures
        duplicated_names(sites, names.take(i + 1)) == if paths_defining(sites, names[i]).len()
            > 1 {
            duplicated_names(sites, names.take(i)).push(names[i])
        } else {
            duplicated_names(sites, names.take(i))
        },
{
    assert(names.take(i + 1).drop_last() =~= names.take(i));
}

/// The file names of the given paths, sorted.
fn sorted_file_names(paths: &Vec<String>) -> (r: Vec<String>)
    ensures
        name_sorted(r.deep_view()),
        r.deep_view().to_multiset() == file_names_of(paths.deep_view()).to_multiset(),
{
    let ghost ps = paths.deep_view();
    let mut out: Vec<String> = Vec::new();
    assert(out.deep_view() =~= Seq::<Seq<char>>::empty());
    assert(file_names_of(ps.take(0)) =~= Seq::<Seq<char>>::empty());
    let mut j: usize = 0;
    while j < paths.len()
        invariant
            0 <= j <= paths@.len(),
            ps == paths.deep_view(),
            name_sorted(out.deep_view()),
            out.deep_view().to_multiset() == file_names_of(ps.take(j as int)).to_multiset(),
        decreases paths@.len() - j,
    {
        let name = file_name_or_empty(paths[j].as_str());
        assert(file_names_of(ps.take(j + 1)) =~= file_names_of(ps.take(j as int)).push(name@));
        proof {
            vstd::seq_lib::to_multiset_build(file_names_of(ps.take(j as int)), name@);
        }
        insert_by_name(&mut out, name);
        j = j + 1;
    }
    assert(ps.take(paths@.len() as int) =~= ps);
    out
}

/// The names defined in the files of more than one path (as functions or
/// methods, and not among `config.ignored_names`), each with the file names
/// (last path components) of those files, one per path, sorted. The names
/// come in the order in which they first occur, file after file.
pub fn check(analyses: &[FileAnalysis], config: &DuplicateFunctionsConfig) -> (r: Vec<
    DuplicateViolation,
>)
    ensures
        duplicates_reported(
            all_name_sites(analyses@, config.ignored_names.deep_view()),
            r.deep_view(),
        ),
{
    let ghost ignored = config.ignored_names.deep_view();
    let mut names: Vec<String> = Vec::new();
    let mut lists: Vec<Vec<String>> = Vec::new();
    assert(analyses@.take(0) =~= Seq::<FileAnalysis>::empty());
    assert(names.deep_view() =~= Seq::<Seq<char>>::empty());
    assert(lists.deep_view() =~= Seq::<Seq<Seq<char>>>::empty());
    let mut k: usize = 0;
    while k < analyses.len()
        invariant
            0 <= k <= analyses@.len(),
            ignored == config.ignored_names.deep_view(),
            seen_matches(
                names.deep_view(),
                lists.deep_view(),
                all_name_sites(analyses@.take(k as int), ignored),
            ),
        decreases analyses@.len() - k,
    {
        let file = &analyses[k];
        let funcs = collect_callables(&file.data);
        let ghost before = all_name_sites(analyses@.take(k as int), ignored);
        assert(derefs(funcs@).take(0) =~= Seq::<Json>::empty());
        assert(before + name_sites(derefs(funcs@).take(0), file.path@, ignored) =~= before);
        let mut j: usize = 0;
        while j < funcs.len()
            invariant
                0 <= j <= funcs@.len(),
                ignored == config.ignored_names.deep_view(),
                seen_matches(
                    names.deep_view(),
                    lists.deep_view(),
                    before + name_sites(derefs(funcs@).take(j as int), file.path@, ignored),
                ),
            decreases funcs@.len() - j,
        {
            let ghost sites = before + name_sites(
                derefs(funcs@).take(j as int),
                file.path@,
                ignored,
            );
            proof {
                lemma_name_sites_step(derefs(funcs@), file.path@, ignored, j as int);
                assert(derefs(funcs@)[j as int] == *funcs@[j as int]);
            }
            match get_str(funcs[j], "name") {
                Some(name) => {
                    if !is_ignored(name, &config.ignored_names) {
                        record_site(&mut names, &mut lists, name, file.path.as_str(), Ghost(sites));
                        assert(before + name_sites(
                            derefs(funcs@).take(j + 1),
                            file.path@,
                            ignored,
                        ) =~= sites.push((name@, file.path@)));
                    }
                },
                None => {},
            }
            j = j + 1;
        }
        proof {
            assert(derefs(funcs@).take(funcs@.len() as int) =~= derefs(funcs@));
            lemma_all_name_sites_step(analyses@, ignored, k as int);
        }
        k = k + 1;
    }
    assert(analyses@.take(analyses@.len() as int) =~= analyses@);
    let ghost sites = all_name_sites(analyses@, ignored);
    let mut out: Vec<DuplicateViolation> = Vec::new();
    let mut i: usize = 0;
    assert(names.deep_view().take(0) =~= Seq::<Seq<char>>::empty());
    while i < names.len()
        invariant
            0 <= i <= names@.len(),
            seen_matches(names.deep_view(), lists.deep_view(), sites),
            ({
                let expected = duplicated_names(sites, names.deep_view().take(i as int));
                let got = out.deep_view();
                &&& got.len() == expected.len()
                &&& forall|q: int| 0 <= q < got.len() ==> (#[trigger] got[q]).function == expected[q]
                &&& forall|q: int|
                    0 <= q < got.len() ==> {
                        &&& name_sorted((#[trigger] got[q]).files)
                        &&& got[q].files.to_multiset() == file_names_of(
                            paths_defining(sites, got[q].function),
                        ).to_multiset()
                    }
            }),
        decreases names@.len() - i,
    {
        proof {
            lemma_duplicated_step(sites, names.deep_view(), i as int);
        }
        assert(lists.deep_view()[i as int] == lists@[i as int].deep_view());
        if lists[i].len() > 1 {
            let ghost before = out.deep_view();
            let function = names[i].clone();
            let files = sorted_file_names(&lists[i]);
            let v = DuplicateViolation { function, files };
            out.push(v);
            assert(out.deep_view() =~= before.push(v.deep_view()));
        }
        i = i + 1;
    }
    assert(names.deep_view().take(names@.len() as int) =~= names.deep_view());
    out
}

// ---------------------------------------------------------------------------
// Laws.

proof fn lemma_duplicated_names_contains(
    sites: Seq<(Seq<char>, Seq<char>)>,
    names: Seq<Seq<char>>,
    n: Seq<char>,
)
    ensures
        duplicated_names(sites, names).contains(n) <==> (names.contains(n) && paths_defining(
            sites,
            n,
        ).len() > 1),
    decreases names.len(),
{
    if names.len() > 0 {
        let rest = names.drop_last();
        lemma_duplicated_names_contains(sites, rest, n);
        assert(names =~= rest.push(names.last()));
        let d = duplicated_names(sites, rest);
        if names.contains(n) && paths_defining(sites, n).len() > 1 {
            let i = choose|i: int| 0 <= i < names.len() && names[i] == n;
            if i < names.len() - 1 {
                assert(rest[i] == n);
            } else if paths_defining(sites, names.last()).len() > 1 {
                assert(d.push(names.last())[d.len() as int] == n);
            }
        }
        if paths_defining(sites, names.last()).len() > 1 {
            if d.contains(n) {
                let i = choose|i: int| 0 <= i < d.len() && d[i] == n;
                assert(d.push(names.last())[i] == n);
            }
            if duplicated_names(sites, names).contains(n) && !d.contains(n) {
                assert(n == names.last());
            }
        }
        if rest.contains(n) {
            let i = choose|i: int| 0 <= i < rest.len() && rest[i] == n;
            assert(names[i] == n);
        }
    }
}

proof fn lemma_duplicated_names_no_duplicates(
    sites: Seq<(Seq<char>, Seq<char>)>,
    names: Seq<Seq<char>>,
)
    requires
        names.no_duplicates(),
    ensures
        duplicated_names(sites, names).no_duplicates(),
    decreases names.len(),
{
    if names.len() > 0 {
        let rest = names.drop_last();
        lemma_duplicated_names_no_duplicates(sites, rest);
        lemma_duplicated_names_contains(sites, rest, names.last());
        if rest.contains(names.last()) {
            let i = choose|i: int| 0 <= i < rest.len() && rest[i] == names.last();
            assert(names[i] == names[names.len() - 1]);
        }
    }
}

/// A name is reported exactly when the files that define it lie at more than
/// one path.
pub proof fn law_duplicates_exactly(sites: Seq<(Seq<char>, Seq<char>)>, n: Seq<char>)
    ensures
        duplicated_names(sites, names_in_order(sites)).contains(n) <==> paths_defining(
            sites,
            n,
        ).len() > 1,
{
    lemma_duplicated_names_contains(sites, names_in_order(sites), n);
    lemma_names_in_order(sites);
    lemma_paths_defining_sound(sites, n);
    if paths_defining(sites, n).len() > 1 {
        assert(paths_defining(sites, n).contains(paths_defining(sites, n)[0]));
        assert(sites.contains((n, paths_defining(sites, n)[0])));
        assert(names_in_order(sites).contains(n));
    }
}

proof fn lemma_name_sites_path(
    funcs: Seq<Json>,
    path: Seq<char>,
    ignored: Seq<Seq<char>>,
    n: Seq<char>,
    q: Seq<char>,
)
    ensures
        name_sites(funcs, path, ignored).contains((n, q)) ==> q == path && !ignored.contains(n),
    decreases funcs.len(),
{
    if funcs.len() > 0 {
        lemma_name_sites_path(funcs.drop_last(), path, ignored, n, q);
        let rest = name_sites(funcs.drop_last(), path, ignored);
        if let Some(m) = counted_name(funcs.last(), ignored) {
            if rest.push((m, path)).contains((n, q)) {
                let i = choose|i: int| 0 <= i < rest.len() + 1 && rest.push((m, path))[i] == (n, q);
                if i < rest.len() {
                    assert(rest[i] == (n, q));
                }
            }
        }
    }
}

/// The file `f` defines `n` (as a counted name).
pub open spec fn file_defines(f: FileAnalysis, n: Seq<char>, ignored: Seq<Seq<char>>) -> bool {
    name_sites(callables(f.data), f.path@, ignored).contains((n, f.path@))
}

/// A site of the project is a name that some analysed file defines, with
/// that file's path.
pub proof fn lemma_all_name_sites_contains(
    files: Seq<FileAnalysis>,
    ignored: Seq<Seq<char>>,
    n: Seq<char>,
    p: Seq<char>,
)
    ensures
        all_name_sites(files, ignored).contains((n, p)) <==> exists|k: int|
            0 <= k < files.len() && (#[trigger] files[k]).path@ == p && file_defines(
                files[k],
                n,
                ignored,
            ),
    decreases files.len(),
{
    if files.len() > 0 {
        let rest_files = files.drop_last();
        lemma_all_name_sites_contains(rest_files, ignored, n, p);
        let rest = all_name_sites(rest_files, ignored);
        let last = files.last();
        let tail = name_sites(callables(last.data), last.path@, ignored);
        let all = all_name_sites(files, ignored);
        lemma_name_sites_path(callables(last.data), last.path@, ignored, n, p);
        if all.contains((n, p)) {
            let i = choose|i: int| 0 <= i < all.len() && all[i] == (n, p);
            if i < rest.len() {
                assert(rest[i] == (n, p));
                let k = choose|k: int|
                    0 <= k < rest_files.len() && (#[trigger] rest_files[k]).path@ == p
                        && file_defines(rest_files[k], n, ignored);
                assert(files[k] == rest_files[k]);
            } else {
                assert(tail[i - rest.len()] == (n, p));
                assert(tail.contains((n, p)));
                assert(files[files.len() - 1] == last);
            }
        }
        if exists|k: int|
            0 <= k < files.len() && (#[trigger] files[k]).path@ == p && file_defines(
                files[k],
                n,
                ignored,
            ) {
            let k = choose|k: int|
                0 <= k < files.len() && (#[trigger] files[k]).path@ == p && file_defines(
                    files[k],
                    n,
                    ignored,
                );
            if k < files.len() - 1 {
                assert(rest_files[k] == files[k]);
                assert(rest.contains((n, p)));
                let i = choose|i: int| 0 <= i < rest.len() && rest[i] == (n, p);
                assert(all[i] == (n, p));
            } else {
                assert(tail.contains((n, p)));
                let i = choose|i: int| 0 <= i < tail.len() && tail[i] == (n, p);
                assert(all[rest.len() + i] == (n, p));
            }
        }
    }
}

/// A function or method with a text name that is not ignored adds that
/// name, at the file's path, to the sites of its file.
proof fn lemma_name_sites_contains(
    funcs: Seq<Json>,
    path: Seq<char>,
    ignored: Seq<Seq<char>>,
    i: int,
    n: Seq<char>,
)
    requires
        0 <= i < funcs.len(),
        field_str(funcs[i], "name"@) == Some(n),
        !ignored.contains(n),
    ensures
        name_sites(funcs, path, ignored).contains((n, path)),
    decreases funcs.len(),
{
    let rest = name_sites(funcs.drop_last(), path, ignored);
    if i < funcs.len() - 1 {
        assert(funcs.drop_last()[i] == funcs[i]);
        lemma_name_sites_contains(funcs.drop_last(), path, ignored, i, n);
        let k = choose|k: int| 0 <= k < rest.len() && rest[k] == (n, path);
        match counted_name(funcs.last(), ignored) {
            Some(m) => {
                assert(rest.push((m, path))[k] == (n, path));
            },
            None => {},
        }
    } else {
        assert(counted_name(funcs.last(), ignored) == Some(n));
        assert(rest.push((n, path))[rest.len() as int] == (n, path));
    }
}

/// A name that is not among the ignored names, and that the files at two
/// different paths define (each as a function or a method), is reported,
/// whatever the name looks like.
pub proof fn law_shared_name_reported(
    files: Seq<FileAnalysis>,
    ignored: Seq<Seq<char>>,
    r: Seq<DuplicateFinding>,
    n: Seq<char>,
    k1: int,
    i1: int,
    k2: int,
    i2: int,
)
    requires
        text_file_paths(files),
        duplicates_reported(all_name_sites(files, ignored), r),
        !ignored.contains(n),
        0 <= k1 < files.len(),
        0 <= k2 < files.len(),
        files[k1].path@ != files[k2].path@,
        0 <= i1 < callables(files[k1].data).len(),
        0 <= i2 < callables(files[k2].data).len(),
        field_str(callables(files[k1].data)[i1], "name"@) == Some(n),
        field_str(callables(files[k2].data)[i2], "name"@) == Some(n),
    ensures
        exists|k: int| 0 <= k < r.len() && (#[trigger] r[k]).function == n,
{
    let sites = all_name_sites(files, ignored);
    let p1 = files[k1].path@;
    let p2 = files[k2].path@;
    lemma_name_sites_contains(callables(files[k1].data), p1, ignored, i1, n);
    lemma_name_sites_contains(callables(files[k2].data), p2, ignored, i2, n);
    lemma_all_name_sites_contains(files, ignored, n, p1);
    lemma_all_name_sites_contains(files, ignored, n, p2);
    assert(sites.contains((n, p1)));
    assert(sites.contains((n, p2)));
    lemma_text_paths(files, ignored);
    lemma_paths_defining(sites, n);
    let pd = paths_defining(sites, n);
    assert(pd.contains(p1));
    assert(pd.contains(p2));
    let a = choose|a: int| 0 <= a < pd.len() && pd[a] == p1;
    let b = choose|b: int| 0 <= b < pd.len() && pd[b] == p2;
    assert(a != b);
    assert(pd.len() > 1);
    law_duplicates_exactly(sites, n);
    let expected = duplicated_names(sites, names_in_order(sites));
    assert(expected.contains(n));
    let k = choose|k: int| 0 <= k < expected.len() && expected[k] == n;
    assert(r[k].function == n);
}

/// No ignored name is ever reported: ignored names are not counted at all.
pub proof fn law_ignored_names_never_reported(
    files: Seq<FileAnalysis>,
    ignored: Seq<Seq<char>>,
    n: Seq<char>,
)
    requires
        ignored.contains(n),
    ensures
        paths_defining(all_name_sites(files, ignored), n).len() == 0,
        !duplicated_names(
            all_name_sites(files, ignored),
            names_in_order(all_name_sites(files, ignored)),
        ).contains(n),
{
    let sites = all_name_sites(files, ignored);
    lemma_paths_defining_sound(sites, n);
    if paths_defining(sites, n).len() > 0 {
        let q = paths_defining(sites, n)[0];
        assert(paths_defining(sites, n).contains(q));
        lemma_all_name_sites_contains(files, ignored, n, q);
        let k = choose|k: int|
            0 <= k < files.len() && (#[trigger] files[k]).path@ == q && file_defines(
                files[k],
                n,
                ignored,
            );
        lemma_name_sites_path(callables(files[k].data), files[k].path@, ignored, n, q);
    }
    law_duplicates_exactly(sites, n);
}

/// Two sequences without repeats that hold the same elements are
/// permutations of each other.
proof fn lemma_same_elements_multiset<A>(a: Seq<A>, b: Seq<A>)
    requires
        a.no_duplicates(),
        b.no_duplicates(),
        forall|x: A| a.contains(x) <==> b.contains(x),
    ensures
        a.to_multiset() == b.to_multiset(),
{
    broadcast use vstd::seq_lib::group_to_multiset_ensures;

    a.lemma_multiset_has_no_duplicates();
    b.lemma_multiset_has_no_duplicates();
    assert forall|x: A| a.to_multiset().count(x) == b.to_multiset().count(x) by {
        if a.contains(x) {
            assert(a.to_multiset().contains(x));
            assert(b.to_multiset().contains(x));
        }
    }
    assert(a.to_multiset() =~= b.to_multiset());
}

/// Permuted paths give permuted file names.
proof fn lemma_file_names_permuted(a: Seq<Seq<char>>, b: Seq<Seq<char>>)
    requires
        a.to_multiset() == b.to_multiset(),
    ensures
        file_names_of(a).to_multiset() == file_names_of(b).to_multiset(),
    decreases a.len(),
{
    broadcast use vstd::seq_lib::group_to_multiset_ensures;
    broadcast use vstd::multiset::group_multiset_axioms;

    vstd::seq_lib::to_multiset_len(a);
    vstd::seq_lib::to_multiset_len(b);
    if a.len() == 0 {
        assert(b.len() == 0);
        assert(file_names_of(a) =~= file_names_of(b));
    } else {
        let x = a.last();
        assert(a.contains(x)) by {
            assert(a[a.len() - 1] == x);
        }
        vstd::seq_lib::to_multiset_contains(a, x);
        vstd::seq_lib::to_multiset_contains(b, x);
        assert(b.contains(x));
        let i = choose|i: int| 0 <= i < b.len() && b[i] == x;
        let a2 = a.drop_last();
        let b2 = b.remove(i);
        assert(a.remove(a.len() - 1) =~= a2);
        assert(a2.to_multiset() == a.to_multiset().remove(x));
        assert(b2.to_multiset() == b.to_multiset().remove(x));
        lemma_file_names_permuted(a2, b2);
        let fa = file_names_of(a);
        let fb = file_names_of(b);
        let d = display_file_name(x);
        assert(fa =~= file_names_of(a2).push(d));
        assert(file_names_of(b2) =~= fb.remove(i));
        assert(fb[i] == d);
        assert(file_names_of(b2).to_multiset() == fb.to_multiset().remove(d));
        assert(fa.to_multiset() == file_names_of(a2).to_multiset().insert(d));
        assert(fb.contains(d));
        assert(fb.to_multiset().count(d) > 0);
        assert(fa.to_multiset() =~= fb.to_multiset());
    }
}

/// Two sorted lists with the same elements, repeats counted, are equal.
proof fn lemma_sorted_unique(a: Seq<Seq<char>>, b: Seq<Seq<char>>)
    requires
        name_sorted(a),
        name_sorted(b),
        a.to_multiset() == b.to_multiset(),
    ensures
        a == b,
    decreases a.len(),
{
    broadcast use vstd::seq_lib::group_to_multiset_ensures;
    broadcast use vstd::multiset::group_multiset_axioms;

    vstd::seq_lib::to_multiset_len(a);
    vstd::seq_lib::to_multiset_len(b);
    assert(a.len() == b.len());
    if a.len() > 0 {
        assert(a.contains(a[0]));
        assert(b.contains(b[0]));
        vstd::seq_lib::to_multiset_contains(a, a[0]);
        vstd::seq_lib::to_multiset_contains(b, a[0]);
        vstd::seq_lib::to_multiset_contains(a, b[0]);
        vstd::seq_lib::to_multiset_contains(b, b[0]);
        assert(b.contains(a[0]));
        assert(a.contains(b[0]));
        let j = choose|j: int| 0 <= j < b.len() && b[j] == a[0];
        let i = choose|i: int| 0 <= i < a.len() && a[i] == b[0];
        if j > 0 {
            assert(!text_lt(b[j], b[0]));
        }
        if i > 0 {
            assert(!text_lt(a[i], a[0]));
        }
        lemma_text_lt_irreflexive(a[0]);
        lemma_text_lt_total(a[0], b[0]);
        assert(a[0] == b[0]);
        assert(a.remove(0) =~= a.drop_first());
        assert(b.remove(0) =~= b.drop_first());
        assert(a.drop_first().to_multiset() == b.drop_first().to_multiset());
        lemma_sorted_unique(a.drop_first(), b.drop_first());
        assert forall|k: int| 0 <= k < a.len() implies a[k] == b[k] by {
            if k > 0 {
                assert(a[k] == a.drop_first()[k - 1]);
                assert(b[k] == b.drop_first()[k - 1]);
            }
        }
        assert(a =~= b);
    }
}

/// The paths of the analyses compare as `Path`s exactly as they compare as
/// texts: each file is spelled one way, as a directory listing gives it.
pub open spec fn text_file_paths(files: Seq<FileAnalysis>) -> bool {
    forall|i: int, j: int|
        0 <= i < files.len() && 0 <= j < files.len() ==> (paths_equal(
            #[trigger] files[i].path@,
            #[trigger] files[j].path@,
        ) <==> files[i].path@ == files[j].path@)
}

/// Where each file is spelled one way, the paths of the sites are too.
proof fn lemma_text_paths(files: Seq<FileAnalysis>, ignored: Seq<Seq<char>>)
    requires
        text_file_paths(files),
    ensures
        text_paths(all_name_sites(files, ignored)),
{
    let sites = all_name_sites(files, ignored);
    assert forall|i: int, j: int| 0 <= i < sites.len() && 0 <= j < sites.len() implies (paths_equal(
        #[trigger] sites[i].1,
        #[trigger] sites[j].1,
    ) <==> sites[i].1 == sites[j].1) by {
        assert(sites.contains(sites[i]));
        assert(sites.contains(sites[j]));
        lemma_all_name_sites_contains(files, ignored, sites[i].0, sites[i].1);
        lemma_all_name_sites_contains(files, ignored, sites[j].0, sites[j].1);
        let ki = choose|k: int|
            0 <= k < files.len() && (#[trigger] files[k]).path@ == sites[i].1 && file_defines(
                files[k],
                sites[i].0,
                ignored,
            );
        let kj = choose|k: int|
            0 <= k < files.len() && (#[trigger] files[k]).path@ == sites[j].1 && file_defines(
                files[k],
                sites[j].0,
                ignored,
            );
        assert(paths_equal(files[ki].path@, files[kj].path@) <==> files[ki].path@
            == files[kj].path@);
    }
}

/// The duplicate report does not depend on the order of the analyses: for
/// two orders of the same analyses, each file spelled one way, the reports
/// hold the same entries (each name with the same file list), only perhaps
/// in another order.
pub proof fn law_duplicates_order_free(
    a1: Seq<FileAnalysis>,
    a2: Seq<FileAnalysis>,
    ignored: Seq<Seq<char>>,
    r1: Seq<DuplicateFinding>,
    r2: Seq<DuplicateFinding>,
)
    requires
        a1.to_multiset() == a2.to_multiset(),
        text_file_paths(a1),
        text_file_paths(a2),
        duplicates_reported(all_name_sites(a1, ignored), r1),
        duplicates_reported(all_name_sites(a2, ignored), r2),
    ensures
        r1.to_multiset() == r2.to_multiset(),
{
    broadcast use vstd::seq_lib::group_to_multiset_ensures;

    let s1 = all_name_sites(a1, ignored);
    let s2 = all_name_sites(a2, ignored);
    lemma_text_paths(a1, ignored);
    lemma_text_paths(a2, ignored);
    assert forall|n: Seq<char>, p: Seq<char>| s1.contains((n, p)) <==> s2.contains((n, p)) by {
        lemma_all_name_sites_contains(a1, ignored, n, p);
        lemma_all_name_sites_contains(a2, ignored, n, p);
        if s1.contains((n, p)) {
            let k = choose|k: int|
                0 <= k < a1.len() && (#[trigger] a1[k]).path@ == p && file_defines(a1[k], n, ignored);
            assert(a1.contains(a1[k]));
            vstd::seq_lib::to_multiset_contains(a1, a1[k]);
            vstd::seq_lib::to_multiset_contains(a2, a1[k]);
            assert(a2.contains(a1[k]));
            let k2 = choose|k2: int| 0 <= k2 < a2.len() && a2[k2] == a1[k];
            assert(a2[k2].path@ == p && file_defines(a2[k2], n, ignored));
        }
        if s2.contains((n, p)) {
            let k = choose|k: int|
                0 <= k < a2.len() && (#[trigger] a2[k]).path@ == p && file_defines(a2[k], n, ignored);
            assert(a2.contains(a2[k]));
            vstd::seq_lib::to_multiset_contains(a1, a2[k]);
            vstd::seq_lib::to_multiset_contains(a2, a2[k]);
            assert(a1.contains(a2[k]));
            let k1 = choose|k1: int| 0 <= k1 < a1.len() && a1[k1] == a2[k];
            assert(a1[k1].path@ == p && file_defines(a1[k1], n, ignored));
        }
    }
    // For each name, both orders give the same paths, up to order.
    assert forall|n: Seq<char>|
        paths_defining(s1, n).to_multiset() == paths_defining(s2, n).to_multiset() by {
        lemma_paths_defining(s1, n);
        lemma_paths_defining(s2, n);
        assert forall|q: Seq<char>| paths_defining(s1, n).contains(q) <==> paths_defining(
            s2,
            n,
        ).contains(q) by {
            assert(s1.contains((n, q)) <==> s2.contains((n, q)));
        }
        lemma_same_elements_multiset(paths_defining(s1, n), paths_defining(s2, n));
    }
    let e1 = duplicated_names(s1, names_in_order(s1));
    let e2 = duplicated_names(s2, names_in_order(s2));
    // The entry of a name is the same in both reports.
    assert forall|k: int| 0 <= k < r1.len() implies r2.contains(#[trigger] r1[k]) by {
        let n = r1[k].function;
        assert(e1[k] == n);
        assert(e1.contains(n));
        law_duplicates_exactly(s1, n);
        law_duplicates_exactly(s2, n);
        assert(paths_defining(s1, n).len() == paths_defining(s2, n).len()) by {
            vstd::seq_lib::to_multiset_len(paths_defining(s1, n));
            vstd::seq_lib::to_multiset_len(paths_defining(s2, n));
        }
        assert(e2.contains(n));
        let k2 = choose|k2: int| 0 <= k2 < e2.len() && e2[k2] == n;
        assert(r2[k2].function == n);
        lemma_file_names_permuted(paths_defining(s1, n), paths_defining(s2, n));
        lemma_sorted_unique(r1[k].files, r2[k2].files);
        assert(r2[k2] == r1[k]);
    }
    assert forall|k: int| 0 <= k < r2.len() implies r1.contains(#[trigger] r2[k]) by {
        let n = r2[k].function;
        assert(e2[k] == n);
        assert(e2.contains(n));
        law_duplicates_exactly(s1, n);
        law_duplicates_exactly(s2, n);
        assert(paths_defining(s1, n).len() == paths_defining(s2, n).len()) by {
            vstd::seq_lib::to_multiset_len(paths_defining(s1, n));
            vstd::seq_lib::to_multiset_len(paths_defining(s2, n));
        }
        assert(e1.contains(n));
        let k1 = choose|k1: int| 0 <= k1 < e1.len() && e1[k1] == n;
        assert(r1[k1].function == n);
        lemma_file_names_permuted(paths_defining(s2, n), paths_defining(s1, n));
        lemma_sorted_unique(r2[k].files, r1[k1].files);
        assert(r1[k1] == r2[k]);
    }
    // Neither report repeats an entry, since no name comes twice.
    lemma_names_in_order(s1);
    lemma_names_in_order(s2);
    lemma_duplicated_names_no_duplicates(s1, names_in_order(s1));
    lemma_duplicated_names_no_duplicates(s2, names_in_order(s2));
    assert(r1.no_duplicates()) by {
        assert forall|i: int, j: int| 0 <= i < r1.len() && 0 <= j < r1.len() && i != j implies r1[i]
            != r1[j] by {
            assert(r1[i].function == e1[i] && r1[j].function == e1[j]);
        }
    }
    assert(r2.no_duplicates()) by {
        assert forall|i: int, j: int| 0 <= i < r2.len() && 0 <= j < r2.len() && i != j implies r2[i]
            != r2[j] by {
            assert(r2[i].function == e2[i] && r2[j].function == e2[j]);
        }
    }
    assert forall|x: DuplicateFinding| r1.contains(x) <==> r2.contains(x) by {
        if r1.contains(x) {
            let k = choose|k: int| 0 <= k < r1.len() && r1[k] == x;
            assert(r2.contains(r1[k]));
        }
        if r2.contains(x) {
            let k = choose|k: int| 0 <= k < r2.len() && r2[k] == x;
            assert(r1.contains(r2[k]));
        }
    }
    lemma_same_elements_multiset(r1, r2);
}

} // verus!
