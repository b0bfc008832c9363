use vstd::prelude::*;
use vstd::string::*;
use crate::rules::{
    classify_spec, clone_strings, get_folder_name, list_contains, lists_view, strings_view,
    uncategorized, RuleTable,
};
use crate::text::join_spec;
use crate::text::join_path;

verus! {

/// One immediate entry of the directory being organized, as a scan saw it.
pub struct DirEntry {
    pub name: String,
    pub is_dir: bool,
}

/// A file of the scan and the category it was assigned to.
pub struct Placement {
    pub file_name: String,
    pub category: String,
}

/// One rename: the file at `from` goes to `to`.
pub struct Move {
    pub from: String,
    pub to: String,
}

/// Index of the last `.` in `s`, or -1 when there is none.
pub open spec fn last_dot(s: Seq<char>) -> int
    decreases s.len(),
{
    if s.len() == 0 {
        -1
    } else if s.last() == '.' {
        s.len() - 1
    } else {
        last_dot(s.drop_last())
    }
}

/// The extension of a file name, leading `.` included: what follows the last
/// `.` when that dot is not the first character, else nothing. This is the
/// rule of `Path::extension`, with the separator kept.
pub open spec fn extension_spec(name: Seq<char>) -> Seq<char> {
    let d = last_dot(name);
    if d > 0 {
        name.subrange(d, name.len() as int)
    } else {
        seq![]
    }
}

/// The extension of `name` (see `extension_spec`).
pub fn extension_of(name: &str) -> (r: String)
    ensures
        r@ == extension_spec(name@),
{
    let n = name.unicode_len();
    let mut i: usize = n;
    assert(name@.subrange(0, n as int) =~= name@);
    while i > 0
        invariant
            i <= n,
            n == name@.len(),
            last_dot(name@) == last_dot(name@.subrange(0, i as int)),
        decreases i,
    {
        assert(name@.subrange(0, i as int).drop_last() =~= name@.subrange(0, i - 1));
        if name.get_char(i - 1) == '.' {
            if i - 1 > 0 {
                let r = name.substring_char(i - 1, n).to_owned();
                return r;
            } else {
                return String::new();
            }
        }
        i = i - 1;
    }
    String::new()
}

/// Category of a file name under the rules `names` / `exts`.
pub open spec fn category_of(name: Seq<char>, names: Seq<Seq<char>>, exts: Seq<Seq<Seq<char>>>) -> Seq<char> {
    classify_spec(extension_spec(name), names, exts)
}

/// The inventory of a scan: each entry that is not a directory, in scan
/// order, with the category its extension resolves to.
pub open spec fn placements_spec(
    entries: Seq<DirEntry>,
    names: Seq<Seq<char>>,
    exts: Seq<Seq<Seq<char>>>,
) -> Seq<(Seq<char>, Seq<char>)>
    decreases entries.len(),
{
    if entries.len() == 0 {
        seq![]
    } else {
        let rest = placements_spec(entries.drop_last(), names, exts);
        let e = entries.last();
        if e.is_dir {
            rest
        } else {
            rest.push((e.name@, category_of(e.name@, names, exts)))
        }
    }
}

pub open spec fn placements_view(p: Seq<Placement>) -> Seq<(Seq<char>, Seq<char>)> {
    p.map_values(|x: Placement| (x.file_name@, x.category@))
}

/// Classifies every entry of the scan that is not a directory and appends
/// it to `file_categories`; returns how many were classified.
pub fn categorize_files(
    file_categories: &mut Vec<Placement>,
    folder_names: &Vec<String>,
    file_extensions: &Vec<Vec<String>>,
    entries: &Vec<DirEntry>,
) -> (r: usize)
    requires
        file_extensions.len() <= folder_names.len(),
    ensures
        placements_view(final(file_categories)@) == placements_view(old(file_categories)@)
            + placements_spec(entries@, strings_view(folder_names@), lists_view(file_extensions@)),
        r == placements_spec(entries@, strings_view(folder_names@), lists_view(file_extensions@)).len(),
{
    let ghost names = strings_view(folder_names@);
    let ghost exts = lists_view(file_extensions@);
    let ghost start = placements_view(file_categories@);
    let mut count: usize = 0;
    let mut i: usize = 0;
    while i < entries.len()
        invariant
            i <= entries.len(),
            file_extensions.len() <= folder_names.len(),
            names == strings_view(folder_names@),
            exts == lists_view(file_extensions@),
            placements_view(file_categories@) =~= start + placements_spec(
                entries@.subrange(0, i as int),
                names,
                exts,
            ),
            count == placements_spec(entries@.subrange(0, i as int), names, exts).len(),
            count <= i,
        decreases entries.len() - i,
    {
        assert(entries@.subrange(0, i + 1).drop_last() =~= entries@.subrange(0, i as int));
        let e = &entries[i];
        if !e.is_dir {
            let ext = extension_of(e.name.as_str());
            let category = get_folder_name(ext.as_str(), folder_names, file_extensions);
            let ghost before = file_categories@;
            file_categories.push(Placement { file_name: e.name.clone(), category });
            assert(placements_view(file_categories@) =~= placements_view(before).push(
                (e.name@, category_of(e.name@, names, exts)),
            ));
            count = count + 1;
        }
        i = i + 1;
    }
    assert(entries@.subrange(0, i as int) =~= entries@);
    count
}

/// The category names with `Uncategorized` added at the end when absent.
pub open spec fn target_categories(names: Seq<Seq<char>>) -> Seq<Seq<char>> {
    if names.contains(uncategorized()) {
        names
    } else {
        names.push(uncategorized())
    }
}

pub open spec fn folder_paths(path: Seq<char>, names: Seq<Seq<char>>) -> Seq<Seq<char>> {
    names.map_values(|n: Seq<char>| join_spec(path, n))
}

/// The folder paths `path/name`, one for each name, in order.
pub fn create_folders(path: &str, folder_names: &Vec<String>) -> (r: Vec<String>)
    ensures
        strings_view(r@) == folder_paths(path@, strings_view(folder_names@)),
{
    let mut r: Vec<String> = Vec::new();
    let mut i: usize = 0;
    while i < folder_names.len()
        invariant
            i <= folder_names.len(),
            r@.len() == i,
            forall|k: int| 0 <= k < i ==> r@[k]@ == join_spec(path@, folder_names@[k]@),
        decreases folder_names.len() - i,
    {
        r.push(join_path(path, folder_names[i].as_str()));
        i = i + 1;
    }
    assert(strings_view(r@) =~= folder_paths(path@, strings_view(folder_names@)));
    r
}

/// The rename of one placed file: `path/file` to `path/category/file`.
pub open spec fn move_spec(path: Seq<char>, p: (Seq<char>, Seq<char>)) -> (Seq<char>, Seq<char>) {
    (join_spec(path, p.0), join_spec(join_spec(path, p.1), p.0))
}

pub open spec fn moves_view(m: Seq<Move>) -> Seq<(Seq<char>, Seq<char>)> {
    m.map_values(|x: Move| (x.from@, x.to@))
}

/// The renames that carry each placed file into its category folder, in
/// inventory order.
pub fn move_files_to_folders(categorized_files: &Vec<Placement>, path: &str) -> (r: Vec<Move>)
    ensures
        moves_view(r@) == placements_view(categorized_files@).map_values(
            |p: (Seq<char>, Seq<char>)| move_spec(path@, p),
        ),
{
    let mut r: Vec<Move> = Vec::new();
    let mut i: usize = 0;
    while i < categorized_files.len()
        invariant
            i <= categorized_files.len(),
            r@.len() == i,
            forall|k: int|
                0 <= k < i ==> (r@[k].from@, r@[k].to@) == move_spec(
                    path@,
                    (categorized_files@[k].file_name@, categorized_files@[k].category@),
                ),
        decreases categorized_files.len() - i,
    {
        let p = &categorized_files[i];
        let folder = join_path(path, p.category.as_str());
        let from = join_path(path, p.file_name.as_str());
        let to = join_path(folder.as_str(), p.file_name.as_str());
        r.push(Move { from, to });
        i = i + 1;
    }
    assert(moves_view(r@) =~= placements_view(categorized_files@).map_values(
        |p: (Seq<char>, Seq<char>)| move_spec(path@, p),
    ));
    r
}


/// The category names, with `Uncategorized` added when the table lacks it.
pub fn target_folder_names(rules: &RuleTable) -> (r: Vec<String>)
    requires
        rules.wf(),
    ensures
        strings_view(r@) == target_categories(rules.names_view()),
{
    let mut r = clone_strings(rules.folder_names());
    let u = "Uncategorized".to_owned();
    proof {
        reveal_strlit("Uncategorized");
        assert(u@ =~= uncategorized());
    }
    if !list_contains(&r, &u) {
        let ghost before = r@;
        r.push(u);
        assert(strings_view(r@) =~= strings_view(before).push(uncategorized()));
    }
    r
}

/// Scans `entries` once under `rules`: the renames that carry each file into
/// its category folder, and how many files the scan classified.
pub fn move_files_to_new_folders(path: &str, rules: &RuleTable, entries: &Vec<DirEntry>) -> (r: (
    Vec<Move>,
    usize,
))
    requires
        rules.wf(),
    ensures
        moves_view(r.0@) == placements_spec(entries@, rules.names_view(), rules.exts_view()).map_values(
            |p: (Seq<char>, Seq<char>)| move_spec(path@, p),
        ),
        r.1 == placements_spec(entries@, rules.names_view(), rules.exts_view()).len(),
{
    let mut inventory: Vec<Placement> = Vec::new();
    assert(placements_view(inventory@) =~= seq![]);
    let count = categorize_files(&mut inventory, rules.folder_names(), rules.file_extensions(), entries);
    assert(placements_view(inventory@) =~= placements_spec(entries@, rules.names_view(), rules.exts_view()));
    let moves = move_files_to_folders(&inventory, path);
    (moves, count)
}

/// What reorganizing a directory does: the folders to make (in order), the
/// renames to perform after that, and the number of files classified.
pub struct ReorganizePlan {
    pub folders: Vec<String>,
    pub moves: Vec<Move>,
    pub count: usize,
}

/// The plan for reorganizing the directory at `path`, whose immediate
/// entries are `entries`, under `rules`.
pub fn plan_reorganize(path: &str, rules: &RuleTable, entries: &Vec<DirEntry>) -> (r: ReorganizePlan)
    requires
        rules.wf(),
    ensures
        strings_view(r.folders@) == folder_paths(path@, target_categories(rules.names_view())),
        moves_view(r.moves@) == placements_spec(entries@, rules.names_view(), rules.exts_view()).map_values(
            |p: (Seq<char>, Seq<char>)| move_spec(path@, p),
        ),
        r.count == placements_spec(entries@, rules.names_view(), rules.exts_view()).len(),
{
    let names = target_folder_names(rules);
    let folders = create_folders(path, &names);
    let (moves, count) = move_files_to_new_folders(path, rules, entries);
    ReorganizePlan { folders, moves, count }
}

/// The names of the entries that are not directories, in scan order.
pub open spec fn file_names(entries: Seq<DirEntry>) -> Seq<Seq<char>> {
    entries.filter(|e: DirEntry| !e.is_dir).map_values(|e: DirEntry| e.name@)
}

proof fn lemma_classify_in_targets(ext: Seq<char>, names: Seq<Seq<char>>, exts: Seq<Seq<Seq<char>>>)
    requires
        exts.len() <= names.len(),
    ensures
        target_categories(names).contains(classify_spec(ext, names, exts)),
    decreases exts.len(),
{
    if exts.len() == 0 {
        if !names.contains(uncategorized()) {
            assert(names.push(uncategorized())[names.len() as int] == uncategorized());
        }
    } else if exts[0].contains(ext) {
        if !names.contains(uncategorized()) {
            assert(names.push(uncategorized())[0] == names[0]);
        }
        assert(names.contains(names[0]));
    } else {
        lemma_classify_in_targets(ext, names.drop_first(), exts.drop_first());
        let c = classify_spec(ext, names.drop_first(), exts.drop_first());
        if names.drop_first().contains(c) {
            let k = choose|k: int| 0 <= k < names.drop_first().len() && names.drop_first()[k] == c;
            assert(names[k + 1] == c);
            if !names.contains(uncategorized()) {
                assert(names.push(uncategorized())[k + 1] == c);
            }
        } else {
            assert(c == uncategorized()) by {
                if !names.drop_first().contains(uncategorized()) {
                    let t = names.drop_first().push(uncategorized());
                    let k = choose|k: int| 0 <= k < t.len() && t[k] == c;
                    if k < names.drop_first().len() {
                        assert(names.drop_first().contains(c));
                    }
                }
            }
            if names.contains(uncategorized()) {
            } else {
                assert(names.push(uncategorized())[names.len() as int] == uncategorized());
            }
        }
    }
}

proof fn lemma_placements_files(entries: Seq<DirEntry>, names: Seq<Seq<char>>, exts: Seq<Seq<Seq<char>>>)
    ensures
        placements_spec(entries, names, exts).map_values(|p: (Seq<char>, Seq<char>)| p.0)
            == file_names(entries),
        forall|k: int|
            0 <= k < placements_spec(entries, names, exts).len() ==> #[trigger] placements_spec(
                entries,
                names,
                exts,
            )[k].1 == category_of(placements_spec(entries, names, exts)[k].0, names, exts),
    decreases entries.len(),
{
    reveal_with_fuel(Seq::filter, 1);
    if entries.len() > 0 {
        lemma_placements_files(entries.drop_last(), names, exts);
        let pred = |e: DirEntry| !e.is_dir;
        let e = entries.last();
        let rest = placements_spec(entries.drop_last(), names, exts);
        let rest_files = entries.drop_last().filter(pred);
        assert(entries.filter(pred) == if pred(e) {
            rest_files.push(e)
        } else {
            rest_files
        });
        if !e.is_dir {
            assert(placements_spec(entries, names, exts) == rest.push(
                (e.name@, category_of(e.name@, names, exts)),
            ));
            assert(rest.push((e.name@, category_of(e.name@, names, exts))).map_values(
                |p: (Seq<char>, Seq<char>)| p.0,
            ) =~= rest.map_values(|p: (Seq<char>, Seq<char>)| p.0).push(e.name@));
            assert(rest_files.push(e).map_values(|x: DirEntry| x.name@) =~= rest_files.map_values(
                |x: DirEntry| x.name@,
            ).push(e.name@));
        }
    } else {
        assert(placements_spec(entries, names, exts).map_values(|p: (Seq<char>, Seq<char>)| p.0)
            =~= file_names(entries));
    }
}

/// Reorganizing counts each file of the scan once, and moves each file, in
/// scan order, from `path/f` into `path/c/f`, where `c` is the category of
/// `f` and the folder `path/c` is among those the plan creates first.
pub proof fn lemma_reorganize_places_every_file(
    path: Seq<char>,
    names: Seq<Seq<char>>,
    exts: Seq<Seq<Seq<char>>>,
    entries: Seq<DirEntry>,
)
    requires
        names.len() == exts.len(),
    ensures
        placements_spec(entries, names, exts).len() == file_names(entries).len(),
        forall|k: int|
            0 <= k < file_names(entries).len() ==> {
                let f = #[trigger] file_names(entries)[k];
                let c = category_of(f, names, exts);
                &&& placements_spec(entries, names, exts).map_values(
                    |p: (Seq<char>, Seq<char>)| move_spec(path, p),
                )[k] == (join_spec(path, f), join_spec(join_spec(path, c), f))
                &&& folder_paths(path, target_categories(names)).contains(join_spec(path, c))
            },
{
    lemma_placements_files(entries, names, exts);
    let ps = placements_spec(entries, names, exts);
    assert(ps.map_values(|p: (Seq<char>, Seq<char>)| p.0).len() == ps.len());
    assert forall|k: int| 0 <= k < file_names(entries).len() implies {
        let f = #[trigger] file_names(entries)[k];
        let c = category_of(f, names, exts);
        &&& ps.map_values(|p: (Seq<char>, Seq<char>)| move_spec(path, p))[k] == (
            join_spec(path, f),
            join_spec(join_spec(path, c), f),
        )
        &&& folder_paths(path, target_categories(names)).contains(join_spec(path, c))
    } by {
        let f = file_names(entries)[k];
        assert(ps.map_values(|p: (Seq<char>, Seq<char>)| p.0)[k] == f);
        assert(ps[k].1 == category_of(ps[k].0, names, exts));
        let c = category_of(f, names, exts);
        lemma_classify_in_targets(extension_spec(f), names, exts);
        let t = target_categories(names);
        let j = choose|j: int| 0 <= j < t.len() && t[j] == c;
        assert(folder_paths(path, t)[j] == join_spec(path, c));
    }
}

/// A scan that sees only folders, as a second run on a directory that was
/// just organized does, classifies nothing and moves nothing.
pub proof fn lemma_second_run_moves_nothing(
    names: Seq<Seq<char>>,
    exts: Seq<Seq<Seq<char>>>,
    entries: Seq<DirEntry>,
)
    requires
        forall|i: int| 0 <= i < entries.len() ==> (#[trigger] entries[i]).is_dir,
    ensures
        placements_spec(entries, names, exts) == Seq::<(Seq<char>, Seq<char>)>::empty(),
    decreases entries.len(),
{
    if entries.len() > 0 {
        assert(entries.last() == entries[entries.len() - 1]);
        lemma_second_run_moves_nothing(names, exts, entries.drop_last());
    }
}

} // verus!
