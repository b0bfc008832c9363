use vstd::prelude::*;
use crate::rules::strings_view;
use crate::text::join_spec;

verus! {

/// Whether `p` lies strictly inside the folder `dir` (both relative paths
/// with `/` between components).
pub open spec fn is_under(p: Seq<char>, dir: Seq<char>) -> bool {
    &&& p.len() > dir.len() + 1
    &&& p.subrange(0, dir.len() + 1 as int) == dir + seq!['/']
}

/// Whether some file of `files` lies anywhere under `dir`.
pub open spec fn holds_file(dir: Seq<char>, files: Seq<Seq<char>>) -> bool {
    exists|i: int| 0 <= i < files.len() && is_under(#[trigger] files[i], dir)
}

/// The folders that pruning deletes: those with no file anywhere under
/// them, children before parents when `dirs` lists parents first.
pub open spec fn prune_spec(dirs: Seq<Seq<char>>, files: Seq<Seq<char>>) -> Seq<Seq<char>> {
    dirs.filter(|d: Seq<char>| !holds_file(d, files)).reverse()
}

/// Whether the path `p` lies strictly inside the folder `dir`.
pub fn starts_under(p: &String, dir: &String) -> (r: bool)
    ensures
        r == is_under(p@, dir@),
{
    let pn = p.as_str().unicode_len();
    let dn = dir.as_str().unicode_len();
    if pn <= dn || pn - dn <= 1 {
        return false;
    }
    let mut i: usize = 0;
    while i < dn
        invariant
            i <= dn,
            dn == dir@.len(),
            pn == p@.len(),
            pn > dn + 1,
            forall|k: int| 0 <= k < i ==> p@[k] == dir@[k],
        decreases dn - i,
    {
        if p.as_str().get_char(i) != dir.as_str().get_char(i) {
            assert(p@.subrange(0, dn + 1)[i as int] != (dir@ + seq!['/'])[i as int]);
            return false;
        }
        i = i + 1;
    }
    if p.as_str().get_char(dn) != '/' {
        assert(p@.subrange(0, dn + 1)[dn as int] != (dir@ + seq!['/'])[dn as int]);
        return false;
    }
    assert(p@.subrange(0, dn + 1) =~= dir@ + seq!['/']);
    true
}

/// Whether some file of `files` lies under `dir`.
pub fn has_file_under(dir: &String, files: &Vec<String>) -> (r: bool)
    ensures
        r == holds_file(dir@, strings_view(files@)),
{
    let mut i: usize = 0;
    while i < files.len()
        invariant
            i <= files.len(),
            forall|k: int| 0 <= k < i ==> !is_under(files@[k]@, dir@),
        decreases files.len() - i,
    {
        if starts_under(&files[i], dir) {
            assert(is_under(strings_view(files@)[i as int], dir@));
            return true;
        }
        i = i + 1;
    }
    assert(!holds_file(dir@, strings_view(files@))) by {
        if holds_file(dir@, strings_view(files@)) {
            let k = choose|k: int| 0 <= k < strings_view(files@).len() && is_under(#[trigger] strings_view(files@)[k], dir@);
            assert(!is_under(files@[k]@, dir@));
        }
    }
    false
}

/// The folders to delete, in order, given every folder (`dirs`) and every
/// file (`files`) under the pruned directory as relative paths, folders
/// listed parents first: a folder goes when no file lies anywhere under it,
/// so chains of folders left empty collapse, deepest first.
pub fn remove_empty_folders(dirs: &Vec<String>, files: &Vec<String>) -> (r: Vec<String>)
    ensures
        strings_view(r@) == prune_spec(strings_view(dirs@), strings_view(files@)),
{
    let ghost ds = strings_view(dirs@);
    let ghost fs = strings_view(files@);
    let ghost pred = |d: Seq<char>| !holds_file(d, fs);
    let mut r: Vec<String> = Vec::new();
    let mut i: usize = dirs.len();
    assert(ds.subrange(i as int, ds.len() as int) =~= seq![]);
    while i > 0
        invariant
            i <= dirs.len(),
            ds == strings_view(dirs@),
            fs == strings_view(files@),
            pred == (|d: Seq<char>| !holds_file(d, fs)),
            strings_view(r@) =~= ds.subrange(i as int, ds.len() as int).filter(pred).reverse(),
        decreases i,
    {
        let ghost tail = ds.subrange(i as int, ds.len() as int);
        let ghost tail2 = ds.subrange(i - 1, ds.len() as int);
        proof {
            lemma_filter_prepend(ds[i - 1], tail, pred);
            assert(tail2 =~= seq![ds[i - 1]] + tail);
        }
        if !has_file_under(&dirs[i - 1], files) {
            let ghost before = r@;
            r.push(dirs[i - 1].clone());
            assert(strings_view(r@) =~= strings_view(before).push(ds[i - 1]));
            proof {
                lemma_reverse_prepend(ds[i - 1], tail.filter(pred));
            }
        }
        i = i - 1;
    }
    assert(ds.subrange(0, ds.len() as int) =~= ds);
    r
}

proof fn lemma_reverse_contains(s: Seq<Seq<char>>, x: Seq<char>)
    ensures
        s.reverse().contains(x) <==> s.contains(x),
{
    if s.contains(x) {
        let i = choose|i: int| 0 <= i < s.len() && s[i] == x;
        assert(s.reverse()[s.len() - 1 - i] == x);
    }
    if s.reverse().contains(x) {
        let i = choose|i: int| 0 <= i < s.reverse().len() && s.reverse()[i] == x;
        assert(s[s.len() - 1 - i] == x);
    }
}

/// Pruning deletes a listed folder exactly when no file lies anywhere under
/// it: a chain `A/B/C` that holds no file goes whole, while `A` stays as
/// long as a file lies in it, directly or deeper.
pub proof fn lemma_prune_deletes_exactly_file_free(
    dirs: Seq<Seq<char>>,
    files: Seq<Seq<char>>,
    d: Seq<char>,
)
    requires
        dirs.contains(d),
    ensures
        prune_spec(dirs, files).contains(d) <==> !holds_file(d, files),
{
    let pred = |x: Seq<char>| !holds_file(x, files);
    let kept = dirs.filter(pred);
    lemma_reverse_contains(kept, d);
    if !holds_file(d, files) {
        let i = choose|i: int| 0 <= i < dirs.len() && dirs[i] == d;
        dirs.lemma_filter_contains(pred, i);
    }
    if kept.contains(d) {
        let i = choose|i: int| 0 <= i < kept.len() && kept[i] == d;
        dirs.lemma_filter_pred(pred, i);
    }
}

proof fn lemma_under_trans(f: Seq<char>, e: Seq<char>, d: Seq<char>)
    requires
        is_under(f, e),
        is_under(e, d),
    ensures
        is_under(f, d),
{
    assert forall|k: int| 0 <= k < d.len() + 1 implies f[k] == (d + seq!['/'])[k] by {
        assert(f.subrange(0, e.len() + 1 as int)[k] == (e + seq!['/'])[k]);
        assert(e.subrange(0, d.len() + 1 as int)[k] == (d + seq!['/'])[k]);
    }
    assert(f.subrange(0, d.len() + 1 as int) =~= d + seq!['/']);
}

/// What lies under a deleted folder is deleted too: pruning never keeps a
/// folder whose parent it removes.
pub proof fn lemma_prune_downward_closed(
    dirs: Seq<Seq<char>>,
    files: Seq<Seq<char>>,
    d: Seq<char>,
    e: Seq<char>,
)
    requires
        dirs.contains(d),
        dirs.contains(e),
        prune_spec(dirs, files).contains(d),
        is_under(e, d),
    ensures
        prune_spec(dirs, files).contains(e),
{
    lemma_prune_deletes_exactly_file_free(dirs, files, d);
    lemma_prune_deletes_exactly_file_free(dirs, files, e);
    if holds_file(e, files) {
        let i = choose|i: int| 0 <= i < files.len() && is_under(#[trigger] files[i], e);
        lemma_under_trans(files[i], e, d);
    }
}

/// Whether no folder of `dirs` comes before a folder that it lies in.
pub open spec fn parents_first(dirs: Seq<Seq<char>>) -> bool {
    forall|i: int, j: int| 0 <= i < j < dirs.len() ==> !is_under(#[trigger] dirs[i], #[trigger] dirs[j])
}

proof fn lemma_filter_keeps_parents_first(s: Seq<Seq<char>>, pred: spec_fn(Seq<char>) -> bool)
    requires
        parents_first(s),
    ensures
        parents_first(s.filter(pred)),
        forall|k: int| 0 <= k < s.filter(pred).len() ==> s.contains(#[trigger] s.filter(pred)[k]),
    decreases s.len(),
{
    reveal_with_fuel(Seq::filter, 1);
    if s.len() > 0 {
        let rest = s.drop_last();
        assert(parents_first(rest)) by {
            assert forall|i: int, j: int| 0 <= i < j < rest.len() implies !is_under(
                #[trigger] rest[i],
                #[trigger] rest[j],
            ) by {
                assert(rest[i] == s[i] && rest[j] == s[j]);
            }
        }
        lemma_filter_keeps_parents_first(rest, pred);
        let fr = rest.filter(pred);
        assert forall|k: int| 0 <= k < fr.len() implies s.contains(#[trigger] fr[k]) by {
            let i = choose|i: int| 0 <= i < rest.len() && rest[i] == fr[k];
            assert(s[i] == fr[k]);
        }
        if pred(s.last()) {
            let f = fr.push(s.last());
            assert(s.filter(pred) == f);
            assert forall|i: int, j: int| 0 <= i < j < f.len() implies !is_under(
                #[trigger] f[i],
                #[trigger] f[j],
            ) by {
                if j == f.len() - 1 {
                    let a = choose|a: int| 0 <= a < rest.len() && rest[a] == fr[i];
                    assert(s[a] == f[i]);
                    assert(s[s.len() - 1] == f[j]);
                } else {
                    assert(f[i] == fr[i] && f[j] == fr[j]);
                }
            }
            assert forall|k: int| 0 <= k < f.len() implies s.contains(#[trigger] f[k]) by {
                if k == f.len() - 1 {
                    assert(s[s.len() - 1] == f[k]);
                } else {
                    assert(f[k] == fr[k]);
                }
            }
        }
    }
}

/// When every folder is listed after the folders it lies in, as a walk from
/// the top lists them, pruning deletes each folder only after every deleted
/// folder under it.
pub proof fn lemma_prune_children_first(dirs: Seq<Seq<char>>, files: Seq<Seq<char>>, a: int, b: int)
    requires
        parents_first(dirs),
        0 <= a < b < prune_spec(dirs, files).len(),
    ensures
        !is_under(prune_spec(dirs, files)[b], prune_spec(dirs, files)[a]),
{
    let pred = |d: Seq<char>| !holds_file(d, files);
    let f = dirs.filter(pred);
    lemma_filter_keeps_parents_first(dirs, pred);
    let n = f.len();
    assert(prune_spec(dirs, files)[a] == f[n - 1 - a]);
    assert(prune_spec(dirs, files)[b] == f[n - 1 - b]);
    assert(!is_under(f[n - 1 - b], f[n - 1 - a]));
}

proof fn lemma_filter_prepend(x: Seq<char>, s: Seq<Seq<char>>, pred: spec_fn(Seq<char>) -> bool)
    ensures
        (seq![x] + s).filter(pred) == if pred(x) {
            seq![x] + s.filter(pred)
        } else {
            s.filter(pred)
        },
{
    reveal_with_fuel(Seq::filter, 2);
    Seq::filter_distributes_over_add(seq![x], s, pred);
    assert(seq![x].drop_last() =~= Seq::<Seq<char>>::empty());
    assert(Seq::<Seq<char>>::empty().filter(pred) =~= Seq::<Seq<char>>::empty());
    assert(seq![x].last() == x);
    if pred(x) {
        assert(seq![x].filter(pred) =~= seq![x]);
    } else {
        assert(seq![x].filter(pred) =~= Seq::<Seq<char>>::empty());
        assert(Seq::<Seq<char>>::empty() + s.filter(pred) =~= s.filter(pred));
    }
}

proof fn lemma_reverse_prepend(x: Seq<char>, s: Seq<Seq<char>>)
    ensures
        (seq![x] + s).reverse() == s.reverse().push(x),
{
    assert((seq![x] + s).reverse() =~= s.reverse().push(x));
}

} // verus!
