use vstd::prelude::*;
use vstd::string::*;
use crate::rules::strings_view;
use crate::text::push_char;

verus! {

/// Why a target path was refused.
#[derive(PartialEq, Eq, Structural, Debug, Clone, Copy)]
pub enum PathRejected {
    /// The path is the system's own installation folder.
    SystemRoot,
    /// The path lies under none of the file system roots.
    InvalidPath,
}

pub open spec fn drive_letters() -> Seq<char> {
    seq![
        'A', 'B', 'C', 'D', 'E', 'F', 'G', 'H', 'I', 'J', 'K', 'L', 'M',
        'N', 'O', 'P', 'Q', 'R', 'S', 'T', 'U', 'V', 'W', 'X', 'Y', 'Z',
    ]
}

/// The root of the drive with letter number `i` (0 is `A`): `X:\`.
pub open spec fn drive_root(i: int) -> Seq<char> {
    seq![drive_letters()[i], ':', '\\']
}

/// The roots of the drives whose entry in `present` is set, in letter order.
pub open spec fn drives_spec(present: Seq<bool>) -> Seq<Seq<char>>
    decreases present.len(),
{
    if present.len() == 0 {
        seq![]
    } else {
        let rest = drives_spec(present.drop_last());
        if present.last() {
            rest.push(drive_root(present.len() - 1))
        } else {
            rest
        }
    }
}

/// The roots `A:\` to `Z:\` of the drives that exist; `present[i]` tells
/// whether the drive with letter number `i` exists.
pub fn get_available_drives(present: &Vec<bool>) -> (r: Vec<String>)
    requires
        present.len() <= 26,
    ensures
        strings_view(r@) == drives_spec(present@),
{
    let letters = "ABCDEFGHIJKLMNOPQRSTUVWXYZ";
    proof {
        reveal_strlit("ABCDEFGHIJKLMNOPQRSTUVWXYZ");
        assert(letters@ =~= drive_letters());
    }
    let mut drives: Vec<String> = Vec::new();
    let mut i: usize = 0;
    while i < present.len()
        invariant
            i <= present.len() <= 26,
            letters@ == drive_letters(),
            strings_view(drives@) == drives_spec(present@.subrange(0, i as int)),
        decreases present.len() - i,
    {
        assert(present@.subrange(0, i + 1).drop_last() =~= present@.subrange(0, i as int));
        if present[i] {
            let mut root = String::new();
            push_char(&mut root, letters.get_char(i));
            root.append(":\\");
            proof {
                reveal_strlit(":\\");
            }
            assert(root@ =~= drive_root(i as int));
            let ghost before = drives@;
            drives.push(root);
            assert(strings_view(drives@) =~= strings_view(before).push(drive_root(i as int)));
        }
        i = i + 1;
    }
    assert(present@.subrange(0, i as int) =~= present@);
    drives
}

/// The roots a target path must lie under: the drives that exist where the
/// platform has drive letters; `None` where it has none to enumerate, and any
/// path is then taken as addressable.
pub fn filesystem_roots(drive_letters_used: bool, present: &Vec<bool>) -> (r: Option<Vec<String>>)
    requires
        present.len() <= 26,
    ensures
        drive_letters_used ==> r is Some && strings_view(r->Some_0@) == drives_spec(present@),
        !drive_letters_used ==> r is None,
{
    if drive_letters_used {
        Some(get_available_drives(present))
    } else {
        None
    }
}

/// What `str::to_lowercase` makes of a string.
pub uninterp spec fn lower_of(s: Seq<char>) -> Seq<char>;

/// Relies on `str::to_lowercase`: the lowercase form of the text, which
/// depends on the text alone.
#[verifier::external_body]
fn lowercase(s: &str) -> (r: String)
    ensures
        r@ == lower_of(s@),
{
    s.to_lowercase()
}

/// The lowercase form of the system's installation folder, `c:\windows`.
pub open spec fn system_root() -> Seq<char> {
    seq!['c', ':', '\\', 'w', 'i', 'n', 'd', 'o', 'w', 's']
}

/// Whether `s` begins with `prefix`.
pub open spec fn starts_with(s: Seq<char>, prefix: Seq<char>) -> bool {
    prefix.len() <= s.len() && s.subrange(0, prefix.len() as int) == prefix
}

/// Whether `s` begins with `prefix`.
pub fn has_prefix(s: &str, prefix: &str) -> (r: bool)
    ensures
        r == starts_with(s@, prefix@),
{
    let n = s.unicode_len();
    let m = prefix.unicode_len();
    if m > n {
        return false;
    }
    let mut i: usize = 0;
    while i < m
        invariant
            i <= m <= n,
            n == s@.len(),
            m == prefix@.len(),
            forall|k: int| 0 <= k < i ==> s@[k] == prefix@[k],
        decreases m - i,
    {
        if s.get_char(i) != prefix.get_char(i) {
            assert(s@.subrange(0, m as int)[i as int] != prefix@[i as int]);
            return false;
        }
        i = i + 1;
    }
    assert(s@.subrange(0, m as int) =~= prefix@);
    true
}

/// The decision on a path already in lowercase, given the lowercase roots
/// (`None`: no roots to check against).
pub open spec fn decide_spec(lower_path: Seq<char>, lower_roots: Option<Seq<Seq<char>>>) -> Result<(), PathRejected> {
    if lower_path == system_root() {
        Err(PathRejected::SystemRoot)
    } else if lower_roots is Some && !(exists|i: int|
        0 <= i < lower_roots->Some_0.len() && starts_with(lower_path, #[trigger] lower_roots->Some_0[i]))
    {
        Err(PathRejected::InvalidPath)
    } else {
        Ok(())
    }
}

/// Decides on a lowercase path against lowercase roots.
pub fn decide_lowered(lower_path: &str, lower_roots: &Option<Vec<String>>) -> (r: Result<(), PathRejected>)
    ensures
        r == decide_spec(lower_path@, match lower_roots {
            Some(v) => Some(strings_view(v@)),
            None => None,
        }),
{
    let sys = "c:\\windows";
    proof {
        reveal_strlit("c:\\windows");
        assert(sys@ =~= system_root());
    }
    if has_prefix(lower_path, sys) && has_prefix(sys, lower_path) {
        assert(lower_path@ =~= system_root());
        return Err(PathRejected::SystemRoot);
    }
    assert(lower_path@ != system_root()) by {
        if lower_path@ == system_root() {
            assert(lower_path@.subrange(0, sys@.len() as int) =~= sys@);
            assert(sys@.subrange(0, lower_path@.len() as int) =~= lower_path@);
        }
    }
    match lower_roots {
        None => Ok(()),
        Some(roots) => {
            let ghost rs = strings_view(roots@);
            let mut i: usize = 0;
            while i < roots.len()
                invariant
                    i <= roots.len(),
                    rs == strings_view(roots@),
                    *lower_roots == Some(*roots),
                    lower_path@ != system_root(),
                    forall|k: int| 0 <= k < i ==> !starts_with(lower_path@, rs[k]),
                decreases roots.len() - i,
            {
                if has_prefix(lower_path, roots[i].as_str()) {
                    let ghost opt: Option<Seq<Seq<char>>> = Some(rs);
                    assert(starts_with(lower_path@, opt->Some_0[i as int]));
                    return Ok(());
                }
                i = i + 1;
            }
            Err(PathRejected::InvalidPath)
        },
    }
}

pub open spec fn lowered_roots(roots: Option<Seq<Seq<char>>>) -> Option<Seq<Seq<char>>> {
    match roots {
        Some(v) => Some(v.map_values(|r: Seq<char>| lower_of(r))),
        None => None,
    }
}

/// Checks a target path before anything is touched: refused when it is, in
/// any case, the system's installation folder `C:\Windows`, or when it
/// begins, in any case, with none of `roots`; accepted otherwise.
pub fn validate_path(path: &str, roots: &Option<Vec<String>>) -> (r: Result<(), PathRejected>)
    ensures
        r == decide_spec(lower_of(path@), lowered_roots(match roots {
            Some(v) => Some(strings_view(v@)),
            None => None,
        })),
{
    let lower_path = lowercase(path);
    let lower_roots: Option<Vec<String>> = match roots {
        None => None,
        Some(v) => {
            let mut l: Vec<String> = Vec::new();
            let mut i: usize = 0;
            while i < v.len()
                invariant
                    i <= v.len(),
                    l@.len() == i,
                    forall|k: int| 0 <= k < i ==> l@[k]@ == lower_of(v@[k]@),
                decreases v.len() - i,
            {
                l.push(lowercase(v[i].as_str()));
                i = i + 1;
            }
            assert(strings_view(l@) =~= strings_view(v@).map_values(|r: Seq<char>| lower_of(r)));
            Some(l)
        },
    };
    decide_lowered(lower_path.as_str(), &lower_roots)
}

} // verus!
