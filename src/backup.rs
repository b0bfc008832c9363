use vstd::prelude::*;
use vstd::string::*;
use crate::clock::{stamp_spec, time_now, LocalTime};
use crate::archive::{build_archive, entry_limit, stored_archive, ArchiveError};
use crate::organize::{file_names, DirEntry};
use crate::rules::strings_view;
use crate::text::{join_path, join_spec};

verus! {

/// One file to archive: the entry name it gets and the path it is read from.
pub struct BackupMember {
    pub entry_name: String,
    pub source: String,
}

/// Where a backup goes and what it holds.
pub struct BackupPlan {
    /// The folder that holds the archives; made when absent.
    pub folder: String,
    /// The path of the archive to write.
    pub archive: String,
    /// The files to archive, in scan order.
    pub members: Vec<BackupMember>,
}

pub open spec fn backup_folder_spec(path: Seq<char>) -> Seq<char> {
    join_spec(path, "backup"@)
}

pub open spec fn archive_path_spec(path: Seq<char>, stamp: Seq<char>) -> Seq<char> {
    join_spec(backup_folder_spec(path), "backup-"@ + stamp + ".zip"@)
}

pub open spec fn members_spec(m: Seq<BackupMember>) -> Seq<(Seq<char>, Seq<char>)> {
    m.map_values(|x: BackupMember| (x.entry_name@, x.source@))
}

/// Each top-level file, named by its own name and read from `path/name`.
pub open spec fn backup_members_spec(path: Seq<char>, entries: Seq<DirEntry>) -> Seq<(Seq<char>, Seq<char>)> {
    file_names(entries).map_values(|f: Seq<char>| (f, join_spec(path, f)))
}

/// The backup of the directory at `path`, whose immediate entries are
/// `entries`, in an archive stamped `stamp`: every entry that is not a
/// folder becomes an archive entry under its bare name.
pub fn plan_backup(path: &str, stamp: &str, entries: &Vec<DirEntry>) -> (r: BackupPlan)
    ensures
        r.folder@ == backup_folder_spec(path@),
        r.archive@ == archive_path_spec(path@, stamp@),
        members_spec(r.members@) == backup_members_spec(path@, entries@),
{
    proof {
        reveal_strlit("backup");
        reveal_strlit("backup-");
        reveal_strlit(".zip");
    }
    let folder = join_path(path, "backup");
    let mut name = "backup-".to_owned();
    name.append(stamp);
    name.append(".zip");
    let archive = join_path(folder.as_str(), name.as_str());
    let mut members: Vec<BackupMember> = Vec::new();
    let ghost pred = |e: DirEntry| !e.is_dir;
    let mut i: usize = 0;
    while i < entries.len()
        invariant
            i <= entries.len(),
            pred == (|e: DirEntry| !e.is_dir),
            members_spec(members@) =~= entries@.subrange(0, i as int).filter(pred).map_values(
                |e: DirEntry| e.name@,
            ).map_values(|f: Seq<char>| (f, join_spec(path@, f))),
        decreases entries.len() - i,
    {
        proof {
            reveal_with_fuel(Seq::filter, 1);
            assert(entries@.subrange(0, i + 1).drop_last() =~= entries@.subrange(0, i as int));
        }
        let e = &entries[i];
        if !e.is_dir {
            let ghost before = members@;
            let source = join_path(path, e.name.as_str());
            members.push(BackupMember { entry_name: e.name.clone(), source });
            assert(members_spec(members@) =~= members_spec(before).push((e.name@, join_spec(path@, e.name@))));
        }
        i = i + 1;
    }
    assert(entries@.subrange(0, i as int) =~= entries@);
    BackupPlan { folder, archive, members }
}

/// The archive of a backup plan whose members' files hold `contents`, one
/// per member in order: each member becomes an entry under its bare name.
/// It is built whenever no file passes `entry_limit` bytes.
pub fn backup_archive(plan: &BackupPlan, contents: &Vec<Vec<u8>>) -> (r: Result<Vec<u8>, ArchiveError>)
    requires
        contents.len() == plan.members.len(),
    ensures
        (forall|i: int| 0 <= i < contents.len() ==> (#[trigger] contents@[i])@.len() <= entry_limit())
            ==> r is Ok,
        r is Ok ==> r->Ok_0@ == stored_archive(
            Seq::new(
                contents.len() as nat,
                |i: int| (plan.members@[i].entry_name@, contents@[i]@),
            ),
        ),
{
    let mut entries: Vec<(String, Vec<u8>)> = Vec::new();
    let mut i: usize = 0;
    while i < contents.len()
        invariant
            i <= contents.len() == plan.members.len(),
            entries@.len() == i,
            forall|k: int| 0 <= k < i ==> (#[trigger] entries@[k]).0@ == plan.members@[k].entry_name@,
            forall|k: int| 0 <= k < i ==> (#[trigger] entries@[k]).1@ == contents@[k]@,
        decreases contents.len() - i,
    {
        let data = crate::archive::clone_bytes(&contents[i]);
        let name = plan.members[i].entry_name.clone();
        let ghost before = entries@;
        entries.push((name, data));
        assert(entries@[i as int].0@ == plan.members@[i as int].entry_name@);
        assert(entries@[i as int].1@ == contents@[i as int]@);
        assert(forall|k: int| 0 <= k < i ==> entries@[k] == before[k]);
        i = i + 1;
    }
    let r = build_archive(&entries);
    assert(crate::archive::members_view(entries@) =~= Seq::new(
        contents.len() as nat,
        |i: int| (plan.members@[i].entry_name@, contents@[i]@),
    ));
    r
}

/// The backup of the directory at `path`, stamped with the local time now.
pub fn create_backup(path: &str, entries: &Vec<DirEntry>) -> (r: BackupPlan)
    ensures
        r.folder@ == backup_folder_spec(path@),
        exists|t: LocalTime| t.valid() && r.archive@ == archive_path_spec(path@, stamp_spec(t)),
        members_spec(r.members@) == backup_members_spec(path@, entries@),
{
    let stamp = time_now();
    plan_backup(path, stamp.as_str(), entries)
}

} // verus!
