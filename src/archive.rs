use vstd::prelude::*;
use vstd::slice::*;
use crate::rules::strings_view;

verus! {

/// An archive being assembled: a zip writer over an in-memory buffer, whose
/// entries are `archive_entries` and which accepts more work while
/// `archive_open` holds.
#[verifier::external_body]
pub struct ArchiveWriter {
    inner: zip::ZipWriter<std::io::Cursor<Vec<u8>>>,
}

#[verifier::external_type_specification]
#[verifier::external_body]
pub struct ExZipError(zip::result::ZipError);

#[verifier::external_type_specification]
#[verifier::external_body]
pub struct ExIoError(std::io::Error);

/// The entries written so far into an archive writer, as `(name, data)`.
pub uninterp spec fn archive_entries(w: ArchiveWriter) -> Seq<(Seq<char>, Seq<u8>)>;

/// Whether the writer still accepts entries, data and finishing: it has been
/// neither finished nor closed by a refused write.
pub uninterp spec fn archive_open(w: ArchiveWriter) -> bool;

/// The largest entry, in bytes, that a writer takes without the large-file
/// option.
pub open spec fn entry_limit() -> nat {
    0xffff_ffff
}

/// Whether every entry's data stays within `entry_limit`.
pub open spec fn entries_fit(e: Seq<(Seq<char>, Seq<u8>)>) -> bool {
    forall|i: int| 0 <= i < e.len() ==> (#[trigger] e[i]).1.len() <= entry_limit()
}

/// The bytes of a finished archive whose entries are `entries`, each stored
/// uncompressed, with the fixed time stamp and permissions that the writer
/// gives when no clock is compiled in.
pub uninterp spec fn stored_archive(entries: Seq<(Seq<char>, Seq<u8>)>) -> Seq<u8>;

/// Relies on `zip::ZipWriter::new`: a new writer is open and holds no entry.
#[verifier::external_body]
fn new_archive() -> (w: ArchiveWriter)
    ensures
        archive_entries(w) == Seq::<(Seq<char>, Seq<u8>)>::empty(),
        archive_open(w),
{
    ArchiveWriter { inner: zip::ZipWriter::new(std::io::Cursor::new(Vec::new())) }
}

/// Relies on `zip::ZipWriter::start_file`: it succeeds on an open writer
/// whose entries fit (the entry before is closed off, its size checked);
/// then a new, empty entry with this name follows the others, stored
/// uncompressed, and the writer stays open.
#[verifier::external_body]
fn start_stored_entry(w: &mut ArchiveWriter, name: &str) -> (r: Result<(), zip::result::ZipError>)
    ensures
        archive_open(*old(w)) && entries_fit(archive_entries(*old(w))) ==> r is Ok,
        r is Ok ==> archive_entries(*final(w)) == archive_entries(*old(w)).push((name@, seq![])),
        r is Ok ==> archive_open(*final(w)),
{
    let options = zip::write::FileOptions::default().compression_method(
        zip::CompressionMethod::Stored,
    );
    w.inner.start_file(name, options)
}

/// Relies on `std::io::Write::write_all` of `zip::ZipWriter`: it succeeds on
/// an open writer while the entry's data stays within `entry_limit` (past
/// it the writer closes); on success the bytes are added to the data of the
/// entry last started and the writer stays as open or closed as it was (no
/// data at all is taken without a look at the writer).
#[verifier::external_body]
fn write_entry_data(w: &mut ArchiveWriter, data: &[u8]) -> (r: Result<(), std::io::Error>)
    requires
        archive_entries(*old(w)).len() > 0,
    ensures
        ({
            let e = archive_entries(*old(w));
            archive_open(*old(w)) && e[e.len() - 1].1.len() + data@.len() <= entry_limit()
        }) ==> r is Ok,
        r is Ok ==> archive_open(*final(w)) == archive_open(*old(w)),
        r is Ok ==> {
            let e = archive_entries(*old(w));
            let last = e[e.len() - 1];
            archive_entries(*final(w)) == e.update(e.len() - 1, (last.0, last.1 + data@))
        },
{
    std::io::Write::write_all(&mut w.inner, data)
}

/// Relies on `zip::ZipWriter::finish`: it succeeds on an open writer whose
/// entries fit, and the buffer then holds the whole archive of the entries
/// written.
#[verifier::external_body]
fn finish_archive(w: &mut ArchiveWriter) -> (r: Result<Vec<u8>, zip::result::ZipError>)
    ensures
        archive_open(*old(w)) && entries_fit(archive_entries(*old(w))) ==> r is Ok,
        r is Ok ==> r->Ok_0@ == stored_archive(archive_entries(*old(w))),
{
    w.inner.finish().map(|c| c.into_inner())
}

/// Why an archive could not be assembled.
#[derive(PartialEq, Eq, Structural, Debug, Clone, Copy)]
pub enum ArchiveError {
    /// The archive writer refused an entry or could not finish.
    Zip,
    /// Writing an entry's data failed.
    Io,
}

/// The library's error for an archive writer's error.
pub fn archive_error_from_zip(_e: zip::result::ZipError) -> (r: ArchiveError)
    ensures
        r == ArchiveError::Zip,
{
    ArchiveError::Zip
}

/// The library's error for a failed write into an entry.
pub fn archive_error_from_io(_e: std::io::Error) -> (r: ArchiveError)
    ensures
        r == ArchiveError::Io,
{
    ArchiveError::Io
}

pub open spec fn members_view(m: Seq<(String, Vec<u8>)>) -> Seq<(Seq<char>, Seq<u8>)> {
    m.map_values(|x: (String, Vec<u8>)| (x.0@, x.1@))
}

/// A copy of a byte buffer.
pub fn clone_bytes(v: &Vec<u8>) -> (r: Vec<u8>)
    ensures
        r@ == v@,
{
    let mut r: Vec<u8> = Vec::new();
    let mut i: usize = 0;
    while i < v.len()
        invariant
            i <= v.len(),
            r@ =~= v@.subrange(0, i as int),
        decreases v.len() - i,
    {
        r.push(v[i]);
        i = i + 1;
    }
    assert(v@.subrange(0, i as int) =~= v@);
    r
}

/// A zip archive holding one uncompressed entry per member, in order, named
/// by the member's name and holding its bytes; it is built whenever no
/// member's data passes `entry_limit`.
pub fn build_archive(members: &Vec<(String, Vec<u8>)>) -> (r: Result<Vec<u8>, ArchiveError>)
    ensures
        entries_fit(members_view(members@)) ==> r is Ok,
        r is Ok ==> r->Ok_0@ == stored_archive(members_view(members@)),
{
    let mut w = new_archive();
    let mut i: usize = 0;
    while i < members.len()
        invariant
            i <= members.len(),
            archive_entries(w) =~= members_view(members@.subrange(0, i as int)),
            entries_fit(members_view(members@)) ==> archive_open(w),
        decreases members.len() - i,
    {
        let ghost before = archive_entries(w);
        proof {
            if entries_fit(members_view(members@)) {
                assert forall|k: int| 0 <= k < before.len() implies (#[trigger] before[k]).1.len()
                    <= entry_limit() by {
                    assert(before[k] == members_view(members@)[k]);
                }
                assert(members_view(members@)[i as int].1.len() <= entry_limit());
            }
        }
        match start_stored_entry(&mut w, members[i].0.as_str()) {
            Err(e) => {
                return Err(archive_error_from_zip(e));
            },
            Ok(()) => {},
        }
        match write_entry_data(&mut w, members[i].1.as_slice()) {
            Err(e) => {
                return Err(archive_error_from_io(e));
            },
            Ok(()) => {},
        }
        assert(archive_entries(w) =~= before.push((members@[i as int].0@, members@[i as int].1@)));
        i = i + 1;
        assert(members_view(members@.subrange(0, i as int)) =~= members_view(
            members@.subrange(0, i - 1),
        ).push((members@[i - 1].0@, members@[i - 1].1@)));
    }
    assert(members@.subrange(0, i as int) =~= members@);
    assert(archive_entries(w) == members_view(members@));
    match finish_archive(&mut w) {
        Err(e) => Err(archive_error_from_zip(e)),
        Ok(bytes) => Ok(bytes),
    }
}

} // verus!
