//! The logs of a workflow run, as GitHub hands them out: a zip archive with one text file
//! per job step.
use std::io::{Cursor, Read};

use vstd::prelude::*;

use crate::ci_provider::util::{JobLog, sorted_by_time, sort_logs_by_timestamp, text_time};

verus! {

#[verifier::external_type_specification]
#[verifier::external_body]
#[verifier::reject_recursive_types(R)]
pub struct ExZipArchive<R>(zip::ZipArchive<R>);

#[verifier::external_type_specification]
#[verifier::external_body]
pub struct ExZipError(zip::result::ZipError);

#[verifier::external_type_specification]
#[verifier::external_body]
pub struct ExInvalidPassword(zip::result::InvalidPassword);

#[verifier::external_type_specification]
#[verifier::external_body]
#[verifier::reject_recursive_types(T)]
pub struct ExCursor<T>(std::io::Cursor<T>);

/// The bytes that an opened archive reads its entries from.
pub uninterp spec fn zip_archive_source(archive: zip::ZipArchive<Cursor<Vec<u8>>>) -> Seq<u8>;

/// The central directory of the zip archive held in `archive_bytes`: the name and the
/// uncompressed size of each entry, in directory order; `None` where
/// `zip::ZipArchive::new` refuses the bytes.
pub uninterp spec fn zip_directory(archive_bytes: Seq<u8>) -> Option<Seq<(Seq<char>, u64)>>;

/// Whether `zip::ZipArchive::by_index_decrypt` opens entry `index` of the archive held in
/// `archive_bytes` with `password` (the entry exists, its local header is sound, its
/// compression is supported, and it is either not encrypted, the password being then
/// unused, or the password passes the check of its encryption).
pub uninterp spec fn zip_entry_opens(archive_bytes: Seq<u8>, index: int, password: Seq<u8>) -> bool;

/// The offset in `archive_bytes` of the central header of entry `index`, as
/// `zip::ZipArchive::by_index_raw` and `ZipFile::central_header_start` give it; `None` where
/// `by_index_raw` refuses the entry (it does not exist, or its local header is not sound).
pub uninterp spec fn zip_entry_central_header_start(archive_bytes: Seq<u8>, index: int) -> Option<
    u64,
>;

/// The text that `Read::read_to_string` reads from entry `index` of the archive held in
/// `archive_bytes`, opened with `password`, once decompressed; `None` where that read
/// fails (the data cannot be decompressed, its checksum does not match, or it is not
/// UTF-8).
pub uninterp spec fn zip_entry_text(archive_bytes: Seq<u8>, index: int, password: Seq<u8>) -> Option<
    Seq<char>,
>;

/// Opens the zip archive held in `archive_bytes` (copied into a `Cursor`) with
/// `zip::ZipArchive::new`, which reads its central directory. Claimed: it succeeds exactly
/// when the directory can be read, and the archive then reads from those bytes.
#[verifier::external_body]
fn open_zip_archive(archive_bytes: &[u8]) -> (r: Result<
    zip::ZipArchive<Cursor<Vec<u8>>>,
    zip::result::ZipError,
>)
    ensures
        r is Ok <==> zip_directory(archive_bytes@) is Some,
        r matches Ok(archive) ==> zip_archive_source(archive) == archive_bytes@,
{
    zip::ZipArchive::new(Cursor::new(archive_bytes.to_vec()))
}

/// The number of entries of an opened archive, from `zip::ZipArchive::len`. Claimed: the
/// length of its central directory.
#[verifier::external_body]
fn zip_archive_len(archive: &zip::ZipArchive<Cursor<Vec<u8>>>) -> (n: usize)
    ensures
        zip_directory(zip_archive_source(*archive)) matches Some(entries) ==> n == entries.len(),
{
    archive.len()
}

/// Opens entry `index` with `zip::ZipArchive::by_index_raw` (without decompressing it) and
/// gives `ZipFile::central_header_start`: the offset of the entry's central header in the
/// archive's bytes. Claimed: it succeeds exactly where the name says, with that offset,
/// and the archive keeps reading from the same bytes.
#[verifier::external_body]
fn zip_entry_header_start(archive: &mut zip::ZipArchive<Cursor<Vec<u8>>>, index: usize) -> (r:
    Result<u64, zip::result::ZipError>)
    ensures
        zip_archive_source(*final(archive)) == zip_archive_source(*old(archive)),
        r is Ok <==> zip_entry_central_header_start(zip_archive_source(*old(archive)), index as int)
            is Some,
        r matches Ok(start) ==> zip_entry_central_header_start(
            zip_archive_source(*old(archive)),
            index as int,
        ) == Some(start),
{
    match archive.by_index_raw(index) {
        Ok(file) => Ok(file.central_header_start()),
        Err(e) => Err(e),
    }
}

/// Opens entry `index` with `zip::ZipArchive::by_index_decrypt` and gives its name and
/// its uncompressed size (`ZipFile::name`, `ZipFile::size`); the inner error is the
/// crate's `InvalidPassword`. Claimed: it gives a header exactly when the entry opens, the
/// name and size are those of the central directory, and the archive keeps reading from
/// the same bytes.
#[verifier::external_body]
fn zip_entry_header(
    archive: &mut zip::ZipArchive<Cursor<Vec<u8>>>,
    index: usize,
    password: &[u8],
) -> (r: Result<Result<(String, u64), zip::result::InvalidPassword>, zip::result::ZipError>)
    ensures
        zip_archive_source(*final(archive)) == zip_archive_source(*old(archive)),
        (r matches Ok(Ok(_))) <==> zip_entry_opens(
            zip_archive_source(*old(archive)),
            index as int,
            password@,
        ),
        r matches Ok(Ok(header)) ==> (zip_directory(zip_archive_source(*old(archive))) matches Some(
            entries,
        ) ==> (index < entries.len() ==> header.0@ == entries[index as int].0 && header.1
            == entries[index as int].1)),
{
    match archive.by_index_decrypt(index, password) {
        Ok(Ok(file)) => Ok(Ok((file.name().to_string(), file.size()))),
        Ok(Err(e)) => Ok(Err(e)),
        Err(e) => Err(e),
    }
}

/// Opens entry `index` with `zip::ZipArchive::by_index_decrypt` and reads it whole with
/// `Read::read_to_string`. Claimed: it gives a text exactly when the entry opens and its
/// text can be read, that text, and the archive keeps reading from the same bytes.
#[verifier::external_body]
fn read_zip_entry_text(
    archive: &mut zip::ZipArchive<Cursor<Vec<u8>>>,
    index: usize,
    password: &[u8],
) -> (r: Result<Result<String, zip::result::InvalidPassword>, zip::result::ZipError>)
    ensures
        zip_archive_source(*final(archive)) == zip_archive_source(*old(archive)),
        (r matches Ok(Ok(_))) <==> zip_entry_opens(
            zip_archive_source(*old(archive)),
            index as int,
            password@,
        ) && zip_entry_text(zip_archive_source(*old(archive)), index as int, password@) is Some,
        r matches Ok(Ok(text)) ==> text@ == zip_entry_text(
            zip_archive_source(*old(archive)),
            index as int,
            password@,
        )->Some_0,
{
    let mut file = match archive.by_index_decrypt(index, password)? {
        Ok(file) => file,
        Err(e) => return Ok(Err(e)),
    };
    let mut text = String::new();
    file.read_to_string(&mut text)?;
    Ok(Ok(text))
}

/// Why the logs of a run could not be taken from its log archive.
#[derive(Debug, Clone, Copy, PartialEq, Eq, Structural)]
pub enum LogArchiveError {
    /// The archive's central directory cannot be read.
    UnreadableArchive,
    /// An entry cannot be opened, or a non-empty one cannot be read as text.
    UnreadableEntry,
    /// A log holds no timestamp that can be read.
    MissingTimestamp,
}

/// Entry `index` of the archive held in `archive_bytes` has a central header whose
/// encryption flag (bit 0 of its flag byte, 8 bytes in) is clear.
pub open spec fn entry_not_encrypted(archive_bytes: Seq<u8>, index: int) -> bool {
    match zip_entry_central_header_start(archive_bytes, index) {
        Some(start) => start + 8 < archive_bytes.len() && archive_bytes[start + 8] % 2 == 0,
        None => false,
    }
}

/// The name and text of each non-empty entry among the first `n` of `entries` (the central
/// directory of the archive held in `archive_bytes`), in directory order; `None` where one of
/// those entries cannot be opened, or a non-empty one cannot be read as text. An entry is
/// opened only where its encryption flag (bit 0 of the flag byte 8 bytes into its central
/// header) is clear; it is then opened with an empty password, which goes unused.
pub open spec fn archive_logs(archive_bytes: Seq<u8>, entries: Seq<(Seq<char>, u64)>, n: nat) -> Option<
    Seq<(Seq<char>, Seq<char>)>,
>
    decreases n,
{
    if n == 0 {
        Some(Seq::empty())
    } else {
        let i = n - 1;
        match archive_logs(archive_bytes, entries, (n - 1) as nat) {
            None => None,
            Some(prev) => if !entry_not_encrypted(archive_bytes, i) || !zip_entry_opens(
                archive_bytes,
                i,
                Seq::empty(),
            ) {
                None
            } else if entries[i].1 == 0 {
                Some(prev)
            } else {
                match zip_entry_text(archive_bytes, i, Seq::empty()) {
                    None => None,
                    Some(text) => Some(prev.push((entries[i].0, text))),
                }
            },
        }
    }
}

/// The name and text of each log.
pub open spec fn log_pairs(logs: Seq<JobLog>) -> Seq<(Seq<char>, Seq<char>)> {
    logs.map_values(|log: JobLog| (log.name@, log.content@))
}

proof fn lemma_archive_logs_fail(
    archive_bytes: Seq<u8>,
    entries: Seq<(Seq<char>, u64)>,
    k: nat,
    n: nat,
)
    requires
        k <= n,
        archive_logs(archive_bytes, entries, k) is None,
    ensures
        archive_logs(archive_bytes, entries, n) is None,
    decreases n - k,
{
    if k < n {
        lemma_archive_logs_fail(archive_bytes, entries, k + 1, n);
    }
}

proof fn lemma_map_values_to_multiset<A, B>(s1: Seq<A>, s2: Seq<A>, f: spec_fn(A) -> B)
    requires
        s1.to_multiset() == s2.to_multiset(),
    ensures
        s1.map_values(f).to_multiset() == s2.map_values(f).to_multiset(),
    decreases s1.len(),
{
    broadcast use vstd::seq_lib::group_to_multiset_ensures, vstd::multiset::group_multiset_axioms;

    if s1.len() == 0 {
        assert(s2.len() == 0) by {
            assert(s2.to_multiset().len() == 0);
        }
        assert(s1.map_values(f) =~= s2.map_values(f));
    } else {
        let x = s1.last();
        let s1p = s1.drop_last();
        assert(s1p.push(x) =~= s1);
        assert(s2.to_multiset().count(x) > 0);
        assert(s2.contains(x));
        let k = choose|k: int| 0 <= k < s2.len() && s2[k] == x;
        let s2p = s2.remove(k);
        assert(s2p.to_multiset() =~= s2.to_multiset().remove(x));
        assert(s1p.to_multiset() =~= s1.to_multiset().remove(x));
        lemma_map_values_to_multiset(s1p, s2p, f);
        let m1 = s1.map_values(f);
        let m2 = s2.map_values(f);
        assert(s1p.map_values(f).push(f(x)) =~= m1);
        assert(m2.remove(k) =~= s2p.map_values(f));
        assert(m2[k] == f(x));
        assert(m2.remove(k).to_multiset() =~= m2.to_multiset().remove(f(x)));
        assert(m2.to_multiset().count(f(x)) > 0) by {
            assert(m2.contains(f(x)));
        }
        assert(m1.to_multiset() =~= m2.to_multiset());
    }
}

/// The logs of a workflow run from its log archive (`archive_bytes`): one log per non-empty
/// entry, named like the entry and holding its text, ordered by the first timestamp in each
/// (no order is promised among logs with the same instant).
/// - `UnreadableArchive` where the archive's central directory cannot be read;
/// - `UnreadableEntry` where an entry is encrypted or cannot be opened, or a non-empty one
///   cannot be read as text;
/// - `MissingTimestamp` where the entries give two logs or more and one of them holds no
///   readable timestamp (a single log is kept as it is).
pub fn job_logs_from_log_archive(archive_bytes: Vec<u8>) -> (r: Result<
    Vec<JobLog>,
    LogArchiveError,
>)
    ensures
        zip_directory(archive_bytes@) is None ==> r == Err::<Vec<JobLog>, LogArchiveError>(
            LogArchiveError::UnreadableArchive,
        ),
        zip_directory(archive_bytes@) matches Some(entries) ==> match archive_logs(
            archive_bytes@,
            entries,
            entries.len(),
        ) {
            None => r == Err::<Vec<JobLog>, LogArchiveError>(LogArchiveError::UnreadableEntry),
            Some(extracted) => {
                &&& (r is Ok <==> extracted.len() <= 1 || forall|i: int|
                    0 <= i < extracted.len() ==> (#[trigger] text_time(extracted[i].1)) is Some)
                &&& r is Err ==> r == Err::<Vec<JobLog>, LogArchiveError>(
                    LogArchiveError::MissingTimestamp,
                )
                &&& r matches Ok(logs) ==> {
                    &&& log_pairs(logs@).to_multiset() == extracted.to_multiset()
                    &&& extracted.len() >= 2 ==> sorted_by_time(logs@)
                    &&& extracted.len() <= 1 ==> log_pairs(logs@) == extracted
                }
            },
        },
{
    let ghost bytes = archive_bytes@;
    let mut archive = match open_zip_archive(archive_bytes.as_slice()) {
        Ok(archive) => archive,
        Err(_) => {
            return Err(LogArchiveError::UnreadableArchive);
        },
    };
    let ghost entries = zip_directory(bytes)->Some_0;
    let n = zip_archive_len(&archive);
    let no_password: Vec<u8> = Vec::new();
    let mut logs: Vec<JobLog> = Vec::new();
    let mut i: usize = 0;
    while i < n
        invariant
            bytes == archive_bytes@,
            zip_archive_source(archive) == bytes,
            zip_directory(bytes) == Some(entries),
            n == entries.len(),
            no_password@ == Seq::<u8>::empty(),
            i <= n,
            archive_logs(bytes, entries, i as nat) == Some(log_pairs(logs@)),
        decreases n - i,
    {
        let not_encrypted = match zip_entry_header_start(&mut archive, i) {
            Ok(start) => start < archive_bytes.len() as u64 && archive_bytes.len() as u64 - start
                > 8 && archive_bytes[(start + 8) as usize] % 2 == 0,
            Err(_) => false,
        };
        if !not_encrypted {
            proof {
                lemma_archive_logs_fail(bytes, entries, (i + 1) as nat, n as nat);
            }
            return Err(LogArchiveError::UnreadableEntry);
        }
        let header = zip_entry_header(&mut archive, i, no_password.as_slice());
        let (name, size) = match header {
            Ok(Ok(header)) => header,
            _ => {
                proof {
                    lemma_archive_logs_fail(bytes, entries, (i + 1) as nat, n as nat);
                }
                return Err(LogArchiveError::UnreadableEntry);
            },
        };
        if size != 0 {
            let text = match read_zip_entry_text(&mut archive, i, no_password.as_slice()) {
                Ok(Ok(text)) => text,
                _ => {
                    proof {
                        lemma_archive_logs_fail(bytes, entries, (i + 1) as nat, n as nat);
                    }
                    return Err(LogArchiveError::UnreadableEntry);
                },
            };
            let ghost before = logs@;
            logs.push(JobLog::new(name, text));
            assert(log_pairs(logs@) =~= log_pairs(before).push((entries[i as int].0, text@)));
        }
        i = i + 1;
    }
    let ghost unsorted = logs@;
    assert(entries.len() == n);
    match sort_logs_by_timestamp(logs) {
        Some(sorted) => {
            proof {
                lemma_map_values_to_multiset(
                    sorted@,
                    unsorted,
                    |log: JobLog| (log.name@, log.content@),
                );
                if unsorted.len() >= 2 {
                    assert forall|j: int|
                        0 <= j < log_pairs(unsorted).len() implies (#[trigger] text_time(
                        log_pairs(unsorted)[j].1,
                    )) is Some by {
                        assert(crate::ci_provider::util::log_time(unsorted[j]) is Some) by {
                            assert(sorted@.to_multiset().count(unsorted[j]) > 0) by {
                                broadcast use vstd::seq_lib::group_to_multiset_ensures;

                                assert(unsorted.contains(unsorted[j]));
                            }
                            broadcast use vstd::seq_lib::group_to_multiset_ensures;

                            assert(sorted@.contains(unsorted[j]));
                            let k = choose|k: int|
                                0 <= k < sorted@.len() && sorted@[k] == unsorted[j];
                            assert(crate::ci_provider::util::log_time(sorted@[k]) is Some);
                        }
                    }
                }
            }
            Ok(sorted)
        },
        None => {
            proof {
                let j = choose|j: int|
                    0 <= j < unsorted.len() && (#[trigger] crate::ci_provider::util::log_time(
                        unsorted[j],
                    )) is None;
                assert(text_time(log_pairs(unsorted)[j].1) is None);
            }
            Err(LogArchiveError::MissingTimestamp)
        },
    }
}

} // verus!
