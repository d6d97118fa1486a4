//! Counting the hazards among the entries of an archive.

use crate::archive::{
    all_found, entry_views, found_entries, reads_as, zip_directory, EntryOutcome, EntryView,
};
use crate::archive::{read_entries, unreadable_archive, ArchiveEntry, ReadFailure};
use crate::lists::filter_push;
use crate::path::{absolute, archive_like, climbs, executable_like, normalized};
use crate::path::{
    is_absolute_entry, is_executable_like, is_nested_archive, is_traversal_entry,
    normalize_archive_path, Host,
};
use crate::path_laws::normal_form_is_not_rooted;
use crate::text::{replace_char, replaced};
use vstd::hash_map::StringHashMap;
use vstd::prelude::*;

verus! {

/// A ratio of two sizes, `part` to `whole`, before it is divided out.
#[derive(Clone, Copy, Debug, PartialEq, Eq, Structural)]
pub struct Fraction {
    pub part: u64,
    pub whole: u64,
}

/// How many times larger than `compressed` bytes `uncompressed` bytes are. What is
/// compressed to nothing counts as compressed to one byte, and nothing at all as
/// not compressed.
pub open spec fn expansion_of(compressed: u64, uncompressed: u64) -> Fraction {
    if compressed != 0 {
        Fraction { part: uncompressed, whole: compressed }
    } else if uncompressed != 0 {
        Fraction { part: uncompressed, whole: 1 }
    } else {
        Fraction { part: 1, whole: 1 }
    }
}

/// How many times larger than `compressed` bytes `uncompressed` bytes are.
pub fn expansion(compressed: u64, uncompressed: u64) -> (r: Fraction)
    ensures
        r == expansion_of(compressed, uncompressed),
        r.whole != 0,
{
    if compressed == 0 {
        if uncompressed == 0 {
            Fraction { part: 1, whole: 1 }
        } else {
            Fraction { part: uncompressed, whole: 1 }
        }
    } else {
        Fraction { part: uncompressed, whole: compressed }
    }
}

/// The name of an entry with slashes for backslashes.
pub open spec fn slashed(name: Seq<char>) -> Seq<char> {
    replaced(name, '\\', '/')
}

/// The normal form of an entry's name.
pub open spec fn inner_path(entry: EntryView) -> Seq<char> {
    normalized(slashed(entry.name))
}

/// Whether an entry is a file that climbs out of the directory it is extracted to.
pub open spec fn is_traversal(entry: EntryView) -> bool {
    !entry.is_dir && climbs(inner_path(entry))
}

/// Whether an entry is a file with an absolute path. A drive can show in the normal
/// form alone, and a leading slash only before normalization.
pub open spec fn is_rooted(entry: EntryView) -> bool {
    !entry.is_dir && (absolute(slashed(entry.name)) || absolute(inner_path(entry)))
}

/// Whether an entry is a program or a script.
pub open spec fn is_payload(entry: EntryView, host: Host) -> bool {
    !entry.is_dir && executable_like(inner_path(entry), host)
}

/// Whether an entry is an archive in its turn.
pub open spec fn is_nested(entry: EntryView, host: Host) -> bool {
    !entry.is_dir && archive_like(inner_path(entry), host)
}

/// The files among the entries.
pub open spec fn files(entries: Seq<EntryView>) -> Seq<EntryView> {
    entries.filter(|entry: EntryView| !entry.is_dir)
}

/// The normal forms of the names of the files.
pub open spec fn file_paths(entries: Seq<EntryView>) -> Seq<Seq<char>> {
    files(entries).map_values(|entry: EntryView| inner_path(entry))
}

/// How far each file expands.
pub open spec fn file_ratios(entries: Seq<EntryView>) -> Seq<Fraction> {
    files(entries).map_values(
        |entry: EntryView| expansion_of(entry.compressed, entry.uncompressed),
    )
}

/// Whether a path occurs more than once.
pub open spec fn is_repeated(paths: Seq<Seq<char>>, path: Seq<char>) -> bool {
    exists|i: int, j: int| 0 <= i < j < paths.len() && #[trigger] paths[i] == path
        && #[trigger] paths[j] == path
}

/// The paths that occur more than once.
pub open spec fn repeated(paths: Seq<Seq<char>>) -> Set<Seq<char>> {
    paths.to_set().filter(|path: Seq<char>| is_repeated(paths, path))
}

/// The compressed size of all files together.
pub open spec fn total_compressed(entries: Seq<EntryView>) -> int
    decreases entries.len(),
{
    if entries.len() == 0 {
        0
    } else {
        total_compressed(entries.drop_last()) + if entries.last().is_dir {
            0
        } else {
            entries.last().compressed as int
        }
    }
}

/// The uncompressed size of all files together.
pub open spec fn total_uncompressed(entries: Seq<EntryView>) -> int
    decreases entries.len(),
{
    if entries.len() == 0 {
        0
    } else {
        total_uncompressed(entries.drop_last()) + if entries.last().is_dir {
            0
        } else {
            entries.last().uncompressed as int
        }
    }
}

/// Whether both total sizes can be counted.
pub open spec fn totals_fit(entries: Seq<EntryView>) -> bool {
    total_compressed(entries) <= u64::MAX && total_uncompressed(entries) <= u64::MAX
}

/// What the entries of an archive come to.
#[derive(Debug)]
pub struct Survey {
    /// Files that climb out of the directory they are extracted to.
    pub traversal_entries: usize,
    /// Files with an absolute path.
    pub absolute_path_entries: usize,
    /// Programs and scripts.
    pub executable_entries: usize,
    /// Archives in the archive.
    pub nested_archives: usize,
    /// Distinct paths of files.
    pub entry_count: usize,
    /// Paths that more than one file has.
    pub duplicate_paths: usize,
    pub total_compressed_bytes: u64,
    pub total_uncompressed_bytes: u64,
    /// How far each file expands.
    pub ratios: Vec<Fraction>,
    /// How far the files expand together.
    pub archive_ratio: Fraction,
}

impl Survey {
    /// Whether this is the survey of `entries` on a host.
    pub open spec fn describes(self, entries: Seq<EntryView>, host: Host) -> bool {
        &&& self.traversal_entries == entries.filter(|e: EntryView| is_traversal(e)).len()
        &&& self.absolute_path_entries == entries.filter(|e: EntryView| is_rooted(e)).len()
        &&& self.executable_entries == entries.filter(|e: EntryView| is_payload(e, host)).len()
        &&& self.nested_archives == entries.filter(|e: EntryView| is_nested(e, host)).len()
        &&& self.entry_count == file_paths(entries).to_set().len()
        &&& self.duplicate_paths == repeated(file_paths(entries)).len()
        &&& self.total_compressed_bytes == total_compressed(entries)
        &&& self.total_uncompressed_bytes == total_uncompressed(entries)
        &&& self.ratios@ == file_ratios(entries)
        &&& self.archive_ratio == expansion_of(
            self.total_compressed_bytes,
            self.total_uncompressed_bytes,
        )
    }
}

/// What one more entry adds to the paths and the ratios.
pub proof fn file_lists_push(entries: Seq<EntryView>, entry: EntryView)
    ensures
        file_paths(entries.push(entry)) == if entry.is_dir {
            file_paths(entries)
        } else {
            file_paths(entries).push(inner_path(entry))
        },
        file_ratios(entries.push(entry)) == if entry.is_dir {
            file_ratios(entries)
        } else {
            file_ratios(entries).push(expansion_of(entry.compressed, entry.uncompressed))
        },
        file_paths(entries).len() <= entries.len(),
{
    filter_push(entries, entry, |e: EntryView| !e.is_dir);
    if !entry.is_dir {
        assert(file_paths(entries.push(entry)) =~= file_paths(entries).push(inner_path(entry)));
        assert(file_ratios(entries.push(entry)) =~= file_ratios(entries).push(
            expansion_of(entry.compressed, entry.uncompressed),
        ));
    }
}

/// One more path is repeated with the others exactly if it was there before.
pub proof fn repeated_push(paths: Seq<Seq<char>>, path: Seq<char>)
    ensures
        repeated(paths.push(path)) == if paths.contains(path) {
            repeated(paths).insert(path)
        } else {
            repeated(paths)
        },
        paths.push(path).to_set() == paths.to_set().insert(path),
        forall|other: Seq<char>| #[trigger]
            is_repeated(paths.push(path), other) <==> is_repeated(paths, other) || (other == path
                && paths.contains(path)),
        repeated(paths).finite(),
        paths.to_set().finite(),
        repeated(paths).len() <= paths.to_set().len(),
        paths.to_set().len() <= paths.len(),
{
    let more = paths.push(path);
    assert forall|other: Seq<char>| #[trigger]
        is_repeated(more, other) <==> is_repeated(paths, other) || (other == path
            && paths.contains(path)) by {
        if is_repeated(paths, other) {
            let (i, j): (int, int) = choose|i: int, j: int|
                0 <= i < j < paths.len() && #[trigger] paths[i] == other && #[trigger] paths[j]
                    == other;
            assert(more[i] == other && more[j] == other);
        }
        if other == path && paths.contains(path) {
            let i = paths.index_of(path);
            assert(more[i] == other && more[paths.len() as int] == other);
        }
        if is_repeated(more, other) {
            let (i, j): (int, int) = choose|i: int, j: int|
                0 <= i < j < more.len() && #[trigger] more[i] == other && #[trigger] more[j]
                    == other;
            assert(paths[i] == other);
            if j < paths.len() {
                assert(paths[j] == other);
            }
        }
    }
    paths.lemma_push_to_set_commute(path);
    assert forall|other: Seq<char>| is_repeated(paths, other) implies paths.contains(other) by {
    }
    if paths.contains(path) {
        assert(repeated(more) =~= repeated(paths).insert(path));
    } else {
        assert(repeated(more) =~= repeated(paths));
    }
    paths.lemma_cardinality_of_set();
    paths.to_set().lemma_len_filter(|p: Seq<char>| is_repeated(paths, p));
}

/// Total sizes only grow.
pub proof fn totals_grow(entries: Seq<EntryView>, k: int)
    requires
        0 <= k <= entries.len(),
    ensures
        0 <= total_compressed(entries.take(k)) <= total_compressed(entries),
        0 <= total_uncompressed(entries.take(k)) <= total_uncompressed(entries),
    decreases entries.len(),
{
    if k == entries.len() {
        assert(entries.take(k) =~= entries);
        if k > 0 {
            totals_grow(entries.drop_last(), k - 1);
        }
    } else {
        totals_grow(entries.drop_last(), k);
        assert(entries.drop_last().take(k) =~= entries.take(k));
    }
}

/// Surveys the entries of an archive on a host.
pub fn survey_entries(entries: &[ArchiveEntry], host: Host) -> (survey: Survey)
    requires
        totals_fit(entry_views(entries@)),
    ensures
        survey.describes(entry_views(entries@), host),
{
    let ghost all = entry_views(entries@);
    let mut traversal_entries: usize = 0;
    let mut absolute_path_entries: usize = 0;
    let mut executable_entries: usize = 0;
    let mut nested_archives: usize = 0;
    let mut duplicate_paths: usize = 0;
    let mut total_compressed_bytes: u64 = 0;
    let mut total_uncompressed_bytes: u64 = 0;
    let mut ratios: Vec<Fraction> = Vec::new();
    // Each path seen so far, and whether it was seen again.
    let mut seen: StringHashMap<bool> = StringHashMap::new();
    let mut i: usize = 0;
    proof {
        reveal(Seq::filter);
        assert(all.take(0) =~= Seq::<EntryView>::empty());
        assert(file_paths(all.take(0)) =~= Seq::<Seq<char>>::empty());
        assert(file_ratios(all.take(0)) =~= Seq::<Fraction>::empty());
        assert(repeated(Seq::<Seq<char>>::empty()) =~= Set::<Seq<char>>::empty());
        assert(seen@.dom() =~= Seq::<Seq<char>>::empty().to_set());
    }
    while i < entries.len()
        invariant
            all == entry_views(entries@),
            totals_fit(all),
            i <= entries@.len(),
            traversal_entries == all.take(i as int).filter(|e: EntryView| is_traversal(e)).len(),
            absolute_path_entries == all.take(i as int).filter(|e: EntryView| is_rooted(e)).len(),
            executable_entries == all.take(i as int).filter(|e: EntryView| is_payload(e, host)).len(),
            nested_archives == all.take(i as int).filter(|e: EntryView| is_nested(e, host)).len(),
            total_compressed_bytes == total_compressed(all.take(i as int)),
            total_uncompressed_bytes == total_uncompressed(all.take(i as int)),
            ratios@ == file_ratios(all.take(i as int)),
            seen@.dom() == file_paths(all.take(i as int)).to_set(),
            forall|path: Seq<char>| #[trigger]
                seen@.contains_key(path) ==> seen@[path] == is_repeated(
                    file_paths(all.take(i as int)),
                    path,
                ),
            duplicate_paths == repeated(file_paths(all.take(i as int))).len(),
        decreases entries@.len() - i,
    {
        let entry = &entries[i];
        let ghost before = all.take(i as int);
        let ghost now = all.take(i + 1);
        proof {
            assert(now =~= before.push(entry@));
            assert(now.drop_last() =~= before);
            file_lists_push(before, entry@);
            filter_push(before, entry@, |e: EntryView| is_traversal(e));
            filter_push(before, entry@, |e: EntryView| is_rooted(e));
            filter_push(before, entry@, |e: EntryView| is_payload(e, host));
            filter_push(before, entry@, |e: EntryView| is_nested(e, host));
            totals_grow(all, i + 1);
        }
        if !entry.is_dir {
            let name = replace_char(entry.name.as_str(), '\\', '/');
            let path = normalize_archive_path(name.as_str());
            if is_traversal_entry(path.as_str()) {
                traversal_entries = traversal_entries + 1;
            }
            if is_absolute_entry(name.as_str()) || is_absolute_entry(path.as_str()) {
                absolute_path_entries = absolute_path_entries + 1;
            }
            proof {
                normal_form_is_not_rooted(name@);
            }
            if is_executable_like(path.as_str(), host) {
                executable_entries = executable_entries + 1;
            }
            if is_nested_archive(path.as_str(), host) {
                nested_archives = nested_archives + 1;
            }
            total_compressed_bytes = total_compressed_bytes + entry.compressed;
            total_uncompressed_bytes = total_uncompressed_bytes + entry.uncompressed;
            ratios.push(expansion(entry.compressed, entry.uncompressed));
            let ghost paths = file_paths(before);
            proof {
                repeated_push(paths, path@);
                repeated_push(paths.push(path@), path@);
            }
            let again = match seen.get(path.as_str()) {
                None => None,
                Some(repeated_before) => Some(*repeated_before),
            };
            match again {
                None => {
                    assert(!paths.contains(path@));
                    assert(!is_repeated(paths, path@));
                    seen.insert(path, false);
                },
                Some(repeated_before) => {
                    assert(paths.contains(path@));
                    if !repeated_before {
                        assert(!repeated(paths).contains(path@));
                        duplicate_paths = duplicate_paths + 1;
                    } else {
                        assert(repeated(paths).contains(path@));
                        assert(repeated(paths).insert(path@) =~= repeated(paths));
                    }
                    seen.insert(path, true);
                },
            }
            assert(seen@.dom() =~= paths.push(path@).to_set());
        }
        i = i + 1;
    }
    assert(all.take(i as int) =~= all);
    let entry_count: usize = seen.len();
    Survey {
        traversal_entries,
        absolute_path_entries,
        executable_entries,
        nested_archives,
        entry_count,
        duplicate_paths,
        total_compressed_bytes,
        total_uncompressed_bytes,
        ratios,
        archive_ratio: expansion(total_compressed_bytes, total_uncompressed_bytes),
    }
}

/// Whether both total sizes of the files can be counted.
pub fn sizes_fit(entries: &[ArchiveEntry]) -> (fit: bool)
    ensures
        fit == totals_fit(entry_views(entries@)),
{
    let ghost all = entry_views(entries@);
    let mut compressed: u64 = 0;
    let mut uncompressed: u64 = 0;
    let mut i: usize = 0;
    assert(all.take(0) =~= Seq::<EntryView>::empty());
    while i < entries.len()
        invariant
            all == entry_views(entries@),
            i <= entries@.len(),
            compressed == total_compressed(all.take(i as int)),
            uncompressed == total_uncompressed(all.take(i as int)),
        decreases entries@.len() - i,
    {
        proof {
            assert(all.take(i + 1).drop_last() =~= all.take(i as int));
            totals_grow(all, i + 1);
        }
        let entry = &entries[i];
        if !entry.is_dir {
            if entry.compressed > u64::MAX - compressed {
                return false;
            }
            if entry.uncompressed > u64::MAX - uncompressed {
                return false;
            }
            compressed = compressed + entry.compressed;
            uncompressed = uncompressed + entry.uncompressed;
        }
        i = i + 1;
    }
    assert(all.take(i as int) =~= all);
    true
}

/// What opening an archive comes to: the message with which its file is refused, or
/// what is found in its bytes.
pub open spec fn directory_of(refused: Option<&str>, bytes: Seq<u8>) -> Result<
    Seq<EntryOutcome>,
    Seq<char>,
> {
    match refused {
        Some(error) => Err(error@),
        None => zip_directory(bytes),
    }
}

/// Surveys the archive in `bytes` on a host, or returns `None` if the sizes that its
/// entries declare add up to more than can be counted. `path` stands for the archive
/// in messages. `refused` is the message with which its file cannot be opened as an
/// archive or read, if it cannot: a file can refuse to be read at an offset that
/// bytes in memory have no objection to.
pub fn survey_archive(
    path: &str,
    refused: Option<&str>,
    bytes: &[u8],
    host: Host,
) -> (r: Result<Option<Survey>, ReadFailure>)
    ensures
        match r {
            Err(failure) => reads_as(path@, directory_of(refused, bytes@), Err(failure@)),
            Ok(surveyed) => {
                &&& refused is None
                &&& zip_directory(bytes@) is Ok
                &&& all_found(zip_directory(bytes@)->Ok_0)
                &&& match surveyed {
                    None => !totals_fit(found_entries(zip_directory(bytes@)->Ok_0)),
                    Some(survey) => survey.describes(
                        found_entries(zip_directory(bytes@)->Ok_0),
                        host,
                    ),
                }
            },
        },
{
    if let Some(error) = refused {
        return Err(ReadFailure::Message(unreadable_archive(path, error)));
    }
    match read_entries(path, bytes) {
        Err(failure) => Err(failure),
        Ok(entries) => {
            if sizes_fit(entries.as_slice()) {
                Ok(Some(survey_entries(entries.as_slice(), host)))
            } else {
                Ok(None)
            }
        },
    }
}

} // verus!
