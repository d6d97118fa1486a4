//! Reading the entries of a zip archive held in memory.

use crate::text::{decimal, decimal_of};
use vstd::prelude::*;
use vstd::string::StringExecFns;

verus! {

/// `std::io::Cursor`: a reader over bytes in memory, carried and never looked into.
#[verifier::external_type_specification]
#[verifier::external_body]
#[verifier::reject_recursive_types(T)]
pub struct ExCursor<T>(std::io::Cursor<T>);

/// `zip::ZipArchive`: an opened archive. What it holds is told by `archive_entries`,
/// `archive_bytes` and `central_offsets`.
#[verifier::external_type_specification]
#[verifier::external_body]
#[verifier::reject_recursive_types(R)]
pub struct ExZipArchive<R>(zip::ZipArchive<R>);

/// One entry of an archive as its central directory describes it.
#[derive(Debug)]
pub struct ArchiveEntry {
    pub is_dir: bool,
    pub name: String,
    pub compressed: u64,
    pub uncompressed: u64,
}

/// The content of an `ArchiveEntry`.
pub struct EntryView {
    pub is_dir: bool,
    pub name: Seq<char>,
    pub compressed: u64,
    pub uncompressed: u64,
}

impl View for ArchiveEntry {
    type V = EntryView;

    open spec fn view(&self) -> EntryView {
        EntryView {
            is_dir: self.is_dir,
            name: self.name@,
            compressed: self.compressed,
            uncompressed: self.uncompressed,
        }
    }
}

/// The contents of a sequence of entries.
pub open spec fn entry_views(entries: Seq<ArchiveEntry>) -> Seq<EntryView> {
    Seq::new(entries.len(), |i: int| entries[i]@)
}

/// What looking up one entry of an opened archive comes to.
pub enum EntryOutcome {
    /// The entry is described.
    Found(EntryView),
    /// The lookup fails with this message.
    Refused(Seq<char>),
    /// The entry has an AES record and is not marked as encrypted: the lookup
    /// neither describes it nor fails, it panics.
    Locked,
}

/// What `zip::ZipArchive::new` finds in `bytes`: the outcome for each entry in the
/// order of the central directory, or the message of its error.
pub uninterp spec fn zip_directory(bytes: Seq<u8>) -> Result<Seq<EntryOutcome>, Seq<char>>;

/// What looking up each entry of an opened archive comes to.
pub uninterp spec fn archive_entries(
    archive: zip::ZipArchive<std::io::Cursor<&[u8]>>,
) -> Seq<EntryOutcome>;

/// The bytes that an archive was opened on.
pub uninterp spec fn archive_bytes(archive: zip::ZipArchive<std::io::Cursor<&[u8]>>) -> Seq<u8>;

/// Where the header of each entry starts in the central directory.
pub uninterp spec fn central_offsets(
    archive: zip::ZipArchive<std::io::Cursor<&[u8]>>,
) -> Seq<u64>;

/// Whether the central header that starts at `offset` marks its entry as encrypted:
/// the lowest bit of the flags, which stand eight bytes into the header.
pub open spec fn marked_encrypted(bytes: Seq<u8>, offset: u64) -> bool {
    bytes[offset + 8] % 2 == 1
}

/// Whether a name ends in a separator, which is what makes an entry a directory.
pub open spec fn ends_in_separator(name: Seq<char>) -> bool {
    name.len() > 0 && (name.last() == '/' || name.last() == '\\')
}

/// `zip::ZipArchive::new` on a `std::io::Cursor` over `bytes`, with the error turned
/// into its message.
///
/// What it finds is named by `zip_directory`: it depends on the bytes alone. The
/// opened archive has one central header for each entry, of at least 46 bytes, and
/// looking up an entry whose header is marked as encrypted fails for want of a
/// password.
#[verifier::external_body]
fn open_archive(bytes: &[u8]) -> (opened: Result<zip::ZipArchive<std::io::Cursor<&[u8]>>, String>)
    ensures
        match opened {
            Ok(archive) => {
                &&& zip_directory(bytes@) == Ok::<Seq<EntryOutcome>, Seq<char>>(
                    archive_entries(archive),
                )
                &&& archive_bytes(archive) == bytes@
                &&& central_offsets(archive).len() == archive_entries(archive).len()
                &&& forall|i: int|
                    0 <= i < central_offsets(archive).len() ==> #[trigger] central_offsets(
                        archive,
                    )[i] + 46 <= bytes@.len()
                &&& forall|i: int|
                    0 <= i < central_offsets(archive).len() && marked_encrypted(
                        bytes@,
                        #[trigger] central_offsets(archive)[i],
                    ) ==> archive_entries(archive)[i] is Refused
            },
            Err(message) => zip_directory(bytes@) == Err::<Seq<EntryOutcome>, Seq<char>>(message@),
        },
{
    zip::ZipArchive::new(std::io::Cursor::new(bytes)).map_err(|error| error.to_string())
}

/// `zip::ZipArchive::len`: the number of entries.
#[verifier::external_body]
fn entry_count(archive: &zip::ZipArchive<std::io::Cursor<&[u8]>>) -> (count: usize)
    ensures
        count == archive_entries(*archive).len(),
{
    archive.len()
}

/// `zip::ZipArchive::by_index_raw`, of whose result only the start of the central
/// header is kept.
///
/// It fails exactly where the local header of the entry cannot be read, and there
/// an ordinary lookup fails too. Nothing is said of the error.
#[verifier::external_body]
fn central_offset(
    archive: &mut zip::ZipArchive<std::io::Cursor<&[u8]>>,
    index: usize,
) -> (offset: Option<u64>)
    requires
        index < archive_entries(*old(archive)).len(),
    ensures
        archive_entries(*final(archive)) == archive_entries(*old(archive)),
        archive_bytes(*final(archive)) == archive_bytes(*old(archive)),
        central_offsets(*final(archive)) == central_offsets(*old(archive)),
        match offset {
            Some(at) => at == central_offsets(*old(archive))[index as int],
            None => archive_entries(*old(archive))[index as int] is Refused,
        },
{
    archive.by_index_raw(index).ok().map(|file| file.central_header_start())
}

/// `zip::ZipArchive::by_index_decrypt` with an empty password, of whose result only
/// is kept whether the password was found invalid.
///
/// The password of an entry that is not marked as encrypted is discarded. The call
/// then goes the way of an ordinary lookup, and reports an invalid password where
/// that one panics.
#[verifier::external_body]
fn lacks_password(
    archive: &mut zip::ZipArchive<std::io::Cursor<&[u8]>>,
    index: usize,
) -> (lacking: bool)
    requires
        index < archive_entries(*old(archive)).len(),
        !marked_encrypted(
            archive_bytes(*old(archive)),
            central_offsets(*old(archive))[index as int],
        ),
    ensures
        archive_entries(*final(archive)) == archive_entries(*old(archive)),
        archive_bytes(*final(archive)) == archive_bytes(*old(archive)),
        central_offsets(*final(archive)) == central_offsets(*old(archive)),
        lacking == (archive_entries(*old(archive))[index as int] is Locked),
{
    matches!(archive.by_index_decrypt(index, &[]), Ok(Err(_)))
}

/// `zip::ZipArchive::by_index`, with the entry described by `ZipFile::is_dir`,
/// `ZipFile::name`, `ZipFile::compressed_size` and `ZipFile::size`, and the error
/// turned into its message.
///
/// The result is the outcome that the archive holds for the index. A directory is
/// an entry whose name ends in a separator.
#[verifier::external_body]
fn entry_at(
    archive: &mut zip::ZipArchive<std::io::Cursor<&[u8]>>,
    index: usize,
) -> (entry: Result<ArchiveEntry, String>)
    requires
        index < archive_entries(*old(archive)).len(),
        archive_entries(*old(archive))[index as int] !is Locked,
    ensures
        archive_entries(*final(archive)) == archive_entries(*old(archive)),
        archive_bytes(*final(archive)) == archive_bytes(*old(archive)),
        central_offsets(*final(archive)) == central_offsets(*old(archive)),
        match entry {
            Ok(found) => {
                &&& archive_entries(*old(archive))[index as int] == EntryOutcome::Found(found@)
                &&& found.is_dir == ends_in_separator(found.name@)
            },
            Err(message) => archive_entries(*old(archive))[index as int] == EntryOutcome::Refused(
                message@,
            ),
        },
{
    let file = archive.by_index(index).map_err(|error| error.to_string())?;
    Ok(
        ArchiveEntry {
            is_dir: file.is_dir(),
            name: file.name().to_string(),
            compressed: file.compressed_size(),
            uncompressed: file.size(),
        },
    )
}

/// Why the entries of an archive were not read.
#[derive(Debug)]
pub enum ReadFailure {
    /// The archive or one of its entries is refused, with this message.
    Message(String),
    /// The entry with this index has an AES record and is not marked as encrypted.
    Locked(usize),
}

/// The content of a `ReadFailure`.
pub enum FailureView {
    Message(Seq<char>),
    Locked(int),
}

impl View for ReadFailure {
    type V = FailureView;

    open spec fn view(&self) -> FailureView {
        match self {
            ReadFailure::Message(message) => FailureView::Message(message@),
            ReadFailure::Locked(index) => FailureView::Locked(*index as int),
        }
    }
}

/// The message for an archive that cannot be opened.
pub open spec fn unreadable_message(path: Seq<char>, error: Seq<char>) -> Seq<char> {
    "Could not read "@ + path + " as a zip archive: "@ + error
}

/// The message for an entry that cannot be looked up.
pub open spec fn uninspectable_message(index: nat, path: Seq<char>, error: Seq<char>) -> Seq<
    char,
> {
    "Could not inspect entry "@ + decimal_of(index) + " in "@ + path + ": "@ + error
}

/// Whether every outcome describes an entry.
pub open spec fn all_found(outcomes: Seq<EntryOutcome>) -> bool {
    forall|k: int| 0 <= k < outcomes.len() ==> #[trigger] outcomes[k] is Found
}

/// The entries that the outcomes describe.
pub open spec fn found_entries(outcomes: Seq<EntryOutcome>) -> Seq<EntryView> {
    Seq::new(outcomes.len(), |k: int| outcomes[k]->Found_0)
}

/// Whether `k` is the first outcome that describes no entry.
pub open spec fn first_unfound(outcomes: Seq<EntryOutcome>, k: int) -> bool {
    &&& 0 <= k < outcomes.len()
    &&& outcomes[k] !is Found
    &&& forall|j: int| 0 <= j < k ==> #[trigger] outcomes[j] is Found
}

/// Whether `read` is what a directory of outcomes comes to: all the entries, or the
/// failure of the first one that is not described.
pub open spec fn reads_as(
    path: Seq<char>,
    directory: Result<Seq<EntryOutcome>, Seq<char>>,
    read: Result<Seq<EntryView>, FailureView>,
) -> bool {
    match directory {
        Err(error) => read == Err::<Seq<EntryView>, FailureView>(
            FailureView::Message(unreadable_message(path, error)),
        ),
        Ok(outcomes) => match read {
            Ok(entries) => all_found(outcomes) && entries == found_entries(outcomes),
            Err(FailureView::Message(message)) => exists|k: int|
                #[trigger] first_unfound(outcomes, k) && (outcomes[k] matches EntryOutcome::Refused(
                    error,
                ) && message == uninspectable_message(k as nat, path, error)),
            Err(FailureView::Locked(k)) => first_unfound(outcomes, k) && outcomes[k] is Locked,
        },
    }
}

/// The content of what reading an archive returned.
pub open spec fn read_view(read: Result<Vec<ArchiveEntry>, ReadFailure>) -> Result<
    Seq<EntryView>,
    FailureView,
> {
    match read {
        Ok(entries) => Ok(entry_views(entries@)),
        Err(failure) => Err(failure@),
    }
}

/// The message for an archive that cannot be opened.
pub fn unreadable_archive(path: &str, error: &str) -> (message: String)
    ensures
        message@ == unreadable_message(path@, error@),
{
    let mut message = "Could not read ".to_owned();
    message.append(path);
    message.append(" as a zip archive: ");
    message.append(error);
    message
}

/// The message for an entry that cannot be looked up.
pub fn uninspectable_entry(index: usize, path: &str, error: &str) -> (message: String)
    ensures
        message@ == uninspectable_message(index as nat, path@, error@),
{
    let mut message = "Could not inspect entry ".to_owned();
    message.append(decimal(index as u64).as_str());
    message.append(" in ");
    message.append(path);
    message.append(": ");
    message.append(error);
    message
}

/// The entries of the archive in `bytes`, in the order of its central directory.
/// `path` stands for the archive in messages.
pub fn read_entries(path: &str, bytes: &[u8]) -> (read: Result<Vec<ArchiveEntry>, ReadFailure>)
    ensures
        reads_as(path@, zip_directory(bytes@), read_view(read)),
        read matches Ok(entries) ==> forall|k: int|
            0 <= k < entries@.len() ==> (#[trigger] entries@[k]).is_dir == ends_in_separator(
                entries@[k].name@,
            ),
{
    let mut archive = match open_archive(bytes) {
        Ok(archive) => archive,
        Err(error) => {
            return Err(ReadFailure::Message(unreadable_archive(path, error.as_str())));
        },
    };
    let size: usize = bytes.len();
    let count: usize = entry_count(&archive);
    let ghost outcomes = archive_entries(archive);
    let ghost offsets = central_offsets(archive);
    let mut entries: Vec<ArchiveEntry> = Vec::new();
    let mut i: usize = 0;
    while i < count
        invariant
            zip_directory(bytes@) == Ok::<Seq<EntryOutcome>, Seq<char>>(outcomes),
            size == bytes@.len(),
            count == outcomes.len(),
            archive_entries(archive) == outcomes,
            archive_bytes(archive) == bytes@,
            central_offsets(archive) == offsets,
            offsets.len() == outcomes.len(),
            forall|k: int| 0 <= k < offsets.len() ==> #[trigger] offsets[k] + 46 <= bytes@.len(),
            forall|k: int|
                0 <= k < offsets.len() && marked_encrypted(bytes@, #[trigger] offsets[k])
                    ==> outcomes[k] is Refused,
            i <= count,
            entries@.len() == i,
            forall|k: int|
                0 <= k < i ==> #[trigger] outcomes[k] == EntryOutcome::Found(entries@[k]@),
            forall|k: int|
                0 <= k < i ==> (#[trigger] entries@[k]).is_dir == ends_in_separator(
                    entries@[k].name@,
                ),
        decreases count - i,
    {
        let locked = match central_offset(&mut archive, i) {
            None => false,
            Some(at) => {
                assert(offsets[i as int] + 46 <= bytes@.len());
                let flags: u8 = bytes[at as usize + 8];
                if flags % 2 == 1 {
                    false
                } else {
                    lacks_password(&mut archive, i)
                }
            },
        };
        if locked {
            assert(first_unfound(outcomes, i as int));
            return Err(ReadFailure::Locked(i));
        }
        match entry_at(&mut archive, i) {
            Ok(entry) => {
                entries.push(entry);
            },
            Err(error) => {
                assert(first_unfound(outcomes, i as int));
                return Err(
                    ReadFailure::Message(uninspectable_entry(i, path, error.as_str())),
                );
            },
        }
        i = i + 1;
    }
    assert(entry_views(entries@) =~= found_entries(outcomes));
    Ok(entries)
}

/// A directory of outcomes comes to one thing only.
pub proof fn reading_is_determined(
    path: Seq<char>,
    directory: Result<Seq<EntryOutcome>, Seq<char>>,
    a: Result<Seq<EntryView>, FailureView>,
    b: Result<Seq<EntryView>, FailureView>,
)
    requires
        reads_as(path, directory, a),
        reads_as(path, directory, b),
    ensures
        a == b,
{
    if let Ok(outcomes) = directory {
        assert forall|j: int, k: int| #[trigger]
            first_unfound(outcomes, j) && #[trigger] first_unfound(outcomes, k) implies j == k by {
            if j < k {
                assert(outcomes[j] is Found);
            }
            if k < j {
                assert(outcomes[k] is Found);
            }
        }
        assert forall|k: int| #[trigger] first_unfound(outcomes, k) implies !all_found(
            outcomes,
        ) by {
            assert(outcomes[k] !is Found);
        }
    }
}

} // verus!
