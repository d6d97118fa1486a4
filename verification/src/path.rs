//! Paths of archive entries: normalization and the hazards that a path can show.

use crate::text::{join, replace_char, text_eq, to_lower};
use crate::text::{joined, lower, replaced, texts, to_chars};
use vstd::prelude::*;
use vstd::utf8::encode_utf8;

verus! {

/// The pieces of `s` between the separators: one more than there are separators.
pub open spec fn split(s: Seq<char>, sep: char) -> Seq<Seq<char>>
    decreases s.len(),
{
    if s.len() == 0 {
        seq![Seq::empty()]
    } else {
        let before = split(s.drop_last(), sep);
        if s.last() == sep {
            before.push(Seq::empty())
        } else {
            before.drop_last().push(before.last().push(s.last()))
        }
    }
}

/// Whether a piece of a path leads anywhere: it is neither empty nor a single dot.
pub open spec fn is_step(piece: Seq<char>) -> bool {
    piece.len() > 0 && piece != "."@
}

/// The pieces of `path` that lead anywhere, in order.
pub open spec fn steps(path: Seq<char>) -> Seq<Seq<char>> {
    split(path, '/').filter(|piece: Seq<char>| is_step(piece))
}

/// `path` without empty pieces and single dots.
pub open spec fn normalized(path: Seq<char>) -> Seq<char> {
    joined(steps(path), "/"@)
}

/// Whether one of the pieces of `path` leads to the parent directory.
pub open spec fn climbs(path: Seq<char>) -> bool {
    split(path, '/').contains(".."@)
}

/// There is always a last piece.
pub proof fn split_is_not_empty(s: Seq<char>, sep: char)
    ensures
        split(s, sep).len() > 0,
    decreases s.len(),
{
    if s.len() > 0 {
        split_is_not_empty(s.drop_last(), sep);
    }
}

/// One more piece joins the steps exactly if it is one.
proof fn steps_push(pieces: Seq<Seq<char>>, piece: Seq<char>)
    ensures
        pieces.push(piece).filter(|p: Seq<char>| is_step(p)) == if is_step(piece) {
            pieces.filter(|p: Seq<char>| is_step(p)).push(piece)
        } else {
            pieces.filter(|p: Seq<char>| is_step(p))
        },
{
    reveal(Seq::filter);
    assert(pieces.push(piece).drop_last() =~= pieces);
}

/// Appends `piece` to `pieces` if it leads anywhere.
fn keep_step(pieces: &mut Vec<String>, piece: String)
    ensures
        texts(final(pieces)@) == if is_step(piece@) {
            texts(old(pieces)@).push(piece@)
        } else {
            texts(old(pieces)@)
        },
{
    if !piece.as_str().is_empty() && !text_eq(piece.as_str(), ".") {
        pieces.push(piece);
        assert(texts(pieces@) =~= texts(old(pieces)@).push(piece@));
    }
}

/// The pieces of `path` that lead anywhere, in order.
pub fn path_steps(path: &str) -> (pieces: Vec<String>)
    ensures
        texts(pieces@) == steps(path@),
{
    let chars = to_chars(path);
    let mut pieces: Vec<String> = Vec::new();
    let mut current = String::new();
    let ghost mut finished: Seq<Seq<char>> = Seq::empty();
    proof {
        reveal(Seq::filter);
        assert(texts(pieces@) =~= finished.filter(|p: Seq<char>| is_step(p)));
        assert(finished.push(current@) =~= split(chars@.take(0), '/'));
    }
    let mut i: usize = 0;
    while i < chars.len()
        invariant
            chars@ == path@,
            i <= chars@.len(),
            split(chars@.take(i as int), '/') == finished.push(current@),
            texts(pieces@) == finished.filter(|p: Seq<char>| is_step(p)),
        decreases chars@.len() - i,
    {
        let c = chars[i];
        assert(chars@.take(i + 1).drop_last() =~= chars@.take(i as int));
        if c == '/' {
            proof {
                steps_push(finished, current@);
                finished = finished.push(current@);
            }
            keep_step(&mut pieces, current);
            current = String::new();
        } else {
            let ghost grown = finished.push(current@).drop_last();
            assert(grown =~= finished);
            current.push(c);
        }
        i = i + 1;
    }
    assert(chars@.take(i as int) =~= chars@);
    proof {
        steps_push(finished, current@);
    }
    keep_step(&mut pieces, current);
    pieces
}

/// `path` without empty pieces and single dots.
pub fn normalize_archive_path(path: &str) -> (r: String)
    ensures
        r@ == normalized(path@),
{
    let pieces = path_steps(path);
    join(pieces.as_slice(), "/")
}

/// Whether one of the pieces of `path` leads to the parent directory.
pub fn is_traversal_entry(path: &str) -> (r: bool)
    ensures
        r == climbs(path@),
{
    let pieces = path_steps(path);
    let mut i: usize = 0;
    while i < pieces.len()
        invariant
            i <= pieces@.len(),
            texts(pieces@) == steps(path@),
            forall|j: int| 0 <= j < i ==> #[trigger] pieces@[j]@ != ".."@,
        decreases pieces@.len() - i,
    {
        if text_eq(pieces[i].as_str(), "..") {
            proof {
                assert(texts(pieces@)[i as int] == ".."@);
                assert(steps(path@).contains(".."@));
                climbs_is_a_step(path@);
            }
            return true;
        }
        i = i + 1;
    }
    proof {
        climbs_is_a_step(path@);
        assert(forall|j: int| 0 <= j < pieces@.len() ==> texts(pieces@)[j] == #[trigger] pieces@[j]@);
    }
    false
}

/// A path climbs exactly if one of its steps does.
pub proof fn climbs_is_a_step(path: Seq<char>)
    ensures
        climbs(path) == steps(path).contains(".."@),
{
    reveal_strlit("..");
    reveal_strlit(".");
    assert(".."@ != "."@) by {
        assert(".."@.len() != "."@.len());
    }
    let keep = |piece: Seq<char>| is_step(piece);
    let pieces = split(path, '/');
    if pieces.contains(".."@) {
        let i = pieces.index_of(".."@);
        assert(keep(pieces[i]));
        pieces.lemma_filter_contains(keep, i);
    }
    if steps(path).contains(".."@) {
        pieces.lemma_filter_contains_rev(keep, ".."@);
    }
}

/// Whether a path in UTF-8 starts like `C:/` or `C:\`, with any first byte.
pub open spec fn drive_prefixed(bytes: Seq<u8>) -> bool {
    &&& bytes.len() >= 3
    &&& bytes[1] == 0x3a
    &&& bytes[2] == 0x2f || bytes[2] == 0x5c
}

/// Whether `path` is absolute, on a Unix or a Windows machine.
pub open spec fn absolute(path: Seq<char>) -> bool {
    ||| path.len() > 0 && (path[0] == '/' || path[0] == '\\')
    ||| drive_prefixed(encode_utf8(path))
}

/// Whether `path` starts with a drive, a colon and a separator.
pub fn has_windows_drive_prefix(path: &str) -> (r: bool)
    ensures
        r == drive_prefixed(encode_utf8(path@)),
{
    let bytes = path.as_bytes();
    bytes.len() >= 3 && bytes[1] == 0x3a && (bytes[2] == 0x2f || bytes[2] == 0x5c)
}

/// Whether `path` is absolute, on a Unix or a Windows machine.
pub fn is_absolute_entry(path: &str) -> (r: bool)
    ensures
        r == absolute(path@),
{
    let chars = to_chars(path);
    if chars.len() > 0 && (chars[0] == '/' || chars[0] == '\\') {
        return true;
    }
    has_windows_drive_prefix(path)
}

/// A kind of host, which tells the components of a path apart in its own way.
#[derive(Clone, Copy, Debug, PartialEq, Eq, Structural)]
pub enum Host {
    /// Components are separated by `/`.
    Unix,
    /// Components are separated by `/` and by `\`, and a drive can stand in front.
    Windows,
}

/// Whether `path` starts with a drive: a letter and a colon.
pub open spec fn on_drive(path: Seq<char>) -> bool {
    &&& path.len() >= 2
    &&& 'a' <= path[0] <= 'z' || 'A' <= path[0] <= 'Z'
    &&& path[1] == ':'
}

/// Whether `path` starts with two separators, as the path of a network share or a
/// device does.
pub open spec fn on_network(path: Seq<char>) -> bool {
    &&& path.len() >= 2
    &&& path[0] == '/' || path[0] == '\\'
    &&& path[1] == '/' || path[1] == '\\'
}

/// `path` as the host reads it, without its drive and with `/` between components.
pub open spec fn local_path(path: Seq<char>, host: Host) -> Seq<char> {
    match host {
        Host::Unix => path,
        Host::Windows => {
            let slashed = replaced(path, '\\', '/');
            if on_drive(path) {
                slashed.skip(2)
            } else {
                slashed
            }
        },
    }
}

/// The position of the last dot of `name`, or -1 if it has none.
pub open spec fn last_dot(name: Seq<char>) -> int
    decreases name.len(),
{
    if name.len() == 0 {
        -1
    } else if name.last() == '.' {
        name.len() - 1
    } else {
        last_dot(name.drop_last())
    }
}

/// The last step of `path`, unless that leads to the parent directory.
pub open spec fn file_name(path: Seq<char>) -> Option<Seq<char>> {
    let pieces = steps(path);
    if pieces.len() == 0 || pieces.last() == ".."@ {
        None
    } else {
        Some(pieces.last())
    }
}

/// What follows the last dot of a file name, in lower case. A file name without a
/// dot, or with its only dot in front, has no extension.
pub open spec fn name_extension_of(name: Seq<char>) -> Option<Seq<char>> {
    if last_dot(name) <= 0 {
        None
    } else {
        Some(lower(name.skip(last_dot(name) + 1)))
    }
}

/// The extension of the file name in `path`.
pub open spec fn extension_of(path: Seq<char>, host: Host) -> Option<Seq<char>> {
    match file_name(local_path(path, host)) {
        None => None,
        Some(name) => name_extension_of(name),
    }
}

/// `path` as the host reads it, without its drive and with `/` between components.
fn read_local_path(path: &str, host: Host) -> (r: String)
    ensures
        r@ == local_path(path@, host),
{
    match host {
        Host::Unix => path.to_owned(),
        Host::Windows => {
            let slashed = replace_char(path, '\\', '/');
            let chars = to_chars(slashed.as_str());
            assert(replaced(path@, '\\', '/').len() == path@.len());
            let drive = chars.len() >= 2 && ('a' <= chars[0] && chars[0] <= 'z' || 'A' <= chars[0]
                && chars[0] <= 'Z') && chars[1] == ':';
            assert(drive == on_drive(path@));
            if !drive {
                return slashed;
            }
            let mut rest = String::new();
            let mut i: usize = 2;
            while i < chars.len()
                invariant
                    2 <= i <= chars@.len(),
                    rest@ == chars@.subrange(2, i as int),
                decreases chars@.len() - i,
            {
                rest.push(chars[i]);
                assert(rest@ =~= chars@.subrange(2, i + 1));
                i = i + 1;
            }
            assert(rest@ =~= chars@.skip(2));
            rest
        },
    }
}

/// The extension of a file name, in lower case.
pub fn name_extension(file_name: &str) -> (r: Option<String>)
    ensures
        match r {
            Some(found) => name_extension_of(file_name@) == Some(found@),
            None => name_extension_of(file_name@) is None,
        },
{
    let name = to_chars(file_name);
    let mut after: usize = name.len();
    assert(name@.take(after as int) =~= name@);
    while after > 0 && name[after - 1] != '.'
        invariant
            after <= name@.len(),
            last_dot(name@) == last_dot(name@.take(after as int)),
        decreases after,
    {
        assert(name@.take(after as int).drop_last() =~= name@.take(after - 1));
        after = after - 1;
    }
    assert(last_dot(name@) == after - 1);
    if after <= 1 {
        return None;
    }
    let mut tail: Vec<char> = Vec::new();
    let mut i: usize = after;
    while i < name.len()
        invariant
            after <= i <= name@.len(),
            tail@ == name@.subrange(after as int, i as int),
        decreases name@.len() - i,
    {
        tail.push(name[i]);
        i = i + 1;
    }
    assert(tail@ =~= name@.skip(after as int));
    Some(to_lower(tail.as_slice()))
}

/// The extension of the last component of `path`, in lower case. On a Windows host
/// the path of a network share or a device, which no normal form is, is left out.
pub fn extension(path: &str, host: Host) -> (r: Option<String>)
    requires
        host is Windows ==> !on_network(path@),
    ensures
        match r {
            Some(found) => extension_of(path@, host) == Some(found@),
            None => extension_of(path@, host) is None,
        },
{
    let local = read_local_path(path, host);
    let pieces = path_steps(local.as_str());
    if pieces.len() == 0 {
        return None;
    }
    let last = &pieces[pieces.len() - 1];
    assert(texts(pieces@).last() == last@);
    if text_eq(last.as_str(), "..") {
        return None;
    }
    name_extension(last.as_str())
}

/// The extensions of programs and scripts.
pub open spec fn executable_extension(ext: Seq<char>) -> bool {
    ||| ext == "exe"@
    ||| ext == "dll"@
    ||| ext == "bat"@
    ||| ext == "cmd"@
    ||| ext == "ps1"@
    ||| ext == "js"@
    ||| ext == "vbs"@
    ||| ext == "scr"@
    ||| ext == "msi"@
    ||| ext == "com"@
}

/// The extensions of archives.
pub open spec fn archive_extension(ext: Seq<char>) -> bool {
    ||| ext == "zip"@
    ||| ext == "jar"@
    ||| ext == "war"@
    ||| ext == "ear"@
    ||| ext == "7z"@
    ||| ext == "gz"@
    ||| ext == "tar"@
}

/// Whether `path` names a program or a script.
pub open spec fn executable_like(path: Seq<char>, host: Host) -> bool {
    extension_of(path, host) matches Some(ext) && executable_extension(ext)
}

/// Whether `path` names an archive.
pub open spec fn archive_like(path: Seq<char>, host: Host) -> bool {
    extension_of(path, host) matches Some(ext) && archive_extension(ext)
}

/// Whether a file name is that of a zip file, in any case.
pub open spec fn zip_name(name: Seq<char>) -> bool {
    name_extension_of(name) == Some("zip"@)
}

/// Whether `path` names a zip file, in any case.
pub open spec fn zip_named(path: Seq<char>, host: Host) -> bool {
    extension_of(path, host) == Some("zip"@)
}

/// Whether `path` names a program or a script.
pub fn is_executable_like(path: &str, host: Host) -> (r: bool)
    requires
        host is Windows ==> !on_network(path@),
    ensures
        r == executable_like(path@, host),
{
    match extension(path, host) {
        None => false,
        Some(found) => {
            let ext = found.as_str();
            text_eq(ext, "exe") || text_eq(ext, "dll") || text_eq(ext, "bat") || text_eq(ext, "cmd")
                || text_eq(ext, "ps1") || text_eq(ext, "js") || text_eq(ext, "vbs") || text_eq(
                ext,
                "scr",
            ) || text_eq(ext, "msi") || text_eq(ext, "com")
        },
    }
}

/// Whether `path` names an archive.
pub fn is_nested_archive(path: &str, host: Host) -> (r: bool)
    requires
        host is Windows ==> !on_network(path@),
    ensures
        r == archive_like(path@, host),
{
    match extension(path, host) {
        None => false,
        Some(found) => {
            let ext = found.as_str();
            text_eq(ext, "zip") || text_eq(ext, "jar") || text_eq(ext, "war") || text_eq(ext, "ear")
                || text_eq(ext, "7z") || text_eq(ext, "gz") || text_eq(ext, "tar")
        },
    }
}

/// Whether a file name is that of a zip file, in any case.
pub fn is_zip_name(name: &str) -> (r: bool)
    ensures
        r == zip_name(name@),
{
    match name_extension(name) {
        None => false,
        Some(found) => text_eq(found.as_str(), "zip"),
    }
}

/// Whether `path` names a zip file, in any case.
pub fn is_zip_path(path: &str, host: Host) -> (r: bool)
    requires
        host is Windows ==> !on_network(path@),
    ensures
        r == zip_named(path@, host),
{
    match extension(path, host) {
        None => false,
        Some(found) => text_eq(found.as_str(), "zip"),
    }
}

} // verus!
