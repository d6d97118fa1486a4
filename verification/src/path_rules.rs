//! How paths are judged, told from how they are made up: a path of two parts from its
//! parts, and a single piece from its characters.

use crate::path::{
    absolute, archive_like, climbs, executable_like, extension_of, is_step, last_dot,
    name_extension_of, normalized, on_drive, split, split_is_not_empty, steps, zip_name, zip_named,
    Host,
};
use crate::path_laws::{drive_prefix_in_characters, steps_are_steps};
use crate::text::{lower, replaced};
use crate::text_laws::joining_adds_up;
use vstd::prelude::*;

verus! {

/// A separator between two texts keeps the pieces of both.
proof fn split_adds_up(a: Seq<char>, b: Seq<char>)
    ensures
        split(a.push('/') + b, '/') == split(a, '/') + split(b, '/'),
    decreases b.len(),
{
    let whole = a.push('/') + b;
    split_is_not_empty(a, '/');
    split_is_not_empty(b, '/');
    if b.len() == 0 {
        assert(whole =~= a.push('/'));
        assert(a.push('/').drop_last() =~= a);
        assert(split(whole, '/') =~= split(a, '/') + split(b, '/'));
    } else {
        let shorter = b.drop_last();
        split_adds_up(a, shorter);
        split_is_not_empty(shorter, '/');
        assert(whole.drop_last() =~= a.push('/') + shorter);
        assert(whole.last() == b.last());
        let x = split(a, '/');
        let y = split(shorter, '/');
        assert((x + y).last() == y.last());
        assert((x + y).drop_last() =~= x + y.drop_last());
        assert(split(whole, '/') =~= x + split(b, '/'));
    }
}

/// A text without a separator is its only piece.
proof fn split_of_one(piece: Seq<char>)
    requires
        !piece.contains('/'),
    ensures
        split(piece, '/') == seq![piece],
    decreases piece.len(),
{
    if piece.len() > 0 {
        let shorter = piece.drop_last();
        assert forall|i: int| 0 <= i < shorter.len() implies shorter[i] != '/' by {
            assert(piece.contains(piece[i]));
        }
        split_of_one(shorter);
        assert(piece.contains(piece.last()));
        assert(shorter.push(piece.last()) =~= piece);
        assert(split(piece, '/') =~= seq![piece]);
    } else {
        assert(piece =~= Seq::<char>::empty());
        assert(split(piece, '/') =~= seq![piece]);
    }
}

/// The steps of two paths with a separator between are those of both.
proof fn steps_add_up(a: Seq<char>, b: Seq<char>)
    ensures
        steps(a.push('/') + b) == steps(a) + steps(b),
{
    split_adds_up(a, b);
    Seq::filter_distributes_over_add(
        split(a, '/'),
        split(b, '/'),
        |piece: Seq<char>| is_step(piece),
    );
}

/// The steps of a single piece: itself, if it leads anywhere.
proof fn steps_of_one(piece: Seq<char>)
    requires
        !piece.contains('/'),
    ensures
        steps(piece) == if piece.len() == 0 || piece == seq!['.'] {
            Seq::<Seq<char>>::empty()
        } else {
            seq![piece]
        },
{
    reveal_strlit(".");
    split_of_one(piece);
    reveal_with_fuel(Seq::<_>::filter, 2);
    assert(seq![piece].drop_last() =~= Seq::<Seq<char>>::empty());
    assert("."@ =~= seq!['.']);
    assert(steps(piece) =~= if is_step(piece) {
        seq![piece]
    } else {
        Seq::empty()
    });
}

/// What leads anywhere leaves something.
proof fn normalized_is_empty(path: Seq<char>)
    ensures
        normalized(path).len() == 0 <==> steps(path).len() == 0,
{
    let pieces = steps(path);
    if pieces.len() > 0 {
        steps_are_steps(path, pieces.len() - 1);
        assert(pieces.last().len() > 0);
    }
}

/// A normal form by its parts: the normal forms of two parts with a separator
/// between, or that of the part that leads anywhere if only one does.
pub proof fn normal_form_by_parts(a: Seq<char>, b: Seq<char>)
    ensures
        normalized(a.push('/') + b) == if normalized(a).len() == 0 {
            normalized(b)
        } else if normalized(b).len() == 0 {
            normalized(a)
        } else {
            normalized(a).push('/') + normalized(b)
        },
{
    reveal_strlit("/");
    steps_add_up(a, b);
    normalized_is_empty(a);
    normalized_is_empty(b);
    joining_adds_up(steps(a), steps(b), Seq::empty(), "/"@);
    if steps(a).len() == 0 {
        assert(steps(a) + steps(b) =~= steps(b));
    } else if steps(b).len() == 0 {
        assert(steps(a) + steps(b) =~= steps(a));
    } else {
        assert(normalized(a) + "/"@ =~= normalized(a).push('/'));
    }
}

/// The normal form of a single piece: nothing for nothing and for a single dot, else
/// the piece.
pub proof fn normal_form_of_one_piece(piece: Seq<char>)
    requires
        !piece.contains('/'),
    ensures
        normalized(piece) == if piece == seq!['.'] {
            Seq::<char>::empty()
        } else {
            piece
        },
{
    steps_of_one(piece);
    if piece.len() == 0 {
        assert(piece =~= Seq::<char>::empty());
    }
}

/// A path climbs exactly if one of its parts does.
pub proof fn climbing_by_parts(a: Seq<char>, b: Seq<char>)
    ensures
        climbs(a.push('/') + b) == (climbs(a) || climbs(b)),
{
    split_adds_up(a, b);
    let x = split(a, '/');
    let y = split(b, '/');
    let up = ".."@;
    if x.contains(up) {
        assert((x + y)[x.index_of(up)] == up);
    }
    if y.contains(up) {
        assert((x + y)[x.len() + y.index_of(up)] == up);
    }
    if (x + y).contains(up) {
        let k = (x + y).index_of(up);
        if k < x.len() {
            assert(x[k] == up);
        } else {
            assert(y[k - x.len()] == up);
        }
    }
}

/// A single piece climbs exactly if it is two dots.
pub proof fn climbing_of_one_piece(piece: Seq<char>)
    requires
        !piece.contains('/'),
    ensures
        climbs(piece) == (piece == seq!['.', '.']),
{
    reveal_strlit("..");
    split_of_one(piece);
    assert(".."@ =~= seq!['.', '.']);
    assert(seq![piece][0] == piece);
    assert(split(piece, '/').contains(".."@) <==> piece == ".."@);
}

proof fn code_is_number(c: char)
    ensures
        c as u32 == c as int,
{
}

/// A path is absolute exactly if it starts with a slash or a backslash, or with an
/// ASCII character, a colon and one of these.
pub proof fn absolute_by_characters(path: Seq<char>)
    ensures
        absolute(path) <==> {
            ||| path.len() > 0 && (path[0] == '/' || path[0] == '\\')
            ||| path.len() >= 3 && (path[0] as int) < 128 && path[1] == ':' && (path[2] == '/'
                || path[2] == '\\')
        },
{
    drive_prefix_in_characters(path);
    if path.len() > 0 {
        code_is_number(path[0]);
    }
}

/// Where the last dot of a name stands.
proof fn last_dot_stands(stem: Seq<char>, ext: Seq<char>)
    requires
        !ext.contains('.'),
    ensures
        last_dot(stem.push('.') + ext) == stem.len(),
    decreases ext.len(),
{
    let name = stem.push('.') + ext;
    if ext.len() == 0 {
        assert(name =~= stem.push('.'));
    } else {
        let shorter = ext.drop_last();
        assert forall|i: int| 0 <= i < shorter.len() implies shorter[i] != '.' by {
            assert(ext.contains(ext[i]));
        }
        last_dot_stands(stem, shorter);
        assert(ext.contains(ext.last()));
        assert(name.drop_last() =~= stem.push('.') + shorter);
    }
}

/// A name without a dot has no last one.
proof fn no_dot_stands(name: Seq<char>)
    requires
        !name.contains('.'),
    ensures
        last_dot(name) == -1,
    decreases name.len(),
{
    if name.len() > 0 {
        let shorter = name.drop_last();
        assert forall|i: int| 0 <= i < shorter.len() implies shorter[i] != '.' by {
            assert(name.contains(name[i]));
        }
        no_dot_stands(shorter);
        assert(name.contains(name.last()));
    }
}

/// What follows the last dot of a name is its extension, in lower case, unless nothing
/// stands before that dot. A name without a dot has no extension.
pub proof fn extension_behind_the_last_dot(stem: Seq<char>, ext: Seq<char>)
    requires
        !ext.contains('.'),
    ensures
        name_extension_of(stem.push('.') + ext) == if stem.len() > 0 {
            Some(lower(ext))
        } else {
            None
        },
        name_extension_of(ext) is None,
{
    last_dot_stands(stem, ext);
    no_dot_stands(ext);
    assert((stem.push('.') + ext).skip(stem.len() as int + 1) =~= ext);
}

/// The extension of a path is that of what stands behind its last separator, if that
/// leads anywhere but up; a separator or a single dot at the end makes no difference,
/// and a path that leads nowhere or ends in a step up has none.
pub proof fn extension_of_the_last_piece(front: Seq<char>, name: Seq<char>)
    requires
        !name.contains('/'),
        name.len() > 0,
        name != seq!['.'],
        name != seq!['.', '.'],
    ensures
        extension_of(name, Host::Unix) == name_extension_of(name),
        extension_of(front.push('/') + name, Host::Unix) == name_extension_of(name),
        extension_of(front.push('/'), Host::Unix) == extension_of(front, Host::Unix),
        extension_of(front.push('/').push('.'), Host::Unix) == extension_of(front, Host::Unix),
        extension_of(front.push('/').push('.').push('.'), Host::Unix) is None,
        extension_of(seq!['.', '.'], Host::Unix) is None,
        extension_of(seq!['.'], Host::Unix) is None,
        extension_of(Seq::empty(), Host::Unix) is None,
{
    reveal_strlit("..");
    assert(".."@ =~= seq!['.', '.']);
    let nothing = Seq::<char>::empty();
    let dot = seq!['.'];
    let up = seq!['.', '.'];
    steps_of_one(name);
    steps_of_one(nothing);
    steps_of_one(dot);
    steps_of_one(up);
    steps_add_up(front, name);
    steps_add_up(front, nothing);
    steps_add_up(front, dot);
    steps_add_up(front, up);
    assert(front.push('/') + nothing =~= front.push('/'));
    assert(front.push('/') + dot =~= front.push('/').push('.'));
    assert(front.push('/') + up =~= front.push('/').push('.').push('.'));
    assert(steps(front) + Seq::<Seq<char>>::empty() =~= steps(front));
    assert((steps(front) + seq![name]).last() == name);
    assert((steps(front) + seq![up]).last() == up);
}

/// On a Windows host a backslash is as good as a slash, and a letter and a colon in
/// front make no difference, so that what follows them is judged alone.
pub proof fn windows_paths_by_parts(path: Seq<char>, letter: char)
    ensures
        extension_of(replaced(path, '\\', '/'), Host::Windows) == extension_of(path, Host::Windows),
        ('a' <= letter <= 'z' || 'A' <= letter <= 'Z') ==> extension_of(
            seq![letter, ':'] + path,
            Host::Windows,
        ) == extension_of(replaced(path, '\\', '/'), Host::Unix),
        !(path.len() >= 2 && ('a' <= path[0] <= 'z' || 'A' <= path[0] <= 'Z') && path[1] == ':')
            ==> extension_of(path, Host::Windows) == extension_of(
            replaced(path, '\\', '/'),
            Host::Unix,
        ),
{
    let slashed = replaced(path, '\\', '/');
    assert(replaced(slashed, '\\', '/') =~= slashed);
    if path.len() >= 2 {
        assert(slashed[0] == path[0] || path[0] == '\\');
        assert(slashed[1] == path[1] || path[1] == '\\');
    }
    assert(on_drive(slashed) == on_drive(path));
    let more = seq![letter, ':'] + path;
    assert(more[0] == letter && more[1] == ':');
    assert(replaced(more, '\\', '/').skip(2) =~= slashed);
}

/// A path is taken for a program or a script exactly if its extension is one of the
/// ten, for an archive exactly if it is one of the seven, and for a zip file exactly
/// if it is that one. A path with any other extension, or without one, is none.
pub proof fn kinds_by_extension(path: Seq<char>, host: Host)
    ensures
        executable_like(path, host) <==> (extension_of(path, host) matches Some(ext)
            && set![
                seq!['e', 'x', 'e'],
                seq!['d', 'l', 'l'],
                seq!['b', 'a', 't'],
                seq!['c', 'm', 'd'],
                seq!['p', 's', '1'],
                seq!['j', 's'],
                seq!['v', 'b', 's'],
                seq!['s', 'c', 'r'],
                seq!['m', 's', 'i'],
                seq!['c', 'o', 'm'],
            ].contains(ext)),
        archive_like(path, host) <==> (extension_of(path, host) matches Some(ext)
            && set![
                seq!['z', 'i', 'p'],
                seq!['j', 'a', 'r'],
                seq!['w', 'a', 'r'],
                seq!['e', 'a', 'r'],
                seq!['7', 'z'],
                seq!['g', 'z'],
                seq!['t', 'a', 'r'],
            ].contains(ext)),
        zip_named(path, host) <==> extension_of(path, host) == Some(seq!['z', 'i', 'p']),
        zip_name(path) <==> name_extension_of(path) == Some(seq!['z', 'i', 'p']),
{
    reveal_strlit("exe");
    reveal_strlit("dll");
    reveal_strlit("bat");
    reveal_strlit("cmd");
    reveal_strlit("ps1");
    reveal_strlit("js");
    reveal_strlit("vbs");
    reveal_strlit("scr");
    reveal_strlit("msi");
    reveal_strlit("com");
    reveal_strlit("zip");
    reveal_strlit("jar");
    reveal_strlit("war");
    reveal_strlit("ear");
    reveal_strlit("7z");
    reveal_strlit("gz");
    reveal_strlit("tar");
    assert("exe"@ =~= seq!['e', 'x', 'e']);
    assert("dll"@ =~= seq!['d', 'l', 'l']);
    assert("bat"@ =~= seq!['b', 'a', 't']);
    assert("cmd"@ =~= seq!['c', 'm', 'd']);
    assert("ps1"@ =~= seq!['p', 's', '1']);
    assert("js"@ =~= seq!['j', 's']);
    assert("vbs"@ =~= seq!['v', 'b', 's']);
    assert("scr"@ =~= seq!['s', 'c', 'r']);
    assert("msi"@ =~= seq!['m', 's', 'i']);
    assert("com"@ =~= seq!['c', 'o', 'm']);
    assert("zip"@ =~= seq!['z', 'i', 'p']);
    assert("jar"@ =~= seq!['j', 'a', 'r']);
    assert("war"@ =~= seq!['w', 'a', 'r']);
    assert("ear"@ =~= seq!['e', 'a', 'r']);
    assert("7z"@ =~= seq!['7', 'z']);
    assert("gz"@ =~= seq!['g', 'z']);
    assert("tar"@ =~= seq!['t', 'a', 'r']);
}

/// A file name `stem.ext` behind whatever directories is taken for a program exactly
/// if `ext` in lower case is one of the ten extensions, and likewise for an archive
/// and a zip file.
pub proof fn programs_by_name(front: Seq<char>, stem: Seq<char>, ext: Seq<char>)
    requires
        stem.len() > 0,
        stem.push('.') + ext != seq!['.', '.'],
        !stem.contains('/'),
        !ext.contains('/'),
        !ext.contains('.'),
    ensures
        executable_like(front.push('/') + (stem.push('.') + ext), Host::Unix)
            <==> set![
                seq!['e', 'x', 'e'],
                seq!['d', 'l', 'l'],
                seq!['b', 'a', 't'],
                seq!['c', 'm', 'd'],
                seq!['p', 's', '1'],
                seq!['j', 's'],
                seq!['v', 'b', 's'],
                seq!['s', 'c', 'r'],
                seq!['m', 's', 'i'],
                seq!['c', 'o', 'm'],
            ].contains(lower(ext)),
        archive_like(front.push('/') + (stem.push('.') + ext), Host::Unix)
            <==> set![
                seq!['z', 'i', 'p'],
                seq!['j', 'a', 'r'],
                seq!['w', 'a', 'r'],
                seq!['e', 'a', 'r'],
                seq!['7', 'z'],
                seq!['g', 'z'],
                seq!['t', 'a', 'r'],
            ].contains(lower(ext)),
        zip_named(front.push('/') + (stem.push('.') + ext), Host::Unix) <==> lower(ext) == seq![
            'z',
            'i',
            'p',
        ],
{
    let name = stem.push('.') + ext;
    assert forall|i: int| 0 <= i < name.len() implies name[i] != '/' by {
        if i < stem.len() {
            assert(stem.contains(stem[i]));
        } else if i > stem.len() {
            assert(ext.contains(ext[i - stem.len() - 1]));
        }
    }
    assert(name != seq!['.']) by {
        assert(name.len() > 1);
    }
    extension_behind_the_last_dot(stem, ext);
    extension_of_the_last_piece(front, name);
    kinds_by_extension(front.push('/') + name, Host::Unix);
}

} // verus!
