//! What holds of archive paths as a whole: normalization changes no verdict, and
//! letter case never matters.

use crate::path::{
    archive_extension, archive_like, climbs, climbs_is_a_step, drive_prefixed, executable_extension,
    executable_like, extension_of, file_name, is_step, last_dot, local_path, normalized, on_drive,
    split, split_is_not_empty, steps, zip_name, zip_named, Host,
};
use crate::text::{joined, lower, lower_char, replaced};
use vstd::prelude::*;
use vstd::utf8::{
    encode_scalar, encode_utf8, last_continuation_byte, leading_byte_width_1, leading_byte_width_2,
    leading_byte_width_3, leading_byte_width_4, second_last_continuation_byte,
    third_last_continuation_byte,
};

verus! {

/// No piece of a split text holds the separator.
pub proof fn pieces_hold_no_separator(s: Seq<char>, sep: char, k: int)
    requires
        0 <= k < split(s, sep).len(),
    ensures
        !split(s, sep)[k].contains(sep),
    decreases s.len(),
{
    if s.len() > 0 {
        let before = split(s.drop_last(), sep);
        split_is_not_empty(s.drop_last(), sep);
        if k < before.len() {
            pieces_hold_no_separator(s.drop_last(), sep, k);
        }
        if s.last() != sep && k == before.len() - 1 {
            let grown = before.last().push(s.last());
            assert forall|i: int| 0 <= i < grown.len() implies grown[i] != sep by {
                if i < before.last().len() {
                    assert(before.last().contains(before.last()[i]));
                }
            }
        }
    }
}

/// A separator and a piece without one add that piece.
proof fn split_appended(s: Seq<char>, piece: Seq<char>, sep: char)
    requires
        !piece.contains(sep),
    ensures
        split(s.push(sep) + piece, sep) == split(s, sep).push(piece),
    decreases piece.len(),
{
    let whole = s.push(sep) + piece;
    if piece.len() == 0 {
        assert(whole =~= s.push(sep));
        assert(s.push(sep).drop_last() =~= s);
        assert(piece =~= Seq::<char>::empty());
    } else {
        let shorter = piece.drop_last();
        assert forall|i: int| 0 <= i < shorter.len() implies shorter[i] != sep by {
            assert(piece.contains(piece[i]));
        }
        split_appended(s, shorter, sep);
        assert(whole.drop_last() =~= s.push(sep) + shorter);
        assert(piece.contains(piece.last()));
        assert(split(s, sep).push(shorter).drop_last() =~= split(s, sep));
        assert(shorter.push(piece.last()) =~= piece);
    }
}

/// A text without the separator is its own only piece.
proof fn split_single(piece: Seq<char>, sep: char)
    requires
        !piece.contains(sep),
    ensures
        split(piece, sep) == seq![piece],
    decreases piece.len(),
{
    if piece.len() == 0 {
        assert(piece =~= Seq::<char>::empty());
    } else {
        let shorter = piece.drop_last();
        assert forall|i: int| 0 <= i < shorter.len() implies shorter[i] != sep by {
            assert(piece.contains(piece[i]));
        }
        split_single(shorter, sep);
        assert(piece.contains(piece.last()));
        assert(shorter.push(piece.last()) =~= piece);
        assert(split(piece, sep) =~= seq![piece]);
    }
}

/// Splitting undoes joining: pieces without a slash come back from their joined text.
pub proof fn split_undoes_join(pieces: Seq<Seq<char>>)
    requires
        pieces.len() > 0,
        forall|k: int| 0 <= k < pieces.len() ==> !(#[trigger] pieces[k]).contains('/'),
    ensures
        split(joined(pieces, "/"@), '/') == pieces,
    decreases pieces.len(),
{
    reveal_strlit("/");
    if pieces.len() == 1 {
        split_single(pieces[0], '/');
        assert(pieces =~= seq![pieces[0]]);
    } else {
        let front = pieces.drop_last();
        assert forall|k: int| 0 <= k < front.len() implies !(#[trigger] front[k]).contains('/') by {
            assert(front[k] == pieces[k]);
        }
        split_undoes_join(front);
        split_appended(joined(front, "/"@), pieces.last(), '/');
        assert(joined(front, "/"@) + "/"@ =~= joined(front, "/"@).push('/'));
        assert(front.push(pieces.last()) =~= pieces);
    }
}

/// Keeping the steps of steps keeps them all.
proof fn filter_keeps_steps(pieces: Seq<Seq<char>>)
    requires
        forall|k: int| 0 <= k < pieces.len() ==> is_step(#[trigger] pieces[k]),
    ensures
        pieces.filter(|piece: Seq<char>| is_step(piece)) == pieces,
    decreases pieces.len(),
{
    reveal(Seq::filter);
    if pieces.len() > 0 {
        filter_keeps_steps(pieces.drop_last());
        assert(is_step(pieces[pieces.len() - 1]));
        assert(pieces.drop_last().push(pieces.last()) =~= pieces);
    }
}

/// Every step is a step, and holds no slash.
pub proof fn steps_are_steps(path: Seq<char>, k: int)
    requires
        0 <= k < steps(path).len(),
    ensures
        is_step(steps(path)[k]),
        !steps(path)[k].contains('/'),
{
    let keep = |piece: Seq<char>| is_step(piece);
    let pieces = split(path, '/');
    pieces.lemma_filter_pred(keep, k);
    assert(steps(path).contains(steps(path)[k]));
    pieces.lemma_filter_contains_rev(keep, steps(path)[k]);
    let i = pieces.index_of(steps(path)[k]);
    pieces_hold_no_separator(path, '/', i);
}

/// Normalization keeps the steps of a path.
pub proof fn normalization_keeps_steps(path: Seq<char>)
    ensures
        steps(normalized(path)) == steps(path),
{
    let pieces = steps(path);
    assert forall|k: int| 0 <= k < pieces.len() implies is_step(#[trigger] pieces[k])
        && !pieces[k].contains('/') by {
        steps_are_steps(path, k);
    }
    if pieces.len() == 0 {
        reveal_with_fuel(Seq::<_>::filter, 2);
        assert(normalized(path) =~= Seq::<char>::empty());
        let blank = seq![Seq::<char>::empty()];
        assert(split(normalized(path), '/') == blank);
        assert(blank.drop_last() =~= Seq::<Seq<char>>::empty());
        assert(steps(normalized(path)) =~= pieces);
    } else {
        split_undoes_join(pieces);
        filter_keeps_steps(pieces);
    }
}

/// Normalizing twice is normalizing once.
pub proof fn normalization_is_idempotent(path: Seq<char>)
    ensures
        normalized(normalized(path)) == normalized(path),
{
    normalization_keeps_steps(path);
}

/// A path and its normal form climb alike.
pub proof fn normalization_keeps_traversal(path: Seq<char>)
    ensures
        climbs(normalized(path)) == climbs(path),
{
    normalization_keeps_steps(path);
    climbs_is_a_step(path);
    climbs_is_a_step(normalized(path));
}

/// Where no drive is told apart, a path and its normal form have the same extension,
/// and so the same verdict on what kind of file they name.
pub proof fn normalization_keeps_extension(path: Seq<char>)
    ensures
        extension_of(normalized(path), Host::Unix) == extension_of(path, Host::Unix),
        executable_like(normalized(path), Host::Unix) == executable_like(path, Host::Unix),
        archive_like(normalized(path), Host::Unix) == archive_like(path, Host::Unix),
        zip_named(normalized(path), Host::Unix) == zip_named(path, Host::Unix),
{
    normalization_keeps_steps(path);
}

/// The pieces of a split text hold nothing that the text does not.
proof fn pieces_come_from_the_text(s: Seq<char>, sep: char, k: int, c: char)
    requires
        0 <= k < split(s, sep).len(),
        split(s, sep)[k].contains(c),
    ensures
        s.contains(c),
    decreases s.len(),
{
    if s.len() > 0 {
        let before = split(s.drop_last(), sep);
        split_is_not_empty(s.drop_last(), sep);
        if s.last() != sep && k == before.len() - 1 && !before.last().contains(c) {
            let grown = before.last().push(s.last());
            let i = grown.index_of(c);
            if i < before.last().len() {
                assert(before.last()[i] == c);
            }
            assert(s[s.len() - 1] == c);
        } else {
            assert(k < before.len() && before[k].contains(c));
            pieces_come_from_the_text(s.drop_last(), sep, k, c);
            let i = s.drop_last().index_of(c);
            assert(s[i] == c);
        }
    }
}

/// A normal form has no leading slash, so that it never shows whether the path
/// was rooted, and it starts with nothing that the path does not hold.
pub proof fn normal_form_is_not_rooted(path: Seq<char>)
    ensures
        normalized(path).len() > 0 ==> normalized(path)[0] != '/' && path.contains(
            normalized(path)[0],
        ),
{
    let pieces = steps(path);
    if pieces.len() > 0 {
        steps_are_steps(path, 0);
        let keep = |piece: Seq<char>| is_step(piece);
        let all = split(path, '/');
        assert(pieces.contains(pieces[0]));
        all.lemma_filter_contains_rev(keep, pieces[0]);
        pieces_come_from_the_text(path, '/', all.index_of(pieces[0]), pieces[0][0]);
        joined_starts_with_first(pieces, "/"@);
        assert(pieces[0].contains(pieces[0][0]));
    }
}

/// A joined text starts with its first piece.
proof fn joined_starts_with_first(pieces: Seq<Seq<char>>, sep: Seq<char>)
    requires
        pieces.len() > 0,
    ensures
        pieces[0].len() <= joined(pieces, sep).len(),
        joined(pieces, sep).take(pieces[0].len() as int) == pieces[0],
    decreases pieces.len(),
{
    if pieces.len() > 1 {
        joined_starts_with_first(pieces.drop_last(), sep);
        assert(joined(pieces, sep).take(pieces[0].len() as int) =~= joined(
            pieces.drop_last(),
            sep,
        ).take(pieces[0].len() as int));
    } else {
        assert(pieces[0].take(pieces[0].len() as int) =~= pieces[0]);
    }
}

/// No path is taken for a program and for an archive.
pub proof fn programs_are_not_archives(path: Seq<char>, host: Host)
    ensures
        !(executable_like(path, host) && archive_like(path, host)),
{
    reveal_strlit("exe");
    reveal_strlit("dll");
    reveal_strlit("bat");
    reveal_strlit("cmd");
    reveal_strlit("ps1");
    reveal_strlit("js");
    reveal_strlit("vbs");
    reveal_strlit("scr");
    reveal_strlit("msi");
    reveal_strlit("com");
    reveal_strlit("zip");
    reveal_strlit("jar");
    reveal_strlit("war");
    reveal_strlit("ear");
    reveal_strlit("7z");
    reveal_strlit("gz");
    reveal_strlit("tar");
    assert forall|ext: Seq<char>| executable_extension(ext) implies !archive_extension(ext) by {
        if archive_extension(ext) {
            assert(ext.len() == 3 || ext.len() == 2);
            assert(ext[0] == 'e' || ext[0] == 'z' || ext[0] == 'j' || ext[0] == 'w' || ext[0] == '7'
                || ext[0] == 'g' || ext[0] == 't');
            assert(ext[1] != 'x' && ext[1] != 's');
        }
    }
}

/// A path names a zip file exactly if its extension says so, and exactly if it has a
/// file name and that is the name of a zip file.
pub proof fn zip_paths_by_extension_and_name(path: Seq<char>, host: Host)
    ensures
        zip_named(path, host) == (extension_of(path, host) == Some("zip"@)),
        zip_named(path, host) == (file_name(local_path(path, host)) matches Some(name)
            && zip_name(name)),
{
}

/// Hosts of either kind agree on a path without a backslash and without a drive in
/// front.
pub proof fn hosts_agree_on_plain_paths(path: Seq<char>, one: Host, other: Host)
    requires
        !path.contains('\\'),
        !on_drive(path),
    ensures
        extension_of(path, one) == extension_of(path, other),
        executable_like(path, one) == executable_like(path, other),
        archive_like(path, one) == archive_like(path, other),
        zip_named(path, one) == zip_named(path, other),
{
    assert forall|i: int| 0 <= i < path.len() implies path[i] != '\\' by {
        assert(path.contains(path[i]));
    }
    assert(replaced(path, '\\', '/') =~= path);
}

/// Lower case changes no dot, no slash and no colon, letters stay letters, and lowering twice is lowering once.
proof fn lower_char_keeps_marks(c: char)
    ensures
        lower_char(c) == '/' <==> c == '/',
        lower_char(c) == '.' <==> c == '.',
        lower_char(c) == '\\' <==> c == '\\',
        lower_char(c) == ':' <==> c == ':',
        ('a' <= lower_char(c) <= 'z' || 'A' <= lower_char(c) <= 'Z') <==> ('a' <= c <= 'z' || 'A'
            <= c <= 'Z'),
        lower_char(lower_char(c)) == lower_char(c),
{
}

/// Each piece in lower case.
spec fn lowered(pieces: Seq<Seq<char>>) -> Seq<Seq<char>> {
    Seq::new(pieces.len(), |k: int| lower(pieces[k]))
}

/// The pieces of a lowered text are the lowered pieces of the text.
proof fn split_of_lower(s: Seq<char>)
    ensures
        split(lower(s), '/') == lowered(split(s, '/')),
    decreases s.len(),
{
    if s.len() == 0 {
        assert(lower(s) =~= s);
        assert(lower(Seq::<char>::empty()) =~= Seq::<char>::empty());
        assert(split(s, '/') =~= lowered(split(s, '/')));
    } else {
        split_of_lower(s.drop_last());
        split_is_not_empty(s.drop_last(), '/');
        lower_char_keeps_marks(s.last());
        assert(lower(s).drop_last() =~= lower(s.drop_last()));
        let before = split(s.drop_last(), '/');
        if s.last() == '/' {
            assert(lower(Seq::<char>::empty()) =~= Seq::<char>::empty());
            assert(split(lower(s), '/') =~= lowered(split(s, '/')));
        } else {
            assert(lower(before.last().push(s.last())) =~= lower(before.last()).push(
                lower_char(s.last()),
            ));
            assert(split(lower(s), '/') =~= lowered(split(s, '/')));
        }
    }
}

/// A text equals a text of dots exactly if its lowered form does.
proof fn lower_keeps_dots(s: Seq<char>)
    ensures
        lower(s) == "."@ <==> s == "."@,
        lower(s) == ".."@ <==> s == ".."@,
{
    reveal_strlit(".");
    reveal_strlit("..");
    assert forall|i: int| 0 <= i < s.len() implies (#[trigger] lower(s)[i] == '.' <==> s[i]
        == '.') by {
        lower_char_keeps_marks(s[i]);
    }
    assert(lower(s) =~= "."@ <==> s =~= "."@) by {
        if lower(s) =~= "."@ {
            assert(lower(s)[0] == '.');
        }
        if s =~= "."@ {
            assert(lower(s)[0] == '.');
        }
    }
    assert(lower(s) =~= ".."@ <==> s =~= ".."@) by {
        if lower(s) =~= ".."@ {
            assert(lower(s)[0] == '.' && lower(s)[1] == '.');
        }
        if s =~= ".."@ {
            assert(lower(s)[0] == '.' && lower(s)[1] == '.');
        }
    }
}

/// Choosing the steps and lowering them can be done in either order.
proof fn steps_of_lowered(pieces: Seq<Seq<char>>)
    ensures
        lowered(pieces).filter(|piece: Seq<char>| is_step(piece)) == lowered(
            pieces.filter(|piece: Seq<char>| is_step(piece)),
        ),
    decreases pieces.len(),
{
    reveal(Seq::filter);
    let keep = |piece: Seq<char>| is_step(piece);
    if pieces.len() == 0 {
        assert(lowered(pieces) =~= pieces);
        assert(lowered(pieces.filter(keep)) =~= pieces);
    } else {
        steps_of_lowered(pieces.drop_last());
        lower_keeps_dots(pieces.last());
        assert(lowered(pieces).drop_last() =~= lowered(pieces.drop_last()));
        assert(lowered(pieces).last() == lower(pieces.last()));
        let front = pieces.drop_last().filter(keep);
        assert(lowered(front.push(pieces.last())) =~= lowered(front).push(lower(pieces.last())));
    }
}

/// Lower case leaves the last dot where it is.
proof fn last_dot_of_lower(name: Seq<char>)
    ensures
        last_dot(lower(name)) == last_dot(name),
        -1 <= last_dot(name) < name.len(),
    decreases name.len(),
{
    if name.len() > 0 {
        last_dot_of_lower(name.drop_last());
        lower_char_keeps_marks(name.last());
        assert(lower(name).drop_last() =~= lower(name.drop_last()));
    }
}

/// A host reads a lowered path as it reads the path, in lower case.
proof fn local_path_of_lower(path: Seq<char>, host: Host)
    ensures
        local_path(lower(path), host) == lower(local_path(path, host)),
{
    assert forall|i: int| 0 <= i < path.len() implies replaced(lower(path), '\\', '/')[i] == lower(
        replaced(path, '\\', '/'),
    )[i] by {
        lower_char_keeps_marks(path[i]);
    }
    assert(replaced(lower(path), '\\', '/') =~= lower(replaced(path, '\\', '/')));
    if path.len() >= 2 {
        lower_char_keeps_marks(path[0]);
        lower_char_keeps_marks(path[1]);
        assert(lower(replaced(path, '\\', '/')).skip(2) =~= lower(
            replaced(path, '\\', '/').skip(2),
        ));
    }
    assert(on_drive(lower(path)) == on_drive(path));
}

/// The case of a path's letters makes no difference to its extension, and so none
/// to what kind of file it is taken to name.
pub proof fn letter_case_never_matters(path: Seq<char>, host: Host)
    ensures
        extension_of(lower(path), host) == extension_of(path, host),
        executable_like(lower(path), host) == executable_like(path, host),
        archive_like(lower(path), host) == archive_like(path, host),
        zip_named(lower(path), host) == zip_named(path, host),
{
    local_path_of_lower(path, host);
    extension_of_lower(local_path(path, host));
}

/// A path and its lowered form have the same extension.
proof fn extension_of_lower(path: Seq<char>)
    ensures
        extension_of(lower(path), Host::Unix) == extension_of(path, Host::Unix),
{
    split_of_lower(path);
    steps_of_lowered(split(path, '/'));
    assert(steps(lower(path)) == lowered(steps(path)));
    if steps(path).len() > 0 {
        let name = steps(path).last();
        lower_keeps_dots(name);
        assert(steps(lower(path)).last() == lower(name));
        last_dot_of_lower(name);
        let dot = last_dot(name);
        if dot > 0 && file_name(path) is Some {
            assert forall|i: int| 0 <= i < name.len() implies lower(lower(name))[i] == lower(
                name,
            )[i] by {
                lower_char_keeps_marks(name[i]);
            }
            assert(lower(lower(name).skip(dot + 1)) =~= lower(name.skip(dot + 1))) by {
                assert forall|i: int| 0 <= i < name.len() - dot - 1 implies lower_char(
                    lower_char(#[trigger] name.skip(dot + 1)[i]),
                ) == lower_char(name.skip(dot + 1)[i]) by {
                    lower_char_keeps_marks(name.skip(dot + 1)[i]);
                }
            }
        }
    }
}

/// A character outside ASCII is encoded in bytes that are all outside ASCII, and
/// an ASCII character in the one byte of its number.
proof fn encoded_char(c: char)
    ensures
        (c as u32) < 0x80 ==> encode_scalar(c as u32).len() == 1 && encode_scalar(c as u32)[0]
            == c as u32,
        c as u32 == c as int,
        (c as u32) >= 0x80 ==> encode_scalar(c as u32).len() >= 2 && encode_scalar(c as u32)[0]
            >= 0x80 && encode_scalar(c as u32)[1] >= 0x80,
{
    let n = c as u32;
    assert(n < 0x80 ==> leading_byte_width_1(n) == n) by (bit_vector);
    assert(leading_byte_width_2(n) >= 0x80) by (bit_vector);
    assert(leading_byte_width_3(n) >= 0x80) by (bit_vector);
    assert(leading_byte_width_4(n) >= 0x80) by (bit_vector);
    assert(last_continuation_byte(n) >= 0x80) by (bit_vector);
    assert(second_last_continuation_byte(n) >= 0x80) by (bit_vector);
    assert(third_last_continuation_byte(n) >= 0x80) by (bit_vector);
}

/// A drive prefix in characters: any ASCII character, a colon and a separator.
pub proof fn drive_prefix_in_characters(path: Seq<char>)
    ensures
        drive_prefixed(encode_utf8(path)) <==> {
            &&& path.len() >= 3
            &&& (path[0] as u32) < 0x80
            &&& path[1] == ':'
            &&& path[2] == '/' || path[2] == '\\'
        },
{
    let bytes = encode_utf8(path);
    if path.len() == 0 {
        assert(bytes.len() == 0);
    } else {
        let second = path.drop_first();
        encoded_char(path[0]);
        assert(bytes == encode_scalar(path[0] as u32) + encode_utf8(second));
        if path[0] as u32 >= 0x80 {
            assert(bytes[1] == encode_scalar(path[0] as u32)[1]);
        } else if second.len() == 0 {
            assert(bytes.len() == 1);
        } else {
            let third = second.drop_first();
            encoded_char(second[0]);
            assert(encode_utf8(second) == encode_scalar(second[0] as u32) + encode_utf8(third));
            assert(bytes[1] == encode_scalar(second[0] as u32)[0]);
            assert(path[1] == second[0]);
            if second[0] as u32 >= 0x80 {
                assert(bytes[1] >= 0x80);
            } else if third.len() == 0 {
                assert(bytes.len() == 2);
            } else {
                assert(path[2] == third[0]);
                encoded_char(third[0]);
                assert(encode_utf8(third) == encode_scalar(third[0] as u32) + encode_utf8(
                    third.drop_first(),
                ));
                assert(bytes[2] == encode_scalar(third[0] as u32)[0]);
            }
        }
    }
}

} // verus!
