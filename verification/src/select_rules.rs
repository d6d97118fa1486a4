//! Which archives are chosen, told from the inputs themselves.

use crate::lists::filter_push;
use crate::path::{name_extension_of, zip_name};
use crate::path_rules::kinds_by_extension;
use crate::select::{
    archives_of, candidates, departs_at, failure_message, first_failure, first_for_its_path,
    is_chosen, is_failure, is_first, is_selection, path_before, same_path, Found, HostPath, Input,
};
use vstd::prelude::*;

verus! {

/// Whether an input led to the path at position `x`: as the file that it is, or as the
/// file `i` below the directory that it is.
pub open spec fn led_to(input: Input, i: int, x: usize) -> bool {
    match input.found {
        Found::File => i == 0 && x == input.path,
        Found::Directory(files) => 0 <= i < files@.len() && x == files@[i],
        _ => false,
    }
}

/// The components of a path are its own, one by one.
pub proof fn components_one_by_one(path: HostPath)
    ensures
        path.key().len() == path.components@.len(),
        forall|i: int| 0 <= i < path.components@.len() ==> #[trigger] path.key()[i]
            == path.components@[i]@,
{
}

/// What is chosen from a list is in it, and what is in it is chosen if it meets the
/// condition.
proof fn chosen_from(s: Seq<usize>, x: usize, keep: spec_fn(usize) -> bool)
    ensures
        s.filter(keep).contains(x) <==> s.contains(x) && keep(x),
{
    if s.filter(keep).contains(x) {
        s.lemma_filter_contains_rev(keep, x);
        let m = s.filter(keep).index_of(x);
        s.lemma_filter_pred(keep, m);
    }
    if s.contains(x) && keep(x) {
        s.lemma_filter_contains(keep, s.index_of(x));
    }
}

/// The archives of an input are the zip files that it led to.
proof fn archives_of_one(paths: Seq<HostPath>, input: Input, x: usize)
    ensures
        archives_of(paths, input).contains(x) <==> zip_name(paths[x as int].file_name@) && exists|
            i: int,
        | #[trigger]
            led_to(input, i, x),
{
    let keep = |at: usize| zip_name(paths[at as int].file_name@);
    match input.found {
        Found::File => {
            let one = seq![input.path];
            chosen_from(one, x, keep);
            assert(one[0] == input.path);
            assert(one.contains(x) <==> x == input.path);
            if x == input.path {
                assert(led_to(input, 0, x));
            }
        },
        Found::Directory(files) => {
            chosen_from(files@, x, keep);
            if files@.contains(x) {
                assert(led_to(input, files@.index_of(x), x));
            }
        },
        _ => {},
    }
}

/// The candidates are the zip files that the inputs led to.
proof fn candidates_are_archives(paths: Seq<HostPath>, inputs: Seq<Input>, x: usize)
    ensures
        candidates(paths, inputs).contains(x) <==> zip_name(paths[x as int].file_name@) && exists|
            k: int,
            i: int,
        | 0 <= k < inputs.len() && #[trigger] led_to(inputs[k], i, x),
    decreases inputs.len(),
{
    if inputs.len() > 0 {
        let front = inputs.drop_last();
        let last = inputs[inputs.len() - 1];
        candidates_are_archives(paths, front, x);
        archives_of_one(paths, last, x);
        let before = candidates(paths, front);
        let added = archives_of(paths, last);
        let all = candidates(paths, inputs);
        assert(all == before + added);
        if before.contains(x) {
            assert(all[before.index_of(x)] == x);
            let (k, i) = choose|k: int, i: int|
                0 <= k < front.len() && #[trigger] led_to(front[k], i, x);
            assert(led_to(inputs[k], i, x));
        }
        if added.contains(x) {
            assert(all[before.len() + added.index_of(x)] == x);
            let i = choose|i: int| #[trigger] led_to(last, i, x);
            assert(led_to(inputs[inputs.len() - 1], i, x));
        }
        if all.contains(x) {
            let c = all.index_of(x);
            if c < before.len() {
                assert(before[c] == x);
            } else {
                assert(added[c - before.len()] == x);
            }
        }
        if exists|k: int, i: int| 0 <= k < inputs.len() && #[trigger] led_to(inputs[k], i, x) {
            let (k, i) = choose|k: int, i: int|
                0 <= k < inputs.len() && #[trigger] led_to(inputs[k], i, x);
            if k < front.len() {
                assert(led_to(front[k], i, x));
            } else {
                assert(led_to(last, i, x));
            }
        }
    } else {
        assert(candidates(paths, inputs) =~= Seq::<usize>::empty());
    }
}

/// Every zip file that an input led to, be it the input itself or a file at whatever
/// depth below it, is inspected: one of the chosen positions has its components.
pub proof fn every_archive_is_chosen(
    paths: Seq<HostPath>,
    inputs: Seq<Input>,
    chosen: Seq<usize>,
    k: int,
    i: int,
)
    requires
        is_selection(paths, candidates(paths, inputs), chosen),
        0 <= k < inputs.len(),
    ensures
        inputs[k].found is File && name_extension_of(paths[inputs[k].path as int].file_name@)
            == Some(seq!['z', 'i', 'p']) ==> exists|c: int|
            0 <= c < chosen.len() && {
                let one = paths[#[trigger] chosen[c] as int].components@;
                let other = paths[inputs[k].path as int].components@;
                one.len() == other.len() && forall|m: int|
                    0 <= m < one.len() ==> (#[trigger] one[m])@ == other[m]@
            },
        inputs[k].found matches Found::Directory(files) ==> (0 <= i < files@.len()
            && name_extension_of(paths[files@[i] as int].file_name@) == Some(seq!['z', 'i', 'p'])
            ==> exists|c: int|
            0 <= c < chosen.len() && {
                let one = paths[#[trigger] chosen[c] as int].components@;
                let other = paths[files@[i] as int].components@;
                one.len() == other.len() && forall|m: int|
                    0 <= m < one.len() ==> (#[trigger] one[m])@ == other[m]@
            }),
{
    match inputs[k].found {
        Found::File => {
            let x = inputs[k].path;
            kinds_by_extension(paths[x as int].file_name@, crate::path::Host::Unix);
            if zip_name(paths[x as int].file_name@) {
                assert(led_to(inputs[k], 0, x));
                archive_is_chosen(paths, inputs, chosen, x);
            }
        },
        Found::Directory(files) => {
            if 0 <= i < files@.len() {
                let x = files@[i];
                kinds_by_extension(paths[x as int].file_name@, crate::path::Host::Unix);
                if zip_name(paths[x as int].file_name@) {
                    assert(led_to(inputs[k], i, x));
                    archive_is_chosen(paths, inputs, chosen, x);
                }
            }
        },
        _ => {},
    }
}

proof fn archive_is_chosen(
    paths: Seq<HostPath>,
    inputs: Seq<Input>,
    chosen: Seq<usize>,
    x: usize,
)
    requires
        is_selection(paths, candidates(paths, inputs), chosen),
        zip_name(paths[x as int].file_name@),
        exists|k: int, i: int| 0 <= k < inputs.len() && #[trigger] led_to(inputs[k], i, x),
    ensures
        exists|c: int|
            0 <= c < chosen.len() && {
                let one = paths[#[trigger] chosen[c] as int].components@;
                let other = paths[x as int].components@;
                one.len() == other.len() && forall|m: int|
                    0 <= m < one.len() ==> (#[trigger] one[m])@ == other[m]@
            },
{
    let all = candidates(paths, inputs);
    candidates_are_archives(paths, inputs, x);
    let d = all.index_of(x);
    assert(is_chosen(paths, chosen, all[d]));
    let c = choose|c: int| 0 <= c < chosen.len() && same_path(paths, #[trigger] chosen[c], x);
    let one = paths[chosen[c] as int];
    let other = paths[x as int];
    assert(one.key() == other.key());
    assert(one.key().len() == one.components@.len());
    assert(other.key().len() == other.components@.len());
    assert forall|m: int| 0 <= m < one.components@.len() implies (
    #[trigger] one.components@[m])@ == other.components@[m]@ by {
        assert(one.key()[m] == other.key()[m]);
    }
}

/// Nothing else is inspected: every chosen position is one that an input led to, and
/// its file name ends in the extension of zip files.
pub proof fn only_archives_are_chosen(
    paths: Seq<HostPath>,
    inputs: Seq<Input>,
    chosen: Seq<usize>,
    c: int,
)
    requires
        is_selection(paths, candidates(paths, inputs), chosen),
        0 <= c < chosen.len(),
    ensures
        name_extension_of(paths[chosen[c] as int].file_name@) == Some(seq!['z', 'i', 'p']),
        exists|k: int|
            0 <= k < inputs.len() && {
                ||| (#[trigger] inputs[k]).found is File && inputs[k].path == chosen[c]
                ||| inputs[k].found matches Found::Directory(files) && files@.contains(chosen[c])
            },
{
    let x = chosen[c];
    let all = candidates(paths, inputs);
    assert(is_first(paths, all, x));
    let d = choose|d: int| #[trigger] first_for_its_path(paths, all, d) && all[d] == x;
    assert(all.contains(x));
    candidates_are_archives(paths, inputs, x);
    kinds_by_extension(paths[x as int].file_name@, crate::path::Host::Unix);
    let (k, i) = choose|k: int, i: int|
        0 <= k < inputs.len() && #[trigger] led_to(inputs[k], i, x);
    if let Found::Directory(files) = inputs[k].found {
        assert(files@[i] == x);
        assert(files@.contains(x));
    }
}

/// Where in a list something chosen from it stands, so that whatever is chosen from
/// what stands before it is chosen before it.
proof fn stands_at(s: Seq<usize>, m: int, keep: spec_fn(usize) -> bool) -> (i: int)
    requires
        0 <= m < s.filter(keep).len(),
    ensures
        0 <= i < s.len(),
        s[i] == s.filter(keep)[m],
        forall|j: int|
            0 <= j < i && keep(#[trigger] s[j]) ==> s.filter(keep).take(m).contains(s[j]),
    decreases s.len(),
{
    reveal(Seq::filter);
    let front = s.drop_last();
    let last = s.last();
    assert(front.push(last) =~= s);
    filter_push(front, last, keep);
    let before = front.filter(keep);
    if m < before.len() {
        let i = stands_at(front, m, keep);
        assert(s.filter(keep).take(m) =~= before.take(m));
        assert forall|j: int| 0 <= j < i && keep(#[trigger] s[j]) implies s.filter(keep).take(
            m,
        ).contains(s[j]) by {
            assert(front[j] == s[j]);
        }
        i
    } else {
        assert(s.filter(keep).take(m) =~= before);
        assert forall|j: int| 0 <= j < s.len() - 1 && keep(#[trigger] s[j]) implies before.contains(
            s[j],
        ) by {
            assert(front[j] == s[j]);
            front.lemma_filter_contains(keep, j);
        }
        s.len() - 1
    }
}

/// Where a candidate was found, so that every zip file found before it is a candidate
/// before it.
proof fn found_at(paths: Seq<HostPath>, inputs: Seq<Input>, c: int) -> (at: (int, int))
    requires
        0 <= c < candidates(paths, inputs).len(),
    ensures
        0 <= at.0 < inputs.len(),
        led_to(inputs[at.0], at.1, candidates(paths, inputs)[c]),
        forall|k: int, i: int, y: usize|
            0 <= k <= at.0 && (k < at.0 || i < at.1) && zip_name(paths[y as int].file_name@)
                && #[trigger] led_to(inputs[k], i, y) ==> candidates(paths, inputs).take(
                c,
            ).contains(y),
    decreases inputs.len(),
{
    let front = inputs.drop_last();
    let last = inputs[inputs.len() - 1];
    let before = candidates(paths, front);
    let added = archives_of(paths, last);
    let all = candidates(paths, inputs);
    assert(all == before + added);
    if c < before.len() {
        let at = found_at(paths, front, c);
        assert(all.take(c) =~= before.take(c));
        assert forall|k: int, i: int, y: usize|
            0 <= k <= at.0 && (k < at.0 || i < at.1) && zip_name(paths[y as int].file_name@)
                && #[trigger] led_to(inputs[k], i, y) implies all.take(c).contains(y) by {
            assert(led_to(front[k], i, y));
        }
        at
    } else {
        let keep = |at: usize| zip_name(paths[at as int].file_name@);
        let listed = match last.found {
            Found::File => seq![last.path],
            Found::Directory(files) => files@,
            _ => Seq::empty(),
        };
        reveal(Seq::filter);
        assert(added =~= listed.filter(keep));
        let m = c - before.len();
        let i = stands_at(listed, m, keep);
        let at = (inputs.len() - 1, i);
        assert(led_to(last, i, listed[i]));
        assert forall|k: int, j: int, y: usize|
            0 <= k <= at.0 && (k < at.0 || j < at.1) && zip_name(paths[y as int].file_name@)
                && #[trigger] led_to(inputs[k], j, y) implies all.take(c).contains(y) by {
            if k < at.0 {
                assert(led_to(front[k], j, y));
                candidates_are_archives(paths, front, y);
                assert(all.take(c)[before.index_of(y)] == y);
            } else {
                assert(listed[j] == y);
                assert(keep(listed[j]));
                let n = added.take(m).index_of(y);
                assert(all.take(c)[before.len() + n] == y);
            }
        }
        at
    }
}

/// Of several files with the same components the first that was found is chosen: none
/// that an earlier input led to, and none before it below the same directory, is a zip
/// file with the components of a chosen one.
pub proof fn the_first_found_is_chosen(
    paths: Seq<HostPath>,
    inputs: Seq<Input>,
    chosen: Seq<usize>,
    c: int,
) -> (at: (int, int))
    requires
        is_selection(paths, candidates(paths, inputs), chosen),
        0 <= c < chosen.len(),
    ensures
        0 <= at.0 < inputs.len(),
        led_to(inputs[at.0], at.1, chosen[c]),
        forall|k: int, i: int, y: usize|
            0 <= k <= at.0 && (k < at.0 || i < at.1) && name_extension_of(
                paths[y as int].file_name@,
            ) == Some(seq!['z', 'i', 'p']) && #[trigger] led_to(inputs[k], i, y)
                ==> paths[y as int].key() != paths[chosen[c] as int].key(),
{
    let x = chosen[c];
    let all = candidates(paths, inputs);
    assert(is_first(paths, all, x));
    let d = choose|d: int| #[trigger] first_for_its_path(paths, all, d) && all[d] == x;
    let at = found_at(paths, inputs, d);
    assert forall|k: int, i: int, y: usize|
        0 <= k <= at.0 && (k < at.0 || i < at.1) && name_extension_of(paths[y as int].file_name@)
            == Some(seq!['z', 'i', 'p']) && #[trigger] led_to(
            inputs[k],
            i,
            y,
        ) implies paths[y as int].key() != paths[x as int].key() by {
        kinds_by_extension(paths[y as int].file_name@, crate::path::Host::Unix);
        let n = all.take(d).index_of(y);
        assert(all[n] == y);
        assert(!same_path(paths, all[n], all[d]));
    }
    at
}

/// Which of two paths comes first is decided by the first component in which they
/// differ: by the first number in which that differs, or by which ends first.
pub proof fn paths_by_first_difference(a: Seq<Seq<u32>>, b: Seq<Seq<u32>>, k: int, m: int)
    requires
        0 <= k <= a.len(),
        k <= b.len(),
        forall|j: int| 0 <= j < k ==> a[j] == #[trigger] b[j],
        k < a.len() && k < b.len() ==> {
            &&& 0 <= m <= a[k].len()
            &&& m <= b[k].len()
            &&& forall|j: int| 0 <= j < m ==> a[k][j] == #[trigger] b[k][j]
            &&& m == a[k].len() || m == b[k].len() || a[k][m] != b[k][m]
            &&& a[k] != b[k]
        },
    ensures
        path_before(a, b) <==> k < b.len() && (k == a.len() || m < b[k].len() && (m == a[k].len()
            || a[k][m] < b[k][m])),
{
    if k < a.len() && k < b.len() {
        crate::text_laws::sequences_by_first_difference(a[k], b[k], m);
    }
    if path_before(a, b) {
        let d = choose|d: int| departs_at(a, b, d);
        if d < k {
            assert(a[d] == b[d]);
            crate::order::lex_is_asymmetric(a[d], a[d]);
        }
        if k < d {
            assert(a[k] == b[k]);
        }
    }
    if k < b.len() && (k == a.len() || m < b[k].len() && (m == a[k].len() || a[k][m] < b[k][m])) {
        assert(departs_at(a, b, k));
    }
}

/// The chosen paths stand in order, each once.
pub proof fn chosen_in_order(
    paths: Seq<HostPath>,
    inputs: Seq<Input>,
    chosen: Seq<usize>,
    i: int,
    j: int,
)
    requires
        is_selection(paths, candidates(paths, inputs), chosen),
        0 <= i < j < chosen.len(),
    ensures
        path_before(paths[chosen[i] as int].key(), paths[chosen[j] as int].key()),
        paths[chosen[i] as int].key() != paths[chosen[j] as int].key(),
{
    assert(path_before(paths[chosen[i] as int].key(), paths[chosen[j] as int].key()));
    crate::select::path_order_is_asymmetric(
        paths[chosen[i] as int].key(),
        paths[chosen[i] as int].key(),
    );
}

/// The selection stops at the first input that is neither a file nor a directory, or
/// that is a directory that cannot be walked, and says so.
pub proof fn failure_by_input(paths: Seq<HostPath>, inputs: Seq<Input>, k: int)
    ensures
        first_failure(inputs, k) <==> {
            &&& 0 <= k < inputs.len()
            &&& inputs[k].found !is File && inputs[k].found !is Directory
            &&& forall|j: int|
                0 <= j < k ==> (#[trigger] inputs[j]).found is File || inputs[j].found is Directory
        },
        0 <= k < inputs.len() ==> {
            &&& is_failure(inputs[k]) <==> inputs[k].found !is File && inputs[k].found !is Directory
            &&& inputs[k].found is Missing ==> failure_message(paths, inputs[k])
                == "Input path does not exist: "@ + paths[inputs[k].path as int].display@
            &&& inputs[k].found matches Found::WalkFailed(reason) ==> failure_message(
                paths,
                inputs[k],
            ) == "Could not walk "@ + paths[inputs[k].path as int].display@ + ": "@ + reason@
        },
{
    if first_failure(inputs, k) {
        assert forall|j: int| 0 <= j < k implies (#[trigger] inputs[j]).found is File
            || inputs[j].found is Directory by {
            assert(!is_failure(inputs[j]));
        }
    }
}

} // verus!
