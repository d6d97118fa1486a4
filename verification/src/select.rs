//! Which of the files that the inputs lead to are archives to inspect.

use crate::lists::filter_push;
use crate::order::is_before;
use crate::order::{lex_before, lex_is_asymmetric, lex_is_total, lex_is_transitive};
use crate::path::is_zip_name;
use crate::path::zip_name;
use vstd::prelude::*;
use vstd::string::StringExecFns;

verus! {

/// A path of the host's file system.
#[derive(Debug)]
pub struct HostPath {
    /// The path as it is shown.
    pub display: String,
    /// The last component as it is shown, if that is a name; else nothing.
    pub file_name: String,
    /// The components: for each its kind, then numbers that order it among those of
    /// its kind. Two paths are the same if their components are, and paths are
    /// ordered by them.
    pub components: Vec<Vec<u32>>,
}

impl HostPath {
    /// The components of the path.
    pub open spec fn key(self) -> Seq<Seq<u32>> {
        Seq::new(self.components@.len(), |i: int| self.components@[i]@)
    }
}

/// What an input led to.
#[derive(Debug)]
pub enum Found {
    /// A file.
    File,
    /// A directory, below which these files are.
    Directory(Vec<usize>),
    /// A directory that could not be walked, for this reason.
    WalkFailed(String),
    /// Neither.
    Missing,
}

/// One input: where its path stands among the paths, and what it led to.
#[derive(Debug)]
pub struct Input {
    pub path: usize,
    pub found: Found,
}

/// Whether `a` and `b` agree up to component `k`, and there `a` ends or has the
/// component that stands first.
pub open spec fn departs_at(a: Seq<Seq<u32>>, b: Seq<Seq<u32>>, k: int) -> bool {
    &&& 0 <= k <= a.len()
    &&& k < b.len()
    &&& forall|j: int| 0 <= j < k ==> a[j] == #[trigger] b[j]
    &&& k == a.len() || lex_before(a[k], b[k])
}

/// Whether the path with the components `a` stands before that with `b`.
pub open spec fn path_before(a: Seq<Seq<u32>>, b: Seq<Seq<u32>>) -> bool {
    exists|k: int| departs_at(a, b, k)
}

/// Nothing stands before itself, and no two paths before each other.
pub proof fn path_order_is_asymmetric(a: Seq<Seq<u32>>, b: Seq<Seq<u32>>)
    ensures
        !(path_before(a, b) && path_before(b, a)),
        !path_before(a, a),
{
    if path_before(a, b) && path_before(b, a) {
        let i = choose|k: int| departs_at(a, b, k);
        let j = choose|k: int| departs_at(b, a, k);
        if i < j {
            assert(b[i] == a[i]);
            lex_is_asymmetric(a[i], b[i]);
        } else if j < i {
            assert(a[j] == b[j]);
            lex_is_asymmetric(a[j], b[j]);
        } else {
            lex_is_asymmetric(a[i], b[i]);
        }
    }
    if path_before(a, a) {
        let k = choose|k: int| departs_at(a, a, k);
        lex_is_asymmetric(a[k], a[k]);
    }
}

/// Standing before is transitive.
pub proof fn path_order_is_transitive(a: Seq<Seq<u32>>, b: Seq<Seq<u32>>, c: Seq<Seq<u32>>)
    requires
        path_before(a, b),
        path_before(b, c),
    ensures
        path_before(a, c),
{
    let i = choose|k: int| departs_at(a, b, k);
    let j = choose|k: int| departs_at(b, c, k);
    let k = if i < j {
        i
    } else {
        j
    };
    assert forall|m: int| 0 <= m < k implies a[m] == #[trigger] c[m] by {
        assert(a[m] == b[m]);
        assert(b[m] == c[m]);
    }
    if i < j {
        assert(b[i] == c[i]);
    } else if j < i {
        assert(a[j] == b[j]);
    } else if k < a.len() {
        lex_is_transitive(a[k], b[k], c[k]);
    }
    assert(departs_at(a, c, k));
}

/// Of two different paths one stands before the other.
pub proof fn path_order_is_total(a: Seq<Seq<u32>>, b: Seq<Seq<u32>>)
    ensures
        a == b || path_before(a, b) || path_before(b, a),
    decreases a.len(),
{
    if a.len() == 0 {
        if b.len() == 0 {
            assert(a =~= b);
        } else {
            assert(departs_at(a, b, 0));
        }
    } else if b.len() == 0 {
        assert(departs_at(b, a, 0));
    } else if a[0] != b[0] {
        lex_is_total(a[0], b[0]);
        if lex_before(a[0], b[0]) {
            assert(departs_at(a, b, 0));
        } else {
            assert(departs_at(b, a, 0));
        }
    } else {
        let x = a.drop_first();
        let y = b.drop_first();
        path_order_is_total(x, y);
        if x == y {
            assert(a =~= seq![a[0]] + x);
            assert(b =~= seq![b[0]] + y);
        } else if path_before(x, y) {
            let k = choose|k: int| departs_at(x, y, k);
            assert forall|j: int| 0 <= j < k + 1 implies a[j] == #[trigger] b[j] by {
                if j > 0 {
                    assert(x[j - 1] == y[j - 1]);
                }
            }
            assert(departs_at(a, b, k + 1));
        } else {
            let k = choose|k: int| departs_at(y, x, k);
            assert forall|j: int| 0 <= j < k + 1 implies b[j] == #[trigger] a[j] by {
                if j > 0 {
                    assert(y[j - 1] == x[j - 1]);
                }
            }
            assert(departs_at(b, a, k + 1));
        }
    }
}

fn same_numbers(a: &[u32], b: &[u32]) -> (same: bool)
    ensures
        same == (a@ == b@),
{
    if a.len() != b.len() {
        return false;
    }
    let mut i: usize = 0;
    while i < a.len()
        invariant
            a@.len() == b@.len(),
            i <= a@.len(),
            forall|j: int| 0 <= j < i ==> a@[j] == b@[j],
        decreases a@.len() - i,
    {
        if a[i] != b[i] {
            return false;
        }
        i = i + 1;
    }
    assert(a@ =~= b@);
    true
}

/// Whether `a` stands before `b`.
pub fn is_path_before(a: &HostPath, b: &HostPath) -> (r: bool)
    ensures
        r == path_before(a.key(), b.key()),
{
    let mut k: usize = 0;
    while k < a.components.len() && k < b.components.len() && same_numbers(
        a.components[k].as_slice(),
        b.components[k].as_slice(),
    )
        invariant
            k <= a.key().len(),
            k <= b.key().len(),
            forall|j: int| 0 <= j < k ==> a.key()[j] == #[trigger] b.key()[j],
        decreases a.key().len() - k,
    {
        k = k + 1;
    }
    let r = k < b.components.len() && (k == a.components.len() || is_before(
        a.components[k].as_slice(),
        b.components[k].as_slice(),
    ));
    proof {
        let x = a.key();
        let y = b.key();
        if r {
            assert(departs_at(x, y, k as int));
        } else if path_before(x, y) {
            let d = choose|d: int| departs_at(x, y, d);
            if d < k {
                assert(x[d] == y[d]);
                lex_is_asymmetric(x[d], y[d]);
            }
            if k < d {
                assert(x[k as int] == y[k as int]);
            }
        }
    }
    r
}

/// Where an input led to files, those of them that are archives.
pub open spec fn archives_of(paths: Seq<HostPath>, input: Input) -> Seq<usize> {
    let keep = |at: usize| zip_name(paths[at as int].file_name@);
    match input.found {
        Found::File => seq![input.path].filter(keep),
        Found::Directory(files) => files@.filter(keep),
        _ => Seq::empty(),
    }
}

/// The archives that the inputs led to, in the order in which they were found.
pub open spec fn candidates(paths: Seq<HostPath>, inputs: Seq<Input>) -> Seq<usize>
    decreases inputs.len(),
{
    if inputs.len() == 0 {
        Seq::empty()
    } else {
        candidates(paths, inputs.drop_last()) + archives_of(paths, inputs.last())
    }
}

/// Whether two of the paths have the same components.
pub open spec fn same_path(paths: Seq<HostPath>, a: usize, b: usize) -> bool {
    paths[a as int].key() == paths[b as int].key()
}

/// Whether `c` is the first candidate for its path.
pub open spec fn first_for_its_path(paths: Seq<HostPath>, found: Seq<usize>, c: int) -> bool {
    &&& 0 <= c < found.len()
    &&& forall|d: int| 0 <= d < c ==> !same_path(paths, #[trigger] found[d], found[c])
}

/// Whether `x` is the first candidate for its path.
pub open spec fn is_first(paths: Seq<HostPath>, found: Seq<usize>, x: usize) -> bool {
    exists|c: int| #[trigger] first_for_its_path(paths, found, c) && found[c] == x
}

/// Whether the path of `x` is one of those chosen.
pub open spec fn is_chosen(paths: Seq<HostPath>, chosen: Seq<usize>, x: usize) -> bool {
    exists|i: int| 0 <= i < chosen.len() && same_path(paths, #[trigger] chosen[i], x)
}

/// Whether each path stands before those behind it.
pub open spec fn ascending(paths: Seq<HostPath>, chosen: Seq<usize>) -> bool {
    forall|i: int, j: int|
        0 <= i < j < chosen.len() ==> path_before(
            paths[#[trigger] chosen[i] as int].key(),
            paths[#[trigger] chosen[j] as int].key(),
        )
}

/// Whether `chosen` is the set of the paths in `found`, in order: each path once, by
/// the candidate that was found first.
pub open spec fn is_selection(
    paths: Seq<HostPath>,
    found: Seq<usize>,
    chosen: Seq<usize>,
) -> bool {
    &&& ascending(paths, chosen)
    &&& forall|i: int| 0 <= i < chosen.len() ==> #[trigger] is_first(paths, found, chosen[i])
    &&& forall|c: int| 0 <= c < found.len() ==> #[trigger] is_chosen(paths, chosen, found[c])
}

/// Whether an input stops the selection.
pub open spec fn is_failure(input: Input) -> bool {
    input.found is WalkFailed || input.found is Missing
}

/// Whether input `k` is the first that stops the selection.
pub open spec fn first_failure(inputs: Seq<Input>, k: int) -> bool {
    &&& 0 <= k < inputs.len()
    &&& is_failure(inputs[k])
    &&& forall|j: int| 0 <= j < k ==> !is_failure(#[trigger] inputs[j])
}

/// The message for an input that stops the selection.
pub open spec fn failure_message(paths: Seq<HostPath>, input: Input) -> Seq<char> {
    let shown = paths[input.path as int].display@;
    match input.found {
        Found::WalkFailed(reason) => "Could not walk "@ + shown + ": "@ + reason@,
        _ => "Input path does not exist: "@ + shown,
    }
}

/// Whether every position that an input mentions is one of a path.
pub open spec fn positions_valid(paths: Seq<HostPath>, inputs: Seq<Input>) -> bool {
    forall|k: int|
        0 <= k < inputs.len() ==> {
            &&& (#[trigger] inputs[k]).path < paths.len()
            &&& inputs[k].found matches Found::Directory(files) ==> forall|i: int|
                0 <= i < files@.len() ==> #[trigger] files@[i] < paths.len()
        }
}

/// What was first among the candidates is first among more.
proof fn stays_first(paths: Seq<HostPath>, found: Seq<usize>, candidate: usize, x: usize)
    requires
        is_first(paths, found, x),
    ensures
        is_first(paths, found.push(candidate), x),
        found.contains(x),
{
    let more = found.push(candidate);
    let c = choose|c: int| #[trigger] first_for_its_path(paths, found, c) && found[c] == x;
    assert forall|d: int| 0 <= d < c implies !same_path(paths, #[trigger] more[d], more[c]) by {
        assert(more[d] == found[d]);
    }
    assert(first_for_its_path(paths, more, c) && more[c] == x);
}

/// A candidate whose path is chosen already changes nothing.
proof fn known_candidate(
    paths: Seq<HostPath>,
    found: Seq<usize>,
    chosen: Seq<usize>,
    candidate: usize,
    at: int,
)
    requires
        is_selection(paths, found, chosen),
        0 <= at < chosen.len(),
        same_path(paths, chosen[at], candidate),
    ensures
        is_selection(paths, found.push(candidate), chosen),
{
    let more = found.push(candidate);
    assert forall|i: int| 0 <= i < chosen.len() implies #[trigger] is_first(
        paths,
        more,
        chosen[i],
    ) by {
        assert(is_first(paths, found, chosen[i]));
        stays_first(paths, found, candidate, chosen[i]);
    }
    assert forall|c: int| 0 <= c < more.len() implies #[trigger] is_chosen(
        paths,
        chosen,
        more[c],
    ) by {
        if c < found.len() {
            assert(is_chosen(paths, chosen, found[c]));
        }
    }
}

/// Putting a path where it belongs keeps the paths in order.
proof fn insertion_ascends(
    paths: Seq<HostPath>,
    chosen: Seq<usize>,
    candidate: usize,
    at: int,
)
    requires
        ascending(paths, chosen),
        0 <= at <= chosen.len(),
        forall|i: int|
            0 <= i < at ==> path_before(
                paths[#[trigger] chosen[i] as int].key(),
                paths[candidate as int].key(),
            ),
        at < chosen.len() ==> path_before(
            paths[candidate as int].key(),
            paths[chosen[at] as int].key(),
        ),
    ensures
        ascending(paths, chosen.insert(at, candidate)),
        forall|i: int|
            at <= i < chosen.len() ==> path_before(
                paths[candidate as int].key(),
                paths[#[trigger] chosen[i] as int].key(),
            ),
{
    let grown = chosen.insert(at, candidate);
    let key = paths[candidate as int].key();
    assert forall|i: int| at <= i < chosen.len() implies path_before(
        key,
        paths[#[trigger] chosen[i] as int].key(),
    ) by {
        if i > at {
            path_order_is_transitive(
                key,
                paths[chosen[at] as int].key(),
                paths[chosen[i] as int].key(),
            );
        }
    }
    assert forall|i: int, j: int| 0 <= i < j < grown.len() implies path_before(
        paths[#[trigger] grown[i] as int].key(),
        paths[#[trigger] grown[j] as int].key(),
    ) by {
        if j < at {
            assert(grown[i] == chosen[i] && grown[j] == chosen[j]);
        } else if j == at {
            assert(grown[i] == chosen[i]);
        } else if i < at {
            assert(grown[i] == chosen[i] && grown[j] == chosen[j - 1]);
        } else if i == at {
            assert(grown[j] == chosen[j - 1]);
        } else {
            assert(grown[i] == chosen[i - 1] && grown[j] == chosen[j - 1]);
        }
    }
}

/// A candidate for a new path takes the place where its path belongs.
proof fn new_candidate(
    paths: Seq<HostPath>,
    found: Seq<usize>,
    chosen: Seq<usize>,
    candidate: usize,
    at: int,
)
    requires
        is_selection(paths, found, chosen),
        0 <= at <= chosen.len(),
        forall|i: int|
            0 <= i < at ==> path_before(
                paths[#[trigger] chosen[i] as int].key(),
                paths[candidate as int].key(),
            ),
        at < chosen.len() ==> path_before(
            paths[candidate as int].key(),
            paths[chosen[at] as int].key(),
        ),
    ensures
        is_selection(paths, found.push(candidate), chosen.insert(at, candidate)),
{
    let more = found.push(candidate);
    let grown = chosen.insert(at, candidate);
    let key = paths[candidate as int].key();
    insertion_ascends(paths, chosen, candidate, at);
    // No candidate before this one has its path.
    assert forall|d: int| 0 <= d < found.len() implies !same_path(
        paths,
        #[trigger] found[d],
        candidate,
    ) by {
        assert(is_chosen(paths, chosen, found[d]));
        let i = choose|i: int|
            0 <= i < chosen.len() && same_path(paths, #[trigger] chosen[i], found[d]);
        path_order_is_asymmetric(paths[chosen[i] as int].key(), key);
    }
    assert forall|i: int| 0 <= i < grown.len() implies #[trigger] is_first(
        paths,
        more,
        grown[i],
    ) by {
        if i == at {
            let c = found.len() as int;
            assert forall|d: int| 0 <= d < c implies !same_path(
                paths,
                #[trigger] more[d],
                more[c],
            ) by {
                assert(more[d] == found[d]);
            }
            assert(first_for_its_path(paths, more, c) && more[c] == grown[i]);
        } else {
            let k = if i < at {
                i
            } else {
                i - 1
            };
            assert(grown[i] == chosen[k]);
            assert(is_first(paths, found, chosen[k]));
            stays_first(paths, found, candidate, chosen[k]);
        }
    }
    assert forall|c: int| 0 <= c < more.len() implies #[trigger] is_chosen(
        paths,
        grown,
        more[c],
    ) by {
        if c < found.len() {
            assert(is_chosen(paths, chosen, found[c]));
            let i = choose|i: int|
                0 <= i < chosen.len() && same_path(paths, #[trigger] chosen[i], found[c]);
            let k = if i < at {
                i
            } else {
                i + 1
            };
            assert(grown[k] == chosen[i]);
            assert(same_path(paths, grown[k], more[c]));
        } else {
            assert(same_path(paths, grown[at], more[c]));
        }
    }
}

/// Adds a candidate to a selection.
fn add_candidate(
    paths: &[HostPath],
    chosen: &mut Vec<usize>,
    candidate: usize,
    Ghost(found): Ghost<Seq<usize>>,
)
    requires
        candidate < paths@.len(),
        forall|c: int| 0 <= c < found.len() ==> #[trigger] found[c] < paths@.len(),
        is_selection(paths@, found, old(chosen)@),
    ensures
        is_selection(paths@, found.push(candidate), final(chosen)@),
{
    let ghost before = chosen@;
    assert forall|i: int| 0 <= i < before.len() implies #[trigger] before[i] < paths@.len() by {
        assert(is_first(paths@, found, before[i]));
        stays_first(paths@, found, candidate, before[i]);
    }
    let mut at: usize = 0;
    while at < chosen.len() && is_path_before(&paths[chosen[at]], &paths[candidate])
        invariant
            candidate < paths@.len(),
            chosen@ == before,
            at <= before.len(),
            forall|i: int| 0 <= i < before.len() ==> #[trigger] before[i] < paths@.len(),
            forall|i: int|
                0 <= i < at ==> path_before(
                    paths@[#[trigger] before[i] as int].key(),
                    paths@[candidate as int].key(),
                ),
        decreases before.len() - at,
    {
        at = at + 1;
    }
    let is_new = at == chosen.len() || is_path_before(&paths[candidate], &paths[chosen[at]]);
    proof {
        if is_new {
            new_candidate(paths@, found, before, candidate, at as int);
        } else {
            path_order_is_total(
                paths@[before[at as int] as int].key(),
                paths@[candidate as int].key(),
            );
            known_candidate(paths@, found, before, candidate, at as int);
        }
    }
    if is_new {
        chosen.insert(at, candidate);
    }
}

/// What is chosen from valid positions is valid.
proof fn filtered_positions_valid(
    paths: Seq<HostPath>,
    positions: Seq<usize>,
    keep: spec_fn(usize) -> bool,
)
    requires
        forall|i: int| 0 <= i < positions.len() ==> #[trigger] positions[i] < paths.len(),
    ensures
        forall|i: int|
            0 <= i < positions.filter(keep).len() ==> #[trigger] positions.filter(keep)[i]
                < paths.len(),
{
    let kept = positions.filter(keep);
    assert forall|i: int| 0 <= i < kept.len() implies #[trigger] kept[i] < paths.len() by {
        assert(kept.contains(kept[i]));
        positions.lemma_filter_contains_rev(keep, kept[i]);
    }
}

/// Every candidate is one of the paths.
proof fn candidates_valid(paths: Seq<HostPath>, inputs: Seq<Input>)
    requires
        positions_valid(paths, inputs),
    ensures
        forall|c: int|
            0 <= c < candidates(paths, inputs).len() ==> #[trigger] candidates(paths, inputs)[c]
                < paths.len(),
    decreases inputs.len(),
{
    if inputs.len() > 0 {
        let front = inputs.drop_last();
        let keep = |at: usize| zip_name(paths[at as int].file_name@);
        assert forall|k: int| 0 <= k < front.len() implies {
            &&& (#[trigger] front[k]).path < paths.len()
            &&& front[k].found matches Found::Directory(files) ==> forall|i: int|
                0 <= i < files@.len() ==> #[trigger] files@[i] < paths.len()
        } by {
            assert(front[k] == inputs[k]);
        }
        candidates_valid(paths, front);
        let last = inputs[inputs.len() - 1];
        assert(last == inputs.last());
        let before = candidates(paths, front);
        let added = archives_of(paths, last);
        match last.found {
            Found::File => {
                filtered_positions_valid(paths, seq![last.path], keep);
                assert(added == seq![last.path].filter(keep));
            },
            Found::Directory(files) => {
                filtered_positions_valid(paths, files@, keep);
                assert(added == files@.filter(keep));
            },
            _ => {},
        }
        assert forall|c: int| 0 <= c < candidates(paths, inputs).len() implies #[trigger] candidates(
            paths,
            inputs,
        )[c] < paths.len() by {
            if c < before.len() {
                assert(before[c] < paths.len());
            } else {
                assert(added[c - before.len()] < paths.len());
            }
        }
    }
}

/// Adds the archives among `files` to a selection.
fn add_files(
    paths: &[HostPath],
    chosen: &mut Vec<usize>,
    files: &[usize],
    Ghost(found): Ghost<Seq<usize>>,
)
    requires
        forall|i: int| 0 <= i < files@.len() ==> #[trigger] files@[i] < paths@.len(),
        forall|c: int| 0 <= c < found.len() ==> #[trigger] found[c] < paths@.len(),
        is_selection(paths@, found, old(chosen)@),
    ensures
        is_selection(
            paths@,
            found + files@.filter(|at: usize| zip_name(paths@[at as int].file_name@)),
            final(chosen)@,
        ),
{
    let ghost keep = |at: usize| zip_name(paths@[at as int].file_name@);
    let mut i: usize = 0;
    proof {
        reveal(Seq::filter);
        assert(found + files@.take(0).filter(keep) =~= found);
    }
    while i < files.len()
        invariant
            keep == (|at: usize| zip_name(paths@[at as int].file_name@)),
            i <= files@.len(),
            forall|k: int| 0 <= k < files@.len() ==> #[trigger] files@[k] < paths@.len(),
            forall|c: int| 0 <= c < found.len() ==> #[trigger] found[c] < paths@.len(),
            is_selection(paths@, found + files@.take(i as int).filter(keep), chosen@),
        decreases files@.len() - i,
    {
        let file: usize = files[i];
        let ghost so_far = found + files@.take(i as int).filter(keep);
        proof {
            filter_push(files@.take(i as int), file, keep);
            assert(files@.take(i as int).push(file) =~= files@.take(i + 1));
            filtered_positions_valid(paths@, files@.take(i as int), keep);
            assert(keep(file) ==> found + files@.take(i + 1).filter(keep) =~= so_far.push(file));
        }
        if is_zip_name(paths[file].file_name.as_str()) {
            add_candidate(paths, chosen, file, Ghost(so_far));
        }
        i = i + 1;
    }
    assert(files@.take(i as int) =~= files@);
}

/// The archives that the inputs lead to, in order and each path once, or the message
/// for the first input that leads nowhere. Inputs and results are positions in
/// `paths`.
pub fn collect_archives(paths: &[HostPath], inputs: &[Input]) -> (r: Result<Vec<usize>, String>)
    requires
        positions_valid(paths@, inputs@),
    ensures
        match r {
            Ok(chosen) => {
                &&& forall|k: int| 0 <= k < inputs@.len() ==> !is_failure(#[trigger] inputs@[k])
                &&& is_selection(paths@, candidates(paths@, inputs@), chosen@)
                &&& forall|i: int| 0 <= i < chosen@.len() ==> #[trigger] chosen@[i] < paths@.len()
            },
            Err(message) => exists|k: int| #[trigger]
                first_failure(inputs@, k) && message@ == failure_message(paths@, inputs@[k]),
        },
{
    let mut chosen: Vec<usize> = Vec::new();
    let mut k: usize = 0;
    assert(candidates(paths@, inputs@.take(0)) =~= Seq::<usize>::empty());
    while k < inputs.len()
        invariant
            positions_valid(paths@, inputs@),
            k <= inputs@.len(),
            forall|j: int| 0 <= j < k ==> !is_failure(#[trigger] inputs@[j]),
            is_selection(paths@, candidates(paths@, inputs@.take(k as int)), chosen@),
        decreases inputs@.len() - k,
    {
        let input = &inputs[k];
        let ghost found = candidates(paths@, inputs@.take(k as int));
        proof {
            assert(inputs@.take(k + 1).drop_last() =~= inputs@.take(k as int));
            candidates_valid(paths@, inputs@.take(k as int));
        }
        match &input.found {
            Found::File => {
                let mut one: Vec<usize> = Vec::new();
                one.push(input.path);
                assert(one@ =~= seq![input.path]);
                add_files(paths, &mut chosen, one.as_slice(), Ghost(found));
            },
            Found::Directory(files) => {
                add_files(paths, &mut chosen, files.as_slice(), Ghost(found));
            },
            Found::WalkFailed(reason) => {
                assert(first_failure(inputs@, k as int));
                let mut message = "Could not walk ".to_owned();
                message.append(paths[input.path].display.as_str());
                message.append(": ");
                message.append(reason.as_str());
                return Err(message);
            },
            Found::Missing => {
                assert(first_failure(inputs@, k as int));
                let mut message = "Input path does not exist: ".to_owned();
                message.append(paths[input.path].display.as_str());
                return Err(message);
            },
        }
        k = k + 1;
    }
    proof {
        assert(inputs@.take(k as int) =~= inputs@);
        candidates_valid(paths@, inputs@);
        assert forall|i: int| 0 <= i < chosen@.len() implies #[trigger] chosen@[i]
            < paths@.len() by {
            let all = candidates(paths@, inputs@);
            assert(is_first(paths@, all, chosen@[i]));
            stays_first(paths@, all, 0, chosen@[i]);
            let c = all.index_of(chosen@[i]);
            assert(all[c] < paths@.len());
        }
    }
    Ok(chosen)
}

/// Whether there is anything to inspect.
pub fn require_archives(chosen: &[usize]) -> (r: Result<(), String>)
    ensures
        match r {
            Ok(_) => chosen@.len() > 0,
            Err(message) => chosen@.len() == 0 && message@
                == "No .zip files were found in the selected inputs."@,
        },
{
    if chosen.len() == 0 {
        return Err("No .zip files were found in the selected inputs.".to_owned());
    }
    Ok(())
}

/// Two selections of the same candidates choose the same for the same path.
proof fn same_path_same_choice(
    paths: Seq<HostPath>,
    found: Seq<usize>,
    x: usize,
    y: usize,
)
    requires
        is_first(paths, found, x),
        is_first(paths, found, y),
        same_path(paths, x, y),
    ensures
        x == y,
{
    let c = choose|c: int| #[trigger] first_for_its_path(paths, found, c) && found[c] == x;
    let d = choose|d: int| #[trigger] first_for_its_path(paths, found, d) && found[d] == y;
    if c < d {
        assert(!same_path(paths, found[c], found[d]));
    }
    if d < c {
        assert(!same_path(paths, found[d], found[c]));
    }
}

/// What one selection holds at a position, another holds at the same one, if they
/// agree on all positions before.
proof fn selections_agree_at(
    paths: Seq<HostPath>,
    found: Seq<usize>,
    a: Seq<usize>,
    b: Seq<usize>,
    i: int,
)
    requires
        is_selection(paths, found, a),
        is_selection(paths, found, b),
        0 <= i < a.len(),
        forall|j: int| 0 <= j < i ==> j < b.len() && #[trigger] a[j] == b[j],
    ensures
        i < b.len(),
        !path_before(paths[a[i] as int].key(), paths[b[i] as int].key()),
{
    assert(is_first(paths, found, a[i]));
    let c = choose|c: int| #[trigger] first_for_its_path(paths, found, c) && found[c] == a[i];
    assert(is_chosen(paths, b, found[c]));
    let k = choose|k: int| 0 <= k < b.len() && same_path(paths, #[trigger] b[k], found[c]);
    if k < i {
        assert(a[k] == b[k]);
        assert(path_before(paths[a[k] as int].key(), paths[a[i] as int].key()));
        path_order_is_asymmetric(paths[a[k] as int].key(), paths[a[i] as int].key());
    } else {
        path_order_is_asymmetric(paths[a[i] as int].key(), paths[b[i] as int].key());
        if k > i {
            assert(path_before(paths[b[i] as int].key(), paths[b[k] as int].key()));
        }
    }
}

/// The same candidates make the same selection.
pub proof fn selection_is_determined(
    paths: Seq<HostPath>,
    found: Seq<usize>,
    a: Seq<usize>,
    b: Seq<usize>,
)
    requires
        is_selection(paths, found, a),
        is_selection(paths, found, b),
    ensures
        a == b,
{
    selections_agree_up_to(paths, found, a, b, a.len() as int);
    if a.len() < b.len() {
        assert forall|j: int| 0 <= j < a.len() implies j < a.len() && #[trigger] b[j] == a[j] by {
            assert(a[j] == b[j]);
        }
        selections_agree_at(paths, found, b, a, a.len() as int);
    }
    assert(a =~= b);
}

/// Two selections of the same candidates agree on the first `n` positions.
proof fn selections_agree_up_to(
    paths: Seq<HostPath>,
    found: Seq<usize>,
    a: Seq<usize>,
    b: Seq<usize>,
    n: int,
)
    requires
        is_selection(paths, found, a),
        is_selection(paths, found, b),
        0 <= n <= a.len(),
    ensures
        n <= b.len(),
        forall|j: int| 0 <= j < n ==> #[trigger] a[j] == b[j],
    decreases n,
{
    if n > 0 {
        let i = n - 1;
        selections_agree_up_to(paths, found, a, b, i);
        selections_agree_at(paths, found, a, b, i);
        assert forall|j: int| 0 <= j < i implies j < a.len() && #[trigger] b[j] == a[j] by {
            assert(a[j] == b[j]);
        }
        selections_agree_at(paths, found, b, a, i);
        path_order_is_total(paths[a[i] as int].key(), paths[b[i] as int].key());
        assert(is_first(paths, found, a[i]));
        assert(is_first(paths, found, b[i]));
        same_path_same_choice(paths, found, a[i], b[i]);
    }
}

/// The components of each of the paths at `positions`.
pub open spec fn keys(paths: Seq<HostPath>, positions: Seq<usize>) -> Seq<Seq<Seq<u32>>> {
    positions.map_values(|at: usize| paths[at as int].key())
}

/// Whether two inputs, each with its own table of paths, are alike: both stop the
/// selection or neither does, and they lead to archives with the same paths.
pub open spec fn alike(p: Seq<HostPath>, x: Input, q: Seq<HostPath>, y: Input) -> bool {
    &&& is_failure(x) == is_failure(y)
    &&& keys(p, archives_of(p, x)).to_set() == keys(q, archives_of(q, y)).to_set()
}

/// Whether the input `x` has its like among `ys`.
pub open spec fn has_like(p: Seq<HostPath>, x: Input, q: Seq<HostPath>, ys: Seq<Input>) -> bool {
    exists|j: int| 0 <= j < ys.len() && #[trigger] alike(p, x, q, ys[j])
}

/// Whether each of the inputs `xs` has its like among `ys`.
pub open spec fn all_alike(
    p: Seq<HostPath>,
    xs: Seq<Input>,
    q: Seq<HostPath>,
    ys: Seq<Input>,
) -> bool {
    forall|i: int| 0 <= i < xs.len() ==> #[trigger] has_like(p, xs[i], q, ys)
}

/// Whether the paths are in order, each once.
spec fn keys_ascend(ks: Seq<Seq<Seq<u32>>>) -> bool {
    forall|i: int, j: int|
        0 <= i < j < ks.len() ==> path_before(#[trigger] ks[i], #[trigger] ks[j])
}

/// The first of some paths in order is among others in order, none of which stands
/// before it: it is the first of them too.
proof fn first_keys_agree(a: Seq<Seq<Seq<u32>>>, b: Seq<Seq<Seq<u32>>>)
    requires
        keys_ascend(a),
        keys_ascend(b),
        a.len() > 0,
        b.len() > 0,
        a.contains(b[0]),
        b.contains(a[0]),
    ensures
        a[0] == b[0],
{
    let i = a.index_of(b[0]);
    let j = b.index_of(a[0]);
    if i > 0 && j > 0 {
        assert(path_before(a[0], a[i]));
        assert(path_before(b[0], b[j]));
        path_order_is_asymmetric(a[0], b[0]);
    }
}

/// Paths can be put in order in one way only.
proof fn ascending_keys_are_determined(a: Seq<Seq<Seq<u32>>>, b: Seq<Seq<Seq<u32>>>)
    requires
        keys_ascend(a),
        keys_ascend(b),
        forall|key: Seq<Seq<u32>>| #[trigger] a.contains(key) <==> b.contains(key),
    ensures
        a == b,
    decreases a.len(),
{
    if a.len() == 0 {
        if b.len() > 0 {
            assert(b.contains(b[0]));
            assert(a.contains(b[0]));
        }
        assert(a =~= b);
    } else {
        assert(a.contains(a[0]));
        assert(b.contains(a[0]));
        assert(b.contains(b[0]));
        assert(a.contains(b[0]));
        first_keys_agree(a, b);
        let x = a.drop_first();
        let y = b.drop_first();
        assert forall|i: int, j: int| 0 <= i < j < x.len() implies path_before(
            #[trigger] x[i],
            #[trigger] x[j],
        ) by {
            assert(path_before(a[i + 1], a[j + 1]));
        }
        assert forall|i: int, j: int| 0 <= i < j < y.len() implies path_before(
            #[trigger] y[i],
            #[trigger] y[j],
        ) by {
            assert(path_before(b[i + 1], b[j + 1]));
        }
        assert forall|key: Seq<Seq<u32>>| #[trigger] x.contains(key) <==> y.contains(key) by {
            behind_the_first(a, key);
            behind_the_first(b, key);
            assert(a.contains(key) <==> b.contains(key));
        }
        ascending_keys_are_determined(x, y);
        assert(a =~= seq![a[0]] + x);
        assert(b =~= seq![b[0]] + y);
    }
}

/// Behind the first of some paths in order are those that differ from it.
proof fn behind_the_first(a: Seq<Seq<Seq<u32>>>, key: Seq<Seq<u32>>)
    requires
        keys_ascend(a),
        a.len() > 0,
    ensures
        a.drop_first().contains(key) <==> a.contains(key) && key != a[0],
{
    let rest = a.drop_first();
    if rest.contains(key) {
        let i = rest.index_of(key);
        assert(a[i + 1] == key);
        assert(path_before(a[0], a[i + 1]));
        path_order_is_asymmetric(a[0], a[0]);
    }
    if a.contains(key) && key != a[0] {
        let i = a.index_of(key);
        assert(rest[i - 1] == key);
    }
}

/// The candidates have the paths of the archives that the inputs led to, one by one.
proof fn candidate_keys(paths: Seq<HostPath>, inputs: Seq<Input>, key: Seq<Seq<u32>>)
    ensures
        keys(paths, candidates(paths, inputs)).contains(key) <==> exists|k: int|
            0 <= k < inputs.len() && keys(
                paths,
                archives_of(paths, #[trigger] inputs[k]),
            ).to_set().contains(key),
    decreases inputs.len(),
{
    if inputs.len() > 0 {
        let front = inputs.drop_last();
        let last = inputs[inputs.len() - 1];
        candidate_keys(paths, front, key);
        let before = keys(paths, candidates(paths, front));
        let added = keys(paths, archives_of(paths, last));
        let all = keys(paths, candidates(paths, inputs));
        assert(all =~= before + added);
        if before.contains(key) {
            assert(all[before.index_of(key)] == key);
            let k = choose|k: int|
                0 <= k < front.len() && keys(
                    paths,
                    archives_of(paths, #[trigger] front[k]),
                ).to_set().contains(key);
            assert(inputs[k] == front[k]);
        }
        if added.contains(key) {
            assert(all[before.len() + added.index_of(key)] == key);
            assert(added.to_set().contains(key));
        }
        if all.contains(key) {
            let c = all.index_of(key);
            if c < before.len() {
                assert(before[c] == key);
            } else {
                assert(added[c - before.len()] == key);
            }
        }
        if exists|k: int|
            0 <= k < inputs.len() && keys(
                paths,
                archives_of(paths, #[trigger] inputs[k]),
            ).to_set().contains(key) {
            let k = choose|k: int|
                0 <= k < inputs.len() && keys(
                    paths,
                    archives_of(paths, #[trigger] inputs[k]),
                ).to_set().contains(key);
            if k < front.len() {
                assert(front[k] == inputs[k]);
            }
        }
    }
}

/// A selection has the paths of the candidates, in order.
proof fn selection_keys(paths: Seq<HostPath>, found: Seq<usize>, chosen: Seq<usize>)
    requires
        is_selection(paths, found, chosen),
    ensures
        keys_ascend(keys(paths, chosen)),
        forall|key: Seq<Seq<u32>>| #[trigger]
            keys(paths, chosen).contains(key) <==> keys(paths, found).contains(key),
{
    let ks = keys(paths, chosen);
    assert forall|i: int, j: int| 0 <= i < j < ks.len() implies path_before(
        #[trigger] ks[i],
        #[trigger] ks[j],
    ) by {
        assert(path_before(paths[chosen[i] as int].key(), paths[chosen[j] as int].key()));
    }
    assert forall|key: Seq<Seq<u32>>| #[trigger]
        ks.contains(key) <==> keys(paths, found).contains(key) by {
        if ks.contains(key) {
            let i = ks.index_of(key);
            assert(is_first(paths, found, chosen[i]));
            let c = choose|c: int| #[trigger]
                first_for_its_path(paths, found, c) && found[c] == chosen[i];
            assert(keys(paths, found)[c] == key);
        }
        if keys(paths, found).contains(key) {
            let c = keys(paths, found).index_of(key);
            assert(is_chosen(paths, chosen, found[c]));
            let i = choose|i: int|
                0 <= i < chosen.len() && same_path(paths, #[trigger] chosen[i], found[c]);
            assert(ks[i] == key);
        }
    }
}

/// Inputs that have their like lead to the same paths.
proof fn alike_keys(
    p: Seq<HostPath>,
    xs: Seq<Input>,
    q: Seq<HostPath>,
    ys: Seq<Input>,
    key: Seq<Seq<u32>>,
)
    requires
        all_alike(p, xs, q, ys),
        keys(p, candidates(p, xs)).contains(key),
    ensures
        keys(q, candidates(q, ys)).contains(key),
{
    candidate_keys(p, xs, key);
    candidate_keys(q, ys, key);
    let i = choose|k: int|
        0 <= k < xs.len() && keys(p, archives_of(p, #[trigger] xs[k])).to_set().contains(key);
    assert(has_like(p, xs[i], q, ys));
    let j = choose|j: int| 0 <= j < ys.len() && #[trigger] alike(p, xs[i], q, ys[j]);
    assert(keys(q, archives_of(q, ys[j])).to_set().contains(key));
}

/// Whether one of the inputs stops the selection.
pub open spec fn any_failure(inputs: Seq<Input>) -> bool {
    exists|k: int| 0 <= k < inputs.len() && #[trigger] is_failure(inputs[k])
}

/// The like of an input that stops the selection stops it too.
proof fn failure_carries_over(
    p: Seq<HostPath>,
    xs: Seq<Input>,
    q: Seq<HostPath>,
    ys: Seq<Input>,
)
    requires
        all_alike(p, xs, q, ys),
        any_failure(xs),
    ensures
        any_failure(ys),
{
    let i = choose|k: int| 0 <= k < xs.len() && #[trigger] is_failure(xs[k]);
    assert(has_like(p, xs[i], q, ys));
    let j = choose|j: int| 0 <= j < ys.len() && #[trigger] alike(p, xs[i], q, ys[j]);
    assert(is_failure(ys[j]));
}

/// Neither the order of the inputs nor their repetition decides whether the selection
/// is stopped: if each input of one list has its like in the other, and the other way
/// round, both are or neither is.
pub proof fn inputs_fail_alike(
    p: Seq<HostPath>,
    xs: Seq<Input>,
    q: Seq<HostPath>,
    ys: Seq<Input>,
)
    requires
        all_alike(p, xs, q, ys),
        all_alike(q, ys, p, xs),
    ensures
        any_failure(xs) == any_failure(ys),
{
    if any_failure(xs) {
        failure_carries_over(p, xs, q, ys);
    }
    if any_failure(ys) {
        failure_carries_over(q, ys, p, xs);
    }
}

/// Neither the order of the inputs nor their repetition matters: if each input of one
/// list has its like in the other, and the other way round, what is chosen has the
/// same paths in the same order.
pub proof fn input_order_never_matters(
    p: Seq<HostPath>,
    xs: Seq<Input>,
    a: Seq<usize>,
    q: Seq<HostPath>,
    ys: Seq<Input>,
    b: Seq<usize>,
)
    requires
        all_alike(p, xs, q, ys),
        all_alike(q, ys, p, xs),
        is_selection(p, candidates(p, xs), a),
        is_selection(q, candidates(q, ys), b),
    ensures
        keys(p, a) == keys(q, b),
{
    selection_keys(p, candidates(p, xs), a);
    selection_keys(q, candidates(q, ys), b);
    assert forall|key: Seq<Seq<u32>>| #[trigger]
        keys(p, a).contains(key) <==> keys(q, b).contains(key) by {
        assert(keys(p, a).contains(key) <==> keys(p, candidates(p, xs)).contains(key));
        assert(keys(q, b).contains(key) <==> keys(q, candidates(q, ys)).contains(key));
        if keys(p, a).contains(key) {
            alike_keys(p, xs, q, ys, key);
        }
        if keys(q, b).contains(key) {
            alike_keys(q, ys, p, xs, key);
        }
    }
    ascending_keys_are_determined(keys(p, a), keys(q, b));
}

} // verus!
