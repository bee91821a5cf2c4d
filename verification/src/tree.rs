//! Output trees: the walk over the directory objects reachable from an
//! action result's output root, and the checks of each directory object.
//!
//! The walk is a state machine. The caller asks it for the next directory
//! to check, fetches and parses that directory object, has it checked, and
//! hands it back so its subdirectories are queued.

use crate::collections::{digest_key_set_elements, digest_key_set_insert, digest_key_set_new};
use crate::model::{Digest, DigestView, Directory, digest_set_key, lemma_digest_set_key_injective};
use crate::objects::MAX_OBJECT_BYTES;
use crate::server::{ApiError, ApiErrorView, entries_check, directory_items, error_view, validate_directory_entries};
use std::collections::HashSet;
use vstd::prelude::*;

verus! {

/// The most directory objects one output tree may hold.
pub const MAX_TREE_DIRECTORIES: usize = 100000;

/// A queued directory: its digest, and the directories on the path to it.
pub type PendingView = (DigestView, Seq<DigestView>);

/// One step of the walk: its outcome, and the queue, the directories seen
/// and the path of the directory it yields, afterwards.
pub struct WalkStep {
    pub outcome: Result<Option<DigestView>, ApiErrorView>,
    pub pending: Seq<PendingView>,
    pub seen: Set<DigestView>,
    pub current: Seq<DigestView>,
}

/// The next step of the walk from `pending` (taken from its end) and `seen`:
/// a directory that lies on its own path is a cycle; one seen before is
/// skipped; a new one is counted, must keep the tree within 100000
/// directories and be at most 16 MiB, and is yielded with its path.
pub open spec fn walk_next(pending: Seq<PendingView>, seen: Set<DigestView>) -> WalkStep
    decreases pending.len(),
{
    if pending.len() == 0 {
        WalkStep { outcome: Ok(None), pending, seen, current: Seq::empty() }
    } else {
        let d = pending.last().0;
        let path = pending.last().1;
        let rest = pending.drop_last();
        if path.contains(d) {
            WalkStep {
                outcome: Err(error_view(422, "directory graph contains a cycle"@)),
                pending: rest,
                seen,
                current: Seq::empty(),
            }
        } else if seen.contains(d) {
            walk_next(rest, seen)
        } else if seen.len() + 1 > MAX_TREE_DIRECTORIES {
            WalkStep {
                outcome: Err(error_view(422, "directory graph is too large"@)),
                pending: rest,
                seen: seen.insert(d),
                current: Seq::empty(),
            }
        } else if d.size > MAX_OBJECT_BYTES {
            WalkStep {
                outcome: Err(error_view(422, "directory object is too large"@)),
                pending: rest,
                seen: seen.insert(d),
                current: Seq::empty(),
            }
        } else {
            WalkStep {
                outcome: Ok(Some(d)),
                pending: rest,
                seen: seen.insert(d),
                current: path.push(d),
            }
        }
    }
}

/// The values of a list of digests.
pub open spec fn views(ds: Seq<Digest>) -> Seq<DigestView> {
    ds.map_values(|d: Digest| d@)
}

/// The value of a queue.
pub open spec fn pending_views(p: Seq<(Digest, Vec<Digest>)>) -> Seq<PendingView> {
    p.map_values(|e: (Digest, Vec<Digest>)| (e.0@, views(e.1@)))
}

/// The walk over the directory objects reachable from one output root.
pub struct TreeWalk {
    pending: Vec<(Digest, Vec<Digest>)>,
    seen_keys: HashSet<(u8, String, u64)>,
    seen_count: usize,
    current: Vec<Digest>,
    seen: Ghost<Set<DigestView>>,
}

impl TreeWalk {
    /// The directories queued, each with its path.
    pub closed spec fn pending(&self) -> Seq<PendingView> {
        pending_views(self.pending@)
    }

    /// The directories yielded so far.
    pub closed spec fn seen(&self) -> Set<DigestView> {
        self.seen@
    }

    /// The path of the last directory yielded, itself included.
    pub closed spec fn current(&self) -> Seq<DigestView> {
        views(self.current@)
    }

    /// The set of seen digests is finite and counted, and the hash set holds
    /// exactly their keys.
    pub closed spec fn well_formed(&self) -> bool {
        &&& self.seen@.finite()
        &&& self.seen_count == self.seen@.len()
        &&& self.seen_count <= MAX_TREE_DIRECTORIES
        &&& forall|d: DigestView|
            self.seen@.contains(d) <==> digest_key_set_elements(self.seen_keys).contains(
                digest_set_key(d),
            )
    }

    /// A walk that starts at `root`.
    pub fn new(root: &Digest) -> (r: TreeWalk)
        ensures
            r.well_formed(),
            r.pending() == seq![(root@, Seq::<DigestView>::empty())],
            r.seen() == Set::<DigestView>::empty(),
            r.current() == Seq::<DigestView>::empty(),
    {
        let mut pending: Vec<(Digest, Vec<Digest>)> = Vec::new();
        pending.push((root.clone(), Vec::new()));
        let r = TreeWalk {
            pending,
            seen_keys: digest_key_set_new(),
            seen_count: 0,
            current: Vec::new(),
            seen: Ghost(Set::empty()),
        };
        assert(views(r.current@) =~= Seq::<DigestView>::empty());
        assert(views(r.pending@[0].1@) =~= Seq::<DigestView>::empty());
        assert(r.pending() =~= seq![(root@, Seq::<DigestView>::empty())]);
        assert(r.current() =~= Seq::<DigestView>::empty());
        r
    }

    /// The next directory to check (see `walk_next`), or `None` when the walk
    /// is done.
    pub fn next_directory(&mut self) -> (r: Result<Option<Digest>, ApiError>)
        requires
            old(self).well_formed(),
        ensures
            ({
                let step = walk_next(old(self).pending(), old(self).seen());
                &&& match (r, step.outcome) {
                    (Ok(Some(d)), Ok(Some(expected))) => d@ == expected,
                    (Ok(None), Ok(None)) => true,
                    (Err(e), Err(expected)) => e@ == expected,
                    _ => false,
                }
                &&& r is Ok ==> {
                    &&& final(self).well_formed()
                    &&& final(self).pending() == step.pending
                    &&& final(self).seen() == step.seen
                    &&& (r matches Ok(Some(_)) ==> final(self).current() == step.current)
                }
            }),
    {
        let ghost start_pending = old(self).pending();
        let ghost start_seen = old(self).seen();
        loop
            invariant
                self.well_formed(),
                start_pending == old(self).pending(),
                start_seen == old(self).seen(),
                walk_next(start_pending, start_seen) == walk_next(self.pending(), self.seen()),
            decreases self.pending@.len(),
        {
            let ghost before = self.pending@;
            let entry = self.pending.pop();
            let (digest, path) = match entry {
                None => {
                    proof {
                        assert(self.pending@ == before);
                        assert(pending_views(before) =~= Seq::<PendingView>::empty());
                    }
                    return Ok(None);
                },
                Some(e) => e,
            };
            proof {
                assert(self.pending@ == before.drop_last());
                assert(pending_views(before).last() == (digest@, views(path@)));
                assert(pending_views(before).drop_last() =~= pending_views(self.pending@));
            }
            if contains_digest(&path, &digest) {
                return Err(ApiError::unprocessable("directory graph contains a cycle"));
            }
            let ghost seen_before = self.seen@;
            let fresh = digest_key_set_insert(&mut self.seen_keys, digest.set_key());
            if !fresh {
                proof {
                    assert(seen_before.contains(digest@));
                }
                continue;
            }
            proof {
                assert(!seen_before.contains(digest@));
                self.seen = Ghost(seen_before.insert(digest@));
                assert forall|d: DigestView|
                    digest_key_set_elements(self.seen_keys).contains(
                        digest_set_key(d),
                    ) implies self.seen@.contains(d) by {
                    if digest_set_key(d) == digest_set_key(digest@) {
                        lemma_digest_set_key_injective(d, digest@);
                    }
                }
            }
            if self.seen_count >= MAX_TREE_DIRECTORIES {
                return Err(ApiError::unprocessable("directory graph is too large"));
            }
            self.seen_count = self.seen_count + 1;
            if digest.size > MAX_OBJECT_BYTES {
                return Err(ApiError::unprocessable("directory object is too large"));
            }
            let mut current = path;
            current.push(digest.clone());
            self.current = current;
            proof {
                assert(self.current() =~= views(path@).push(digest@));
            }
            return Ok(Some(digest));
        }
    }

    /// The error for a directory object whose blob is not visible or not
    /// stored.
    pub fn missing_object() -> (r: ApiError)
        ensures
            r@ == error_view(422, "directory object is missing"@),
    {
        ApiError::unprocessable("directory object is missing")
    }

    /// Queues the subdirectories of the directory last yielded, each with the
    /// path through it, after the queue.
    pub fn descend(&mut self, directory: &Directory)
        requires
            old(self).well_formed(),
        ensures
            final(self).well_formed(),
            final(self).seen() == old(self).seen(),
            final(self).current() == old(self).current(),
            final(self).pending() == old(self).pending() + directory.directories@.map_values(
                |n: crate::model::DirectoryNode| (n.digest@, old(self).current()),
            ),
    {
        let ghost start = self.pending();
        let ghost path = self.current();
        let mut i: usize = 0;
        while i < directory.directories.len()
            invariant
                self.well_formed(),
                self.seen() == old(self).seen(),
                self.current() == path,
                path == old(self).current(),
                start == old(self).pending(),
                i <= directory.directories@.len(),
                self.pending() == start + directory.directories@.subrange(0, i as int).map_values(
                    |n: crate::model::DirectoryNode| (n.digest@, path),
                ),
            decreases directory.directories@.len() - i,
        {
            let node = &directory.directories[i];
            let copy = clone_digests(&self.current);
            let ghost before = self.pending@;
            self.pending.push((node.digest.clone(), copy));
            proof {
                assert(pending_views(self.pending@) =~= pending_views(before).push(
                    (node.digest@, path),
                ));
                assert(directory.directories@.subrange(0, i + 1).map_values(
                    |n: crate::model::DirectoryNode| (n.digest@, path),
                ) =~= directory.directories@.subrange(0, i as int).map_values(
                    |n: crate::model::DirectoryNode| (n.digest@, path),
                ).push((node.digest@, path)));
            }
            i = i + 1;
        }
        proof {
            assert(directory.directories@.subrange(0, i as int) =~= directory.directories@);
        }
    }
}

/// Whether `d` is among `ds`.
fn contains_digest(ds: &Vec<Digest>, d: &Digest) -> (r: bool)
    ensures
        r == views(ds@).contains(d@),
{
    let mut i: usize = 0;
    while i < ds.len()
        invariant
            i <= ds@.len(),
            forall|j: int| 0 <= j < i ==> ds@[j]@ != d@,
        decreases ds@.len() - i,
    {
        if ds[i].same_as(d) {
            proof {
                assert(views(ds@)[i as int] == d@);
            }
            return true;
        }
        i = i + 1;
    }
    proof {
        if views(ds@).contains(d@) {
            let k = choose|k: int| 0 <= k < views(ds@).len() && views(ds@)[k] == d@;
            assert(ds@[k]@ == d@);
        }
    }
    false
}

/// Copies a list of digests.
fn clone_digests(ds: &Vec<Digest>) -> (r: Vec<Digest>)
    ensures
        views(r@) == views(ds@),
{
    let mut out: Vec<Digest> = Vec::new();
    let mut i: usize = 0;
    while i < ds.len()
        invariant
            i <= ds@.len(),
            out@.len() == i,
            forall|j: int| 0 <= j < i ==> (#[trigger] out@[j])@ == ds@[j]@,
        decreases ds@.len() - i,
    {
        out.push(ds[i].clone());
        i = i + 1;
    }
    assert(views(out@) =~= views(ds@));
    out
}

/// The outcome of the checks of a fetched directory object: it must parse
/// as a directory, be canonical (its compact encoding is exactly the bytes
/// read), be of version 1, and have valid entries.
pub open spec fn directory_object_check(
    bytes: Seq<u8>,
    parsed: Option<Directory>,
    encoded: Option<Seq<u8>>,
) -> Result<(), ApiErrorView> {
    match parsed {
        None => Err(error_view(422, "directory object is invalid"@)),
        Some(directory) => match encoded {
            None => Err(error_view(500, "internal server error"@)),
            Some(text) => if text != bytes {
                Err(error_view(422, "directory object is not canonical JSON"@))
            } else if directory.version != 1 {
                Err(error_view(422, "unsupported directory object version"@))
            } else {
                entries_check(directory_items(directory), Set::empty())
            },
        },
    }
}

/// Checks a fetched directory object (see `directory_object_check`), given
/// the bytes read, the directory they parse as, and that directory's compact
/// JSON encoding.
pub fn check_directory_object(
    bytes: &[u8],
    parsed: Option<&Directory>,
    encoded: Option<&[u8]>,
) -> (r: Result<(), ApiError>)
    ensures
        ({
            let p = match parsed {
                Some(d) => Some(*d),
                None => None,
            };
            let e = match encoded {
                Some(t) => Some(t@),
                None => None,
            };
            match (r, directory_object_check(bytes@, p, e)) {
                (Ok(()), Ok(())) => true,
                (Err(err), Err(expected)) => err@ == expected,
                _ => false,
            }
        }),
{
    let directory = match parsed {
        None => {
            return Err(ApiError::unprocessable("directory object is invalid"));
        },
        Some(d) => d,
    };
    let text = match encoded {
        None => {
            return Err(ApiError::internal());
        },
        Some(t) => t,
    };
    if !crate::text::bytes_equal(text, bytes) {
        return Err(ApiError::unprocessable("directory object is not canonical JSON"));
    }
    if directory.version != 1 {
        return Err(ApiError::unprocessable("unsupported directory object version"));
    }
    validate_directory_entries(directory)
}

/// A step of the walk never yields a directory that lies on its own path,
/// never yields one twice, never counts more than 100000 directories, and
/// never yields an object larger than 16 MiB.
pub proof fn law_walk_step(pending: Seq<PendingView>, seen: Set<DigestView>)
    requires
        seen.finite(),
        seen.len() <= MAX_TREE_DIRECTORIES,
    ensures
        ({
            let step = walk_next(pending, seen);
            step.outcome matches Ok(Some(d)) ==> {
                &&& !seen.contains(d)
                &&& step.seen == seen.insert(d)
                &&& step.seen.len() <= MAX_TREE_DIRECTORIES
                &&& d.size <= MAX_OBJECT_BYTES
                &&& step.current.last() == d
                &&& !step.current.drop_last().contains(d)
            }
        }),
    decreases pending.len(),
{
    if pending.len() > 0 {
        let d = pending.last().0;
        let path = pending.last().1;
        if !path.contains(d) && seen.contains(d) {
            law_walk_step(pending.drop_last(), seen);
        } else if !path.contains(d) && !seen.contains(d) {
            assert(path.push(d).drop_last() =~= path);
        }
    }
}


/// The error a walk reports for a directory that lies on its own path.
pub open spec fn cycle_error() -> ApiErrorView {
    error_view(422, "directory graph contains a cycle"@)
}

/// What one step of the walk takes from the queue: the index `k` of the
/// entry it decides on, every later entry being one seen before.
proof fn lemma_walk_next_index(pending: Seq<PendingView>, seen: Set<DigestView>) -> (k: int)
    ensures
        ({
            let step = walk_next(pending, seen);
            &&& step.outcome matches Ok(None) ==> {
                &&& step.seen == seen
                &&& forall|j: int| 0 <= j < pending.len() ==> seen.contains(#[trigger] pending[j].0)
            }
            &&& !(step.outcome matches Ok(None)) ==> {
                &&& 0 <= k < pending.len()
                &&& step.pending == pending.subrange(0, k)
                &&& forall|j: int| k < j < pending.len() ==> seen.contains(#[trigger] pending[j].0)
            }
            &&& step.outcome matches Ok(Some(d)) ==> {
                &&& d == pending[k].0
                &&& !seen.contains(d)
                &&& step.seen == seen.insert(d)
                &&& step.current == pending[k].1.push(d)
            }
            &&& step.outcome == Err::<Option<DigestView>, ApiErrorView>(cycle_error())
                ==> pending[k].1.contains(pending[k].0)
        }),
    decreases pending.len(),
{
    if pending.len() == 0 {
        -1
    } else {
        let last = pending.len() - 1;
        let d = pending.last().0;
        let path = pending.last().1;
        reveal_strlit("directory graph contains a cycle");
        reveal_strlit("directory graph is too large");
        reveal_strlit("directory object is too large");
        assert("directory graph contains a cycle"@[16] != "directory graph is too large"@[16]);
        assert("directory graph contains a cycle"@[10] != "directory object is too large"@[10]);
        if path.contains(d) {
            last
        } else if seen.contains(d) {
            let rest = pending.drop_last();
            let k = lemma_walk_next_index(rest, seen);
            assert(walk_next(pending, seen) == walk_next(rest, seen));
            if !(walk_next(rest, seen).outcome matches Ok(None)) {
                assert(rest.subrange(0, k) =~= pending.subrange(0, k));
                assert(rest[k] == pending[k]);
            }
            assert forall|j: int| 0 <= j < rest.len() implies pending[j] == rest[j] by {}
            k
        } else {
            assert(pending.drop_last() =~= pending.subrange(0, last));
            last
        }
    }
}

/// Each step of `s` goes from a directory to one of its subdirectories.
pub open spec fn chain(children: spec_fn(DigestView) -> Seq<DigestView>, s: Seq<DigestView>) -> bool {
    forall|i: int| 0 <= i < s.len() - 1 ==> children(#[trigger] s[i]).contains(s[i + 1])
}

/// `x` is the root or lies below it: a chain of subdirectory links leads
/// from the root to `x`.
pub open spec fn reachable(
    children: spec_fn(DigestView) -> Seq<DigestView>,
    root: DigestView,
    x: DigestView,
) -> bool {
    exists|s: Seq<DigestView>| #[trigger] chain(children, s) && s.len() >= 1 && s[0] == root && s.last() == x
}

/// Some directory reachable from the root lies below itself: a chain of at
/// least one link leads from it back to it.
pub open spec fn has_cycle(children: spec_fn(DigestView) -> Seq<DigestView>, root: DigestView) -> bool {
    exists|s: Seq<DigestView>|
        #[trigger] chain(children, s) && s.len() >= 2 && s[0] == s.last() && reachable(children, root, s[0])
}

/// Every subdirectory of a directory of `s` is in `s`.
pub open spec fn closed_under(children: spec_fn(DigestView) -> Seq<DigestView>, s: Set<DigestView>) -> bool {
    forall|x: DigestView, c: DigestView| s.contains(x) && #[trigger] children(x).contains(c) ==> s.contains(c)
}

/// A part of a chain is a chain.
proof fn lemma_chain_subrange(children: spec_fn(DigestView) -> Seq<DigestView>, s: Seq<DigestView>, m: int, j: int)
    requires
        chain(children, s),
        0 <= m <= j <= s.len(),
    ensures
        chain(children, s.subrange(m, j)),
{
    let t = s.subrange(m, j);
    assert forall|i: int| 0 <= i < t.len() - 1 implies children(#[trigger] t[i]).contains(t[i + 1]) by {
        assert(t[i] == s[m + i]);
        assert(t[i + 1] == s[m + i + 1]);
    }
}

/// A set that holds the root and all subdirectories of its members holds
/// every entry of a chain from the root.
proof fn lemma_closed_holds_chain(
    children: spec_fn(DigestView) -> Seq<DigestView>,
    set: Set<DigestView>,
    s: Seq<DigestView>,
    i: int,
)
    requires
        closed_under(children, set),
        chain(children, s),
        s.len() >= 1,
        set.contains(s[0]),
        0 <= i < s.len(),
    ensures
        set.contains(s[i]),
    decreases i,
{
    if i > 0 {
        lemma_closed_holds_chain(children, set, s, i - 1);
        assert(children(s[i - 1]).contains(s[i]));
    }
}

/// Whether some queued entry is for `c`.
pub open spec fn queued(pending: Seq<PendingView>, c: DigestView) -> bool {
    exists|j: int| 0 <= j < pending.len() && #[trigger] pending[j].0 == c
}

/// The walk with `children` giving each directory's subdirectories: after a
/// directory is yielded, its subdirectories are queued with the path through
/// it (as `TreeWalk::descend` does). `None` when `fuel` steps do not finish
/// it; otherwise its outcome and the directories seen.
pub open spec fn walk_run(
    children: spec_fn(DigestView) -> Seq<DigestView>,
    pending: Seq<PendingView>,
    seen: Set<DigestView>,
    fuel: nat,
) -> Option<(Result<(), ApiErrorView>, Set<DigestView>)>
    decreases fuel,
{
    if fuel == 0 {
        None
    } else {
        let step = walk_next(pending, seen);
        match step.outcome {
            Ok(None) => Some((Ok(()), step.seen)),
            Err(e) => Some((Err(e), step.seen)),
            Ok(Some(d)) => walk_run(
                children,
                step.pending + children(d).map_values(|c: DigestView| (c, step.current)),
                step.seen,
                (fuel - 1) as nat,
            ),
        }
    }
}

/// What holds of the walk's state at every step.
spec fn walk_inv(
    children: spec_fn(DigestView) -> Seq<DigestView>,
    root: DigestView,
    pending: Seq<PendingView>,
    seen: Set<DigestView>,
) -> bool {
    &&& forall|x: DigestView, c: DigestView|
        seen.contains(x) && #[trigger] children(x).contains(c) ==> seen.contains(c) || queued(pending, c)
    &&& seen.contains(root) || queued(pending, root)
    &&& forall|x: DigestView| #[trigger] seen.contains(x) ==> reachable(children, root, x)
    &&& forall|j: int|
        0 <= j < pending.len() ==> {
            let s = (#[trigger] pending[j]).1.push(pending[j].0);
            s[0] == root && chain(children, s)
        }
}

proof fn lemma_walk_run(
    children: spec_fn(DigestView) -> Seq<DigestView>,
    root: DigestView,
    pending: Seq<PendingView>,
    seen: Set<DigestView>,
    fuel: nat,
)
    requires
        walk_inv(children, root, pending, seen),
    ensures
        walk_run(children, pending, seen, fuel) matches Some((Ok(()), s)) ==> {
            &&& s.contains(root)
            &&& closed_under(children, s)
            &&& forall|x: DigestView| #[trigger] s.contains(x) ==> reachable(children, root, x)
        },
        walk_run(children, pending, seen, fuel) matches Some((Err(e), _)) && e == cycle_error()
            ==> has_cycle(children, root),
    decreases fuel,
{
    if fuel == 0 {
        return;
    }
    let step = walk_next(pending, seen);
    let k = lemma_walk_next_index(pending, seen);
    match step.outcome {
        Ok(None) => {
            assert forall|c: DigestView| queued(pending, c) implies seen.contains(c) by {
                let j = choose|j: int| 0 <= j < pending.len() && #[trigger] pending[j].0 == c;
            }
        },
        Err(e) => {
            if e == cycle_error() {
                let d = pending[k].0;
                let path = pending[k].1;
                let s = path.push(d);
                assert(s[0] == root && chain(children, s));
                let m = choose|m: int| 0 <= m < path.len() && path[m] == d;
                assert(s.last() == d);
                assert(reachable(children, root, d));
                lemma_chain_subrange(children, s, m, s.len() as int);
                let cyc = s.subrange(m, s.len() as int);
                assert(cyc[0] == d);
                assert(cyc.last() == d);
                assert(chain(children, cyc) && cyc.len() >= 2 && cyc[0] == cyc.last() && reachable(children, root, cyc[0]));
            }
        },
        Ok(Some(d)) => {
            let cur = step.current;
            let kids = children(d).map_values(|c: DigestView| (c, cur));
            let next = step.pending + kids;
            let nseen = step.seen;
            assert(next.len() == k + children(d).len());
            assert forall|j: int| 0 <= j < k implies #[trigger] next[j] == pending[j] by {}
            assert forall|i: int| 0 <= i < children(d).len() implies #[trigger] next[k + i] == (
                children(d)[i],
                cur,
            ) by {}
            // d itself is reachable.
            let sk = pending[k].1.push(d);
            assert(sk[0] == root && chain(children, sk));
            assert(sk.last() == d);
            assert(reachable(children, root, d));
            // Subdirectories of d are queued.
            assert forall|c: DigestView| #[trigger] children(d).contains(c) implies queued(next, c) by {
                let i = choose|i: int| 0 <= i < children(d).len() && #[trigger] children(d)[i] == c;
                assert(next[k + i].0 == c);
            }
            // What was queued is queued still, or now seen.
            assert forall|c: DigestView| queued(pending, c) implies nseen.contains(c) || queued(next, c) by {
                let j = choose|j: int| 0 <= j < pending.len() && #[trigger] pending[j].0 == c;
                if j < k {
                    assert(next[j].0 == c);
                }
            }
            assert forall|x: DigestView, c: DigestView|
                nseen.contains(x) && #[trigger] children(x).contains(c) implies nseen.contains(c) || queued(next, c) by {
                if x != d {
                    if !seen.contains(c) {
                        assert(queued(pending, c));
                    }
                }
            }
            assert(nseen.contains(root) || queued(next, root)) by {
                if !seen.contains(root) {
                    assert(queued(pending, root));
                }
            }
            assert forall|j: int| 0 <= j < next.len() implies {
                let s = (#[trigger] next[j]).1.push(next[j].0);
                s[0] == root && chain(children, s)
            } by {
                if j < k {
                    assert(next[j] == pending[j]);
                } else {
                    let i = j - k;
                    let c = children(d)[i];
                    assert(next[j] == (c, cur));
                    let s = cur.push(c);
                    assert(cur == sk);
                    assert(s == sk.push(c));
                    assert(children(d).contains(c));
                    assert forall|t: int| 0 <= t < s.len() - 1 implies children(#[trigger] s[t]).contains(s[t + 1]) by {
                        if t < sk.len() - 1 {
                            assert(s[t] == sk[t]);
                            assert(s[t + 1] == sk[t + 1]);
                        } else {
                            assert(s[t] == d);
                        }
                    }
                }
            }
            lemma_walk_run(children, root, next, nseen, (fuel - 1) as nat);
        },
    }
}

/// A walk that finishes has seen exactly the directories reachable from the
/// root, and the graph below the root has no cycle; a walk that reports a
/// cycle has found one: a directory below the root that lies below itself.
/// So where the graph has a cycle the walk never finishes without an error.
/// (`children` gives the subdirectories of each directory object, as
/// `TreeWalk::descend` is handed them.)
pub proof fn law_walk_complete(
    children: spec_fn(DigestView) -> Seq<DigestView>,
    root: DigestView,
    fuel: nat,
)
    ensures
        walk_run(children, seq![(root, Seq::<DigestView>::empty())], Set::empty(), fuel) matches Some(
            (Ok(()), s),
        ) ==> (forall|x: DigestView| #[trigger] s.contains(x) == reachable(children, root, x))
            && !has_cycle(children, root),
        walk_run(children, seq![(root, Seq::<DigestView>::empty())], Set::empty(), fuel) matches Some(
            (Err(e), _),
        ) && e == cycle_error() ==> has_cycle(children, root),
{
    let pending = seq![(root, Seq::<DigestView>::empty())];
    assert(queued(pending, root)) by {
        assert(pending[0].0 == root);
    }
    assert forall|j: int| 0 <= j < pending.len() implies {
        let s = (#[trigger] pending[j]).1.push(pending[j].0);
        s[0] == root && chain(children, s)
    } by {
        assert(pending[j].1.push(pending[j].0) =~= seq![root]);
    }
    lemma_walk_run(children, root, pending, Set::empty(), fuel);
    assert(dfs_inv(children, pending, Set::empty())) by {
        assert forall|j: int| 0 <= j < pending.len() implies distinct(#[trigger] pending[j].1) by {}
    }
    lemma_walk_run_dfs(children, pending, Set::empty(), fuel);
    if let Some((Ok(()), s)) = walk_run(children, pending, Set::empty(), fuel) {
        if has_cycle(children, root) {
            let cyc = choose|cyc: Seq<DigestView>|
                #[trigger] chain(children, cyc) && cyc.len() >= 2 && cyc[0] == cyc.last() && reachable(
                    children,
                    root,
                    cyc[0],
                );
            let t = choose|t: Seq<DigestView>| #[trigger] chain(children, t) && t.len() >= 1 && t[0] == root
                && t.last() == cyc[0];
            lemma_closed_holds_chain(children, s, t, t.len() - 1);
        }
        assert forall|x: DigestView| #[trigger] s.contains(x) == reachable(children, root, x) by {
            if reachable(children, root, x) {
                let t = choose|t: Seq<DigestView>| #[trigger] chain(children, t) && t.len() >= 1 && t[0] == root
                    && t.last() == x;
                lemma_closed_holds_chain(children, s, t, t.len() - 1);
            }
        }
    }
}


/// The path of a queued entry followed by its directory.
pub open spec fn extended(p: Seq<PendingView>, j: int) -> Seq<DigestView> {
    p[j].1.push(p[j].0)
}

/// `x` lies on the path of some queued entry.
pub open spec fn on_open_path(p: Seq<PendingView>, x: DigestView) -> bool {
    exists|j: int| 0 <= j < p.len() && (#[trigger] p[j]).1.contains(x)
}

/// `x` has been yielded and lies on no queued path: its subtree is done.
pub open spec fn finished(p: Seq<PendingView>, seen: Set<DigestView>, x: DigestView) -> bool {
    seen.contains(x) && !on_open_path(p, x)
}

/// `c` follows `x` directly on the extended path of some queued entry.
pub open spec fn linked(p: Seq<PendingView>, x: DigestView, c: DigestView) -> bool {
    exists|j: int, t: int|
        0 <= j < p.len() && 0 <= t < extended(p, j).len() - 1 && #[trigger] extended(p, j)[t] == x
            && extended(p, j)[t + 1] == c
}

/// `a` is a prefix of `b`.
pub open spec fn is_prefix(a: Seq<DigestView>, b: Seq<DigestView>) -> bool {
    a.len() <= b.len() && b.subrange(0, a.len() as int) == a
}

/// No directory occurs twice in `s`.
pub open spec fn distinct(s: Seq<DigestView>) -> bool {
    forall|a: int, b: int| 0 <= a < b < s.len() ==> #[trigger] s[a] != #[trigger] s[b]
}

/// The depth-first discipline of the walk: queued paths grow along the
/// queue, consist of distinct yielded directories, finished directories
/// have only finished subdirectories and lie on no cycle, and each
/// subdirectory of an open directory is finished or still queued below it.
spec fn dfs_inv(
    children: spec_fn(DigestView) -> Seq<DigestView>,
    p: Seq<PendingView>,
    seen: Set<DigestView>,
) -> bool {
    &&& forall|i: int, j: int| 0 <= i < j < p.len() ==> is_prefix(#[trigger] p[i].1, #[trigger] p[j].1)
    &&& forall|j: int| 0 <= j < p.len() ==> distinct(#[trigger] p[j].1)
    &&& forall|j: int, t: int| 0 <= j < p.len() && 0 <= t < p[j].1.len() ==> seen.contains(#[trigger] p[j].1[t])
    &&& forall|x: DigestView, c: DigestView|
        finished(p, seen, x) && #[trigger] children(x).contains(c) ==> finished(p, seen, c)
    &&& forall|s: Seq<DigestView>|
        #[trigger] chain(children, s) && s.len() >= 2 && s[0] == s.last() ==> !finished(p, seen, s[0])
    &&& forall|x: DigestView, c: DigestView|
        seen.contains(x) && on_open_path(p, x) && #[trigger] children(x).contains(c) ==> finished(p, seen, c)
            || linked(p, x, c)
}


/// Along a growing queue, a directory on some path below the top lies on
/// the path just below the top, which is a prefix of the top's path.
proof fn lemma_open_below_top(p: Seq<PendingView>, y: DigestView)
    requires
        p.len() >= 2,
        forall|i: int, j: int| 0 <= i < j < p.len() ==> is_prefix(#[trigger] p[i].1, #[trigger] p[j].1),
    ensures
        on_open_path(p.drop_last(), y) == p[p.len() - 2].1.contains(y),
        is_prefix(p[p.len() - 2].1, p.last().1),
{
    let q = p.drop_last();
    let below = p[p.len() - 2].1;
    assert(is_prefix(p[p.len() - 2].1, p[p.len() - 1].1));
    if on_open_path(q, y) {
        let j = choose|j: int| 0 <= j < q.len() && (#[trigger] q[j]).1.contains(y);
        if j < p.len() - 2 {
            assert(is_prefix(p[j].1, p[p.len() - 2].1));
            let t = choose|t: int| 0 <= t < p[j].1.len() && p[j].1[t] == y;
            assert(below.subrange(0, p[j].1.len() as int)[t] == y);
            assert(below[t] == y);
        }
    }
    if below.contains(y) {
        assert(q[p.len() - 2] == p[p.len() - 2]);
    }
}

/// Taking from the queue a directory seen before, and not on its own path,
/// keeps the discipline.
proof fn lemma_dfs_skip(children: spec_fn(DigestView) -> Seq<DigestView>, p: Seq<PendingView>, seen: Set<DigestView>)
    requires
        dfs_inv(children, p, seen),
        p.len() >= 1,
        seen.contains(p.last().0),
        !p.last().1.contains(p.last().0),
    ensures
        dfs_inv(children, p.drop_last(), seen),
{
    let q = p.drop_last();
    let top = p.len() - 1;
    let path = p[top].1;
    let ctop = p[top].0;
    let ext = extended(p, top);
    assert(distinct(path));
    // What lies open now was open before.
    assert forall|y: DigestView| on_open_path(q, y) implies on_open_path(p, y) && path.contains(y) by {
        let j = choose|j: int| 0 <= j < q.len() && (#[trigger] q[j]).1.contains(y);
        assert(p[j] == q[j]);
        assert(is_prefix(p[j].1, p[top].1));
        let t = choose|t: int| 0 <= t < p[j].1.len() && p[j].1[t] == y;
        assert(path.subrange(0, p[j].1.len() as int)[t] == y);
    }
    // The directory taken is finished.
    assert(finished(q, seen, ctop));
    // A directory of the top path that is still open lies at a position below
    // the length of the path just below the top.
    let m: int = if q.len() == 0 { 0 } else { q.last().1.len() as int };
    assert forall|t: int| 0 <= t < path.len() implies (on_open_path(q, #[trigger] path[t]) == (t < m)) by {
        if q.len() > 0 {
            lemma_open_below_top(p, path[t]);
            let below = p[top - 1].1;
            assert(below =~= path.subrange(0, m));
            if below.contains(path[t]) {
                let u = choose|u: int| 0 <= u < below.len() && below[u] == path[t];
                assert(path[u] == path[t]);
            }
            if t < m {
                assert(below[t] == path[t]);
            }
        }
    }
    // Subdirectories of newly finished directories are finished.
    assert forall|x: DigestView, c: DigestView|
        finished(q, seen, x) && #[trigger] children(x).contains(c) implies finished(q, seen, c) by {
        if finished(p, seen, x) {
        } else {
            assert(on_open_path(p, x));
            if !finished(p, seen, c) {
                let (j, t) = choose|j: int, t: int|
                    0 <= j < p.len() && 0 <= t < extended(p, j).len() - 1 && #[trigger] extended(p, j)[t] == x
                        && extended(p, j)[t + 1] == c;
                if j < top {
                    assert(extended(p, j)[t] == p[j].1[t]);
                    assert(q[j] == p[j]);
                    assert(on_open_path(q, x));
                }
                assert(j == top);
                assert(path[t] == x);
                assert(!on_open_path(q, x));
                assert(t >= m);
                if t + 1 < path.len() {
                    assert(c == path[t + 1]);
                } else {
                    assert(c == ctop);
                }
            }
        }
    }
    // Newly finished directories lie on no cycle: along one, each step moves
    // one place down the top path.
    assert forall|cyc: Seq<DigestView>|
        #[trigger] chain(children, cyc) && cyc.len() >= 2 && cyc[0] == cyc.last() implies !finished(q, seen, cyc[0]) by {
        if finished(q, seen, cyc[0]) {
            lemma_finished_along(children, q, seen, cyc, 0);
            if exists|i: int| 0 <= i < cyc.len() && finished(p, seen, #[trigger] cyc[i]) {
                let i = choose|i: int| 0 <= i < cyc.len() && finished(p, seen, #[trigger] cyc[i]);
                lemma_finished_along(children, p, seen, cyc, i);
                assert(finished(p, seen, cyc[cyc.len() - 1]));
            } else {
                assert(!finished(p, seen, cyc[0]));
                assert(on_open_path(p, cyc[0]));
                let j0 = choose|j: int| 0 <= j < p.len() && (#[trigger] p[j]).1.contains(cyc[0]);
                assert(is_prefix(p[j0].1, path) || j0 == top);
                assert(path.contains(cyc[0]));
                let t0 = choose|t: int| 0 <= t < path.len() && path[t] == cyc[0];
                assert forall|i: int| 0 <= i < cyc.len() implies !finished(p, seen, #[trigger] cyc[i])
                    && !on_open_path(q, cyc[i]) && seen.contains(cyc[i]) by {
                    assert(finished(q, seen, cyc[i]));
                }
                lemma_cycle_walks_path(children, p, seen, cyc, t0, cyc.len() - 1);
                assert(path[t0] == path[t0 + cyc.len() - 1]);
            }
        }
    }
    // Subdirectories of directories still open are finished or still linked.
    assert forall|x: DigestView, c: DigestView|
        seen.contains(x) && on_open_path(q, x) && #[trigger] children(x).contains(c) implies finished(q, seen, c)
            || linked(q, x, c) by {
        assert(on_open_path(p, x));
        if !finished(p, seen, c) {
            let (j, t) = choose|j: int, t: int|
                0 <= j < p.len() && 0 <= t < extended(p, j).len() - 1 && #[trigger] extended(p, j)[t] == x
                    && extended(p, j)[t + 1] == c;
            if j < top {
                assert(q[j] == p[j]);
                assert(extended(q, j) == extended(p, j));
            } else {
                assert(path[t] == x);
                assert(t < m);
                let below = extended(q, top - 1);
                assert(q[top - 1].1 =~= path.subrange(0, m));
                if t + 1 < m {
                    assert(below[t] == x);
                    assert(below[t + 1] == c);
                } else if t + 1 < path.len() {
                    assert(c == path[t + 1]);
                } else {
                    assert(c == ctop);
                }
            }
        }
    }
    assert forall|i: int, j: int| 0 <= i < j < q.len() implies is_prefix(#[trigger] q[i].1, #[trigger] q[j].1) by {
        assert(q[i] == p[i] && q[j] == p[j]);
    }
    assert forall|j: int| 0 <= j < q.len() implies distinct(#[trigger] q[j].1) by {
        assert(q[j] == p[j]);
    }
    assert forall|j: int, t: int| 0 <= j < q.len() && 0 <= t < q[j].1.len() implies seen.contains(#[trigger] q[j].1[t]) by {
        assert(q[j] == p[j]);
    }
}

/// Along a chain from a finished directory, every later directory is
/// finished.
proof fn lemma_finished_along(
    children: spec_fn(DigestView) -> Seq<DigestView>,
    p: Seq<PendingView>,
    seen: Set<DigestView>,
    s: Seq<DigestView>,
    i: int,
)
    requires
        forall|x: DigestView, c: DigestView|
            finished(p, seen, x) && #[trigger] children(x).contains(c) ==> finished(p, seen, c),
        chain(children, s),
        0 <= i < s.len(),
        finished(p, seen, s[i]),
    ensures
        forall|k: int| i <= k < s.len() ==> finished(p, seen, #[trigger] s[k]),
{
    assert forall|k: int| i <= k < s.len() implies finished(p, seen, #[trigger] s[k]) by {
        lemma_finished_step(children, p, seen, s, i, k);
    }
}

proof fn lemma_finished_step(
    children: spec_fn(DigestView) -> Seq<DigestView>,
    p: Seq<PendingView>,
    seen: Set<DigestView>,
    s: Seq<DigestView>,
    i: int,
    k: int,
)
    requires
        forall|x: DigestView, c: DigestView|
            finished(p, seen, x) && #[trigger] children(x).contains(c) ==> finished(p, seen, c),
        chain(children, s),
        0 <= i <= k < s.len(),
        finished(p, seen, s[i]),
    ensures
        finished(p, seen, s[k]),
    decreases k - i,
{
    if k > i {
        lemma_finished_step(children, p, seen, s, i, k - 1);
        assert(children(s[k - 1]).contains(s[k]));
    }
}


/// A chain of directories that were open before the top entry was taken and
/// are finished after it walks down the top path one place per step.
proof fn lemma_cycle_walks_path(
    children: spec_fn(DigestView) -> Seq<DigestView>,
    p: Seq<PendingView>,
    seen: Set<DigestView>,
    cyc: Seq<DigestView>,
    t0: int,
    k: int,
)
    requires
        p.len() >= 1,
        dfs_inv(children, p, seen),
        finished(p, seen, p.last().0),
        chain(children, cyc),
        forall|i: int|
            0 <= i < cyc.len() ==> !finished(p, seen, #[trigger] cyc[i]) && !on_open_path(
                p.drop_last(),
                cyc[i],
            ) && seen.contains(cyc[i]),
        0 <= t0 < p.last().1.len(),
        p.last().1[t0] == cyc[0],
        0 <= k < cyc.len(),
    ensures
        t0 + k < p.last().1.len(),
        cyc[k] == p.last().1[t0 + k],
    decreases k,
{
    let top = p.len() - 1;
    let path = p[top].1;
    assert(distinct(path));
    if k > 0 {
        lemma_cycle_walks_path(children, p, seen, cyc, t0, k - 1);
        let x = cyc[k - 1];
        let c = cyc[k];
        assert(children(cyc[k - 1]).contains(cyc[k]));
        assert(seen.contains(x));
        assert(!finished(p, seen, x));
        assert(on_open_path(p, x));
        assert(!finished(p, seen, c));
        let (j, t) = choose|j: int, t: int|
            0 <= j < p.len() && 0 <= t < extended(p, j).len() - 1 && #[trigger] extended(p, j)[t] == x
                && extended(p, j)[t + 1] == c;
        if j < top {
            assert(extended(p, j)[t] == p[j].1[t]);
            assert(p.drop_last()[j] == p[j]);
            assert(on_open_path(p.drop_last(), x));
        }
        assert(path[t] == x);
        assert(t == t0 + k - 1);
        if t + 1 == path.len() {
            assert(c == p.last().0);
        }
        assert(c == path[t + 1]);
    }
}


/// Prefixes compose.
proof fn lemma_prefix_trans(a: Seq<DigestView>, b: Seq<DigestView>, c: Seq<DigestView>)
    requires
        is_prefix(a, b),
        is_prefix(b, c),
    ensures
        is_prefix(a, c),
{
    assert(c.subrange(0, a.len() as int) =~= c.subrange(0, b.len() as int).subrange(0, a.len() as int));
}

/// Yielding the top directory and queueing its subdirectories keeps the
/// discipline.
proof fn lemma_dfs_yield(children: spec_fn(DigestView) -> Seq<DigestView>, p: Seq<PendingView>, seen: Set<DigestView>)
    requires
        dfs_inv(children, p, seen),
        p.len() >= 1,
        !seen.contains(p.last().0),
        !p.last().1.contains(p.last().0),
    ensures
        dfs_inv(
            children,
            p.drop_last() + children(p.last().0).map_values(
                |c: DigestView| (c, p.last().1.push(p.last().0)),
            ),
            seen.insert(p.last().0),
        ),
{
    let top = p.len() - 1;
    let d = p[top].0;
    let path = p[top].1;
    let cur = path.push(d);
    let q = p.drop_last();
    let kids = children(d).map_values(|c: DigestView| (c, cur));
    let r = q + kids;
    let seen2 = seen.insert(d);
    // The directory yielded lies on no queued path.
    assert(!on_open_path(p, d)) by {
        if on_open_path(p, d) {
            let j = choose|j: int| 0 <= j < p.len() && (#[trigger] p[j]).1.contains(d);
            if j < top {
                assert(is_prefix(p[j].1, p[top].1));
                let t = choose|t: int| 0 <= t < p[j].1.len() && p[j].1[t] == d;
                assert(path.subrange(0, p[j].1.len() as int)[t] == d);
            }
        }
    }
    if children(d).len() == 0 {
        assert(r =~= q);
        assert forall|x: DigestView| finished(p, seen2, x) == (finished(p, seen, x) || x == d) by {}
        assert forall|x: DigestView, c: DigestView|
            finished(p, seen2, x) && #[trigger] children(x).contains(c) implies finished(p, seen2, c) by {
            if x == d {
                let i = choose|i: int| 0 <= i < children(d).len() && #[trigger] children(d)[i] == c;
            }
        }
        assert forall|cyc: Seq<DigestView>|
            #[trigger] chain(children, cyc) && cyc.len() >= 2 && cyc[0] == cyc.last() implies !finished(p, seen2, cyc[0]) by {
            if cyc[0] == d {
                assert(children(cyc[0]).contains(cyc[1]));
                let i = choose|i: int| 0 <= i < children(d).len() && #[trigger] children(d)[i] == cyc[1];
            }
        }
        assert forall|j: int, t: int| 0 <= j < p.len() && 0 <= t < p[j].1.len() implies seen2.contains(#[trigger] p[j].1[t]) by {}
        assert forall|x: DigestView, c: DigestView|
            seen2.contains(x) && on_open_path(p, x) && #[trigger] children(x).contains(c) implies finished(p, seen2, c)
                || linked(p, x, c) by {
            assert(x != d);
        }
        assert(dfs_inv(children, p, seen2));
        lemma_dfs_skip(children, p, seen2);
    } else {
        assert(r.len() == q.len() + children(d).len());
        assert forall|j: int| 0 <= j < q.len() implies #[trigger] r[j] == p[j] by {}
        assert forall|i: int| 0 <= i < children(d).len() implies #[trigger] r[q.len() + i] == (children(d)[i], cur) by {}
        assert(r[q.len() as int] == (children(d)[0], cur));
        // Open directories: those open before, and the one yielded.
        assert forall|y: DigestView| on_open_path(r, y) == (on_open_path(p, y) || y == d) by {
            if on_open_path(r, y) {
                let j = choose|j: int| 0 <= j < r.len() && (#[trigger] r[j]).1.contains(y);
                if j < q.len() {
                    assert(r[j] == p[j]);
                } else {
                    assert(r[j].1 == cur);
                    if y != d {
                        let t = choose|t: int| 0 <= t < cur.len() && cur[t] == y;
                        assert(path[t] == y);
                        assert(p[top].1.contains(y));
                    }
                }
            }
            if on_open_path(p, y) {
                let j = choose|j: int| 0 <= j < p.len() && (#[trigger] p[j]).1.contains(y);
                if j < top {
                    assert(r[j] == p[j]);
                    assert(r[j].1.contains(y));
                } else {
                    let t = choose|t: int| 0 <= t < path.len() && path[t] == y;
                    assert(cur[t] == y);
                    assert(r[q.len() as int].1.contains(y));
                }
            }
            if y == d {
                assert(cur[path.len() as int] == d);
                assert(r[q.len() as int].1.contains(y));
            }
        }
        assert forall|x: DigestView| finished(r, seen2, x) == finished(p, seen, x) by {}
        assert forall|i: int, j: int| 0 <= i < j < r.len() implies is_prefix(#[trigger] r[i].1, #[trigger] r[j].1) by {
            assert(is_prefix(path, cur)) by {
                assert(cur.subrange(0, path.len() as int) =~= path);
            }
            if j < q.len() {
            } else if i < q.len() {
                assert(is_prefix(p[i].1, path));
                lemma_prefix_trans(p[i].1, path, cur);
            } else {
                assert(cur.subrange(0, cur.len() as int) =~= cur);
            }
        }
        assert forall|j: int| 0 <= j < r.len() implies distinct(#[trigger] r[j].1) by {
            if j >= q.len() {
                assert(distinct(path));
                assert forall|a: int, b: int| 0 <= a < b < cur.len() implies #[trigger] cur[a] != #[trigger] cur[b] by {
                    if b == path.len() {
                        assert(cur[a] == path[a]);
                    } else {
                        assert(cur[a] == path[a] && cur[b] == path[b]);
                    }
                }
            }
        }
        assert forall|j: int, t: int| 0 <= j < r.len() && 0 <= t < r[j].1.len() implies seen2.contains(#[trigger] r[j].1[t]) by {
            if j >= q.len() {
                if t < path.len() {
                    assert(cur[t] == path[t]);
                }
            }
        }
        assert forall|x: DigestView, c: DigestView|
            finished(r, seen2, x) && #[trigger] children(x).contains(c) implies finished(r, seen2, c) by {}
        assert forall|cyc: Seq<DigestView>|
            #[trigger] chain(children, cyc) && cyc.len() >= 2 && cyc[0] == cyc.last() implies !finished(r, seen2, cyc[0]) by {}
        assert forall|x: DigestView, c: DigestView|
            seen2.contains(x) && on_open_path(r, x) && #[trigger] children(x).contains(c) implies finished(r, seen2, c)
                || linked(r, x, c) by {
            if x == d {
                let i = choose|i: int| 0 <= i < children(d).len() && #[trigger] children(d)[i] == c;
                let j = q.len() + i;
                assert(extended(r, j) == cur.push(c));
                assert(extended(r, j)[path.len() as int] == d);
                assert(extended(r, j)[path.len() as int + 1] == c);
            } else if !finished(p, seen, c) {
                let (j, t) = choose|j: int, t: int|
                    0 <= j < p.len() && 0 <= t < extended(p, j).len() - 1 && #[trigger] extended(p, j)[t] == x
                        && extended(p, j)[t + 1] == c;
                if j < top {
                    assert(extended(r, j) == extended(p, j));
                } else {
                    let k = q.len() as int;
                    assert(extended(p, j) == cur);
                    assert(extended(r, k) == cur.push(children(d)[0]));
                    assert(extended(r, k)[t] == x);
                    assert(extended(r, k)[t + 1] == c);
                }
            }
        }
    }
}


/// One step of the walk, followed by queueing the subdirectories of what it
/// yields, keeps the discipline; a step that finds nothing more leaves every
/// directory seen finished.
proof fn lemma_walk_next_dfs(children: spec_fn(DigestView) -> Seq<DigestView>, p: Seq<PendingView>, seen: Set<DigestView>)
    requires
        dfs_inv(children, p, seen),
    ensures
        ({
            let step = walk_next(p, seen);
            &&& step.outcome matches Ok(None) ==> dfs_inv(children, Seq::<PendingView>::empty(), step.seen)
            &&& step.outcome matches Ok(Some(d)) ==> dfs_inv(
                children,
                step.pending + children(d).map_values(|c: DigestView| (c, step.current)),
                step.seen,
            )
        }),
    decreases p.len(),
{
    if p.len() == 0 {
        assert(p =~= Seq::<PendingView>::empty());
    } else {
        let d = p.last().0;
        let path = p.last().1;
        if path.contains(d) {
        } else if seen.contains(d) {
            lemma_dfs_skip(children, p, seen);
            lemma_walk_next_dfs(children, p.drop_last(), seen);
        } else if seen.len() + 1 > MAX_TREE_DIRECTORIES {
        } else if d.size > MAX_OBJECT_BYTES {
        } else {
            lemma_dfs_yield(children, p, seen);
        }
    }
}

/// A walk that finishes leaves no directory it has seen on a cycle.
proof fn lemma_walk_run_dfs(
    children: spec_fn(DigestView) -> Seq<DigestView>,
    p: Seq<PendingView>,
    seen: Set<DigestView>,
    fuel: nat,
)
    requires
        dfs_inv(children, p, seen),
    ensures
        walk_run(children, p, seen, fuel) matches Some((Ok(()), s)) ==> forall|cyc: Seq<DigestView>|
            #[trigger] chain(children, cyc) && cyc.len() >= 2 && cyc[0] == cyc.last() ==> !s.contains(cyc[0]),
    decreases fuel,
{
    if fuel > 0 {
        lemma_walk_next_dfs(children, p, seen);
        let step = walk_next(p, seen);
        match step.outcome {
            Ok(None) => {
                let e = Seq::<PendingView>::empty();
                assert forall|x: DigestView| !on_open_path(e, x) by {}
            },
            Ok(Some(d)) => {
                lemma_walk_run_dfs(
                    children,
                    step.pending + children(d).map_values(|c: DigestView| (c, step.current)),
                    step.seen,
                    (fuel - 1) as nat,
                );
            },
            Err(_) => {},
        }
    }
}

} // verus!
