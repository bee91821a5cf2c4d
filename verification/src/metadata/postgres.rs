//! The decisions of the PostgreSQL metadata store that need no database: which
//! digests a query can name, how the rows it returns map back to digests, and
//! what a write's row count means.

use super::{CommitOutcome, ManifestCommitOutcome, MetadataError, StoreKey, visible_subsequence};
use crate::model::{ActionResult, ActionResultView, Digest, DigestView};
use vstd::prelude::*;
use vstd::string::StringExecFns;

verus! {

/// The digests of `ds` whose size fits a signed 64-bit database column, in
/// order, each with its size as such.
pub open spec fn representable(ds: Seq<DigestView>) -> Seq<(DigestView, i64)>
    decreases ds.len(),
{
    if ds.len() == 0 {
        Seq::empty()
    } else {
        let before = representable(ds.drop_last());
        if ds.last().size <= i64::MAX {
            before.push((ds.last(), ds.last().size as i64))
        } else {
            before
        }
    }
}

/// The value of a list of digests paired with sizes.
pub open spec fn pair_views(pairs: Seq<(&Digest, i64)>) -> Seq<(DigestView, i64)> {
    pairs.map_values(|p: (&Digest, i64)| (p.0@, p.1))
}

/// The digests whose size the database can hold, each with that size (see
/// `representable`); the others cannot be stored and are never queried.
pub fn representable_digests<'a>(digests: &'a [Digest]) -> (r: Vec<(&'a Digest, i64)>)
    ensures
        pair_views(r@) == representable(digests@.map_values(|d: Digest| d@)),
{
    let ghost ds = digests@.map_values(|d: Digest| d@);
    let mut out: Vec<(&'a Digest, i64)> = Vec::new();
    let mut i: usize = 0;
    while i < digests.len()
        invariant
            ds == digests@.map_values(|d: Digest| d@),
            i <= digests@.len(),
            pair_views(out@) == representable(ds.subrange(0, i as int)),
        decreases digests@.len() - i,
    {
        proof {
            assert(ds.subrange(0, i + 1).drop_last() =~= ds.subrange(0, i as int));
            assert(ds.subrange(0, i + 1).last() == digests@[i as int]@);
        }
        let d = &digests[i];
        if d.size <= 9223372036854775807u64 {
            let ghost before = out@;
            out.push((d, d.size as i64));
            proof {
                assert(pair_views(out@) =~= pair_views(before).push((d@, d.size as i64)));
            }
        }
        i = i + 1;
    }
    proof {
        assert(ds.subrange(0, i as int) =~= ds);
    }
    out
}

/// The message for an ordinal that names no queried digest.
pub open spec fn invalid_ordinal_message() -> Seq<char> {
    "database returned an invalid blob ordinal"@
}

/// The message for an ordinal below one.
pub open spec fn negative_ordinal_message() -> Seq<char> {
    "out of range integral type conversion attempted"@
}

/// The digests the database reports visible, by their 1-based positions
/// among the queried digests, in the order reported; an error for the first
/// position that names none.
pub open spec fn resolve_spec(digests: Seq<(DigestView, i64)>, ordinals: Seq<i64>) -> Result<
    Seq<DigestView>,
    Seq<char>,
>
    decreases ordinals.len(),
{
    if ordinals.len() == 0 {
        Ok(Seq::empty())
    } else {
        match resolve_spec(digests, ordinals.drop_last()) {
            Err(m) => Err(m),
            Ok(found) => {
                let o = ordinals.last();
                if o < 1 {
                    Err(negative_ordinal_message())
                } else if o - 1 >= digests.len() {
                    Err(invalid_ordinal_message())
                } else {
                    Ok(found.push(digests[o - 1].0))
                }
            },
        }
    }
}

/// Maps the 1-based positions the database reports back to the queried
/// digests (see `resolve_spec`).
pub fn resolve_ordinals(digests: &[(&Digest, i64)], ordinals: &[i64]) -> (r: Result<
    Vec<Digest>,
    MetadataError,
>)
    ensures
        match (r, resolve_spec(pair_views(digests@), ordinals@)) {
            (Ok(found), Ok(expected)) => found@.map_values(|d: Digest| d@) == expected,
            (Err(e), Err(expected)) => e.message@ == expected,
            _ => false,
        },
{
    let ghost pv = pair_views(digests@);
    let mut out: Vec<Digest> = Vec::new();
    let mut i: usize = 0;
    proof {
        assert(ordinals@.subrange(0, 0) =~= Seq::<i64>::empty());
        assert(out@.map_values(|d: Digest| d@) =~= Seq::<DigestView>::empty());
    }
    while i < ordinals.len()
        invariant
            pv == pair_views(digests@),
            i <= ordinals@.len(),
            resolve_spec(pv, ordinals@.subrange(0, i as int)) == Ok::<Seq<DigestView>, Seq<char>>(
                out@.map_values(|d: Digest| d@),
            ),
        decreases ordinals@.len() - i,
    {
        proof {
            assert(ordinals@.subrange(0, i + 1).drop_last() =~= ordinals@.subrange(0, i as int));
            assert(ordinals@.subrange(0, i + 1).last() == ordinals@[i as int]);
        }
        let o = ordinals[i];
        if o < 1 {
            proof {
                lemma_resolve_error_sticks(pv, ordinals@, i as int + 1);
            }
            return Err(MetadataError {
                message: String::from_str("out of range integral type conversion attempted"),
            });
        }
        let index = (o - 1) as u64;
        if index >= digests.len() as u64 {
            proof {
                lemma_resolve_error_sticks(pv, ordinals@, i as int + 1);
            }
            return Err(MetadataError {
                message: String::from_str("database returned an invalid blob ordinal"),
            });
        }
        let ghost before = out@;
        out.push(digests[index as usize].0.clone());
        proof {
            assert(out@.map_values(|d: Digest| d@) =~= before.map_values(|d: Digest| d@).push(
                pv[o - 1].0,
            ));
        }
        i = i + 1;
    }
    proof {
        assert(ordinals@.subrange(0, i as int) =~= ordinals@);
    }
    Ok(out)
}

/// The 1-based positions of the queried digests that `rows` registers in
/// `namespace`, ascending: what the visibility query returns when the
/// database holds the registrations `rows`.
pub open spec fn matching_ordinals(
    rows: Set<StoreKey>,
    namespace: Seq<char>,
    queried: Seq<(DigestView, i64)>,
) -> Seq<i64>
    decreases queried.len(),
{
    if queried.len() == 0 {
        Seq::empty()
    } else {
        let before = matching_ordinals(rows, namespace, queried.drop_last());
        if rows.contains((namespace, queried.last().0)) {
            before.push(queried.len() as i64)
        } else {
            before
        }
    }
}

/// The matching positions lie between one and the number of digests queried.
proof fn lemma_matching_ordinals_range(
    rows: Set<StoreKey>,
    namespace: Seq<char>,
    queried: Seq<(DigestView, i64)>,
)
    requires
        queried.len() <= i64::MAX,
    ensures
        forall|j: int|
            0 <= j < matching_ordinals(rows, namespace, queried).len() ==> 1 <= #[trigger] matching_ordinals(
                rows,
                namespace,
                queried,
            )[j] <= queried.len(),
    decreases queried.len(),
{
    if queried.len() > 0 {
        let before = matching_ordinals(rows, namespace, queried.drop_last());
        lemma_matching_ordinals_range(rows, namespace, queried.drop_last());
        let all = matching_ordinals(rows, namespace, queried);
        assert forall|j: int| 0 <= j < all.len() implies 1 <= #[trigger] all[j] <= queried.len() by {
            if j < before.len() {
                assert(all[j] == before[j]);
                assert(1 <= before[j] <= queried.drop_last().len());
            } else {
                assert(all[j] == queried.len() as i64);
            }
        }
    }
}

/// Queuing one more digest changes nothing for positions already in range.
proof fn lemma_resolve_extend(digests: Seq<(DigestView, i64)>, extra: (DigestView, i64), ordinals: Seq<i64>)
    requires
        forall|j: int| 0 <= j < ordinals.len() ==> 1 <= #[trigger] ordinals[j] <= digests.len(),
    ensures
        resolve_spec(digests.push(extra), ordinals) == resolve_spec(digests, ordinals),
    decreases ordinals.len(),
{
    if ordinals.len() > 0 {
        let o = ordinals.last();
        assert(1 <= ordinals[ordinals.len() - 1] <= digests.len());
        lemma_resolve_extend(digests, extra, ordinals.drop_last());
        assert(digests.push(extra)[o - 1] == digests[o - 1]);
    }
}

/// The database's answer agrees with the store model: when it holds the
/// registrations `blobs` (none of a size it cannot store), the digests that
/// `visible_blobs` gives back from the query's positions are exactly the
/// requested digests registered in the namespace, in request order (see
/// `visible_subsequence`), as the in-memory store answers.
pub proof fn law_database_visibility_agrees(
    blobs: Set<StoreKey>,
    namespace: Seq<char>,
    digests: Seq<DigestView>,
)
    requires
        forall|k: StoreKey| #[trigger] blobs.contains(k) ==> k.1.size <= i64::MAX,
        digests.len() <= i64::MAX,
    ensures
        resolve_spec(
            representable(digests),
            matching_ordinals(blobs, namespace, representable(digests)),
        ) == Ok::<Seq<DigestView>, Seq<char>>(visible_subsequence(blobs, namespace, digests)),
    decreases digests.len(),
{
    if digests.len() > 0 {
        let rest = digests.drop_last();
        let x = digests.last();
        law_database_visibility_agrees(blobs, namespace, rest);
        lemma_representable_len(rest);
        let rep = representable(rest);
        let ords = matching_ordinals(blobs, namespace, rep);
        if x.size <= i64::MAX {
            let full = rep.push((x, x.size as i64));
            assert(representable(digests) == full);
            assert(full.drop_last() =~= rep);
            lemma_matching_ordinals_range(blobs, namespace, rep);
            lemma_resolve_extend(rep, (x, x.size as i64), ords);
            if blobs.contains((namespace, x)) {
                let nords = ords.push(full.len() as i64);
                assert(matching_ordinals(blobs, namespace, full) == nords);
                assert(nords.drop_last() =~= ords);
                assert(full[full.len() - 1].0 == x);
            }
        } else {
            assert(!blobs.contains((namespace, x)));
        }
    }
}

/// No more digests are queried than requested.
proof fn lemma_representable_len(ds: Seq<DigestView>)
    ensures
        representable(ds).len() <= ds.len(),
    decreases ds.len(),
{
    if ds.len() > 0 {
        lemma_representable_len(ds.drop_last());
    }
}

/// Once a prefix of the ordinals fails, every longer prefix fails the same way.
proof fn lemma_resolve_error_sticks(digests: Seq<(DigestView, i64)>, ordinals: Seq<i64>, k: int)
    requires
        0 <= k <= ordinals.len(),
        resolve_spec(digests, ordinals.subrange(0, k)) is Err,
    ensures
        resolve_spec(digests, ordinals) == resolve_spec(digests, ordinals.subrange(0, k)),
    decreases ordinals.len() - k,
{
    if k < ordinals.len() {
        assert(ordinals.subrange(0, k + 1).drop_last() =~= ordinals.subrange(0, k));
        lemma_resolve_error_sticks(digests, ordinals, k + 1);
    } else {
        assert(ordinals.subrange(0, k) =~= ordinals);
    }
}

/// What an insert-if-absent of an action result means: one inserted row is a
/// new result; otherwise the stored result decides between `AlreadyExists`
/// and `Conflict`, and a stored result that has vanished is an error.
pub open spec fn commit_outcome_spec(
    inserted_rows: u64,
    existing: Option<ActionResultView>,
    result: ActionResultView,
) -> Result<CommitOutcome, Seq<char>> {
    if inserted_rows == 1 {
        Ok(CommitOutcome::Created)
    } else {
        match existing {
            None => Err("action result disappeared after conflict"@),
            Some(stored) => if stored == result {
                Ok(CommitOutcome::AlreadyExists)
            } else {
                Ok(CommitOutcome::Conflict)
            },
        }
    }
}

/// Decides a commit from the rows the insert touched and, when it touched
/// none, the stored result (see `commit_outcome_spec`).
pub fn commit_outcome(inserted_rows: u64, existing: Option<&ActionResult>, result: &ActionResult) -> (r:
    Result<CommitOutcome, MetadataError>)
    ensures
        ({
            let stored = match existing {
                Some(e) => Some(e@),
                None => None,
            };
            match (r, commit_outcome_spec(inserted_rows, stored, result@)) {
                (Ok(got), Ok(expected)) => got == expected,
                (Err(e), Err(expected)) => e.message@ == expected,
                _ => false,
            }
        }),
{
    if inserted_rows == 1 {
        return Ok(CommitOutcome::Created);
    }
    match existing {
        None => Err(MetadataError {
            message: String::from_str("action result disappeared after conflict"),
        }),
        Some(stored) => if stored.same_as(result) {
            Ok(CommitOutcome::AlreadyExists)
        } else {
            Ok(CommitOutcome::Conflict)
        },
    }
}

/// What a conditional manifest write means from the rows it touched: none is
/// a failed precondition; otherwise an update when a tag was expected, a
/// create when none was.
pub fn manifest_commit_outcome(rows: u64, expected_given: bool) -> (r: ManifestCommitOutcome)
    ensures
        r == if rows == 0 {
            ManifestCommitOutcome::PreconditionFailed
        } else if expected_given {
            ManifestCommitOutcome::Updated
        } else {
            ManifestCommitOutcome::Created
        },
{
    if rows == 0 {
        ManifestCommitOutcome::PreconditionFailed
    } else if expected_given {
        ManifestCommitOutcome::Updated
    } else {
        ManifestCommitOutcome::Created
    }
}

} // verus!
