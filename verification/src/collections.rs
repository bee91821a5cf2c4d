//! Hash sets of text and of digest keys, used to find repeated names, paths
//! and digests in one pass.

use std::collections::HashSet;
use vstd::prelude::*;

verus! {

/// The texts that a `HashSet<String>` holds, each by its characters.
pub uninterp spec fn text_set_elements(set: HashSet<String>) -> Set<Seq<char>>;

/// The keys that a set of digest keys holds: algorithm code, hash text, size.
pub uninterp spec fn digest_key_set_elements(set: HashSet<(u8, String, u64)>) -> Set<
    (u8, Seq<char>, u64),
>;

/// `HashSet::new`: the new set holds nothing.
#[verifier::external_body]
pub(crate) fn text_set_new() -> (r: HashSet<String>)
    ensures
        text_set_elements(r) == Set::<Seq<char>>::empty(),
{
    HashSet::new()
}

/// `HashSet::insert`: adds the text, and returns whether it was not there
/// before (two `String`s are equal exactly when their characters are).
#[verifier::external_body]
pub(crate) fn text_set_insert(set: &mut HashSet<String>, value: String) -> (r: bool)
    ensures
        text_set_elements(*final(set)) == text_set_elements(*old(set)).insert(value@),
        r == !text_set_elements(*old(set)).contains(value@),
{
    set.insert(value)
}

/// `HashSet::new`: the new set holds nothing.
#[verifier::external_body]
pub(crate) fn digest_key_set_new() -> (r: HashSet<(u8, String, u64)>)
    ensures
        digest_key_set_elements(r) == Set::<(u8, Seq<char>, u64)>::empty(),
{
    HashSet::new()
}

/// `HashSet::insert` on tuples: adds the key, and returns whether it was not
/// there before (tuples are equal exactly when their fields are).
#[verifier::external_body]
pub(crate) fn digest_key_set_insert(set: &mut HashSet<(u8, String, u64)>, key: (u8, String, u64)) -> (r:
    bool)
    ensures
        digest_key_set_elements(*final(set)) == digest_key_set_elements(*old(set)).insert(
            (key.0, key.1@, key.2),
        ),
        r == !digest_key_set_elements(*old(set)).contains((key.0, key.1@, key.2)),
{
    set.insert(key)
}

} // verus!
