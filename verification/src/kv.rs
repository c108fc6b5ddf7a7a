//! The embedded key-value database, as the token store sees it.
//!
//! The database is `sled`. Nothing in it is verified: this file states what
//! the store relies on, which is that a database behaves as a map from keys
//! to values that only the calls below change. That holds while the handle
//! given to the store is the only one that writes.

use vstd::prelude::*;

verus! {

#[verifier::external_type_specification]
#[verifier::external_body]
pub struct ExDb(sled::Db);

#[verifier::external_type_specification]
#[verifier::external_body]
pub struct ExDbError(sled::Error);

/// The entries of a database: each key that its default tree holds, with
/// its value.
pub uninterp spec fn db_entries(db: sled::Db) -> Map<Seq<u8>, Seq<u8>>;

/// Whether a list of pairs is a snapshot of a map: every pair is an entry,
/// every entry is among the pairs, and no key comes twice.
pub open spec fn is_snapshot(pairs: Seq<(Vec<u8>, Vec<u8>)>, entries: Map<Seq<u8>, Seq<u8>>) -> bool {
    &&& forall|i: int|
        0 <= i < pairs.len() ==> entries.contains_key(#[trigger] pairs[i].0@) && entries[pairs[i].0@]
            == pairs[i].1@
    &&& forall|key: Seq<u8>| #[trigger]
        entries.contains_key(key) ==> exists|i: int| 0 <= i < pairs.len() && #[trigger] pairs[i].0@ == key
    &&& forall|i: int, j: int|
        0 <= i < j < pairs.len() ==> #[trigger] pairs[i].0@ != #[trigger] pairs[j].0@
}

/// `sled::Tree::get`, reached through the database's default tree: the
/// value stored under the key, or `None` where the key is absent. An error
/// says nothing of the entries.
#[verifier::external_body]
pub(crate) fn db_get(db: &sled::Db, key: &[u8]) -> (found: Result<Option<Vec<u8>>, sled::Error>)
    ensures
        found matches Ok(Some(value)) ==> db_entries(*db).contains_key(key@) && db_entries(*db)[key@]
            == value@,
        found matches Ok(None) ==> !db_entries(*db).contains_key(key@),
{
    match db.get(key) {
        Ok(Some(value)) => Ok(Some(value.to_vec())),
        Ok(None) => Ok(None),
        Err(e) => Err(e),
    }
}

/// `sled::Tree::compare_and_swap` with no expected value: the entry is
/// written only where the key is absent, and `Ok(true)` says that it was
/// written. `Ok(false)` says that the key was taken and nothing changed.
/// An error may surface before the write or after it, so the entries are
/// then the old ones or the old ones with the new entry.
#[verifier::external_body]
pub(crate) fn db_insert_new(db: &mut sled::Db, key: &[u8], value: &[u8]) -> (written: Result<
    bool,
    sled::Error,
>)
    ensures
        written matches Ok(true) ==> !db_entries(*old(db)).contains_key(key@) && db_entries(
            *final(db),
        ) == db_entries(*old(db)).insert(key@, value@),
        written matches Ok(false) ==> db_entries(*old(db)).contains_key(key@) && db_entries(
            *final(db),
        ) == db_entries(*old(db)),
        written is Err ==> db_entries(*final(db)) == db_entries(*old(db)) || (!db_entries(
            *old(db),
        ).contains_key(key@) && db_entries(*final(db)) == db_entries(*old(db)).insert(
            key@,
            value@,
        )),
{
    match db.compare_and_swap(key, None::<&[u8]>, Some(value)) {
        Ok(Ok(())) => Ok(true),
        Ok(Err(_)) => Ok(false),
        Err(e) => Err(e),
    }
}

/// `sled::Tree::remove`: the entry under the key is gone afterwards, and
/// the result is the value that it held, if any. Removing an absent key
/// succeeds and changes nothing. An error may surface before the removal
/// or after it, so the entries are then the old ones or the old ones
/// without the key.
#[verifier::external_body]
pub(crate) fn db_remove(db: &mut sled::Db, key: &[u8]) -> (removed: Result<
    Option<Vec<u8>>,
    sled::Error,
>)
    ensures
        removed is Ok ==> db_entries(*final(db)) == db_entries(*old(db)).remove(key@),
        removed matches Ok(Some(value)) ==> db_entries(*old(db)).contains_key(key@) && db_entries(
            *old(db),
        )[key@] == value@,
        removed matches Ok(None) ==> !db_entries(*old(db)).contains_key(key@),
        removed is Err ==> db_entries(*final(db)) == db_entries(*old(db)) || db_entries(*final(db))
            == db_entries(*old(db)).remove(key@),
{
    match db.remove(key) {
        Ok(Some(value)) => Ok(Some(value.to_vec())),
        Ok(None) => Ok(None),
        Err(e) => Err(e),
    }
}

/// `sled::Tree::iter`, run to its end: all entries, each key once. The
/// first item that fails makes the whole call fail.
#[verifier::external_body]
pub(crate) fn db_snapshot(db: &sled::Db) -> (pairs: Result<Vec<(Vec<u8>, Vec<u8>)>, sled::Error>)
    ensures
        pairs matches Ok(list) ==> is_snapshot(list@, db_entries(*db)),
{
    let mut list = Vec::new();
    for item in db.iter() {
        match item {
            Ok((key, value)) => list.push((key.to_vec(), value.to_vec())),
            Err(e) => return Err(e),
        }
    }
    Ok(list)
}

} // verus!
