//! The trusted boundary around the persistent key-value store.
//!
//! The ledger keeps its state in sled trees.  Verus sees each tree as an
//! opaque value whose contents are named by the uninterpreted map
//! [`tree_contents`]; every operation the ledger performs goes through one
//! of the wrappers below, whose contracts state, over that map, what the
//! sled source shows the call to do.  A batch is likewise named by
//! [`batch_writes`]: sled's `Batch` keeps one staged write per key, a later
//! `insert`/`remove` for a key replacing an earlier one.
//!
//! The store itself is named the same way: [`db_tree_set`] is the set of
//! tree names it holds, grown by `open_tree` and shrunk by `drop_tree`.
//!
//! The contracts describe a store and its trees reached through a single
//! handle each.  The library opens each namespace once per handle and
//! never clones a tree, matching the single-instance assumption the rest
//! of the design makes about the store.
//!
//! Storage reads and writes can always fail with an I/O error; no wrapper
//! promises success, and nothing is stated about a tree's state after a
//! failed write.

use vstd::prelude::*;
use vstd::utf8::decode_utf8;
use vstd::utf8::valid_utf8;

verus! {

#[verifier::external_type_specification]
#[verifier::external_body]
pub struct ExDb(sled::Db);

#[verifier::external_type_specification]
#[verifier::external_body]
pub struct ExTree(sled::Tree);

#[verifier::external_type_specification]
#[verifier::external_body]
pub struct ExBatch(sled::Batch);

#[verifier::external_type_specification]
#[verifier::external_body]
pub struct ExSledError(sled::Error);

/// The key-to-value map a tree holds, as seen through one handle.
pub uninterp spec fn tree_contents(t: sled::Tree) -> Map<Seq<u8>, Seq<u8>>;

/// The writes a batch has staged: `Some` sets the key, `None` deletes it.
pub uninterp spec fn batch_writes(b: sled::Batch) -> Map<Seq<u8>, Option<Seq<u8>>>;

/// The map a tree holds after a batch: each staged key is set or deleted as
/// the batch says; every other key keeps its value.
pub open spec fn apply_writes(
    m: Map<Seq<u8>, Seq<u8>>,
    w: Map<Seq<u8>, Option<Seq<u8>>>,
) -> Map<Seq<u8>, Seq<u8>> {
    Map::new(
        |k: Seq<u8>|
            if w.contains_key(k) {
                w[k] is Some
            } else {
                m.contains_key(k)
            },
        |k: Seq<u8>|
            if w.contains_key(k) {
                w[k]->Some_0
            } else {
                m[k]
            },
    )
}

/// The set of tree names the store holds, as seen through one handle.
pub uninterp spec fn db_tree_set(db: sled::Db) -> Set<Seq<u8>>;

/// Relies on sled::Db::open_tree: opens the tree with that name, creating
/// it if the store lacks it, so on success the name is in the store's
/// tree-name set.  What the tree holds is whatever the store holds on
/// disk, so nothing is assumed of the new handle's contents.
#[verifier::external_body]
pub(crate) fn db_open_tree(db: &mut sled::Db, name: &Vec<u8>) -> (r: Result<
    sled::Tree,
    sled::Error,
>)
    ensures
        r is Ok ==> db_tree_set(*final(db)) == db_tree_set(*old(db)).insert(name@),
        r is Err ==> db_tree_set(*final(db)) == db_tree_set(*old(db)) || db_tree_set(*final(db))
            == db_tree_set(*old(db)).insert(name@),
{
    db.open_tree(name.as_slice())
}

/// Relies on sled::Tree::get: retrieves the value stored under the key, if
/// the tree holds one.
#[verifier::external_body]
pub(crate) fn tree_get(t: &sled::Tree, key: &Vec<u8>) -> (r: Result<
    Option<Vec<u8>>,
    sled::Error,
>)
    ensures
        r matches Ok(opt) ==> {
            &&& opt is Some <==> tree_contents(*t).contains_key(key@)
            &&& opt matches Some(v) ==> v@ == tree_contents(*t)[key@]
        },
{
    match t.get(key.as_slice()) {
        Ok(opt) => Ok(opt.map(|v| v.as_ref().to_vec())),
        Err(e) => Err(e),
    }
}

/// Relies on sled::Tree::insert: sets the key to the value (the returned
/// prior value is dropped here).
#[verifier::external_body]
pub(crate) fn tree_insert(t: &mut sled::Tree, key: &Vec<u8>, value: &Vec<u8>) -> (r: Result<
    (),
    sled::Error,
>)
    ensures
        r is Ok ==> tree_contents(*final(t)) == tree_contents(*old(t)).insert(key@, value@),
{
    match t.insert(key.as_slice(), value.as_slice()) {
        Ok(_) => Ok(()),
        Err(e) => Err(e),
    }
}

/// Relies on sled::Tree::remove: deletes the key (the returned prior value
/// is dropped here).
#[verifier::external_body]
pub(crate) fn tree_remove(t: &mut sled::Tree, key: &Vec<u8>) -> (r: Result<(), sled::Error>)
    ensures
        r is Ok ==> tree_contents(*final(t)) == tree_contents(*old(t)).remove(key@),
{
    match t.remove(key.as_slice()) {
        Ok(_) => Ok(()),
        Err(e) => Err(e),
    }
}

/// Relies on sled::Tree::apply_batch: applies every staged write as one
/// atomic unit.
#[verifier::external_body]
pub(crate) fn tree_apply_batch(t: &mut sled::Tree, b: sled::Batch) -> (r: Result<
    (),
    sled::Error,
>)
    ensures
        r is Ok ==> tree_contents(*final(t)) == apply_writes(
            tree_contents(*old(t)),
            batch_writes(b),
        ),
{
    t.apply_batch(b)
}

/// Relies on sled::Tree::iter: yields every key-value pair the tree holds,
/// each key once.  An I/O error while walking aborts the read.
#[verifier::external_body]
pub(crate) fn tree_entries(t: &sled::Tree) -> (r: Result<Vec<(Vec<u8>, Vec<u8>)>, sled::Error>)
    ensures
        r matches Ok(es) ==> {
            &&& forall|i: int|
                0 <= i < es@.len() ==> tree_contents(*t).contains_key(#[trigger] es@[i].0@)
                    && tree_contents(*t)[es@[i].0@] == es@[i].1@
            &&& forall|k: Seq<u8>|
                tree_contents(*t).contains_key(k) ==> exists|i: int|
                    0 <= i < es@.len() && #[trigger] es@[i].0@ == k
            &&& forall|i: int, j: int| 0 <= i < j < es@.len() ==> es@[i].0@ != es@[j].0@
        },
{
    let mut out = Vec::new();
    for item in t.iter() {
        let (k, v) = item?;
        out.push((k.as_ref().to_vec(), v.as_ref().to_vec()));
    }
    Ok(out)
}

/// The staged-write map of a batch that stages nothing.
pub open spec fn empty_writes() -> Map<Seq<u8>, Option<Seq<u8>>> {
    Map::empty()
}

/// Relies on sled::Batch::default: a batch with no staged write.
#[verifier::external_body]
pub(crate) fn batch_new() -> (r: sled::Batch)
    ensures
        batch_writes(r) == empty_writes(),
{
    sled::Batch::default()
}

/// Relies on sled::Batch::insert: stages "set this key to this value",
/// replacing any write already staged for the key.
#[verifier::external_body]
pub(crate) fn batch_insert(b: &mut sled::Batch, key: &Vec<u8>, value: &Vec<u8>)
    ensures
        batch_writes(*final(b)) == batch_writes(*old(b)).insert(key@, Some(value@)),
{
    b.insert(key.as_slice(), value.as_slice())
}

/// Relies on sled::Batch::remove: stages "delete this key", replacing any
/// write already staged for the key.
#[verifier::external_body]
pub(crate) fn batch_remove(b: &mut sled::Batch, key: &Vec<u8>)
    ensures
        batch_writes(*final(b)) == batch_writes(*old(b)).insert(key@, None),
{
    b.remove(key.as_slice())
}

/// Relies on sled::Db::tree_names: the names of the trees the store
/// holds, each exactly once (they are the keys of the store's tenant
/// map), listing the whole tree-name set.
#[verifier::external_body]
pub(crate) fn db_tree_names(db: &sled::Db) -> (r: Vec<Vec<u8>>)
    ensures
        forall|i: int, j: int| 0 <= i < j < r@.len() ==> r@[i]@ != r@[j]@,
        forall|i: int| 0 <= i < r@.len() ==> db_tree_set(*db).contains(#[trigger] r@[i]@),
        forall|n: Seq<u8>|
            db_tree_set(*db).contains(n) ==> exists|i: int|
                0 <= i < r@.len() && #[trigger] r@[i]@ == n,
{
    db.tree_names().into_iter().map(|n| n.as_ref().to_vec()).collect()
}

/// Relies on sled::Db::drop_tree: deletes the whole tree with that name
/// from the store, reporting whether it existed.
#[verifier::external_body]
pub(crate) fn db_drop_tree(db: &mut sled::Db, name: &Vec<u8>) -> (r: Result<bool, sled::Error>)
    ensures
        r is Ok ==> db_tree_set(*final(db)) == db_tree_set(*old(db)).remove(name@),
        r matches Ok(b) ==> (b <==> db_tree_set(*old(db)).contains(name@)),
{
    db.drop_tree(name.as_slice())
}

/// Relies on String::from_utf8: succeeds exactly on valid UTF-8, and then
/// returns the string those bytes spell.
#[verifier::external_body]
pub(crate) fn bytes_to_string(b: &Vec<u8>) -> (r: Option<String>)
    ensures
        r is Some <==> valid_utf8(b@),
        r matches Some(s) ==> s@ == decode_utf8(b@),
{
    String::from_utf8(b.clone()).ok()
}

} // verus!
