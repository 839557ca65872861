//! The sled database and the random source behind the message store.
//!
//! Everything here is trusted: each item calls sled or iroh-base, and its
//! contract states what the called function's source shows. The contents of
//! the default tree of a `sled::Db` are named `tree_entries`; a scan over it
//! is named by what it has still to yield, `iter_pending`.

use std::path::PathBuf;
use vstd::prelude::*;

use crate::bytes_order::{has_prefix, lex_lt};

verus! {

#[verifier::external_type_specification]
#[verifier::external_body]
pub struct ExSledDb(sled::Db);

#[verifier::external_type_specification]
#[verifier::external_body]
pub struct ExSledIter(sled::Iter);

#[verifier::external_type_specification]
#[verifier::external_body]
pub struct ExSledTree(sled::Tree);

#[verifier::external_type_specification]
#[verifier::external_body]
pub struct ExSledError(sled::Error);

/// The item type of a sled scan; the wrappers hand out its bytes as vectors.
#[verifier::external_type_specification]
#[verifier::external_body]
pub struct ExSledIVec(sled::IVec);

/// The key/value pairs held by the default tree of `db`. The library never
/// clones a `Db` and opens no other handle to its default tree, so the handle
/// that a store owns is the only way its default tree is read or written;
/// sled locks the database file, so no other process opens it meanwhile.
pub uninterp spec fn tree_entries(db: sled::Db) -> Map<Seq<u8>, Seq<u8>>;

/// The key/value pairs that the scan `it` has still to yield, in order. A
/// sled scan reads the live tree at each step; the library reaches a scan
/// only through a `Scan`, which borrows the database handle for as long as
/// it lives, so the tree is not written while the scan is pending.
pub uninterp spec fn iter_pending(it: sled::Iter) -> Seq<(Seq<u8>, Seq<u8>)>;

/// A scan of a database's default tree, holding a shared borrow of the
/// database handle: while it lives, nothing can write through the handle.
#[allow(dead_code)]
pub struct Scan<'a> {
    db: &'a sled::Db,
    it: sled::Iter,
}

impl<'a> Scan<'a> {
    /// The entries the scan has still to yield, in order.
    pub closed spec fn pending(self) -> Seq<(Seq<u8>, Seq<u8>)> {
        iter_pending(self.it)
    }
}

/// `s` lists exactly the entries of `m` whose key starts with `prefix`,
/// in strictly increasing key order.
pub open spec fn is_prefix_scan(
    s: Seq<(Seq<u8>, Seq<u8>)>,
    m: Map<Seq<u8>, Seq<u8>>,
    prefix: Seq<u8>,
) -> bool {
    &&& forall|i: int|
        0 <= i < s.len() ==> {
            &&& has_prefix(#[trigger] s[i].0, prefix)
            &&& m.contains_key(s[i].0)
            &&& m[s[i].0] == s[i].1
        }
    &&& forall|i: int, j: int| 0 <= i < j < s.len() ==> lex_lt(#[trigger] s[i].0, #[trigger] s[j].0)
    &&& forall|k: Seq<u8>|
        #[trigger] m.contains_key(k) && has_prefix(k, prefix) ==> exists|i: int|
            0 <= i < s.len() && s[i].0 == k
}

/// Calls `sled::open`: opens (or creates) the database at `path`. What it
/// holds is whatever is on disk, so nothing is stated of it.
#[verifier::external_body]
pub(crate) fn db_open(path: &PathBuf) -> (r: Result<sled::Db, sled::Error>) {
    sled::open(path)
}

/// Calls `sled::Config::new().temporary(true).open()`: a fresh database in a
/// new temporary file, which holds nothing.
#[verifier::external_body]
pub(crate) fn db_open_temporary() -> (r: Result<sled::Db, sled::Error>)
    ensures
        match r {
            Ok(db) => tree_entries(db) == Map::<Seq<u8>, Seq<u8>>::empty(),
            Err(_) => true,
        },
{
    sled::Config::new().temporary(true).open()
}

/// Calls `sled::Tree::get` on the default tree: the value stored under
/// `key`, if any.
#[verifier::external_body]
pub(crate) fn db_get(db: &sled::Db, key: &[u8]) -> (r: Result<Option<Vec<u8>>, sled::Error>)
    ensures
        match r {
            Ok(Some(value)) => tree_entries(*db).contains_key(key@) && tree_entries(*db)[key@]
                == value@,
            Ok(None) => !tree_entries(*db).contains_key(key@),
            Err(_) => true,
        },
{
    match db.get(key) {
        Ok(Some(value)) => Ok(Some(value.to_vec())),
        Ok(None) => Ok(None),
        Err(e) => Err(e),
    }
}

/// Calls `sled::Tree::insert` on the default tree: on success `key` maps to
/// `value` and nothing else changed. On an error nothing is stated.
#[verifier::external_body]
pub(crate) fn db_insert(db: &mut sled::Db, key: &[u8], value: &[u8]) -> (r: Result<(), sled::Error>)
    ensures
        r is Ok ==> tree_entries(*final(db)) == tree_entries(*old(db)).insert(key@, value@),
{
    match db.insert(key, value) {
        Ok(_) => Ok(()),
        Err(e) => Err(e),
    }
}

/// Calls `sled::Tree::remove` on the default tree: on success `key` is gone
/// and nothing else changed. On an error nothing is stated.
#[verifier::external_body]
pub(crate) fn db_remove(db: &mut sled::Db, key: &[u8]) -> (r: Result<(), sled::Error>)
    ensures
        r is Ok ==> tree_entries(*final(db)) == tree_entries(*old(db)).remove(key@),
{
    match db.remove(key) {
        Ok(_) => Ok(()),
        Err(e) => Err(e),
    }
}

/// The name under which sled keeps the default tree.
pub open spec fn default_tree_name() -> Seq<char> {
    "__sled__default"@
}

/// Calls `sled::Db::open_tree` for a tree other than the default one: a
/// handle to that tree, which shares no entries with the default tree.
/// Whether it opens depends on the disk, so nothing is stated of the result.
#[verifier::external_body]
pub(crate) fn db_open_tree(db: &sled::Db, name: &str) -> (r: Result<sled::Tree, sled::Error>)
    requires
        name@ != default_tree_name(),
{
    db.open_tree(name)
}

/// Calls `sled::Db::size_on_disk`: the size of the database's files, which
/// depends on the disk, so nothing is stated of it.
#[verifier::external_body]
pub(crate) fn db_size_on_disk(db: &sled::Db) -> (r: Result<u64, sled::Error>) {
    db.size_on_disk()
}

/// Calls `sled::Tree::flush`: writes buffered data to disk. Whether that
/// succeeds depends on the disk, so nothing is stated.
#[verifier::external_body]
pub(crate) fn db_flush(db: &sled::Db) -> (r: Result<(), sled::Error>) {
    match db.flush() {
        Ok(_) => Ok(()),
        Err(e) => Err(e),
    }
}

/// Calls `sled::Tree::scan_prefix` on the default tree: a scan that yields
/// the entries whose key starts with `prefix`, in key order. The scan keeps
/// `db` borrowed while it lives.
#[verifier::external_body]
fn scan_prefix<'a>(db: &'a sled::Db, prefix: &[u8]) -> (s: Scan<'a>)
    ensures
        is_prefix_scan(iter_pending(s.it), tree_entries(*db), prefix@),
{
    Scan { db, it: db.scan_prefix(prefix) }
}

/// A scan of the entries of the default tree whose key starts with
/// `prefix`, in key order.
pub(crate) fn db_scan_prefix<'a>(db: &'a sled::Db, prefix: &[u8]) -> (s: Scan<'a>)
    ensures
        is_prefix_scan(s.pending(), tree_entries(*db), prefix@),
{
    scan_prefix(db, prefix)
}

/// Calls `Iterator::next` on a sled scan: `None` once nothing is pending,
/// otherwise the first pending entry, which is then no longer pending. On a
/// storage error nothing is stated. The scan reads the tree as it is when
/// `next` runs, and the borrow the scan holds keeps the tree unwritten, so
/// what is pending is what the tree held when the scan was made.
#[verifier::external_body]
fn scan_next(s: &mut Scan) -> (r: Option<Result<(Vec<u8>, Vec<u8>), sled::Error>>)
    ensures
        match r {
            None => iter_pending(old(s).it).len() == 0,
            Some(Ok((k, v))) => {
                &&& iter_pending(old(s).it).len() > 0
                &&& iter_pending(old(s).it)[0] == (k@, v@)
                &&& iter_pending(final(s).it) == iter_pending(old(s).it).drop_first()
            },
            Some(Err(_)) => true,
        },
{
    match s.it.next() {
        None => None,
        Some(Ok((k, v))) => Some(Ok((k.to_vec(), v.to_vec()))),
        Some(Err(e)) => Some(Err(e)),
    }
}

/// The next entry of a scan: `None` once nothing is pending, otherwise the
/// first pending entry, which is then no longer pending.
pub(crate) fn iter_next(s: &mut Scan) -> (r: Option<Result<(Vec<u8>, Vec<u8>), sled::Error>>)
    ensures
        match r {
            None => old(s).pending().len() == 0,
            Some(Ok((k, v))) => {
                &&& old(s).pending().len() > 0
                &&& old(s).pending()[0] == (k@, v@)
                &&& final(s).pending() == old(s).pending().drop_first()
            },
            Some(Err(_)) => true,
        },
{
    scan_next(s)
}

/// Calls `iroh_base::SecretKey::generate` and returns the key's 32 bytes.
/// They are random, so nothing is stated of them.
#[verifier::external_body]
pub(crate) fn random_secret() -> (r: [u8; 32]) {
    iroh_base::SecretKey::generate().to_bytes()
}

/// The public key of the Ed25519 secret key with these 32 bytes, as
/// `iroh_base::SecretKey::public` computes it.
pub uninterp spec fn ed25519_public_key(secret: Seq<u8>) -> Seq<u8>;

/// Calls `iroh_base::SecretKey::from_bytes(..).public()` and returns the
/// public key's 32 bytes; they are named `ed25519_public_key(secret)`.
#[verifier::external_body]
pub(crate) fn public_key_of(secret: &[u8; 32]) -> (r: [u8; 32])
    ensures
        r@ == ed25519_public_key(secret@),
{
    *iroh_base::SecretKey::from_bytes(secret).public().as_bytes()
}

} // verus!
