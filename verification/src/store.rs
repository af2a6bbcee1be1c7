//! Adapter over the embedded storage engine (sled): named ordered
//! collections mapping a 64-bit key to a byte record, a process-wide
//! monotonic id counter, and an explicit durability flush.
//!
//! Every collection is keyed by the 8-byte big-endian encoding of its
//! 64-bit key, so the engine's byte-ordered iteration is ascending numeric
//! key order. The contents of a collection are modelled as a map from key
//! to stored bytes; each wrapper below states over that model what the
//! engine call it relies on does.

use sled::Transactional;
use vstd::prelude::*;

verus! {

/// Error surfaced by the storage layer.
#[derive(Debug)]
pub enum StoreError {
    /// The engine reported an I/O or internal failure; the text is its message.
    Engine(String),
    /// A stored row is not a record of this library.
    Corrupt,
}

impl StoreError {
    /// The error's text, for callers that report it.
    pub fn message(&self) -> (r: String)
        ensures
            self matches StoreError::Engine(m) ==> r@ == m@,
            self is Corrupt ==> r@ == "corrupt row"@,
    {
        match self {
            StoreError::Engine(m) => m.clone(),
            StoreError::Corrupt => String::from_str("corrupt row"),
        }
    }
}

/// Handle of the opened database; source of fresh ids and durability flushes.
#[verifier::external_body]
pub struct Store {
    db: sled::Db,
}

/// One named ordered collection of the database. The repository opens each
/// collection once and owns the handle: the contents model below belongs to
/// that one handle.
#[verifier::external_body]
pub struct StoreTree {
    tree: sled::Tree,
}

/// The contents of one collection: stored bytes by 64-bit key.
pub uninterp spec fn tree_entries(t: StoreTree) -> Map<u64, Seq<u8>>;

/// The ids the engine's counter has handed out through this handle's
/// process-wide generator.
pub uninterp spec fn issued_ids(s: Store) -> Set<u64>;

/// The key/value rows of the list `s` are exactly the contents `m`, in
/// strictly ascending key order.
pub open spec fn kv_rows_wf(s: Seq<(u64, Seq<u8>)>, m: Map<u64, Seq<u8>>) -> bool {
    &&& forall|i: int, j: int|
        0 <= i < j < s.len() ==> #[trigger] s[i].0 < #[trigger] s[j].0
    &&& forall|i: int|
        0 <= i < s.len() ==> m.contains_key(#[trigger] s[i].0) && s[i].1 == m[s[i].0]
    &&& forall|k: u64| #[trigger] m.contains_key(k) ==> exists|i: int| 0 <= i < s.len() && s[i].0 == k
}

/// The spec-level rows of an executable key/value list.
pub open spec fn kvs_view(v: Seq<(u64, Vec<u8>)>) -> Seq<(u64, Seq<u8>)> {
    Seq::new(v.len(), |i: int| (v[i].0, v[i].1@))
}

impl Store {
    /// Relies on sled::open: opens or creates the database at the path.
    /// What the collections hold afterwards depends on what is on disk.
    #[verifier::external_body]
    pub(crate) fn open(path: &str) -> (r: Result<Store, StoreError>)
        ensures
            r matches Err(e) ==> e is Engine,
    {
        match sled::open(path) {
            Ok(db) => Ok(Store { db }),
            Err(e) => Err(StoreError::Engine(format!("{}", e))),
        }
    }

    /// Relies on sled::Db::open_tree: opens or creates the named collection.
    #[verifier::external_body]
    pub(crate) fn open_tree(&self, name: &str) -> (r: Result<StoreTree, StoreError>)
        ensures
            r matches Err(e) ==> e is Engine,
    {
        match self.db.open_tree(name) {
            Ok(tree) => Ok(StoreTree { tree }),
            Err(e) => Err(StoreError::Engine(format!("{}", e))),
        }
    }

    /// Relies on sled::Db::generate_id: draws from a process-wide monotonic
    /// counter that never gives out the same value twice, even across
    /// restarts, so a successfully drawn id is fresh: it differs from every
    /// id the counter issued before.
    #[verifier::external_body]
    pub(crate) fn generate_id(&mut self) -> (r: Result<u64, StoreError>)
        ensures
            match r {
                Ok(id) => !issued_ids(*old(self)).contains(id) && issued_ids(*final(self))
                    == issued_ids(*old(self)).insert(id),
                Err(e) => e is Engine && issued_ids(*final(self)) == issued_ids(*old(self)),
            },
    {
        match self.db.generate_id() {
            Ok(id) => Ok(id),
            Err(e) => Err(StoreError::Engine(format!("{}", e))),
        }
    }

    /// Relies on sled::Db::flush: blocks until prior writes are durable.
    #[verifier::external_body]
    pub(crate) fn flush(&self) -> (r: Result<(), StoreError>)
        ensures
            r matches Err(e) ==> e is Engine,
    {
        match self.db.flush() {
            Ok(_) => Ok(()),
            Err(e) => Err(StoreError::Engine(format!("{}", e))),
        }
    }
}

impl StoreTree {
    /// Relies on sled::Tree::get: returns the value stored at the key, if any.
    #[verifier::external_body]
    pub(crate) fn get(&self, key: u64) -> (r: Result<Option<Vec<u8>>, StoreError>)
        ensures
            match r {
                Ok(Some(b)) => tree_entries(*self).contains_key(key) && b@ == tree_entries(
                    *self,
                )[key],
                Ok(None) => !tree_entries(*self).contains_key(key),
                Err(e) => e is Engine,
            },
    {
        match self.tree.get(key.to_be_bytes()) {
            Ok(prior) => Ok(prior.map(|v| v.to_vec())),
            Err(e) => Err(StoreError::Engine(format!("{}", e))),
        }
    }

    /// Relies on sled::Tree::insert: stores the value at the key and returns
    /// the value previously stored there, if any.
    #[verifier::external_body]
    pub(crate) fn insert(&mut self, key: u64, value: &[u8]) -> (r: Result<Option<Vec<u8>>, StoreError>)
        ensures
            match r {
                Ok(prior) => {
                    &&& tree_entries(*final(self)) == tree_entries(*old(self)).insert(key, value@)
                    &&& (prior is Some <==> tree_entries(*old(self)).contains_key(key))
                    &&& (prior matches Some(b) ==> b@ == tree_entries(*old(self))[key])
                },
                Err(e) => e is Engine,
            },
    {
        match self.tree.insert(key.to_be_bytes(), value) {
            Ok(prior) => Ok(prior.map(|v| v.to_vec())),
            Err(e) => Err(StoreError::Engine(format!("{}", e))),
        }
    }

    /// Relies on sled::Tree::remove: deletes the value at the key and returns
    /// what was stored there, if anything.
    #[verifier::external_body]
    pub(crate) fn remove(&mut self, key: u64) -> (r: Result<Option<Vec<u8>>, StoreError>)
        ensures
            match r {
                Ok(prior) => {
                    &&& tree_entries(*final(self)) == tree_entries(*old(self)).remove(key)
                    &&& (prior is Some <==> tree_entries(*old(self)).contains_key(key))
                    &&& (prior matches Some(b) ==> b@ == tree_entries(*old(self))[key])
                },
                Err(e) => e is Engine,
            },
    {
        match self.tree.remove(key.to_be_bytes()) {
            Ok(prior) => Ok(prior.map(|v| v.to_vec())),
            Err(e) => Err(StoreError::Engine(format!("{}", e))),
        }
    }

    /// Relies on sled's multi-collection transaction, `(&Tree, &Tree)
    /// .transaction`: one serializable transaction that, when nothing is
    /// stored here at the key, stores the value here and an empty record
    /// under the same key in `marks`; when something is stored, it changes
    /// nothing. Conflicting concurrent transactions are retried by sled;
    /// the staged writes commit together, so on an error neither
    /// collection has been changed — that clause rests on the transaction's
    /// documented atomicity.
    #[verifier::external_body]
    pub(crate) fn insert_new_with_mark(
        &mut self,
        marks: &mut StoreTree,
        key: u64,
        value: &[u8],
    ) -> (r: Result<bool, StoreError>)
        ensures
            match r {
                Ok(inserted) => {
                    &&& inserted == !tree_entries(*old(self)).contains_key(key)
                    &&& tree_entries(*final(self)) == (if inserted {
                        tree_entries(*old(self)).insert(key, value@)
                    } else {
                        tree_entries(*old(self))
                    })
                    &&& tree_entries(*final(marks)) == (if inserted {
                        tree_entries(*old(marks)).insert(key, Seq::<u8>::empty())
                    } else {
                        tree_entries(*old(marks))
                    })
                },
                Err(e) => {
                    &&& e is Engine
                    &&& tree_entries(*final(self)) == tree_entries(*old(self))
                    &&& tree_entries(*final(marks)) == tree_entries(*old(marks))
                },
            },
    {
        let kb = key.to_be_bytes();
        let res: sled::transaction::TransactionResult<bool> = (&self.tree, &marks.tree)
            .transaction(|(rows, mark_rows)| {
                if rows.get(&kb)?.is_none() {
                    rows.insert(&kb[..], value)?;
                    mark_rows.insert(&kb[..], &[] as &[u8])?;
                    Ok(true)
                } else {
                    Ok(false)
                }
            });
        res.map_err(|e| StoreError::Engine(format!("{:?}", e)))
    }

    /// Relies on sled::Tree::iter: yields every row once, in ascending byte
    /// order of the keys, which is ascending numeric order of the 8-byte
    /// big-endian keys this adapter writes. A row whose key is not 8 bytes
    /// long was not written by this adapter and is reported as an engine
    /// anomaly, so a `Corrupt` error is left to mean exactly a record of
    /// this library that fails its decoder.
    #[verifier::external_body]
    pub(crate) fn list(&self) -> (r: Result<Vec<(u64, Vec<u8>)>, StoreError>)
        ensures
            match r {
                Ok(rows) => kv_rows_wf(kvs_view(rows@), tree_entries(*self)),
                Err(e) => e is Engine,
            },
    {
        let mut out: Vec<(u64, Vec<u8>)> = Vec::new();
        for kv in self.tree.iter() {
            match kv {
                Ok((k, v)) => match <[u8; 8]>::try_from(k.as_ref()) {
                    Ok(kb) => out.push((u64::from_be_bytes(kb), v.to_vec())),
                    Err(_) => return Err(StoreError::Engine(format!("row key is not 8 bytes"))),
                },
                Err(e) => return Err(StoreError::Engine(format!("{}", e))),
            }
        }
        Ok(out)
    }
}

} // verus!
