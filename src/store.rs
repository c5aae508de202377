//! The mapping table: byte-string keys to byte-string values, kept in the
//! default tree of a sled database.
use vstd::prelude::*;

verus! {

#[verifier::external_type_specification]
#[verifier::external_body]
pub struct ExDb(sled::Db);

#[verifier::external_type_specification]
#[verifier::external_body]
pub struct ExIter(sled::Iter);

// `sled::Iter`'s `Iterator` impl yields `IVec`s, so the type is declared
// for that impl to be accepted, though no signature here uses it.
#[verifier::external_type_specification]
#[verifier::external_body]
pub struct ExIVec(sled::IVec);

#[verifier::external_type_specification]
#[verifier::external_body]
pub struct ExError(sled::Error);

/// The mappings held in the default tree of a sled database handle.
pub uninterp spec fn tree_contents(db: sled::Db) -> Map<Seq<u8>, Seq<u8>>;

/// The mappings that a sled iterator has still to yield.
pub uninterp spec fn iter_remaining(it: sled::Iter) -> Map<Seq<u8>, Seq<u8>>;

/// The value mapped to `key` in `m`, if any.
pub open spec fn lookup(m: Map<Seq<u8>, Seq<u8>>, key: Seq<u8>) -> Option<Seq<u8>> {
    if m.contains_key(key) {
        Some(m[key])
    } else {
        None
    }
}

/// The view of an optional byte vector.
pub open spec fn bytes_opt(o: Option<Vec<u8>>) -> Option<Seq<u8>> {
    match o {
        Some(v) => Some(v@),
        None => None,
    }
}

/// `new` agrees with `old` on every key but `key`.
pub open spec fn others_unchanged(old: Map<Seq<u8>, Seq<u8>>, new: Map<Seq<u8>, Seq<u8>>, key: Seq<u8>) -> bool {
    forall|k: Seq<u8>| k != key ==> #[trigger] lookup(new, k) == lookup(old, k)
}

/// Two tables in which every key looks up the same are the same table.
proof fn lemma_same_lookups(a: Map<Seq<u8>, Seq<u8>>, b: Map<Seq<u8>, Seq<u8>>)
    requires
        forall|k: Seq<u8>| #[trigger] lookup(a, k) == lookup(b, k),
    ensures
        a == b,
{
    assert forall|k: Seq<u8>| a.contains_key(k) == b.contains_key(k) by {
        assert(lookup(a, k) == lookup(b, k));
    }
    assert forall|k: Seq<u8>| a.contains_key(k) implies a[k] == b[k] by {
        assert(lookup(a, k) == lookup(b, k));
    }
    assert(a =~= b);
}

/// The views of a sequence of byte-vector pairs.
pub open spec fn pairs_view(es: Seq<(Vec<u8>, Vec<u8>)>) -> Seq<(Seq<u8>, Seq<u8>)> {
    es.map_values(|e: (Vec<u8>, Vec<u8>)| (e.0@, e.1@))
}

/// `es` lists the mappings of `m`: each pair is a mapping of `m`, every key
/// of `m` appears, and no key appears twice.
pub open spec fn lists_exactly(es: Seq<(Seq<u8>, Seq<u8>)>, m: Map<Seq<u8>, Seq<u8>>) -> bool {
    &&& forall|i: int| 0 <= i < es.len() ==> lookup(m, #[trigger] es[i].0) == Some(es[i].1)
    &&& forall|k: Seq<u8>| #[trigger] m.contains_key(k) ==> exists|i: int| 0 <= i < es.len() && es[i].0 == k
    &&& forall|i: int, j: int| 0 <= i < j < es.len() ==> #[trigger] es[i].0 != #[trigger] es[j].0
}

/// Relies on sled::Tree::get (through `Db`'s deref): on success it returns
/// the value mapped to the key, or `None` where the key is not mapped.
#[verifier::external_body]
fn tree_get(db: &sled::Db, key: &[u8]) -> (r: Result<Option<Vec<u8>>, sled::Error>)
    ensures
        r matches Ok(found) ==> bytes_opt(found) == lookup(tree_contents(*db), key@),
{
    db.get(key).map(|found| found.map(|v| v.to_vec()))
}

/// Relies on sled::Tree::insert (through `Db`'s deref): on success the key
/// is mapped to the value, every other mapping stays, and the value it held
/// before is returned. Whatever it returns, the one change it can have made
/// is to set this key to this value (`insert_inner` links a single fragment
/// for the key).
#[verifier::external_body]
fn tree_insert(db: &mut sled::Db, key: &[u8], value: &[u8]) -> (r: Result<Option<Vec<u8>>, sled::Error>)
    ensures
        r matches Ok(prev) ==> bytes_opt(prev) == lookup(tree_contents(*old(db)), key@),
        r is Ok ==> tree_contents(*final(db)) == tree_contents(*old(db)).insert(key@, value@),
        r is Err ==> others_unchanged(tree_contents(*old(db)), tree_contents(*final(db)), key@),
        r is Err ==> (lookup(tree_contents(*final(db)), key@) == lookup(tree_contents(*old(db)), key@)
            || lookup(tree_contents(*final(db)), key@) == Some(value@)),
{
    db.insert(key, value).map(|prev| prev.map(|v| v.to_vec()))
}

/// Relies on sled::Tree::remove (through `Db`'s deref): on success the key is
/// no longer mapped, every other mapping stays, and the value it held before
/// is returned. Whatever it returns, the one change it can have made is to
/// remove this key (`insert_inner` links a single deletion fragment).
#[verifier::external_body]
fn tree_remove(db: &mut sled::Db, key: &[u8]) -> (r: Result<Option<Vec<u8>>, sled::Error>)
    ensures
        r matches Ok(prev) ==> bytes_opt(prev) == lookup(tree_contents(*old(db)), key@),
        r is Ok ==> tree_contents(*final(db)) == tree_contents(*old(db)).remove(key@),
        r is Err ==> others_unchanged(tree_contents(*old(db)), tree_contents(*final(db)), key@),
        r is Err ==> (lookup(tree_contents(*final(db)), key@) == lookup(tree_contents(*old(db)), key@)
            || lookup(tree_contents(*final(db)), key@) == None::<Seq<u8>>),
{
    db.remove(key).map(|prev| prev.map(|v| v.to_vec()))
}

/// Relies on sled::Tree::flush (through `Db`'s deref), which writes dirty
/// buffers out and syncs them; it changes no mapping. Nothing is promised of
/// its outcome.
#[verifier::external_body]
fn tree_flush(db: &sled::Db) -> (r: Result<usize, sled::Error>) {
    db.flush()
}

/// Relies on sled::Tree::iter (through `Db`'s deref): the iterator is to
/// yield the tree's mappings, each once.
#[verifier::external_body]
fn tree_iter(db: &sled::Db) -> (r: sled::Iter)
    ensures
        iter_remaining(r) == tree_contents(*db),
        iter_remaining(r).dom().finite(),
{
    db.iter()
}

/// Relies on `Iterator::next` of sled::Iter: `None` once every mapping has
/// been yielded, otherwise one mapping not yielded before, or an error.
#[verifier::external_body]
fn iter_next(it: &mut sled::Iter) -> (r: Option<Result<(Vec<u8>, Vec<u8>), sled::Error>>)
    ensures
        r is None ==> iter_remaining(*old(it)).dom().is_empty(),
        r matches Some(Ok((k, v))) ==> lookup(iter_remaining(*old(it)), k@) == Some(v@),
        r matches Some(Ok((k, v))) ==> iter_remaining(*final(it)) == iter_remaining(*old(it)).remove(k@),
{
    it.next().map(|item| item.map(|(k, v)| (k.to_vec(), v.to_vec())))
}

/// A failure of the storage underneath the table (I/O, corruption).
#[derive(Clone, Copy, Debug, PartialEq, Eq, Structural)]
pub struct StoreError;

impl StoreError {
    /// Forgets the details of a sled error.
    pub fn from_sled(_err: sled::Error) -> (r: StoreError) {
        StoreError
    }
}

/// The durable key-value table.
///
/// The store owns its database handle: its model is what the handle's tree
/// holds, and only the store's own operations change it.
pub struct MappingStore {
    kv: sled::Db,
}

impl View for MappingStore {
    type V = Map<Seq<u8>, Seq<u8>>;

    closed spec fn view(&self) -> Map<Seq<u8>, Seq<u8>> {
        tree_contents(self.kv)
    }
}

impl MappingStore {
    /// Takes ownership of an opened database; the table is what its default
    /// tree holds.
    pub fn new(db: sled::Db) -> (s: MappingStore)
        ensures
            s@ == tree_contents(db),
    {
        MappingStore { kv: db }
    }

    /// The value stored under `key`, or `None` where the key is absent.
    pub fn get(&self, key: &[u8]) -> (r: Result<Option<Vec<u8>>, StoreError>)
        ensures
            r matches Ok(found) ==> bytes_opt(found) == lookup(self@, key@),
    {
        match tree_get(&self.kv, key) {
            Ok(found) => Ok(found),
            Err(e) => Err(StoreError::from_sled(e)),
        }
    }

    /// Maps `key` to `value`, replacing any value it had, and flushes the
    /// change to disk before reporting success. Whatever happens, no other
    /// key changes, and `key` holds either its old value or `value`.
    pub fn put(&mut self, key: &[u8], value: &[u8]) -> (r: Result<(), StoreError>)
        ensures
            r is Ok ==> final(self)@ == old(self)@.insert(key@, value@),
            others_unchanged(old(self)@, final(self)@, key@),
            lookup(final(self)@, key@) == lookup(old(self)@, key@) || lookup(final(self)@, key@) == Some(value@),
    {
        match tree_insert(&mut self.kv, key, value) {
            Ok(_) => {},
            Err(e) => return Err(StoreError::from_sled(e)),
        }
        match tree_flush(&self.kv) {
            Ok(_) => Ok(()),
            Err(e) => Err(StoreError::from_sled(e)),
        }
    }

    /// Removes `key`; removing an absent key changes nothing. The change is
    /// flushed to disk before success is reported. Whatever happens, no
    /// other key changes, and `key` holds either its old value or nothing.
    pub fn delete(&mut self, key: &[u8]) -> (r: Result<(), StoreError>)
        ensures
            r is Ok ==> final(self)@ == old(self)@.remove(key@),
            others_unchanged(old(self)@, final(self)@, key@),
            lookup(final(self)@, key@) == lookup(old(self)@, key@) || lookup(final(self)@, key@) == None::<Seq<u8>>,
            !old(self)@.contains_key(key@) ==> final(self)@ == old(self)@,
    {
        match tree_remove(&mut self.kv, key) {
            Ok(_) => {},
            Err(e) => {
                proof {
                    if !old(self)@.contains_key(key@) {
                        assert forall|k: Seq<u8>| #[trigger] lookup(self@, k) == lookup(old(self)@, k) by {
                            if k != key@ {
                                assert(others_unchanged(old(self)@, self@, key@));
                            }
                        }
                        lemma_same_lookups(self@, old(self)@);
                    }
                }
                return Err(StoreError::from_sled(e));
            },
        }
        match tree_flush(&self.kv) {
            Ok(_) => Ok(()),
            Err(e) => Err(StoreError::from_sled(e)),
        }
    }

    /// Every mapping of the table, each once, in the tree's order. A record
    /// that cannot be read fails the whole listing.
    pub fn entries(&self) -> (r: Result<Vec<(Vec<u8>, Vec<u8>)>, StoreError>)
        ensures
            r matches Ok(es) ==> lists_exactly(pairs_view(es@), self@),
    {
        let ghost m = self@;
        let mut it = tree_iter(&self.kv);
        let mut acc: Vec<(Vec<u8>, Vec<u8>)> = Vec::new();
        loop
            invariant
                m == self@,
                iter_remaining(it).dom().finite(),
                forall|k: Seq<u8>| #[trigger] iter_remaining(it).contains_key(k)
                    ==> lookup(m, k) == Some(iter_remaining(it)[k]),
                forall|i: int| 0 <= i < acc@.len() ==> lookup(m, #[trigger] pairs_view(acc@)[i].0) == Some(pairs_view(acc@)[i].1),
                forall|i: int| 0 <= i < acc@.len() ==> !iter_remaining(it).contains_key(#[trigger] pairs_view(acc@)[i].0),
                forall|k: Seq<u8>| #[trigger] m.contains_key(k) ==> iter_remaining(it).contains_key(k)
                    || exists|i: int| 0 <= i < acc@.len() && pairs_view(acc@)[i].0 == k,
                forall|i: int, j: int| 0 <= i < j < acc@.len() ==> #[trigger] pairs_view(acc@)[i].0 != #[trigger] pairs_view(acc@)[j].0,
            decreases iter_remaining(it).dom().len(),
        {
            let ghost before = iter_remaining(it);
            let ghost acc_before = pairs_view(acc@);
            match iter_next(&mut it) {
                None => {
                    assert(forall|k: Seq<u8>| !before.contains_key(k));
                    return Ok(acc);
                },
                Some(Err(e)) => return Err(StoreError::from_sled(e)),
                Some(Ok((k, v))) => {
                    let ghost kv = k@;
                    let ghost vv = v@;
                    acc.push((k, v));
                    assert(pairs_view(acc@) =~= acc_before.push((kv, vv)));
                    assert(before.dom().contains(kv));
                    assert forall|key: Seq<u8>| #[trigger] m.contains_key(key) implies iter_remaining(it).contains_key(key)
                        || exists|i: int| 0 <= i < acc@.len() && pairs_view(acc@)[i].0 == key by {
                        if !iter_remaining(it).contains_key(key) {
                            if key == kv {
                                assert(pairs_view(acc@)[acc_before.len() as int].0 == key);
                            } else {
                                assert(!before.contains_key(key));
                                let i = choose|i: int| 0 <= i < acc_before.len() && acc_before[i].0 == key;
                                assert(pairs_view(acc@)[i].0 == key);
                            }
                        }
                    }
                },
            }
        }
    }
}

/// A value put under a key is exactly what a lookup of that key then finds.
pub proof fn lemma_put_then_get(m: Map<Seq<u8>, Seq<u8>>, k: Seq<u8>, v: Seq<u8>)
    ensures
        lookup(m.insert(k, v), k) == Some(v),
{
}

/// After a put and then a delete of the same key, the key is absent.
pub proof fn lemma_put_delete_then_get(m: Map<Seq<u8>, Seq<u8>>, k: Seq<u8>, v: Seq<u8>)
    ensures
        lookup(m.insert(k, v).remove(k), k) == None::<Seq<u8>>,
{
}

/// Deleting a key that was never inserted leaves the table as it was, so no
/// entry appears.
pub proof fn lemma_delete_absent(m: Map<Seq<u8>, Seq<u8>>, k: Seq<u8>)
    requires
        !m.contains_key(k),
    ensures
        m.remove(k) == m,
        lookup(m.remove(k), k) == None::<Seq<u8>>,
{
    assert(m.remove(k) =~= m);
}

/// Of two puts to one key, the later one is what a lookup finds.
pub proof fn lemma_overwrite(m: Map<Seq<u8>, Seq<u8>>, k: Seq<u8>, v1: Seq<u8>, v2: Seq<u8>)
    ensures
        lookup(m.insert(k, v1).insert(k, v2), k) == Some(v2),
{
}

/// Puts on two different keys do not disturb each other: in either order
/// they give the same table, and both values can be read back.
pub proof fn lemma_disjoint_puts(
    m: Map<Seq<u8>, Seq<u8>>,
    k1: Seq<u8>,
    v1: Seq<u8>,
    k2: Seq<u8>,
    v2: Seq<u8>,
)
    requires
        k1 != k2,
    ensures
        m.insert(k1, v1).insert(k2, v2) == m.insert(k2, v2).insert(k1, v1),
        lookup(m.insert(k1, v1).insert(k2, v2), k1) == Some(v1),
        lookup(m.insert(k1, v1).insert(k2, v2), k2) == Some(v2),
{
    assert(m.insert(k1, v1).insert(k2, v2) =~= m.insert(k2, v2).insert(k1, v1));
}

/// A listing of the table made by three puts on distinct keys into an empty
/// table holds exactly those three mappings, each once.
pub proof fn lemma_listing_of_three(
    es: Seq<(Seq<u8>, Seq<u8>)>,
    a: Seq<u8>,
    va: Seq<u8>,
    b: Seq<u8>,
    vb: Seq<u8>,
    c: Seq<u8>,
    vc: Seq<u8>,
)
    requires
        a != b,
        a != c,
        b != c,
        lists_exactly(es, Map::empty().insert(a, va).insert(b, vb).insert(c, vc)),
    ensures
        es.to_set() == set![(a, va), (b, vb), (c, vc)],
        es.no_duplicates(),
        es.len() == 3,
{
    let m = Map::<Seq<u8>, Seq<u8>>::empty().insert(a, va).insert(b, vb).insert(c, vc);
    let target = set![(a, va), (b, vb), (c, vc)];
    assert forall|p: (Seq<u8>, Seq<u8>)| es.to_set().contains(p) <==> target.contains(p) by {
        if es.to_set().contains(p) {
            let i = choose|i: int| 0 <= i < es.len() && es[i] == p;
            assert(lookup(m, es[i].0) == Some(es[i].1));
        }
        if target.contains(p) {
            assert(m.contains_key(p.0));
            let i = choose|i: int| 0 <= i < es.len() && es[i].0 == p.0;
            assert(lookup(m, es[i].0) == Some(es[i].1));
            assert(es.to_set().contains(es[i]));
        }
    }
    assert(es.to_set() =~= target);
    assert(es.no_duplicates()) by {
        assert forall|i: int, j: int| 0 <= i < es.len() && 0 <= j < es.len() && i != j implies es[i] != es[j] by {
            if i < j {
                assert(es[i].0 != es[j].0);
            } else {
                assert(es[j].0 != es[i].0);
            }
        }
    }
    es.unique_seq_to_set();
    assert(target.len() == 3);
}

} // verus!
