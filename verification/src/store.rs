//! The local record store: each peer's view of the distributed
//! key-value store, keyed by record key, holding serialized articles.

use vstd::prelude::*;

verus! {

/// One stored record: an opaque key, a serialized article as its value,
/// an optional expiry instant and the publishing peer.
#[derive(Debug)]
pub struct Record {
    pub key: String,
    pub value: String,
    pub publisher: Option<String>,
    pub expires: Option<u64>,
}

/// The mathematical value of a [`Record`].
pub ghost struct RecordView {
    pub key: Seq<char>,
    pub value: Seq<char>,
    pub publisher: Option<Seq<char>>,
    pub expires: Option<u64>,
}

impl View for Record {
    type V = RecordView;

    open spec fn view(&self) -> RecordView {
        RecordView {
            key: self.key@,
            value: self.value@,
            publisher: match self.publisher {
                Some(p) => Some(p@),
                None => None,
            },
            expires: self.expires,
        }
    }
}

impl Clone for Record {
    fn clone(&self) -> (r: Self)
        ensures
            r@ == self@,
    {
        Record {
            key: self.key.clone(),
            value: self.value.clone(),
            publisher: match &self.publisher {
                Some(p) => Some(p.clone()),
                None => None,
            },
            expires: self.expires,
        }
    }
}

/// The first record with key `k`, scanning in store order.
pub open spec fn sp_find(rs: Seq<RecordView>, k: Seq<char>) -> Option<RecordView>
    decreases rs.len(),
{
    if rs.len() == 0 {
        None
    } else if rs[0].key == k {
        Some(rs[0])
    } else {
        sp_find(rs.skip(1), k)
    }
}

/// Storing a record replaces the record with its key, or appends it
/// when the key is new; all other records keep their places.
pub open spec fn sp_put(rs: Seq<RecordView>, r: RecordView) -> Seq<RecordView>
    decreases rs.len(),
{
    if rs.len() == 0 {
        seq![r]
    } else if rs[0].key == r.key {
        seq![r] + rs.skip(1)
    } else {
        seq![rs[0]] + sp_put(rs.skip(1), r)
    }
}

/// No two records of `rs` share a key.
pub open spec fn unique_keys(rs: Seq<RecordView>) -> bool {
    forall|i: int, j: int| 0 <= i < j < rs.len() ==> rs[i].key != rs[j].key
}

/// A peer's local record store, with one record per key.
pub struct RecordStore {
    pub records: Vec<Record>,
}

impl View for RecordStore {
    type V = Seq<RecordView>;

    open spec fn view(&self) -> Seq<RecordView> {
        Seq::new(self.records@.len(), |i: int| self.records@[i]@)
    }
}

impl RecordStore {
    /// The store holds at most one record per key.
    pub open spec fn wf(self) -> bool {
        unique_keys(self@)
    }

    /// An empty store.
    pub fn new() -> (s: Self)
        ensures
            s.wf(),
            s@ == Seq::<RecordView>::empty(),
    {
        let s = RecordStore { records: Vec::new() };
        proof {
            assert(s@ =~= Seq::<RecordView>::empty());
        }
        s
    }

    /// How many records the store holds.
    pub fn len(&self) -> (n: usize)
        ensures
            n == self@.len(),
    {
        self.records.len()
    }

    /// The record at position `i`, in store order.
    pub fn get_at(&self, i: usize) -> (r: &Record)
        requires
            i < self@.len(),
        ensures
            r@ == self@[i as int],
    {
        &self.records[i]
    }

    /// Looks a record up by its key.
    pub fn get(&self, key: &String) -> (r: Option<&Record>)
        ensures
            match r {
                Some(rec) => sp_find(self@, key@) == Some(rec@),
                None => sp_find(self@, key@) is None,
            },
    {
        proof {
            assert(self@.skip(0) =~= self@);
        }
        let mut i: usize = 0;
        while i < self.records.len()
            invariant
                i <= self@.len(),
                sp_find(self@, key@) == sp_find(self@.skip(i as int), key@),
            decreases self@.len() - i,
        {
            if self.records[i].key.eq(key) {
                proof {
                    assert(self@.skip(i as int)[0] == self@[i as int]);
                }
                return Some(&self.records[i]);
            }
            proof {
                assert(self@.skip(i as int)[0] == self@[i as int]);
                assert(self@.skip(i as int).skip(1) =~= self@.skip(i + 1));
            }
            i = i + 1;
        }
        proof {
            assert(self@.skip(self@.len() as int).len() == 0);
        }
        None
    }

    /// Stores a record, replacing any record under the same key.
    #[verifier::loop_isolation(false)]
    pub fn put(&mut self, rec: Record)
        requires
            old(self).wf(),
        ensures
            final(self).wf(),
            final(self)@ == sp_put(old(self)@, rec@),
    {
        let ghost rv = rec@;
        let mut i: usize = 0;
        while i < self.records.len()
            invariant
                i <= self@.len(),
                self == old(self),
                forall|j: int| 0 <= j < i ==> self@[j].key != rv.key,
                rv == rec@,
            decreases self@.len() - i,
        {
            if self.records[i].key.eq(&rec.key) {
                self.records.set(i, rec);
                proof {
                    assert(self@ =~= old(self)@.update(i as int, rv));
                    lemma_sp_put_update(old(self)@, rv, i as int);
                    assert(final(self)@ == sp_put(old(self)@, rv));
                    assert forall|a: int, b: int| 0 <= a < b < self@.len() implies self@[a].key
                        != self@[b].key by {
                        assert(old(self)@[a].key != old(self)@[b].key);
                    }
                }
                return ;
            }
            i = i + 1;
        }
        self.records.push(rec);
        proof {
            assert(self@ =~= old(self)@.push(rv));
            lemma_sp_put_append(old(self)@, rv);
            assert forall|a: int, b: int| 0 <= a < b < self@.len() implies self@[a].key
                != self@[b].key by {
                if b < self@.len() - 1 {
                    assert(old(self)@[a].key != old(self)@[b].key);
                } else {
                    assert(self@[b].key == rv.key);
                    assert(self@[a] == old(self)@[a]);
                }
            }
        }
    }
}

/// Replacing the first record whose key matches is a point update.
proof fn lemma_sp_put_update(rs: Seq<RecordView>, r: RecordView, i: int)
    requires
        0 <= i < rs.len(),
        rs[i].key == r.key,
        forall|j: int| 0 <= j < i ==> rs[j].key != r.key,
    ensures
        sp_put(rs, r) == rs.update(i, r),
    decreases i,
{
    if i == 0 {
        assert(sp_put(rs, r) == seq![r] + rs.skip(1));
        assert(seq![r] + rs.skip(1) =~= rs.update(0, r));
    } else {
        assert(rs[0].key != r.key);
        assert(rs.skip(1)[i - 1].key == r.key);
        assert forall|j: int| 0 <= j < i - 1 implies rs.skip(1)[j].key != r.key by {
            assert(rs.skip(1)[j] == rs[j + 1]);
        }
        lemma_sp_put_update(rs.skip(1), r, i - 1);
        assert(seq![rs[0]] + rs.skip(1).update(i - 1, r) =~= rs.update(i, r));
    }
}

/// Storing a record under a fresh key appends it.
proof fn lemma_sp_put_append(rs: Seq<RecordView>, r: RecordView)
    requires
        forall|j: int| 0 <= j < rs.len() ==> rs[j].key != r.key,
    ensures
        sp_put(rs, r) == rs.push(r),
    decreases rs.len(),
{
    if rs.len() == 0 {
        assert(sp_put(rs, r) =~= rs.push(r));
    } else {
        assert forall|j: int| 0 <= j < rs.skip(1).len() implies rs.skip(1)[j].key != r.key by {
            assert(rs.skip(1)[j] == rs[j + 1]);
        }
        lemma_sp_put_append(rs.skip(1), r);
        assert(seq![rs[0]] + rs.skip(1).push(r) =~= rs.push(r));
    }
}

/// A record just stored is the one its key retrieves: the store answers
/// a lookup for a stored key with exactly the stored record.
pub proof fn lemma_put_then_get(rs: Seq<RecordView>, r: RecordView)
    ensures
        sp_find(sp_put(rs, r), r.key) == Some(r),
    decreases rs.len(),
{
    if rs.len() == 0 {
        assert(sp_put(rs, r) == seq![r]);
        assert(sp_find(seq![r], r.key) == Some(r));
    } else if rs[0].key == r.key {
        assert((seq![r] + rs.skip(1))[0] == r);
    } else {
        lemma_put_then_get(rs.skip(1), r);
        let s = seq![rs[0]] + sp_put(rs.skip(1), r);
        assert(s[0] == rs[0]);
        assert(s.skip(1) =~= sp_put(rs.skip(1), r));
    }
}

/// A lookup for any other key is unmoved by a store.
pub proof fn lemma_put_preserves_other(rs: Seq<RecordView>, r: RecordView, k: Seq<char>)
    requires
        k != r.key,
    ensures
        sp_find(sp_put(rs, r), k) == sp_find(rs, k),
    decreases rs.len(),
{
    if rs.len() == 0 {
        assert(sp_put(rs, r) == seq![r]);
        assert(seq![r].skip(1).len() == 0);
        assert(sp_find(seq![r].skip(1), k) is None);
        assert(sp_find(seq![r], k) is None);
    } else if rs[0].key == r.key {
        let s = seq![r] + rs.skip(1);
        assert(s[0] == r);
        assert(s.skip(1) =~= rs.skip(1));
        assert(sp_find(s, k) == sp_find(rs.skip(1), k));
        assert(sp_find(rs, k) == sp_find(rs.skip(1), k));
    } else {
        lemma_put_preserves_other(rs.skip(1), r, k);
        let s = seq![rs[0]] + sp_put(rs.skip(1), r);
        assert(s[0] == rs[0]);
        assert(s.skip(1) =~= sp_put(rs.skip(1), r));
        if rs[0].key == k {
            assert(sp_find(s, k) == Some(rs[0]));
            assert(sp_find(rs, k) == Some(rs[0]));
        } else {
            assert(sp_find(s, k) == sp_find(sp_put(rs.skip(1), r), k));
            assert(sp_find(rs, k) == sp_find(rs.skip(1), k));
        }
    }
}

} // verus!
