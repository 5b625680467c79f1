//! The in-memory receipt store: a map from opaque 128-bit identifiers to
//! receipts. Submission draws a fresh random identifier and inserts; lookup
//! never mutates; no update or delete exists.

use crate::receipt::Receipt;
use crate::scoring::receipt_points;
use vstd::hash_map::HashMapWithView;
use vstd::prelude::*;

verus! {

broadcast use
    vstd::std_specs::hash::group_hash_axioms,
    vstd::set::group_set_axioms,
    vstd::map::group_map_axioms,
;

/// The rare internal failure of a submission: the freshly drawn identifier
/// collided with one already stored. Distinct from not-found, which only
/// lookups report; the service surfaces it as a server-side error, never
/// as a missing receipt.
#[derive(Clone, Copy, Debug, PartialEq, Eq, Structural)]
pub enum StoreError {
    IdCollision,
}

/// The store. One instance is owned by the service and shared (behind a
/// lock) among request handlers; the structure itself is a plain map.
pub struct ReceiptStore {
    map: HashMapWithView<u128, Receipt>,
}

impl ReceiptStore {
    /// The entries held, as a map from identifier to receipt.
    pub closed spec fn entries(self) -> Map<u128, Receipt> {
        self.map@
    }

    /// The store holds finitely many entries, and every stored receipt is
    /// well formed, so scoring stored data never fails.
    pub open spec fn wf(self) -> bool {
        &&& self.entries().dom().finite()
        &&& forall|id: u128|
            self.entries().contains_key(id) ==> (#[trigger] self.entries()[id]).wf()
    }

    /// An empty store.
    pub fn new() -> (s: Self)
        ensures
            s.entries() == Map::<u128, Receipt>::empty(),
            s.wf(),
    {
        ReceiptStore { map: HashMapWithView::new() }
    }

    /// How many receipts are stored.
    pub fn len(&self) -> (n: usize)
        ensures
            n == self.entries().len(),
    {
        self.map.len()
    }

    /// Relies on `uuid::Uuid::new_v4`: draws a random version-4 identifier.
    /// Randomness admits no promise about the value drawn.
    #[verifier::external_body]
    fn fresh_id() -> u128 {
        uuid::Uuid::new_v4().as_u128()
    }

    /// Stores `receipt` under `id` when that identifier is not yet held;
    /// fails exactly when it is. On success the receipt stands under the
    /// identifier, every other entry is unchanged and the store is one
    /// entry larger; on the collision the store is untouched.
    pub fn insert_fresh(&mut self, id: u128, receipt: Receipt) -> (r: Result<u128, StoreError>)
        requires
            old(self).wf(),
            receipt.wf(),
        ensures
            final(self).wf(),
            r is Err <==> old(self).entries().contains_key(id),
            match r {
                Ok(out) => {
                    &&& out == id
                    &&& final(self).entries() == old(self).entries().insert(id, receipt)
                    &&& final(self).entries().len() == old(self).entries().len() + 1
                },
                Err(e) => e == StoreError::IdCollision && final(self).entries() == old(
                    self,
                ).entries(),
            },
    {
        if self.map.contains_key(&id) {
            return Err(StoreError::IdCollision);
        }
        self.map.insert(id, receipt);
        proof {
            assert(self.entries().dom() =~= old(self).entries().dom().insert(id));
            assert forall|k: u128| self.entries().contains_key(k) implies (
            #[trigger] self.entries()[k]).wf() by {
                if k != id {
                    assert(old(self).entries().contains_key(k));
                }
            }
        }
        Ok(id)
    }

    /// Stores `receipt` under a freshly drawn identifier and returns that
    /// identifier: one the store did not hold before, under which exactly
    /// this receipt now stands, every other entry unchanged and the store
    /// one entry larger. Should the random draw collide with a stored
    /// identifier, the submission reports the internal error and leaves
    /// the store untouched rather than overwrite; on an empty store no
    /// draw can collide, so submission succeeds.
    pub fn submit(&mut self, receipt: Receipt) -> (r: Result<u128, StoreError>)
        requires
            old(self).wf(),
            receipt.wf(),
        ensures
            final(self).wf(),
            old(self).entries().len() == 0 ==> r is Ok,
            match r {
                Ok(id) => {
                    &&& !old(self).entries().contains_key(id)
                    &&& final(self).entries() == old(self).entries().insert(id, receipt)
                    &&& final(self).entries().len() == old(self).entries().len() + 1
                },
                Err(e) => e == StoreError::IdCollision && final(self).entries() == old(
                    self,
                ).entries(),
            },
    {
        let id = Self::fresh_id();
        proof {
            if self.entries().len() == 0 {
                self.entries().dom().lemma_len0_is_empty();
            }
        }
        self.insert_fresh(id, receipt)
    }

    /// Looks an identifier up: found with the stored receipt exactly when
    /// an entry exists, absent otherwise. Read-only.
    pub fn lookup(&self, id: u128) -> (r: Option<&Receipt>)
        ensures
            match r {
                Some(rec) => self.entries().contains_key(id) && *rec == self.entries()[id],
                None => !self.entries().contains_key(id),
            },
    {
        self.map.get(&id)
    }

    /// The points of the receipt stored under `id`, when there is one;
    /// absent exactly when the identifier is unknown. Read-only.
    pub fn points_for(&self, id: u128) -> (r: Option<u64>)
        requires
            self.wf(),
        ensures
            match r {
                Some(p) => self.entries().contains_key(id) && p == receipt_points(
                    self.entries()[id],
                ),
                None => !self.entries().contains_key(id),
            },
    {
        match self.lookup(id) {
            Some(rec) => Some(rec.points()),
            None => None,
        }
    }
}

/// The store model after a sequence of submissions, oldest first: each
/// pair's receipt inserted under its identifier in turn.
pub open spec fn after_submissions(
    entries: Map<u128, Receipt>,
    subs: Seq<(u128, Receipt)>,
) -> Map<u128, Receipt>
    decreases subs.len(),
{
    if subs.len() == 0 {
        entries
    } else {
        after_submissions(entries, subs.drop_last()).insert(subs.last().0, subs.last().1)
    }
}

/// Whether each submission's identifier was absent from the store at its
/// own insertion time — what `submit` ensures of every successful call.
pub open spec fn all_fresh(entries: Map<u128, Receipt>, subs: Seq<(u128, Receipt)>) -> bool {
    forall|i: int|
        0 <= i < subs.len() ==> !after_submissions(entries, subs.take(i)).contains_key(
            #[trigger] subs[i].0,
        )
}

/// An identifier present after some prefix of the submissions stays
/// present after all of them: submissions never remove entries.
proof fn lemma_contains_persists(
    entries: Map<u128, Receipt>,
    subs: Seq<(u128, Receipt)>,
    k: int,
    id: u128,
)
    requires
        0 <= k <= subs.len(),
        after_submissions(entries, subs.take(k)).contains_key(id),
    ensures
        after_submissions(entries, subs).contains_key(id),
    decreases subs.len() - k,
{
    if k == subs.len() {
        assert(subs.take(k) =~= subs);
    } else {
        assert(subs.take(k + 1).drop_last() =~= subs.take(k));
        assert(subs.take(k + 1).last() == subs[k]);
        lemma_contains_persists(entries, subs, k + 1, id);
    }
}

/// Any number of submissions whose identifiers were each fresh at their
/// own insertion time — which `submit` ensures of every success — return
/// pairwise distinct identifiers.
pub proof fn lemma_submissions_distinct(entries: Map<u128, Receipt>, subs: Seq<(u128, Receipt)>)
    requires
        all_fresh(entries, subs),
    ensures
        forall|i: int, j: int| 0 <= i < j < subs.len() ==> subs[i].0 != subs[j].0,
{
    assert forall|i: int, j: int| 0 <= i < j < subs.len() implies subs[i].0 != subs[j].0 by {
        if subs[i].0 == subs[j].0 {
            let pre = subs.take(j);
            assert(pre.take(i + 1).drop_last() =~= pre.take(i) && pre.take(i) =~= subs.take(i));
            assert(pre.take(i + 1).last() == subs[i]);
            assert(after_submissions(entries, pre.take(i + 1)).contains_key(subs[i].0));
            lemma_contains_persists(entries, pre, i + 1, subs[i].0);
        }
    }
}

/// After any number of submissions with identifiers each fresh at their
/// own insertion time, every submitted receipt stays retrievable under
/// its own identifier: no entry is lost or replaced.
pub proof fn lemma_submissions_retrievable(
    entries: Map<u128, Receipt>,
    subs: Seq<(u128, Receipt)>,
    i: int,
)
    requires
        all_fresh(entries, subs),
        0 <= i < subs.len(),
    ensures
        after_submissions(entries, subs).contains_key(subs[i].0),
        after_submissions(entries, subs)[subs[i].0] == subs[i].1,
    decreases subs.len(),
{
    if i == subs.len() - 1 {
        assert(after_submissions(entries, subs) == after_submissions(
            entries,
            subs.drop_last(),
        ).insert(subs[i].0, subs[i].1));
    } else {
        let d = subs.drop_last();
        assert(all_fresh(entries, d)) by {
            assert forall|k: int|
                0 <= k < d.len() implies !after_submissions(entries, d.take(k)).contains_key(
                (#[trigger] d[k]).0,
            ) by {
                assert(d.take(k) =~= subs.take(k));
                assert(d[k] == subs[k]);
            }
        }
        assert(d[i] == subs[i]);
        lemma_submissions_retrievable(entries, d, i);
        lemma_submissions_distinct(entries, subs);
        assert(subs.last() == subs[subs.len() - 1]);
        assert(subs[i].0 != subs[subs.len() - 1].0);
    }
}

/// Submitting and then looking up the returned identifier always succeeds
/// and yields exactly the submitted receipt.
pub proof fn lemma_submit_then_lookup(entries: Map<u128, Receipt>, id: u128, receipt: Receipt)
    ensures
        entries.insert(id, receipt).contains_key(id),
        entries.insert(id, receipt)[id] == receipt,
{
}

/// A submission touches no other identifier: one that was absent before
/// stays absent, one that was present keeps its receipt. Hence an
/// identifier that no submission ever returned is never found.
pub proof fn lemma_submit_preserves_others(
    entries: Map<u128, Receipt>,
    id: u128,
    receipt: Receipt,
    other: u128,
)
    requires
        other != id,
    ensures
        entries.insert(id, receipt).contains_key(other) == entries.contains_key(other),
        entries.contains_key(other) ==> entries.insert(id, receipt)[other] == entries[other],
{
}

} // verus!
