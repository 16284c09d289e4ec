use vstd::prelude::*;
use crate::keys::is_balance_key;

verus! {

/// One stored record: a key and the amount held under it.
pub struct Entry {
    pub key: Vec<u8>,
    pub value: u128,
}

/// What a record counts towards the sum of all balances.
pub open spec fn weight(k: Seq<u8>, v: u128) -> int {
    if is_balance_key(k) {
        v as int
    } else {
        0
    }
}

/// The amount stored under `k`; zero where nothing is stored.
pub open spec fn amount_at(m: Map<Seq<u8>, u128>, k: Seq<u8>) -> u128 {
    if m.contains_key(k) {
        m[k]
    } else {
        0
    }
}

/// The sum of the amounts of the balance records in `r`.
pub open spec fn sum_of_balances(r: Seq<(Seq<u8>, u128)>) -> int
    decreases r.len(),
{
    if r.len() == 0 {
        0
    } else {
        sum_of_balances(r.drop_last()) + weight(r.last().0, r.last().1)
    }
}

proof fn lemma_sum_push(r: Seq<(Seq<u8>, u128)>, e: (Seq<u8>, u128))
    ensures
        sum_of_balances(r.push(e)) == sum_of_balances(r) + weight(e.0, e.1),
{
    assert(r.push(e).drop_last() =~= r);
}

proof fn lemma_sum_update(r: Seq<(Seq<u8>, u128)>, i: int, e: (Seq<u8>, u128))
    requires
        0 <= i < r.len(),
    ensures
        sum_of_balances(r.update(i, e)) == sum_of_balances(r) - weight(r[i].0, r[i].1) + weight(
            e.0,
            e.1,
        ),
    decreases r.len(),
{
    if i == r.len() - 1 {
        assert(r.update(i, e).drop_last() =~= r.drop_last());
    } else {
        assert(r.update(i, e).drop_last() =~= r.drop_last().update(i, e));
        lemma_sum_update(r.drop_last(), i, e);
    }
}

proof fn lemma_sum_remove(r: Seq<(Seq<u8>, u128)>, i: int)
    requires
        0 <= i < r.len(),
    ensures
        sum_of_balances(r.remove(i)) == sum_of_balances(r) - weight(r[i].0, r[i].1),
    decreases r.len(),
{
    if i == r.len() - 1 {
        assert(r.remove(i) =~= r.drop_last());
    } else {
        assert(r.remove(i).drop_last() =~= r.drop_last().remove(i));
        lemma_sum_remove(r.drop_last(), i);
    }
}

proof fn lemma_sum_bounds(r: Seq<(Seq<u8>, u128)>, i: int)
    requires
        0 <= i < r.len(),
    ensures
        sum_of_balances(r) >= weight(r[i].0, r[i].1) >= 0,
    decreases r.len(),
{
    if i < r.len() - 1 {
        lemma_sum_bounds(r.drop_last(), i);
    }
    lemma_sum_nonneg(r.drop_last());
}

proof fn lemma_sum_pair(r: Seq<(Seq<u8>, u128)>, i: int, j: int)
    requires
        0 <= i < j < r.len(),
    ensures
        sum_of_balances(r) >= weight(r[i].0, r[i].1) + weight(r[j].0, r[j].1),
    decreases r.len(),
{
    if j == r.len() - 1 {
        lemma_sum_bounds(r.drop_last(), i);
    } else {
        lemma_sum_pair(r.drop_last(), i, j);
    }
}

proof fn lemma_sum_nonneg(r: Seq<(Seq<u8>, u128)>)
    ensures
        sum_of_balances(r) >= 0,
    decreases r.len(),
{
    if r.len() > 0 {
        lemma_sum_nonneg(r.drop_last());
    }
}

/// Whether two byte strings are equal.
fn bytes_equal(a: &Vec<u8>, b: &Vec<u8>) -> (r: bool)
    ensures
        r == (a@ == b@),
{
    if a.len() != b.len() {
        return false;
    }
    let mut i: usize = 0;
    while i < a.len()
        invariant
            0 <= i <= a@.len(),
            a@.len() == b@.len(),
            forall|j: int| 0 <= j < i ==> a@[j] == b@[j],
        decreases a@.len() - i,
    {
        if a[i] != b[i] {
            return false;
        }
        i = i + 1;
    }
    assert(a@ =~= b@);
    true
}

/// Copies a byte string.
fn copy_bytes(a: &Vec<u8>) -> (r: Vec<u8>)
    ensures
        r@ == a@,
{
    let mut r: Vec<u8> = Vec::new();
    let mut i: usize = 0;
    while i < a.len()
        invariant
            0 <= i <= a@.len(),
            r@ =~= a@.subrange(0, i as int),
        decreases a@.len() - i,
    {
        r.push(a[i]);
        i = i + 1;
        assert(r@ =~= a@.subrange(0, i as int));
    }
    assert(a@.subrange(0, a@.len() as int) =~= a@);
    r
}

/// A key-value store of unsigned 128-bit amounts under byte-string keys.
pub struct Store {
    entries: Vec<Entry>,
}

impl View for Store {
    type V = Map<Seq<u8>, u128>;

    /// The amount stored under each key that is present.
    closed spec fn view(&self) -> Map<Seq<u8>, u128> {
        Map::new(
            |k: Seq<u8>| exists|i: int| 0 <= i < self.records().len() && #[trigger] self.records()[i].0 == k,
            |k: Seq<u8>|
                self.records()[choose|i: int|
                    0 <= i < self.records().len() && #[trigger] self.records()[i].0 == k].1,
        )
    }
}

impl Store {
    /// The records in storage order.
    pub closed spec fn records(&self) -> Seq<(Seq<u8>, u128)> {
        self.entries@.map_values(|e: Entry| (e.key@, e.value))
    }

    /// No key is stored twice.
    pub closed spec fn wf(&self) -> bool {
        forall|i: int, j: int|
            0 <= i < j < self.records().len() ==> #[trigger] self.records()[i].0
                != #[trigger] self.records()[j].0
    }

    /// The sum of the amounts stored under balance keys.
    pub closed spec fn balance_sum(&self) -> int {
        sum_of_balances(self.records())
    }

    proof fn lemma_view_at(&self, i: int)
        requires
            self.wf(),
            0 <= i < self.records().len(),
        ensures
            self@.contains_key(self.records()[i].0),
            self@[self.records()[i].0] == self.records()[i].1,
    {
        let k = self.records()[i].0;
        assert(self@.dom().contains(k));
        let j = choose|j: int| 0 <= j < self.records().len() && #[trigger] self.records()[j].0 == k;
        assert(i == j);
    }

    /// Every stored amount counts at most once in the sum, and the sum is never negative.
    pub proof fn lemma_balance_sum_bounds(&self, k: Seq<u8>)
        requires
            self.wf(),
        ensures
            self.balance_sum() >= weight(k, amount_at(self@, k)) >= 0,
    {
        lemma_sum_nonneg(self.records());
        if self@.contains_key(k) {
            let i = choose|i: int| 0 <= i < self.records().len() && #[trigger] self.records()[i].0 == k;
            self.lemma_view_at(i);
            lemma_sum_bounds(self.records(), i);
        }
    }

    /// Two distinct keys count separately towards the sum.
    pub proof fn lemma_balance_sum_pair(&self, k1: Seq<u8>, k2: Seq<u8>)
        requires
            self.wf(),
            k1 != k2,
        ensures
            self.balance_sum() >= weight(k1, amount_at(self@, k1)) + weight(k2, amount_at(self@, k2)),
    {
        self.lemma_balance_sum_bounds(k1);
        self.lemma_balance_sum_bounds(k2);
        if self@.contains_key(k1) && self@.contains_key(k2) {
            let i = choose|i: int| 0 <= i < self.records().len() && #[trigger] self.records()[i].0 == k1;
            let j = choose|j: int| 0 <= j < self.records().len() && #[trigger] self.records()[j].0 == k2;
            self.lemma_view_at(i);
            self.lemma_view_at(j);
            if i < j {
                lemma_sum_pair(self.records(), i, j);
            } else {
                lemma_sum_pair(self.records(), j, i);
            }
        }
    }

    /// An empty store.
    pub fn new() -> (r: Store)
        ensures
            r.wf(),
            r@ == Map::<Seq<u8>, u128>::empty(),
            r.balance_sum() == 0,
    {
        let r = Store { entries: Vec::new() };
        assert(r.records() =~= Seq::<(Seq<u8>, u128)>::empty());
        assert(r@ =~= Map::<Seq<u8>, u128>::empty());
        r
    }

    /// The index of the record stored under `key`, if any.
    fn find(&self, key: &Vec<u8>) -> (r: Option<usize>)
        ensures
            match r {
                Some(i) => i < self.records().len() && self.records()[i as int].0 == key@,
                None => forall|i: int| 0 <= i < self.records().len() ==> #[trigger] self.records()[i].0 != key@,
            },
    {
        let mut i: usize = 0;
        while i < self.entries.len()
            invariant
                0 <= i <= self.entries@.len(),
                self.records().len() == self.entries@.len(),
                forall|j: int| 0 <= j < i ==> #[trigger] self.records()[j].0 != key@,
            decreases self.entries@.len() - i,
        {
            if bytes_equal(&self.entries[i].key, key) {
                return Some(i);
            }
            i = i + 1;
        }
        None
    }

    /// Whether an entry is stored under `key`.
    pub fn contains(&self, key: &Vec<u8>) -> (r: bool)
        requires
            self.wf(),
        ensures
            r == self@.contains_key(key@),
    {
        match self.find(key) {
            Some(i) => {
                proof {
                    self.lemma_view_at(i as int);
                }
                true
            },
            None => false,
        }
    }

    /// The amount stored under `key`; zero where nothing is stored.
    pub fn get_u128(&self, key: &Vec<u8>) -> (r: u128)
        requires
            self.wf(),
        ensures
            r == amount_at(self@, key@),
    {
        match self.find(key) {
            Some(i) => {
                proof {
                    self.lemma_view_at(i as int);
                }
                self.entries[i].value
            },
            None => {
                assert(!self@.contains_key(key@));
                0
            },
        }
    }

    /// Stores `value` under `key`, replacing what was there.
    pub fn put_u128(&mut self, key: &Vec<u8>, value: u128)
        requires
            old(self).wf(),
        ensures
            final(self).wf(),
            final(self)@ == old(self)@.insert(key@, value),
            final(self).balance_sum() == old(self).balance_sum() - weight(
                key@,
                amount_at(old(self)@, key@),
            ) + weight(key@, value),
    {
        let ghost r0 = self.records();
        match self.find(key) {
            Some(i) => {
                proof {
                    self.lemma_view_at(i as int);
                }
                self.entries[i].value = value;
                proof {
                    assert(self.records() =~= r0.update(i as int, (key@, value)));
                    lemma_sum_update(r0, i as int, (key@, value));
                    assert forall|k: Seq<u8>| #[trigger] self@.contains_key(k) <==> old(self)@.insert(key@, value).contains_key(k) by {
                        if old(self)@.contains_key(k) {
                            let j = choose|j: int| 0 <= j < r0.len() && #[trigger] r0[j].0 == k;
                            assert(self.records()[j].0 == k);
                        }
                        if self@.contains_key(k) {
                            let j = choose|j: int| 0 <= j < r0.len() && #[trigger] self.records()[j].0 == k;
                            assert(r0[j].0 == k);
                        }
                    }
                    assert forall|k: Seq<u8>| #[trigger] self@.contains_key(k) implies self@[k] == old(self)@.insert(key@, value)[k] by {
                        let j = choose|j: int| 0 <= j < r0.len() && #[trigger] self.records()[j].0 == k;
                        self.lemma_view_at(j);
                        if j != i {
                            assert(r0[j].0 == k);
                            old(self).lemma_view_at(j);
                        }
                    }
                    assert(self@ =~= old(self)@.insert(key@, value));
                }
            },
            None => {
                assert(!old(self)@.contains_key(key@));
                let k = copy_bytes(key);
                self.entries.push(Entry { key: k, value });
                proof {
                    assert(self.records() =~= r0.push((key@, value)));
                    lemma_sum_push(r0, (key@, value));
                    let n = r0.len() as int;
                    self.lemma_view_at(n);
                    assert forall|k: Seq<u8>| #[trigger] self@.contains_key(k) <==> old(self)@.insert(key@, value).contains_key(k) by {
                        if old(self)@.contains_key(k) {
                            let j = choose|j: int| 0 <= j < r0.len() && #[trigger] r0[j].0 == k;
                            assert(self.records()[j].0 == k);
                        }
                        if self@.contains_key(k) && k != key@ {
                            let j = choose|j: int| 0 <= j < r0.len() + 1 && #[trigger] self.records()[j].0 == k;
                            assert(r0[j].0 == k);
                        }
                    }
                    assert forall|k: Seq<u8>| #[trigger] self@.contains_key(k) implies self@[k] == old(self)@.insert(key@, value)[k] by {
                        let j = choose|j: int| 0 <= j < r0.len() + 1 && #[trigger] self.records()[j].0 == k;
                        self.lemma_view_at(j);
                        if j != n {
                            assert(r0[j].0 == k);
                            old(self).lemma_view_at(j);
                        }
                    }
                    assert(self@ =~= old(self)@.insert(key@, value));
                }
            },
        }
    }

    /// Removes what is stored under `key`; nothing changes where nothing is stored.
    pub fn delete(&mut self, key: &Vec<u8>)
        requires
            old(self).wf(),
        ensures
            final(self).wf(),
            final(self)@ == old(self)@.remove(key@),
            final(self).balance_sum() == old(self).balance_sum() - weight(
                key@,
                amount_at(old(self)@, key@),
            ),
    {
        let ghost r0 = self.records();
        match self.find(key) {
            Some(i) => {
                proof {
                    self.lemma_view_at(i as int);
                }
                let _ = self.entries.remove(i);
                proof {
                    assert(self.records() =~= r0.remove(i as int));
                    lemma_sum_remove(r0, i as int);
                    assert forall|k: Seq<u8>| #[trigger] self@.contains_key(k) <==> old(self)@.remove(key@).contains_key(k) by {
                        if old(self)@.contains_key(k) && k != key@ {
                            let j = choose|j: int| 0 <= j < r0.len() && #[trigger] r0[j].0 == k;
                            if j < i {
                                assert(self.records()[j].0 == k);
                            } else {
                                assert(self.records()[j - 1].0 == k);
                            }
                        }
                        if self@.contains_key(k) {
                            let j = choose|j: int| 0 <= j < r0.len() - 1 && #[trigger] self.records()[j].0 == k;
                            if j < i {
                                assert(r0[j].0 == k);
                            } else {
                                assert(r0[j + 1].0 == k);
                            }
                        }
                    }
                    assert forall|k: Seq<u8>| #[trigger] self@.contains_key(k) implies self@[k] == old(self)@.remove(key@)[k] by {
                        let j = choose|j: int| 0 <= j < r0.len() - 1 && #[trigger] self.records()[j].0 == k;
                        self.lemma_view_at(j);
                        if j < i {
                            assert(r0[j].0 == k);
                            old(self).lemma_view_at(j);
                        } else {
                            assert(r0[j + 1].0 == k);
                            old(self).lemma_view_at(j + 1);
                        }
                    }
                    assert(self@ =~= old(self)@.remove(key@));
                }
            },
            None => {
                assert(!old(self)@.contains_key(key@));
                assert(old(self)@.remove(key@) =~= old(self)@);
            },
        }
    }
    /// A copy of this store, holding the same records.
    pub fn duplicate(&self) -> (r: Store)
        ensures
            r.wf() == self.wf(),
            r@ == self@,
            r.balance_sum() == self.balance_sum(),
    {
        let mut entries: Vec<Entry> = Vec::new();
        let mut i: usize = 0;
        while i < self.entries.len()
            invariant
                0 <= i <= self.entries@.len(),
                entries@.len() == i,
                forall|j: int|
                    0 <= j < i ==> (#[trigger] entries@[j]).key@ == self.entries@[j].key@
                        && entries@[j].value == self.entries@[j].value,
            decreases self.entries@.len() - i,
        {
            let key = copy_bytes(&self.entries[i].key);
            entries.push(Entry { key, value: self.entries[i].value });
            i = i + 1;
        }
        let r = Store { entries };
        assert(r.records() =~= self.records());
        r
    }
}

} // verus!
