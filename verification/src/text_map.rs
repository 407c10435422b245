//! A map from texts to values, kept in the order of its keys.

use crate::text::{lemma_text_asymmetric, lemma_text_order, same_text, text_before, text_lt};
use vstd::prelude::*;

verus! {

/// Whether the texts of `keys` stand in strictly increasing order.
pub open spec fn keys_sorted(keys: Seq<Seq<char>>) -> bool {
    forall|i: int, j: int| 0 <= i < j < keys.len() ==> text_lt(#[trigger] keys[i], #[trigger] keys[j])
}

/// Whether `keys` lists the texts of `dom` in increasing order.
pub open spec fn lists_in_order(keys: Seq<Seq<char>>, dom: Set<Seq<char>>) -> bool {
    keys_sorted(keys) && forall|k: Seq<char>| keys.contains(k) <==> #[trigger] dom.contains(k)
}

/// The texts of `dom` in increasing order.
pub open spec fn sorted_keys(dom: Set<Seq<char>>) -> Seq<Seq<char>> {
    choose|keys: Seq<Seq<char>>| lists_in_order(keys, dom)
}

/// A set of texts has one listing in order.
pub proof fn lemma_listing_unique(a: Seq<Seq<char>>, b: Seq<Seq<char>>, dom: Set<Seq<char>>)
    requires
        lists_in_order(a, dom),
        lists_in_order(b, dom),
    ensures
        a == b,
{
    lemma_listing_prefix(a, b, dom, a.len() as int);
    lemma_listing_prefix(b, a, dom, b.len() as int);
    if a.len() < b.len() {
        assert(b.contains(b[a.len() as int]));
        assert(dom.contains(b[a.len() as int]));
        assert(a.contains(b[a.len() as int]));
        let k = choose|k: int| 0 <= k < a.len() && a[k] == b[a.len() as int];
        assert(a[k] == b[k]);
        lemma_text_asymmetric(b[k], b[a.len() as int]);
    }
    if b.len() < a.len() {
        assert(a.contains(a[b.len() as int]));
        assert(dom.contains(a[b.len() as int]));
        assert(b.contains(a[b.len() as int]));
        let k = choose|k: int| 0 <= k < b.len() && b[k] == a[b.len() as int];
        assert(a[k] == b[k]);
        lemma_text_asymmetric(a[k], a[b.len() as int]);
    }
    assert(a =~= b);
}

proof fn lemma_listing_prefix(
    a: Seq<Seq<char>>,
    b: Seq<Seq<char>>,
    dom: Set<Seq<char>>,
    n: int,
)
    requires
        lists_in_order(a, dom),
        lists_in_order(b, dom),
        0 <= n <= a.len(),
    ensures
        n <= b.len(),
        forall|i: int| 0 <= i < n ==> #[trigger] a[i] == b[i],
    decreases n,
{
    if n > 0 {
        lemma_listing_prefix(a, b, dom, n - 1);
        let m = n - 1;
        assert(a.contains(a[m]));
        assert(dom.contains(a[m]));
        assert(b.contains(a[m]));
        let k = choose|k: int| 0 <= k < b.len() && b[k] == a[m];
        if k < m {
            assert(a[k] == b[k]);
            lemma_text_asymmetric(a[k], a[m]);
        }
        assert(k >= m);
        if k > m {
            assert(b.contains(b[m]));
            assert(dom.contains(b[m]));
            assert(a.contains(b[m]));
            let j = choose|j: int| 0 <= j < a.len() && a[j] == b[m];
            assert(text_lt(b[m], b[k]));
            if j < m {
                assert(a[j] == b[j]);
                lemma_text_asymmetric(b[j], b[m]);
            } else if j == m {
                lemma_text_order(b[m], b[m], b[m]);
            } else {
                assert(text_lt(a[m], a[j]));
                lemma_text_asymmetric(b[m], b[k]);
            }
        }
    }
}

/// The listing of a set in order is the one that `sorted_keys` names.
pub proof fn lemma_sorted_keys(keys: Seq<Seq<char>>, dom: Set<Seq<char>>)
    requires
        lists_in_order(keys, dom),
    ensures
        sorted_keys(dom) == keys,
{
    let named = sorted_keys(dom);
    assert(lists_in_order(named, dom));
    lemma_listing_unique(named, keys, dom);
}

/// Every finite set of texts can be listed in order.
pub proof fn lemma_listing_exists(dom: Set<Seq<char>>)
    requires
        dom.finite(),
    ensures
        lists_in_order(sorted_keys(dom), dom),
    decreases dom.len(),
{
    if dom.len() == 0 {
        assert(dom =~= Set::empty());
        assert(lists_in_order(Seq::<Seq<char>>::empty(), dom));
    } else {
        let x = dom.choose();
        let rest = dom.remove(x);
        lemma_listing_exists(rest);
        let keys = sorted_keys(rest);
        let n = lemma_place(keys, x);
        let all = keys.insert(n, x);
        assert forall|k: Seq<char>| all.contains(k) <==> #[trigger] dom.contains(k) by {
            if all.contains(k) && k != x {
                let i = choose|i: int| 0 <= i < all.len() && all[i] == k;
                let j = if i < n {
                    i
                } else {
                    i - 1
                };
                assert(keys[j] == k);
                assert(keys.contains(k));
                assert(rest.contains(k));
            }
            if dom.contains(k) {
                if k == x {
                    assert(all[n] == k);
                } else {
                    assert(rest.contains(k));
                    assert(keys.contains(k));
                    let j = choose|j: int| 0 <= j < keys.len() && keys[j] == k;
                    assert(all[if j < n {
                        j
                    } else {
                        j + 1
                    }] == k);
                }
            }
        }
        assert(keys_sorted(all)) by {
            assert forall|i: int, j: int| 0 <= i < j < all.len() implies text_lt(
                #[trigger] all[i],
                #[trigger] all[j],
            ) by {
                if i == n {
                    assert(all[j] == keys[j - 1]);
                    assert(keys.contains(keys[j - 1]));
                    assert(rest.contains(keys[j - 1]));
                } else if j == n {
                    assert(all[i] == keys[i]);
                } else {
                    let a = if i < n {
                        i
                    } else {
                        i - 1
                    };
                    let b = if j < n {
                        j
                    } else {
                        j - 1
                    };
                    assert(all[i] == keys[a] && all[j] == keys[b]);
                }
            }
        }
        assert(lists_in_order(all, dom));
    }
}

/// Where a new text belongs in a listing.
proof fn lemma_place(keys: Seq<Seq<char>>, x: Seq<char>) -> (n: int)
    requires
        keys_sorted(keys),
        !keys.contains(x),
    ensures
        0 <= n <= keys.len(),
        forall|i: int| 0 <= i < n ==> text_lt(#[trigger] keys[i], x),
        forall|i: int| n <= i < keys.len() ==> text_lt(x, #[trigger] keys[i]),
    decreases keys.len(),
{
    if keys.len() == 0 {
        0
    } else {
        let last = keys.last();
        assert(keys[keys.len() - 1] == last);
        lemma_text_order(last, x, x);
        if text_lt(last, x) {
            assert forall|i: int| 0 <= i < keys.len() implies text_lt(#[trigger] keys[i], x) by {
                if i < keys.len() - 1 {
                    lemma_text_order(keys[i], last, x);
                }
            }
            keys.len() as int
        } else {
            let shorter = keys.drop_last();
            assert(!shorter.contains(x)) by {
                if shorter.contains(x) {
                    let i = choose|i: int| 0 <= i < shorter.len() && shorter[i] == x;
                    assert(keys[i] == x);
                }
            }
            let n = lemma_place(shorter, x);
            assert forall|i: int| n <= i < keys.len() implies text_lt(x, #[trigger] keys[i]) by {
                if i < keys.len() - 1 {
                    assert(shorter[i] == keys[i]);
                }
            }
            assert forall|i: int| 0 <= i < n implies text_lt(#[trigger] keys[i], x) by {
                assert(shorter[i] == keys[i]);
            }
            n
        }
    }
}

/// Values filed under texts. The keys stand in increasing order and occur once each.
#[derive(Debug, PartialEq, Eq)]
pub struct TextMap<V> {
    keys: Vec<String>,
    values: Vec<V>,
}

impl<V> View for TextMap<V> {
    type V = Map<Seq<char>, V>;

    closed spec fn view(&self) -> Map<Seq<char>, V> {
        Map::new(
            |k: Seq<char>| key_views(self.keys@).contains(k),
            |k: Seq<char>| self.values@[key_views(self.keys@).index_of(k)],
        )
    }
}

/// The characters of each key.
pub open spec fn key_views(keys: Seq<String>) -> Seq<Seq<char>> {
    Seq::new(keys.len(), |i: int| keys[i]@)
}

impl<V> TextMap<V> {
    /// The keys in order.
    pub closed spec fn keys(&self) -> Seq<Seq<char>> {
        key_views(self.keys@)
    }

    /// Every key has one value, and the keys are in order.
    #[verifier::type_invariant]
    spec fn ordered(&self) -> bool {
        self.keys@.len() == self.values@.len() && keys_sorted(key_views(self.keys@))
    }

    proof fn lemma_at(keys: Seq<Seq<char>>, i: int)
        requires
            keys_sorted(keys),
            0 <= i < keys.len(),
        ensures
            keys.contains(keys[i]),
            keys.index_of(keys[i]) == i,
    {
        let j = keys.index_of(keys[i]);
        assert(keys[i] == keys[i]);
        assert(keys.contains(keys[i]));
        assert(0 <= j < keys.len() && keys[j] == keys[i]);
        if j < i {
            lemma_text_asymmetric(keys[j], keys[i]);
        } else if i < j {
            lemma_text_asymmetric(keys[i], keys[j]);
        }
    }

    /// What the map holds, told by positions: the keys in order list the domain, and the
    /// value behind each key stands at the key's position.
    proof fn lemma_layout(&self)
        requires
            self.ordered(),
        ensures
            lists_in_order(self.keys(), self@.dom()),
            sorted_keys(self@.dom()) == self.keys(),
            self@.dom().finite(),
            self@.dom().len() == self.keys().len(),
    {
        let keys = self.keys();
        assert(self@.dom() =~= keys.to_set());
        assert(keys.no_duplicates()) by {
            assert forall|i: int, j: int| 0 <= i < keys.len() && 0 <= j < keys.len() && i
                != j implies keys[i] != keys[j] by {
                if i < j {
                    lemma_text_asymmetric(keys[i], keys[j]);
                } else {
                    lemma_text_asymmetric(keys[j], keys[i]);
                }
            }
        }
        keys.unique_seq_to_set();
        lemma_sorted_keys(keys, self@.dom());
    }

    /// A map has finitely many keys.
    pub proof fn lemma_finite(&self)
        ensures
            self@.dom().finite(),
    {
        assert(self@.dom() =~= self.keys().to_set());
    }

    /// An empty map.
    pub fn new() -> (r: TextMap<V>)
        ensures
            r@ == Map::<Seq<char>, V>::empty(),
            r.keys() == Seq::<Seq<char>>::empty(),
    {
        let r = TextMap { keys: Vec::new(), values: Vec::new() };
        proof {
            assert(r.keys() =~= Seq::<Seq<char>>::empty());
            assert(r@ =~= Map::<Seq<char>, V>::empty());
        }
        r
    }

    /// The number of keys, which the order lists one by one.
    pub fn len(&self) -> (n: usize)
        ensures
            n == self@.dom().len(),
            n == self.keys().len(),
            self@.dom().finite(),
            lists_in_order(self.keys(), self@.dom()),
            sorted_keys(self@.dom()) == self.keys(),
    {
        proof {
            use_type_invariant(self);
            self.lemma_layout();
        }
        self.keys.len()
    }

    /// Whether the map holds nothing.
    pub fn is_empty(&self) -> (r: bool)
        ensures
            r == (self@ == Map::<Seq<char>, V>::empty()),
            r == (self.keys().len() == 0),
    {
        proof {
            use_type_invariant(self);
            self.lemma_layout();
            if self.keys().len() == 0 {
                assert(self@ =~= Map::<Seq<char>, V>::empty());
            } else {
                assert(self.keys().contains(self.keys()[0]));
                assert(self@.dom().contains(self.keys()[0]));
            }
        }
        self.keys.len() == 0
    }

    /// The key at position `i` of the order.
    pub fn key_at(&self, i: usize) -> (k: &str)
        requires
            i < self.keys().len(),
        ensures
            k@ == self.keys()[i as int],
            self@.dom().contains(k@),
    {
        proof {
            use_type_invariant(self);
            assert(self.keys().contains(self.keys()[i as int]));
        }
        self.keys[i].as_str()
    }

    /// The value at position `i` of the order.
    pub fn value_at(&self, i: usize) -> (v: &V)
        requires
            i < self.keys().len(),
        ensures
            self@.dom().contains(self.keys()[i as int]),
            *v == self@[self.keys()[i as int]],
    {
        proof {
            use_type_invariant(self);
            Self::lemma_at(self.keys(), i as int);
        }
        &self.values[i]
    }

    /// The position of `key`, or the position at which it belongs.
    fn position(&self, key: &str) -> (r: (bool, usize))
        ensures
            r.1 <= self.keys().len(),
            r.0 ==> r.1 < self.keys().len() && self.keys()[r.1 as int] == key@,
            !r.0 ==> !self.keys().contains(key@),
            forall|j: int| 0 <= j < r.1 ==> text_lt(#[trigger] self.keys()[j], key@),
            !r.0 ==> forall|j: int|
                r.1 <= j < self.keys().len() ==> text_lt(key@, #[trigger] self.keys()[j]),
    {
        proof {
            use_type_invariant(self);
        }
        let mut i: usize = 0;
        while i < self.keys.len()
            invariant
                i <= self.keys@.len(),
                keys_sorted(self.keys()),
                self.keys().len() == self.keys@.len(),
                forall|j: int| 0 <= j < i ==> text_lt(#[trigger] self.keys()[j], key@),
            decreases self.keys@.len() - i,
        {
            assert(self.keys()[i as int] == self.keys@[i as int]@);
            if same_text(self.keys[i].as_str(), key) {
                return (true, i);
            }
            if !text_before(self.keys[i].as_str(), key) {
                proof {
                    lemma_text_order(self.keys()[i as int], key@, key@);
                    assert forall|j: int| i <= j < self.keys().len() implies text_lt(
                        key@,
                        #[trigger] self.keys()[j],
                    ) by {
                        if j > i {
                            assert(text_lt(self.keys()[i as int], self.keys()[j]));
                            lemma_text_order(key@, self.keys()[i as int], self.keys()[j]);
                        }
                    }
                    assert forall|j: int| 0 <= j < self.keys().len() implies self.keys()[j]
                        != key@ by {
                        lemma_text_order(key@, key@, key@);
                        if j < i {
                            assert(text_lt(self.keys()[j], key@));
                        } else {
                            assert(text_lt(key@, self.keys()[j]));
                        }
                    }
                }
                return (false, i);
            }
            i += 1;
        }
        proof {
            assert forall|j: int| 0 <= j < self.keys().len() implies self.keys()[j] != key@ by {
                assert(text_lt(self.keys()[j], key@));
                lemma_text_order(key@, key@, key@);
            }
        }
        (false, i)
    }

    /// The value filed under `key`.
    pub fn get(&self, key: &str) -> (r: Option<&V>)
        ensures
            r == (if self@.dom().contains(key@) {
                Some(&self@[key@])
            } else {
                None
            }),
    {
        proof {
            use_type_invariant(self);
        }
        let (found, at) = self.position(key);
        if found {
            proof {
                Self::lemma_at(self.keys(), at as int);
            }
            Some(&self.values[at])
        } else {
            None
        }
    }

    /// Whether a value is filed under `key`.
    pub fn contains_key(&self, key: &str) -> (r: bool)
        ensures
            r == self@.dom().contains(key@),
    {
        self.get(key).is_some()
    }

    /// Files `value` under `key`, in place of what was there.
    pub fn insert(&mut self, key: &str, value: V)
        ensures
            final(self)@ == old(self)@.insert(key@, value),
    {
        proof {
            use_type_invariant(&*self);
        }
        let (found, at) = self.position(key);
        let mut whole: TextMap<V> = TextMap { keys: Vec::new(), values: Vec::new() };
        std::mem::swap(&mut whole, self);
        let TextMap { mut keys, mut values } = whole;
        let ghost before = key_views(keys@);
        if found {
            let ghost filed = values@;
            values.set(at, value);
            *self = TextMap { keys, values };
            proof {
                Self::lemma_at(before, at as int);
                assert(self@ =~= old(self)@.insert(key@, value)) by {
                    assert forall|k: Seq<char>| before.contains(k)
                        && k != key@ implies filed[before.index_of(k)]
                        == values@[before.index_of(k)] by {
                        let i = before.index_of(k);
                        assert(before[i] == k);
                    }
                }
            }
        } else {
            let ghost filed = values@;
            keys.insert(at, key.to_owned());
            values.insert(at, value);
            let ghost after = key_views(keys@);
            proof {
                assert(after =~= before.insert(at as int, key@));
                assert(keys_sorted(after)) by {
                    assert forall|i: int, j: int| 0 <= i < j < after.len() implies text_lt(
                        #[trigger] after[i],
                        #[trigger] after[j],
                    ) by {
                        if i < at {
                            assert(after[i] == before[i]);
                        } else if i > at {
                            assert(after[i] == before[i - 1]);
                        }
                        if j < at {
                            assert(after[j] == before[j]);
                        } else if j > at {
                            assert(after[j] == before[j - 1]);
                        }
                    }
                }
            }
            *self = TextMap { keys, values };
            proof {
                assert(self@ =~= old(self)@.insert(key@, value)) by {
                    assert forall|k: Seq<char>| after.contains(k) <==> (before.contains(k) || k
                        == key@) by {
                        if after.contains(k) {
                            let i = after.index_of(k);
                            if i < at {
                                assert(before[i] == k);
                            } else if i > at {
                                assert(before[i - 1] == k);
                            }
                        }
                        if before.contains(k) {
                            let i = before.index_of(k);
                            if i < at {
                                assert(after[i] == k);
                            } else {
                                assert(after[i + 1] == k);
                            }
                        }
                        assert(after[at as int] == key@);
                    }
                    assert forall|k: Seq<char>| #[trigger] after.contains(k) implies (if k == key@ {
                        values@[after.index_of(k)] == value
                    } else {
                        values@[after.index_of(k)] == filed[before.index_of(k)]
                    }) by {
                        let i = after.index_of(k);
                        if k == key@ {
                            Self::lemma_at(after, at as int);
                        } else if i < at {
                            assert(before[i] == k);
                            Self::lemma_at(before, i);
                        } else if i > at {
                            assert(before[i - 1] == k);
                            Self::lemma_at(before, i - 1);
                        }
                    }
                }
            }
        }
    }

    /// Removes what is filed under `key`.
    pub fn remove(&mut self, key: &str)
        ensures
            final(self)@ == old(self)@.remove(key@),
    {
        proof {
            use_type_invariant(&*self);
        }
        let (found, at) = self.position(key);
        if !found {
            proof {
                assert(self@ =~= old(self)@.remove(key@));
            }
            return;
        }
        let mut whole: TextMap<V> = TextMap { keys: Vec::new(), values: Vec::new() };
        std::mem::swap(&mut whole, self);
        let TextMap { mut keys, mut values } = whole;
        let ghost before = key_views(keys@);
        let ghost filed = values@;
        let _ = keys.remove(at);
        let _ = values.remove(at);
        let ghost after = key_views(keys@);
        proof {
            assert(after =~= before.remove(at as int));
            assert(keys_sorted(after)) by {
                assert forall|i: int, j: int| 0 <= i < j < after.len() implies text_lt(
                    #[trigger] after[i],
                    #[trigger] after[j],
                ) by {
                    let x = if i < at { i } else { i + 1 };
                    let y = if j < at { j } else { j + 1 };
                    assert(after[i] == before[x]);
                    assert(after[j] == before[y]);
                }
            }
        }
        *self = TextMap { keys, values };
        proof {
            assert(self@ =~= old(self)@.remove(key@)) by {
                assert forall|k: Seq<char>| after.contains(k) <==> (before.contains(k) && k
                    != key@) by {
                    if after.contains(k) {
                        let i = after.index_of(k);
                        let x = if i < at { i } else { i + 1 };
                        assert(before[x] == k);
                        if k == key@ {
                            Self::lemma_at(before, at as int);
                            Self::lemma_at(before, x);
                        }
                    }
                    if before.contains(k) && k != key@ {
                        let i = before.index_of(k);
                        let x = if i < at { i } else { i - 1 };
                        assert(after[x] == k);
                    }
                }
                assert forall|k: Seq<char>| #[trigger] after.contains(k) implies values@[after.index_of(k)]
                    == filed[before.index_of(k)] by {
                    let i = after.index_of(k);
                    let x = if i < at { i } else { i + 1 };
                    assert(before[x] == k);
                    Self::lemma_at(before, x);
                }
            }
        }
    }
}

} // verus!
