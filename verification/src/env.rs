//! Environment variables: text keys with text values, in key order.
use crate::text::{lemma_text_lt_irreflexive, lemma_text_lt_total, lemma_text_lt_transitive, same, text_less, text_lt};
use vstd::prelude::*;

verus! {

/// The key and the value of one variable.
pub type PairView = (Seq<char>, Seq<char>);

/// A set of environment variables. Each key occurs once, and the variables stand in key order.
#[derive(Debug)]
pub struct EnvMap {
    entries: Vec<(String, String)>,
}

pub open spec fn pair_view(p: (String, String)) -> PairView {
    (p.0@, p.1@)
}

/// Strictly ascending keys.
pub open spec fn key_sorted(s: Seq<PairView>) -> bool {
    forall|i: int, j: int| 0 <= i < j < s.len() ==> text_lt(#[trigger] s[i].0, #[trigger] s[j].0)
}

/// The variables of a list of pairs with distinct keys, as a map.
pub open spec fn pairs_map(s: Seq<PairView>) -> Map<Seq<char>, Seq<char>>
    decreases s.len(),
{
    if s.len() == 0 {
        Map::empty()
    } else {
        pairs_map(s.drop_last()).insert(s.last().0, s.last().1)
    }
}

/// Where `key` stands in `s`.
pub open spec fn has_key(s: Seq<PairView>, key: Seq<char>) -> bool {
    exists|i: int| 0 <= i < s.len() && #[trigger] s[i].0 == key
}

pub proof fn lemma_pairs_map(s: Seq<PairView>, key: Seq<char>)
    requires
        key_sorted(s),
    ensures
        pairs_map(s).dom().contains(key) == has_key(s, key),
        forall|i: int| 0 <= i < s.len() && #[trigger] s[i].0 == key ==> pairs_map(s)[key] == s[i].1,
    decreases s.len(),
{
    if s.len() > 0 {
        let front = s.drop_last();
        assert(key_sorted(front)) by {
            assert forall|i: int, j: int| 0 <= i < j < front.len() implies text_lt(
                #[trigger] front[i].0,
                #[trigger] front[j].0,
            ) by {
                assert(text_lt(s[i].0, s[j].0));
            }
        }
        lemma_pairs_map(front, key);
        if has_key(s, key) {
            let i = choose|i: int| 0 <= i < s.len() && #[trigger] s[i].0 == key;
            if i < s.len() - 1 {
                assert(front[i].0 == key);
            }
        }
        if has_key(front, key) {
            let i = choose|i: int| 0 <= i < front.len() && #[trigger] front[i].0 == key;
            assert(s[i].0 == key);
        }
        assert forall|i: int| 0 <= i < s.len() && #[trigger] s[i].0 == key implies pairs_map(s)[key]
            == s[i].1 by {
            if i < s.len() - 1 {
                assert(text_lt(s[i].0, s[s.len() - 1].0));
                lemma_text_lt_irreflexive(key);
                assert(front[i].0 == key);
            }
        }
    }
}

/// Variables in key order are determined by what they map: two sets that map alike are listed
/// alike.
pub proof fn law_key_order_is_canonical(a: Seq<PairView>, b: Seq<PairView>)
    requires
        key_sorted(a),
        key_sorted(b),
        pairs_map(a) == pairs_map(b),
    ensures
        a == b,
    decreases a.len() + b.len(),
{
    assert forall|k: Seq<char>| has_key(a, k) == has_key(b, k) by {
        lemma_pairs_map(a, k);
        lemma_pairs_map(b, k);
    }
    if a.len() == 0 {
        if b.len() > 0 {
            assert(has_key(b, b[0].0));
        }
        assert(a =~= b);
    } else if b.len() == 0 {
        assert(has_key(a, a[0].0));
    } else {
        let x = a.last();
        let y = b.last();
        assert(has_key(a, a[a.len() - 1].0));
        assert(has_key(b, b[b.len() - 1].0));
        let i = choose|i: int| 0 <= i < b.len() && #[trigger] b[i].0 == x.0;
        let j = choose|j: int| 0 <= j < a.len() && #[trigger] a[j].0 == y.0;
        if i < b.len() - 1 {
            assert(text_lt(b[i].0, b[b.len() - 1].0));
            if j < a.len() - 1 {
                assert(text_lt(a[j].0, a[a.len() - 1].0));
                lemma_text_lt_transitive(x.0, y.0, x.0);
            }
            lemma_text_lt_irreflexive(x.0);
        } else if j < a.len() - 1 {
            assert(text_lt(a[j].0, a[a.len() - 1].0));
            lemma_text_lt_irreflexive(x.0);
        }
        assert(x.0 == y.0);
        lemma_pairs_map(a, x.0);
        lemma_pairs_map(b, x.0);
        assert(a[a.len() - 1].0 == x.0 && b[b.len() - 1].0 == x.0);
        assert(x == y);
        let fa = a.drop_last();
        let fb = b.drop_last();
        assert(key_sorted(fa)) by {
            assert forall|i: int, j: int| 0 <= i < j < fa.len() implies text_lt(#[trigger] fa[i].0, #[trigger] fa[j].0) by {
                assert(text_lt(a[i].0, a[j].0));
            }
        }
        assert(key_sorted(fb)) by {
            assert forall|i: int, j: int| 0 <= i < j < fb.len() implies text_lt(#[trigger] fb[i].0, #[trigger] fb[j].0) by {
                assert(text_lt(b[i].0, b[j].0));
            }
        }
        assert(pairs_map(fa) =~= pairs_map(a).remove(x.0)) by {
            assert forall|k: Seq<char>| pairs_map(fa).dom().contains(k) implies k != x.0 by {
                lemma_pairs_map(fa, k);
                let m = choose|m: int| 0 <= m < fa.len() && #[trigger] fa[m].0 == k;
                assert(text_lt(a[m].0, a[a.len() - 1].0));
                lemma_text_lt_irreflexive(x.0);
            }
        }
        assert(pairs_map(fb) =~= pairs_map(b).remove(x.0)) by {
            assert forall|k: Seq<char>| pairs_map(fb).dom().contains(k) implies k != x.0 by {
                lemma_pairs_map(fb, k);
                let m = choose|m: int| 0 <= m < fb.len() && #[trigger] fb[m].0 == k;
                assert(text_lt(b[m].0, b[b.len() - 1].0));
                lemma_text_lt_irreflexive(x.0);
            }
        }
        law_key_order_is_canonical(fa, fb);
        assert(a =~= fa.push(x));
        assert(b =~= fb.push(y));
    }
}

/// The variables of a map, in key order.
pub open spec fn canonical(m: Map<Seq<char>, Seq<char>>) -> Seq<PairView> {
    choose|s: Seq<PairView>| key_sorted(s) && #[trigger] pairs_map(s) == m
}

pub proof fn lemma_canonical(s: Seq<PairView>)
    requires
        key_sorted(s),
    ensures
        canonical(pairs_map(s)) == s,
{
    let c = canonical(pairs_map(s));
    assert(key_sorted(c) && pairs_map(c) == pairs_map(s));
    law_key_order_is_canonical(c, s);
}

impl View for EnvMap {
    type V = Seq<PairView>;

    closed spec fn view(&self) -> Seq<PairView> {
        Seq::new(self.entries@.len(), |i: int| pair_view(self.entries@[i]))
    }
}

proof fn lemma_map_insert(s: Seq<PairView>, i: int, p: PairView)
    requires
        key_sorted(s),
        0 <= i <= s.len(),
        key_sorted(s.insert(i, p)),
    ensures
        pairs_map(s.insert(i, p)) == pairs_map(s).insert(p.0, p.1),
        !has_key(s, p.0),
{
    let t = s.insert(i, p);
    if has_key(s, p.0) {
        let j = choose|j: int| 0 <= j < s.len() && #[trigger] s[j].0 == p.0;
        lemma_text_lt_irreflexive(p.0);
        if j < i {
            assert(t[j] == s[j] && t[i] == p);
            assert(text_lt(t[j].0, t[i].0));
        } else {
            assert(t[j + 1] == s[j] && t[i] == p);
            assert(text_lt(t[i].0, t[j + 1].0));
        }
    }
    let m = pairs_map(s).insert(p.0, p.1);
    assert forall|k: Seq<char>| #![trigger pairs_map(t).dom().contains(k)] #![trigger m.dom().contains(k)]
        #![trigger pairs_map(t)[k]]
        pairs_map(t).dom().contains(k) == m.dom().contains(k)
        && (m.dom().contains(k) ==> pairs_map(t)[k] == m[k]) by {
        lemma_pairs_map(t, k);
        lemma_pairs_map(s, k);
        if has_key(t, k) {
            let j = choose|j: int| 0 <= j < t.len() && #[trigger] t[j].0 == k;
            if j < i {
                assert(s[j].0 == k);
            } else if j > i {
                assert(s[j - 1].0 == k);
            }
        }
        if has_key(s, k) {
            let j = choose|j: int| 0 <= j < s.len() && #[trigger] s[j].0 == k;
            if j < i {
                assert(t[j].0 == k);
            } else {
                assert(t[j + 1].0 == k);
            }
        }
        assert(t[i].0 == p.0);
    }
    assert(pairs_map(t).dom() =~= m.dom());
    assert(pairs_map(t) =~= m);
}

proof fn lemma_map_remove(s: Seq<PairView>, i: int)
    requires
        key_sorted(s),
        0 <= i < s.len(),
    ensures
        key_sorted(s.remove(i)),
        pairs_map(s.remove(i)) == pairs_map(s).remove(s[i].0),
{
    let t = s.remove(i);
    assert forall|a: int, b: int| 0 <= a < b < t.len() implies text_lt(#[trigger] t[a].0, #[trigger] t[b].0) by {
        let a2 = if a < i { a } else { a + 1 };
        let b2 = if b < i { b } else { b + 1 };
        assert(text_lt(s[a2].0, s[b2].0));
    }
    let m = pairs_map(s).remove(s[i].0);
    assert forall|k: Seq<char>| #![trigger pairs_map(t).dom().contains(k)] #![trigger m.dom().contains(k)]
        #![trigger pairs_map(t)[k]]
        pairs_map(t).dom().contains(k) == m.dom().contains(k)
        && (m.dom().contains(k) ==> pairs_map(t)[k] == m[k]) by {
        lemma_pairs_map(t, k);
        lemma_pairs_map(s, k);
        if has_key(t, k) {
            let j = choose|j: int| 0 <= j < t.len() && #[trigger] t[j].0 == k;
            let j2 = if j < i { j } else { j + 1 };
            assert(s[j2].0 == k);
            lemma_text_lt_irreflexive(k);
            if j2 < i {
                assert(text_lt(s[j2].0, s[i].0));
            } else {
                assert(text_lt(s[i].0, s[j2].0));
            }
        }
        if has_key(s, k) && k != s[i].0 {
            let j = choose|j: int| 0 <= j < s.len() && #[trigger] s[j].0 == k;
            let j2 = if j < i { j } else { j - 1 };
            assert(t[j2].0 == k);
        }
    }
    assert(pairs_map(t).dom() =~= m.dom());
    assert(pairs_map(t) =~= m);
}

proof fn lemma_map_update(s: Seq<PairView>, i: int, v: Seq<char>)
    requires
        key_sorted(s),
        0 <= i < s.len(),
    ensures
        key_sorted(s.update(i, (s[i].0, v))),
        pairs_map(s.update(i, (s[i].0, v))) == pairs_map(s).insert(s[i].0, v),
{
    let t = s.update(i, (s[i].0, v));
    assert forall|a: int, b: int| 0 <= a < b < t.len() implies text_lt(#[trigger] t[a].0, #[trigger] t[b].0) by {
        assert(text_lt(s[a].0, s[b].0));
    }
    let m = pairs_map(s).insert(s[i].0, v);
    assert forall|k: Seq<char>| #![trigger pairs_map(t).dom().contains(k)] #![trigger m.dom().contains(k)]
        #![trigger pairs_map(t)[k]]
        pairs_map(t).dom().contains(k) == m.dom().contains(k)
        && (m.dom().contains(k) ==> pairs_map(t)[k] == m[k]) by {
        lemma_pairs_map(t, k);
        lemma_pairs_map(s, k);
        if has_key(t, k) {
            let j = choose|j: int| 0 <= j < t.len() && #[trigger] t[j].0 == k;
            assert(s[j].0 == k);
        }
        if has_key(s, k) {
            let j = choose|j: int| 0 <= j < s.len() && #[trigger] s[j].0 == k;
            assert(t[j].0 == k);
        }
        assert(t[i].0 == s[i].0);
    }
    assert(pairs_map(t).dom() =~= m.dom());
    assert(pairs_map(t) =~= m);
}

/// Where a key stands, or where it would go.
pub enum Position {
    Found(usize),
    Vacant(usize),
}

impl EnvMap {
    #[verifier::type_invariant]
    pub closed spec fn wf(self) -> bool {
        key_sorted(self@)
    }

    /// The variables as a map.
    pub open spec fn map(self) -> Map<Seq<char>, Seq<char>> {
        pairs_map(self@)
    }

    pub fn new() -> (r: Self)
        ensures
            r@ == Seq::<PairView>::empty(),
    {
        let r = EnvMap { entries: Vec::new() };
        assert(r@ =~= Seq::<PairView>::empty());
        r
    }

    pub fn len(&self) -> (r: usize)
        ensures
            r == self@.len(),
    {
        self.entries.len()
    }

    pub fn is_empty(&self) -> (r: bool)
        ensures
            r == (self@.len() == 0),
    {
        self.entries.len() == 0
    }

    /// The keys are in strictly ascending order.
    pub fn key(&self, i: usize) -> (r: &String)
        requires
            i < self@.len(),
        ensures
            r@ == self@[i as int].0,
            key_sorted(self@),
    {
        proof {
            use_type_invariant(self);
        }
        &self.entries[i].0
    }

    pub fn value(&self, i: usize) -> (r: &String)
        requires
            i < self@.len(),
        ensures
            r@ == self@[i as int].1,
    {
        &self.entries[i].1
    }

    fn locate(&self, key: &str) -> (r: Position)
        ensures
            key_sorted(self@),
            match r {
                Position::Found(i) => i < self@.len() && self@[i as int].0 == key@,
                Position::Vacant(i) => {
                    &&& i <= self@.len()
                    &&& !has_key(self@, key@)
                    &&& forall|j: int| 0 <= j < i ==> text_lt(#[trigger] self@[j].0, key@)
                    &&& forall|j: int| i <= j < self@.len() ==> text_lt(key@, #[trigger] self@[j].0)
                },
            },
    {
        proof {
            use_type_invariant(self);
        }
        let mut i: usize = 0;
        while i < self.entries.len() && text_less(self.entries[i].0.as_str(), key)
            invariant
                i <= self.entries@.len(),
                self@.len() == self.entries@.len(),
                forall|j: int| 0 <= j < i ==> text_lt(#[trigger] self@[j].0, key@),
            decreases self.entries@.len() - i,
        {
            assert(self@[i as int].0 == self.entries@[i as int].0@);
            i += 1;
        }
        if i < self.entries.len() && same(self.entries[i].0.as_str(), key) {
            assert(self@[i as int].0 == self.entries@[i as int].0@);
            return Position::Found(i);
        }
        proof {
            if i < self@.len() {
                assert(self@[i as int].0 == self.entries@[i as int].0@);
                lemma_text_lt_total(self@[i as int].0, key@);
                assert forall|j: int| i <= j < self@.len() implies text_lt(key@, #[trigger] self@[j].0) by {
                    if j > i {
                        assert(text_lt(self@[i as int].0, self@[j].0));
                        lemma_text_lt_transitive(key@, self@[i as int].0, self@[j].0);
                    }
                }
            }
            assert forall|j: int| 0 <= j < self@.len() implies #[trigger] self@[j].0 != key@ by {
                lemma_text_lt_irreflexive(key@);
            }
        }
        Position::Vacant(i)
    }

    /// Where `key` stands among the keys.
    pub fn position(&self, key: &str) -> (r: Option<usize>)
        ensures
            match r {
                Some(i) => i < self@.len() && self@[i as int].0 == key@,
                None => !has_key(self@, key@),
            },
    {
        match self.locate(key) {
            Position::Found(i) => Some(i),
            Position::Vacant(_) => None,
        }
    }

    pub fn contains_key(&self, key: &str) -> (r: bool)
        ensures
            r == self.map().dom().contains(key@),
            r == has_key(self@, key@),
    {
        proof {
            use_type_invariant(self);
            lemma_pairs_map(self@, key@);
        }
        match self.locate(key) {
            Position::Found(i) => true,
            Position::Vacant(_) => false,
        }
    }

    pub fn get(&self, key: &str) -> (r: Option<&String>)
        ensures
            match r {
                Some(v) => self.map().dom().contains(key@) && self.map()[key@] == v@,
                None => !self.map().dom().contains(key@),
            },
    {
        proof {
            use_type_invariant(self);
            lemma_pairs_map(self@, key@);
        }
        match self.locate(key) {
            Position::Found(i) => {
                assert(self@[i as int].0 == key@);
                Some(&self.entries[i].1)
            },
            Position::Vacant(_) => None,
        }
    }

    /// Sets one variable, replacing the value that its key had.
    pub fn insert(&mut self, key: String, value: String)
        ensures
            final(self).map() == old(self).map().insert(key@, value@),
            final(self)@ == canonical(old(self).map().insert(key@, value@)),
    {
        let spot = self.locate(key.as_str());
        let mut entries: Vec<(String, String)> = Vec::new();
        let ghost before = self@;
        std::mem::swap(&mut entries, &mut self.entries);
        match spot {
            Position::Found(i) => {
                let ghost p = pair_view((key, value));
                entries.set(i, (key, value));
                proof {
                    lemma_map_update(before, i as int, p.1);
                }
                let ghost after = Seq::new(entries@.len(), |j: int| pair_view(entries@[j]));
                assert(after =~= before.update(i as int, (before[i as int].0, p.1)));
                self.entries = entries;
                assert(self@ =~= after);
                proof {
                    lemma_canonical(after);
                }
            },
            Position::Vacant(i) => {
                let ghost p = pair_view((key, value));
                entries.insert(i, (key, value));
                let ghost after = Seq::new(entries@.len(), |j: int| pair_view(entries@[j]));
                assert(after =~= before.insert(i as int, p));
                proof {
                    assert forall|a: int, b: int| 0 <= a < b < after.len() implies text_lt(
                        #[trigger] after[a].0,
                        #[trigger] after[b].0,
                    ) by {
                        if a < i && b > i {
                            assert(text_lt(before[a].0, before[b - 1].0));
                        } else if a < i && b < i {
                            assert(text_lt(before[a].0, before[b].0));
                        } else if a > i {
                            assert(text_lt(before[a - 1].0, before[b - 1].0));
                        } else if a < i {
                            assert(text_lt(before[a].0, p.0));
                        } else {
                            assert(text_lt(p.0, before[b - 1].0));
                        }
                    }
                    lemma_map_insert(before, i as int, p);
                }
                self.entries = entries;
                assert(self@ =~= after);
                proof {
                    lemma_canonical(after);
                }
            },
        }
    }

    /// Drops one variable, if it is there.
    pub fn remove(&mut self, key: &str)
        ensures
            final(self).map() == old(self).map().remove(key@),
            final(self)@ == canonical(old(self).map().remove(key@)),
    {
        let spot = self.locate(key);
        let ghost before = self@;
        match spot {
            Position::Found(i) => {
                let mut entries: Vec<(String, String)> = Vec::new();
                std::mem::swap(&mut entries, &mut self.entries);
                entries.remove(i);
                proof {
                    lemma_map_remove(before, i as int);
                }
                let ghost after = Seq::new(entries@.len(), |j: int| pair_view(entries@[j]));
                assert(after =~= before.remove(i as int));
                self.entries = entries;
                assert(self@ =~= after);
                proof {
                    lemma_canonical(after);
                }
            },
            Position::Vacant(_) => {
                proof {
                    lemma_pairs_map(before, key@);
                }
                assert(self.map() =~= self.map().remove(key@));
                proof {
                    lemma_canonical(before);
                }
            },
        }
    }

    /// Whether two sets hold the same variables.
    pub fn same_as(&self, other: &EnvMap) -> (r: bool)
        ensures
            r == (self@ == other@),
            r == (self.map() == other.map()),
            key_sorted(self@),
            key_sorted(other@),
    {
        proof {
            use_type_invariant(self);
            use_type_invariant(other);
            if self.map() == other.map() {
                law_key_order_is_canonical(self@, other@);
            }
        }
        if self.entries.len() != other.entries.len() {
            assert(self@.len() != other@.len());
            return false;
        }
        let mut i: usize = 0;
        while i < self.entries.len()
            invariant
                i <= self@.len(),
                self@.len() == other@.len(),
                self@.len() == self.entries@.len(),
                other@.len() == other.entries@.len(),
                forall|j: int| 0 <= j < i ==> self@[j] == other@[j],
                self.map() == other.map() ==> self@ == other@,
                key_sorted(self@),
                key_sorted(other@),
            decreases self.entries@.len() - i,
        {
            assert(self@[i as int] == pair_view(self.entries@[i as int]));
            assert(other@[i as int] == pair_view(other.entries@[i as int]));
            if !same(self.entries[i].0.as_str(), other.entries[i].0.as_str()) || !same(
                self.entries[i].1.as_str(),
                other.entries[i].1.as_str(),
            ) {
                return false;
            }
            i += 1;
        }
        assert(self@ =~= other@);
        true
    }

    /// Sets every variable of `other`, in key order.
    pub fn extend(&mut self, other: &EnvMap)
        ensures
            final(self).map() == old(self).map().union_prefer_right(other.map()),
    {
        let mut i: usize = 0;
        proof {
            use_type_invariant(other);
            assert(other@.take(0) =~= Seq::<PairView>::empty());
            assert(self.map() =~= self.map().union_prefer_right(pairs_map(other@.take(0))));
        }
        let ghost start = self.map();
        while i < other.entries.len()
            invariant
                i <= other@.len(),
                other@.len() == other.entries@.len(),
                self.map() == start.union_prefer_right(pairs_map(other@.take(i as int))),
            decreases other.entries@.len() - i,
        {
            let ghost before = self.map();
            self.insert(other.entries[i].0.clone(), other.entries[i].1.clone());
            proof {
                let t = other@.take(i + 1);
                assert(other@[i as int] == pair_view(other.entries@[i as int]));
                assert(t.drop_last() =~= other@.take(i as int));
                assert(t.last() == other@[i as int]);
                assert(self.map() =~= start.union_prefer_right(pairs_map(t)));
            }
            i += 1;
        }
        assert(other@.take(other@.len() as int) =~= other@);
    }
}

impl Clone for EnvMap {
    fn clone(&self) -> (r: Self)
        ensures
            r@ == self@,
    {
        let mut entries: Vec<(String, String)> = Vec::new();
        let mut i: usize = 0;
        while i < self.entries.len()
            invariant
                i <= self.entries@.len(),
                entries@.len() == i,
                forall|j: int| 0 <= j < i ==> pair_view(#[trigger] entries@[j]) == pair_view(self.entries@[j]),
            decreases self.entries@.len() - i,
        {
            entries.push((self.entries[i].0.clone(), self.entries[i].1.clone()));
            i += 1;
        }
        proof {
            use_type_invariant(self);
            let seen = Seq::new(entries@.len(), |j: int| pair_view(entries@[j]));
            assert(seen =~= self@);
        }
        let r = EnvMap { entries };
        assert(r@ =~= self@);
        r
    }
}

} // verus!
