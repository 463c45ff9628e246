//! Profiles by name, kept in name order.
use crate::config::{Profile, ProfileView};
use crate::text::chars_of;

use vstd::prelude::*;

verus! {

/// Lexicographic order on character sequences, which is the order of
/// Rust's `String` comparison.
pub open spec fn seq_lt(a: Seq<char>, b: Seq<char>) -> bool
    decreases a.len(),
{
    if a.len() == 0 {
        b.len() > 0
    } else if b.len() == 0 {
        false
    } else if a[0] < b[0] {
        true
    } else if a[0] == b[0] {
        seq_lt(a.drop_first(), b.drop_first())
    } else {
        false
    }
}

pub proof fn lemma_lt_irreflexive(a: Seq<char>)
    ensures
        !seq_lt(a, a),
    decreases a.len(),
{
    if a.len() > 0 {
        lemma_lt_irreflexive(a.drop_first());
    }
}

pub proof fn lemma_lt_transitive(a: Seq<char>, b: Seq<char>, c: Seq<char>)
    requires
        seq_lt(a, b),
        seq_lt(b, c),
    ensures
        seq_lt(a, c),
    decreases a.len(),
{
    if a.len() > 0 && b.len() > 0 && c.len() > 0 {
        if a[0] == b[0] && b[0] == c[0] {
            lemma_lt_transitive(a.drop_first(), b.drop_first(), c.drop_first());
        }
    }
}

pub proof fn lemma_lt_total(a: Seq<char>, b: Seq<char>)
    requires
        a != b,
    ensures
        seq_lt(a, b) || seq_lt(b, a),
    decreases a.len(),
{
    if a.len() > 0 && b.len() > 0 && a[0] == b[0] {
        if a.drop_first() == b.drop_first() {
            assert(a =~= seq![a[0]] + a.drop_first());
            assert(b =~= seq![b[0]] + b.drop_first());
        }
        lemma_lt_total(a.drop_first(), b.drop_first());
    } else if a.len() == 0 && b.len() == 0 {
        assert(a =~= b);
    }
}

pub proof fn lemma_lt_asymmetric(a: Seq<char>, b: Seq<char>)
    requires
        seq_lt(a, b),
    ensures
        !seq_lt(b, a),
{
    if seq_lt(b, a) {
        lemma_lt_transitive(a, b, a);
        lemma_lt_irreflexive(a);
    }
}

/// `a` sorts before `b`.
pub fn str_lt(a: &str, b: &str) -> (r: bool)
    ensures
        r == seq_lt(a@, b@),
{
    let x = chars_of(a);
    let y = chars_of(b);
    let mut i: usize = 0;
    assert(x@.skip(0) =~= x@);
    assert(y@.skip(0) =~= y@);
    while i < x.len() && i < y.len() && x[i] == y[i]
        invariant
            x@ == a@,
            y@ == b@,
            i <= x.len(),
            i <= y.len(),
            seq_lt(a@, b@) == seq_lt(x@.skip(i as int), y@.skip(i as int)),
        decreases x.len() - i,
    {
        assert(x@.skip(i as int).drop_first() =~= x@.skip(i + 1));
        assert(y@.skip(i as int).drop_first() =~= y@.skip(i + 1));
        i = i + 1;
    }
    if i == x.len() {
        i < y.len()
    } else if i == y.len() {
        false
    } else {
        x[i] < y[i]
    }
}

pub open spec fn entry_names(e: Seq<(String, Profile)>) -> Seq<Seq<char>> {
    e.map_values(|p: (String, Profile)| p.0@)
}

pub open spec fn strictly_sorted(k: Seq<Seq<char>>) -> bool {
    forall|i: int, j: int| 0 <= i < j < k.len() ==> seq_lt(#[trigger] k[i], #[trigger] k[j])
}

pub open spec fn has_name_at(e: Seq<(String, Profile)>, k: Seq<char>, i: int) -> bool {
    0 <= i < e.len() && e[i].0@ == k
}

pub open spec fn entries_map(e: Seq<(String, Profile)>) -> Map<Seq<char>, ProfileView> {
    Map::new(
        |k: Seq<char>| exists|i: int| has_name_at(e, k, i),
        |k: Seq<char>| e[choose|i: int| has_name_at(e, k, i)].1@,
    )
}

pub proof fn lemma_sorted_unique(e: Seq<(String, Profile)>, i: int, j: int)
    requires
        strictly_sorted(entry_names(e)),
        0 <= i < e.len(),
        0 <= j < e.len(),
        e[i].0@ == e[j].0@,
    ensures
        i == j,
{
    if i < j {
        assert(seq_lt(entry_names(e)[i], entry_names(e)[j]));
        lemma_lt_irreflexive(e[i].0@);
    } else if j < i {
        assert(seq_lt(entry_names(e)[j], entry_names(e)[i]));
        lemma_lt_irreflexive(e[i].0@);
    }
}

pub proof fn lemma_map_at(e: Seq<(String, Profile)>, i: int)
    requires
        strictly_sorted(entry_names(e)),
        0 <= i < e.len(),
    ensures
        entries_map(e).contains_key(e[i].0@),
        entries_map(e)[e[i].0@] == e[i].1@,
{
    let k = e[i].0@;
    assert(has_name_at(e, k, i));
    let j = choose|j: int| has_name_at(e, k, j);
    lemma_sorted_unique(e, i, j);
}

/// Profiles by name. Names are unique and kept in ascending order, so
/// listing goes by name.
#[derive(Debug)]
pub struct ProfileMap {
    entries: Vec<(String, Profile)>,
}

impl ProfileMap {
    #[verifier::type_invariant]
    spec fn sorted(self) -> bool {
        strictly_sorted(entry_names(self.entries@))
    }

    /// The names, in ascending order.
    pub closed spec fn names(&self) -> Seq<Seq<char>> {
        entry_names(self.entries@)
    }

    /// The entries, in name order.
    pub closed spec fn entries_seq(&self) -> Seq<(String, Profile)> {
        self.entries@
    }

    /// The names are exactly the keys of the map, in ascending order.
    pub open spec fn names_are_keys(&self) -> bool {
        &&& strictly_sorted(self.names())
        &&& forall|k: Seq<char>|
            #![trigger self@.contains_key(k)]
            #![trigger self.names().contains(k)]
            self@.contains_key(k) <==> self.names().contains(k)
    }

    proof fn lemma_names_are_keys(&self)
        requires
            self.sorted(),
        ensures
            self.names_are_keys(),
    {
        let e = self.entries@;
        assert forall|k: Seq<char>| self@.contains_key(k) <==> self.names().contains(k) by {
            if self@.contains_key(k) {
                let i = choose|i: int| has_name_at(e, k, i);
                assert(self.names()[i] == k);
            }
            if self.names().contains(k) {
                let i = choose|i: int| 0 <= i < self.names().len() && self.names()[i] == k;
                assert(has_name_at(e, k, i));
            }
        }
    }
}

impl View for ProfileMap {
    type V = Map<Seq<char>, ProfileView>;

    closed spec fn view(&self) -> Map<Seq<char>, ProfileView> {
        entries_map(self.entries@)
    }
}

impl ProfileMap {
    pub fn new() -> (r: Self)
        ensures
            r@ == Map::<Seq<char>, ProfileView>::empty(),
            r.names() == Seq::<Seq<char>>::empty(),
            r.names_are_keys(),
    {
        let r = ProfileMap { entries: Vec::new() };
        assert(r@ =~= Map::<Seq<char>, ProfileView>::empty());
        assert(r.names() =~= Seq::<Seq<char>>::empty());
        proof {
            r.lemma_names_are_keys();
        }
        r
    }

    pub fn len(&self) -> (r: usize)
        ensures
            r == self.names().len(),
            self.names_are_keys(),
    {
        proof {
            use_type_invariant(self);
            self.lemma_names_are_keys();
        }
        self.entries.len()
    }

    pub fn is_empty(&self) -> (r: bool)
        ensures
            r == (self@.dom() == Set::<Seq<char>>::empty()),
            self.names_are_keys(),
    {
        proof {
            use_type_invariant(self);
            self.lemma_names_are_keys();
            if self.entries.len() > 0 {
                assert(has_name_at(self.entries@, self.names()[0], 0));
                assert(self@.contains_key(self.names()[0]));
            } else {
                assert(self@.dom() =~= Set::<Seq<char>>::empty());
            }
        }
        self.entries.len() == 0
    }

    /// The position of `name`, if present.
    fn find(&self, name: &str) -> (r: Option<usize>)
        ensures
            match r {
                Some(i) => i < self.entries.len() && self.entries@[i as int].0@ == name@,
                None => !self@.contains_key(name@),
            },
    {
        let mut i: usize = 0;
        while i < self.entries.len()
            invariant
                i <= self.entries.len(),
                forall|j: int| 0 <= j < i ==> (#[trigger] self.entries@[j]).0@ != name@,
            decreases self.entries.len() - i,
        {
            if crate::text::str_eq(self.entries[i].0.as_str(), name) {
                return Some(i);
            }
            i = i + 1;
        }
        None
    }

    pub fn contains_key(&self, name: &str) -> (r: bool)
        ensures
            r == self@.contains_key(name@),
            self.names_are_keys(),
    {
        proof {
            use_type_invariant(self);
            self.lemma_names_are_keys();
        }
        match self.find(name) {
            Some(i) => {
                proof {
                    assert(has_name_at(self.entries@, name@, i as int));
                }
                true
            },
            None => false,
        }
    }

    pub fn get(&self, name: &str) -> (r: Option<&Profile>)
        ensures
            r is Some <==> self@.contains_key(name@),
            r is Some ==> r->0@ == self@[name@],
            self.names_are_keys(),
    {
        proof {
            use_type_invariant(self);
            self.lemma_names_are_keys();
        }
        match self.find(name) {
            Some(i) => {
                proof {
                    lemma_map_at(self.entries@, i as int);
                }
                Some(&self.entries[i].1)
            },
            None => None,
        }
    }

    /// The entries in name order.
    pub fn entries(&self) -> (r: &Vec<(String, Profile)>)
        ensures
            r@ == self.entries_seq(),
            entry_names(r@) == self.names(),
            forall|i: int|
                0 <= i < r@.len() ==> self@.contains_key(#[trigger] r@[i].0@) && self@[r@[i].0@]
                    == r@[i].1@,
            self.names_are_keys(),
    {
        proof {
            use_type_invariant(self);
            self.lemma_names_are_keys();
            assert forall|i: int| 0 <= i < self.entries@.len() implies self@.contains_key(
                #[trigger] self.entries@[i].0@,
            ) && self@[self.entries@[i].0@] == self.entries@[i].1@ by {
                lemma_map_at(self.entries@, i);
            }
        }
        &self.entries
    }

    /// Adds or replaces the profile under `name`.
    pub fn insert(&mut self, name: String, profile: Profile)
        ensures
            final(self)@ == old(self)@.insert(name@, profile@),
            final(self).names_are_keys(),
    {
        proof {
            use_type_invariant(&*self);
        }
        let ghost old_e = self.entries@;
        let mut i: usize = 0;
        while i < self.entries.len() && str_lt(self.entries[i].0.as_str(), name.as_str())
            invariant
                i <= self.entries.len(),
                self.entries@ == old_e,
                strictly_sorted(entry_names(old_e)),
                forall|j: int| 0 <= j < i ==> seq_lt(#[trigger] old_e[j].0@, name@),
            decreases self.entries.len() - i,
        {
            i = i + 1;
        }
        if i < self.entries.len() && crate::text::str_eq(self.entries[i].0.as_str(), name.as_str()) {
            let ghost v = profile@;
            let mut entries: Vec<(String, Profile)> = Vec::new();
            std::mem::swap(&mut entries, &mut self.entries);
            entries.set(i, (name, profile));
            let ghost new_e = entries@;
            proof {
                assert(entry_names(new_e) =~= entry_names(old_e));
                assert forall|k: Seq<char>| #![auto] entries_map(new_e).contains_key(k)
                    == named_after_insert(old_e, name@, k) by {
                    if entries_map(new_e).contains_key(k) {
                        let j = choose|j: int| has_name_at(new_e, k, j);
                        if j != i {
                            assert(has_name_at(old_e, k, j));
                        }
                    }
                    if named_after_insert(old_e, name@, k) && k != name@ {
                        let j = choose|j: int| has_name_at(old_e, k, j);
                        assert(has_name_at(new_e, k, j));
                    }
                    if k == name@ {
                        assert(has_name_at(new_e, k, i as int));
                    }
                }
                assert forall|k: Seq<char>| #[trigger] entries_map(new_e).contains_key(k) implies
                    entries_map(new_e)[k] == entries_map(old_e).insert(name@, v)[k] by {
                    let j = choose|j: int| has_name_at(new_e, k, j);
                    lemma_map_at(new_e, j);
                    if j != i {
                        assert(has_name_at(old_e, k, j));
                        lemma_map_at(old_e, j);
                        if k == name@ {
                            lemma_sorted_unique(new_e, i as int, j);
                        }
                    }
                }
                assert(entries_map(new_e) =~= entries_map(old_e).insert(name@, v));
            }
            self.entries = entries;
            proof {
                use_type_invariant(&*self);
                self.lemma_names_are_keys();
            }
        } else {
            let ghost v = profile@;
            let ghost n = name@;
            proof {
                if i < old_e.len() {
                    lemma_lt_total(old_e[i as int].0@, n);
                }
            }
            let mut entries: Vec<(String, Profile)> = Vec::new();
            std::mem::swap(&mut entries, &mut self.entries);
            entries.insert(i, (name, profile));
            let ghost new_e = entries@;
            proof {
                assert(entry_names(new_e) =~= entry_names(old_e).insert(i as int, n));
                assert forall|a: int, b: int| 0 <= a < b < new_e.len() implies seq_lt(
                    #[trigger] entry_names(new_e)[a],
                    #[trigger] entry_names(new_e)[b],
                ) by {
                    if b < i {
                        assert(seq_lt(entry_names(old_e)[a], entry_names(old_e)[b]));
                    } else if a < i && b == i {
                    } else if a < i && b > i {
                        assert(seq_lt(entry_names(old_e)[a], entry_names(old_e)[b - 1]));
                    } else if a == i {
                        assert(seq_lt(n, old_e[i as int].0@));
                        if b - 1 > i {
                            assert(seq_lt(entry_names(old_e)[i as int], entry_names(old_e)[b - 1]));
                            lemma_lt_transitive(n, old_e[i as int].0@, old_e[b - 1].0@);
                        }
                    } else {
                        assert(seq_lt(entry_names(old_e)[a - 1], entry_names(old_e)[b - 1]));
                    }
                }
                assert forall|k: Seq<char>| #[trigger] entries_map(new_e).contains_key(k)
                    == (entries_map(old_e).contains_key(k) || k == n) by {
                    if entries_map(new_e).contains_key(k) {
                        let j = choose|j: int| has_name_at(new_e, k, j);
                        if j < i {
                            assert(has_name_at(old_e, k, j));
                        } else if j > i {
                            assert(has_name_at(old_e, k, j - 1));
                        }
                    }
                    if entries_map(old_e).contains_key(k) && k != n {
                        let j = choose|j: int| has_name_at(old_e, k, j);
                        if j < i {
                            assert(has_name_at(new_e, k, j));
                        } else {
                            assert(has_name_at(new_e, k, j + 1));
                        }
                    }
                    if k == n {
                        assert(has_name_at(new_e, k, i as int));
                    }
                }
                assert forall|k: Seq<char>| #[trigger] entries_map(new_e).contains_key(k) implies
                    entries_map(new_e)[k] == entries_map(old_e).insert(n, v)[k] by {
                    let j = choose|j: int| has_name_at(new_e, k, j);
                    lemma_map_at(new_e, j);
                    if j < i {
                        assert(has_name_at(old_e, k, j));
                        lemma_map_at(old_e, j);
                        if k == n {
                            lemma_sorted_unique(new_e, i as int, j);
                        }
                    } else if j > i {
                        assert(has_name_at(old_e, k, j - 1));
                        lemma_map_at(old_e, j - 1);
                        if k == n {
                            lemma_sorted_unique(new_e, i as int, j);
                        }
                    }
                }
                assert(entries_map(new_e) =~= entries_map(old_e).insert(n, v));
            }
            self.entries = entries;
            proof {
                use_type_invariant(&*self);
                self.lemma_names_are_keys();
            }
        }
    }

    /// Removes the profile under `name`, returning it.
    pub fn remove(&mut self, name: &str) -> (r: Option<Profile>)
        ensures
            final(self)@ == old(self)@.remove(name@),
            r is Some <==> old(self)@.contains_key(name@),
            r is Some ==> r->0@ == old(self)@[name@],
            final(self).names_are_keys(),
    {
        proof {
            use_type_invariant(&*self);
        }
        proof {
            self.lemma_names_are_keys();
        }
        let ghost old_e = self.entries@;
        match self.find(name) {
            None => {
                assert(entries_map(old_e).remove(name@) =~= entries_map(old_e));
                None
            },
            Some(i) => {
                proof {
                    lemma_map_at(old_e, i as int);
                }
                let mut entries: Vec<(String, Profile)> = Vec::new();
            std::mem::swap(&mut entries, &mut self.entries);
                let removed = entries.remove(i);
                let ghost new_e = entries@;
                proof {
                    assert(entry_names(new_e) =~= entry_names(old_e).remove(i as int));
                    assert forall|a: int, b: int| 0 <= a < b < new_e.len() implies seq_lt(
                        #[trigger] entry_names(new_e)[a],
                        #[trigger] entry_names(new_e)[b],
                    ) by {
                        if b < i {
                            assert(seq_lt(entry_names(old_e)[a], entry_names(old_e)[b]));
                        } else if a < i {
                            assert(seq_lt(entry_names(old_e)[a], entry_names(old_e)[b + 1]));
                        } else {
                            assert(seq_lt(entry_names(old_e)[a + 1], entry_names(old_e)[b + 1]));
                        }
                    }
                    assert forall|k: Seq<char>| #![auto] entries_map(new_e).contains_key(k) == (
                    entries_map(old_e).contains_key(k) && k != name@) by {
                        if entries_map(new_e).contains_key(k) {
                            let j = choose|j: int| has_name_at(new_e, k, j);
                            if j < i {
                                assert(has_name_at(old_e, k, j));
                                if k == name@ {
                                    lemma_sorted_unique(old_e, i as int, j);
                                }
                            } else {
                                assert(has_name_at(old_e, k, j + 1));
                                if k == name@ {
                                    lemma_sorted_unique(old_e, i as int, j + 1);
                                }
                            }
                        }
                        if entries_map(old_e).contains_key(k) && k != name@ {
                            let j = choose|j: int| has_name_at(old_e, k, j);
                            if j < i {
                                assert(has_name_at(new_e, k, j));
                            } else if j > i {
                                assert(has_name_at(new_e, k, j - 1));
                            }
                        }
                    }
                    assert forall|k: Seq<char>| #[trigger] entries_map(new_e).contains_key(k)
                        implies entries_map(new_e)[k] == entries_map(old_e)[k] by {
                        let j = choose|j: int| has_name_at(new_e, k, j);
                        lemma_map_at(new_e, j);
                        if j < i {
                            lemma_map_at(old_e, j);
                        } else {
                            lemma_map_at(old_e, j + 1);
                        }
                    }
                    assert(entries_map(new_e) =~= entries_map(old_e).remove(name@));
                }
                self.entries = entries;
            proof {
                use_type_invariant(&*self);
                self.lemma_names_are_keys();
            }
                Some(removed.1)
            },
        }
    }
}

/// `k` is a name once `n` has been added.
spec fn named_after_insert(e: Seq<(String, Profile)>, n: Seq<char>, k: Seq<char>) -> bool {
    entries_map(e).insert(n, arbitrary()).contains_key(k)
}

} // verus!
