//! Tables from names to items: the variables, the macros and the functions.
//!
//! A table keeps its entries in the order in which their names were first
//! bound, and binds no name twice. The position of an entry is its slot;
//! a slot stays valid until an entry is removed.

use vstd::prelude::*;

verus! {

/// The slot of `name` in a sequence of entries, if it is bound.
pub open spec fn index_of<T>(entries: Seq<(Seq<char>, T)>, name: Seq<char>) -> Option<int> {
    if exists|i: int| 0 <= i < entries.len() && (#[trigger] entries[i]).0 == name {
        Some(choose|i: int| 0 <= i < entries.len() && (#[trigger] entries[i]).0 == name)
    } else {
        None
    }
}

/// Whether no name is bound twice.
pub open spec fn distinct_names<T>(entries: Seq<(Seq<char>, T)>) -> bool {
    forall|i: int, j: int|
        0 <= i < j < entries.len() ==> (#[trigger] entries[i]).0 != (#[trigger] entries[j]).0
}

/// The entries with `item` bound to `name`: in the slot of `name` if it is
/// bound, else in a new last slot.
pub open spec fn bound<T>(entries: Seq<(Seq<char>, T)>, name: Seq<char>, item: T) -> Seq<
    (Seq<char>, T),
> {
    match index_of(entries, name) {
        Some(i) => entries.update(i, (name, item)),
        None => entries.push((name, item)),
    }
}

/// In a sequence with distinct names, a slot that holds `name` is the slot of
/// `name`.
pub proof fn lemma_index_of_found<T>(entries: Seq<(Seq<char>, T)>, name: Seq<char>, i: int)
    requires
        distinct_names(entries),
        0 <= i < entries.len(),
        entries[i].0 == name,
    ensures
        index_of(entries, name) == Some(i),
{
    let c = choose|c: int| 0 <= c < entries.len() && (#[trigger] entries[c]).0 == name;
    if c < i {
        assert(entries[c].0 != entries[i].0);
    } else if i < c {
        assert(entries[i].0 != entries[c].0);
    }
}

/// A table from names to items.
#[derive(Debug)]
pub struct Table<T> {
    entries: Vec<(String, T)>,
}

/// The entries of a vector, with each name as a sequence of characters.
spec fn entries_of<T>(entries: Seq<(String, T)>) -> Seq<(Seq<char>, T)> {
    Seq::new(entries.len(), |i: int| (entries[i].0@, entries[i].1))
}

impl<T> View for Table<T> {
    type V = Seq<(Seq<char>, T)>;

    closed spec fn view(&self) -> Seq<(Seq<char>, T)> {
        entries_of(self.entries@)
    }
}

impl<T> Table<T> {
    #[verifier::type_invariant]
    spec fn names_are_distinct(self) -> bool {
        distinct_names(self@)
    }

    /// The empty table.
    pub fn new() -> (r: Self)
        ensures
            r@ == Seq::<(Seq<char>, T)>::empty(),
    {
        let r = Table { entries: Vec::new() };
        assert(r@ =~= Seq::<(Seq<char>, T)>::empty());
        r
    }

    /// The number of entries. No name is bound twice.
    pub fn len(&self) -> (r: usize)
        ensures
            r == self@.len(),
            distinct_names(self@),
    {
        proof {
            use_type_invariant(self);
        }
        self.entries.len()
    }

    /// The slot of `name`, if it is bound.
    pub fn find(&self, name: &str) -> (r: Option<usize>)
        ensures
            match r {
                Some(i) => index_of(self@, name@) == Some(i as int) && i < self@.len() && self@[i as int].0
                    == name@,
                None => index_of(self@, name@) is None,
            },
            distinct_names(self@),
    {
        proof {
            use_type_invariant(self);
        }
        let key = String::from_str(name);
        let mut i: usize = 0;
        while i < self.entries.len()
            invariant
                i <= self.entries@.len(),
                key@ == name@,
                distinct_names(self@),
                forall|j: int| 0 <= j < i ==> (#[trigger] self@[j]).0 != name@,
            decreases self.entries@.len() - i,
        {
            if self.entries[i].0 == key {
                proof {
                    lemma_index_of_found(self@, name@, i as int);
                }
                return Some(i);
            }
            i = i + 1;
        }
        None
    }

    /// The item in slot `i`.
    pub fn get(&self, i: usize) -> (r: &T)
        requires
            i < self@.len(),
        ensures
            *r == self@[i as int].1,
    {
        &self.entries[i].1
    }

    /// The name bound in slot `i`.
    pub fn name(&self, i: usize) -> (r: &String)
        requires
            i < self@.len(),
        ensures
            r@ == self@[i as int].0,
    {
        &self.entries[i].0
    }

    /// The item bound to `name`, if there is one.
    pub fn lookup(&self, name: &str) -> (r: Option<&T>)
        ensures
            match r {
                Some(item) => index_of(self@, name@) is Some && *item == self@[index_of(
                    self@,
                    name@,
                )->Some_0].1,
                None => index_of(self@, name@) is None,
            },
    {
        match self.find(name) {
            Some(i) => Some(self.get(i)),
            None => None,
        }
    }

    /// Puts `item` in slot `i`, under the name that the slot has.
    pub fn set(&mut self, i: usize, item: T)
        requires
            i < old(self)@.len(),
        ensures
            final(self)@ == old(self)@.update(i as int, (old(self)@[i as int].0, item)),
    {
        proof {
            use_type_invariant(&*self);
        }
        let ghost before = self@;
        let name = self.entries[i].0.clone();
        let mut entries: Vec<(String, T)> = Vec::new();
        proof {
            assert(entries_of(entries@) =~= Seq::empty());
        }
        std::mem::swap(&mut self.entries, &mut entries);
        entries.set(i, (name, item));
        proof {
            assert(entries_of(entries@) =~= before.update(i as int, (before[i as int].0, item)));
        }
        std::mem::swap(&mut self.entries, &mut entries);
    }

    /// Binds `item` to `name`, in the slot of `name` if it is bound and in a
    /// new last slot if it is not. Returns the slot.
    pub fn insert(&mut self, name: &str, item: T) -> (r: usize)
        ensures
            final(self)@ == bound(old(self)@, name@, item),
            r < final(self)@.len(),
            index_of(final(self)@, name@) == Some(r as int),
            index_of(old(self)@, name@) is None ==> r == old(self)@.len(),
            index_of(old(self)@, name@) is Some ==> r == index_of(old(self)@, name@)->Some_0,
    {
        proof {
            use_type_invariant(&*self);
        }
        let ghost before = self@;
        match self.find(name) {
            Some(i) => {
                self.set(i, item);
                proof {
                    lemma_index_of_found(self@, name@, i as int);
                }
                i
            },
            None => {
                let key = String::from_str(name);
                let at = self.entries.len();
                let mut entries: Vec<(String, T)> = Vec::new();
                proof {
                    assert(entries_of(entries@) =~= Seq::empty());
                }
                std::mem::swap(&mut self.entries, &mut entries);
                entries.push((key, item));
                proof {
                    let after = entries_of(entries@);
                    assert(after =~= before.push((name@, item)));
                    assert forall|i: int, j: int| 0 <= i < j < after.len() implies (
                    #[trigger] after[i]).0 != (#[trigger] after[j]).0 by {
                        if j < before.len() {
                            assert(before[i].0 != before[j].0);
                        } else {
                            assert(before[i].0 != name@);
                        }
                    }
                    lemma_index_of_found(after, name@, at as int);
                }
                std::mem::swap(&mut self.entries, &mut entries);
                at
            },
        }
    }

    /// Removes the entry of `name`, if there is one, and returns its item.
    /// The entries behind it move one slot forward.
    pub fn remove(&mut self, name: &str) -> (r: Option<T>)
        ensures
            match index_of(old(self)@, name@) {
                Some(i) => r == Some(old(self)@[i].1) && final(self)@ == old(self)@.remove(i),
                None => r is None && final(self)@ == old(self)@,
            },
    {
        proof {
            use_type_invariant(&*self);
        }
        let ghost before = self@;
        match self.find(name) {
            Some(i) => {
                let mut entries: Vec<(String, T)> = Vec::new();
                proof {
                    assert(entries_of(entries@) =~= Seq::empty());
                }
                std::mem::swap(&mut self.entries, &mut entries);
                let entry = entries.remove(i);
                proof {
                    let after = entries_of(entries@);
                    assert(after =~= before.remove(i as int));
                    assert forall|a: int, b: int| 0 <= a < b < after.len() implies (
                    #[trigger] after[a]).0 != (#[trigger] after[b]).0 by {
                        let a0 = if a < i { a } else { a + 1 };
                        let b0 = if b < i { b } else { b + 1 };
                        assert(before[a0].0 != before[b0].0);
                    }
                }
                std::mem::swap(&mut self.entries, &mut entries);
                Some(entry.1)
            },
            None => None,
        }
    }

    /// Removes every entry.
    pub fn clear(&mut self)
        ensures
            final(self)@ == Seq::<(Seq<char>, T)>::empty(),
    {
        let entries: Vec<(String, T)> = Vec::new();
        proof {
            assert(entries_of(entries@) =~= Seq::empty());
        }
        self.entries = entries;
    }
}

} // verus!
