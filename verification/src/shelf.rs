//! Things that are kept under a name until they are taken away.
use crate::text::{self, decimal};
use vstd::prelude::*;

verus! {

/// Things under names, at most one under each. Things can be given a name that
/// counts up.
#[derive(Debug)]
pub struct Shelf<T> {
    entries: Vec<(String, T)>,
    next: u64,
}

/// The mathematical value of a [`Shelf`]: what is kept under each name, and the
/// number that the next name counts.
#[verifier::reject_recursive_types(T)]
#[verifier::ext_equal]
pub struct ShelfView<T> {
    pub kept: Map<Seq<char>, T>,
    pub next: u64,
}

/// What entries keep under each name.
spec fn kept_in<T>(entries: Seq<(String, T)>) -> Map<Seq<char>, T>
    decreases entries.len(),
{
    if entries.len() == 0 {
        Map::empty()
    } else {
        kept_in(entries.drop_last()).insert(entries.last().0@, entries.last().1)
    }
}

/// No name occurs twice.
spec fn names_differ<T>(entries: Seq<(String, T)>) -> bool {
    forall|i: int, j: int|
        0 <= i < j < entries.len() ==> (#[trigger] entries[i]).0@ != (#[trigger] entries[j]).0@
}

proof fn lemma_kept<T>(entries: Seq<(String, T)>)
    requires
        names_differ(entries),
    ensures
        forall|i: int|
            0 <= i < entries.len() ==> kept_in(entries).dom().contains((#[trigger] entries[i]).0@) && kept_in(
                entries,
            )[entries[i].0@] == entries[i].1,
        forall|name: Seq<char>| #[trigger]
            kept_in(entries).dom().contains(name) ==> exists|i: int|
                0 <= i < entries.len() && (#[trigger] entries[i]).0@ == name,
    decreases entries.len(),
{
    if entries.len() > 0 {
        let rest = entries.drop_last();
        assert forall|i: int, j: int| 0 <= i < j < rest.len() implies (#[trigger] rest[i]).0@ != (
        #[trigger] rest[j]).0@ by {
            assert(entries[i].0@ != entries[j].0@);
        }
        lemma_kept(rest);
        let last = entries.len() - 1;
        assert forall|i: int| 0 <= i < entries.len() implies kept_in(entries).dom().contains(
            (#[trigger] entries[i]).0@,
        ) && kept_in(entries)[entries[i].0@] == entries[i].1 by {
            if i < last {
                assert(rest[i] == entries[i]);
                assert(entries[i].0@ != entries[last].0@);
            }
        }
        assert forall|name: Seq<char>| #[trigger] kept_in(entries).dom().contains(name) implies exists|i: int|
            0 <= i < entries.len() && (#[trigger] entries[i]).0@ == name by {
            if name == entries[last].0@ {
                assert(entries[last].0@ == name);
            } else {
                assert(kept_in(rest).dom().contains(name));
                let i = choose|i: int| 0 <= i < rest.len() && (#[trigger] rest[i]).0@ == name;
                assert(entries[i].0@ == name);
            }
        }
    }
}

proof fn lemma_removed<T>(entries: Seq<(String, T)>, at: int)
    requires
        names_differ(entries),
        0 <= at < entries.len(),
    ensures
        names_differ(entries.remove(at)),
        kept_in(entries.remove(at)) == kept_in(entries).remove(entries[at].0@),
{
    let rest = entries.remove(at);
    let name = entries[at].0@;
    assert forall|i: int, j: int| 0 <= i < j < rest.len() implies (#[trigger] rest[i]).0@ != (#[trigger] rest[j]).0@ by {
        let from = if i < at {
            i
        } else {
            i + 1
        };
        let to = if j < at {
            j
        } else {
            j + 1
        };
        assert(rest[i] == entries[from] && rest[j] == entries[to]);
    }
    lemma_kept(entries);
    lemma_kept(rest);
    assert forall|key: Seq<char>| kept_in(rest).dom().contains(key) == (kept_in(entries).dom().contains(key) && key
        != name) && (kept_in(rest).dom().contains(key) ==> kept_in(rest)[key] == kept_in(entries)[key]) by {
        if kept_in(rest).dom().contains(key) {
            let i = choose|i: int| 0 <= i < rest.len() && (#[trigger] rest[i]).0@ == key;
            let from = if i < at {
                i
            } else {
                i + 1
            };
            assert(rest[i] == entries[from]);
            assert(kept_in(rest)[rest[i].0@] == rest[i].1);
            assert(kept_in(entries)[entries[from].0@] == entries[from].1);
            if from < at {
                assert(entries[from].0@ != entries[at].0@);
            } else {
                assert(entries[at].0@ != entries[from].0@);
            }
        }
        if kept_in(entries).dom().contains(key) && key != name {
            let i = choose|i: int| 0 <= i < entries.len() && (#[trigger] entries[i]).0@ == key;
            let to = if i < at {
                i
            } else {
                i - 1
            };
            assert(rest[to] == entries[i]);
            assert(kept_in(rest).dom().contains(rest[to].0@));
        }
    }
    assert(kept_in(rest) =~= kept_in(entries).remove(name));
}

impl<T> View for Shelf<T> {
    type V = ShelfView<T>;

    closed spec fn view(&self) -> ShelfView<T> {
        ShelfView { kept: kept_in(self.entries@), next: self.next }
    }
}

impl<T> Shelf<T> {
    #[verifier::type_invariant]
    spec fn well_formed(self) -> bool {
        names_differ(self.entries@)
    }

    /// An empty shelf whose first counted name is one.
    pub fn new() -> (result: Shelf<T>)
        ensures
            result@ == (ShelfView::<T> { kept: Map::empty(), next: 1 }),
    {
        Shelf { entries: Vec::new(), next: 1 }
    }

    /// The place of a name.
    fn find(&self, name: &str) -> (result: Option<usize>)
        ensures
            match result {
                Some(at) => at < self.entries@.len() && self.entries@[at as int].0@ == name@ && self@.kept.dom().contains(
                    name@,
                ) && self@.kept[name@] == self.entries@[at as int].1,
                None => !self@.kept.dom().contains(name@) && forall|i: int|
                    0 <= i < self.entries@.len() ==> (#[trigger] self.entries@[i]).0@ != name@,
            },
    {
        proof {
            use_type_invariant(self);
            lemma_kept(self.entries@);
        }
        let mut at: usize = 0;
        while at < self.entries.len()
            invariant
                at <= self.entries@.len(),
                forall|i: int| 0 <= i < at ==> (#[trigger] self.entries@[i]).0@ != name@,
                forall|i: int|
                    0 <= i < self.entries@.len() ==> kept_in(self.entries@).dom().contains(
                        (#[trigger] self.entries@[i]).0@,
                    ) && kept_in(self.entries@)[self.entries@[i].0@] == self.entries@[i].1,
            decreases self.entries.len() - at,
        {
            if text::same(self.entries[at].0.as_str(), name) {
                assert(kept_in(self.entries@).dom().contains(self.entries@[at as int].0@));
                return Some(at);
            }
            at += 1;
        }
        None
    }

    /// What is kept under a name.
    pub fn get(&self, name: &str) -> (result: Option<&T>)
        ensures
            match result {
                Some(thing) => self@.kept.dom().contains(name@) && *thing == self@.kept[name@],
                None => !self@.kept.dom().contains(name@),
            },
    {
        match self.find(name) {
            Some(at) => Some(&self.entries[at].1),
            None => None,
        }
    }

    /// Takes away what is kept under a name.
    pub fn remove(&mut self, name: &str) -> (result: Option<T>)
        ensures
            final(self)@ == (ShelfView { kept: old(self)@.kept.remove(name@), next: old(self)@.next }),
            match result {
                Some(thing) => old(self)@.kept.dom().contains(name@) && thing == old(self)@.kept[name@],
                None => !old(self)@.kept.dom().contains(name@),
            },
    {
        proof {
            use_type_invariant(&*self);
        }
        match self.find(name) {
            Some(at) => {
                let mut entries: Vec<(String, T)> = Vec::new();
                std::mem::swap(&mut entries, &mut self.entries);
                proof {
                    lemma_removed(entries@, at as int);
                }
                let entry = entries.remove(at);
                self.entries = entries;
                Some(entry.1)
            },
            None => {
                assert(self@.kept.remove(name@) =~= self@.kept);
                None
            },
        }
    }

    /// Keeps a thing under a name, in place of what was kept there.
    pub fn insert(&mut self, name: &str, thing: T)
        ensures
            final(self)@ == (ShelfView { kept: old(self)@.kept.insert(name@, thing), next: old(self)@.next }),
    {
        let _ = self.remove(name);
        proof {
            use_type_invariant(&*self);
            lemma_kept(self.entries@);
        }
        let ghost before = self.entries@;
        let mut entries: Vec<(String, T)> = Vec::new();
        std::mem::swap(&mut entries, &mut self.entries);
        entries.push((name.to_owned(), thing));
        proof {
            assert(entries@.drop_last() =~= before);
            assert forall|i: int, j: int| 0 <= i < j < entries@.len() implies (#[trigger] entries@[i]).0@ != (
            #[trigger] entries@[j]).0@ by {
                if j == before.len() {
                    assert(kept_in(before).dom().contains(before[i].0@));
                }
            }
            assert(kept_in(entries@) =~= old(self)@.kept.insert(name@, thing));
        }
        self.entries = entries;
    }

    /// Keeps a thing under the next counted name and returns the name.
    pub fn register(&mut self, thing: T) -> (result: String)
        ensures
            result@ == decimal(old(self)@.next as nat),
            final(self)@ == (ShelfView {
                kept: old(self)@.kept.insert(result@, thing),
                next: if old(self)@.next < u64::MAX {
                    (old(self)@.next + 1) as u64
                } else {
                    0
                },
            }),
    {
        let name = text::number_text(self.next);
        self.insert(name.as_str(), thing);
        let mut entries: Vec<(String, T)> = Vec::new();
        proof {
            use_type_invariant(&*self);
        }
        std::mem::swap(&mut entries, &mut self.entries);
        let next: u64 = if self.next < u64::MAX {
            self.next + 1
        } else {
            0
        };
        *self = Shelf { entries, next };
        name
    }

    /// Takes everything away; names go on counting.
    pub fn clear(&mut self)
        ensures
            final(self)@ == (ShelfView::<T> { kept: Map::empty(), next: old(self)@.next }),
    {
        let next: u64 = self.next;
        *self = Shelf { entries: Vec::new(), next };
    }
}

/// Two counted names are never the same, as long as they count differently.
pub proof fn counted_names_differ(left: u64, right: u64)
    requires
        left != right,
    ensures
        decimal(left as nat) != decimal(right as nat),
{
    if decimal(left as nat) == decimal(right as nat) {
        text::decimal_is_injective(left, right);
    }
}

} // verus!
