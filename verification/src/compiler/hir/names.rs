//! A map from function names to function ids, kept as a list of entries.
use crate::compiler::hir::definition::FnId;
use vstd::prelude::*;

verus! {

/// Compares two names byte by byte.
pub fn same_name(a: &[u8], b: &[u8]) -> (r: bool)
    ensures
        r == (a@ == b@),
{
    if a.len() != b.len() {
        return false;
    }
    let mut i: usize = 0;
    while i < a.len()
        invariant
            a@.len() == b@.len(),
            i <= a@.len(),
            forall|j: int| 0 <= j < i ==> a@[j] == b@[j],
        decreases a@.len() - i,
    {
        if a[i] != b[i] {
            return false;
        }
        i = i + 1;
    }
    assert(a@ =~= b@);
    true
}

/// The map that a list of entries stands for: later entries are inserted last.
pub open spec fn map_of<'a>(entries: Seq<(&'a [u8], FnId)>) -> Map<Seq<u8>, FnId>
    decreases entries.len(),
{
    if entries.len() == 0 {
        Map::empty()
    } else {
        map_of(entries.drop_last()).insert(entries.last().0@, entries.last().1)
    }
}

/// No two entries have the same name.
pub open spec fn distinct_names<'a>(entries: Seq<(&'a [u8], FnId)>) -> bool {
    forall|i: int, j: int|
        0 <= i < entries.len() && 0 <= j < entries.len() && i != j ==> entries[i].0@ != entries[j].0@
}

proof fn lemma_map_of<'a>(entries: Seq<(&'a [u8], FnId)>)
    requires
        distinct_names(entries),
    ensures
        forall|k: Seq<u8>| #[trigger]
            map_of(entries).dom().contains(k) <==> exists|i: int|
                0 <= i < entries.len() && entries[i].0@ == k,
        forall|i: int|
            0 <= i < entries.len() ==> map_of(entries)[#[trigger] entries[i].0@] == entries[i].1,
        map_of(entries).dom().finite(),
    decreases entries.len(),
{
    if entries.len() > 0 {
        let rest = entries.drop_last();
        assert(distinct_names(rest));
        lemma_map_of(rest);
        assert forall|k: Seq<u8>| #[trigger]
            map_of(entries).dom().contains(k) <==> exists|i: int|
                0 <= i < entries.len() && entries[i].0@ == k by {
            if map_of(entries).dom().contains(k) {
                if k == entries.last().0@ {
                    assert(entries[entries.len() - 1].0@ == k);
                } else {
                    let i = choose|i: int| 0 <= i < rest.len() && rest[i].0@ == k;
                    assert(entries[i].0@ == k);
                }
            }
            if exists|i: int| 0 <= i < entries.len() && entries[i].0@ == k {
                let i = choose|i: int| 0 <= i < entries.len() && entries[i].0@ == k;
                if i < entries.len() - 1 {
                    assert(rest[i].0@ == k);
                }
            }
        }
        assert forall|i: int| 0 <= i < entries.len() implies map_of(entries)[#[trigger] entries[i].0@]
            == entries[i].1 by {
            if i < entries.len() - 1 {
                assert(rest[i] == entries[i]);
                assert(entries[i].0@ != entries.last().0@);
            }
        }
    }
}

/// A map from names to function ids.
pub struct NameMap<'a> {
    entries: Vec<(&'a [u8], FnId)>,
}

impl<'a> View for NameMap<'a> {
    type V = Map<Seq<u8>, FnId>;

    closed spec fn view(&self) -> Map<Seq<u8>, FnId> {
        map_of(self.entries@)
    }
}

impl<'a> NameMap<'a> {
    /// The entries are kept distinct by name.
    pub closed spec fn wf(&self) -> bool {
        distinct_names(self.entries@)
    }

    pub fn new() -> (r: Self)
        ensures
            r.wf(),
            r@ == Map::<Seq<u8>, FnId>::empty(),
    {
        NameMap { entries: Vec::new() }
    }

    /// The id registered for `name`, if any.
    pub fn get(&self, name: &[u8]) -> (r: Option<FnId>)
        requires
            self.wf(),
        ensures
            r == (if self@.dom().contains(name@) {
                Some(self@[name@])
            } else {
                None::<FnId>
            }),
    {
        proof {
            lemma_map_of(self.entries@);
        }
        let mut i: usize = 0;
        while i < self.entries.len()
            invariant
                self.wf(),
                i <= self.entries@.len(),
                forall|j: int| 0 <= j < i ==> self.entries@[j].0@ != name@,
            decreases self.entries@.len() - i,
        {
            if same_name(self.entries[i].0, name) {
                assert(self.entries@[i as int].0@ == name@);
                proof {
                    lemma_map_of(self.entries@);
                }
                assert(map_of(self.entries@)[self.entries@[i as int].0@] == self.entries@[i as int].1);
                assert(map_of(self.entries@).dom().contains(self.entries@[i as int].0@));
                return Some(self.entries[i].1);
            }
            i = i + 1;
        }
        proof {
            lemma_map_of(self.entries@);
        }
        None
    }

    /// Registers a name that is not registered yet.
    pub fn insert_new(&mut self, name: &'a [u8], id: FnId)
        requires
            old(self).wf(),
            !old(self)@.dom().contains(name@),
        ensures
            final(self).wf(),
            final(self)@ == old(self)@.insert(name@, id),
    {
        proof {
            lemma_map_of(self.entries@);
        }
        self.entries.push((name, id));
        proof {
            let s = self.entries@;
            assert(s.drop_last() =~= old(self).entries@);
            assert forall|i: int, j: int|
                0 <= i < s.len() && 0 <= j < s.len() && i != j implies s[i].0@ != s[j].0@ by {
                if i == s.len() - 1 {
                    assert(old(self).entries@[j].0@ != name@);
                } else if j == s.len() - 1 {
                    assert(old(self).entries@[i].0@ != name@);
                }
            }
        }
    }

    /// Number of registered names.
    pub fn len(&self) -> (r: usize)
        requires
            self.wf(),
        ensures
            r == self@.dom().len(),
            self@.dom().finite(),
    {
        proof {
            lemma_len_map_of(self.entries@);
        }
        self.entries.len()
    }
}

proof fn lemma_len_map_of<'a>(entries: Seq<(&'a [u8], FnId)>)
    requires
        distinct_names(entries),
    ensures
        map_of(entries).dom().len() == entries.len(),
        map_of(entries).dom().finite(),
    decreases entries.len(),
{
    lemma_map_of(entries);
    if entries.len() > 0 {
        let rest = entries.drop_last();
        assert(distinct_names(rest));
        lemma_len_map_of(rest);
        lemma_map_of(rest);
        assert(!map_of(rest).dom().contains(entries.last().0@)) by {
            if map_of(rest).dom().contains(entries.last().0@) {
                let i = choose|i: int| 0 <= i < rest.len() && rest[i].0@ == entries.last().0@;
                assert(entries[i].0@ == entries[entries.len() - 1].0@);
            }
        }
    }
}

} // verus!

verus! {

/// The empty name, given to the functions that have none.
pub fn no_name() -> (r: &'static [u8])
    ensures
        r@ == Seq::<u8>::empty(),
{
    let r: &'static [u8] = &[];
    assert(r@ =~= Seq::<u8>::empty());
    r
}

} // verus!
