//! The tracepoint registry: normalized names with their enable flags.
//!
//! The engine owns the mapping; every name it stores is in normalized form
//! and occurs once. A collector toggles flags through protocol commands;
//! closing the connection forces every flag back to false.

use vstd::prelude::*;

use crate::codec;
use crate::names;

verus! {

/// One registry row as specifications see it: the normalized name and the
/// current enable flag.
pub type RegEntry = (Seq<u8>, bool);

/// Whether the registry view holds `n`.
pub open spec fn reg_contains(r: Seq<RegEntry>, n: Seq<u8>) -> bool {
    exists|i: int| 0 <= i < r.len() && r[i].0 == n
}

/// Whether the registry view holds `n` with its flag set.
pub open spec fn reg_enabled(r: Seq<RegEntry>, n: Seq<u8>) -> bool {
    exists|i: int| 0 <= i < r.len() && r[i].0 == n && r[i].1
}

/// The registry view after setting `n`'s flag to `v`; unknown names leave
/// it unchanged.
pub open spec fn reg_set(r: Seq<RegEntry>, n: Seq<u8>, v: bool) -> Seq<RegEntry> {
    r.map_values(
        |e: RegEntry|
            if e.0 == n {
                (e.0, v)
            } else {
                e
            },
    )
}

/// The registry view with every flag cleared.
pub open spec fn reg_all_off(r: Seq<RegEntry>) -> Seq<RegEntry> {
    r.map_values(|e: RegEntry| (e.0, false))
}

/// Every flag of the view is false.
pub open spec fn reg_none_enabled(r: Seq<RegEntry>) -> bool {
    forall|i: int| 0 <= i < r.len() ==> !r[i].1
}

/// The tracepoint-list reply body: for each registered name in insertion
/// order, its 2-byte length and its bytes.
pub open spec fn list_body_bytes(r: Seq<RegEntry>) -> Seq<u8>
    decreases r.len(),
{
    if r.len() == 0 {
        Seq::empty()
    } else {
        list_body_bytes(r.drop_last()) + codec::u16_be(r.last().0.len() as u16) + r.last().0
    }
}

/// The registry: names and flags kept in parallel, indexed alike.
pub struct Registry {
    names: Vec<Vec<u8>>,
    flags: Vec<bool>,
}

impl View for Registry {
    type V = Seq<RegEntry>;

    closed spec fn view(&self) -> Seq<RegEntry> {
        Seq::new(self.names@.len(), |i: int| (self.names@[i]@, self.flags@[i]))
    }
}

impl Registry {
    /// The two columns line up.
    pub closed spec fn cols_ok(&self) -> bool {
        self.names@.len() == self.flags@.len()
    }

    /// Internal consistency: the two columns line up, every stored name is
    /// normalized, and no name occurs twice.
    pub open spec fn wf(&self) -> bool {
        &&& self.cols_ok()
        &&& forall|i: int| 0 <= i < self@.len() ==> names::is_normal_name(#[trigger] self@[i].0)
        &&& forall|i: int, j: int| 0 <= i < j < self@.len() ==> self@[i].0 != self@[j].0
    }

    /// An empty registry.
    pub fn new() -> (r: Registry)
        ensures
            r.wf(),
            r@ == Seq::<RegEntry>::empty(),
    {
        let r = Registry { names: Vec::new(), flags: Vec::new() };
        proof {
            assert(r@ =~= Seq::<RegEntry>::empty());
        }
        r
    }

    /// Index of `name` in the registry, if present.
    fn find(&self, name: &Vec<u8>) -> (r: Option<usize>)
        requires
            self.wf(),
        ensures
            match r {
                Some(i) => i < self@.len() && self@[i as int].0 == name@,
                None => !reg_contains(self@, name@),
            },
    {
        let n = self.names.len();
        let mut i: usize = 0;
        while i < n
            invariant
                i <= n,
                n == self.names@.len(),
                self.wf(),
                forall|j: int| 0 <= j < i ==> self@[j].0 != name@,
            decreases n - i,
        {
            if bytes_eq(&self.names[i], name) {
                return Some(i);
            }
            i = i + 1;
        }
        None
    }

    /// Whether `name` is registered.
    pub fn contains(&self, name: &Vec<u8>) -> (r: bool)
        requires
            self.wf(),
        ensures
            r == reg_contains(self@, name@),
    {
        match self.find(name) {
            Some(_) => true,
            None => false,
        }
    }

    /// Inserts a fresh normalized name with its flag down.
    pub fn insert(&mut self, name: Vec<u8>)
        requires
            old(self).wf(),
            names::is_normal_name(name@),
            !reg_contains(old(self)@, name@),
        ensures
            final(self).wf(),
            final(self)@ == old(self)@.push((name@, false)),
    {
        let ghost prev = self@;
        self.names.push(name);
        self.flags.push(false);
        proof {
            assert(self@ =~= prev.push((name@, false)));
        }
    }

    /// Current flag of `name`; unknown names read as disabled.
    pub fn is_enabled(&self, name: &Vec<u8>) -> (r: bool)
        requires
            self.wf(),
        ensures
            r == reg_enabled(self@, name@),
    {
        match self.find(name) {
            Some(i) => {
                let r = self.flags[i];
                proof {
                    if r {
                        assert(reg_enabled(self@, name@));
                    } else {
                        if reg_enabled(self@, name@) {
                            let j = choose|j: int|
                                0 <= j < self@.len() && self@[j].0 == name@ && self@[j].1;
                            assert(j == i as int);
                        }
                    }
                }
                r
            },
            None => {
                proof {
                    if reg_enabled(self@, name@) {
                        let j = choose|j: int|
                            0 <= j < self@.len() && self@[j].0 == name@ && self@[j].1;
                        assert(reg_contains(self@, name@));
                    }
                }
                false
            },
        }
    }

    /// Sets the flag of `name` to `state`; unknown names are ignored.
    pub fn set_enabled(&mut self, name: &Vec<u8>, state: bool)
        requires
            old(self).wf(),
        ensures
            final(self).wf(),
            final(self)@ == reg_set(old(self)@, name@, state),
    {
        let ghost prev = self@;
        match self.find(name) {
            Some(i) => {
                self.flags.set(i, state);
                proof {
                    assert(self@ =~= reg_set(prev, name@, state)) by {
                        assert forall|j: int| 0 <= j < self@.len() implies self@[j] == reg_set(
                            prev,
                            name@,
                            state,
                        )[j] by {
                            if j != i as int {
                                assert(prev[j].0 != name@);
                            }
                        }
                    }
                }
            },
            None => {
                proof {
                    assert(self@ =~= reg_set(prev, name@, state)) by {
                        assert forall|j: int| 0 <= j < self@.len() implies self@[j] == reg_set(
                            prev,
                            name@,
                            state,
                        )[j] by {
                            assert(prev[j].0 != name@);
                        }
                    }
                }
            },
        }
    }

    /// Clears every flag. Invoked when the collector connection closes.
    pub fn disable_all(&mut self)
        requires
            old(self).wf(),
        ensures
            final(self).wf(),
            final(self)@ == reg_all_off(old(self)@),
            reg_none_enabled(final(self)@),
    {
        let ghost prev = self@;
        let n = self.flags.len();
        let mut i: usize = 0;
        while i < n
            invariant
                i <= n,
                n == self.flags@.len(),
                self.names@ == old(self).names@,
                self.flags@.len() == old(self).flags@.len(),
                forall|j: int| 0 <= j < i ==> !self.flags@[j],
                forall|j: int| i <= j < n ==> self.flags@[j] == old(self).flags@[j],
            decreases n - i,
        {
            self.flags.set(i, false);
            i = i + 1;
        }
        proof {
            assert(self@ =~= reg_all_off(prev));
        }
    }

    /// Encodes the tracepoint-list reply body over the registered names.
    pub fn encode_list_body(&self) -> (r: Vec<u8>)
        requires
            self.wf(),
        ensures
            r@ == list_body_bytes(self@),
    {
        let n = self.names.len();
        let mut r: Vec<u8> = Vec::new();
        let mut i: usize = 0;
        proof {
            assert(self@.take(0) =~= Seq::<RegEntry>::empty());
        }
        while i < n
            invariant
                i <= n,
                n == self.names@.len(),
                self.wf(),
                r@ == list_body_bytes(self@.take(i as int)),
            decreases n - i,
        {
            let name = &self.names[i];
            proof {
                assert(names::is_normal_name(self@[i as int].0));
                assert(self@[i as int].0 == name@);
            }
            codec::push_u16_be(&mut r, name.len() as u16);
            codec::push_bytes(&mut r, name);
            i = i + 1;
            proof {
                let t = self@.take(i as int);
                assert(t.drop_last() =~= self@.take(i as int - 1));
                assert(t.last() == self@[i as int - 1]);
                assert(r@ =~= list_body_bytes(self@.take(i as int)));
            }
        }
        proof {
            assert(self@.take(n as int) =~= self@);
        }
        r
    }
}

/// Byte-for-byte equality of two vectors.
pub fn bytes_eq(a: &Vec<u8>, b: &Vec<u8>) -> (r: bool)
    ensures
        r == (a@ == b@),
{
    let n = a.len();
    if n != b.len() {
        return false;
    }
    let mut i: usize = 0;
    while i < n
        invariant
            i <= n,
            n == a@.len() == b@.len(),
            forall|j: int| 0 <= j < i ==> a@[j] == b@[j],
        decreases n - i,
    {
        if a[i] != b[i] {
            return false;
        }
        i = i + 1;
    }
    proof {
        assert(a@ =~= b@);
    }
    true
}

} // verus!
