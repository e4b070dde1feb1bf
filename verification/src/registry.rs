//! The identity registry: each client's verifying-key bytes, indexed by
//! client identifier.  Loaded once at startup and read-only afterwards.
//!
//! Client ids are 1-based: id `i` owns the key at index `i - 1`; an id of
//! zero or one past the end is unknown, never an out-of-bounds access.

use vstd::prelude::*;

verus! {

/// The key a registry holds for a client id, `None` for out-of-range ids.
pub open spec fn spec_lookup(reg: Seq<Seq<u8>>, id: int) -> Option<Seq<u8>> {
    if 1 <= id && id <= reg.len() {
        Some(reg[id - 1])
    } else {
        None
    }
}

/// Verifying keys by client id.
pub struct Registry {
    keys: Vec<Vec<u8>>,
}

impl View for Registry {
    type V = Seq<Seq<u8>>;

    closed spec fn view(&self) -> Seq<Seq<u8>> {
        self.keys.deep_view()
    }
}

impl Registry {
    /// Every registered key is a 32-byte Ed25519 verifying key.
    pub open spec fn wf(self) -> bool {
        forall|i: int| 0 <= i < self@.len() ==> (#[trigger] self@[i]).len() == 32
    }

    /// An empty registry, to be filled at startup.
    pub fn new() -> (r: Self)
        ensures
            r@ == Seq::<Seq<u8>>::empty(),
            r.wf(),
    {
        let r = Registry { keys: Vec::new() };
        proof {
            assert(r@ =~= Seq::<Seq<u8>>::empty());
        }
        r
    }

    /// Register the key of the next client id (one past the current
    /// largest).
    pub fn add_key(&mut self, key: Vec<u8>)
        requires
            old(self).wf(),
            key@.len() == 32,
        ensures
            final(self).wf(),
            final(self)@ == old(self)@.push(key@),
    {
        self.keys.push(key);
        proof {
            assert(self@ =~~= old(self)@.push(key@));
        }
    }

    /// How many clients are registered.
    pub fn len(&self) -> (n: usize)
        ensures
            n == self@.len(),
    {
        self.keys.len()
    }

    /// Look a client id up: its key, or `None` for an id without an entry
    /// (zero, or beyond the registered range).
    pub fn lookup(&self, client_id: u64) -> (r: Option<&Vec<u8>>)
        ensures
            r is Some <==> spec_lookup(self@, client_id as int) is Some,
            r matches Some(k) ==> spec_lookup(self@, client_id as int) == Some(k@),
    {
        if client_id >= 1 && client_id <= self.keys.len() as u64 {
            Some(&self.keys[(client_id - 1) as usize])
        } else {
            None
        }
    }
}

} // verus!
