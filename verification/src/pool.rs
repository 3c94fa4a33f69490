//! The pool of per-subnet connections.
//!
//! The pool maps a subnet identifier to the connection the agent opened for
//! it.  Entries are immutable once inserted; a configuration reload swaps
//! the whole pool at once, so a reader sees either the old mapping or the
//! new one, never a half-updated entry.

use vstd::prelude::*;

use crate::config::Subnet;
use crate::keyed::{keys_unique, lemma_lookup_present, lemma_lookup_push, lemma_lookup_remove,
    lemma_unique_push, lemma_unique_remove, lookup, Keyed};
use crate::subnet_id::SubnetIdentifier;

verus! {

/// One configured connection: the subnet record the connection was opened
/// for.  The node client itself is I/O and lives outside this crate; it is
/// keyed by the same identifier.
pub struct Connection {
    pub subnet: Subnet,
}

impl Keyed for Connection {
    open spec fn key(&self) -> Seq<Seq<char>> {
        self.subnet.id@
    }
}

impl Connection {
    /// The subnet record this connection serves.
    pub fn subnet(&self) -> (r: &Subnet)
        ensures
            r == &self.subnet,
    {
        &self.subnet
    }
}

/// The process-wide registry mapping subnet identifiers to connections.
pub struct SubnetManagerPool {
    entries: Vec<Connection>,
}

impl SubnetManagerPool {
    /// At most one connection per identifier.
    pub closed spec fn wf(&self) -> bool {
        keys_unique(self.entries@)
    }

    /// The connection held for an identifier, if any.
    pub closed spec fn spec_get(&self, k: Seq<Seq<char>>) -> Option<Connection> {
        lookup(self.entries@, k)
    }

    /// An empty pool.
    pub fn new() -> (r: SubnetManagerPool)
        ensures
            r.wf(),
            forall|k: Seq<Seq<char>>| r.spec_get(k) is None,
    {
        let r = SubnetManagerPool { entries: Vec::new() };
        proof {
            assert forall|k: Seq<Seq<char>>| r.spec_get(k) is None by {
                lemma_lookup_present(r.entries@, k);
            }
        }
        r
    }

    /// The connection for an identifier: `None` rather than an error when
    /// the subnet is not configured, so the caller decides how to report an
    /// unknown subnet.
    pub fn get(&self, id: &SubnetIdentifier) -> (r: Option<&Connection>)
        ensures
            r matches Some(c) ==> self.spec_get(id@) == Some(*c),
            r is None ==> self.spec_get(id@) is None,
    {
        let n = self.entries.len();
        proof {
            assert(self.entries@.subrange(0, n as int) =~= self.entries@);
        }
        let mut i: usize = 0;
        while i < n
            invariant
                n == self.entries@.len(),
                i <= n,
                lookup(self.entries@.subrange(i as int, n as int), id@) == lookup(
                    self.entries@,
                    id@,
                ),
            decreases n - i,
        {
            let ghost tail = self.entries@.subrange(i as int, n as int);
            if self.entries[i].subnet.id == *id {
                proof {
                    assert(tail[0] == self.entries@[i as int]);
                }
                return Some(&self.entries[i]);
            }
            proof {
                assert(tail[0] == self.entries@[i as int]);
                assert(tail.subrange(1, tail.len() as int) =~= self.entries@.subrange(
                    i + 1,
                    n as int,
                ));
            }
            i += 1;
        }
        proof {
            assert(self.entries@.subrange(n as int, n as int) =~= Seq::<Connection>::empty());
        }
        None
    }

    /// Inserts a connection, replacing any connection already held for the
    /// same identifier.
    pub fn insert(&mut self, conn: Connection)
        requires
            old(self).wf(),
        ensures
            final(self).wf(),
            forall|k: Seq<Seq<char>>|
                #[trigger] final(self).spec_get(k) == if k == conn.subnet.id@ {
                    Some(conn)
                } else {
                    old(self).spec_get(k)
                },
    {
        let ghost pre = self.entries@;
        match self.find(&conn.subnet.id) {
            Some(i) => {
                self.entries.remove(i);
                proof {
                    lemma_unique_remove(pre, i as int);
                    assert forall|k: Seq<Seq<char>>|
                        #[trigger] lookup(self.entries@, k) == if k == pre[i as int].subnet.id@ {
                            None::<Connection>
                        } else {
                            lookup(pre, k)
                        } by {
                        lemma_lookup_remove(pre, i as int, k);
                    }
                }
            },
            None => {
                proof {
                    lemma_lookup_present(pre, conn.subnet.id@);
                }
            },
        }
        let ghost mid = self.entries@;
        proof {
            lemma_lookup_present(mid, conn.subnet.id@);
            lemma_unique_push(mid, conn);
        }
        self.entries.push(conn);
        proof {
            assert forall|k: Seq<Seq<char>>|
                #[trigger] lookup(self.entries@, k) == if k == conn.subnet.id@ {
                    Some(conn)
                } else {
                    lookup(pre, k)
                } by {
                lemma_lookup_push(mid, conn, k);
                if k != conn.subnet.id@ {
                    lemma_lookup_present(mid, k);
                }
            }
        }
    }

    /// Replaces the whole mapping at once: readers of the old pool keep the
    /// view they resolved, and nobody observes a half-updated pool.
    pub fn reload(&mut self, fresh: SubnetManagerPool)
        ensures
            *final(self) == fresh,
            forall|k: Seq<Seq<char>>| #[trigger] final(self).spec_get(k) == fresh.spec_get(k),
    {
        *self = fresh;
    }

    /// The index of the connection for `id`, if any.
    fn find(&self, id: &SubnetIdentifier) -> (r: Option<usize>)
        ensures
            r matches Some(i) ==> i < self.entries@.len() && self.entries@[i as int].subnet.id@
                == id@,
            r is None ==> forall|j: int|
                0 <= j < self.entries@.len() ==> (#[trigger] self.entries@[j]).subnet.id@ != id@,
    {
        let mut i: usize = 0;
        while i < self.entries.len()
            invariant
                i <= self.entries@.len(),
                forall|j: int| 0 <= j < i ==> (#[trigger] self.entries@[j]).subnet.id@ != id@,
            decreases self.entries@.len() - i,
        {
            if self.entries[i].subnet.id == *id {
                return Some(i);
            }
            i += 1;
        }
        None
    }
}

} // verus!
