//! The agent's configuration: which subnets it serves and how.
//!
//! The configuration arrives as an already-parsed collection of subnet
//! records; reading and writing the file format is not this crate's
//! business.  Here live the records themselves and the map from identifier
//! to record, held as a vector with pairwise distinct identifiers.

use vstd::prelude::*;

use fvm_shared::address::Address;

use crate::keyed::{keys_unique, lemma_lookup_present, lemma_lookup_push, lemma_lookup_remove,
    lemma_unique_push, lemma_unique_remove, lookup, Keyed};
use crate::subnet_id::SubnetIdentifier;

verus! {

/// The server section: where the agent's own JSON-RPC endpoint binds.
pub struct Server {
    pub json_rpc_address: String,
}

/// Connection details of a subnet whose node runs the native chain runtime.
/// Operations against it need an auth token.
pub struct FvmConfig {
    pub gateway_addr: Address,
    pub jsonrpc_api_http: String,
    pub auth_token: Option<String>,
    pub accounts: Vec<Address>,
}

/// Connection details of a subnet served by an EVM-compatible node.
pub struct FevmConfig {
    pub gateway_addr: Address,
    pub registry_addr: Address,
    pub provider_http: String,
    pub accounts: Vec<Address>,
}

/// The runtime variant of a subnet's node.
pub enum SubnetConfig {
    Fvm(FvmConfig),
    Fevm(FevmConfig),
}

/// One configured subnet: its identifier, a human-readable network name and
/// the variant configuration.
pub struct Subnet {
    pub id: SubnetIdentifier,
    pub network_name: String,
    pub config: SubnetConfig,
}

impl Keyed for Subnet {
    open spec fn key(&self) -> Seq<Seq<char>> {
        self.id@
    }
}

impl Subnet {
    /// The accounts usable as default transaction senders.
    pub open spec fn spec_accounts(&self) -> Seq<Address> {
        match self.config {
            SubnetConfig::Fvm(c) => c.accounts@,
            SubnetConfig::Fevm(c) => c.accounts@,
        }
    }

    /// The accounts usable as default transaction senders.
    pub fn accounts(&self) -> (r: &Vec<Address>)
        ensures
            r@ == self.spec_accounts(),
    {
        match &self.config {
            SubnetConfig::Fvm(c) => &c.accounts,
            SubnetConfig::Fevm(c) => &c.accounts,
        }
    }

    /// The gateway actor coordinating cross-subnet transfers on this subnet.
    pub open spec fn spec_gateway_addr(&self) -> Address {
        match self.config {
            SubnetConfig::Fvm(c) => c.gateway_addr,
            SubnetConfig::Fevm(c) => c.gateway_addr,
        }
    }

    /// The gateway actor coordinating cross-subnet transfers on this subnet.
    pub fn gateway_addr(&self) -> (r: Address)
        ensures
            r == self.spec_gateway_addr(),
    {
        match &self.config {
            SubnetConfig::Fvm(c) => c.gateway_addr,
            SubnetConfig::Fevm(c) => c.gateway_addr,
        }
    }

    /// A subnet is ready for operations when a native-chain node has its
    /// auth token; an EVM-compatible node needs nothing further.
    pub open spec fn ready(&self) -> bool {
        match self.config {
            SubnetConfig::Fvm(c) => c.auth_token is Some,
            SubnetConfig::Fevm(_) => true,
        }
    }
}

/// The top-level configuration record: the server section and the
/// configured subnets, at most one per identifier.
pub struct Config {
    server: Server,
    subnets: Vec<Subnet>,
}

impl Config {
    /// At most one record per identifier.
    pub closed spec fn wf(&self) -> bool {
        keys_unique(self.subnets@)
    }

    /// The record configured for an identifier, if any.
    pub closed spec fn spec_get(&self, k: Seq<Seq<char>>) -> Option<Subnet> {
        lookup(self.subnets@, k)
    }

    /// The configured subnet records, in insertion order.
    pub closed spec fn spec_subnets(&self) -> Seq<Subnet> {
        self.subnets@
    }

    /// The server section.
    pub closed spec fn spec_server(&self) -> Server {
        self.server
    }

    /// The server section.
    pub fn server(&self) -> (r: &Server)
        ensures
            *r == self.spec_server(),
    {
        &self.server
    }

    /// An empty configuration.
    pub fn new(server: Server) -> (r: Config)
        ensures
            r.wf(),
            forall|k: Seq<Seq<char>>| r.spec_get(k) is None,
            r.spec_server() == server,
    {
        let r = Config { server, subnets: Vec::new() };
        proof {
            assert forall|k: Seq<Seq<char>>| r.spec_get(k) is None by {
                lemma_lookup_present(r.subnets@, k);
            }
        }
        r
    }

    /// The configured subnets, in no promised order.
    pub fn subnets(&self) -> (r: &Vec<Subnet>)
        ensures
            r@ == self.spec_subnets(),
            forall|i: int|
                0 <= i < r@.len() ==> self.spec_get((#[trigger] r@[i]).id@) is Some,
    {
        proof {
            assert forall|i: int|
                0 <= i < self.subnets@.len() implies self.spec_get(
                (#[trigger] self.subnets@[i]).id@,
            ) is Some by {
                lemma_lookup_present(self.subnets@, self.subnets@[i].id@);
            }
        }
        &self.subnets
    }

    /// The index of the record for `id`, if any.
    fn find(&self, id: &SubnetIdentifier) -> (r: Option<usize>)
        ensures
            r matches Some(i) ==> i < self.subnets@.len() && self.subnets@[i as int].id@ == id@,
            r is None ==> forall|j: int|
                0 <= j < self.subnets@.len() ==> (#[trigger] self.subnets@[j]).id@ != id@,
    {
        let mut i: usize = 0;
        while i < self.subnets.len()
            invariant
                i <= self.subnets@.len(),
                forall|j: int| 0 <= j < i ==> (#[trigger] self.subnets@[j]).id@ != id@,
            decreases self.subnets@.len() - i,
        {
            if self.subnets[i].id == *id {
                return Some(i);
            }
            i += 1;
        }
        None
    }

    /// Adds a subnet, replacing any record already configured for the same
    /// identifier.
    pub fn add_subnet(&mut self, subnet: Subnet)
        requires
            old(self).wf(),
        ensures
            final(self).wf(),
            final(self).spec_server() == old(self).spec_server(),
            forall|k: Seq<Seq<char>>|
                #[trigger] final(self).spec_get(k) == if k == subnet.id@ {
                    Some(subnet)
                } else {
                    old(self).spec_get(k)
                },
    {
        let ghost pre = self.subnets@;
        match self.find(&subnet.id) {
            Some(i) => {
                self.subnets.remove(i);
                proof {
                    lemma_unique_remove(pre, i as int);
                    assert forall|k: Seq<Seq<char>>|
                        #[trigger] lookup(self.subnets@, k) == if k == pre[i as int].id@ {
                            None::<Subnet>
                        } else {
                            lookup(pre, k)
                        } by {
                        lemma_lookup_remove(pre, i as int, k);
                    }
                }
            },
            None => {
                proof {
                    lemma_lookup_present(pre, subnet.id@);
                }
            },
        }
        let ghost mid = self.subnets@;
        proof {
            lemma_lookup_present(mid, subnet.id@);
            lemma_unique_push(mid, subnet);
        }
        self.subnets.push(subnet);
        proof {
            assert forall|k: Seq<Seq<char>>|
                #[trigger] lookup(self.subnets@, k) == if k == subnet.id@ {
                    Some(subnet)
                } else {
                    lookup(pre, k)
                } by {
                lemma_lookup_push(mid, subnet, k);
                if k != subnet.id@ {
                    lemma_lookup_present(mid, k);
                }
            }
        }
    }

    /// Removes the record configured for an identifier, if any.
    pub fn remove_subnet(&mut self, subnet_id: &SubnetIdentifier)
        requires
            old(self).wf(),
        ensures
            final(self).wf(),
            final(self).spec_server() == old(self).spec_server(),
            forall|k: Seq<Seq<char>>|
                #[trigger] final(self).spec_get(k) == if k == subnet_id@ {
                    None::<Subnet>
                } else {
                    old(self).spec_get(k)
                },
    {
        let ghost pre = self.subnets@;
        match self.find(subnet_id) {
            Some(i) => {
                self.subnets.remove(i);
                proof {
                    lemma_unique_remove(pre, i as int);
                    assert forall|k: Seq<Seq<char>>|
                        #[trigger] lookup(self.subnets@, k) == if k == subnet_id@ {
                            None::<Subnet>
                        } else {
                            lookup(pre, k)
                        } by {
                        lemma_lookup_remove(pre, i as int, k);
                        if k != subnet_id@ && pre[i as int].id@ == k {
                            assert(false);
                        }
                    }
                }
            },
            None => {
                proof {
                    lemma_lookup_present(pre, subnet_id@);
                }
            },
        }
    }
}

} // verus!
