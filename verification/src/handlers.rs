//! The request dispatch layer.
//!
//! Every inbound operation names a target subnet.  Before any node is
//! contacted the dispatcher parses the identifier, resolves the connection
//! from the pool — the parent's for parent-scoped operations such as fund —
//! checks the subnet's readiness, resolves default addresses, and converts
//! the decimal amount into atto units.  What comes out is an instruction: a
//! plain record the node client outside this crate executes.

use std::sync::Arc;

use vstd::prelude::*;

use fvm_shared::address::Address;

use crate::addr::parse_address;
use crate::amount::{fil_to_atto, spec_fil_atto};
use crate::checkpoint::Direction;
use crate::config::{Subnet, SubnetConfig};
use crate::error::Error;
use crate::pool::SubnetManagerPool;
use crate::subnet_id::{id_wf, lemma_render_injective, lemma_render_path_wf, path_wf, render,
    SubnetIdentifier};

verus! {

/// The parameters of a fund request: move value from an account on the
/// parent into `subnet`.  Addresses default to the subnet's configuration;
/// the amount is whole FIL as a decimal numeral.
pub struct FundParams {
    pub subnet: String,
    pub from: Option<String>,
    pub to: Option<String>,
    pub amount: String,
}

/// A validated fund operation, ready for the parent's node client: which
/// gateway to call, who pays, who receives, and how many atto units.
pub struct FundInstruction {
    pub parent: SubnetIdentifier,
    pub subnet: SubnetIdentifier,
    pub gateway_addr: Address,
    pub from: Address,
    pub to: Address,
    pub amount_atto: u128,
}

/// Checks that a subnet is ready for operations: a native-chain subnet
/// without its auth token is a configuration fault, reported only as a
/// generic internal error so the caller learns nothing about the secret.
pub fn check_subnet(subnet: &Subnet) -> (r: Result<(), Error>)
    ensures
        r is Ok <==> subnet.ready(),
        r matches Err(e) ==> e == Error::Internal,
{
    match &subnet.config {
        SubnetConfig::Fvm(c) => {
            if c.auth_token.is_none() {
                Err(Error::Internal)
            } else {
                Ok(())
            }
        },
        SubnetConfig::Fevm(_) => Ok(()),
    }
}

/// Resolves the sending address: the caller's, when given; otherwise the
/// subnet's first configured account, and a configuration error when there
/// is none.
pub fn parse_from(subnet: &Subnet, from: Option<String>) -> (r: Result<Address, Error>)
    ensures
        from is None && subnet.spec_accounts().len() == 0 ==> (r matches Err(e) && e
            == Error::NoAccountConfigured),
        from is None && subnet.spec_accounts().len() > 0 ==> (r matches Ok(a) && a
            == subnet.spec_accounts()[0]),
        from is Some ==> r is Ok || (r matches Err(e) && e == Error::InvalidAddress),
{
    match from {
        Some(s) => parse_address(s.as_str()),
        None => {
            let accts = subnet.accounts();
            if accts.len() == 0 {
                Err(Error::NoAccountConfigured)
            } else {
                Ok(accts[0])
            }
        },
    }
}

/// The fund method handler.
pub struct FundHandler {
    pool: Arc<SubnetManagerPool>,
}

impl FundHandler {
    /// The pool this handler resolves subnets from.
    pub closed spec fn spec_pool(&self) -> SubnetManagerPool {
        *self.pool
    }

    /// A handler over the given pool.
    pub fn new(pool: Arc<SubnetManagerPool>) -> (r: FundHandler)
        ensures
            r.spec_pool() == *pool,
    {
        FundHandler { pool }
    }

    /// Validates a fund request and builds the instruction for the parent's
    /// node client.  Everything here runs before any node is contacted; in
    /// particular an identifier with no parent fails with `NoParent` first.
    pub fn handle(&self, request: FundParams) -> (r: Result<FundInstruction, Error>)
        ensures
            !path_wf(request.subnet@) <==> (r matches Err(e) && e == Error::MalformedIdentifier),
            forall|segs: Seq<Seq<char>>|
                id_wf(segs) && render(segs) == request.subnet@ && segs.len() == 1 ==> (r matches Err(
                    e,
                ) && e == Error::NoParent),
            forall|segs: Seq<Seq<char>>|
                id_wf(segs) && render(segs) == request.subnet@ && segs.len() > 1
                    && self.spec_pool().spec_get(segs.drop_last()) is None ==> (r matches Err(e)
                    && e == Error::UnknownSubnet),
            forall|segs: Seq<Seq<char>>|
                id_wf(segs) && render(segs) == request.subnet@ && segs.len() > 1 && (
                self.spec_pool().spec_get(segs.drop_last()) matches Some(c)
                    && !c.subnet.ready()) ==> (r matches Err(e) && e == Error::Internal),
            forall|segs: Seq<Seq<char>>|
                id_wf(segs) && render(segs) == request.subnet@ && segs.len() > 1 && (
                self.spec_pool().spec_get(segs.drop_last()) matches Some(c) && c.subnet.ready()
                    && request.from is None && c.subnet.spec_accounts().len() == 0) ==> (
                r matches Err(e) && e == Error::NoAccountConfigured),
            forall|segs: Seq<Seq<char>>|
                id_wf(segs) && render(segs) == request.subnet@ && segs.len() > 1 && (
                self.spec_pool().spec_get(segs.drop_last()) matches Some(c) && c.subnet.ready()
                    && request.from is None && c.subnet.spec_accounts().len() > 0 && request.to
                    is None && spec_fil_atto(request.amount@) is None) ==> (r matches Err(e) && e
                    == Error::InvalidAmount),
            // Success is owed where nothing outside this crate decides: a
            // well-formed child of a configured, ready parent, defaults in
            // play and a representable amount.
            forall|segs: Seq<Seq<char>>|
                id_wf(segs) && render(segs) == request.subnet@ && segs.len() > 1 && (
                self.spec_pool().spec_get(segs.drop_last()) matches Some(c) && c.subnet.ready()
                    && request.from is None && c.subnet.spec_accounts().len() > 0 && request.to
                    is None && spec_fil_atto(request.amount@) is Some) ==> r is Ok,
            // With caller-given addresses only the address parser decides:
            // every other failure is excluded.
            forall|segs: Seq<Seq<char>>|
                id_wf(segs) && render(segs) == request.subnet@ && segs.len() > 1 && (
                self.spec_pool().spec_get(segs.drop_last()) matches Some(c) && c.subnet.ready()
                    && (request.from is None ==> c.subnet.spec_accounts().len() > 0)
                    && spec_fil_atto(request.amount@) is Some) ==> (r is Ok || (r matches Err(e)
                    && e == Error::InvalidAddress)),
            forall|segs: Seq<Seq<char>>|
                id_wf(segs) && render(segs) == request.subnet@ && segs.len() > 1 && (
                self.spec_pool().spec_get(segs.drop_last()) matches Some(c) && c.subnet.ready()
                    && (request.from is None ==> c.subnet.spec_accounts().len() > 0)) ==> (
                r is Ok || (r matches Err(e) && (e == Error::InvalidAddress || e
                    == Error::InvalidAmount))),
            r matches Ok(ins) ==> id_wf(ins.subnet@) && render(ins.subnet@) == request.subnet@
                && ins.subnet@.len() > 1 && ins.parent@ == ins.subnet@.drop_last() && (
            self.spec_pool().spec_get(ins.parent@) matches Some(c) && c.subnet.ready()
                && ins.gateway_addr == c.subnet.spec_gateway_addr() && (request.from is None
                ==> c.subnet.spec_accounts().len() > 0 && ins.from
                == c.subnet.spec_accounts()[0]) && (request.to is None ==> ins.to == ins.from)
                && spec_fil_atto(request.amount@) == Some(ins.amount_atto as int)),
    {
        let id = match SubnetIdentifier::parse(request.subnet.as_str()) {
            Ok(id) => id,
            Err(e) => {
                proof {
                    assert forall|segs: Seq<Seq<char>>|
                        !(id_wf(segs) && render(segs) == request.subnet@) by {
                        if id_wf(segs) && render(segs) == request.subnet@ {
                            lemma_render_path_wf(segs);
                        }
                    }
                }
                return Err(e);
            },
        };
        proof {
            lemma_render_path_wf(id@);
            assert forall|segs: Seq<Seq<char>>|
                id_wf(segs) && render(segs) == request.subnet@ implies segs == id@ by {
                lemma_render_injective(segs, id@);
            }
        }
        let parent = match id.parent() {
            Some(p) => p,
            None => {
                return Err(Error::NoParent);
            },
        };
        let conn = match self.pool.get(&parent) {
            Some(c) => c,
            None => {
                return Err(Error::UnknownSubnet);
            },
        };
        let subnet_config = conn.subnet();
        match check_subnet(subnet_config) {
            Ok(_) => {},
            Err(e) => {
                return Err(e);
            },
        }
        let from = match parse_from(subnet_config, request.from) {
            Ok(a) => a,
            Err(e) => {
                return Err(e);
            },
        };
        let to = match request.to {
            Some(t) => {
                match parse_address(t.as_str()) {
                    Ok(a) => a,
                    Err(e) => {
                        return Err(e);
                    },
                }
            },
            None => from,
        };
        let amount_atto = match fil_to_atto(request.amount.as_str()) {
            Ok(v) => v,
            Err(e) => {
                return Err(e);
            },
        };
        let gateway_addr = subnet_config.gateway_addr();
        Ok(
            FundInstruction {
                parent,
                subnet: id,
                gateway_addr,
                from,
                to,
                amount_atto,
            },
        )
    }
}

/// The parameters of a release request: move value from an account on the
/// child subnet back up to its parent.
pub struct ReleaseParams {
    pub subnet: String,
    pub from: Option<String>,
    pub to: Option<String>,
    pub amount: String,
}

/// A validated release operation, ready for the child's node client: value
/// leaves through the child's own gateway, towards the parent.
pub struct ReleaseInstruction {
    pub subnet: SubnetIdentifier,
    pub parent: SubnetIdentifier,
    pub gateway_addr: Address,
    pub from: Address,
    pub to: Address,
    pub amount_atto: u128,
}

/// The release method handler.
pub struct ReleaseHandler {
    pool: Arc<SubnetManagerPool>,
}

impl ReleaseHandler {
    /// The pool this handler resolves subnets from.
    pub closed spec fn spec_pool(&self) -> SubnetManagerPool {
        *self.pool
    }

    /// A handler over the given pool.
    pub fn new(pool: Arc<SubnetManagerPool>) -> (r: ReleaseHandler)
        ensures
            r.spec_pool() == *pool,
    {
        ReleaseHandler { pool }
    }

    /// Validates a release request and builds the instruction for the
    /// child's own node client.  Value moves logically upward, so the
    /// connection resolved is the named subnet's, not its parent's — but
    /// the root still has nowhere to release to and fails with `NoParent`.
    pub fn handle(&self, request: ReleaseParams) -> (r: Result<ReleaseInstruction, Error>)
        ensures
            !path_wf(request.subnet@) <==> (r matches Err(e) && e == Error::MalformedIdentifier),
            forall|segs: Seq<Seq<char>>|
                id_wf(segs) && render(segs) == request.subnet@ && segs.len() == 1 ==> (r matches Err(
                    e,
                ) && e == Error::NoParent),
            forall|segs: Seq<Seq<char>>|
                id_wf(segs) && render(segs) == request.subnet@ && segs.len() > 1
                    && self.spec_pool().spec_get(segs) is None ==> (r matches Err(e) && e
                    == Error::UnknownSubnet),
            forall|segs: Seq<Seq<char>>|
                id_wf(segs) && render(segs) == request.subnet@ && segs.len() > 1 && (
                self.spec_pool().spec_get(segs) matches Some(c) && !c.subnet.ready()) ==> (
                r matches Err(e) && e == Error::Internal),
            // As for fund: success is owed where nothing outside this crate
            // decides, and with caller-given addresses only the address
            // parser may refuse.
            forall|segs: Seq<Seq<char>>|
                id_wf(segs) && render(segs) == request.subnet@ && segs.len() > 1 && (
                self.spec_pool().spec_get(segs) matches Some(c) && c.subnet.ready()
                    && request.from is None && c.subnet.spec_accounts().len() > 0 && request.to
                    is None && spec_fil_atto(request.amount@) is Some) ==> r is Ok,
            forall|segs: Seq<Seq<char>>|
                id_wf(segs) && render(segs) == request.subnet@ && segs.len() > 1 && (
                self.spec_pool().spec_get(segs) matches Some(c) && c.subnet.ready() && (
                request.from is None ==> c.subnet.spec_accounts().len() > 0) && spec_fil_atto(
                    request.amount@,
                ) is Some) ==> (r is Ok || (r matches Err(e) && e == Error::InvalidAddress)),
            forall|segs: Seq<Seq<char>>|
                id_wf(segs) && render(segs) == request.subnet@ && segs.len() > 1 && (
                self.spec_pool().spec_get(segs) matches Some(c) && c.subnet.ready() && (
                request.from is None ==> c.subnet.spec_accounts().len() > 0)) ==> (r is Ok || (
                r matches Err(e) && (e == Error::InvalidAddress || e == Error::InvalidAmount))),
            r matches Ok(ins) ==> id_wf(ins.subnet@) && render(ins.subnet@) == request.subnet@
                && ins.subnet@.len() > 1 && ins.parent@ == ins.subnet@.drop_last() && (
            self.spec_pool().spec_get(ins.subnet@) matches Some(c) && c.subnet.ready()
                && ins.gateway_addr == c.subnet.spec_gateway_addr() && (request.from is None
                ==> c.subnet.spec_accounts().len() > 0 && ins.from
                == c.subnet.spec_accounts()[0]) && (request.to is None ==> ins.to == ins.from)
                && spec_fil_atto(request.amount@) == Some(ins.amount_atto as int)),
    {
        let id = match SubnetIdentifier::parse(request.subnet.as_str()) {
            Ok(id) => id,
            Err(e) => {
                proof {
                    assert forall|segs: Seq<Seq<char>>|
                        !(id_wf(segs) && render(segs) == request.subnet@) by {
                        if id_wf(segs) && render(segs) == request.subnet@ {
                            lemma_render_path_wf(segs);
                        }
                    }
                }
                return Err(e);
            },
        };
        proof {
            lemma_render_path_wf(id@);
            assert forall|segs: Seq<Seq<char>>|
                id_wf(segs) && render(segs) == request.subnet@ implies segs == id@ by {
                lemma_render_injective(segs, id@);
            }
        }
        let parent = match id.parent() {
            Some(p) => p,
            None => {
                return Err(Error::NoParent);
            },
        };
        let conn = match self.pool.get(&id) {
            Some(c) => c,
            None => {
                return Err(Error::UnknownSubnet);
            },
        };
        let subnet_config = conn.subnet();
        match check_subnet(subnet_config) {
            Ok(_) => {},
            Err(e) => {
                return Err(e);
            },
        }
        let from = match parse_from(subnet_config, request.from) {
            Ok(a) => a,
            Err(e) => {
                return Err(e);
            },
        };
        let to = match request.to {
            Some(t) => {
                match parse_address(t.as_str()) {
                    Ok(a) => a,
                    Err(e) => {
                        return Err(e);
                    },
                }
            },
            None => from,
        };
        let amount_atto = match fil_to_atto(request.amount.as_str()) {
            Ok(v) => v,
            Err(e) => {
                return Err(e);
            },
        };
        let gateway_addr = subnet_config.gateway_addr();
        Ok(
            ReleaseInstruction {
                subnet: id,
                parent,
                gateway_addr,
                from,
                to,
                amount_atto,
            },
        )
    }
}

/// The parameters of a list-checkpoints request.
pub struct ListCheckpointsParams {
    pub subnet: String,
    pub from_epoch: i64,
    pub to_epoch: i64,
}

/// A validated list-checkpoints query: the child's checkpoints are kept by
/// the subnet actor on the parent, so the parent's node answers it.
pub struct ListCheckpointsInstruction {
    pub subnet: SubnetIdentifier,
    pub parent: SubnetIdentifier,
    pub from_epoch: i64,
    pub to_epoch: i64,
}

/// The list-checkpoints method handler.
pub struct ListCheckpointsHandler {
    pool: Arc<SubnetManagerPool>,
}

impl ListCheckpointsHandler {
    /// The pool this handler resolves subnets from.
    pub closed spec fn spec_pool(&self) -> SubnetManagerPool {
        *self.pool
    }

    /// A handler over the given pool.
    pub fn new(pool: Arc<SubnetManagerPool>) -> (r: ListCheckpointsHandler)
        ensures
            r.spec_pool() == *pool,
    {
        ListCheckpointsHandler { pool }
    }

    /// Validates a list-checkpoints request against the parent's
    /// connection and passes the epoch range through unchanged.
    pub fn handle(&self, request: ListCheckpointsParams) -> (r: Result<
        ListCheckpointsInstruction,
        Error,
    >)
        ensures
            !path_wf(request.subnet@) <==> (r matches Err(e) && e == Error::MalformedIdentifier),
            forall|segs: Seq<Seq<char>>|
                id_wf(segs) && render(segs) == request.subnet@ && segs.len() == 1 ==> (r matches Err(
                    e,
                ) && e == Error::NoParent),
            forall|segs: Seq<Seq<char>>|
                id_wf(segs) && render(segs) == request.subnet@ && segs.len() > 1
                    && self.spec_pool().spec_get(segs.drop_last()) is None ==> (r matches Err(e)
                    && e == Error::UnknownSubnet),
            forall|segs: Seq<Seq<char>>|
                id_wf(segs) && render(segs) == request.subnet@ && segs.len() > 1 && (
                self.spec_pool().spec_get(segs.drop_last()) matches Some(c)
                    && !c.subnet.ready()) ==> (r matches Err(e) && e == Error::Internal),
            // No outside call is involved at all, so success is owed on
            // every well-formed child of a configured, ready parent.
            forall|segs: Seq<Seq<char>>|
                id_wf(segs) && render(segs) == request.subnet@ && segs.len() > 1 && (
                self.spec_pool().spec_get(segs.drop_last()) matches Some(c)
                    && c.subnet.ready()) ==> r is Ok,
            r matches Ok(ins) ==> id_wf(ins.subnet@) && render(ins.subnet@) == request.subnet@
                && ins.subnet@.len() > 1 && ins.parent@ == ins.subnet@.drop_last() && (
            self.spec_pool().spec_get(ins.parent@) matches Some(c) && c.subnet.ready())
                && ins.from_epoch == request.from_epoch && ins.to_epoch == request.to_epoch,
    {
        let id = match SubnetIdentifier::parse(request.subnet.as_str()) {
            Ok(id) => id,
            Err(e) => {
                proof {
                    assert forall|segs: Seq<Seq<char>>|
                        !(id_wf(segs) && render(segs) == request.subnet@) by {
                        if id_wf(segs) && render(segs) == request.subnet@ {
                            lemma_render_path_wf(segs);
                        }
                    }
                }
                return Err(e);
            },
        };
        proof {
            lemma_render_path_wf(id@);
            assert forall|segs: Seq<Seq<char>>|
                id_wf(segs) && render(segs) == request.subnet@ implies segs == id@ by {
                lemma_render_injective(segs, id@);
            }
        }
        let parent = match id.parent() {
            Some(p) => p,
            None => {
                return Err(Error::NoParent);
            },
        };
        let conn = match self.pool.get(&parent) {
            Some(c) => c,
            None => {
                return Err(Error::UnknownSubnet);
            },
        };
        match check_subnet(conn.subnet()) {
            Ok(_) => {},
            Err(e) => {
                return Err(e);
            },
        }
        Ok(
            ListCheckpointsInstruction {
                subnet: id,
                parent,
                from_epoch: request.from_epoch,
                to_epoch: request.to_epoch,
            },
        )
    }
}

/// The parameters of a has-voted query.
pub struct HasVotedParams {
    pub subnet: String,
    pub epoch: i64,
    pub validator: String,
    pub direction: Direction,
}

/// A validated has-voted query.  Bottom-up votes are recorded by the
/// subnet actor on the parent; top-down votes by the child's own gateway —
/// so the direction decides which connection answers.
pub struct HasVotedInstruction {
    pub subnet: SubnetIdentifier,
    pub epoch: i64,
    pub validator: Address,
    pub direction: Direction,
}

/// The has-voted method handler.
pub struct HasVotedHandler {
    pool: Arc<SubnetManagerPool>,
}

impl HasVotedHandler {
    /// The pool this handler resolves subnets from.
    pub closed spec fn spec_pool(&self) -> SubnetManagerPool {
        *self.pool
    }

    /// A handler over the given pool.
    pub fn new(pool: Arc<SubnetManagerPool>) -> (r: HasVotedHandler)
        ensures
            r.spec_pool() == *pool,
    {
        HasVotedHandler { pool }
    }

    /// Validates a has-voted query.  The connection consulted depends on
    /// the direction: the parent's for bottom-up votes, the named subnet's
    /// own for top-down votes.
    pub fn handle(&self, request: HasVotedParams) -> (r: Result<HasVotedInstruction, Error>)
        ensures
            !path_wf(request.subnet@) <==> (r matches Err(e) && e == Error::MalformedIdentifier),
            forall|segs: Seq<Seq<char>>|
                id_wf(segs) && render(segs) == request.subnet@ && segs.len() == 1
                    && request.direction == Direction::BottomUp ==> (r matches Err(e) && e
                    == Error::NoParent),
            forall|segs: Seq<Seq<char>>|
                id_wf(segs) && render(segs) == request.subnet@ && request.direction
                    == Direction::BottomUp && segs.len() > 1 && self.spec_pool().spec_get(
                    segs.drop_last(),
                ) is None ==> (r matches Err(e) && e == Error::UnknownSubnet),
            forall|segs: Seq<Seq<char>>|
                id_wf(segs) && render(segs) == request.subnet@ && request.direction
                    == Direction::BottomUp && segs.len() > 1 && (self.spec_pool().spec_get(
                    segs.drop_last(),
                ) matches Some(c) && !c.subnet.ready()) ==> (r matches Err(e) && e
                    == Error::Internal),
            forall|segs: Seq<Seq<char>>|
                id_wf(segs) && render(segs) == request.subnet@ && request.direction
                    == Direction::TopDown && self.spec_pool().spec_get(segs) is None ==> (
                r matches Err(e) && e == Error::UnknownSubnet),
            forall|segs: Seq<Seq<char>>|
                id_wf(segs) && render(segs) == request.subnet@ && request.direction
                    == Direction::TopDown && (self.spec_pool().spec_get(segs) matches Some(c)
                    && !c.subnet.ready()) ==> (r matches Err(e) && e == Error::Internal),
            // Past those checks only the validator-address parser decides.
            forall|segs: Seq<Seq<char>>|
                id_wf(segs) && render(segs) == request.subnet@ && request.direction
                    == Direction::BottomUp && segs.len() > 1 && (self.spec_pool().spec_get(
                    segs.drop_last(),
                ) matches Some(c) && c.subnet.ready()) ==> (r is Ok || (r matches Err(e) && e
                    == Error::InvalidAddress)),
            forall|segs: Seq<Seq<char>>|
                id_wf(segs) && render(segs) == request.subnet@ && request.direction
                    == Direction::TopDown && (self.spec_pool().spec_get(segs) matches Some(c)
                    && c.subnet.ready()) ==> (r is Ok || (r matches Err(e) && e
                    == Error::InvalidAddress)),
            r matches Ok(ins) ==> id_wf(ins.subnet@) && render(ins.subnet@) == request.subnet@
                && ins.epoch == request.epoch && ins.direction == request.direction && (
            match request.direction {
                Direction::BottomUp => ins.subnet@.len() > 1 && (self.spec_pool().spec_get(
                    ins.subnet@.drop_last(),
                ) matches Some(c) && c.subnet.ready()),
                Direction::TopDown => self.spec_pool().spec_get(ins.subnet@) matches Some(c)
                    && c.subnet.ready(),
            }),
    {
        let id = match SubnetIdentifier::parse(request.subnet.as_str()) {
            Ok(id) => id,
            Err(e) => {
                proof {
                    assert forall|segs: Seq<Seq<char>>|
                        !(id_wf(segs) && render(segs) == request.subnet@) by {
                        if id_wf(segs) && render(segs) == request.subnet@ {
                            lemma_render_path_wf(segs);
                        }
                    }
                }
                return Err(e);
            },
        };
        proof {
            lemma_render_path_wf(id@);
            assert forall|segs: Seq<Seq<char>>|
                id_wf(segs) && render(segs) == request.subnet@ implies segs == id@ by {
                lemma_render_injective(segs, id@);
            }
        }
        let conn = match request.direction {
            Direction::BottomUp => {
                let parent = match id.parent() {
                    Some(p) => p,
                    None => {
                        return Err(Error::NoParent);
                    },
                };
                match self.pool.get(&parent) {
                    Some(c) => c,
                    None => {
                        return Err(Error::UnknownSubnet);
                    },
                }
            },
            Direction::TopDown => {
                match self.pool.get(&id) {
                    Some(c) => c,
                    None => {
                        return Err(Error::UnknownSubnet);
                    },
                }
            },
        };
        match check_subnet(conn.subnet()) {
            Ok(_) => {},
            Err(e) => {
                return Err(e);
            },
        }
        let validator = match parse_address(request.validator.as_str()) {
            Ok(a) => a,
            Err(e) => {
                return Err(e);
            },
        };
        Ok(
            HasVotedInstruction {
                subnet: id,
                epoch: request.epoch,
                validator,
                direction: request.direction,
            },
        )
    }
}

} // verus!
