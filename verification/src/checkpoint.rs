//! The checkpoint relay rules.
//!
//! A child subnet's state is anchored into its parent by bottom-up
//! checkpoints, and the parent's into the child by top-down checkpoints;
//! cross-messages travel with strictly increasing nonces.  The chain is the
//! source of truth: the agent queries it freshly before each submission,
//! and the functions here enforce the ordering rules over whatever the node
//! returned — epochs strictly ascending, nonces contiguous, no duplicate
//! vote, no stale submission.

use vstd::prelude::*;

use fvm_shared::address::Address;

use crate::addr::address_eq;
use crate::error::Error;

verus! {

/// A finalized batch of state anchored at an epoch, carrying the
/// commitment bytes the gateway produced for it.
pub struct Checkpoint {
    pub epoch: i64,
    pub commitment: Vec<u8>,
}

/// A value transfer between subnets, ordered by its per-subnet nonce.
pub struct CrossMessage {
    pub nonce: u64,
    pub from: Address,
    pub to: Address,
    pub value_atto: u128,
}

/// Which way a checkpoint travels through the hierarchy.
#[derive(Clone, Copy, Debug, PartialEq, Eq, Structural)]
pub enum Direction {
    BottomUp,
    TopDown,
}

/// Epochs strictly increase along the sequence.
pub open spec fn epochs_strictly_ascending(s: Seq<Checkpoint>) -> bool {
    forall|i: int, j: int|
        0 <= i < j < s.len() ==> (#[trigger] s[i]).epoch < (#[trigger] s[j]).epoch
}

/// The checkpoints of `s` whose epoch lies in `[from_epoch, to_epoch]`, in
/// their original order.
pub open spec fn in_range(s: Seq<Checkpoint>, from_epoch: i64, to_epoch: i64) -> Seq<Checkpoint>
    decreases s.len(),
{
    if s.len() == 0 {
        Seq::empty()
    } else if from_epoch <= s.last().epoch <= to_epoch {
        in_range(s.drop_last(), from_epoch, to_epoch).push(s.last())
    } else {
        in_range(s.drop_last(), from_epoch, to_epoch)
    }
}

/// What the range selection keeps: exactly the checkpoints whose epoch lies
/// in the range, in their original order, still strictly ascending when the
/// input was — and an empty result when nothing lies in the range, not an
/// error.
pub proof fn lemma_in_range(s: Seq<Checkpoint>, from_epoch: i64, to_epoch: i64)
    ensures
        forall|i: int|
            0 <= i < in_range(s, from_epoch, to_epoch).len() ==> from_epoch <= (#[trigger] in_range(
                s,
                from_epoch,
                to_epoch,
            )[i]).epoch <= to_epoch,
        forall|i: int|
            0 <= i < in_range(s, from_epoch, to_epoch).len() ==> s.contains(
                #[trigger] in_range(s, from_epoch, to_epoch)[i],
            ),
        forall|i: int|
            0 <= i < s.len() && from_epoch <= (#[trigger] s[i]).epoch <= to_epoch ==> in_range(
                s,
                from_epoch,
                to_epoch,
            ).contains(s[i]),
        epochs_strictly_ascending(s) ==> epochs_strictly_ascending(
            in_range(s, from_epoch, to_epoch),
        ),
    decreases s.len(),
{
    let r = in_range(s, from_epoch, to_epoch);
    if s.len() == 0 {
    } else {
        let prefix = s.drop_last();
        lemma_in_range(prefix, from_epoch, to_epoch);
        let rp = in_range(prefix, from_epoch, to_epoch);
        assert(forall|i: int| 0 <= i < prefix.len() ==> #[trigger] prefix[i] == s[i]);
        assert(epochs_strictly_ascending(s) ==> epochs_strictly_ascending(prefix));
        assert forall|i: int| 0 <= i < r.len() implies s.contains(#[trigger] r[i]) by {
            if i < rp.len() {
                assert(rp[i] == r[i]);
                let w = choose|w: int| 0 <= w < prefix.len() && prefix[w] == rp[i];
                assert(s[w] == r[i]);
            } else {
                assert(r[i] == s.last());
                assert(s[s.len() - 1] == s.last());
            }
        }
        assert forall|i: int|
            0 <= i < s.len() && from_epoch <= (#[trigger] s[i]).epoch <= to_epoch implies r
            .contains(s[i]) by {
            if i < s.len() - 1 {
                assert(prefix[i] == s[i]);
                assert(rp.contains(s[i]));
                let w = choose|w: int| 0 <= w < rp.len() && rp[w] == s[i];
                if from_epoch <= s.last().epoch <= to_epoch {
                    assert(r[w] == rp[w]);
                } else {
                    assert(r[w] == rp[w]);
                }
            } else {
                assert(r.last() == s.last());
                assert(r[r.len() - 1] == s[i]);
            }
        }
        if epochs_strictly_ascending(s) {
            assert forall|i: int, j: int| 0 <= i < j < r.len() implies (#[trigger] r[i]).epoch < (
            #[trigger] r[j]).epoch by {
                if j < rp.len() {
                    assert(r[i] == rp[i] && r[j] == rp[j]);
                } else {
                    // `j` names the appended last checkpoint; `r[i]` comes
                    // from the prefix, where every epoch is smaller.
                    assert(r[j] == s.last());
                    assert(rp.contains(rp[i]));
                    let w = choose|w: int| 0 <= w < prefix.len() && prefix[w] == rp[i];
                    assert(s[w] == r[i]);
                    assert(s[w].epoch < s[s.len() - 1].epoch);
                }
            }
        }
    }
}

/// Selects the checkpoints of an epoch range, in order.  An empty result is
/// the answer for a range nothing falls into; it is not an error.
pub fn list_checkpoints(available: Vec<Checkpoint>, from_epoch: i64, to_epoch: i64) -> (r: Vec<
    Checkpoint,
>)
    ensures
        r@ == in_range(available@, from_epoch, to_epoch),
{
    let ghost orig = available@;
    let mut rest = available;
    let n = rest.len();
    let mut out: Vec<Checkpoint> = Vec::new();
    let mut i: usize = 0;
    while i < n
        invariant
            n == orig.len(),
            i <= n,
            rest@ == orig.subrange(i as int, n as int),
            out@ == in_range(orig.subrange(0, i as int), from_epoch, to_epoch),
        decreases n - i,
    {
        let c = rest.remove(0);
        proof {
            assert(c == orig[i as int]);
            assert(rest@ =~= orig.subrange(i + 1, n as int));
            let shorter = orig.subrange(0, i as int);
            let longer = orig.subrange(0, i + 1);
            assert(longer.drop_last() =~= shorter);
            assert(longer.last() == orig[i as int]);
        }
        if from_epoch <= c.epoch && c.epoch <= to_epoch {
            out.push(c);
        }
        i += 1;
    }
    proof {
        assert(orig.subrange(0, n as int) =~= orig);
    }
    out
}

/// Nonces run `start, start + 1, ...` along the sequence, with no gap.
pub open spec fn nonces_contiguous_from(s: Seq<CrossMessage>, start: u64) -> bool {
    forall|i: int| 0 <= i < s.len() ==> (#[trigger] s[i]).nonce == start + i
}

/// Accepts the cross-messages the node returned for `from_nonce` exactly
/// when their nonces are contiguous and start there; any discontinuity is a
/// `NonceGap`, never silently tolerated.
pub fn get_topdown_messages(from_nonce: u64, msgs: Vec<CrossMessage>) -> (r: Result<
    Vec<CrossMessage>,
    Error,
>)
    ensures
        r matches Ok(v) ==> v@ == msgs@ && nonces_contiguous_from(msgs@, from_nonce),
        r matches Err(e) ==> e == Error::NonceGap && !nonces_contiguous_from(msgs@, from_nonce),
{
    let n = msgs.len();
    let mut i: usize = 0;
    while i < n
        invariant
            n == msgs@.len(),
            i <= n,
            forall|j: int| 0 <= j < i ==> (#[trigger] msgs@[j]).nonce == from_nonce + j,
        decreases n - i,
    {
        let expected: u128 = from_nonce as u128 + i as u128;
        if msgs[i].nonce as u128 != expected {
            proof {
                assert(msgs@[i as int].nonce != from_nonce + i);
            }
            return Err(Error::NonceGap);
        }
        i += 1;
    }
    Ok(msgs)
}

/// Decides a checkpoint submission for `epoch`, given what the chain
/// reported: the last epoch already committed on the receiving side,
/// whether this validator's vote is already recorded there, and the
/// template the producing side returned, if any.  The rules, in order: a
/// receiving side at or past `epoch` makes the submission stale; a missing
/// template (or one for another epoch) means the producing side has not
/// finalized `epoch` yet; a recorded vote must not be repeated.  Only a
/// template that passes all three is handed back for submission.
pub fn plan_submission(
    epoch: i64,
    last_committed: i64,
    already_voted: bool,
    template: Option<Checkpoint>,
) -> (r: Result<Checkpoint, Error>)
    ensures
        last_committed >= epoch ==> (r matches Err(e) && e == Error::StaleCheckpoint),
        last_committed < epoch && (template is None || (template matches Some(t) && t.epoch
            != epoch)) ==> (r matches Err(e) && e == Error::NotYetFinalized),
        last_committed < epoch && (template matches Some(t) && t.epoch == epoch)
            && already_voted ==> (r matches Err(e) && e == Error::AlreadySubmitted),
        last_committed < epoch && (template matches Some(t) && t.epoch == epoch)
            && !already_voted ==> r == Ok::<Checkpoint, Error>(template.unwrap()),
        r matches Ok(c) ==> last_committed < epoch && !already_voted && template == Some(c)
            && c.epoch == epoch,
{
    if last_committed >= epoch {
        return Err(Error::StaleCheckpoint);
    }
    match template {
        None => Err(Error::NotYetFinalized),
        Some(t) => {
            if t.epoch != epoch {
                Err(Error::NotYetFinalized)
            } else if already_voted {
                Err(Error::AlreadySubmitted)
            } else {
                Ok(t)
            }
        },
    }
}

/// What to do with a cross-message waiting in the gateway: submitting it
/// twice must never duplicate a transfer.
#[derive(Clone, Copy, Debug, PartialEq, Eq, Structural)]
pub enum PropagateAction {
    /// The message is still pending: forward it.
    Submit,
    /// The message was already executed: propagation is a no-op.
    AlreadyExecuted,
}

/// Decides a propagation: forward the message only if the gateway has not
/// executed it yet, so propagating twice stays idempotent.
pub fn plan_propagate(already_executed: bool) -> (r: PropagateAction)
    ensures
        r == if already_executed {
            PropagateAction::AlreadyExecuted
        } else {
            PropagateAction::Submit
        },
{
    if already_executed {
        PropagateAction::AlreadyExecuted
    } else {
        PropagateAction::Submit
    }
}

/// One recorded attestation: a validator voted for an epoch's checkpoint in
/// one direction.
pub struct VoteRecord {
    pub direction: Direction,
    pub epoch: i64,
    pub validator: Address,
}

/// The per-subnet bookkeeping of validator votes, used to avoid signing or
/// submitting twice for the same epoch.
pub struct VoteLog {
    records: Vec<VoteRecord>,
}

impl VoteLog {
    /// Whether a vote of this validator, for this epoch and direction, is
    /// on record.
    pub closed spec fn spec_has(
        &self,
        direction: Direction,
        epoch: i64,
        validator: Address,
    ) -> bool {
        exists|i: int|
            0 <= i < self.records@.len() && (#[trigger] self.records@[i]).direction == direction
                && self.records@[i].epoch == epoch && self.records@[i].validator == validator
    }

    /// An empty log: nobody has voted.
    pub fn new() -> (r: VoteLog)
        ensures
            forall|d: Direction, e: i64, v: Address| !r.spec_has(d, e, v),
    {
        VoteLog { records: Vec::new() }
    }

    /// Whether a vote of this validator, for this epoch and direction, is
    /// on record: false until one is recorded, true from then on.
    pub fn has_voted(&self, direction: Direction, epoch: i64, validator: &Address) -> (r: bool)
        ensures
            r == self.spec_has(direction, epoch, *validator),
    {
        let n = self.records.len();
        let mut i: usize = 0;
        while i < n
            invariant
                n == self.records@.len(),
                i <= n,
                forall|j: int|
                    0 <= j < i ==> !((#[trigger] self.records@[j]).direction == direction
                        && self.records@[j].epoch == epoch && self.records@[j].validator
                        == *validator),
            decreases n - i,
        {
            let rec = &self.records[i];
            if rec.direction == direction && rec.epoch == epoch && address_eq(
                &rec.validator,
                validator,
            ) {
                return true;
            }
            i += 1;
        }
        false
    }

    /// Records a vote.  The pair asked about afterwards answers true for
    /// exactly this vote and whatever was recorded before.
    pub fn record_vote(&mut self, direction: Direction, epoch: i64, validator: Address)
        ensures
            forall|d: Direction, e: i64, v: Address|
                final(self).spec_has(d, e, v) == (old(self).spec_has(d, e, v) || (d == direction
                    && e == epoch && v == validator)),
    {
        let ghost pre = self.records@;
        self.records.push(VoteRecord { direction, epoch, validator });
        proof {
            assert forall|d: Direction, e: i64, v: Address|
                final(self).spec_has(d, e, v) == (old(self).spec_has(d, e, v) || (d == direction
                    && e == epoch && v == validator)) by {
                let post = self.records@;
                assert(forall|j: int| 0 <= j < pre.len() ==> #[trigger] post[j] == pre[j]);
                if old(self).spec_has(d, e, v) {
                    let w = choose|w: int|
                        0 <= w < pre.len() && (#[trigger] pre[w]).direction == d && pre[w].epoch
                            == e && pre[w].validator == v;
                    assert(post[w] == pre[w]);
                }
                if d == direction && e == epoch && v == validator {
                    assert(post[post.len() - 1].direction == d);
                }
                if self.spec_has(d, e, v) && !(d == direction && e == epoch && v == validator) {
                    let w = choose|w: int|
                        0 <= w < post.len() && (#[trigger] post[w]).direction == d && post[w].epoch
                            == e && post[w].validator == v;
                    assert(w < pre.len());
                    assert(pre[w] == post[w]);
                }
            }
        }
    }
}

} // verus!
