//! Handing saved connections over to sibling servers: which sibling gets the
//! next connection, the bytes of the exchange, and what the receiving side
//! makes of the control message it gets.

use vstd::prelude::*;
use crate::text::string_views;

verus! {

/// Why a shutdown hands nothing over.
#[derive(Debug, PartialEq, Eq)]
pub enum HandoffSkip {
    /// No connection was saved.
    NoConnections,
    /// Connections were saved but no sibling socket was found.
    NoPeers,
}

/// The state of one hand-over round: the sibling sockets found, where the
/// offers of the current connection started, how many siblings have refused
/// it so far, and the ids of the connections that siblings have acknowledged,
/// in order.
pub struct HandoffPlan {
    peers: Vec<String>,
    start: usize,
    tries: usize,
    handed_off: Vec<u64>,
}

/// The slot of the sibling that gets offer number `tries` (counting from 0)
/// of a connection whose offers start at slot `start`, among `n` siblings.
pub open spec fn offer_slot(start: nat, tries: nat, n: nat) -> nat
    recommends
        n > 0,
{
    (start + tries) % n
}

impl HandoffPlan {
    #[verifier::type_invariant]
    spec fn inv(&self) -> bool {
        &&& self.peers.len() > 0
        &&& self.start < self.peers.len()
        &&& self.tries < self.peers.len()
    }

    /// The sibling socket paths, in the order they were found.
    pub closed spec fn peer_paths(&self) -> Seq<Seq<char>> {
        string_views(self.peers@)
    }

    /// The slot of the sibling that gets the first offer of the current connection.
    pub closed spec fn spec_start(&self) -> nat {
        self.start as nat
    }

    /// How many siblings have refused the current connection so far.
    pub closed spec fn spec_tries(&self) -> nat {
        self.tries as nat
    }

    /// The ids of the connections handed over so far, in order.
    pub closed spec fn handed_off_ids(&self) -> Seq<u64> {
        self.handed_off@
    }

    /// Starts a round for `connection_count` saved connections and the sibling
    /// sockets `peers`; says why there is nothing to do when there is not.
    pub fn start(connection_count: usize, peers: Vec<String>) -> (r: Result<HandoffPlan, HandoffSkip>)
        ensures
            connection_count == 0 ==> r == Err::<HandoffPlan, HandoffSkip>(HandoffSkip::NoConnections),
            connection_count > 0 && peers.len() == 0 ==> r == Err::<HandoffPlan, HandoffSkip>(HandoffSkip::NoPeers),
            connection_count > 0 && peers.len() > 0 ==> (r matches Ok(plan) && plan.peer_paths()
                == string_views(peers@) && plan.spec_start() == 0 && plan.spec_tries() == 0
                && plan.handed_off_ids() == Seq::<u64>::empty()),
    {
        if connection_count == 0 {
            return Err(HandoffSkip::NoConnections);
        }
        if peers.len() == 0 {
            return Err(HandoffSkip::NoPeers);
        }
        Ok(HandoffPlan { peers, start: 0, tries: 0, handed_off: Vec::new() })
    }

    /// The sibling to offer the current connection to: the one in slot
    /// `start + tries`, cycling through the list.
    pub fn next_target(&self) -> (r: &String)
        ensures
            self.peer_paths().len() > 0,
            self.spec_start() < self.peer_paths().len(),
            self.spec_tries() < self.peer_paths().len(),
            r@ == self.peer_paths()[offer_slot(self.spec_start(), self.spec_tries(), self.peer_paths().len()) as int],
            self.peer_paths().contains(r@),
    {
        proof {
            use_type_invariant(self);
        }
        let i = wrapped_slot(self.start, self.tries, self.peers.len());
        let r = &self.peers[i];
        assert(self.peer_paths()[i as int] == r@);
        r
    }

    /// Records that the sibling offered the current connection acknowledged it
    /// as `conn_id`. The next connection is first offered to the sibling after
    /// that one.
    pub fn record_success(&mut self, conn_id: u64)
        ensures
            final(self).peer_paths() == old(self).peer_paths(),
            final(self).handed_off_ids() == old(self).handed_off_ids().push(conn_id),
            final(self).spec_start() == (offer_slot(old(self).spec_start(), old(self).spec_tries(),
                old(self).peer_paths().len()) + 1) % old(self).peer_paths().len(),
            final(self).spec_tries() == 0,
    {
        proof {
            use_type_invariant(&*self);
        }
        let n = self.peers.len();
        let current = wrapped_slot(self.start, self.tries, n);
        let next = if current + 1 < n { current + 1 } else { 0 };
        assert(next == (current + 1) % (n as int)) by (nonlinear_arith)
            requires
                current < n,
                next == (if current + 1 < n { current + 1 } else { 0 }),
        ;
        assert(self.peer_paths().len() == n);
        let mut ids: Vec<u64> = Vec::new();
        std::mem::swap(&mut ids, &mut self.handed_off);
        ids.push(conn_id);
        self.handed_off = ids;
        self.start = next;
        self.tries = 0;
    }

    /// Records that the sibling offered the current connection refused it or
    /// could not be reached. Answers whether to offer the same connection to
    /// the next sibling: so it is, until every sibling has been offered it
    /// once; then it is given up and the next connection starts where this one
    /// did.
    pub fn record_failure(&mut self) -> (retry: bool)
        ensures
            final(self).peer_paths() == old(self).peer_paths(),
            final(self).handed_off_ids() == old(self).handed_off_ids(),
            final(self).spec_start() == old(self).spec_start(),
            retry == (old(self).spec_tries() + 1 < old(self).peer_paths().len()),
            retry ==> final(self).spec_tries() == old(self).spec_tries() + 1,
            !retry ==> final(self).spec_tries() == 0,
    {
        proof {
            use_type_invariant(&*self);
        }
        if self.tries + 1 < self.peers.len() {
            self.tries = self.tries + 1;
            true
        } else {
            self.tries = 0;
            false
        }
    }

    /// The ids of the connections handed over so far, in order.
    pub fn handed_off(&self) -> (r: &Vec<u64>)
        ensures
            r@ == self.handed_off_ids(),
    {
        &self.handed_off
    }

    /// The sibling socket paths of this round.
    pub fn peers(&self) -> (r: &Vec<String>)
        ensures
            string_views(r@) == self.peer_paths(),
    {
        &self.peers
    }
}

/// `(start + k) % n` for `start` and `k` below `n`, computed without overflow.
fn wrapped_slot(start: usize, k: usize, n: usize) -> (r: usize)
    requires
        start < n,
        k < n,
    ensures
        r == offer_slot(start as nat, k as nat, n as nat),
        r < n,
{
    if k < n - start {
        assert((start + k) % (n as int) == start + k) by (nonlinear_arith)
            requires
                0 <= start + k < n,
        ;
        start + k
    } else {
        assert((start + k) % (n as int) == start + k - n) by (nonlinear_arith)
            requires
                n <= start + k < 2 * n,
        ;
        k - (n - start)
    }
}

/// The offers of one connection, one per refusal until there have been as many
/// as there are siblings, reach every sibling: each slot comes up at one of
/// the offers `0 .. n`.
pub proof fn lemma_offers_reach_every_sibling(n: nat, start: nat, slot: nat)
    requires
        n > 0,
        slot < n,
    ensures
        exists|k: nat| k < n && #[trigger] offer_slot(start, k, n) == slot,
{
    let k = ((slot + n - start % n) % n as int) as nat;
    assert((start + k) % n == slot) by (nonlinear_arith)
        requires
            n > 0,
            slot < n,
            k == (slot + n - start % n) % n as int,
    {
        assert(start == n * (start / n) + start % n);
    }
    assert(offer_slot(start, k, n) == slot);
}

/// If some sibling would acknowledge a connection, one of the offers made to
/// it before it is given up goes to such a sibling: the connection is handed
/// over within as many offers as there are siblings.
pub proof fn lemma_willing_sibling_is_reached(n: nat, start: nat, willing: Set<nat>)
    requires
        n > 0,
        exists|slot: nat| slot < n && willing.contains(slot),
    ensures
        exists|k: nat| k < n && willing.contains(#[trigger] offer_slot(start, k, n)),
{
    let slot = choose|slot: nat| slot < n && willing.contains(slot);
    lemma_offers_reach_every_sibling(n, start, slot);
    let k = choose|k: nat| k < n && #[trigger] offer_slot(start, k, n) == slot;
    assert(willing.contains(offer_slot(start, k, n)));
}

/// The bytes `HANDOFF` that accompany a passed descriptor.
pub open spec fn handoff_greeting() -> Seq<u8> {
    seq![72u8, 65u8, 78u8, 68u8, 79u8, 70u8, 70u8]
}

/// The bytes `ACK` that the receiving sibling answers with.
pub open spec fn ack_reply() -> Seq<u8> {
    seq![65u8, 67u8, 75u8]
}

/// The message sent together with a passed descriptor.
pub fn handoff_message() -> (r: [u8; 7])
    ensures
        r@ == handoff_greeting(),
{
    let r: [u8; 7] = [72, 65, 78, 68, 79, 70, 70];
    assert(r@ =~= handoff_greeting());
    r
}

/// The reply that acknowledges a received descriptor.
pub fn ack_message() -> (r: [u8; 3])
    ensures
        r@ == ack_reply(),
{
    let r: [u8; 3] = [65, 67, 75];
    assert(r@ =~= ack_reply());
    r
}

/// Why a sibling's reply does not confirm a hand-over.
#[derive(Debug, PartialEq, Eq)]
pub enum AckError {
    /// The three bytes read back were not `ACK`.
    InvalidAcknowledgment,
}

/// Accepts the three bytes read back from a sibling exactly when they are `ACK`.
pub fn check_ack(reply: &[u8; 3]) -> (r: Result<(), AckError>)
    ensures
        r is Ok <==> reply@ == ack_reply(),
        r is Err ==> r == Err::<(), AckError>(AckError::InvalidAcknowledgment),
{
    if reply[0] == 65 && reply[1] == 67 && reply[2] == 75 {
        assert(reply@ =~= ack_reply());
        Ok(())
    } else {
        assert(reply@[0] == reply[0] && reply@[1] == reply[1] && reply@[2] == reply[2]);
        Err(AckError::InvalidAcknowledgment)
    }
}

/// What the receiving side learns from the first control message of a
/// hand-over message.
pub enum ControlSummary {
    /// Descriptors passed with `SCM_RIGHTS`.
    ScmRights(Vec<i32>),
    /// Any other kind of control message.
    Other,
}

/// What the receiving side does after reading a hand-over message.
#[derive(Debug, PartialEq, Eq)]
pub enum ReceiveOutcome {
    /// Adopt this descriptor as the handed-over connection.
    Descriptor(i32),
    /// Fail: the message carried no control message.
    NoDescriptor,
    /// The receive loop keeps re-examining the same first control message,
    /// which never carries a descriptor, so it never finishes.
    Stuck,
}

/// Decides on a received hand-over message from its first control message:
/// the receive loop restarts its look at the control messages on every turn,
/// so only the first one is ever examined.
pub fn received_descriptor(first: &Option<ControlSummary>) -> (r: ReceiveOutcome)
    ensures
        match first {
            None => r == ReceiveOutcome::NoDescriptor,
            Some(ControlSummary::ScmRights(fds)) => if fds.len() > 0 {
                r == ReceiveOutcome::Descriptor(fds@[0])
            } else {
                r == ReceiveOutcome::Stuck
            },
            Some(ControlSummary::Other) => r == ReceiveOutcome::Stuck,
        },
{
    match first {
        None => ReceiveOutcome::NoDescriptor,
        Some(ControlSummary::ScmRights(fds)) => {
            if fds.len() > 0 {
                ReceiveOutcome::Descriptor(fds[0])
            } else {
                ReceiveOutcome::Stuck
            }
        }
        Some(ControlSummary::Other) => ReceiveOutcome::Stuck,
    }
}

} // verus!
