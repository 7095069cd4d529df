//! Decisions of the packet interception loop: which packets go back to the
//! network, and how the loop moves from start to stop.
use crate::address::{owner_of, WinDivertAddress};
use crate::registry::{state_in, PolicyRegistry, PolicyState};
use vstd::prelude::*;

verus! {

/// What happens to one diverted packet.
#[derive(Debug, Clone, Copy, PartialEq, Eq, Structural)]
pub enum Verdict {
    /// Sent back to the network stack unchanged.
    Reinject,
    /// Silently discarded.
    Drop,
}

/// A packet is dropped exactly when it is attributed to a blocked process;
/// a packet without an owner always goes through.
pub open spec fn verdict_for(reg: Map<u32, PolicyState>, addr: WinDivertAddress) -> Verdict {
    match owner_of(addr.process_id) {
        Some(pid) => if state_in(reg, pid) == PolicyState::Blocked {
            Verdict::Drop
        } else {
            Verdict::Reinject
        },
        None => Verdict::Reinject,
    }
}

/// The packets of `packets` that are sent back, in their order.
pub open spec fn reinjected_of(reg: Map<u32, PolicyState>, packets: Seq<WinDivertAddress>) -> Seq<
    WinDivertAddress,
> {
    packets.filter(|a: WinDivertAddress| verdict_for(reg, a) == Verdict::Reinject)
}

/// The verdict on one packet.
pub fn decide(registry: &PolicyRegistry, addr: &WinDivertAddress) -> (v: Verdict)
    ensures
        v == verdict_for(registry@, *addr),
{
    match addr.process_id() {
        Some(pid) => if registry.is_blocked(pid) {
            Verdict::Drop
        } else {
            Verdict::Reinject
        },
        None => Verdict::Reinject,
    }
}

/// The packets of a batch that are sent back, in arrival order.
pub fn reinjected(registry: &PolicyRegistry, packets: &Vec<WinDivertAddress>) -> (r: Vec<
    WinDivertAddress,
>)
    ensures
        r@ == reinjected_of(registry@, packets@),
{
    let mut out: Vec<WinDivertAddress> = Vec::new();
    let mut i: usize = 0;
    while i < packets.len()
        invariant
            i <= packets@.len(),
            out@ == reinjected_of(registry@, packets@.take(i as int)),
        decreases packets@.len() - i,
    {
        let a = packets[i];
        let v = decide(registry, &a);
        proof {
            reveal(Seq::filter);
            assert(packets@.take(i + 1).drop_last() =~= packets@.take(i as int));
            assert(packets@.take(i + 1).last() == a);
        }
        if v == Verdict::Reinject {
            out.push(a);
        }
        i = i + 1;
    }
    assert(packets@.take(packets@.len() as int) =~= packets@);
    out
}

/// While a process is blocked, none of its packets is sent back. (Id 0 is
/// the driver's "unknown owner" and names no process.)
pub proof fn lemma_blocked_never_reinjected(
    reg: Map<u32, PolicyState>,
    packets: Seq<WinDivertAddress>,
    pid: u32,
)
    requires
        pid != 0,
        state_in(reg, pid) == PolicyState::Blocked,
    ensures
        forall|i: int|
            0 <= i < reinjected_of(reg, packets).len() ==> (#[trigger] reinjected_of(
                reg,
                packets,
            )[i]).process_id != pid,
{
    let f = |a: WinDivertAddress| verdict_for(reg, a) == Verdict::Reinject;
    assert forall|i: int| 0 <= i < packets.filter(f).len() implies (
    #[trigger] packets.filter(f)[i]).process_id != pid by {
        packets.lemma_filter_pred(f, i);
    }
}

/// A packet that no process owns is sent back whatever the registry holds.
pub proof fn lemma_unattributed_reinjected(
    reg: Map<u32, PolicyState>,
    packets: Seq<WinDivertAddress>,
    i: int,
)
    requires
        0 <= i < packets.len(),
        packets[i].process_id == 0,
    ensures
        verdict_for(reg, packets[i]) == Verdict::Reinject,
        reinjected_of(reg, packets).contains(packets[i]),
{
    let f = |a: WinDivertAddress| verdict_for(reg, a) == Verdict::Reinject;
    packets.lemma_filter_contains(f, i);
}

/// Where the interception loop stands.
#[derive(Debug, Clone, Copy, PartialEq, Eq, Structural)]
pub enum LoopState {
    /// The session is being opened.
    Starting,
    /// Packets are being received and judged.
    Running,
    /// Cancellation was seen; the session is to be closed.
    Stopping,
    /// The loop is over; no session is held.
    Stopped,
}

/// What the loop's owner is to do next.
#[derive(Debug, Clone, Copy, PartialEq, Eq, Structural)]
pub enum LoopStep {
    /// Wait for the next packet.
    Receive,
    /// Close the session.
    Close,
    /// Nothing is left to do.
    Finished,
}

/// The interception loop's state machine. Cancellation is checked once per
/// packet, so a stop request waits for the next packet to arrive.
pub struct Interceptor {
    pub state: LoopState,
}

impl Interceptor {
    /// A loop about to open its session.
    pub fn new() -> (r: Self)
        ensures
            r.state == LoopState::Starting,
    {
        Interceptor { state: LoopState::Starting }
    }

    /// Records whether the session opened. A failure ends the loop at once,
    /// without retry: hard blocking is then unavailable.
    pub fn opened(&mut self, ok: bool)
        requires
            old(self).state == LoopState::Starting,
        ensures
            final(self).state == (if ok {
                LoopState::Running
            } else {
                LoopState::Stopped
            }),
    {
        if ok {
            self.state = LoopState::Running;
        } else {
            self.state = LoopState::Stopped;
        }
    }

    /// The next step, given whether a stop was requested.
    pub fn poll(&mut self, cancel_requested: bool) -> (step: LoopStep)
        ensures
            old(self).state == LoopState::Running && !cancel_requested ==> (step
                == LoopStep::Receive && final(self).state == LoopState::Running),
            old(self).state == LoopState::Running && cancel_requested ==> (step == LoopStep::Close
                && final(self).state == LoopState::Stopping),
            old(self).state == LoopState::Stopping ==> (step == LoopStep::Close
                && final(self).state == LoopState::Stopping),
            old(self).state == LoopState::Starting || old(self).state == LoopState::Stopped ==> (
            step == LoopStep::Finished && final(self).state == old(self).state),
    {
        match self.state {
            LoopState::Running => {
                if cancel_requested {
                    self.state = LoopState::Stopping;
                    LoopStep::Close
                } else {
                    LoopStep::Receive
                }
            },
            LoopState::Stopping => LoopStep::Close,
            _ => LoopStep::Finished,
        }
    }

    /// Records that the session was closed.
    pub fn closed(&mut self)
        ensures
            final(self).state == LoopState::Stopped,
    {
        self.state = LoopState::Stopped;
    }

    /// The verdict on a received packet. A failed receive or send yields no
    /// packet to judge: that packet is lost and the loop carries on.
    pub fn judge(&self, registry: &PolicyRegistry, addr: &WinDivertAddress) -> (v: Verdict)
        ensures
            v == verdict_for(registry@, *addr),
    {
        decide(registry, addr)
    }
}

} // verus!
