//! Probe outcomes and the bookkeeping of one probe round.

use crate::addr::Address;
use crate::target::{models, Target, TargetModel};
use vstd::prelude::*;
use vstd::string::*;

verus! {

/// The result of probing one target once.
#[derive(Debug)]
pub enum ProbeOutcome {
    /// A reply arrived after `rtt_us` microseconds.
    Success { target: Target, rtt_us: u64 },
    /// No reply arrived in time.
    Timeout { target: Target },
    /// The probe could not be sent.
    TransportError { target: Target, cause: String },
}

/// What a [`ProbeOutcome`] is to the contracts.
pub enum OutcomeModel {
    Success { target: TargetModel, rtt_us: u64 },
    Timeout { target: TargetModel },
    TransportError { target: TargetModel, cause: Seq<char> },
}

impl View for ProbeOutcome {
    type V = OutcomeModel;

    open spec fn view(&self) -> OutcomeModel {
        match *self {
            ProbeOutcome::Success { target, rtt_us } => OutcomeModel::Success {
                target: target@,
                rtt_us,
            },
            ProbeOutcome::Timeout { target } => OutcomeModel::Timeout { target: target@ },
            ProbeOutcome::TransportError { target, cause } => OutcomeModel::TransportError {
                target: target@,
                cause: cause@,
            },
        }
    }
}

/// What an outcome means to the metrics: a reply with its round-trip time
/// in microseconds, or a lost probe.
pub enum Tally {
    Reply(u64),
    Lost,
}

impl OutcomeModel {
    /// The target that was probed.
    pub open spec fn target(self) -> TargetModel {
        match self {
            OutcomeModel::Success { target, .. } => target,
            OutcomeModel::Timeout { target } => target,
            OutcomeModel::TransportError { target, .. } => target,
        }
    }
}

impl ProbeOutcome {
    /// The target that was probed.
    pub open spec fn target_model(self) -> TargetModel {
        match self {
            ProbeOutcome::Success { target, .. } => target@,
            ProbeOutcome::Timeout { target } => target@,
            ProbeOutcome::TransportError { target, .. } => target@,
        }
    }

    /// How the outcome counts: a transport error is a lost probe, as a
    /// timeout is.
    pub open spec fn tally(self) -> Tally {
        match self {
            ProbeOutcome::Success { rtt_us, .. } => Tally::Reply(rtt_us),
            ProbeOutcome::Timeout { .. } => Tally::Lost,
            ProbeOutcome::TransportError { .. } => Tally::Lost,
        }
    }

    /// The target that was probed.
    pub fn target(&self) -> (t: &Target)
        ensures
            t@ == self.target_model(),
    {
        match self {
            ProbeOutcome::Success { target, .. } => target,
            ProbeOutcome::Timeout { target } => target,
            ProbeOutcome::TransportError { target, .. } => target,
        }
    }
}

/// What a round knows of one target so far.
#[derive(Debug)]
pub enum Slot {
    /// Nothing has been heard yet.
    Pending,
    /// A reply arrived after so many microseconds.
    Replied(u64),
    /// The prober reported that no reply arrived.
    Idle,
    /// The probe could not be sent, for the reason given.
    Failed(String),
}

/// What a [`Slot`] is to the contracts.
pub enum SlotModel {
    Pending,
    Replied(u64),
    Idle,
    Failed(Seq<char>),
}

impl View for Slot {
    type V = SlotModel;

    open spec fn view(&self) -> SlotModel {
        match *self {
            Slot::Pending => SlotModel::Pending,
            Slot::Replied(rtt_us) => SlotModel::Replied(rtt_us),
            Slot::Idle => SlotModel::Idle,
            Slot::Failed(cause) => SlotModel::Failed(cause@),
        }
    }
}

/// The outcome that a target's slot amounts to when the round ends: a
/// target that nothing was heard of has timed out.
pub open spec fn outcome_of(target: TargetModel, slot: SlotModel) -> OutcomeModel {
    match slot {
        SlotModel::Replied(rtt_us) => OutcomeModel::Success { target, rtt_us },
        SlotModel::Pending => OutcomeModel::Timeout { target },
        SlotModel::Idle => OutcomeModel::Timeout { target },
        SlotModel::Failed(cause) => OutcomeModel::TransportError { target, cause },
    }
}

/// The slot of a target after an event for the address `addr`: a pending
/// slot at that address takes the event, every other slot stays.
pub open spec fn slot_after(
    slot: SlotModel,
    address: Option<Address>,
    addr: Address,
    event: SlotModel,
) -> SlotModel {
    if slot is Pending && address == Some(addr) {
        event
    } else {
        slot
    }
}

/// One probe round: the targets it probes, the address each is probed at,
/// and what has been heard of each.
#[derive(Debug)]
pub struct Round {
    targets: Vec<Target>,
    addresses: Vec<Option<Address>>,
    slots: Vec<Slot>,
}

impl Round {
    /// The targets of the round.
    pub closed spec fn targets(self) -> Seq<TargetModel> {
        models(self.targets@)
    }

    /// The address that each target is probed at; `None` for a host name
    /// that has not been resolved.
    pub closed spec fn addresses(self) -> Seq<Option<Address>> {
        self.addresses@
    }

    /// What has been heard of each target.
    pub closed spec fn slots(self) -> Seq<SlotModel> {
        self.slots@.map_values(|s: Slot| s@)
    }

    /// A round has one address entry and one slot for each target.
    pub closed spec fn wf(self) -> bool {
        self.addresses@.len() == self.targets@.len() && self.slots@.len() == self.targets@.len()
    }

    /// In a well-formed round the three views have one length.
    pub proof fn lemma_wf_lengths(self)
        requires
            self.wf(),
        ensures
            self.addresses().len() == self.targets().len(),
            self.slots().len() == self.targets().len(),
    {
    }

    /// Starts a round for the given targets: every slot is pending, and a
    /// target is probed at the address it carries. The round keeps its own
    /// copy of the targets.
    pub fn begin(targets: &Vec<Target>) -> (round: Round)
        ensures
            round.wf(),
            round.targets() == models(targets@),
            round.addresses() == models(targets@).map_values(|t: TargetModel| t.address),
            round.slots() == Seq::new(targets@.len(), |i: int| SlotModel::Pending),
    {
        let mut copies: Vec<Target> = Vec::new();
        let mut addresses: Vec<Option<Address>> = Vec::new();
        let mut slots: Vec<Slot> = Vec::new();
        let mut i: usize = 0;
        while i < targets.len()
            invariant
                i <= targets@.len(),
                copies@ == targets@.take(i as int),
                addresses@.len() == i,
                slots@.len() == i,
                forall|j: int| 0 <= j < i ==> addresses@[j] == targets@[j].address,
                forall|j: int| 0 <= j < i ==> slots@[j] == Slot::Pending,
            decreases targets@.len() - i,
        {
            copies.push(targets[i].clone());
            assert(copies@ =~= targets@.take(i + 1));
            addresses.push(targets[i].address);
            slots.push(Slot::Pending);
            i += 1;
        }
        assert(targets@.take(i as int) =~= targets@);
        let round = Round { targets: copies, addresses, slots };
        assert(round.addresses() =~= models(targets@).map_values(|t: TargetModel| t.address));
        assert(round.slots() =~= Seq::new(targets@.len(), |i: int| SlotModel::Pending));
        round
    }

    /// Number of targets in the round.
    pub fn len(&self) -> (n: usize)
        requires
            self.wf(),
        ensures
            n == self.targets().len(),
    {
        self.targets.len()
    }

    /// The target at `index`.
    pub fn target(&self, index: usize) -> (t: &Target)
        requires
            self.wf(),
            index < self.targets().len(),
        ensures
            t@ == self.targets()[index as int],
    {
        &self.targets[index]
    }

    /// The address that the target at `index` is probed at.
    pub fn address(&self, index: usize) -> (a: Option<Address>)
        requires
            self.wf(),
            index < self.targets().len(),
        ensures
            a == self.addresses()[index as int],
    {
        self.addresses[index]
    }

    /// Whether nothing has been heard yet of the target at `index`.
    pub fn is_pending(&self, index: usize) -> (pending: bool)
        requires
            self.wf(),
            index < self.targets().len(),
        ensures
            pending == (self.slots()[index as int] is Pending),
    {
        match self.slots[index] {
            Slot::Pending => true,
            _ => false,
        }
    }

    /// Notes the address that a host name resolved to. A target that has an
    /// address keeps it.
    pub fn resolve(&mut self, index: usize, addr: Address)
        requires
            old(self).wf(),
            index < old(self).targets().len(),
        ensures
            final(self).wf(),
            final(self).targets() == old(self).targets(),
            final(self).slots() == old(self).slots(),
            final(self).addresses() == if old(self).addresses()[index as int] is None {
                old(self).addresses().update(index as int, Some(addr))
            } else {
                old(self).addresses()
            },
    {
        if self.addresses[index].is_none() {
            self.addresses.set(index, Some(addr));
        }
    }

    /// Notes that the probe of the target at `index` could not be sent. A
    /// slot that is no longer pending stays as it is.
    pub fn fail(&mut self, index: usize, cause: String)
        requires
            old(self).wf(),
            index < old(self).targets().len(),
        ensures
            final(self).wf(),
            final(self).targets() == old(self).targets(),
            final(self).addresses() == old(self).addresses(),
            final(self).slots() == if old(self).slots()[index as int] is Pending {
                old(self).slots().update(index as int, SlotModel::Failed(cause@))
            } else {
                old(self).slots()
            },
    {
        if self.is_pending(index) {
            self.slots.set(index, Slot::Failed(cause));
            assert(self.slots() =~= old(self).slots().update(
                index as int,
                SlotModel::Failed(cause@),
            ));
        }
    }

    /// Notes a reply from `addr` after `rtt_us` microseconds: every pending
    /// slot at that address takes it. Returns whether any did.
    pub fn reply(&mut self, addr: Address, rtt_us: u64) -> (taken: bool)
        requires
            old(self).wf(),
        ensures
            final(self).wf(),
            final(self).targets() == old(self).targets(),
            final(self).addresses() == old(self).addresses(),
            final(self).slots() == Seq::new(
                old(self).slots().len(),
                |i: int|
                    slot_after(
                        old(self).slots()[i],
                        old(self).addresses()[i],
                        addr,
                        SlotModel::Replied(rtt_us),
                    ),
            ),
            taken == exists|i: int|
                0 <= i < old(self).slots().len() && (#[trigger] old(self).slots()[i]) is Pending
                    && old(self).addresses()[i] == Some(addr),
    {
        let mut taken = false;
        let mut i: usize = 0;
        while i < self.slots.len()
            invariant
                i <= self.slots@.len(),
                self.wf(),
                old(self).wf(),
                self.targets == old(self).targets,
                self.addresses == old(self).addresses,
                self.slots@.len() == old(self).slots@.len(),
                forall|j: int|
                    0 <= j < i ==> (#[trigger] self.slots@[j])@ == slot_after(
                        old(self).slots@[j]@,
                        old(self).addresses@[j],
                        addr,
                        SlotModel::Replied(rtt_us),
                    ),
                forall|j: int| i <= j < self.slots@.len() ==> self.slots@[j] == old(self).slots@[j],
                taken == exists|j: int|
                    0 <= j < i && (#[trigger] old(self).slots()[j]) is Pending
                        && old(self).addresses()[j] == Some(addr),
            decreases self.slots@.len() - i,
        {
            let hit = self.is_pending(i) && at_address(self.addresses[i], addr);
            proof {
                assert(self.slots()[i as int] == old(self).slots()[i as int]);
                assert(hit == (old(self).slots()[i as int] is Pending && old(self).addresses()[i as int]
                    == Some(addr)));
            }
            if hit {
                self.slots.set(i, Slot::Replied(rtt_us));
                taken = true;
            }
            i += 1;
        }
        assert(self.slots() =~= Seq::new(
            old(self).slots().len(),
            |i: int|
                slot_after(
                    old(self).slots()[i],
                    old(self).addresses()[i],
                    addr,
                    SlotModel::Replied(rtt_us),
                ),
        ));
        taken
    }

    /// Notes that the prober saw no reply from `addr`: every pending slot at
    /// that address becomes idle. Returns whether any did.
    pub fn idle(&mut self, addr: Address) -> (taken: bool)
        requires
            old(self).wf(),
        ensures
            final(self).wf(),
            final(self).targets() == old(self).targets(),
            final(self).addresses() == old(self).addresses(),
            final(self).slots() == Seq::new(
                old(self).slots().len(),
                |i: int|
                    slot_after(
                        old(self).slots()[i],
                        old(self).addresses()[i],
                        addr,
                        SlotModel::Idle,
                    ),
            ),
            taken == exists|i: int|
                0 <= i < old(self).slots().len() && (#[trigger] old(self).slots()[i]) is Pending
                    && old(self).addresses()[i] == Some(addr),
    {
        let mut taken = false;
        let mut i: usize = 0;
        while i < self.slots.len()
            invariant
                i <= self.slots@.len(),
                self.wf(),
                old(self).wf(),
                self.targets == old(self).targets,
                self.addresses == old(self).addresses,
                self.slots@.len() == old(self).slots@.len(),
                forall|j: int|
                    0 <= j < i ==> (#[trigger] self.slots@[j])@ == slot_after(
                        old(self).slots@[j]@,
                        old(self).addresses@[j],
                        addr,
                        SlotModel::Idle,
                    ),
                forall|j: int| i <= j < self.slots@.len() ==> self.slots@[j] == old(self).slots@[j],
                taken == exists|j: int|
                    0 <= j < i && (#[trigger] old(self).slots()[j]) is Pending
                        && old(self).addresses()[j] == Some(addr),
            decreases self.slots@.len() - i,
        {
            let hit = self.is_pending(i) && at_address(self.addresses[i], addr);
            proof {
                assert(self.slots()[i as int] == old(self).slots()[i as int]);
                assert(hit == (old(self).slots()[i as int] is Pending && old(self).addresses()[i as int]
                    == Some(addr)));
            }
            if hit {
                self.slots.set(i, Slot::Idle);
                taken = true;
            }
            i += 1;
        }
        assert(self.slots() =~= Seq::new(
            old(self).slots().len(),
            |i: int|
                slot_after(old(self).slots()[i], old(self).addresses()[i], addr, SlotModel::Idle),
        ));
        taken
    }

    /// Whether every target has been heard of.
    pub fn is_complete(&self) -> (complete: bool)
        requires
            self.wf(),
        ensures
            complete == forall|i: int|
                0 <= i < self.slots().len() ==> !((#[trigger] self.slots()[i]) is Pending),
    {
        let mut i: usize = 0;
        while i < self.slots.len()
            invariant
                i <= self.slots@.len(),
                self.wf(),
                forall|j: int| 0 <= j < i ==> !((#[trigger] self.slots()[j]) is Pending),
            decreases self.slots@.len() - i,
        {
            if self.is_pending(i) {
                return false;
            }
            i += 1;
        }
        true
    }

    /// Ends the round: exactly one outcome for each target, in the order of
    /// the targets. A reply is a success, a failure to send is a transport
    /// error, and anything else is a timeout.
    pub fn finish(self) -> (outcomes: Vec<ProbeOutcome>)
        requires
            self.wf(),
        ensures
            outcomes@.len() == self.targets().len(),
            forall|i: int|
                0 <= i < outcomes@.len() ==> (#[trigger] outcomes@[i]).target_model()
                    == self.targets()[i],
            forall|i: int|
                0 <= i < outcomes@.len() ==> (#[trigger] outcomes@[i])@ == outcome_of(
                    self.targets()[i],
                    self.slots()[i],
                ),
    {
        let mut outcomes: Vec<ProbeOutcome> = Vec::new();
        let mut i: usize = 0;
        while i < self.targets.len()
            invariant
                i <= self.targets@.len(),
                self.wf(),
                outcomes@.len() == i,
                forall|j: int|
                    0 <= j < i ==> (#[trigger] outcomes@[j]).target_model() == self.targets()[j],
                forall|j: int|
                    0 <= j < i ==> (#[trigger] outcomes@[j])@ == outcome_of(
                        self.targets()[j],
                        self.slots()[j],
                    ),
            decreases self.targets@.len() - i,
        {
            let target = self.targets[i].clone();
            let outcome = match &self.slots[i] {
                Slot::Replied(rtt_us) => ProbeOutcome::Success { target, rtt_us: *rtt_us },
                Slot::Pending => ProbeOutcome::Timeout { target },
                Slot::Idle => ProbeOutcome::Timeout { target },
                Slot::Failed(cause) => ProbeOutcome::TransportError {
                    target,
                    cause: cause.clone(),
                },
            };
            assert(outcome@ == outcome_of(self.targets()[i as int], self.slots()[i as int]));
            outcomes.push(outcome);
            i += 1;
        }
        outcomes
    }
}

fn at_address(address: Option<Address>, addr: Address) -> (same: bool)
    ensures
        same == (address == Some(addr)),
{
    match address {
        Some(a) => a == addr,
        None => false,
    }
}

} // verus!
