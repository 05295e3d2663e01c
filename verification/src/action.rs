//! What the driver asks of the outside world.
//!
//! The driver never touches the peripheral or the memory that it shares with the DMA
//! controller. It says what to do as a list of [`Action`]s. A [`Sequencer`] breaks the
//! list down into single bus [`Access`]es, and decides from the values that come back
//! how to go on.

use crate::register::{self, collect, modified, Field, Register};
use vstd::prelude::*;

verus! {

/// One step of a driver operation.
#[derive(Debug, Clone, Copy, PartialEq, Eq, Structural)]
pub enum Action {
    /// Write the whole register.
    Write {
        /// The register to write.
        register: Register,
        /// Its new value.
        value: u32,
    },
    /// Read the register, replace the bits of the mask, and write it back.
    Modify {
        /// The register to modify.
        register: Register,
        /// The bits that change.
        mask: u32,
        /// What they change to.
        bits: u32,
    },
    /// Read the register again and again, until every bit of the mask reads as zero.
    Poll {
        /// The register to read.
        register: Register,
        /// The bits to wait for.
        mask: u32,
    },
    /// Read the register, as the result of the operation.
    Fetch {
        /// The register to read.
        register: Register,
    },
    /// Store a word of a descriptor. The DMA controller sees the word too.
    Store {
        /// The bus address of the word.
        address: u32,
        /// Its new value.
        value: u32,
    },
    /// Make all earlier stores visible before any later access.
    Fence,
}

/// A single access to a register, or to memory that the DMA controller sees.
#[derive(Debug, Clone, Copy, PartialEq, Eq, Structural)]
pub enum Access {
    /// Read the register. The value that it returns goes to the next step.
    Read {
        /// The register to read.
        register: Register,
    },
    /// Write the register.
    Write {
        /// The register to write.
        register: Register,
        /// Its new value.
        value: u32,
    },
    /// Store a word of a descriptor.
    Store {
        /// The bus address of the word.
        address: u32,
        /// Its new value.
        value: u32,
    },
    /// Make all earlier stores visible before any later access.
    Fence,
}

/// Writing `register` with the given fields, and zeros elsewhere.
pub open spec fn write_fields(register: Register, fields: Seq<(Field, u32)>) -> Action {
    Action::Write { register, value: register::bits_of(fields) }
}

/// Changing the given fields of `register`, and nothing else.
pub open spec fn modify_fields(register: Register, fields: Seq<(Field, u32)>) -> Action {
    Action::Modify { register, mask: register::mask_of(fields), bits: register::bits_of(fields) }
}

impl Action {
    /// Writes `register` with the given fields, and zeros elsewhere.
    pub fn write(register: Register, fields: &[(Field, u32)]) -> (action: Action)
        requires
            register::all_in(fields@, register),
        ensures
            action == write_fields(register, fields@),
    {
        let (_, value) = collect(fields);
        Action::Write { register, value }
    }

    /// Changes one field of `register`, and nothing else.
    pub fn modify_one(register: Register, field: Field, value: u32) -> (action: Action)
        requires
            field.layout().register == register,
        ensures
            action == modify_fields(register, seq![(field, value)]),
    {
        let fields = [(field, value)];
        assert(fields@ =~= seq![(field, value)]);
        Action::modify(register, &fields)
    }

    /// Writes one field of `register`, and zeros elsewhere.
    pub fn write_one(register: Register, field: Field, value: u32) -> (action: Action)
        requires
            field.layout().register == register,
        ensures
            action == write_fields(register, seq![(field, value)]),
    {
        let fields = [(field, value)];
        assert(fields@ =~= seq![(field, value)]);
        Action::write(register, &fields)
    }

    /// Changes the given fields of `register`, and nothing else.
    pub fn modify(register: Register, fields: &[(Field, u32)]) -> (action: Action)
        requires
            register::all_in(fields@, register),
        ensures
            action == modify_fields(register, fields@),
    {
        let (mask, bits) = collect(fields);
        Action::Modify { register, mask, bits }
    }
}

/// Registers and memory, as software last left them.
#[verifier::ext_equal]
pub ghost struct World {
    /// What each register holds.
    pub registers: Map<Register, u32>,
    /// What each word of memory holds, by bus address.
    pub memory: Map<u32, u32>,
}

impl World {
    /// This world after one action.
    pub open spec fn after(self, action: Action) -> World {
        match action {
            Action::Write { register, value } => World {
                registers: self.registers.insert(register, value),
                ..self
            },
            Action::Modify { register, mask, bits } => World {
                registers: self.registers.insert(
                    register,
                    modified(self.registers[register], mask, bits),
                ),
                ..self
            },
            Action::Store { address, value } => World {
                memory: self.memory.insert(address, value),
                ..self
            },
            Action::Poll { .. } => self,
            Action::Fetch { .. } => self,
            Action::Fence => self,
        }
    }

    /// This world after a list of actions.
    pub open spec fn after_all(self, actions: Seq<Action>) -> World
        decreases actions.len(),
    {
        if actions.len() == 0 {
            self
        } else {
            self.after(actions[0]).after_all(actions.skip(1))
        }
    }

    /// This world after one access.
    pub open spec fn after_access(self, access: Access) -> World {
        match access {
            Access::Read { .. } => self,
            Access::Write { register, value } => World {
                registers: self.registers.insert(register, value),
                ..self
            },
            Access::Store { address, value } => World {
                memory: self.memory.insert(address, value),
                ..self
            },
            Access::Fence => self,
        }
    }

    /// This world after the accesses of `trace`.
    pub open spec fn after_trace(self, trace: Seq<(Access, u32)>) -> World
        decreases trace.len(),
    {
        if trace.len() == 0 {
            self
        } else {
            self.after_access(trace[0].0).after_trace(trace.skip(1))
        }
    }
}

/// How far a list of actions has come.
#[verifier::ext_equal]
pub ghost struct Progress {
    /// The actions that are not complete.
    pub remaining: Seq<Action>,
    /// The first of them has issued a read, and waits for its value.
    pub reading: bool,
}

/// Starts the first of the remaining actions.
pub open spec fn begin(remaining: Seq<Action>) -> (Progress, Option<Access>) {
    if remaining.len() == 0 {
        (Progress { remaining, reading: false }, None)
    } else {
        let done = Progress { remaining: remaining.skip(1), reading: false };
        match remaining[0] {
            Action::Write { register, value } => (done, Some(Access::Write { register, value })),
            Action::Store { address, value } => (done, Some(Access::Store { address, value })),
            Action::Fence => (done, Some(Access::Fence)),
            Action::Fetch { register } => (done, Some(Access::Read { register })),
            Action::Modify { register, .. } => (
                Progress { remaining, reading: true },
                Some(Access::Read { register }),
            ),
            Action::Poll { register, .. } => (
                Progress { remaining, reading: true },
                Some(Access::Read { register }),
            ),
        }
    }
}

impl Progress {
    /// What comes next, once the access before returned `value`.
    pub open spec fn step(self, value: u32) -> (Progress, Option<Access>) {
        if !self.reading || self.remaining.len() == 0 {
            begin(self.remaining)
        } else {
            match self.remaining[0] {
                Action::Modify { register, mask, bits } => (
                    Progress { remaining: self.remaining.skip(1), reading: false },
                    Some(Access::Write { register, value: modified(value, mask, bits) }),
                ),
                Action::Poll { register, mask } => if value & mask != 0 {
                    (self, Some(Access::Read { register }))
                } else {
                    begin(self.remaining.skip(1))
                },
                _ => begin(self.remaining),
            }
        }
    }

    /// The accesses, each with its reply, if `replies` are all that is needed to complete.
    pub open spec fn run(self, value: u32, replies: Seq<u32>) -> Option<Seq<(Access, u32)>>
        decreases replies.len(),
    {
        let (progress, access) = self.step(value);
        match access {
            None => if replies.len() == 0 {
                Some(Seq::empty())
            } else {
                None
            },
            Some(access) => if replies.len() == 0 {
                None
            } else {
                match progress.run(replies[0], replies.skip(1)) {
                    None => None,
                    Some(trace) => Some(seq![(access, replies[0])] + trace),
                }
            },
        }
    }
}

/// The accesses of `trace`, with their replies, carry out `actions`, in order and with
/// nothing in between.
pub open spec fn performs(actions: Seq<Action>, trace: Seq<(Access, u32)>) -> bool
    decreases actions.len(), trace.len(),
{
    if actions.len() == 0 {
        trace.len() == 0
    } else {
        let rest = actions.skip(1);
        trace.len() > 0 && match actions[0] {
            Action::Write { register, value } => trace[0].0 == (Access::Write { register, value })
                && performs(rest, trace.skip(1)),
            Action::Store { address, value } => trace[0].0 == (Access::Store { address, value })
                && performs(rest, trace.skip(1)),
            Action::Fence => trace[0].0 == Access::Fence && performs(rest, trace.skip(1)),
            Action::Fetch { register } => trace[0].0 == (Access::Read { register }) && performs(
                rest,
                trace.skip(1),
            ),
            Action::Modify { register, mask, bits } => {
                &&& trace.len() > 1
                &&& trace[0].0 == Access::Read { register }
                &&& trace[1].0 == Access::Write {
                    register,
                    value: modified(trace[0].1, mask, bits),
                }
                &&& performs(rest, trace.skip(2))
            },
            Action::Poll { register, mask } => {
                &&& trace[0].0 == Access::Read { register }
                &&& if trace[0].1 & mask != 0 {
                    performs(actions, trace.skip(1))
                } else {
                    performs(rest, trace.skip(1))
                }
            },
        }
    }
}

/// In a trace that performs `actions` from `world` on, each read that begins a
/// modification returns what software last left in the register.
///
/// What a poll or a fetch reads is up to the device.
pub open spec fn modifies_what_it_left(
    world: World,
    actions: Seq<Action>,
    trace: Seq<(Access, u32)>,
) -> bool
    decreases actions.len(), trace.len(),
{
    if actions.len() == 0 || trace.len() == 0 {
        true
    } else {
        let next = world.after(actions[0]);
        let rest = actions.skip(1);
        match actions[0] {
            Action::Modify { register, .. } => trace[0].1 == world.registers[register]
                && modifies_what_it_left(next, rest, trace.skip(2)),
            Action::Poll { mask, .. } => if trace[0].1 & mask != 0 {
                modifies_what_it_left(world, actions, trace.skip(1))
            } else {
                modifies_what_it_left(next, rest, trace.skip(1))
            },
            _ => modifies_what_it_left(next, rest, trace.skip(1)),
        }
    }
}

/// Turns a list of actions into single accesses.
pub struct Sequencer<'a> {
    actions: &'a [Action],
    position: usize,
    reading: bool,
}

impl<'a> Sequencer<'a> {
    /// How far the actions have come.
    pub closed spec fn view(&self) -> Progress {
        Progress { remaining: self.actions@.skip(self.position as int), reading: self.reading }
    }

    /// The position lies in the list, and only a read that was issued is waited for.
    pub closed spec fn wf(&self) -> bool {
        &&& self.position <= self.actions@.len()
        &&& self.reading ==> {
            &&& self.position < self.actions@.len()
            &&& self.actions@[self.position as int] is Modify
                || self.actions@[self.position as int] is Poll
        }
    }

    /// Prepares to carry out `actions`.
    pub fn new(actions: &'a [Action]) -> (sequencer: Self)
        ensures
            sequencer.wf(),
            sequencer@ == (Progress { remaining: actions@, reading: false }),
    {
        assert(actions@.skip(0) == actions@);
        Sequencer { actions, position: 0, reading: false }
    }

    /// Returns the next access, or nothing once all actions are complete.
    ///
    /// `value` is what the access before returned. It matters only if that was a read. What
    /// the last read returned is the result of an action that fetches.
    pub fn step(&mut self, value: u32) -> (access: Option<Access>)
        requires
            old(self).wf(),
        ensures
            final(self).wf(),
            (final(self)@, access) == old(self)@.step(value),
    {
        let ghost remaining = self@.remaining;
        if self.reading {
            assert(remaining[0] == self.actions@[self.position as int]);
            assert(remaining.skip(1) == self.actions@.skip(self.position + 1));
            match self.actions[self.position] {
                Action::Modify { register, mask, bits } => {
                    self.reading = false;
                    self.position = self.position + 1;
                    return Some(Access::Write { register, value: modified(value, mask, bits) });
                },
                Action::Poll { register, mask } => {
                    if value & mask != 0 {
                        return Some(Access::Read { register });
                    }
                    self.reading = false;
                    self.position = self.position + 1;
                },
                _ => {},
            }
        }
        self.begin()
    }

    /// Starts the action at the current position.
    fn begin(&mut self) -> (access: Option<Access>)
        requires
            old(self).wf(),
            !old(self).reading,
        ensures
            final(self).wf(),
            (final(self)@, access) == begin(old(self)@.remaining),
    {
        if self.position == self.actions.len() {
            return None;
        }
        let ghost remaining = self@.remaining;
        assert(remaining[0] == self.actions@[self.position as int]);
        assert(remaining.skip(1) == self.actions@.skip(self.position + 1));
        match self.actions[self.position] {
            Action::Write { register, value } => {
                self.position = self.position + 1;
                Some(Access::Write { register, value })
            },
            Action::Store { address, value } => {
                self.position = self.position + 1;
                Some(Access::Store { address, value })
            },
            Action::Fence => {
                self.position = self.position + 1;
                Some(Access::Fence)
            },
            Action::Fetch { register } => {
                self.position = self.position + 1;
                Some(Access::Read { register })
            },
            Action::Modify { register, .. } => {
                self.reading = true;
                Some(Access::Read { register })
            },
            Action::Poll { register, .. } => {
                self.reading = true;
                Some(Access::Read { register })
            },
        }
    }
}

/// A sequencer carries out exactly its actions, whatever the device replies: once it is
/// done, the accesses that it made perform the list.
pub proof fn law_sequencer_performs_its_actions(
    actions: Seq<Action>,
    value: u32,
    replies: Seq<u32>,
)
    requires
        (Progress { remaining: actions, reading: false }).run(value, replies) is Some,
    ensures
        performs(actions, (Progress { remaining: actions, reading: false }).run(value, replies)->0),
{
    lemma_run_performs(Progress { remaining: actions, reading: false }, value, replies);
}

/// The first remaining action is one that reads before it completes.
spec fn reads_first(progress: Progress) -> bool {
    progress.remaining.len() > 0 && (progress.remaining[0] is Modify
        || progress.remaining[0] is Poll)
}

/// What was read for the first of the remaining actions, as the start of a trace.
spec fn read_so_far(progress: Progress, value: u32) -> Seq<(Access, u32)> {
    if !progress.reading {
        Seq::empty()
    } else {
        match progress.remaining[0] {
            Action::Modify { register, .. } => seq![(Access::Read { register }, value)],
            Action::Poll { register, .. } => seq![(Access::Read { register }, value)],
            _ => Seq::empty(),
        }
    }
}

proof fn lemma_run_performs(progress: Progress, value: u32, replies: Seq<u32>)
    requires
        progress.reading ==> reads_first(progress),
        progress.run(value, replies) is Some,
    ensures
        performs(progress.remaining, read_so_far(progress, value) + progress.run(value, replies)->0),
    decreases replies.len(),
{
    reveal_with_fuel(performs, 3);
    let trace = progress.run(value, replies)->0;
    let before = read_so_far(progress, value);
    let (next, access) = progress.step(value);
    match access {
        None => {
            assert(before + trace =~= before);
            if progress.reading {
                assert(before.skip(1) =~= Seq::empty());
            }
        },
        Some(access) => {
            let rest = next.run(replies[0], replies.skip(1))->0;
            lemma_run_performs(next, replies[0], replies.skip(1));
            let after = read_so_far(next, replies[0]) + rest;
            assert(trace =~= seq![(access, replies[0])] + rest);
            if !progress.reading {
                assert(before + trace =~= trace);
                if next.reading {
                    assert(after =~= trace);
                } else {
                    assert(trace.skip(1) =~= rest);
                    assert(after =~= rest);
                }
            } else {
                let whole = before + trace;
                assert(whole.skip(1) =~= trace);
                match progress.remaining[0] {
                    Action::Modify { register, mask, bits } => {
                        assert(after =~= rest);
                        assert(whole.skip(2) =~= rest);
                    },
                    Action::Poll { register, mask } => {
                        if value & mask != 0 {
                            assert(after =~= trace);
                        } else if next.reading {
                            assert(after =~= trace);
                        } else {
                            assert(after =~= rest);
                            assert(trace.skip(1) =~= rest);
                        }
                    },
                    _ => {},
                }
            }
        },
    }
}

/// What the device replied, access by access.
pub open spec fn replies_of(trace: Seq<(Access, u32)>) -> Seq<u32> {
    Seq::new(trace.len(), |i: int| trace[i].1)
}

/// A sequencer comes through every list: if a trace performs the list, a device that replies
/// as in the trace sees the sequencer make just those accesses, and then stop.
pub proof fn law_sequencer_follows_every_trace(
    actions: Seq<Action>,
    value: u32,
    trace: Seq<(Access, u32)>,
)
    requires
        performs(actions, trace),
    ensures
        (Progress { remaining: actions, reading: false }).run(value, replies_of(trace)) == Some(
            trace,
        ),
{
    let progress = Progress { remaining: actions, reading: false };
    assert(read_so_far(progress, value) + trace =~= trace);
    lemma_trace_runs(progress, value, trace);
}

proof fn lemma_trace_runs(progress: Progress, value: u32, trace: Seq<(Access, u32)>)
    requires
        progress.reading ==> reads_first(progress),
        performs(progress.remaining, read_so_far(progress, value) + trace),
    ensures
        progress.run(value, replies_of(trace)) == Some(trace),
    decreases trace.len(),
{
    reveal_with_fuel(performs, 3);
    let before = read_so_far(progress, value);
    let whole = before + trace;
    let (next, access) = progress.step(value);
    if progress.reading {
        assert(whole.skip(1) =~= trace);
        assert(whole[0] == before[0]);
    } else {
        assert(whole =~= trace);
    }
    match access {
        None => {
            assert(trace =~= Seq::empty());
            assert(replies_of(trace).len() == 0);
        },
        Some(access) => {
            if progress.reading && progress.remaining[0] is Modify {
                assert(whole[1] == trace[0]);
            }
            assert(trace.len() > 0 && trace[0].0 == access);
            let rest = trace.skip(1);
            let reply = trace[0].1;
            assert(trace =~= seq![(access, reply)] + rest);
            let after = read_so_far(next, reply) + rest;
            if next.reading {
                assert(after =~= trace);
            } else {
                assert(after =~= rest);
            }
            if progress.reading {
                assert(whole.skip(2) =~= rest);
            }
            lemma_trace_runs(next, reply, rest);
            assert(replies_of(trace).skip(1) =~= replies_of(rest));
        },
    }
}

/// Every list can be performed, from any world: on a device that holds what was written, and
/// whose polls come to an end.
pub proof fn law_every_list_can_be_performed(actions: Seq<Action>, world: World)
    ensures
        exists|trace: Seq<(Access, u32)>|
            #[trigger] performs(actions, trace) && modifies_what_it_left(world, actions, trace),
    decreases actions.len(),
{
    reveal_with_fuel(performs, 2);
    reveal_with_fuel(modifies_what_it_left, 2);
    if actions.len() == 0 {
        assert(performs(actions, Seq::empty()));
    } else {
        let rest = actions.skip(1);
        let next = world.after(actions[0]);
        law_every_list_can_be_performed(rest, next);
        let later = choose|trace: Seq<(Access, u32)>|
            #[trigger] performs(rest, trace) && modifies_what_it_left(next, rest, trace);
        let first = match actions[0] {
            Action::Write { register, value } => seq![(Access::Write { register, value }, 0u32)],
            Action::Store { address, value } => seq![(Access::Store { address, value }, 0u32)],
            Action::Fence => seq![(Access::Fence, 0u32)],
            Action::Fetch { register } => seq![(Access::Read { register }, 0u32)],
            Action::Poll { register, .. } => seq![(Access::Read { register }, 0u32)],
            Action::Modify { register, mask, bits } => {
                let held = world.registers[register];
                seq![
                    (Access::Read { register }, held),
                    (Access::Write { register, value: modified(held, mask, bits) }, 0u32),
                ]
            },
        };
        let trace = first + later;
        assert(trace.skip(first.len() as int) =~= later);
        if let Action::Poll { mask, .. } = actions[0] {
            assert(0u32 & mask == 0) by (bit_vector);
        }
        assert(performs(actions, trace));
    }
}

/// The access writes the register.
pub open spec fn writes(access: Access, register: Register) -> bool {
    access matches Access::Write { register: written, .. } && written == register
}

/// The action changes the register.
pub open spec fn changes(action: Action, register: Register) -> bool {
    match action {
        Action::Write { register: written, .. } => written == register,
        Action::Modify { register: written, .. } => written == register,
        _ => false,
    }
}

/// A trace writes no register that its actions do not change.
pub proof fn law_traces_write_what_actions_change(
    actions: Seq<Action>,
    trace: Seq<(Access, u32)>,
    register: Register,
)
    requires
        performs(actions, trace),
        forall|i: int| 0 <= i < actions.len() ==> !changes(#[trigger] actions[i], register),
    ensures
        forall|i: int| 0 <= i < trace.len() ==> !writes((#[trigger] trace[i]).0, register),
    decreases actions.len(), trace.len(),
{
    if actions.len() > 0 {
        let rest = actions.skip(1);
        assert(!changes(actions[0], register));
        assert forall|i: int| 0 <= i < rest.len() implies !changes(#[trigger] rest[i], register) by {
            assert(rest[i] == actions[i + 1]);
        }
        let used: int = if actions[0] is Modify {
            2
        } else {
            1
        };
        let later = trace.skip(used);
        match actions[0] {
            Action::Poll { mask, .. } => {
                if trace[0].1 & mask != 0 {
                    law_traces_write_what_actions_change(actions, later, register);
                } else {
                    law_traces_write_what_actions_change(rest, later, register);
                }
            },
            _ => {
                law_traces_write_what_actions_change(rest, later, register);
            },
        }
        assert forall|i: int| 0 <= i < trace.len() implies !writes(
            (#[trigger] trace[i]).0,
            register,
        ) by {
            if i >= used {
                assert(later[i - used] == trace[i]);
            }
        }
    }
}

/// One trace after another has the effect of both.
pub proof fn law_effects_add_up(world: World, head: Seq<(Access, u32)>, tail: Seq<(Access, u32)>)
    ensures
        world.after_trace(head + tail) == world.after_trace(head).after_trace(tail),
    decreases head.len(),
{
    if head.len() == 0 {
        assert(head + tail =~= tail);
    } else {
        assert((head + tail).skip(1) =~= head.skip(1) + tail);
        law_effects_add_up(world.after_access(head[0].0), head.skip(1), tail);
    }
}

/// What one more access of a trace does.
pub proof fn law_next_access_has_its_effect(world: World, trace: Seq<(Access, u32)>, i: int)
    requires
        0 <= i < trace.len(),
    ensures
        world.after_trace(trace.take(i + 1)) == world.after_trace(trace.take(i)).after_access(
            trace[i].0,
        ),
{
    let one = seq![trace[i]];
    assert(trace.take(i + 1) =~= trace.take(i) + one);
    law_effects_add_up(world, trace.take(i), one);
    reveal_with_fuel(World::after_trace, 2);
}

/// Carrying out a list of actions leaves the world as the actions say, whatever polls and
/// fetches read, as long as each modification starts from what software left in the
/// register.
pub proof fn law_trace_has_the_effect_of_its_actions(
    actions: Seq<Action>,
    trace: Seq<(Access, u32)>,
    world: World,
)
    requires
        performs(actions, trace),
        modifies_what_it_left(world, actions, trace),
    ensures
        world.after_trace(trace) == world.after_all(actions),
    decreases actions.len(), trace.len(),
{
    reveal_with_fuel(World::after_trace, 3);
    if actions.len() > 0 {
        let rest = actions.skip(1);
        let next = world.after(actions[0]);
        match actions[0] {
            Action::Modify { register, mask, bits } => {
                assert(trace.skip(1).skip(1) =~= trace.skip(2));
                assert(trace.skip(1)[0] == trace[1]);
                law_trace_has_the_effect_of_its_actions(rest, trace.skip(2), next);
            },
            Action::Poll { register, mask } => {
                if trace[0].1 & mask != 0 {
                    law_trace_has_the_effect_of_its_actions(actions, trace.skip(1), world);
                } else {
                    law_trace_has_the_effect_of_its_actions(rest, trace.skip(1), next);
                }
            },
            _ => {
                law_trace_has_the_effect_of_its_actions(rest, trace.skip(1), next);
            },
        }
    }
}

/// A list without modifications has its effect whatever the device replies.
pub proof fn law_lists_without_modifications_need_no_reply(
    actions: Seq<Action>,
    trace: Seq<(Access, u32)>,
    world: World,
)
    requires
        performs(actions, trace),
        forall|i: int| 0 <= i < actions.len() ==> !((#[trigger] actions[i]) is Modify),
    ensures
        modifies_what_it_left(world, actions, trace),
        world.after_trace(trace) == world.after_all(actions),
{
    lemma_nothing_to_leave(actions, trace, world);
    law_trace_has_the_effect_of_its_actions(actions, trace, world);
}

/// A list without stores leaves memory as it was.
pub proof fn law_lists_without_stores_keep_memory(actions: Seq<Action>, world: World)
    requires
        forall|i: int| 0 <= i < actions.len() ==> !((#[trigger] actions[i]) is Store),
    ensures
        world.after_all(actions).memory == world.memory,
    decreases actions.len(),
{
    if actions.len() > 0 {
        let rest = actions.skip(1);
        assert(!(actions[0] is Store));
        assert forall|i: int| 0 <= i < rest.len() implies !((#[trigger] rest[i]) is Store) by {
            assert(rest[i] == actions[i + 1]);
        }
        law_lists_without_stores_keep_memory(rest, world.after(actions[0]));
    }
}

proof fn lemma_nothing_to_leave(actions: Seq<Action>, trace: Seq<(Access, u32)>, world: World)
    requires
        forall|i: int| 0 <= i < actions.len() ==> !((#[trigger] actions[i]) is Modify),
    ensures
        modifies_what_it_left(world, actions, trace),
    decreases actions.len(), trace.len(),
{
    if actions.len() > 0 && trace.len() > 0 {
        let rest = actions.skip(1);
        let next = world.after(actions[0]);
        assert(!(actions[0] is Modify));
        assert forall|i: int| 0 <= i < rest.len() implies !((#[trigger] rest[i]) is Modify) by {
            assert(rest[i] == actions[i + 1]);
        }
        lemma_nothing_to_leave(actions, trace.skip(1), world);
        lemma_nothing_to_leave(rest, trace.skip(1), next);
    }
}

/// Carrying out one list after another is carrying out both.
pub proof fn law_actions_compose(world: World, first: Seq<Action>, second: Seq<Action>)
    ensures
        world.after_all(first + second) == world.after_all(first).after_all(second),
    decreases first.len(),
{
    if first.len() == 0 {
        assert(first + second =~= second);
    } else {
        assert((first + second).skip(1) =~= first.skip(1) + second);
        law_actions_compose(world.after(first[0]), first.skip(1), second);
    }
}

/// A trace that performs one list after another splits into a trace of each.
pub proof fn law_traces_split(first: Seq<Action>, second: Seq<Action>, trace: Seq<(Access, u32)>)
    requires
        performs(first + second, trace),
    ensures
        exists|k: int|
            0 <= k <= trace.len() && #[trigger] performs(first, trace.take(k)) && performs(
                second,
                trace.skip(k),
            ),
    decreases first.len(), trace.len(),
{
    reveal_with_fuel(performs, 2);
    let all = first + second;
    if first.len() == 0 {
        assert(all =~= second);
        assert(trace.take(0) =~= Seq::empty());
        assert(trace.skip(0) =~= trace);
        assert(performs(first, trace.take(0)));
    } else {
        let rest = first.skip(1);
        assert(all.skip(1) =~= rest + second);
        assert(all[0] == first[0]);
        // How many accesses the first action takes, or its first read if it goes on.
        let (used, left) = match first[0] {
            Action::Modify { .. } => (2int, rest),
            Action::Poll { mask, .. } => (1int, if trace[0].1 & mask != 0 {
                first
            } else {
                rest
            }),
            _ => (1int, rest),
        };
        let later = trace.skip(used);
        law_traces_split(left, second, later);
        let k = choose|k: int|
            0 <= k <= later.len() && #[trigger] performs(left, later.take(k)) && performs(
                second,
                later.skip(k),
            );
        let head = trace.take(used + k);
        assert(head.skip(used) =~= later.take(k));
        assert(trace.skip(used + k) =~= later.skip(k));
        assert(head[0] == trace[0]);
        if used == 2 {
            assert(head[1] == trace[1]);
        }
        assert(performs(first, head));
    }
}

/// Traces that perform two lists, one after the other, perform both as one list. What its
/// modifications start from is what those of the two lists do.
pub proof fn law_traces_join(
    first: Seq<Action>,
    second: Seq<Action>,
    head: Seq<(Access, u32)>,
    tail: Seq<(Access, u32)>,
    world: World,
)
    requires
        performs(first, head),
        performs(second, tail),
    ensures
        performs(first + second, head + tail),
        modifies_what_it_left(world, first, head) && modifies_what_it_left(
            world.after_all(first),
            second,
            tail,
        ) ==> modifies_what_it_left(world, first + second, head + tail),
    decreases first.len(), head.len(),
{
    let (all, trace) = (first + second, head + tail);
    if first.len() == 0 {
        assert(all =~= second);
        assert(trace =~= tail);
    } else {
        let rest = first.skip(1);
        let next = world.after(first[0]);
        assert(all.skip(1) =~= rest + second);
        assert(all[0] == first[0]);
        assert(trace[0] == head[0]);
        match first[0] {
            Action::Modify { .. } => {
                assert(trace[1] == head[1]);
                assert(trace.skip(2) =~= head.skip(2) + tail);
                law_traces_join(rest, second, head.skip(2), tail, next);
            },
            Action::Poll { mask, .. } => {
                assert(trace.skip(1) =~= head.skip(1) + tail);
                if head[0].1 & mask != 0 {
                    law_traces_join(first, second, head.skip(1), tail, world);
                } else {
                    law_traces_join(rest, second, head.skip(1), tail, next);
                }
            },
            _ => {
                assert(trace.skip(1) =~= head.skip(1) + tail);
                law_traces_join(rest, second, head.skip(1), tail, next);
            },
        }
    }
}

/// On the way through a trace, there is a point at which the first `k` actions are complete,
/// and nothing of the others has begun. The world is then as the first `k` actions leave it.
pub proof fn law_worlds_along_a_trace(
    actions: Seq<Action>,
    trace: Seq<(Access, u32)>,
    world: World,
    k: int,
)
    requires
        performs(actions, trace),
        modifies_what_it_left(world, actions, trace),
        0 <= k <= actions.len(),
    ensures
        exists|i: int|
            {
                let then = world.after_all(actions.take(k));
                &&& 0 <= i <= trace.len()
                &&& #[trigger] performs(actions.take(k), trace.take(i))
                &&& performs(actions.skip(k), trace.skip(i))
                &&& world.after_trace(trace.take(i)) == then
                &&& modifies_what_it_left(then, actions.skip(k), trace.skip(i))
            },
{
    let (first, second) = (actions.take(k), actions.skip(k));
    assert(first + second =~= actions);
    law_traces_split(first, second, trace);
    let i = choose|i: int|
        0 <= i <= trace.len() && #[trigger] performs(first, trace.take(i)) && performs(
            second,
            trace.skip(i),
        );
    assert(trace.take(i) + trace.skip(i) =~= trace);
    lemma_what_is_left_splits(first, second, trace.take(i), trace.skip(i), world);
    law_trace_has_the_effect_of_its_actions(first, trace.take(i), world);
    assert(performs(actions.take(k), trace.take(i)));
}

proof fn lemma_what_is_left_splits(
    first: Seq<Action>,
    second: Seq<Action>,
    head: Seq<(Access, u32)>,
    tail: Seq<(Access, u32)>,
    world: World,
)
    requires
        performs(first, head),
        modifies_what_it_left(world, first + second, head + tail),
    ensures
        modifies_what_it_left(world, first, head),
        modifies_what_it_left(world.after_all(first), second, tail),
    decreases first.len(), head.len(),
{
    let (all, trace) = (first + second, head + tail);
    if first.len() == 0 {
        assert(all =~= second);
        assert(trace =~= tail);
    } else {
        let rest = first.skip(1);
        let next = world.after(first[0]);
        assert(all.skip(1) =~= rest + second);
        assert(all[0] == first[0]);
        assert(trace[0] == head[0]);
        match first[0] {
            Action::Modify { .. } => {
                assert(trace.skip(2) =~= head.skip(2) + tail);
                lemma_what_is_left_splits(rest, second, head.skip(2), tail, next);
            },
            Action::Poll { mask, .. } => {
                assert(trace.skip(1) =~= head.skip(1) + tail);
                if head[0].1 & mask != 0 {
                    lemma_what_is_left_splits(first, second, head.skip(1), tail, world);
                } else {
                    lemma_what_is_left_splits(rest, second, head.skip(1), tail, next);
                }
            },
            _ => {
                assert(trace.skip(1) =~= head.skip(1) + tail);
                lemma_what_is_left_splits(rest, second, head.skip(1), tail, next);
            },
        }
    }
}

/// What each action takes by itself. A write, a store, a fence and a fetch are one access
/// each. A modification reads the register, and writes it with just the masked bits replaced.
pub proof fn law_each_action_takes_these_accesses(action: Action, trace: Seq<(Access, u32)>)
    requires
        performs(seq![action], trace),
    ensures
        !(action is Modify) && !(action is Poll) ==> trace.len() == 1,
        action matches Action::Write { register, value } ==> trace[0].0 == (Access::Write {
            register,
            value,
        }),
        action matches Action::Store { address, value } ==> trace[0].0 == (Access::Store {
            address,
            value,
        }),
        action is Fence ==> trace[0].0 is Fence,
        action matches Action::Fetch { register } ==> trace[0].0 == (Access::Read { register }),
        action matches Action::Modify { register, mask, bits } ==> {
            &&& trace.len() == 2
            &&& trace[0].0 == (Access::Read { register })
            &&& trace[1].0 == (Access::Write { register, value: (trace[0].1 & !mask) | bits })
        },
{
    reveal_with_fuel(performs, 2);
    assert(seq![action].skip(1).len() == 0);
    if action is Modify {
        assert(trace.skip(2).len() == 0);
    } else if !(action is Poll) {
        assert(trace.skip(1).len() == 0);
    }
}

/// A trace of a list that begins with a modification begins with a read of what the register
/// holds, and a write of that with the change. The rest performs the rest.
pub proof fn lemma_modify_comes_first(
    actions: Seq<Action>,
    trace: Seq<(Access, u32)>,
    world: World,
    register: Register,
    mask: u32,
    bits: u32,
)
    requires
        performs(actions, trace),
        modifies_what_it_left(world, actions, trace),
        actions.len() > 0,
        actions[0] == (Action::Modify { register, mask, bits }),
    ensures
        trace.len() >= 2,
        trace[0].0 == (Access::Read { register }),
        trace[1].0 == (Access::Write {
            register,
            value: modified(world.registers[register], mask, bits),
        }),
        performs(actions.skip(1), trace.skip(2)),
        modifies_what_it_left(world.after(actions[0]), actions.skip(1), trace.skip(2)),
        world.after_trace(trace.take(1)) == world,
        world.after_trace(trace.take(2)) == world.after(actions[0]),
{
    assert(trace.take(0) =~= Seq::empty());
    law_next_access_has_its_effect(world, trace, 0);
    law_next_access_has_its_effect(world, trace, 1);
}

/// A trace of a list that begins with a write begins with that write. The rest performs the
/// rest.
pub proof fn lemma_write_comes_first(
    actions: Seq<Action>,
    trace: Seq<(Access, u32)>,
    world: World,
    register: Register,
    value: u32,
)
    requires
        performs(actions, trace),
        modifies_what_it_left(world, actions, trace),
        actions.len() > 0,
        actions[0] == (Action::Write { register, value }),
    ensures
        trace.len() >= 1,
        trace[0].0 == (Access::Write { register, value }),
        performs(actions.skip(1), trace.skip(1)),
        modifies_what_it_left(world.after(actions[0]), actions.skip(1), trace.skip(1)),
        world.after_trace(trace.take(1)) == world.after(actions[0]),
{
    assert(trace.take(0) =~= Seq::empty());
    law_next_access_has_its_effect(world, trace, 0);
}

/// A poll is a run of reads. Only the last one finds the bits clear.
pub proof fn law_poll_ends_with_clear_bits(register: Register, mask: u32, trace: Seq<(Access, u32)>)
    requires
        performs(seq![Action::Poll { register, mask }], trace),
    ensures
        trace.len() > 0,
        forall|i: int| 0 <= i < trace.len() ==> (#[trigger] trace[i]).0 == (Access::Read {
            register,
        }),
        forall|i: int| 0 <= i < trace.len() - 1 ==> (#[trigger] trace[i]).1 & mask != 0,
        trace.last().1 & mask == 0,
    decreases trace.len(),
{
    reveal_with_fuel(performs, 2);
    let actions = seq![Action::Poll { register, mask }];
    assert(actions.skip(1) =~= Seq::empty());
    let rest = trace.skip(1);
    if trace[0].1 & mask != 0 {
        law_poll_ends_with_clear_bits(register, mask, rest);
        assert forall|i: int| 0 <= i < trace.len() implies (#[trigger] trace[i]).0 == (
        Access::Read { register }) && (i < trace.len() - 1 ==> trace[i].1 & mask != 0) by {
            if i > 0 {
                assert(rest[i - 1] == trace[i]);
            }
        }
        assert(rest.last() == trace.last());
    }
}

} // verus!
