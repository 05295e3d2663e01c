//! What holds of a ring over many operations.
//!
//! The laws here speak of memory in which the DMA controller changes nothing: it was reset,
//! or has nothing to do.

use crate::action::{self, Action};
use crate::descriptor::{self, owner};
use crate::register::Register;
use crate::ring::{self, RingRef};
use vstd::prelude::*;

verus! {

/// The words of descriptor `i`.
pub open spec fn words_at(memory: Map<u32, u32>, ring: RingRef, i: int) -> Seq<u32> {
    let address = ring.descriptor_address(i);
    seq![
        memory[ring::word_address(address, 0)],
        memory[ring::word_address(address, 1)],
        memory[ring::word_address(address, 2)],
        memory[ring::word_address(address, 3)],
    ]
}

/// Memory after `words` were put into the descriptor at `address`.
pub open spec fn posted(memory: Map<u32, u32>, address: u32, words: Seq<u32>) -> Map<u32, u32> {
    memory.insert(ring::word_address(address, 0), words[0]).insert(
        ring::word_address(address, 1),
        words[1],
    ).insert(ring::word_address(address, 2), words[2]).insert(
        ring::word_address(address, 3),
        words[3],
    )
}

/// The ring and the memory after `words` were put into one descriptor after the other.
pub open spec fn posted_all(ring: RingRef, memory: Map<u32, u32>, words: Seq<Seq<u32>>) -> (
    RingRef,
    Map<u32, u32>,
)
    decreases words.len(),
{
    if words.len() == 0 {
        (ring, memory)
    } else {
        let (ring, memory) = posted_all(ring, memory, words.drop_last());
        (
            ring.advanced(),
            posted(memory, ring.descriptor_address(ring.index as int), words.last()),
        )
    }
}

/// How many descriptors come before descriptor `i`, counted from the current one.
pub open spec fn distance(ring: RingRef, i: int) -> int {
    if i >= ring.index {
        i - ring.index
    } else {
        i - ring.index + ring.len
    }
}

/// Advancing moves the index up by one, and from the last descriptor to the first.
pub proof fn law_advance_wraps(ring: RingRef)
    requires
        ring.wf(),
    ensures
        ring.advanced().wf(),
        ring.advanced().index == if ring.index + 1 < ring.len {
            ring.index + 1
        } else {
            0
        },
{
    if ring.index + 1 < ring.len {
        vstd::arithmetic::div_mod::lemma_small_mod((ring.index + 1) as nat, ring.len as nat);
    } else {
        vstd::arithmetic::div_mod::lemma_mod_self_0(ring.len as int);
    }
}

/// The ring after its index advanced `k` times.
pub open spec fn advanced_by(ring: RingRef, k: nat) -> RingRef
    decreases k,
{
    if k == 0 {
        ring
    } else {
        advanced_by(ring, (k - 1) as nat).advanced()
    }
}

/// However often the index advances, the ring starts where it did: at its first descriptor,
/// which is aligned, and from which every other one is found.
pub proof fn law_start_address_stays(ring: RingRef, k: nat, j: int)
    requires
        ring.wf(),
        0 <= j < ring.len,
    ensures
        advanced_by(ring, k).wf(),
        advanced_by(ring, k) == (RingRef { index: advanced_by(ring, k).index, ..ring }),
        advanced_by(ring, k).index == (ring.index + k) % (ring.len as int),
        ({
            let start = advanced_by(ring, k).descriptor_address(0);
            &&& start == ring.descriptor_address(0)
            &&& start == ring.placement.descriptors
            &&& start % 8 == 0
            &&& advanced_by(ring, k).descriptor_address(j) == start + ring::DESCRIPTOR_SIZE * j
        }),
    decreases k,
{
    let len = ring.len as int;
    if k == 0 {
        vstd::arithmetic::div_mod::lemma_small_mod(ring.index as nat, ring.len as nat);
    } else {
        let less = (k - 1) as nat;
        law_start_address_stays(ring, less, j);
        law_advance_wraps(advanced_by(ring, less));
        vstd::arithmetic::div_mod::lemma_add_mod_noop(ring.index + less, 1, len);
        vstd::arithmetic::div_mod::lemma_small_mod(1, ring.len as nat);
        let before = advanced_by(ring, less).index as int;
        if before + 1 < len {
            vstd::arithmetic::div_mod::lemma_small_mod((before + 1) as nat, ring.len as nat);
        } else {
            vstd::arithmetic::div_mod::lemma_mod_self_0(len);
        }
    }
}

/// Every descriptor and every buffer of a ring starts at a multiple of 8, lies on the bus,
/// and overlaps no other descriptor and no other buffer.
pub proof fn law_ring_memory_is_aligned_and_apart(ring: RingRef, i: int, j: int)
    requires
        ring.wf(),
        0 <= i < j < ring.len,
    ensures
        ring.descriptor_address(i) == ring.placement.descriptors + ring::DESCRIPTOR_SIZE * i,
        ring.buffer_address(i) == ring.placement.buffers + ring::BUFFER_SIZE * i,
        ring.descriptor_address(i) + ring::DESCRIPTOR_SIZE <= ring.descriptor_address(j),
        ring.buffer_address(i) + ring::BUFFER_SIZE <= ring.buffer_address(j),
        ring.descriptor_address(j) + ring::DESCRIPTOR_SIZE <= ring::BUS_SIZE,
        ring.buffer_address(j) + ring::BUFFER_SIZE <= ring::BUS_SIZE,
        ring.descriptor_address(i) % 8 == 0,
        ring.descriptor_address(j) % 8 == 0,
        ring.buffer_address(i) % 8 == 0,
        ring.buffer_address(j) % 8 == 0,
        forall|d: int, b: int|
            #![trigger ring.descriptor_address(d), ring.buffer_address(b)]
            0 <= d < ring.len && 0 <= b < ring.len ==> ring::ranges_apart(
                ring.descriptor_address(d) as int,
                ring::DESCRIPTOR_SIZE as int,
                ring.buffer_address(b) as int,
                ring::BUFFER_SIZE as int,
            ),
{
}

/// Putting words into a descriptor leaves every other descriptor alone.
proof fn lemma_posted(memory: Map<u32, u32>, ring: RingRef, at: int, words: Seq<u32>, i: int)
    requires
        ring.wf(),
        words.len() == 4,
        0 <= at < ring.len,
        0 <= i < ring.len,
    ensures
        words_at(posted(memory, ring.descriptor_address(at), words), ring, i) == if i == at {
            words
        } else {
            words_at(memory, ring, i)
        },
{
    let after = words_at(posted(memory, ring.descriptor_address(at), words), ring, i);
    if i == at {
        assert(after =~= words);
    } else {
        assert(after =~= words_at(memory, ring, i));
    }
}

/// Putting words into one descriptor after the other, at most once around the ring, fills
/// the descriptors in order from the current one, and leaves the rest alone.
pub proof fn law_ring_fills_in_order(
    ring: RingRef,
    memory: Map<u32, u32>,
    words: Seq<Seq<u32>>,
    i: int,
)
    requires
        ring.wf(),
        words.len() <= ring.len,
        forall|k: int| 0 <= k < words.len() ==> (#[trigger] words[k]).len() == 4,
        0 <= i < ring.len,
    ensures
        posted_all(ring, memory, words).0.wf(),
        posted_all(ring, memory, words).0 == (RingRef {
            index: posted_all(ring, memory, words).0.index,
            ..ring
        }),
        posted_all(ring, memory, words).0.index == if ring.index + words.len() < ring.len {
            ring.index + words.len()
        } else {
            ring.index + words.len() - ring.len
        },
        words_at(posted_all(ring, memory, words).1, ring, i) == if distance(ring, i) < words.len() {
            words[distance(ring, i)]
        } else {
            words_at(memory, ring, i)
        },
    decreases words.len(),
{
    if words.len() > 0 {
        let rest = words.drop_last();
        assert forall|k: int| 0 <= k < rest.len() implies (#[trigger] rest[k]).len() == 4 by {
            assert(rest[k] == words[k]);
        }
        assert(words[words.len() - 1].len() == 4);
        law_ring_fills_in_order(ring, memory, rest, i);
        let (before, filled) = posted_all(ring, memory, rest);
        law_advance_wraps(before);
        lemma_posted(filled, before, before.index as int, words.last(), i);
        assert(words_at(filled, before, i) == words_at(filled, ring, i));
    }
}

/// Software owns every descriptor of the ring.
pub open spec fn software_owns_all(ring: RingRef, memory: Map<u32, u32>) -> bool {
    forall|i: int| 0 <= i < ring.len ==> owner(#[trigger] words_at(memory, ring, i)[3]) is Software
}

/// The last word of the current descriptor.
pub open spec fn status_in(ring: RingRef, memory: Map<u32, u32>) -> u32 {
    memory[ring.spec_status_address()]
}

/// The ring and the world after the current descriptor was handed to the receive side, and
/// so on, `rounds` times.
pub open spec fn after_submits(ring: RingRef, world: action::World, rounds: nat) -> (
    RingRef,
    action::World,
)
    decreases rounds,
{
    if rounds == 0 {
        (ring, world)
    } else {
        let (ring, world) = after_submits(ring, world, (rounds - 1) as nat);
        (ring.advanced(), world.after_all(ring.submit_actions()))
    }
}

/// The actions that hand the current descriptor to the receive side, and so on, `rounds`
/// times.
pub open spec fn submit_all_actions(ring: RingRef, rounds: nat) -> Seq<Action>
    decreases rounds,
{
    if rounds == 0 {
        Seq::empty()
    } else {
        let less = (rounds - 1) as nat;
        submit_all_actions(ring, less) + advanced_by(ring, less).submit_actions()
    }
}

/// Handing over descriptors one by one advances the ring as often, and carries out the
/// actions of all of them.
pub proof fn law_submits_add_up(ring: RingRef, world: action::World, rounds: nat)
    ensures
        after_submits(ring, world, rounds) == (
            advanced_by(ring, rounds),
            world.after_all(submit_all_actions(ring, rounds)),
        ),
    decreases rounds,
{
    if rounds > 0 {
        let less = (rounds - 1) as nat;
        law_submits_add_up(ring, world, less);
        action::law_actions_compose(
            world,
            submit_all_actions(ring, less),
            advanced_by(ring, less).submit_actions(),
        );
    }
}

/// The ring and the world after packets of the given lengths were handed to the transmit
/// side, one after the other.
pub open spec fn after_transmits(ring: RingRef, world: action::World, lens: Seq<u32>) -> (
    RingRef,
    action::World,
)
    decreases lens.len(),
{
    if lens.len() == 0 {
        (ring, world)
    } else {
        let (ring, world) = after_transmits(ring, world, lens.drop_last());
        (ring.advanced(), world.after_all(ring.transmit_actions(lens.last())))
    }
}

/// The descriptor that is `k` after the current one.
pub open spec fn successor(ring: RingRef, k: int) -> int {
    if ring.index + k < ring.len {
        ring.index + k
    } else {
        ring.index + k - ring.len
    }
}

/// In either direction, the tail pointer moves only after all four words of the descriptor
/// were stored, and after a fence.
///
/// To receive, it moves to the descriptor that was stored; to send, to the one behind it.
pub proof fn law_tail_pointer_moves_last(ring: RingRef, len: u32)
    requires
        ring.wf(),
    ensures
        ring.submit_actions().len() == 6,
        ring.transmit_actions(len).len() == 6,
        forall|i: int| 0 <= i < 4 ==> (#[trigger] ring.submit_actions()[i]) is Store,
        forall|i: int| 0 <= i < 4 ==> (#[trigger] ring.transmit_actions(len)[i]) is Store,
        ring.submit_actions()[4] is Fence,
        ring.transmit_actions(len)[4] is Fence,
        ring.submit_actions()[5] == (Action::Write {
            register: Register::DmaCh0RxdescTailPointer,
            value: ring.descriptor_address(ring.index as int),
        }),
        ring.transmit_actions(len)[5] == (Action::Write {
            register: Register::DmaCh0TxdescTailPointer,
            value: ring.descriptor_address(successor(ring, 1)),
        }),
{
    law_advance_wraps(ring);
}

/// The four accesses that store a descriptor, and the fence and the register write behind
/// them.
proof fn lemma_six_accesses(
    actions: Seq<Action>,
    trace: Seq<(action::Access, u32)>,
    register: Register,
    value: u32,
)
    requires
        actions.len() == 6,
        forall|i: int| 0 <= i < 4 ==> (#[trigger] actions[i]) is Store,
        actions[4] is Fence,
        actions[5] == (Action::Write { register, value }),
        action::performs(actions, trace),
    ensures
        trace.len() == 6,
        forall|i: int|
            0 <= i < 4 ==> (#[trigger] trace[i]).0 == (action::Access::Store {
                address: actions[i]->Store_address,
                value: actions[i]->Store_value,
            }),
        trace[4].0 is Fence,
        trace[5].0 == (action::Access::Write { register, value }),
{
    reveal_with_fuel(action::performs, 7);
    assert(actions[0] is Store && actions[1] is Store && actions[2] is Store && actions[3] is Store);
    let (a1, t1) = (actions.skip(1), trace.skip(1));
    let (a2, t2) = (a1.skip(1), t1.skip(1));
    let (a3, t3) = (a2.skip(1), t2.skip(1));
    let (a4, t4) = (a3.skip(1), t3.skip(1));
    let (a5, t5) = (a4.skip(1), t4.skip(1));
    assert(a1[0] == actions[1] && t1[0] == trace[1]);
    assert(a2[0] == actions[2] && t2[0] == trace[2]);
    assert(a3[0] == actions[3] && t3[0] == trace[3]);
    assert(a4[0] == actions[4] && t4[0] == trace[4]);
    assert(a5[0] == actions[5] && t5[0] == trace[5]);
    assert(a5.skip(1).len() == 0 && t5.skip(1).len() == 0);
}

/// What the DMA controller sees when a descriptor comes back to receive: the descriptor, word
/// by word, with its own buffer, valid, and owned by the controller; then a fence; and only
/// then the tail pointer, at this descriptor. There is no other access.
pub proof fn law_submit_is_seen_in_order(ring: RingRef, trace: Seq<(action::Access, u32)>)
    requires
        ring.wf(),
        action::performs(ring.submit_actions(), trace),
    ensures
        ({
            let descriptor = ring.placement.descriptors + 16 * ring.index;
            let buffer = ring.placement.buffers + 1536 * ring.index;
            &&& trace.len() == 6
            &&& trace[0].0 == (action::Access::Store {
                address: descriptor as u32,
                value: buffer as u32,
            })
            &&& trace[1].0 == (action::Access::Store { address: (descriptor + 4) as u32, value: 0 })
            &&& trace[2].0 == (action::Access::Store { address: (descriptor + 8) as u32, value: 0 })
            &&& trace[3].0 == (action::Access::Store {
                address: (descriptor + 12) as u32,
                value: 0x8100_0000,
            })
            &&& trace[4].0 is Fence
            &&& trace[5].0 == (action::Access::Write {
                register: Register::DmaCh0RxdescTailPointer,
                value: descriptor as u32,
            })
        }),
{
    let at = ring.index as int;
    descriptor::law_receive_format_is_exact(ring.buffer_address(at));
    lemma_six_accesses(
        ring.submit_actions(),
        trace,
        Register::DmaCh0RxdescTailPointer,
        ring.descriptor_address(at),
    );
}

/// What the DMA controller sees when a packet is to be sent: the descriptor, word by word,
/// with its own buffer and the length, as one whole checksummed packet that the controller
/// owns; then a fence; and only then the tail pointer, at the descriptor behind it, or at the
/// first one behind the last. There is no other access.
pub proof fn law_transmit_is_seen_in_order(
    ring: RingRef,
    len: u32,
    trace: Seq<(action::Access, u32)>,
)
    requires
        ring.wf(),
        action::performs(ring.transmit_actions(len), trace),
    ensures
        ({
            let descriptor = ring.placement.descriptors + 16 * ring.index;
            let buffer = ring.placement.buffers + 1536 * ring.index;
            let next: int = if ring.index + 1 < ring.len {
                ring.index + 1
            } else {
                0
            };
            &&& trace.len() == 6
            &&& trace[0].0 == (action::Access::Store {
                address: descriptor as u32,
                value: buffer as u32,
            })
            &&& trace[1].0 == (action::Access::Store { address: (descriptor + 4) as u32, value: 0 })
            &&& trace[2].0 == (action::Access::Store {
                address: (descriptor + 8) as u32,
                value: (len % 0x4000) as u32,
            })
            &&& trace[3].0 == (action::Access::Store {
                address: (descriptor + 12) as u32,
                value: (0xb003_0000 + len % 0x8000) as u32,
            })
            &&& trace[4].0 is Fence
            &&& trace[5].0 == (action::Access::Write {
                register: Register::DmaCh0TxdescTailPointer,
                value: (ring.placement.descriptors + 16 * next) as u32,
            })
        }),
{
    let at = ring.index as int;
    law_advance_wraps(ring);
    descriptor::law_transmit_format_is_exact(ring.buffer_address(at), len);
    lemma_six_accesses(
        ring.transmit_actions(len),
        trace,
        Register::DmaCh0TxdescTailPointer,
        ring.advanced().descriptor_address(ring.advanced().index as int),
    );
}

/// The word that tells who owns the current descriptor is the last of its four.
pub proof fn law_status_is_the_last_word(ring: RingRef)
    requires
        ring.wf(),
    ensures
        ring.spec_status_address() == ring.placement.descriptors + 16 * ring.index + 12,
{
}

/// Advancing moves on by one descriptor, and from the last to the first. The ring stays
/// where it is, and as long as it is.
pub proof fn law_advancing_moves_the_index_alone(ring: RingRef)
    requires
        ring.wf(),
    ensures
        ring.advanced().placement == ring.placement,
        ring.advanced().len == ring.len,
        ring.index + 1 < ring.len ==> ring.advanced().index == ring.index + 1,
        ring.index + 1 == ring.len ==> ring.advanced().index == 0,
{
    law_advance_wraps(ring);
}

/// Where a ring of `len` descriptors can lie: its 16 bytes for each descriptor and 1536 bytes
/// for each buffer start at multiples of 8, end before the bus does, and do not overlap.
pub proof fn law_placements_that_can_be_used(placement: ring::Placement, len: int)
    requires
        len >= 0,
    ensures
        placement.is_valid(len) <==> {
            let list_end = placement.descriptors + 16 * len;
            let buffers_end = placement.buffers + 1536 * len;
            &&& list_end <= 0x1_0000_0000
            &&& buffers_end <= 0x1_0000_0000
            &&& placement.descriptors % 8 == 0
            &&& placement.buffers % 8 == 0
            &&& list_end <= placement.buffers || buffers_end <= placement.descriptors
        },
{
}

/// Two rings are apart if each half of the one ends before each half of the other starts, or
/// starts after it ends.
pub proof fn law_rings_that_are_apart(a: RingRef, b: RingRef)
    ensures
        a.is_apart_from(b) <==> {
            let (a_list, a_buffers) = (a.placement.descriptors, a.placement.buffers);
            let (b_list, b_buffers) = (b.placement.descriptors, b.placement.buffers);
            let (a_list_end, a_buffers_end) = (a_list + 16 * a.len, a_buffers + 1536 * a.len);
            let (b_list_end, b_buffers_end) = (b_list + 16 * b.len, b_buffers + 1536 * b.len);
            &&& a_list_end <= b_list || b_list_end <= a_list
            &&& a_list_end <= b_buffers || b_buffers_end <= a_list
            &&& a_buffers_end <= b_list || b_list_end <= a_buffers
            &&& a_buffers_end <= b_buffers || b_buffers_end <= a_buffers
        },
{
}

/// Every word of every descriptor of a new ring is zero, and so is every byte of every
/// buffer.
pub proof fn law_new_rings_hold_zeros<const N: usize>(
    ring: ring::Ring<N>,
    i: int,
    word: int,
    byte: int,
)
    requires
        ring.is_zero(),
        0 <= i < N,
        0 <= word < 4,
        0 <= byte < 1536,
    ensures
        ring.descriptors.list@[i]@[word] == 0,
        ring.buffers@[i].bytes@[byte] == 0,
{
    assert(ring.buffers@[i].is_zero());
}

/// Handing a descriptor to the receive side stores that descriptor, moves the tail pointer,
/// and changes nothing else.
pub proof fn law_submit_touches_one_descriptor(ring: RingRef, world: action::World)
    requires
        ring.wf(),
    ensures
        world.after_all(ring.submit_actions()).memory == posted(
            world.memory,
            ring.descriptor_address(ring.index as int),
            descriptor::receive_format(ring.buffer_address(ring.index as int)),
        ),
        world.after_all(ring.submit_actions()).registers == world.registers.insert(
            Register::DmaCh0RxdescTailPointer,
            ring.descriptor_address(ring.index as int),
        ),
{
    reveal_with_fuel(action::World::after_all, 7);
}

/// Handing a packet to the transmit side stores one descriptor, moves the tail pointer, and
/// changes nothing else.
pub proof fn law_transmit_touches_one_descriptor(ring: RingRef, world: action::World, len: u32)
    requires
        ring.wf(),
    ensures
        world.after_all(ring.transmit_actions(len)).memory == posted(
            world.memory,
            ring.descriptor_address(ring.index as int),
            descriptor::transmit_format(ring.buffer_address(ring.index as int), len),
        ),
        world.after_all(ring.transmit_actions(len)).registers == world.registers.insert(
            Register::DmaCh0TxdescTailPointer,
            ring.advanced().descriptor_address(ring.advanced().index as int),
        ),
{
    reveal_with_fuel(action::World::after_all, 7);
}

/// Every store that hands over a descriptor, in either direction, covers bytes of the list of
/// descriptors only, and so none of a buffer.
pub proof fn law_stores_stay_in_the_list(ring: RingRef, len: u32, k: int)
    requires
        ring.wf(),
        0 <= k < 6,
    ensures
        ring.submit_actions()[k] matches Action::Store { address, .. } ==> forall|x: int|
            address <= x < address + ring::WORD_SIZE ==> #[trigger] ring.in_list(x)
                && !ring.in_buffers(x),
        ring.transmit_actions(len)[k] matches Action::Store { address, .. } ==> forall|x: int|
            address <= x < address + ring::WORD_SIZE ==> #[trigger] ring.in_list(x)
                && !ring.in_buffers(x),
{
}

/// Handing over a descriptor, in either direction, leaves all memory outside the list of
/// descriptors as it was: every buffer too.
pub proof fn law_handing_over_keeps_other_memory(
    ring: RingRef,
    world: action::World,
    len: u32,
    x: u32,
)
    requires
        ring.wf(),
        !ring.in_list(x as int) || ring.in_buffers(x as int),
    ensures
        world.after_all(ring.submit_actions()).memory[x] == world.memory[x],
        world.after_all(ring.transmit_actions(len)).memory[x] == world.memory[x],
{
    law_submit_touches_one_descriptor(ring, world);
    law_transmit_touches_one_descriptor(ring, world, len);
}

/// However many descriptors go to the receive side, all memory outside the list of
/// descriptors stays as it was.
pub proof fn law_submits_keep_other_memory(
    ring: RingRef,
    world: action::World,
    rounds: nat,
    x: u32,
)
    requires
        ring.wf(),
        !ring.in_list(x as int) || ring.in_buffers(x as int),
    ensures
        after_submits(ring, world, rounds).1.memory[x] == world.memory[x],
    decreases rounds,
{
    if rounds > 0 {
        let less = (rounds - 1) as nat;
        law_submits_keep_other_memory(ring, world, less, x);
        law_submits_add_up(ring, world, less);
        law_start_address_stays(ring, less, 0);
        let (before, partly) = after_submits(ring, world, less);
        law_handing_over_keeps_other_memory(before, partly, 0, x);
    }
}

/// However many packets go to the transmit side, all memory outside the list of descriptors
/// stays as it was.
pub proof fn law_transmits_keep_other_memory(
    ring: RingRef,
    world: action::World,
    lens: Seq<u32>,
    x: u32,
)
    requires
        ring.wf(),
        !ring.in_list(x as int) || ring.in_buffers(x as int),
    ensures
        after_transmits(ring, world, lens).0 == advanced_by(ring, lens.len()),
        after_transmits(ring, world, lens).1.memory[x] == world.memory[x],
    decreases lens.len(),
{
    if lens.len() > 0 {
        let less = lens.drop_last();
        law_transmits_keep_other_memory(ring, world, less, x);
        law_start_address_stays(ring, less.len(), 0);
        let (before, partly) = after_transmits(ring, world, less);
        law_handing_over_keeps_other_memory(before, partly, lens.last(), x);
    }
}

/// Two rings that share no memory share no descriptor and no buffer, and being apart goes
/// both ways.
pub proof fn law_rings_apart(a: RingRef, b: RingRef, x: int)
    requires
        a.is_apart_from(b),
    ensures
        b.is_apart_from(a),
        a.in_list(x) ==> !b.in_list(x) && !b.in_buffers(x),
        a.in_buffers(x) ==> !b.in_list(x) && !b.in_buffers(x),
{
}

/// What either direction does to its ring leaves every descriptor of the other ring as it
/// was.
pub proof fn law_rings_do_not_interfere(
    ring: RingRef,
    other: RingRef,
    world: action::World,
    rounds: nat,
    lens: Seq<u32>,
    i: int,
)
    requires
        ring.wf(),
        other.wf(),
        ring.is_apart_from(other),
        0 <= i < other.len,
    ensures
        words_at(after_submits(ring, world, rounds).1.memory, other, i) == words_at(
            world.memory,
            other,
            i,
        ),
        words_at(after_transmits(ring, world, lens).1.memory, other, i) == words_at(
            world.memory,
            other,
            i,
        ),
{
    let address = other.descriptor_address(i);
    assert forall|w: int| 0 <= w < 4 implies {
        let x = #[trigger] ring::word_address(address, w);
        &&& after_submits(ring, world, rounds).1.memory[x] == world.memory[x]
        &&& after_transmits(ring, world, lens).1.memory[x] == world.memory[x]
    } by {
        let x = ring::word_address(address, w);
        law_rings_apart(ring, other, x as int);
        law_submits_keep_other_memory(ring, world, rounds, x);
        law_transmits_keep_other_memory(ring, world, lens, x);
    }
    assert(words_at(after_submits(ring, world, rounds).1.memory, other, i) =~= words_at(
        world.memory,
        other,
        i,
    ));
    assert(words_at(after_transmits(ring, world, lens).1.memory, other, i) =~= words_at(
        world.memory,
        other,
        i,
    ));
}

/// The words that hand over the first `rounds` descriptors, from the current one.
spec fn receive_formats(ring: RingRef, rounds: nat) -> Seq<Seq<u32>> {
    Seq::new(
        rounds,
        |k: int| descriptor::receive_format(ring.buffer_address(successor(ring, k))),
    )
}

/// The words that send packets of the given lengths, from the current descriptor on.
spec fn transmit_formats(ring: RingRef, lens: Seq<u32>) -> Seq<Seq<u32>> {
    Seq::new(
        lens.len(),
        |k: int| descriptor::transmit_format(ring.buffer_address(successor(ring, k)), lens[k]),
    )
}

proof fn lemma_after_submits(ring: RingRef, world: action::World, rounds: nat)
    requires
        ring.wf(),
        rounds <= ring.len,
    ensures
        after_submits(ring, world, rounds).0 == posted_all(
            ring,
            world.memory,
            receive_formats(ring, rounds),
        ).0,
        after_submits(ring, world, rounds).1.memory == posted_all(
            ring,
            world.memory,
            receive_formats(ring, rounds),
        ).1,
    decreases rounds,
{
    if rounds > 0 {
        let less = (rounds - 1) as nat;
        lemma_after_submits(ring, world, less);
        let (before, partly) = after_submits(ring, world, less);
        assert(receive_formats(ring, rounds).drop_last() =~= receive_formats(ring, less));
        law_ring_fills_in_order(ring, world.memory, receive_formats(ring, less), 0);
        law_submit_touches_one_descriptor(before, partly);
    }
}

proof fn lemma_after_transmits(ring: RingRef, world: action::World, lens: Seq<u32>)
    requires
        ring.wf(),
        lens.len() <= ring.len,
    ensures
        after_transmits(ring, world, lens).0 == posted_all(
            ring,
            world.memory,
            transmit_formats(ring, lens),
        ).0,
        after_transmits(ring, world, lens).1.memory == posted_all(
            ring,
            world.memory,
            transmit_formats(ring, lens),
        ).1,
    decreases lens.len(),
{
    if lens.len() > 0 {
        let less = lens.drop_last();
        lemma_after_transmits(ring, world, less);
        let (before, partly) = after_transmits(ring, world, less);
        assert(transmit_formats(ring, lens).drop_last() =~= transmit_formats(ring, less));
        law_ring_fills_in_order(ring, world.memory, transmit_formats(ring, less), 0);
        law_transmit_touches_one_descriptor(before, partly, lens.last());
    }
}

/// Handing descriptors to the receive side goes once around the ring: descriptor by
/// descriptor, each with its own buffer, while the others keep what they hold.
pub proof fn law_submits_go_around(ring: RingRef, world: action::World, rounds: nat, i: int)
    requires
        ring.wf(),
        rounds <= ring.len,
        0 <= i < ring.len,
    ensures
        after_submits(ring, world, rounds).0.wf(),
        after_submits(ring, world, rounds).0 == (RingRef {
            index: successor(ring, rounds as int) as usize,
            ..ring
        }),
        words_at(after_submits(ring, world, rounds).1.memory, ring, i) == if distance(ring, i)
            < rounds {
            descriptor::receive_format(ring.buffer_address(i))
        } else {
            words_at(world.memory, ring, i)
        },
{
    lemma_after_submits(ring, world, rounds);
    law_ring_fills_in_order(ring, world.memory, receive_formats(ring, rounds), i);
}

/// Handing packets to the transmit side goes once around the ring: descriptor by
/// descriptor, each with its own buffer and length, while the others keep what they hold.
pub proof fn law_transmits_go_around(ring: RingRef, world: action::World, lens: Seq<u32>, i: int)
    requires
        ring.wf(),
        lens.len() <= ring.len,
        0 <= i < ring.len,
    ensures
        after_transmits(ring, world, lens).0.wf(),
        after_transmits(ring, world, lens).0 == (RingRef {
            index: successor(ring, lens.len() as int) as usize,
            ..ring
        }),
        words_at(after_transmits(ring, world, lens).1.memory, ring, i) == if distance(ring, i)
            < lens.len() {
            descriptor::transmit_format(ring.buffer_address(i), lens[distance(ring, i)])
        } else {
            words_at(world.memory, ring, i)
        },
{
    lemma_after_transmits(ring, world, lens);
    law_ring_fills_in_order(ring, world.memory, transmit_formats(ring, lens), i);
}

/// If software owns every descriptor, it can hand over as many as there are.
pub proof fn law_submits_find_software(ring: RingRef, world: action::World, rounds: nat)
    requires
        ring.wf(),
        software_owns_all(ring, world.memory),
        rounds < ring.len,
    ensures
        owner(
            status_in(
                after_submits(ring, world, rounds).0,
                after_submits(ring, world, rounds).1.memory,
            ),
        ) is Software,
{
    let at = successor(ring, rounds as int);
    law_submits_go_around(ring, world, rounds, at);
    let (after, filled) = after_submits(ring, world, rounds);
    assert(words_at(filled.memory, ring, at)[3] == status_in(after, filled.memory));
    assert(owner(words_at(world.memory, ring, at)[3]) is Software);
}

/// Whatever the descriptors hold to begin with: after as many were handed over as there
/// are, the current one belongs to hardware, and the ring is back where it was.
pub proof fn law_submits_run_out(ring: RingRef, world: action::World)
    requires
        ring.wf(),
    ensures
        after_submits(ring, world, ring.len as nat).0 == ring,
        owner(
            status_in(ring, after_submits(ring, world, ring.len as nat).1.memory),
        ) is Hardware,
{
    let rounds = ring.len as nat;
    let at = ring.index as int;
    law_submits_go_around(ring, world, rounds, at);
    descriptor::law_receive_format_belongs_to_hardware(ring.buffer_address(at));
    let filled = after_submits(ring, world, rounds).1;
    assert(words_at(filled.memory, ring, at)[3] == status_in(ring, filled.memory));
}

/// If software owns every descriptor, it can send as many packets as there are
/// descriptors, whatever their lengths, before hardware sends one.
pub proof fn law_transmits_find_software(ring: RingRef, world: action::World, lens: Seq<u32>)
    requires
        ring.wf(),
        software_owns_all(ring, world.memory),
        lens.len() < ring.len,
    ensures
        owner(
            status_in(
                after_transmits(ring, world, lens).0,
                after_transmits(ring, world, lens).1.memory,
            ),
        ) is Software,
{
    let at = successor(ring, lens.len() as int);
    law_transmits_go_around(ring, world, lens, at);
    let (after, filled) = after_transmits(ring, world, lens);
    assert(words_at(filled.memory, ring, at)[3] == status_in(after, filled.memory));
    assert(owner(words_at(world.memory, ring, at)[3]) is Software);
}

/// After as many packets as there are descriptors, the current descriptor belongs to
/// hardware: no packet that waits to be sent is ever overwritten.
pub proof fn law_transmits_run_out(ring: RingRef, world: action::World, lens: Seq<u32>)
    requires
        ring.wf(),
        lens.len() == ring.len,
    ensures
        after_transmits(ring, world, lens).0 == ring,
        owner(status_in(ring, after_transmits(ring, world, lens).1.memory)) is Hardware,
{
    let at = ring.index as int;
    law_transmits_go_around(ring, world, lens, at);
    descriptor::law_transmit_format_is_one_checksummed_packet(ring.buffer_address(at), lens[0]);
    let filled = after_transmits(ring, world, lens).1;
    assert(words_at(filled.memory, ring, at)[3] == status_in(ring, filled.memory));
}

} // verus!
