//! What holds once the peripheral is up.

use crate::action;
use crate::descriptor::{self, owner, MAX_BUFFER_SIZE};
use crate::driver::{EnetQos, Startup};
use crate::initialize;
use crate::register::{self, Field, Register};
use crate::ring::{self, RingRef};
use crate::ring_laws;
use vstd::prelude::*;

verus! {

/// Startup and the world after `rounds` receive descriptors were handed over.
pub open spec fn after_fills(startup: Startup, world: action::World, rounds: nat) -> (
    Startup,
    action::World,
)
    decreases rounds,
{
    if rounds == 0 {
        (startup, world)
    } else {
        let (startup, world) = after_fills(startup, world, (rounds - 1) as nat);
        let rx_ring = startup.driver.rx_ring;
        (
            Startup { driver: EnetQos { rx_ring: rx_ring.advanced(), ..startup.driver }, ..startup },
            world.after_all(rx_ring.submit_actions()),
        )
    }
}

/// The word that the next step of startup is handed.
pub open spec fn next_status(startup: Startup, world: action::World) -> u32 {
    world.memory[startup.driver.rx_ring.spec_status_address()]
}

proof fn lemma_after_fills(startup: Startup, world: action::World, rounds: nat)
    ensures
        ({
            let (ring, filled) = ring_laws::after_submits(startup.driver.rx_ring, world, rounds);
            after_fills(startup, world, rounds) == (
                Startup { driver: EnetQos { rx_ring: ring, ..startup.driver }, ..startup },
                filled,
            )
        }),
    decreases rounds,
{
    if rounds > 0 {
        lemma_after_fills(startup, world, (rounds - 1) as nat);
    }
}

/// Startup hands every receive descriptor to the DMA controller, each with its own buffer,
/// and each exactly once: if software owns them all, it goes on for as many steps as there
/// are descriptors, and then stops, with the ring back where it was.
pub proof fn law_startup_hands_over_every_descriptor(startup: Startup, world: action::World)
    requires
        startup.wf(),
        ring_laws::software_owns_all(startup.driver.rx_ring, world.memory),
    ensures
        forall|k: nat|
            k < startup.driver.rx_ring.len ==> owner(
                next_status(
                    (#[trigger] after_fills(startup, world, k)).0,
                    after_fills(startup, world, k).1,
                ),
            ) is Software,
        ({
            let ring = startup.driver.rx_ring;
            let (after, filled) = after_fills(startup, world, ring.len as nat);
            &&& owner(next_status(after, filled)) is Hardware
            &&& after == startup
            &&& forall|i: int|
                0 <= i < ring.len ==> #[trigger] ring_laws::words_at(filled.memory, ring, i)
                    == descriptor::receive_format(ring.buffer_address(i))
        }),
{
    let ring = startup.driver.rx_ring;
    assert forall|k: nat| k < ring.len implies owner(
        next_status(
            (#[trigger] after_fills(startup, world, k)).0,
            after_fills(startup, world, k).1,
        ),
    ) is Software by {
        lemma_after_fills(startup, world, k);
        ring_laws::law_submits_find_software(ring, world, k);
    }
    law_startup_ends(startup, world);
    lemma_after_fills(startup, world, ring.len as nat);
    let filled = after_fills(startup, world, ring.len as nat).1;
    assert forall|i: int| 0 <= i < ring.len implies #[trigger] ring_laws::words_at(
        filled.memory,
        ring,
        i,
    ) == descriptor::receive_format(ring.buffer_address(i)) by {
        ring_laws::law_submits_go_around(ring, world, ring.len as nat, i);
    }
}

/// Whatever the descriptors hold to begin with, startup stops after at most as many steps
/// as there are receive descriptors: by then it comes across one that it handed over.
pub proof fn law_startup_ends(startup: Startup, world: action::World)
    requires
        startup.wf(),
    ensures
        ({
            let rounds = startup.driver.rx_ring.len as nat;
            let (after, filled) = after_fills(startup, world, rounds);
            &&& owner(next_status(after, filled)) is Hardware
            &&& after == startup
        }),
{
    lemma_after_fills(startup, world, startup.driver.rx_ring.len as nat);
    ring_laws::law_submits_run_out(startup.driver.rx_ring, world);
}

/// Handing over descriptors changes no register but the tail pointer.
proof fn lemma_fills_keep_registers(
    startup: Startup,
    world: action::World,
    rounds: nat,
    register: Register,
)
    requires
        startup.wf(),
        register != Register::DmaCh0RxdescTailPointer,
    ensures
        after_fills(startup, world, rounds).0.wf(),
        after_fills(startup, world, rounds).0 == (Startup {
            driver: EnetQos {
                rx_ring: after_fills(startup, world, rounds).0.driver.rx_ring,
                ..startup.driver
            },
            ..startup
        }),
        after_fills(startup, world, rounds).1.registers[register] == world.registers[register],
    decreases rounds,
{
    if rounds > 0 {
        let less = (rounds - 1) as nat;
        lemma_fills_keep_registers(startup, world, less, register);
        let (before, partly) = after_fills(startup, world, less);
        ring_laws::law_advance_wraps(before.driver.rx_ring);
        ring_laws::law_submit_touches_one_descriptor(before.driver.rx_ring, partly);
    }
}

/// The world after all of startup, with `rounds` receive descriptors handed over.
///
/// `reset` is the world as the completed reset left it. What that is, is up to the device.
pub open spec fn after_startup(startup: Startup, reset: action::World, rounds: nat) -> action::World {
    let extent = initialize::receive_extent_actions(startup.driver.rx_ring);
    let (filled, world) = after_fills(startup, reset.after_all(extent), rounds);
    world.after_all(filled.finish_actions())
}

/// All that startup does once the reset is complete, with `rounds` receive descriptors
/// handed over.
pub open spec fn startup_actions(startup: Startup, rounds: nat) -> Seq<action::Action> {
    initialize::receive_extent_actions(startup.driver.rx_ring) + ring_laws::submit_all_actions(
        startup.driver.rx_ring,
        rounds,
    ) + startup.finish_actions()
}

/// Performing startup leaves the world that the laws below speak of: whatever the reset
/// left, as long as each modification starts from what software or the reset left in the
/// register.
pub proof fn law_startup_has_this_effect(
    startup: Startup,
    reset: action::World,
    rounds: nat,
    trace: Seq<(action::Access, u32)>,
)
    requires
        initialize::supports_clock(startup.bus_clk_root_hz),
        action::performs(startup_actions(startup, rounds), trace),
        action::modifies_what_it_left(reset, startup_actions(startup, rounds), trace),
    ensures
        reset.after_trace(trace) == after_startup(startup, reset, rounds),
{
    let rx_ring = startup.driver.rx_ring;
    let extent = initialize::receive_extent_actions(rx_ring);
    let submits = ring_laws::submit_all_actions(rx_ring, rounds);
    let told = reset.after_all(extent);
    action::law_trace_has_the_effect_of_its_actions(startup_actions(startup, rounds), trace, reset);
    action::law_actions_compose(reset, extent + submits, startup.finish_actions());
    action::law_actions_compose(reset, extent, submits);
    ring_laws::law_submits_add_up(rx_ring, told, rounds);
    lemma_after_fills(startup, told, rounds);
    assert(after_fills(startup, told, rounds).0.finish_actions() == startup.finish_actions());
}

/// Startup leaves all memory outside the list of receive descriptors as it was: every buffer,
/// and the transmit ring.
pub proof fn law_startup_keeps_other_memory(
    startup: Startup,
    reset: action::World,
    rounds: nat,
    x: u32,
)
    requires
        startup.wf(),
        ({
            let (tx_ring, rx_ring) = (startup.driver.tx_ring, startup.driver.rx_ring);
            ||| !rx_ring.in_list(x as int)
            ||| rx_ring.in_buffers(x as int)
            ||| tx_ring.in_list(x as int)
            ||| tx_ring.in_buffers(x as int)
        }),
    ensures
        after_fills(startup, reset, rounds).1.memory[x] == reset.memory[x],
        after_startup(startup, reset, rounds).memory[x] == reset.memory[x],
{
    let (tx_ring, rx_ring) = (startup.driver.tx_ring, startup.driver.rx_ring);
    let extent = initialize::receive_extent_actions(rx_ring);
    let told = reset.after_all(extent);
    let (last, filled) = after_fills(startup, told, rounds);
    ring_laws::law_rings_apart(tx_ring, rx_ring, x as int);
    ring_laws::law_submits_keep_other_memory(rx_ring, reset, rounds, x);
    ring_laws::law_submits_keep_other_memory(rx_ring, told, rounds, x);
    lemma_after_fills(startup, reset, rounds);
    lemma_after_fills(startup, told, rounds);
    action::law_lists_without_stores_keep_memory(extent, reset);
    action::law_lists_without_stores_keep_memory(last.finish_actions(), filled);
}

/// Startup leaves every transmit descriptor as it was.
pub proof fn law_startup_leaves_the_transmit_ring(
    startup: Startup,
    reset: action::World,
    rounds: nat,
    i: int,
)
    requires
        startup.wf(),
        0 <= i < startup.driver.tx_ring.len,
    ensures
        ({
            let tx_ring = startup.driver.tx_ring;
            let filled = after_fills(startup, reset, rounds).1;
            let done = after_startup(startup, reset, rounds);
            let was = ring_laws::words_at(reset.memory, tx_ring, i);
            &&& ring_laws::words_at(filled.memory, tx_ring, i) == was
            &&& ring_laws::words_at(done.memory, tx_ring, i) == was
        }),
{
    let tx_ring = startup.driver.tx_ring;
    let filled = after_fills(startup, reset, rounds).1;
    let done = after_startup(startup, reset, rounds);
    let was = ring_laws::words_at(reset.memory, tx_ring, i);
    let address = tx_ring.descriptor_address(i);
    assert forall|w: int| 0 <= w < 4 implies {
        let x = #[trigger] ring::word_address(address, w);
        &&& filled.memory[x] == reset.memory[x]
        &&& done.memory[x] == reset.memory[x]
    } by {
        law_startup_keeps_other_memory(startup, reset, rounds, ring::word_address(address, w));
    }
    assert(ring_laws::words_at(filled.memory, tx_ring, i) =~= was);
    assert(ring_laws::words_at(done.memory, tx_ring, i) =~= was);
}

proof fn lemma_start_effect(tx_ring: RingRef, world: action::World)
    ensures
        ({
            let done = world.after_all(initialize::start_actions(tx_ring)).registers;
            let receive = seq![
                (Field::Rxpbl, 1u32),
                (Field::Rbsz13Y, initialize::RECEIVE_BUFFER_SIZE_FIELD),
            ];
            let transmit = seq![(Field::Txpbl, 1u32)];
            let st = seq![(Field::St, 1u32)];
            let sr = seq![(Field::Sr, 1u32)];
            &&& done[Register::DmaCh0TxdescListAddress] == tx_ring.placement.descriptors
            &&& done[Register::DmaCh0TxdescRingLength] == (tx_ring.len - 1) as u32
            &&& done[Register::DmaCh0InterruptEnable] == 0
            &&& done[Register::DmaCh0TxControl] == register::changed(
                register::changed(world.registers[Register::DmaCh0TxControl], transmit),
                st,
            )
            &&& done[Register::DmaCh0RxControl] == register::changed(
                register::changed(world.registers[Register::DmaCh0RxControl], receive),
                sr,
            )
            &&& forall|r: Register|
                r != Register::DmaCh0TxdescListAddress && r != Register::DmaCh0TxdescRingLength && r
                    != Register::DmaCh0InterruptEnable && r != Register::DmaCh0TxControl && r
                    != Register::DmaCh0RxControl ==> #[trigger] done[r] == world.registers[r]
        }),
{
    reveal_with_fuel(action::World::after_all, 8);
}

proof fn lemma_mtl_effect(world: action::World)
    ensures
        ({
            let done = world.after_all(initialize::mtl_actions()).registers;
            let transmit = initialize::transmit_queue_fields();
            let receive = initialize::receive_queue_fields();
            let enable = seq![(Field::Rxq0en, register::RXQ0EN_EN_DCB_GEN)];
            &&& done[Register::MtlTxq0OperationMode] == register::changed(
                world.registers[Register::MtlTxq0OperationMode],
                transmit,
            )
            &&& done[Register::MtlRxq0OperationMode] == register::changed(
                world.registers[Register::MtlRxq0OperationMode],
                receive,
            )
            &&& done[Register::MacRxqCtrl0] == register::changed(
                world.registers[Register::MacRxqCtrl0],
                enable,
            )
            &&& forall|r: Register|
                r != Register::MtlTxq0OperationMode && r != Register::MtlRxq0OperationMode && r
                    != Register::MacRxqCtrl0 ==> #[trigger] done[r] == world.registers[r]
        }),
{
    reveal_with_fuel(action::World::after_all, 4);
}

proof fn lemma_mac_effect(mac_address: Seq<u8>, world: action::World)
    ensures
        ({
            let done = world.after_all(initialize::mac_actions(mac_address)).registers;
            let filter = initialize::packet_filter_fields();
            let configuration = initialize::configuration_fields();
            let transmit = seq![(Field::Tfe, register::DISABLE), (Field::Pt, 512u32)];
            let receive = seq![(Field::Rfe, register::DISABLE)];
            &&& done[Register::MacAddress0High] == initialize::mac_address_high(mac_address)
            &&& done[Register::MacAddress0Low] == initialize::mac_address_low(mac_address)
            &&& done[Register::MacInterruptEnable] == 0
            &&& done[Register::MacPacketFilter] == register::changed(
                world.registers[Register::MacPacketFilter],
                filter,
            )
            &&& done[Register::MacQ0TxFlowCtrl] == register::changed(
                world.registers[Register::MacQ0TxFlowCtrl],
                transmit,
            )
            &&& done[Register::MacRxFlowCtrl] == register::changed(
                world.registers[Register::MacRxFlowCtrl],
                receive,
            )
            &&& done[Register::MacConfiguration] == register::changed(
                world.registers[Register::MacConfiguration],
                configuration,
            )
            &&& forall|r: Register|
                r != Register::MacAddress0High && r != Register::MacAddress0Low && r
                    != Register::MacInterruptEnable && r != Register::MacPacketFilter && r
                    != Register::MacQ0TxFlowCtrl && r != Register::MacRxFlowCtrl && r
                    != Register::MacConfiguration ==> #[trigger] done[r] == world.registers[r]
        }),
{
    reveal_with_fuel(action::World::after_all, 8);
}

/// The register holds `value` with the fields changed, so each field holds its value.
proof fn lemma_fields_hold(value: u32, fields: Seq<(Field, u32)>, registers: Map<Register, u32>)
    requires
        fields.len() > 0,
        register::all_in(fields, fields[0].0.layout().register),
        register::no_repeats(fields),
        registers[fields[0].0.layout().register] == register::changed(value, fields),
    ensures
        forall|k: int|
            0 <= k < fields.len() && fields[k].1 <= fields[k].0.max_value() ==> register::field_in(
                registers,
                (#[trigger] fields[k]).0,
            ) == fields[k].1,
{
    assert forall|k: int|
        0 <= k < fields.len() && fields[k].1
            <= fields[k].0.max_value() implies register::field_in(
        registers,
        (#[trigger] fields[k]).0,
    ) == fields[k].1 by {
        assert(fields[k].0.layout().register == fields[0].0.layout().register);
        register::law_modify_assigns(value, fields, k);
    }
}

/// What each configured register holds once startup is done.
proof fn lemma_after_startup(startup: Startup, reset: action::World, rounds: nat)
    requires
        startup.wf(),
    ensures
        ({
            let done = after_startup(startup, reset, rounds).registers;
            let was = reset.registers;
            let tx_ring = startup.driver.tx_ring;
            let rx_ring = startup.driver.rx_ring;
            &&& done[Register::DmaCh0RxdescListAddress] == rx_ring.placement.descriptors
            &&& done[Register::DmaCh0RxdescRingLength] == (rx_ring.len - 1) as u32
            &&& done[Register::DmaCh0TxdescListAddress] == tx_ring.placement.descriptors
            &&& done[Register::DmaCh0TxdescRingLength] == (tx_ring.len - 1) as u32
            &&& done[Register::DmaCh0InterruptEnable] == 0
            &&& done[Register::DmaCh0TxControl] == register::changed(
                register::changed(was[Register::DmaCh0TxControl], seq![(Field::Txpbl, 1u32)]),
                seq![(Field::St, 1u32)],
            )
            &&& done[Register::DmaCh0RxControl] == register::changed(
                register::changed(was[Register::DmaCh0RxControl], initialize::receive_control_fields()),
                seq![(Field::Sr, 1u32)],
            )
            &&& done[Register::MtlTxq0OperationMode] == register::changed(
                was[Register::MtlTxq0OperationMode],
                initialize::transmit_queue_fields(),
            )
            &&& done[Register::MtlRxq0OperationMode] == register::changed(
                was[Register::MtlRxq0OperationMode],
                initialize::receive_queue_fields(),
            )
            &&& done[Register::MacRxqCtrl0] == register::changed(
                was[Register::MacRxqCtrl0],
                seq![(Field::Rxq0en, register::RXQ0EN_EN_DCB_GEN)],
            )
            &&& done[Register::MacAddress0High] == initialize::mac_address_high(
                startup.mac_address@,
            )
            &&& done[Register::MacAddress0Low] == initialize::mac_address_low(startup.mac_address@)
            &&& done[Register::MacPacketFilter] == register::changed(
                was[Register::MacPacketFilter],
                initialize::packet_filter_fields(),
            )
            &&& done[Register::MacQ0TxFlowCtrl] == register::changed(
                was[Register::MacQ0TxFlowCtrl],
                initialize::flow_control_fields(),
            )
            &&& done[Register::MacRxFlowCtrl] == register::changed(
                was[Register::MacRxFlowCtrl],
                seq![(Field::Rfe, register::DISABLE)],
            )
            &&& done[Register::MacInterruptEnable] == 0
            &&& done[Register::MacConfiguration] == register::changed(
                was[Register::MacConfiguration],
                initialize::configuration_fields(),
            )
            &&& done[Register::MacMdioAddress] == register::bits_of(
                seq![(Field::Cr, initialize::clock_range_of(startup.bus_clk_root_hz))],
            )
            &&& done[Register::DmaMode] == was[Register::DmaMode]
            &&& done[Register::DmaCh0TxdescTailPointer] == was[Register::DmaCh0TxdescTailPointer]
            &&& done[Register::MacMdioData] == was[Register::MacMdioData]
        }),
{
    let extent = initialize::receive_extent_actions(startup.driver.rx_ring);
    let told = reset.after_all(extent);
    assert(told == reset.after(extent[0]).after(extent[1])) by {
        reveal_with_fuel(action::World::after_all, 3);
    }
    let (last, filled) = after_fills(startup, told, rounds);
    assert forall|r: Register| r != Register::DmaCh0RxdescTailPointer implies (
    #[trigger] filled.registers[r]) == told.registers[r] by {
        lemma_fills_keep_registers(startup, told, rounds, r);
    }
    lemma_fills_keep_registers(startup, told, rounds, Register::DmaMode);
    let start = initialize::start_actions(startup.driver.tx_ring);
    let mtl = initialize::mtl_actions();
    let mac = initialize::mac_actions(startup.mac_address@);
    let range = initialize::clock_range_of(startup.bus_clk_root_hz);
    let clock = seq![initialize::clock_action(range)];
    let started = filled.after_all(start);
    let queued = started.after_all(mtl);
    let addressed = queued.after_all(mac);
    let done = after_startup(startup, reset, rounds);
    action::law_actions_compose(filled, start + mtl + mac, clock);
    action::law_actions_compose(filled, start + mtl, mac);
    action::law_actions_compose(filled, start, mtl);
    assert(done == addressed.after(clock[0])) by {
        assert(last.finish_actions() == start + mtl + mac + clock);
        assert(clock.skip(1) =~= Seq::empty());
        reveal_with_fuel(action::World::after_all, 2);
    }
    lemma_start_effect(startup.driver.tx_ring, filled);
    lemma_mtl_effect(started);
    lemma_mac_effect(startup.mac_address@, queued);
}

/// The bytes of a MAC address, from the lowest bits of the registers up.
proof fn lemma_mac_address_as_numbers(mac_address: Seq<u8>)
    requires
        mac_address.len() == 6,
    ensures
        initialize::mac_address_low(mac_address) == mac_address[0] + 0x100 * mac_address[1]
            + 0x1_0000 * mac_address[2] + 0x100_0000 * mac_address[3],
        initialize::mac_address_high(mac_address) == mac_address[4] + 0x100 * mac_address[5],
{
    let (a, b, c) = (mac_address[0], mac_address[1], mac_address[2]);
    let (d, e, f) = (mac_address[3], mac_address[4], mac_address[5]);
    assert(((d as u32) << 24) | ((c as u32) << 16) | ((b as u32) << 8) | a as u32 == a + 0x100 * b
        + 0x1_0000 * c + 0x100_0000 * d && ((f as u32) << 8) | e as u32 == e + 0x100 * f)
        by (bit_vector);
}

/// Once startup is done, every register of the driver holds exactly this: where the rings
/// are and how long, the address, and in each configured register the bits that startup is
/// for, with all others as the reset left them.
pub proof fn law_startup_sets_exactly_these_bits(
    startup: Startup,
    reset: action::World,
    rounds: nat,
)
    requires
        startup.wf(),
        initialize::supports_clock(startup.bus_clk_root_hz),
    ensures
        ({
            let done = after_startup(startup, reset, rounds).registers;
            let was = reset.registers;
            let (tx_ring, rx_ring) = (startup.driver.tx_ring, startup.driver.rx_ring);
            let mac = startup.mac_address@;
            &&& done[Register::DmaMode] == was[Register::DmaMode]
            &&& done[Register::DmaCh0RxdescListAddress] == rx_ring.placement.descriptors
            &&& done[Register::DmaCh0RxdescRingLength] == rx_ring.len - 1
            &&& done[Register::DmaCh0TxdescListAddress] == tx_ring.placement.descriptors
            &&& done[Register::DmaCh0TxdescRingLength] == tx_ring.len - 1
            &&& done[Register::DmaCh0TxdescTailPointer] == was[Register::DmaCh0TxdescTailPointer]
            &&& done[Register::DmaCh0TxControl] == (was[Register::DmaCh0TxControl] & !0x003f_0001)
                | 0x0001_0001
            &&& done[Register::DmaCh0RxControl] == (was[Register::DmaCh0RxControl] & !0x003f_7ff1)
                | 0x0001_0c01
            &&& done[Register::DmaCh0InterruptEnable] == 0
            &&& done[Register::MtlTxq0OperationMode] == (was[Register::MtlTxq0OperationMode]
                & !0x001f_000e) | 0x001f_000a
            &&& done[Register::MtlRxq0OperationMode] == (was[Register::MtlRxq0OperationMode]
                & !0x01f0_0020) | 0x01f0_0020
            &&& done[Register::MacRxqCtrl0] == (was[Register::MacRxqCtrl0] & !0x3) | 0x2
            &&& done[Register::MacAddress0High] == mac[4] + 0x100 * mac[5]
            &&& done[Register::MacAddress0Low] == mac[0] + 0x100 * mac[1] + 0x1_0000 * mac[2]
                + 0x100_0000 * mac[3]
            &&& done[Register::MacPacketFilter] == (was[Register::MacPacketFilter] & !0x8031_07ff)
                | 0x2d0
            &&& done[Register::MacQ0TxFlowCtrl] == (was[Register::MacQ0TxFlowCtrl] & !0xffff_0002)
                | 0x0200_0000
            &&& done[Register::MacRxFlowCtrl] == was[Register::MacRxFlowCtrl] & !0x1
            &&& done[Register::MacInterruptEnable] == 0
            &&& done[Register::MacConfiguration] == (was[Register::MacConfiguration] & !0x7830_f000)
                | 0x0830_e000
            &&& done[Register::MacMdioAddress] == 0x100 * initialize::clock_range_of(
                startup.bus_clk_root_hz,
            )
            &&& done[Register::MacMdioData] == was[Register::MacMdioData]
        }),
{
    let was = reset.registers;
    let range = initialize::clock_range_of(startup.bus_clk_root_hz);
    lemma_after_startup(startup, reset, rounds);
    initialize::lemma_lists_as_numbers();
    initialize::law_clock_ranges_by_frequency(startup.bus_clk_root_hz);
    initialize::law_clock_range_is_written_alone(range);
    lemma_mac_address_as_numbers(startup.mac_address@);
    let tx = was[Register::DmaCh0TxControl];
    let rx = was[Register::DmaCh0RxControl];
    let flow = was[Register::MacRxFlowCtrl];
    assert((((tx & !0x003f_0000) | 0x0001_0000) & !0x1) | 0x1 == (tx & !0x003f_0001) | 0x0001_0001
        && (((rx & !0x003f_7ff0) | 0x0001_0c00) & !0x1) | 0x1 == (rx & !0x003f_7ff1) | 0x0001_0c01
        && (flow & !0x1) | 0x0 == flow & !0x1) by (bit_vector);
}

/// What is left to do once the DMA controller owns the receive descriptors goes step by step
/// through the reference manual: where the transmit ring is, the sizes of bursts and buffers,
/// no interrupts, and only then the start in both directions; then both FIFOs; then the MAC,
/// with the high half of its address before the low half; and the MDIO clock last.
pub proof fn law_startup_goes_step_by_step(startup: Startup)
    requires
        startup.wf(),
    ensures
        ({
            let tx_ring = startup.driver.tx_ring;
            let mac = startup.mac_address@;
            let steps = startup.finish_actions();
            &&& startup.configure_actions() =~= steps.take(17)
            &&& steps.len() == 18
            &&& steps[0] == (action::Action::Write {
                register: Register::DmaCh0TxdescListAddress,
                value: tx_ring.placement.descriptors,
            })
            &&& steps[1] == (action::Action::Write {
                register: Register::DmaCh0TxdescRingLength,
                value: (tx_ring.len - 1) as u32,
            })
            &&& steps[2] == (action::Action::Modify {
                register: Register::DmaCh0TxControl,
                mask: 0x003f_0000,
                bits: 0x0001_0000,
            })
            &&& steps[3] == (action::Action::Modify {
                register: Register::DmaCh0RxControl,
                mask: 0x003f_7ff0,
                bits: 0x0001_0c00,
            })
            &&& steps[4] == (action::Action::Write {
                register: Register::DmaCh0InterruptEnable,
                value: 0,
            })
            &&& steps[5] == (action::Action::Modify {
                register: Register::DmaCh0TxControl,
                mask: 1,
                bits: 1,
            })
            &&& steps[6] == (action::Action::Modify {
                register: Register::DmaCh0RxControl,
                mask: 1,
                bits: 1,
            })
            &&& steps[7] == (action::Action::Modify {
                register: Register::MtlTxq0OperationMode,
                mask: 0x001f_000e,
                bits: 0x001f_000a,
            })
            &&& steps[8] == (action::Action::Modify {
                register: Register::MtlRxq0OperationMode,
                mask: 0x01f0_0020,
                bits: 0x01f0_0020,
            })
            &&& steps[9] == (action::Action::Modify {
                register: Register::MacRxqCtrl0,
                mask: 3,
                bits: 2,
            })
            &&& steps[10] == (action::Action::Write {
                register: Register::MacAddress0High,
                value: (mac[4] + 0x100 * mac[5]) as u32,
            })
            &&& steps[11] == (action::Action::Write {
                register: Register::MacAddress0Low,
                value: (mac[0] + 0x100 * mac[1] + 0x1_0000 * mac[2] + 0x100_0000 * mac[3]) as u32,
            })
            &&& steps[12] == (action::Action::Modify {
                register: Register::MacPacketFilter,
                mask: 0x8031_07ff,
                bits: 0x2d0,
            })
            &&& steps[13] == (action::Action::Modify {
                register: Register::MacQ0TxFlowCtrl,
                mask: 0xffff_0002,
                bits: 0x0200_0000,
            })
            &&& steps[14] == (action::Action::Modify {
                register: Register::MacRxFlowCtrl,
                mask: 1,
                bits: 0,
            })
            &&& steps[15] == (action::Action::Write {
                register: Register::MacInterruptEnable,
                value: 0,
            })
            &&& steps[16] == (action::Action::Modify {
                register: Register::MacConfiguration,
                mask: 0x7830_f000,
                bits: 0x0830_e000,
            })
            &&& initialize::supports_clock(startup.bus_clk_root_hz) ==> steps[17] == (
            action::Action::Write {
                register: Register::MacMdioAddress,
                value: (0x100 * initialize::clock_range_of(startup.bus_clk_root_hz)) as u32,
            })
        }),
{
    initialize::lemma_lists_as_numbers();
    initialize::law_clock_ranges_by_frequency(startup.bus_clk_root_hz);
    if initialize::supports_clock(startup.bus_clk_root_hz) {
        initialize::law_clock_range_is_written_alone(
            initialize::clock_range_of(startup.bus_clk_root_hz),
        );
    }
    lemma_mac_address_as_numbers(startup.mac_address@);
}

/// The hardware takes over the MAC address when the low half is written. By then, the high
/// half is there: whatever the device replies, startup writes the low half once, with the
/// first four bytes; at that moment the high register holds the last two; and neither is
/// written again.
pub proof fn law_mac_address_is_complete_when_it_is_taken_over(
    startup: Startup,
    reset: action::World,
    rounds: nat,
    trace: Seq<(action::Access, u32)>,
)
    requires
        action::performs(startup_actions(startup, rounds), trace),
    ensures
        exists|at: int|
            {
                let mac = startup.mac_address@;
                let then = reset.after_trace(trace.take(at)).registers;
                &&& 0 <= at < trace.len()
                &&& (#[trigger] trace[at]).0 == (action::Access::Write {
                    register: Register::MacAddress0Low,
                    value: (mac[0] + 0x100 * mac[1] + 0x1_0000 * mac[2] + 0x100_0000
                        * mac[3]) as u32,
                })
                &&& then[Register::MacAddress0High] == mac[4] + 0x100 * mac[5]
                &&& forall|i: int|
                    0 <= i < trace.len() && i != at ==> !action::writes(
                        (#[trigger] trace[i]).0,
                        Register::MacAddress0Low,
                    )
                &&& forall|i: int|
                    at < i < trace.len() ==> !action::writes(
                        (#[trigger] trace[i]).0,
                        Register::MacAddress0High,
                    )
            },
{
    let (low, high) = (Register::MacAddress0Low, Register::MacAddress0High);
    let rx_ring = startup.driver.rx_ring;
    let extent = initialize::receive_extent_actions(rx_ring);
    let submits = ring_laws::submit_all_actions(rx_ring, rounds);
    let mac = initialize::mac_actions(startup.mac_address@);
    let start = initialize::start_actions(startup.driver.tx_ring);
    let queues = initialize::mtl_actions();
    let first = extent + submits + start + queues;
    let clock = initialize::clock_action(initialize::clock_range_of(startup.bus_clk_root_hz));
    let last = mac.skip(2).push(clock);
    let both = mac.take(2);
    lemma_mac_address_as_numbers(startup.mac_address@);
    assert(startup_actions(startup, rounds) =~= first + (both + last));
    action::law_traces_split(first, both + last, trace);
    let k = choose|k: int|
        0 <= k <= trace.len() && #[trigger] action::performs(first, trace.take(k))
            && action::performs(both + last, trace.skip(k));
    let tail = trace.skip(k);
    reveal_with_fuel(action::performs, 3);
    assert((both + last).skip(1).skip(1) =~= last);
    assert((both + last)[0] == mac[0] && (both + last).skip(1)[0] == mac[1]);
    assert(tail.skip(1)[0] == tail[1]);
    let later = tail.skip(1).skip(1);
    assert(action::performs(last, later));
    lemma_submits_change_the_tail_pointer(rx_ring, rounds);
    assert forall|i: int| 0 <= i < first.len() implies !action::changes(#[trigger] first[i], low)
        && !action::changes(first[i], high) by {
        if 2 <= i < 2 + submits.len() {
            assert(first[i] == submits[i - 2]);
        } else if i < 2 {
            assert(first[i] == extent[i]);
        } else if i < 2 + submits.len() + 7 {
            assert(first[i] == start[i - 2 - submits.len()]);
        } else {
            assert(first[i] == queues[i - 9 - submits.len()]);
        }
    }
    action::law_traces_write_what_actions_change(first, trace.take(k), low);
    action::law_traces_write_what_actions_change(last, later, low);
    action::law_traces_write_what_actions_change(last, later, high);
    action::law_next_access_has_its_effect(reset, trace, k);
    assert(tail[0] == trace[k] && tail[1] == trace[k + 1]);
    assert forall|i: int| 0 <= i < trace.len() && i != k + 1 implies !action::writes(
        (#[trigger] trace[i]).0,
        low,
    ) && (i > k + 1 ==> !action::writes(trace[i].0, high)) by {
        if i < k {
            assert(trace.take(k)[i] == trace[i]);
        } else if i > k + 1 {
            assert(later[i - k - 2] == trace[i]);
        }
    }
}

/// Handing over descriptors changes no register but the tail pointer.
proof fn lemma_submits_change_the_tail_pointer(ring: RingRef, rounds: nat)
    ensures
        forall|i: int, r: Register|
            0 <= i < ring_laws::submit_all_actions(ring, rounds).len() && r
                != Register::DmaCh0RxdescTailPointer ==> !(#[trigger] action::changes(
                ring_laws::submit_all_actions(ring, rounds)[i],
                r,
            )),
    decreases rounds,
{
    if rounds > 0 {
        let less = (rounds - 1) as nat;
        lemma_submits_change_the_tail_pointer(ring, less);
        let before = ring_laws::submit_all_actions(ring, less);
        let more = ring_laws::advanced_by(ring, less).submit_actions();
        let all = ring_laws::submit_all_actions(ring, rounds);
        assert forall|i: int, r: Register|
            0 <= i < all.len() && r != Register::DmaCh0RxdescTailPointer implies !(
        #[trigger] action::changes(all[i], r)) by {
            if i < before.len() {
                assert(all[i] == before[i]);
            } else {
                assert(all[i] == more[i - before.len()]);
            }
        }
    }
}

/// Once startup is done, whatever the reset left and however many receive descriptors were
/// handed over, the link is fixed to full duplex, 100 Mbit, without loopback; hardware
/// computes checksums, and strips padding and CRC; and the MAC is enabled or disabled as the
/// reset left it.
pub proof fn law_startup_fixes_the_link(startup: Startup, reset: action::World, rounds: nat)
    requires
        startup.wf(),
        initialize::supports_clock(startup.bus_clk_root_hz),
    ensures
        ({
            let done = after_startup(startup, reset, rounds).registers;
            &&& register::field_in(done, Field::Dm) == 1
            &&& register::field_in(done, Field::Ps) == 1
            &&& register::field_in(done, Field::Fes) == 1
            &&& register::field_in(done, Field::Lm) == 0
            &&& register::field_in(done, Field::Ipc) == 1
            &&& register::field_in(done, Field::Cst) == 1
            &&& register::field_in(done, Field::Acs) == 1
            &&& register::field_in(done, Field::Sarc) == 0
            &&& register::field_in(done, Field::Te) == register::field_in(
                reset.registers,
                Field::Te,
            )
            &&& register::field_in(done, Field::Re) == register::field_in(
                reset.registers,
                Field::Re,
            )
        }),
{
    let done = after_startup(startup, reset, rounds).registers;
    let was = reset.registers[Register::MacConfiguration];
    let fields = initialize::configuration_fields();
    lemma_after_startup(startup, reset, rounds);
    register::lemma_max_values();
    lemma_fields_hold(was, fields, done);
    assert(fields[0] == (Field::Sarc, 0u32));
    assert(fields[1] == (Field::Ipc, 1u32));
    assert(fields[2] == (Field::Cst, 1u32));
    assert(fields[3] == (Field::Acs, 1u32));
    assert(fields[4] == (Field::Ps, 1u32));
    assert(fields[5] == (Field::Fes, 1u32));
    assert(fields[6] == (Field::Dm, 1u32));
    assert(fields[7] == (Field::Lm, 0u32));
    register::law_modify_keeps_other_fields(was, fields, Field::Te);
    register::law_modify_keeps_other_fields(was, fields, Field::Re);
}

/// Once startup is done, no interrupt is enabled.
pub proof fn law_startup_disables_interrupts(startup: Startup, reset: action::World, rounds: nat)
    requires
        startup.wf(),
        initialize::supports_clock(startup.bus_clk_root_hz),
    ensures
        ({
            let done = after_startup(startup, reset, rounds).registers;
            &&& done[Register::DmaCh0InterruptEnable] == 0
            &&& done[Register::MacInterruptEnable] == 0
        }),
{
    lemma_after_startup(startup, reset, rounds);
}

/// Once startup is done, the DMA controller runs in both directions. It knows where both
/// rings are, how long they are, and how large a buffer is. Both FIFOs have all of their
/// 8 KiB, and store and forward packets.
pub proof fn law_startup_starts_the_dma_controller(
    startup: Startup,
    reset: action::World,
    rounds: nat,
)
    requires
        startup.wf(),
        initialize::supports_clock(startup.bus_clk_root_hz),
    ensures
        ({
            let done = after_startup(startup, reset, rounds).registers;
            let tx_ring = startup.driver.tx_ring;
            let rx_ring = startup.driver.rx_ring;
            &&& register::field_in(done, Field::St) == 1
            &&& register::field_in(done, Field::Sr) == 1
            &&& register::field_in(done, Field::Txpbl) == 1
            &&& register::field_in(done, Field::Rxpbl) == 1
            &&& register::field_in(done, Field::Rbsz13Y) * 8 == MAX_BUFFER_SIZE
            &&& done[Register::DmaCh0TxdescListAddress] == tx_ring.placement.descriptors
            &&& done[Register::DmaCh0TxdescRingLength] == tx_ring.len - 1
            &&& done[Register::DmaCh0RxdescListAddress] == rx_ring.placement.descriptors
            &&& done[Register::DmaCh0RxdescRingLength] == rx_ring.len - 1
            &&& (register::field_in(done, Field::Tqs) + 1) * 256 == 8192
            &&& (register::field_in(done, Field::Rqs) + 1) * 256 == 8192
            &&& register::field_in(done, Field::Tsf) == 1
            &&& register::field_in(done, Field::Rsf) == 1
            &&& register::field_in(done, Field::Txqen) == register::TXQEN_ENABLE
            &&& register::field_in(done, Field::Rxq0en) == register::RXQ0EN_EN_DCB_GEN
        }),
{
    let done = after_startup(startup, reset, rounds).registers;
    let was = reset.registers;
    lemma_after_startup(startup, reset, rounds);
    register::lemma_max_values();

    let burst = seq![(Field::Txpbl, 1u32)];
    let start = seq![(Field::St, 1u32)];
    let bursting = register::changed(was[Register::DmaCh0TxControl], burst);
    register::law_modify_assigns(was[Register::DmaCh0TxControl], burst, 0);
    register::law_modify_keeps_other_fields(bursting, start, Field::Txpbl);
    register::law_modify_assigns(bursting, start, 0);

    let receive = initialize::receive_control_fields();
    let start = seq![(Field::Sr, 1u32)];
    let sized = register::changed(was[Register::DmaCh0RxControl], receive);
    register::law_modify_assigns(was[Register::DmaCh0RxControl], receive, 0);
    register::law_modify_assigns(was[Register::DmaCh0RxControl], receive, 1);
    register::law_modify_keeps_other_fields(sized, start, Field::Rxpbl);
    register::law_modify_keeps_other_fields(sized, start, Field::Rbsz13Y);
    register::law_modify_assigns(sized, start, 0);

    let transmit = initialize::transmit_queue_fields();
    lemma_fields_hold(was[Register::MtlTxq0OperationMode], transmit, done);
    assert(transmit[0] == (Field::Tqs, 31u32));
    assert(transmit[1] == (Field::Tsf, 1u32));
    assert(transmit[2] == (Field::Txqen, 2u32));
    let receive = initialize::receive_queue_fields();
    lemma_fields_hold(was[Register::MtlRxq0OperationMode], receive, done);
    assert(receive[0] == (Field::Rqs, 31u32));
    assert(receive[1] == (Field::Rsf, 1u32));
    let enable = seq![(Field::Rxq0en, register::RXQ0EN_EN_DCB_GEN)];
    register::law_modify_assigns(was[Register::MacRxqCtrl0], enable, 0);
}

/// Once startup is done, the filter compares our MAC address. It lets broadcast, multicast
/// and control packets in. It does nothing about VLANs, and is not promiscuous. There is no
/// flow control.
pub proof fn law_startup_sets_the_filter(startup: Startup, reset: action::World, rounds: nat)
    requires
        startup.wf(),
        initialize::supports_clock(startup.bus_clk_root_hz),
    ensures
        ({
            let done = after_startup(startup, reset, rounds).registers;
            &&& done[Register::MacAddress0High] == initialize::mac_address_high(
                startup.mac_address@,
            )
            &&& done[Register::MacAddress0Low] == initialize::mac_address_low(startup.mac_address@)
            &&& register::field_in(done, Field::Ra) == 0
            &&& register::field_in(done, Field::Dntu) == 0
            &&& register::field_in(done, Field::Ipfe) == 0
            &&& register::field_in(done, Field::Vtfe) == 0
            &&& register::field_in(done, Field::Hpf) == 0
            &&& register::field_in(done, Field::Hmc) == 0
            &&& register::field_in(done, Field::Huc) == 0
            &&& register::field_in(done, Field::Saf) == 1
            &&& register::field_in(done, Field::Saif) == 0
            &&& register::field_in(done, Field::Pcf) == register::PCF_FW_PASS
            &&& register::field_in(done, Field::Dbf) == 0
            &&& register::field_in(done, Field::Pm) == 1
            &&& register::field_in(done, Field::Daif) == 0
            &&& register::field_in(done, Field::Pr) == 0
            &&& register::field_in(done, Field::Tfe) == 0
            &&& register::field_in(done, Field::Pt) == 512
            &&& register::field_in(done, Field::Rfe) == 0
        }),
{
    let done = after_startup(startup, reset, rounds).registers;
    let was = reset.registers;
    lemma_after_startup(startup, reset, rounds);
    register::lemma_max_values();
    let filter = initialize::packet_filter_fields();
    lemma_fields_hold(was[Register::MacPacketFilter], filter, done);
    assert(filter[0] == (Field::Ra, 0u32));
    assert(filter[1] == (Field::Dntu, 0u32));
    assert(filter[2] == (Field::Ipfe, 0u32));
    assert(filter[3] == (Field::Vtfe, 0u32));
    assert(filter[4] == (Field::Hpf, 0u32));
    assert(filter[5] == (Field::Hmc, 0u32));
    assert(filter[6] == (Field::Huc, 0u32));
    assert(filter[7] == (Field::Saf, 1u32));
    assert(filter[8] == (Field::Saif, 0u32));
    assert(filter[9] == (Field::Pcf, 3u32));
    assert(filter[10] == (Field::Dbf, 0u32));
    assert(filter[11] == (Field::Pm, 1u32));
    assert(filter[12] == (Field::Daif, 0u32));
    assert(filter[13] == (Field::Pr, 0u32));
    let flow = initialize::flow_control_fields();
    lemma_fields_hold(was[Register::MacQ0TxFlowCtrl], flow, done);
    assert(flow[0] == (Field::Tfe, 0u32));
    assert(flow[1] == (Field::Pt, 512u32));
    let receive = seq![(Field::Rfe, register::DISABLE)];
    register::law_modify_assigns(was[Register::MacRxFlowCtrl], receive, 0);
}

/// Once startup is done, the MDIO clock range is the one that includes the bus clock, and
/// no MDIO transaction is under way.
pub proof fn law_startup_sets_the_mdio_clock(startup: Startup, reset: action::World, rounds: nat)
    requires
        startup.wf(),
        initialize::supports_clock(startup.bus_clk_root_hz),
    ensures
        ({
            let done = after_startup(startup, reset, rounds).registers;
            let range = register::field_in(done, Field::Cr);
            &&& range < 8
            &&& initialize::in_clock_range(range as int, startup.bus_clk_root_hz)
            &&& register::field_in(done, Field::Gb) == 0
        }),
{
    let done = after_startup(startup, reset, rounds).registers;
    let hz = startup.bus_clk_root_hz;
    let range = initialize::clock_range_of(hz);
    let fields = seq![(Field::Cr, range)];
    lemma_after_startup(startup, reset, rounds);
    register::lemma_max_values();
    initialize::law_clock_ranges_partition(hz);
    let found = choose|i: int| 0 <= i < 8 && initialize::in_clock_range(i, hz);
    assert(initialize::in_clock_range((found as u32) as int, hz));
    // Writing the fields is changing them in a register of zeros.
    let (mask, bits) = (register::mask_of(fields), register::bits_of(fields));
    assert((0u32 & !mask) | bits == bits) by (bit_vector);
    register::law_modify_assigns(0, fields, 0);
    register::law_modify_keeps_other_fields(0, fields, Field::Gb);
    let busy = Field::Gb.mask();
    assert((0u32 & busy) >> 0u32 == 0) by (bit_vector);
}

} // verus!
