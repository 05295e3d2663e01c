//! Bringing up the peripheral.
//!
//! The order follows chapter 61.5 of the MIMXRT1170 reference manual: first the DMA
//! controller, then the MTL, then the MAC, and the MDIO clock last.

use crate::action::{self, Action};
use crate::descriptor::MAX_BUFFER_SIZE;
use crate::register::{
    self, Field, Register, DBF_ENABLE, DISABLE, DM_FDUPLX, DNTU_FWD, ENABLE, FES_MBPS_100_2500M,
    PCF_FW_PASS, PS_BF_10_100M, RXQ0EN_EN_DCB_GEN, TXQEN_ENABLE,
};
use crate::ring::RingRef;
use vstd::prelude::*;

verus! {

/// A MAC address.
pub type MacAddress = [u8; 6];

/// The FIFO size of a queue that has all 8 KiB, in blocks of 256 bytes, minus one (there's
/// always one block allocated).
pub const Q0_FULLY_ALLOCATED: u32 = (8192 / 256) - 1;

/// The size of a receive buffer, without its low three bits.
///
/// Those bits are zero: the size must be a multiple of the AXI bus size, which is 8 bytes.
pub const RECEIVE_BUFFER_SIZE_FIELD: u32 = (MAX_BUFFER_SIZE as u32) / 8;

/// The actions that tell the DMA controller about the receive ring.
pub open spec fn receive_extent_actions(rx_ring: RingRef) -> Seq<Action> {
    seq![
        Action::Write {
            register: Register::DmaCh0RxdescListAddress,
            value: rx_ring.placement.descriptors,
        },
        Action::Write {
            register: Register::DmaCh0RxdescRingLength,
            value: (rx_ring.len - 1) as u32,
        },
    ]
}

/// The actions that reset the DMA controller, and tell it about the receive ring.
pub open spec fn reset_actions(rx_ring: RingRef) -> Seq<Action> {
    seq![
        action::write_fields(Register::DmaMode, seq![(Field::Swr, 1u32)]),
        Action::Poll { register: Register::DmaMode, mask: Field::Swr.mask() },
    ] + receive_extent_actions(rx_ring)
}

/// The fields of the receive side of the DMA channel, and what they are set to.
pub open spec fn receive_control_fields() -> Seq<(Field, u32)> {
    seq![(Field::Rxpbl, 1u32), (Field::Rbsz13Y, RECEIVE_BUFFER_SIZE_FIELD)]
}

/// The actions that tell the DMA controller about the transmit ring, and start it.
pub open spec fn start_actions(tx_ring: RingRef) -> Seq<Action> {
    seq![
        Action::Write {
            register: Register::DmaCh0TxdescListAddress,
            value: tx_ring.placement.descriptors,
        },
        Action::Write {
            register: Register::DmaCh0TxdescRingLength,
            value: (tx_ring.len - 1) as u32,
        },
        action::modify_fields(Register::DmaCh0TxControl, seq![(Field::Txpbl, 1u32)]),
        action::modify_fields(Register::DmaCh0RxControl, receive_control_fields()),
        Action::Write { register: Register::DmaCh0InterruptEnable, value: 0 },
        action::modify_fields(Register::DmaCh0TxControl, seq![(Field::St, 1u32)]),
        action::modify_fields(Register::DmaCh0RxControl, seq![(Field::Sr, 1u32)]),
    ]
}

/// The fields of the transmit FIFO, and what they are set to.
pub open spec fn transmit_queue_fields() -> Seq<(Field, u32)> {
    seq![(Field::Tqs, Q0_FULLY_ALLOCATED), (Field::Tsf, ENABLE), (Field::Txqen, TXQEN_ENABLE)]
}

/// The fields of the receive FIFO, and what they are set to.
pub open spec fn receive_queue_fields() -> Seq<(Field, u32)> {
    seq![(Field::Rqs, Q0_FULLY_ALLOCATED), (Field::Rsf, ENABLE)]
}

/// The actions that give the FIFOs their memory.
pub open spec fn mtl_actions() -> Seq<Action> {
    seq![
        action::modify_fields(Register::MtlTxq0OperationMode, transmit_queue_fields()),
        action::modify_fields(Register::MtlRxq0OperationMode, receive_queue_fields()),
        action::modify_fields(Register::MacRxqCtrl0, seq![(Field::Rxq0en, RXQ0EN_EN_DCB_GEN)]),
    ]
}

/// What the high address register holds for a MAC address.
pub open spec fn mac_address_high(mac_address: Seq<u8>) -> u32 {
    ((mac_address[5] as u32) << 8) | mac_address[4] as u32
}

/// What the low address register holds for a MAC address.
pub open spec fn mac_address_low(mac_address: Seq<u8>) -> u32 {
    ((mac_address[3] as u32) << 24) | ((mac_address[2] as u32) << 16) | ((mac_address[1] as u32) << 8)
        | mac_address[0] as u32
}

/// The fields of the packet filter, and what they are set to.
pub open spec fn packet_filter_fields() -> Seq<(Field, u32)> {
    seq![
        (Field::Ra, DISABLE),
        (Field::Dntu, DNTU_FWD),
        (Field::Ipfe, DISABLE),
        (Field::Vtfe, DISABLE),
        (Field::Hpf, DISABLE),
        (Field::Hmc, DISABLE),
        (Field::Huc, DISABLE),
        (Field::Saf, ENABLE),
        (Field::Saif, DISABLE),
        (Field::Pcf, PCF_FW_PASS),
        (Field::Dbf, DBF_ENABLE),
        (Field::Pm, ENABLE),
        (Field::Daif, DISABLE),
        (Field::Pr, DISABLE),
    ]
}

/// The fields of transmit flow control, and what they are set to.
pub open spec fn flow_control_fields() -> Seq<(Field, u32)> {
    seq![(Field::Tfe, DISABLE), (Field::Pt, 512u32)]
}

/// The fields of the MAC configuration, and what they are set to.
pub open spec fn configuration_fields() -> Seq<(Field, u32)> {
    seq![
        (Field::Sarc, 0u32),
        (Field::Ipc, ENABLE),
        (Field::Cst, ENABLE),
        (Field::Acs, ENABLE),
        (Field::Ps, PS_BF_10_100M),
        (Field::Fes, FES_MBPS_100_2500M),
        (Field::Dm, DM_FDUPLX),
        (Field::Lm, DISABLE),
    ]
}

/// The actions that set up the MAC.
pub open spec fn mac_actions(mac_address: Seq<u8>) -> Seq<Action> {
    seq![
        Action::Write {
            register: Register::MacAddress0High,
            value: mac_address_high(mac_address),
        },
        Action::Write { register: Register::MacAddress0Low, value: mac_address_low(mac_address) },
        action::modify_fields(Register::MacPacketFilter, packet_filter_fields()),
        action::modify_fields(Register::MacQ0TxFlowCtrl, flow_control_fields()),
        action::modify_fields(Register::MacRxFlowCtrl, seq![(Field::Rfe, DISABLE)]),
        Action::Write { register: Register::MacInterruptEnable, value: 0 },
        action::modify_fields(Register::MacConfiguration, configuration_fields()),
    ]
}

/// Resets the DMA controller, and prepares the receive ring's extent.
///
/// This is the part of section 61.5.1 that comes before the receive descriptors.
pub fn reset_dma_controller(rx_ring: &RingRef) -> (actions: [Action; 4])
    requires
        rx_ring.wf(),
    ensures
        actions@ == reset_actions(*rx_ring),
{
    [
        // Step 1 and step 2: Reset the DMA controller, and wait for reset to complete.
        Action::write_one(Register::DmaMode, Field::Swr, 1),
        Action::Poll { register: Register::DmaMode, mask: Field::Swr.mask() },
        // Step 3: Not touching the SYSBUS_MODE register. Use the default AXI settings.
        // Step 4, 5, and 6: Prepare the receive ring extents.
        Action::Write {
            register: Register::DmaCh0RxdescListAddress,
            value: rx_ring.start_address(),
        },
        Action::Write {
            register: Register::DmaCh0RxdescRingLength,
            value: rx_ring.descriptor_ring_len(),
        },
    ]
}

/// Prepares the transmit ring's extent, and starts the DMA controller.
///
/// This is the part of section 61.5.1 that comes after the receive descriptors.
pub fn start_dma_controller(tx_ring: &RingRef) -> (actions: [Action; 7])
    requires
        tx_ring.wf(),
    ensures
        actions@ == start_actions(*tx_ring),
{
    let receive = [(Field::Rxpbl, 1), (Field::Rbsz13Y, RECEIVE_BUFFER_SIZE_FIELD)];
    assert(receive@ =~= receive_control_fields());
    [
        // Prepare the transmit ring extent, but not the descriptors or tail pointer. We'll
        // prepare those when sending packets.
        Action::Write {
            register: Register::DmaCh0TxdescListAddress,
            value: tx_ring.start_address(),
        },
        Action::Write {
            register: Register::DmaCh0TxdescRingLength,
            value: tx_ring.descriptor_ring_len(),
        },
        // Step 7: Set the DMA burst sizes, in terms of AXI bus size. We'll pick a small
        // number for now. Do not exceed half of the FIFO sizes, set later.
        //
        // In the RX path, we set the maximum buffer size for all assigned descriptors.
        Action::modify_one(Register::DmaCh0TxControl, Field::Txpbl, 1),
        Action::modify(Register::DmaCh0RxControl, &receive),
        // Step 8: Not enabling interrupts.
        Action::Write { register: Register::DmaCh0InterruptEnable, value: 0 },
        // Step 9: Enable the DMA controller (for channel 0) in TX and RX directions.
        Action::modify_one(Register::DmaCh0TxControl, Field::St, 1),
        Action::modify_one(Register::DmaCh0RxControl, Field::Sr, 1),
    ]
}

/// Section 61.5.2 Initializing MTL Registers
///
/// Both FIFOs get all of their memory, and store-and-forward packets. Store-and-forward
/// also lets us enable hardware checksumming.
pub fn initialize_mtl() -> (actions: [Action; 3])
    ensures
        actions@ == mtl_actions(),
{
    let transmit = [
        (Field::Tqs, Q0_FULLY_ALLOCATED),
        // Store-and-forward.
        (Field::Tsf, ENABLE),
        // Enable this FIFO.
        (Field::Txqen, TXQEN_ENABLE),
    ];
    let receive = [(Field::Rqs, Q0_FULLY_ALLOCATED), (Field::Rsf, ENABLE)];
    assert(transmit@ =~= transmit_queue_fields());
    assert(receive@ =~= receive_queue_fields());
    [
        Action::modify(Register::MtlTxq0OperationMode, &transmit),
        Action::modify(Register::MtlRxq0OperationMode, &receive),
        Action::modify_one(Register::MacRxqCtrl0, Field::Rxq0en, RXQ0EN_EN_DCB_GEN),
    ]
}

/// Section 61.5.3 Initializing MAC
///
/// The user enables the MAC later.
pub fn initialize_mac(mac_address: &MacAddress) -> (actions: [Action; 7])
    ensures
        actions@ == mac_actions(mac_address@),
{
    let filter = [
        // Receive All. This acts on the filter, whereas promiscuous mode bypasses
        // it. We don't need / want this.
        (Field::Ra, DISABLE),
        // It would be unexpected to drop non-TCP/UDP over IP packets, so we
        // forward them up into software.
        (Field::Dntu, DNTU_FWD),
        // Software expects to be the network stack.
        (Field::Ipfe, DISABLE),
        // No support for VLANs.
        (Field::Vtfe, DISABLE),
        // Let the hardware directly compare our MAC to the destination MAC.
        (Field::Hpf, DISABLE),
        (Field::Hmc, DISABLE),
        (Field::Huc, DISABLE),
        // Source address filter, not inverted. This shouldn't affect broadcast
        // packets; we keep those enabled.
        (Field::Saf, ENABLE),
        (Field::Saif, DISABLE),
        // Bring all control packets up for software to handle.
        (Field::Pcf, PCF_FW_PASS),
        // We want broadcast packets: the field that disables them is zero.
        (Field::Dbf, DBF_ENABLE),
        // Pass multicast packets.
        (Field::Pm, ENABLE),
        // Keep the destination address filter normal.
        (Field::Daif, DISABLE),
        // We're not here to spy on the network.
        (Field::Pr, DISABLE),
    ];
    assert(filter@ =~= packet_filter_fields());
    let flow_control = [(Field::Tfe, DISABLE), (Field::Pt, 512)];
    assert(flow_control@ =~= flow_control_fields());
    let configuration = [
        // Source address insert / replacement is not needed; the network stack
        // does it for us.
        (Field::Sarc, 0),
        // IP checksum enable.
        (Field::Ipc, ENABLE),
        // We don't need the packet padding / CRC in software.
        (Field::Cst, ENABLE),
        (Field::Acs, ENABLE),
        // We're throttling to 100Mbps, full duplex.
        (Field::Ps, PS_BF_10_100M),
        (Field::Fes, FES_MBPS_100_2500M),
        (Field::Dm, DM_FDUPLX),
        // We can't support loopback in full duplex mode.
        (Field::Lm, DISABLE),
    ];
    assert(configuration@ =~= configuration_fields());
    [
        // Step 1: program our single MAC address. Write order matters; the write on LOW
        // causes the hardware to internally update the MAC address across both registers.
        //
        // Note that address 0 is always enabled, so we're not writing the high bit.
        Action::Write {
            register: Register::MacAddress0High,
            value: ((mac_address[5] as u32) << 8) | mac_address[4] as u32,
        },
        Action::Write {
            register: Register::MacAddress0Low,
            value: ((mac_address[3] as u32) << 24) | ((mac_address[2] as u32) << 16) | ((
            mac_address[1] as u32) << 8) | mac_address[0] as u32,
        },
        // Step 2: This mostly affects the receive path.
        Action::modify(Register::MacPacketFilter, &filter),
        // Step 3: Disable transmit flow control, and RX flow control. The pause quanta is
        // arbitrary.
        Action::modify(Register::MacQ0TxFlowCtrl, &flow_control),
        Action::modify_one(Register::MacRxFlowCtrl, Field::Rfe, DISABLE),
        // Step 4: Disable all interrupts. Users will poll.
        Action::Write { register: Register::MacInterruptEnable, value: 0 },
        // Step 5
        Action::modify(Register::MacConfiguration, &configuration),
    ]
}

/// The clock ranges of the MDIO bus, in MHz, each without its upper bound.
///
/// The index of the range that includes the bus clock is written to the CR field. See
/// section 61.7.1.42.3 in the reference manual.
pub open spec fn csr_clock_ranges() -> Seq<(u32, u32)> {
    seq![
        (60u32, 100u32),
        (100, 150),
        (20, 35),
        (35, 60),
        (150, 250),
        (250, 300),
        (300, 500),
        (500, 800),
    ]
}

/// Range `i` includes a bus clock of `hz`.
pub open spec fn in_clock_range(i: int, hz: u32) -> bool {
    csr_clock_ranges()[i].0 * 1_000_000 <= hz < csr_clock_ranges()[i].1 * 1_000_000
}

/// Some range includes a bus clock of `hz`.
pub open spec fn supports_clock(hz: u32) -> bool {
    20_000_000 <= hz < 800_000_000
}

/// The range that includes a bus clock of `hz`.
pub open spec fn clock_range_of(hz: u32) -> u32 {
    choose|i: u32| i < 8 && #[trigger] in_clock_range(i as int, hz)
}

/// Converts a `MHz` value into `Hz`.
fn mhz(value: u32) -> (hz: u32)
    requires
        value <= 4000,
    ensures
        hz == value * 1_000_000,
{
    value * 1000 * 1000
}

/// Select the MDIO clock range, given the bus clock frequency in Hz.
///
/// There is none for a frequency that is not covered by the divider values.
pub fn csr_clock_range(bus_clk_root_hz: u32) -> (range: Option<u32>)
    ensures
        range is Some <==> supports_clock(bus_clk_root_hz),
        range matches Some(i) ==> i < 8 && in_clock_range(i as int, bus_clk_root_hz),
        range matches Some(i) ==> i == clock_range_of(bus_clk_root_hz),
{
    let ranges: [(u32, u32); 8] = [
        (60, 100),
        (100, 150),
        (20, 35),
        (35, 60),
        (150, 250),
        (250, 300),
        (300, 500),
        (500, 800),
    ];
    assert(ranges@ =~= csr_clock_ranges());
    proof {
        law_clock_ranges_partition(bus_clk_root_hz);
    }
    let mut i: usize = 0;
    while i < 8
        invariant
            i <= 8,
            ranges@ == csr_clock_ranges(),
            forall|j: int| 0 <= j < i ==> !in_clock_range(j, bus_clk_root_hz),
        decreases 8 - i,
    {
        let (low, high) = ranges[i];
        assert(low == csr_clock_ranges()[i as int].0 && high == csr_clock_ranges()[i as int].1);
        if mhz(low) <= bus_clk_root_hz && bus_clk_root_hz < mhz(high) {
            proof {
                law_clock_ranges_partition(bus_clk_root_hz);
                assert(in_clock_range((i as u32) as int, bus_clk_root_hz));
            }
            return Some(i as u32);
        }
        i += 1;
    }
    None
}

/// The action that sets the clock range, and nothing else in the register.
pub open spec fn clock_action(range: u32) -> Action {
    action::write_fields(Register::MacMdioAddress, seq![(Field::Cr, range)])
}

/// Program the MDIO clock range, given the bus clock frequency in Hz.
pub fn initialize_mdio_clocks(bus_clk_root_hz: u32) -> (action: Action)
    requires
        supports_clock(bus_clk_root_hz),
    ensures
        action == clock_action(clock_range_of(bus_clk_root_hz)),
{
    let range = csr_clock_range(bus_clk_root_hz).unwrap();
    Action::write_one(Register::MacMdioAddress, Field::Cr, range)
}

/// The masks and the bits of all that startup sets, as numbers.
proof fn lemma_fields_as_numbers()
    by (bit_vector)
    ensures
        0u32 | register::field_mask(0, 1) == 0x0000_0001u32,
        0u32 | ((1u32 << 0u32) & register::field_mask(0, 1)) == 0x0000_0001u32,
        0u32 | register::field_mask(16, 6) == 0x003f_0000u32,
        0u32 | ((1u32 << 16u32) & register::field_mask(16, 6)) == 0x0001_0000u32,
        (0u32 | register::field_mask(16, 6)) | register::field_mask(4, 11) == 0x003f_7ff0u32,
        (0u32 | ((1u32 << 16u32) & register::field_mask(16, 6))) | ((192u32 << 4u32) & register::field_mask(4, 11)) == 0x0001_0c00u32,
        0u32 | register::field_mask(0, 1) == 0x0000_0001u32,
        0u32 | ((1u32 << 0u32) & register::field_mask(0, 1)) == 0x0000_0001u32,
        0u32 | register::field_mask(0, 1) == 0x0000_0001u32,
        0u32 | ((1u32 << 0u32) & register::field_mask(0, 1)) == 0x0000_0001u32,
        ((0u32 | register::field_mask(16, 5)) | register::field_mask(1, 1)) | register::field_mask(2, 2) == 0x001f_000eu32,
        ((0u32 | ((31u32 << 16u32) & register::field_mask(16, 5))) | ((1u32 << 1u32) & register::field_mask(1, 1))) | ((2u32 << 2u32) & register::field_mask(2, 2)) == 0x001f_000au32,
        (0u32 | register::field_mask(20, 5)) | register::field_mask(5, 1) == 0x01f0_0020u32,
        (0u32 | ((31u32 << 20u32) & register::field_mask(20, 5))) | ((1u32 << 5u32) & register::field_mask(5, 1)) == 0x01f0_0020u32,
        0u32 | register::field_mask(0, 2) == 0x0000_0003u32,
        0u32 | ((2u32 << 0u32) & register::field_mask(0, 2)) == 0x0000_0002u32,
        (((((((((((((0u32 | register::field_mask(31, 1)) | register::field_mask(21, 1)) | register::field_mask(20, 1)) | register::field_mask(16, 1)) | register::field_mask(10, 1)) | register::field_mask(2, 1)) | register::field_mask(1, 1)) | register::field_mask(9, 1)) | register::field_mask(8, 1)) | register::field_mask(6, 2)) | register::field_mask(5, 1)) | register::field_mask(4, 1)) | register::field_mask(3, 1)) | register::field_mask(0, 1) == 0x8031_07ffu32,
        (((((((((((((0u32 | ((0u32 << 31u32) & register::field_mask(31, 1))) | ((0u32 << 21u32) & register::field_mask(21, 1))) | ((0u32 << 20u32) & register::field_mask(20, 1))) | ((0u32 << 16u32) & register::field_mask(16, 1))) | ((0u32 << 10u32) & register::field_mask(10, 1))) | ((0u32 << 2u32) & register::field_mask(2, 1))) | ((0u32 << 1u32) & register::field_mask(1, 1))) | ((1u32 << 9u32) & register::field_mask(9, 1))) | ((0u32 << 8u32) & register::field_mask(8, 1))) | ((3u32 << 6u32) & register::field_mask(6, 2))) | ((0u32 << 5u32) & register::field_mask(5, 1))) | ((1u32 << 4u32) & register::field_mask(4, 1))) | ((0u32 << 3u32) & register::field_mask(3, 1))) | ((0u32 << 0u32) & register::field_mask(0, 1)) == 0x0000_02d0u32,
        (0u32 | register::field_mask(1, 1)) | register::field_mask(16, 16) == 0xffff_0002u32,
        (0u32 | ((0u32 << 1u32) & register::field_mask(1, 1))) | ((512u32 << 16u32) & register::field_mask(16, 16)) == 0x0200_0000u32,
        0u32 | register::field_mask(0, 1) == 0x0000_0001u32,
        0u32 | ((0u32 << 0u32) & register::field_mask(0, 1)) == 0x0000_0000u32,
        (((((((0u32 | register::field_mask(28, 3)) | register::field_mask(27, 1)) | register::field_mask(21, 1)) | register::field_mask(20, 1)) | register::field_mask(15, 1)) | register::field_mask(14, 1)) | register::field_mask(13, 1)) | register::field_mask(12, 1) == 0x7830_f000u32,
        (((((((0u32 | ((0u32 << 28u32) & register::field_mask(28, 3))) | ((1u32 << 27u32) & register::field_mask(27, 1))) | ((1u32 << 21u32) & register::field_mask(21, 1))) | ((1u32 << 20u32) & register::field_mask(20, 1))) | ((1u32 << 15u32) & register::field_mask(15, 1))) | ((1u32 << 14u32) & register::field_mask(14, 1))) | ((1u32 << 13u32) & register::field_mask(13, 1))) | ((0u32 << 12u32) & register::field_mask(12, 1)) == 0x0830_e000u32,
{
}

/// What each list of fields that startup sets comes to: the bits that belong to the fields,
/// and their values in place.
pub proof fn lemma_lists_as_numbers()
    ensures
        register::mask_of(seq![(Field::Swr, 1u32)]) == 0x0000_0001u32,
        register::bits_of(seq![(Field::Swr, 1u32)]) == 0x0000_0001u32,
        register::mask_of(seq![(Field::Txpbl, 1u32)]) == 0x003f_0000u32,
        register::bits_of(seq![(Field::Txpbl, 1u32)]) == 0x0001_0000u32,
        register::mask_of(receive_control_fields()) == 0x003f_7ff0u32,
        register::bits_of(receive_control_fields()) == 0x0001_0c00u32,
        register::mask_of(seq![(Field::St, 1u32)]) == 0x0000_0001u32,
        register::bits_of(seq![(Field::St, 1u32)]) == 0x0000_0001u32,
        register::mask_of(seq![(Field::Sr, 1u32)]) == 0x0000_0001u32,
        register::bits_of(seq![(Field::Sr, 1u32)]) == 0x0000_0001u32,
        register::mask_of(transmit_queue_fields()) == 0x001f_000eu32,
        register::bits_of(transmit_queue_fields()) == 0x001f_000au32,
        register::mask_of(receive_queue_fields()) == 0x01f0_0020u32,
        register::bits_of(receive_queue_fields()) == 0x01f0_0020u32,
        register::mask_of(seq![(Field::Rxq0en, RXQ0EN_EN_DCB_GEN)]) == 0x0000_0003u32,
        register::bits_of(seq![(Field::Rxq0en, RXQ0EN_EN_DCB_GEN)]) == 0x0000_0002u32,
        register::mask_of(packet_filter_fields()) == 0x8031_07ffu32,
        register::bits_of(packet_filter_fields()) == 0x0000_02d0u32,
        register::mask_of(flow_control_fields()) == 0xffff_0002u32,
        register::bits_of(flow_control_fields()) == 0x0200_0000u32,
        register::mask_of(seq![(Field::Rfe, DISABLE)]) == 0x0000_0001u32,
        register::bits_of(seq![(Field::Rfe, DISABLE)]) == 0x0000_0000u32,
        register::mask_of(configuration_fields()) == 0x7830_f000u32,
        register::bits_of(configuration_fields()) == 0x0830_e000u32,
{
    reveal_with_fuel(register::mask_of, 15);
    reveal_with_fuel(register::bits_of, 15);
    lemma_fields_as_numbers();
}

/// The clock range of every bus clock that has one, and which have one.
pub proof fn law_clock_ranges_by_frequency(hz: u32)
    ensures
        supports_clock(hz) <==> 20_000_000 <= hz < 800_000_000,
        supports_clock(hz) ==> clock_range_of(hz) == if hz < 35_000_000 {
            2u32
        } else if hz < 60_000_000 {
            3
        } else if hz < 100_000_000 {
            0
        } else if hz < 150_000_000 {
            1
        } else if hz < 250_000_000 {
            4
        } else if hz < 300_000_000 {
            5
        } else if hz < 500_000_000 {
            6
        } else {
            7
        },
{
    if supports_clock(hz) {
        let range: u32 = if hz < 35_000_000 {
            2
        } else if hz < 60_000_000 {
            3
        } else if hz < 100_000_000 {
            0
        } else if hz < 150_000_000 {
            1
        } else if hz < 250_000_000 {
            4
        } else if hz < 300_000_000 {
            5
        } else if hz < 500_000_000 {
            6
        } else {
            7
        };
        assert(in_clock_range(range as int, hz));
        law_clock_ranges_partition(hz);
    }
}

/// Setting a clock range writes it from bit 8 up, and zeros elsewhere.
pub proof fn law_clock_range_is_written_alone(range: u32)
    requires
        range < 16,
    ensures
        clock_action(range) == (Action::Write {
            register: Register::MacMdioAddress,
            value: (range * 256) as u32,
        }),
{
    reveal_with_fuel(register::bits_of, 2);
    assert(0u32 | ((range << 8u32) & register::field_mask(8, 4)) == range * 256) by (bit_vector)
        requires
            range < 16,
    ;
}

/// The clock ranges leave no gap between 20 MHz and 800 MHz, and no frequency lies in two
/// of them.
pub proof fn law_clock_ranges_partition(hz: u32)
    ensures
        supports_clock(hz) <==> exists|i: int| 0 <= i < 8 && in_clock_range(i, hz),
        forall|i: int, j: int|
            0 <= i < 8 && 0 <= j < 8 && in_clock_range(i, hz) && in_clock_range(j, hz) ==> i == j,
{
    let i: int = if hz < 35_000_000 {
        2
    } else if hz < 60_000_000 {
        3
    } else if hz < 100_000_000 {
        0
    } else if hz < 150_000_000 {
        1
    } else if hz < 250_000_000 {
        4
    } else if hz < 300_000_000 {
        5
    } else if hz < 500_000_000 {
        6
    } else {
        7
    };
    if supports_clock(hz) {
        assert(in_clock_range(i, hz));
    }
}

} // verus!
