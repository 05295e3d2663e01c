//! Registers of the ENET QOS block, and the fields that the driver programs.
//!
//! A register is named, not addressed: whoever performs an access maps the name to
//! the device. A field is a run of bits inside of one register.

use vstd::prelude::*;

verus! {

/// A register of the peripheral.
#[derive(Debug, Clone, Copy, PartialEq, Eq, Hash, Structural)]
pub enum Register {
    /// `DMA_MODE`: resets and arbitrates the DMA controller.
    DmaMode,
    /// `DMA_CH0_RXDESC_LIST_ADDRESS`: bus address of the first receive descriptor.
    DmaCh0RxdescListAddress,
    /// `DMA_CH0_RXDESC_RING_LENGTH`: number of receive descriptors, minus one.
    DmaCh0RxdescRingLength,
    /// `DMA_CH0_RXDESC_TAIL_POINTER`: how far the controller may go in the receive ring.
    DmaCh0RxdescTailPointer,
    /// `DMA_CH0_TXDESC_LIST_ADDRESS`: bus address of the first transmit descriptor.
    DmaCh0TxdescListAddress,
    /// `DMA_CH0_TXDESC_RING_LENGTH`: number of transmit descriptors, minus one.
    DmaCh0TxdescRingLength,
    /// `DMA_CH0_TXDESC_TAIL_POINTER`: how far the controller may go in the transmit ring.
    DmaCh0TxdescTailPointer,
    /// `DMA_CH0_TX_CONTROL`: transmit side of the DMA channel.
    DmaCh0TxControl,
    /// `DMA_CH0_RX_CONTROL`: receive side of the DMA channel.
    DmaCh0RxControl,
    /// `DMA_CH0_INTERRUPT_ENABLE`: interrupts of the DMA channel.
    DmaCh0InterruptEnable,
    /// `MTL_TXQ0_OPERATION_MODE`: transmit FIFO.
    MtlTxq0OperationMode,
    /// `MTL_RXQ0_OPERATION_MODE`: receive FIFO.
    MtlRxq0OperationMode,
    /// `MAC_RXQ_CTRL0`: enables the receive FIFO in the MAC.
    MacRxqCtrl0,
    /// `MAC_ADDRESS0_HIGH`: the last two bytes of our MAC address.
    MacAddress0High,
    /// `MAC_ADDRESS0_LOW`: the first four bytes of our MAC address.
    MacAddress0Low,
    /// `MAC_PACKET_FILTER`: which packets the MAC lets through.
    MacPacketFilter,
    /// `MAC_Q0_TX_FLOW_CTRL`: transmit flow control.
    MacQ0TxFlowCtrl,
    /// `MAC_RX_FLOW_CTRL`: receive flow control.
    MacRxFlowCtrl,
    /// `MAC_INTERRUPT_ENABLE`: interrupts of the MAC.
    MacInterruptEnable,
    /// `MAC_CONFIGURATION`: speed, duplex, checksumming, and the two enable bits.
    MacConfiguration,
    /// `MAC_MDIO_ADDRESS`: command of an MDIO transaction, and its clock range.
    MacMdioAddress,
    /// `MAC_MDIO_DATA`: data of an MDIO transaction.
    MacMdioData,
}

/// A field of a register.
///
/// The variants carry the names of the reference manual, grouped by register.
#[derive(Debug, Clone, Copy, PartialEq, Eq, Structural)]
pub enum Field {
    /// `DMA_MODE[SWR]`: software reset; reads as one until the reset is complete.
    Swr,
    /// `DMA_CH0_TX_CONTROL[TXPBL]`: transmit burst length, in bus widths.
    Txpbl,
    /// `DMA_CH0_TX_CONTROL[ST]`: start the transmit side.
    St,
    /// `DMA_CH0_RX_CONTROL[RXPBL]`: receive burst length, in bus widths.
    Rxpbl,
    /// `DMA_CH0_RX_CONTROL[RBSZ_13_Y]`: receive buffer size without its low three bits.
    Rbsz13Y,
    /// `DMA_CH0_RX_CONTROL[SR]`: start the receive side.
    Sr,
    /// `MTL_TXQ0_OPERATION_MODE[TQS]`: transmit FIFO size in blocks of 256 bytes, minus one.
    Tqs,
    /// `MTL_TXQ0_OPERATION_MODE[TXQEN]`: transmit FIFO enable.
    Txqen,
    /// `MTL_TXQ0_OPERATION_MODE[TSF]`: transmit store-and-forward.
    Tsf,
    /// `MTL_RXQ0_OPERATION_MODE[RQS]`: receive FIFO size in blocks of 256 bytes, minus one.
    Rqs,
    /// `MTL_RXQ0_OPERATION_MODE[RSF]`: receive store-and-forward.
    Rsf,
    /// `MAC_RXQ_CTRL0[RXQ0EN]`: receive FIFO enable.
    Rxq0en,
    /// `MAC_PACKET_FILTER[RA]`: receive all.
    Ra,
    /// `MAC_PACKET_FILTER[DNTU]`: drop packets that are not TCP or UDP over IP.
    Dntu,
    /// `MAC_PACKET_FILTER[IPFE]`: layer 3 and layer 4 filter.
    Ipfe,
    /// `MAC_PACKET_FILTER[VTFE]`: VLAN tag filter.
    Vtfe,
    /// `MAC_PACKET_FILTER[HPF]`: hash or perfect filter.
    Hpf,
    /// `MAC_PACKET_FILTER[SAF]`: source address filter.
    Saf,
    /// `MAC_PACKET_FILTER[SAIF]`: inverse source address filter.
    Saif,
    /// `MAC_PACKET_FILTER[PCF]`: which control packets pass.
    Pcf,
    /// `MAC_PACKET_FILTER[DBF]`: disable broadcast packets; zero lets them in.
    Dbf,
    /// `MAC_PACKET_FILTER[PM]`: pass all multicast packets.
    Pm,
    /// `MAC_PACKET_FILTER[DAIF]`: inverse destination address filter.
    Daif,
    /// `MAC_PACKET_FILTER[HMC]`: hash multicast.
    Hmc,
    /// `MAC_PACKET_FILTER[HUC]`: hash unicast.
    Huc,
    /// `MAC_PACKET_FILTER[PR]`: promiscuous mode.
    Pr,
    /// `MAC_Q0_TX_FLOW_CTRL[PT]`: pause time.
    Pt,
    /// `MAC_Q0_TX_FLOW_CTRL[TFE]`: transmit flow control.
    Tfe,
    /// `MAC_RX_FLOW_CTRL[RFE]`: receive flow control.
    Rfe,
    /// `MAC_CONFIGURATION[SARC]`: source address insertion or replacement.
    Sarc,
    /// `MAC_CONFIGURATION[IPC]`: IP checksum offload.
    Ipc,
    /// `MAC_CONFIGURATION[CST]`: CRC stripping.
    Cst,
    /// `MAC_CONFIGURATION[ACS]`: automatic pad and CRC stripping.
    Acs,
    /// `MAC_CONFIGURATION[PS]`: port select; one for 10 or 100 Mbps.
    Ps,
    /// `MAC_CONFIGURATION[FES]`: speed; one for the faster of the selected pair.
    Fes,
    /// `MAC_CONFIGURATION[DM]`: duplex mode; one for full duplex.
    Dm,
    /// `MAC_CONFIGURATION[LM]`: loopback mode.
    Lm,
    /// `MAC_CONFIGURATION[TE]`: transmitter enable.
    Te,
    /// `MAC_CONFIGURATION[RE]`: receiver enable.
    Re,
    /// `MAC_MDIO_ADDRESS[PA]`: address of the PHY.
    Pa,
    /// `MAC_MDIO_ADDRESS[RDA]`: register of the PHY.
    Rda,
    /// `MAC_MDIO_ADDRESS[CR]`: clock range of the management clock.
    Cr,
    /// `MAC_MDIO_ADDRESS[GOC_1]`: high bit of the operation.
    Goc1,
    /// `MAC_MDIO_ADDRESS[GOC_0]`: low bit of the operation.
    Goc0,
    /// `MAC_MDIO_ADDRESS[GB]`: busy; software sets it to start, hardware clears it.
    Gb,
    /// `MAC_MDIO_DATA[GD]`: the sixteen bits of data.
    Gd,
}

/// Turns off what a one-bit field turns on.
pub const DISABLE: u32 = 0;

/// Turns on what a one-bit field turns on.
pub const ENABLE: u32 = 1;

/// `MTL_TXQ0_OPERATION_MODE[TXQEN]`: the FIFO is enabled.
pub const TXQEN_ENABLE: u32 = 2;

/// `MAC_RXQ_CTRL0[RXQ0EN]`: the FIFO is enabled, for generic traffic.
pub const RXQ0EN_EN_DCB_GEN: u32 = 2;

/// `MAC_PACKET_FILTER[DNTU]`: forward packets that are not TCP or UDP over IP.
pub const DNTU_FWD: u32 = 0;

/// `MAC_PACKET_FILTER[PCF]`: forward control packets that pass the address filter.
pub const PCF_FW_PASS: u32 = 3;

/// `MAC_PACKET_FILTER[DBF]`: let broadcast packets in.
pub const DBF_ENABLE: u32 = 0;

/// `MAC_CONFIGURATION[PS]`: 10 or 100 Mbps.
pub const PS_BF_10_100M: u32 = 1;

/// `MAC_CONFIGURATION[FES]`: 100 Mbps, where 10 or 100 Mbps is selected.
pub const FES_MBPS_100_2500M: u32 = 1;

/// `MAC_CONFIGURATION[DM]`: full duplex.
pub const DM_FDUPLX: u32 = 1;

/// Where a field sits: `width` bits of `register`, from bit `offset` up.
#[derive(Debug, Clone, Copy, PartialEq, Eq, Structural)]
pub struct Layout {
    /// The register that holds the field.
    pub register: Register,
    /// The lowest bit of the field.
    pub offset: u32,
    /// The number of bits in the field.
    pub width: u32,
}

impl Field {
    /// Where this field sits.
    pub open spec fn spec_layout(self) -> Layout {
        match self {
            Field::Swr => Layout { register: Register::DmaMode, offset: 0, width: 1 },
            Field::Txpbl => Layout { register: Register::DmaCh0TxControl, offset: 16, width: 6 },
            Field::St => Layout { register: Register::DmaCh0TxControl, offset: 0, width: 1 },
            Field::Rxpbl => Layout { register: Register::DmaCh0RxControl, offset: 16, width: 6 },
            Field::Rbsz13Y => Layout { register: Register::DmaCh0RxControl, offset: 4, width: 11 },
            Field::Sr => Layout { register: Register::DmaCh0RxControl, offset: 0, width: 1 },
            Field::Tqs => Layout { register: Register::MtlTxq0OperationMode, offset: 16, width: 5 },
            Field::Txqen => Layout { register: Register::MtlTxq0OperationMode, offset: 2, width: 2 },
            Field::Tsf => Layout { register: Register::MtlTxq0OperationMode, offset: 1, width: 1 },
            Field::Rqs => Layout { register: Register::MtlRxq0OperationMode, offset: 20, width: 5 },
            Field::Rsf => Layout { register: Register::MtlRxq0OperationMode, offset: 5, width: 1 },
            Field::Rxq0en => Layout { register: Register::MacRxqCtrl0, offset: 0, width: 2 },
            Field::Ra => Layout { register: Register::MacPacketFilter, offset: 31, width: 1 },
            Field::Dntu => Layout { register: Register::MacPacketFilter, offset: 21, width: 1 },
            Field::Ipfe => Layout { register: Register::MacPacketFilter, offset: 20, width: 1 },
            Field::Vtfe => Layout { register: Register::MacPacketFilter, offset: 16, width: 1 },
            Field::Hpf => Layout { register: Register::MacPacketFilter, offset: 10, width: 1 },
            Field::Saf => Layout { register: Register::MacPacketFilter, offset: 9, width: 1 },
            Field::Saif => Layout { register: Register::MacPacketFilter, offset: 8, width: 1 },
            Field::Pcf => Layout { register: Register::MacPacketFilter, offset: 6, width: 2 },
            Field::Dbf => Layout { register: Register::MacPacketFilter, offset: 5, width: 1 },
            Field::Pm => Layout { register: Register::MacPacketFilter, offset: 4, width: 1 },
            Field::Daif => Layout { register: Register::MacPacketFilter, offset: 3, width: 1 },
            Field::Hmc => Layout { register: Register::MacPacketFilter, offset: 2, width: 1 },
            Field::Huc => Layout { register: Register::MacPacketFilter, offset: 1, width: 1 },
            Field::Pr => Layout { register: Register::MacPacketFilter, offset: 0, width: 1 },
            Field::Pt => Layout { register: Register::MacQ0TxFlowCtrl, offset: 16, width: 16 },
            Field::Tfe => Layout { register: Register::MacQ0TxFlowCtrl, offset: 1, width: 1 },
            Field::Rfe => Layout { register: Register::MacRxFlowCtrl, offset: 0, width: 1 },
            Field::Sarc => Layout { register: Register::MacConfiguration, offset: 28, width: 3 },
            Field::Ipc => Layout { register: Register::MacConfiguration, offset: 27, width: 1 },
            Field::Cst => Layout { register: Register::MacConfiguration, offset: 21, width: 1 },
            Field::Acs => Layout { register: Register::MacConfiguration, offset: 20, width: 1 },
            Field::Ps => Layout { register: Register::MacConfiguration, offset: 15, width: 1 },
            Field::Fes => Layout { register: Register::MacConfiguration, offset: 14, width: 1 },
            Field::Dm => Layout { register: Register::MacConfiguration, offset: 13, width: 1 },
            Field::Lm => Layout { register: Register::MacConfiguration, offset: 12, width: 1 },
            Field::Te => Layout { register: Register::MacConfiguration, offset: 1, width: 1 },
            Field::Re => Layout { register: Register::MacConfiguration, offset: 0, width: 1 },
            Field::Pa => Layout { register: Register::MacMdioAddress, offset: 21, width: 5 },
            Field::Rda => Layout { register: Register::MacMdioAddress, offset: 16, width: 5 },
            Field::Cr => Layout { register: Register::MacMdioAddress, offset: 8, width: 4 },
            Field::Goc1 => Layout { register: Register::MacMdioAddress, offset: 3, width: 1 },
            Field::Goc0 => Layout { register: Register::MacMdioAddress, offset: 2, width: 1 },
            Field::Gb => Layout { register: Register::MacMdioAddress, offset: 0, width: 1 },
            Field::Gd => Layout { register: Register::MacMdioData, offset: 0, width: 16 },
        }
    }

    /// Returns where this field sits.
    #[verifier::when_used_as_spec(spec_layout)]
    pub fn layout(self) -> (layout: Layout)
        ensures
            layout == self.layout(),
    {
        match self {
            Field::Swr => Layout { register: Register::DmaMode, offset: 0, width: 1 },
            Field::Txpbl => Layout { register: Register::DmaCh0TxControl, offset: 16, width: 6 },
            Field::St => Layout { register: Register::DmaCh0TxControl, offset: 0, width: 1 },
            Field::Rxpbl => Layout { register: Register::DmaCh0RxControl, offset: 16, width: 6 },
            Field::Rbsz13Y => Layout { register: Register::DmaCh0RxControl, offset: 4, width: 11 },
            Field::Sr => Layout { register: Register::DmaCh0RxControl, offset: 0, width: 1 },
            Field::Tqs => Layout { register: Register::MtlTxq0OperationMode, offset: 16, width: 5 },
            Field::Txqen => Layout { register: Register::MtlTxq0OperationMode, offset: 2, width: 2 },
            Field::Tsf => Layout { register: Register::MtlTxq0OperationMode, offset: 1, width: 1 },
            Field::Rqs => Layout { register: Register::MtlRxq0OperationMode, offset: 20, width: 5 },
            Field::Rsf => Layout { register: Register::MtlRxq0OperationMode, offset: 5, width: 1 },
            Field::Rxq0en => Layout { register: Register::MacRxqCtrl0, offset: 0, width: 2 },
            Field::Ra => Layout { register: Register::MacPacketFilter, offset: 31, width: 1 },
            Field::Dntu => Layout { register: Register::MacPacketFilter, offset: 21, width: 1 },
            Field::Ipfe => Layout { register: Register::MacPacketFilter, offset: 20, width: 1 },
            Field::Vtfe => Layout { register: Register::MacPacketFilter, offset: 16, width: 1 },
            Field::Hpf => Layout { register: Register::MacPacketFilter, offset: 10, width: 1 },
            Field::Saf => Layout { register: Register::MacPacketFilter, offset: 9, width: 1 },
            Field::Saif => Layout { register: Register::MacPacketFilter, offset: 8, width: 1 },
            Field::Pcf => Layout { register: Register::MacPacketFilter, offset: 6, width: 2 },
            Field::Dbf => Layout { register: Register::MacPacketFilter, offset: 5, width: 1 },
            Field::Pm => Layout { register: Register::MacPacketFilter, offset: 4, width: 1 },
            Field::Daif => Layout { register: Register::MacPacketFilter, offset: 3, width: 1 },
            Field::Hmc => Layout { register: Register::MacPacketFilter, offset: 2, width: 1 },
            Field::Huc => Layout { register: Register::MacPacketFilter, offset: 1, width: 1 },
            Field::Pr => Layout { register: Register::MacPacketFilter, offset: 0, width: 1 },
            Field::Pt => Layout { register: Register::MacQ0TxFlowCtrl, offset: 16, width: 16 },
            Field::Tfe => Layout { register: Register::MacQ0TxFlowCtrl, offset: 1, width: 1 },
            Field::Rfe => Layout { register: Register::MacRxFlowCtrl, offset: 0, width: 1 },
            Field::Sarc => Layout { register: Register::MacConfiguration, offset: 28, width: 3 },
            Field::Ipc => Layout { register: Register::MacConfiguration, offset: 27, width: 1 },
            Field::Cst => Layout { register: Register::MacConfiguration, offset: 21, width: 1 },
            Field::Acs => Layout { register: Register::MacConfiguration, offset: 20, width: 1 },
            Field::Ps => Layout { register: Register::MacConfiguration, offset: 15, width: 1 },
            Field::Fes => Layout { register: Register::MacConfiguration, offset: 14, width: 1 },
            Field::Dm => Layout { register: Register::MacConfiguration, offset: 13, width: 1 },
            Field::Lm => Layout { register: Register::MacConfiguration, offset: 12, width: 1 },
            Field::Te => Layout { register: Register::MacConfiguration, offset: 1, width: 1 },
            Field::Re => Layout { register: Register::MacConfiguration, offset: 0, width: 1 },
            Field::Pa => Layout { register: Register::MacMdioAddress, offset: 21, width: 5 },
            Field::Rda => Layout { register: Register::MacMdioAddress, offset: 16, width: 5 },
            Field::Cr => Layout { register: Register::MacMdioAddress, offset: 8, width: 4 },
            Field::Goc1 => Layout { register: Register::MacMdioAddress, offset: 3, width: 1 },
            Field::Goc0 => Layout { register: Register::MacMdioAddress, offset: 2, width: 1 },
            Field::Gb => Layout { register: Register::MacMdioAddress, offset: 0, width: 1 },
            Field::Gd => Layout { register: Register::MacMdioData, offset: 0, width: 16 },
        }
    }
    /// The bits of the register that belong to this field.
    pub open spec fn spec_mask(self) -> u32 {
        field_mask(self.layout().offset, self.layout().width)
    }

    /// Returns the bits of the register that belong to this field.
    #[verifier::when_used_as_spec(spec_mask)]
    pub fn mask(self) -> (mask: u32)
        ensures
            mask == self.mask(),
    {
        let layout = self.layout();
        proof {
            lemma_layout_in_register(self);
        }
        let width: u32 = layout.width;
        assert((1u32 << width) >= 1u32) by (bit_vector)
            requires
                width < 32,
        ;
        ((1u32 << width) - 1) << layout.offset
    }

    /// `value`, placed at this field; what does not fit is cut off.
    pub open spec fn spec_place(self, value: u32) -> u32 {
        (value << self.layout().offset) & self.mask()
    }

    /// Places `value` at this field; what does not fit is cut off.
    #[verifier::when_used_as_spec(spec_place)]
    pub fn place(self, value: u32) -> (bits: u32)
        ensures
            bits == self.place(value),
    {
        proof {
            lemma_layout_in_register(self);
        }
        (value << self.layout().offset) & self.mask()
    }

    /// What this field holds in a register that reads `register`.
    pub open spec fn spec_extract(self, register: u32) -> u32 {
        (register & self.mask()) >> self.layout().offset
    }

    /// Returns what this field holds in a register that reads `register`.
    #[verifier::when_used_as_spec(spec_extract)]
    pub fn extract(self, register: u32) -> (value: u32)
        ensures
            value == self.extract(register),
    {
        proof {
            lemma_layout_in_register(self);
        }
        (register & self.mask()) >> self.layout().offset
    }

    /// The largest value that this field can hold.
    pub open spec fn max_value(self) -> u32 {
        ((1u32 << self.layout().width) - 1) as u32
    }

    /// The two fields share no bit of any register.
    pub open spec fn disjoint(self, other: Field) -> bool {
        let a = self.layout();
        let b = other.layout();
        a.register != b.register || a.offset + a.width <= b.offset || b.offset + b.width <= a.offset
    }
}

/// The bits of a field of `width` bits that starts at bit `offset`.
pub open spec fn field_mask(offset: u32, width: u32) -> u32 {
    (((1u32 << width) - 1) as u32) << offset
}

/// What `field` holds, where each register holds what `registers` says.
pub open spec fn field_in(registers: Map<Register, u32>, field: Field) -> u32 {
    field.extract(registers[field.layout().register])
}

/// `register`, with the bits of `mask` replaced by `bits`.
pub open spec fn spec_modified(register: u32, mask: u32, bits: u32) -> u32 {
    (register & !mask) | bits
}

/// Replaces the bits of `mask` in `register` by `bits`.
#[verifier::when_used_as_spec(spec_modified)]
pub fn modified(register: u32, mask: u32, bits: u32) -> (value: u32)
    ensures
        value == modified(register, mask, bits),
{
    (register & !mask) | bits
}

/// The bits that belong to any of the assigned fields.
pub open spec fn mask_of(fields: Seq<(Field, u32)>) -> u32
    decreases fields.len(),
{
    if fields.len() == 0 {
        0
    } else {
        mask_of(fields.drop_last()) | fields.last().0.mask()
    }
}

/// The assigned values, each placed at its field.
pub open spec fn bits_of(fields: Seq<(Field, u32)>) -> u32
    decreases fields.len(),
{
    if fields.len() == 0 {
        0
    } else {
        bits_of(fields.drop_last()) | fields.last().0.place(fields.last().1)
    }
}

/// `value`, with the given fields changed.
pub open spec fn changed(value: u32, fields: Seq<(Field, u32)>) -> u32 {
    modified(value, mask_of(fields), bits_of(fields))
}

/// Every field is one of `register`.
pub open spec fn all_in(fields: Seq<(Field, u32)>, register: Register) -> bool {
    forall|i: int| 0 <= i < fields.len() ==> (#[trigger] fields[i]).0.layout().register == register
}

/// No field is assigned twice.
pub open spec fn no_repeats(fields: Seq<(Field, u32)>) -> bool {
    forall|i: int, j: int|
        0 <= i < j < fields.len() ==> (#[trigger] fields[i]).0 != (#[trigger] fields[j]).0
}

/// Collects the mask and the bits of a list of field assignments.
pub fn collect(fields: &[(Field, u32)]) -> (collected: (u32, u32))
    ensures
        collected.0 == mask_of(fields@),
        collected.1 == bits_of(fields@),
{
    let mut mask: u32 = 0;
    let mut bits: u32 = 0;
    let mut i: usize = 0;
    while i < fields.len()
        invariant
            i <= fields@.len(),
            mask == mask_of(fields@.take(i as int)),
            bits == bits_of(fields@.take(i as int)),
        decreases fields@.len() - i,
    {
        let (field, value) = fields[i];
        assert(fields@.take(i + 1).drop_last() == fields@.take(i as int));
        mask = mask | field.mask();
        bits = bits | field.place(value);
        i += 1;
    }
    assert(fields@.take(i as int) == fields@);
    (mask, bits)
}

/// Every field lies inside of its register.
pub proof fn lemma_layout_in_register(field: Field)
    ensures
        0 < field.layout().width <= 16,
        field.layout().offset + field.layout().width <= 32,
        field.layout().offset < 32,
{
}

/// What a field of each occurring width can hold.
pub proof fn lemma_max_values()
    by (bit_vector)
    ensures
        ((1u32 << 1) - 1) as u32 == 1,
        ((1u32 << 2) - 1) as u32 == 3,
        ((1u32 << 3) - 1) as u32 == 7,
        ((1u32 << 4) - 1) as u32 == 15,
        ((1u32 << 5) - 1) as u32 == 31,
        ((1u32 << 6) - 1) as u32 == 63,
        ((1u32 << 11) - 1) as u32 == 2047,
        ((1u32 << 16) - 1) as u32 == 65535,
{
}

/// Distinct fields never share a bit.
pub proof fn law_fields_are_disjoint(a: Field, b: Field)
    requires
        a != b,
    ensures
        a.disjoint(b),
{
}

/// A field holds what was placed in it, as far as it fits.
pub proof fn law_extract_of_place(field: Field, value: u32)
    ensures
        field.extract(field.place(value)) == value & field.max_value(),
        value <= field.max_value() ==> field.extract(field.place(value)) == value,
{
    lemma_layout_in_register(field);
    let o = field.layout().offset;
    let w = field.layout().width;
    let m = field_mask(o, w);
    let top = ((1u32 << w) - 1) as u32;
    assert(((((value << o) & m) & m) >> o) == value & top && (value <= top ==> value & top == value))
        by (bit_vector)
        requires
            0 < w <= 16,
            o + w <= 32,
            m == (((1u32 << w) - 1) as u32) << o,
            top == ((1u32 << w) - 1) as u32,
    ;
}

/// A field reads as the bits of the register from its offset up, as many as it is wide, and
/// nothing else of the register has a say.
pub proof fn law_extract_reads_the_bits(field: Field, register: u32)
    ensures
        field.extract(register) == (register >> field.layout().offset) & field.max_value(),
        field.extract(register) <= field.max_value(),
        field.max_value() + 1 == 1u32 << field.layout().width,
{
    lemma_layout_in_register(field);
    let o = field.layout().offset;
    let w = field.layout().width;
    let m = field_mask(o, w);
    let top = ((1u32 << w) - 1) as u32;
    assert((register & m) >> o == (register >> o) & top && (register & m) >> o <= top && top + 1
        == 1u32 << w) by (bit_vector)
        requires
            0 < w <= 16,
            o + w <= 32,
            m == (((1u32 << w) - 1) as u32) << o,
            top == ((1u32 << w) - 1) as u32,
    ;
}

/// A modification takes the bits of its mask from its bits, and all others from the
/// register.
pub proof fn law_modified_replaces_the_masked_bits(register: u32, mask: u32, bits: u32)
    requires
        bits & !mask == 0,
    ensures
        modified(register, mask, bits) & mask == bits,
        modified(register, mask, bits) & !mask == register & !mask,
{
    assert(((register & !mask) | bits) & mask == bits && ((register & !mask) | bits) & !mask
        == register & !mask) by (bit_vector)
        requires
            bits & !mask == 0,
    ;
}

/// Disjoint fields of one register have disjoint masks.
proof fn lemma_disjoint_masks(a: Field, b: Field)
    requires
        a.disjoint(b),
        a.layout().register == b.layout().register,
    ensures
        a.mask() & b.mask() == 0,
{
    lemma_layout_in_register(a);
    lemma_layout_in_register(b);
    let (o, w) = (a.layout().offset, a.layout().width);
    let (p, x) = (b.layout().offset, b.layout().width);
    assert(((((1u32 << w) - 1) as u32) << o) & ((((1u32 << x) - 1) as u32) << p) == 0) by (bit_vector)
        requires
            0 < w <= 16,
            o + w <= 32,
            0 < x <= 16,
            p + x <= 32,
            o + w <= p || p + x <= o,
    ;
}

/// Assignments to other fields leave no trace at `field`.
proof fn lemma_untouched(fields: Seq<(Field, u32)>, field: Field)
    requires
        all_in(fields, field.layout().register),
        forall|i: int| 0 <= i < fields.len() ==> (#[trigger] fields[i]).0.disjoint(field),
    ensures
        mask_of(fields) & field.mask() == 0,
        bits_of(fields) & field.mask() == 0,
    decreases fields.len(),
{
    let m = field.mask();
    if fields.len() == 0 {
        assert(0u32 & m == 0) by (bit_vector);
    } else {
        let rest = fields.drop_last();
        let (last, value) = fields.last();
        assert(fields[fields.len() - 1] == (last, value));
        assert forall|i: int| 0 <= i < rest.len() implies (#[trigger] rest[i]).0.disjoint(field)
            && rest[i].0.layout().register == field.layout().register by {
            assert(rest[i] == fields[i]);
        }
        lemma_untouched(rest, field);
        lemma_disjoint_masks(last, field);
        let (mask, bits, n, placed) = (mask_of(rest), bits_of(rest), last.mask(), last.place(value));
        let shifted = value << last.layout().offset;
        assert((mask | n) & m == 0 && (bits | placed) & m == 0) by (bit_vector)
            requires
                mask & m == 0,
                bits & m == 0,
                n & m == 0,
                placed == shifted & n,
        ;
    }
}

/// An assigned field is covered by the mask, and holds its value in the bits.
proof fn lemma_assigned(fields: Seq<(Field, u32)>, k: int)
    requires
        0 <= k < fields.len(),
        all_in(fields, fields[k].0.layout().register),
        no_repeats(fields),
    ensures
        mask_of(fields) & fields[k].0.mask() == fields[k].0.mask(),
        bits_of(fields) & fields[k].0.mask() == fields[k].0.place(fields[k].1),
    decreases fields.len(),
{
    let rest = fields.drop_last();
    let (last, value) = fields.last();
    let n = last.mask();
    let shifted = value << last.layout().offset;
    let placed = last.place(value);
    let (mask, bits) = (mask_of(rest), bits_of(rest));
    assert forall|i: int| 0 <= i < rest.len() implies #[trigger] rest[i] == fields[i] by {}
    if k == fields.len() - 1 {
        assert forall|i: int| 0 <= i < rest.len() implies (#[trigger] rest[i]).0.disjoint(last) by {
            law_fields_are_disjoint(fields[i].0, fields[k].0);
        }
        lemma_untouched(rest, last);
        assert((mask | n) & n == n && (bits | placed) & n == placed) by (bit_vector)
            requires
                bits & n == 0,
                placed == shifted & n,
        ;
    } else {
        let m = fields[k].0.mask();
        let kept = fields[k].0.place(fields[k].1);
        lemma_assigned(rest, k);
        law_fields_are_disjoint(fields[k].0, fields[fields.len() - 1].0);
        assert(fields[fields.len() - 1].0.layout().register == fields[k].0.layout().register);
        lemma_disjoint_masks(fields[k].0, last);
        assert((mask | n) & m == m && (bits | placed) & m == kept) by (bit_vector)
            requires
                mask & m == m,
                bits & m == kept,
                m & n == 0,
                placed == shifted & n,
        ;
    }
}

/// After a modification, each assigned field holds its value (as far as it fits).
pub proof fn law_modify_assigns(register: u32, fields: Seq<(Field, u32)>, k: int)
    requires
        0 <= k < fields.len(),
        all_in(fields, fields[k].0.layout().register),
        no_repeats(fields),
    ensures
        fields[k].0.extract(changed(register, fields)) == fields[k].1 & fields[k].0.max_value(),
        fields[k].1 <= fields[k].0.max_value() ==> fields[k].0.extract(changed(register, fields))
            == fields[k].1,
{
    let field = fields[k].0;
    lemma_assigned(fields, k);
    law_extract_of_place(field, fields[k].1);
    let (m, mask, bits) = (field.mask(), mask_of(fields), bits_of(fields));
    let placed = field.place(fields[k].1);
    let shifted = fields[k].1 << field.layout().offset;
    assert(((register & !mask) | bits) & m == placed & m) by (bit_vector)
        requires
            mask & m == m,
            bits & m == placed,
            placed == shifted & m,
    ;
}

/// A modification leaves every field alone that it does not assign.
pub proof fn law_modify_keeps_other_fields(register: u32, fields: Seq<(Field, u32)>, other: Field)
    requires
        all_in(fields, other.layout().register),
        forall|i: int| 0 <= i < fields.len() ==> (#[trigger] fields[i]).0 != other,
    ensures
        other.extract(changed(register, fields)) == other.extract(register),
{
    assert forall|i: int| 0 <= i < fields.len() implies (#[trigger] fields[i]).0.disjoint(other) by {
        law_fields_are_disjoint(fields[i].0, other);
    }
    lemma_untouched(fields, other);
    let (m, mask, bits) = (other.mask(), mask_of(fields), bits_of(fields));
    assert(((register & !mask) | bits) & m == register & m) by (bit_vector)
        requires
            mask & m == 0,
            bits & m == 0,
    ;
}

/// A modification leaves every bit alone that belongs to none of its fields.
pub proof fn law_modify_keeps_other_bits(register: u32, fields: Seq<(Field, u32)>)
    ensures
        changed(register, fields) & !mask_of(fields) == register & !mask_of(fields),
{
    lemma_bits_within_mask(fields);
    let (mask, bits) = (mask_of(fields), bits_of(fields));
    assert(((register & !mask) | bits) & !mask == register & !mask) by (bit_vector)
        requires
            bits & !mask == 0,
    ;
}

/// Placed values stay inside of the mask.
proof fn lemma_bits_within_mask(fields: Seq<(Field, u32)>)
    ensures
        bits_of(fields) & !mask_of(fields) == 0,
    decreases fields.len(),
{
    if fields.len() == 0 {
        assert(0u32 & !0u32 == 0) by (bit_vector);
    } else {
        lemma_bits_within_mask(fields.drop_last());
        let (mask, bits) = (mask_of(fields.drop_last()), bits_of(fields.drop_last()));
        let (n, placed) = (fields.last().0.mask(), fields.last().0.place(fields.last().1));
        let shifted = fields.last().1 << fields.last().0.layout().offset;
        assert((bits | placed) & !(mask | n) == 0) by (bit_vector)
            requires
                bits & !mask == 0,
                placed == shifted & n,
        ;
    }
}

} // verus!
