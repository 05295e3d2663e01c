//! Descriptors: four words that software and the DMA controller hand back and forth.
//!
//! Only the read format (what software stores) and the write-back format (what the
//! controller stores) are considered, never the context format.

use vstd::prelude::*;

verus! {

/// Communicates buffer information with the DMA controller.
///
/// An element is one of the four [T|R]DES words.
pub type Descriptor = [u32; 4];

/// The DMA controller owns this descriptor.
///
/// The ownership isn't known until software updates the tail pointer. Nevertheless,
/// software stops looking at a descriptor once it sets this bit.
pub const DESC3_OWN: u32 = 1 << 31;

/// This is the first descriptor (FD) for a packet.
pub const DESC3_FIRST_DESCRIPTOR: u32 = 1 << 29;

/// This is the last descriptor (LD) for a packet.
pub const DESC3_LAST_DESCRIPTOR: u32 = 1 << 28;

/// Error summary bit: another error bit is set for this descriptor.
pub const DESC3_ERROR_SUMMARY: u32 = 1 << 15;

/// Compute and insert (CIC) the IP header checksum and the payload checksum in hardware.
pub const TDESC3_CIC_ALL_IP_CHECKSUMS: u32 = 0b11 << 16;

/// The bitmask for the TX frame length (FL).
pub const TDESC3_FRAME_LENGTH_MASK: u32 = 0x7fff;

/// The bitmask for the first TX buffer length (B1L).
pub const TDESC2_BUFFER_1_LENGTH_MASK: u32 = 0x3fff;

/// Buffer 1 is valid (B1V) for this RX descriptor.
pub const RDESC3_BUFFER_1_VALID: u32 = 1 << 24;

/// The bitmask for the receive length field.
pub const RDES3_PACKET_LENGTH_MASK: u32 = 0x7fff;

/// Our buffer size for Ethernet packets.
///
/// Large enough to receive a packet from a malicious IEEE 802.3 sender, including its
/// header. The size works out nicely for the alignment of a buffer.
pub const MAX_BUFFER_SIZE: usize = 1024 + 512;

/// Who owns a descriptor?
#[derive(Debug, Clone, Copy, PartialEq, Eq, Structural)]
pub enum Owner {
    /// Software owns the descriptor.
    Software,
    /// Hardware (the DMA controller) owns the descriptor.
    Hardware,
}

impl Owner {
    /// Returns true if the owner is software.
    pub fn is_software(self) -> (software: bool)
        ensures
            software == (self is Software),
    {
        matches!(self, Owner::Software)
    }
}

/// Who owns a descriptor whose last word is `status`.
pub open spec fn spec_owner(status: u32) -> Owner {
    if status & DESC3_OWN != 0 {
        Owner::Hardware
    } else {
        Owner::Software
    }
}

/// Returns the owner of a descriptor, given its last word.
#[verifier::when_used_as_spec(spec_owner)]
pub fn owner(status: u32) -> (owner: Owner)
    ensures
        owner == spec_owner(status),
{
    if status & DESC3_OWN != 0 {
        Owner::Hardware
    } else {
        Owner::Software
    }
}

/// The last word of a descriptor reports an error.
pub open spec fn spec_has_error(status: u32) -> bool {
    status & DESC3_ERROR_SUMMARY != 0
}

/// Indicates if a descriptor has any kind of error, given its last word.
#[verifier::when_used_as_spec(spec_has_error)]
pub fn has_error(status: u32) -> (error: bool)
    ensures
        error == spec_has_error(status),
{
    status & DESC3_ERROR_SUMMARY != 0
}

/// The number of bytes that the DMA controller reports in the last word of a descriptor.
pub open spec fn spec_packet_length(status: u32) -> usize {
    (RDES3_PACKET_LENGTH_MASK & status) as usize
}

/// Returns how many bytes the DMA controller received, given the last word of a descriptor.
#[verifier::when_used_as_spec(spec_packet_length)]
pub fn packet_length(status: u32) -> (length: usize)
    ensures
        length == spec_packet_length(status),
{
    (RDES3_PACKET_LENGTH_MASK & status) as usize
}

/// How much of a packet of `len` bytes is sent: no more than a buffer holds.
pub open spec fn spec_clamped(len: usize) -> usize {
    if len <= MAX_BUFFER_SIZE {
        len
    } else {
        MAX_BUFFER_SIZE
    }
}

/// Clamps the length of a packet to the size of a buffer.
#[verifier::when_used_as_spec(spec_clamped)]
pub fn clamped(len: usize) -> (clamped: usize)
    ensures
        clamped == spec_clamped(len),
{
    if len <= MAX_BUFFER_SIZE {
        len
    } else {
        MAX_BUFFER_SIZE
    }
}

/// The words that hand `buffer` to the controller, to receive into.
pub open spec fn receive_format(buffer: u32) -> Seq<u32> {
    seq![buffer, 0, 0, DESC3_OWN | RDESC3_BUFFER_1_VALID]
}

/// The words that hand `len` bytes of `buffer` to the controller, to send as one packet
/// with the checksums filled in.
pub open spec fn transmit_format(buffer: u32, len: u32) -> Seq<u32> {
    seq![
        buffer,
        0,
        TDESC2_BUFFER_1_LENGTH_MASK & len,
        DESC3_FIRST_DESCRIPTOR | DESC3_LAST_DESCRIPTOR | TDESC3_CIC_ALL_IP_CHECKSUMS | DESC3_OWN | (
        TDESC3_FRAME_LENGTH_MASK & len),
    ]
}

/// Returns the words that hand `buffer` to the controller, to receive into.
pub fn receive_words(buffer: u32) -> (words: Descriptor)
    ensures
        words@ == receive_format(buffer),
{
    [
        buffer,
        0,  // Reserved.
        0,  // Unused; only care about a single buffer.
        DESC3_OWN | RDESC3_BUFFER_1_VALID,
    ]
}

/// Returns the words that hand `len` bytes of `buffer` to the controller, to send.
pub fn transmit_words(buffer: u32, len: u32) -> (words: Descriptor)
    ensures
        words@ == transmit_format(buffer, len),
{
    [
        // Where's the buffer with data that we're sending?
        buffer,
        // Buffer 2, extended buffers are unused.
        0,
        // How big is that buffer?
        TDESC2_BUFFER_1_LENGTH_MASK & len,
        // This descriptor is the first and last descriptor associated
        // with this packet. We're not gathering buffers.
        DESC3_FIRST_DESCRIPTOR | DESC3_LAST_DESCRIPTOR |
        // Enable hardware checksumming for IP headers.
        TDESC3_CIC_ALL_IP_CHECKSUMS |
        // The DMA controller now owns the descriptor.
        DESC3_OWN |
        // Include the total packet length. There's only
        // one packet, so it's the length the user wrote.
        (TDESC3_FRAME_LENGTH_MASK & len),
    ]
}

/// The bits of a word, as numbers.
proof fn lemma_bits_are_numbers(status: u32, len: u32)
    by (bit_vector)
    ensures
        status & (1u32 << 31) != 0 <==> status >= 0x8000_0000,
        status & (1u32 << 15) != 0 <==> (status / 0x8000) % 2 == 1,
        0x7fffu32 & status == status % 0x8000,
        0x3fffu32 & len == len % 0x4000,
        (1u32 << 31) | (1u32 << 24) == 0x8100_0000,
        (1u32 << 29) | (1u32 << 28) | (0b11u32 << 16) | (1u32 << 31) | (0x7fffu32 & len)
            == 0xb003_0000 + len % 0x8000,
{
}

/// What the DMA controller says in the last word of a descriptor. It owns the descriptor
/// while bit 31 is set, which is the highest; bit 15 sums up the errors; and the number of
/// bytes that it received is what the fifteen bits below that say.
pub proof fn law_status_word_is_read_bit_by_bit(status: u32)
    ensures
        owner(status) is Hardware <==> status >= 0x8000_0000,
        owner(status) is Software <==> status < 0x8000_0000,
        has_error(status) <==> (status / 0x8000) % 2 == 1,
        packet_length(status) == status % 0x8000,
{
    lemma_bits_are_numbers(status, 0);
}

/// Whatever else it says, a word that the DMA controller wrote back with `length` bytes is
/// read as `length` bytes.
pub proof fn law_packet_length_is_the_length_written_back(length: u32, flags: u32, status: u32)
    requires
        length < 0x8000,
        status == flags * 0x8000 + length,
    ensures
        packet_length(status) == length,
{
    law_status_word_is_read_bit_by_bit(status);
}

/// A packet is sent whole if a buffer holds it. Of a larger one, a buffer is filled.
pub proof fn law_packets_are_clamped_to_a_buffer(len: usize)
    ensures
        clamped(len) <= len,
        clamped(len) <= 1536,
        clamped(len) == len || clamped(len) == 1536,
{
}

/// A descriptor to receive into names its buffer, and has exactly two bits set besides:
/// hardware owns it, and the buffer is valid.
pub proof fn law_receive_format_is_exact(buffer: u32)
    ensures
        receive_format(buffer).len() == 4,
        receive_format(buffer)[0] == buffer,
        receive_format(buffer)[1] == 0,
        receive_format(buffer)[2] == 0,
        receive_format(buffer)[3] == 0x8100_0000,
{
    lemma_bits_are_numbers(0, 0);
}

/// A descriptor to send names its buffer and no second one. Outside of the frame length, its
/// last word has exactly the bits that tell a whole, checksummed packet that hardware owns:
/// no other format and no other offload is asked for. Both lengths are that of the packet.
pub proof fn law_transmit_format_is_exact(buffer: u32, len: u32)
    ensures
        transmit_format(buffer, len).len() == 4,
        transmit_format(buffer, len)[0] == buffer,
        transmit_format(buffer, len)[1] == 0,
        transmit_format(buffer, len)[2] == len % 0x4000,
        transmit_format(buffer, len)[3] == 0xb003_0000 + len % 0x8000,
        transmit_format(buffer, len)[3] & !TDESC3_FRAME_LENGTH_MASK == 0xb003_0000,
        len <= 1536 ==> transmit_format(buffer, len)[2] == len,
        len <= 1536 ==> transmit_format(buffer, len)[3] == 0xb003_0000 + len,
{
    lemma_bits_are_numbers(0, len);
    let word = transmit_format(buffer, len)[3];
    assert(word & !0x7fffu32 == 0xb003_0000) by (bit_vector)
        requires
            word == 0xb003_0000 + len % 0x8000,
    ;
}

/// A descriptor of zeros belongs to software, and reports neither an error nor data.
pub proof fn law_zero_descriptor_belongs_to_software()
    ensures
        owner(0) is Software,
        !has_error(0),
        packet_length(0) == 0,
{
    assert(0u32 & (1u32 << 31) == 0) by (bit_vector);
    assert(0u32 & (1u32 << 15) == 0) by (bit_vector);
    assert(0x7fffu32 & 0u32 == 0) by (bit_vector);
}

/// A descriptor that was handed over to receive belongs to hardware.
pub proof fn law_receive_format_belongs_to_hardware(buffer: u32)
    ensures
        owner(receive_format(buffer)[3]) is Hardware,
        receive_format(buffer)[0] == buffer,
{
    assert(((1u32 << 31) | (1u32 << 24)) & (1u32 << 31) != 0) by (bit_vector);
}

/// A descriptor that was handed over to send belongs to hardware, is a whole packet by
/// itself, and has its checksums computed by hardware.
pub proof fn law_transmit_format_is_one_checksummed_packet(buffer: u32, len: u32)
    ensures
        owner(transmit_format(buffer, len)[3]) is Hardware,
        transmit_format(buffer, len)[0] == buffer,
        transmit_format(buffer, len)[3] & DESC3_FIRST_DESCRIPTOR != 0,
        transmit_format(buffer, len)[3] & DESC3_LAST_DESCRIPTOR != 0,
        transmit_format(buffer, len)[3] & TDESC3_CIC_ALL_IP_CHECKSUMS
            == TDESC3_CIC_ALL_IP_CHECKSUMS,
        !has_error(transmit_format(buffer, len)[3]),
{
    let word = transmit_format(buffer, len)[3];
    assert(word & (1u32 << 31) != 0 && word & (1u32 << 29) != 0 && word & (1u32 << 28) != 0 && word
        & (0b11u32 << 16) == 0b11u32 << 16 && word & (1u32 << 15) == 0) by (bit_vector)
        requires
            word == (1u32 << 29) | (1u32 << 28) | (0b11u32 << 16) | (1u32 << 31) | (0x7fffu32 & len),
    ;
}

/// Any length that fits a buffer fits both length fields of a descriptor to send: the
/// fields hold the length itself.
pub proof fn law_transmit_length_fits(buffer: u32, len: u32)
    requires
        len <= MAX_BUFFER_SIZE,
    ensures
        transmit_format(buffer, len)[2] == len,
        transmit_format(buffer, len)[3] & TDESC3_FRAME_LENGTH_MASK == len,
{
    let word = transmit_format(buffer, len)[3];
    assert(0x3fffu32 & len == len && word & 0x7fffu32 == len) by (bit_vector)
        requires
            len <= 1536,
            word == (1u32 << 29) | (1u32 << 28) | (0b11u32 << 16) | (1u32 << 31) | (0x7fffu32 & len),
    ;
}

} // verus!
