//! Rings of descriptors and buffers.
//!
//! A [`Ring`] is the memory. A [`RingRef`] keeps track of it: where it starts on the bus,
//! how many descriptors it has, and which of them comes next.

use crate::action::Action;
use crate::descriptor::{self, receive_words, transmit_words, Descriptor, MAX_BUFFER_SIZE};
use crate::register::Register;
use vstd::prelude::*;

verus! {

/// An allocation for receiving and transmitting data.
///
/// The allocation is 8 byte aligned. Alignment is required to prevent the hardware from
/// writing dummy data into our memory.
#[derive(Clone, Copy)]
pub struct Buffer<const N: usize> {
    /// Takes no space; aligns the buffer to 8 bytes.
    pub align: [u64; 0],
    /// The data.
    pub bytes: [u8; N],
}

impl<const N: usize> Buffer<N> {
    /// Every byte is zero.
    pub open spec fn is_zero(self) -> bool {
        forall|i: int| 0 <= i < N ==> self.bytes@[i] == 0
    }

    /// Allocate a buffer filled with zeros.
    pub fn new() -> (buffer: Self)
        ensures
            buffer.is_zero(),
    {
        Buffer { align: [0; 0], bytes: [0; N] }
    }
}

/// An aligned storage for descriptors.
///
/// Alignment due to the same requirements documented on [`Buffer`].
#[derive(Clone, Copy)]
pub struct DescriptorList<const N: usize> {
    /// Takes no space; aligns the list to 8 bytes.
    pub align: [u64; 0],
    /// The descriptors, one after the other.
    pub list: [Descriptor; N],
}

impl<const N: usize> DescriptorList<N> {
    /// Every word of every descriptor is zero.
    pub open spec fn is_zero(self) -> bool {
        forall|i: int, w: int|
            0 <= i < N && 0 <= w < 4 ==> #[trigger] self.list@[i]@[w] == 0
    }
}

/// Produce a list of descriptors that are all zero.
pub fn zero_descriptor_list<const N: usize>() -> (descriptors: DescriptorList<N>)
    ensures
        descriptors.is_zero(),
{
    DescriptorList { align: [0; 0], list: [[0; 4]; N] }
}

/// A ring for interacting with the DMA controller.
///
/// `N` describes the number of descriptors in the ring. You need at least 4.
///
/// Each descriptor is paired with a buffer for sending data. Each buffer is
/// [`MAX_BUFFER_SIZE`].
pub struct Ring<const N: usize> {
    /// Descriptors for coordinating transfers.
    pub descriptors: DescriptorList<N>,
    /// Buffers assigned to those descriptors.
    pub buffers: [Buffer<MAX_BUFFER_SIZE>; N],
}

impl<const N: usize> Ring<N> {
    /// Every descriptor and every buffer is zero.
    pub open spec fn is_zero(self) -> bool {
        &&& self.descriptors.is_zero()
        &&& forall|i: int| 0 <= i < N ==> (#[trigger] self.buffers@[i]).is_zero()
    }

    /// Allocate the ring.
    #[must_use]
    pub fn new() -> (ring: Self)
        requires
            N >= 4,
        ensures
            ring.is_zero(),
    {
        Ring { descriptors: zero_descriptor_list::<N>(), buffers: [Buffer::new(); N] }
    }

    /// Convert the ring into its references.
    ///
    /// The caller says where the two halves of the ring start on the bus.
    pub fn take_ring_ref(&self, placement: Placement) -> (ring: RingRef)
        requires
            N >= 4,
            placement.is_valid(N as int),
        ensures
            ring.wf(),
            ring == (RingRef { placement, len: N, index: 0 }),
    {
        RingRef { placement, len: N, index: 0 }
    }
}

impl<const N: usize> Default for Ring<N> {
    fn default() -> (ring: Self)
        ensures
            ring.is_zero(),
    {
        Ring { descriptors: zero_descriptor_list::<N>(), buffers: [Buffer::new(); N] }
    }
}

/// The bytes that a descriptor takes in memory.
pub const DESCRIPTOR_SIZE: u32 = 16;

/// The bytes that a buffer takes in memory.
pub const BUFFER_SIZE: u32 = 1024 + 512;

/// The bytes that a word takes in memory.
pub const WORD_SIZE: u32 = 4;

/// The number of addresses on the bus.
pub const BUS_SIZE: u64 = 0x1_0000_0000;

/// Two ranges of memory, each with its start and its size, have no byte in common.
pub open spec fn ranges_apart(a: int, a_size: int, b: int, b_size: int) -> bool {
    a + a_size <= b || b + b_size <= a
}

/// Returns the bytes that `len` items of the given size take.
fn bytes_of(size: u32, len: usize) -> (bytes: u64)
    requires
        size <= BUFFER_SIZE,
        len <= BUS_SIZE,
    ensures
        bytes == size * len,
{
    assert(0 <= size * len <= BUFFER_SIZE * BUS_SIZE) by (nonlinear_arith)
        requires
            size <= BUFFER_SIZE,
            len <= BUS_SIZE,
    ;
    size as u64 * len as u64
}

/// Tells if two ranges of memory, each with its start and its size, have no byte in common.
fn check_apart(a: u32, a_size: u64, b: u32, b_size: u64) -> (apart: bool)
    requires
        a_size <= BUS_SIZE,
        b_size <= BUS_SIZE,
    ensures
        apart == ranges_apart(a as int, a_size as int, b as int, b_size as int),
{
    a as u64 + a_size <= b as u64 || b as u64 + b_size <= a as u64
}

/// Where the two halves of a ring start on the bus.
#[derive(Debug, Clone, Copy, PartialEq, Eq, Structural)]
pub struct Placement {
    /// Where the list of descriptors starts.
    ///
    /// It's important that the list is allocated contiguously, because that's how the
    /// hardware treats it.
    pub descriptors: u32,
    /// Where the first buffer starts. There is a buffer for each descriptor.
    pub buffers: u32,
}

impl Placement {
    /// A ring of `len` descriptors, and as many buffers, ends before the bus does.
    pub open spec fn fits_bus(self, len: int) -> bool {
        &&& self.descriptors + DESCRIPTOR_SIZE * len <= BUS_SIZE
        &&& self.buffers + BUFFER_SIZE * len <= BUS_SIZE
    }

    /// Both halves start at a multiple of 8, the width of the bus in bytes.
    ///
    /// From any other address, the hardware would write dummy data into our memory.
    pub open spec fn is_aligned(self) -> bool {
        &&& self.descriptors % 8 == 0
        &&& self.buffers % 8 == 0
    }

    /// The list of `len` descriptors and the buffers share no memory.
    pub open spec fn is_apart(self, len: int) -> bool {
        ranges_apart(
            self.descriptors as int,
            DESCRIPTOR_SIZE * len,
            self.buffers as int,
            BUFFER_SIZE * len,
        )
    }

    /// A ring of `len` descriptors can lie here.
    pub open spec fn is_valid(self, len: int) -> bool {
        self.fits_bus(len) && self.is_aligned() && self.is_apart(len)
    }

    /// A ring of `len` descriptors here and a ring of `other_len` descriptors there share no
    /// memory.
    pub open spec fn is_apart_from(self, len: int, other: Placement, other_len: int) -> bool {
        let (list, buffers) = (DESCRIPTOR_SIZE * len, BUFFER_SIZE * len);
        let (other_list, other_buffers) = (DESCRIPTOR_SIZE * other_len, BUFFER_SIZE * other_len);
        &&& ranges_apart(
            self.descriptors as int,
            list,
            other.descriptors as int,
            other_list,
        )
        &&& ranges_apart(self.descriptors as int, list, other.buffers as int, other_buffers)
        &&& ranges_apart(self.buffers as int, buffers, other.descriptors as int, other_list)
        &&& ranges_apart(self.buffers as int, buffers, other.buffers as int, other_buffers)
    }

    /// Tells if a ring of `len` descriptors can lie here.
    pub fn accepts(&self, len: usize) -> (valid: bool)
        ensures
            valid == self.is_valid(len as int),
    {
        if len as u64 > BUS_SIZE {
            return false;
        }
        let list: u64 = bytes_of(DESCRIPTOR_SIZE, len);
        let buffers: u64 = bytes_of(BUFFER_SIZE, len);
        self.descriptors as u64 + list <= BUS_SIZE && self.buffers as u64 + buffers <= BUS_SIZE
            && self.descriptors % 8 == 0 && self.buffers % 8 == 0 && check_apart(
            self.descriptors,
            list,
            self.buffers,
            buffers,
        )
    }

    /// Tells if a ring of `len` descriptors here and a ring of `other_len` descriptors there
    /// share no memory.
    pub fn clear_of(&self, len: usize, other: &Placement, other_len: usize) -> (clear: bool)
        requires
            self.is_valid(len as int),
            other.is_valid(other_len as int),
        ensures
            clear == self.is_apart_from(len as int, *other, other_len as int),
    {
        let list: u64 = bytes_of(DESCRIPTOR_SIZE, len);
        let buffers: u64 = bytes_of(BUFFER_SIZE, len);
        let other_list: u64 = bytes_of(DESCRIPTOR_SIZE, other_len);
        let other_buffers: u64 = bytes_of(BUFFER_SIZE, other_len);
        check_apart(self.descriptors, list, other.descriptors, other_list) && check_apart(
            self.descriptors,
            list,
            other.buffers,
            other_buffers,
        ) && check_apart(self.buffers, buffers, other.descriptors, other_list) && check_apart(
            self.buffers,
            buffers,
            other.buffers,
            other_buffers,
        )
    }
}

/// Internal abstraction for managing descriptors and buffers.
///
/// Used for both the RX and TX pathways. The interpretation depends on the operation.
#[derive(Debug, PartialEq, Eq, Structural)]
pub struct RingRef {
    /// Where the ring lies.
    pub placement: Placement,
    /// The number of descriptors.
    pub len: usize,
    /// Points to the current descriptor / buffer.
    pub index: usize,
}

/// The stores that put `words` into the descriptor at `address`, with a fence behind them.
pub open spec fn post(address: u32, words: Seq<u32>) -> Seq<Action> {
    seq![
        Action::Store { address: word_address(address, 0), value: words[0] },
        Action::Store { address: word_address(address, 1), value: words[1] },
        Action::Store { address: word_address(address, 2), value: words[2] },
        Action::Store { address: word_address(address, 3), value: words[3] },
        Action::Fence,
    ]
}

/// Where the given word of a descriptor lies.
pub open spec fn word_address(descriptor: u32, word: int) -> u32 {
    (descriptor + WORD_SIZE * word) as u32
}

impl RingRef {
    /// There are enough descriptors, all of them on the bus, aligned, and apart from the
    /// buffers, and the current one exists.
    pub open spec fn wf(self) -> bool {
        &&& 4 <= self.len
        &&& self.index < self.len
        &&& self.placement.is_valid(self.len as int)
    }

    /// The two rings share no memory.
    pub open spec fn is_apart_from(self, other: RingRef) -> bool {
        self.placement.is_apart_from(self.len as int, other.placement, other.len as int)
    }

    /// The byte at `x` belongs to the list of descriptors.
    pub open spec fn in_list(self, x: int) -> bool {
        self.placement.descriptors <= x < self.placement.descriptors + DESCRIPTOR_SIZE * self.len
    }

    /// The byte at `x` belongs to a buffer.
    pub open spec fn in_buffers(self, x: int) -> bool {
        self.placement.buffers <= x < self.placement.buffers + BUFFER_SIZE * self.len
    }

    /// Where descriptor `i` lies.
    pub open spec fn descriptor_address(self, i: int) -> u32 {
        (self.placement.descriptors + DESCRIPTOR_SIZE * i) as u32
    }

    /// Where buffer `i` lies.
    pub open spec fn buffer_address(self, i: int) -> u32 {
        (self.placement.buffers + BUFFER_SIZE * i) as u32
    }

    /// This ring, pointing to the next descriptor.
    pub open spec fn advanced(self) -> RingRef {
        RingRef { index: ((self.index + 1) % (self.len as int)) as usize, ..self }
    }

    /// Where the last word of the current descriptor lies.
    pub open spec fn spec_status_address(self) -> u32 {
        word_address(self.descriptor_address(self.index as int), 3)
    }

    /// The actions that hand the current descriptor, with its buffer, to the receive side.
    pub open spec fn submit_actions(self) -> Seq<Action> {
        let descriptor = self.descriptor_address(self.index as int);
        let buffer = self.buffer_address(self.index as int);
        post(descriptor, descriptor::receive_format(buffer)).push(
            Action::Write { register: Register::DmaCh0RxdescTailPointer, value: descriptor },
        )
    }

    /// The actions that hand `len` bytes of the current buffer to the transmit side.
    pub open spec fn transmit_actions(self, len: u32) -> Seq<Action> {
        let descriptor = self.descriptor_address(self.index as int);
        let buffer = self.buffer_address(self.index as int);
        let next = self.advanced().descriptor_address(self.advanced().index as int);
        post(descriptor, descriptor::transmit_format(buffer, len)).push(
            Action::Write { register: Register::DmaCh0TxdescTailPointer, value: next },
        )
    }

    /// Return the address to the list's starting descriptor.
    pub fn start_address(&self) -> (address: u32)
        requires
            self.wf(),
        ensures
            address == self.placement.descriptors,
            address == self.descriptor_address(0),
            address % 8 == 0,
            forall|j: int|
                0 <= j < self.len ==> #[trigger] self.descriptor_address(j) == address
                    + DESCRIPTOR_SIZE * j,
    {
        self.placement.descriptors
    }

    /// Computes the descriptor length for the hardware.
    ///
    /// This is off-by-one. See the documentation for the transmit and receive rings.
    pub fn descriptor_ring_len(&self) -> (len: u32)
        requires
            self.wf(),
        ensures
            len == self.len - 1,
    {
        (self.len - 1) as u32
    }

    /// Advance the software index to the ring's next descriptor.
    ///
    /// Hardware maintains its own index. We tell it how far it can go by updating tail
    /// pointers.
    pub fn advance_index(&mut self)
        requires
            old(self).wf(),
        ensures
            final(self).wf(),
            *final(self) == old(self).advanced(),
    {
        self.index = (self.index + 1) % self.len;
    }

    /// Return the address of the descriptor pointed at by the ring.
    pub fn current_descriptor(&self) -> (address: u32)
        requires
            self.wf(),
        ensures
            address == self.descriptor_address(self.index as int),
            address == self.placement.descriptors + DESCRIPTOR_SIZE * self.index,
            address + DESCRIPTOR_SIZE <= BUS_SIZE,
            address % 8 == 0,
    {
        self.placement.descriptors + DESCRIPTOR_SIZE * self.index as u32
    }

    /// Return the address of the buffer pointed at by the ring.
    pub fn current_buffer(&self) -> (address: u32)
        requires
            self.wf(),
        ensures
            address == self.buffer_address(self.index as int),
            address == self.placement.buffers + BUFFER_SIZE * self.index,
            address + BUFFER_SIZE <= BUS_SIZE,
            address % 8 == 0,
    {
        self.placement.buffers + BUFFER_SIZE * self.index as u32
    }

    /// Return the address of the word that tells who owns the current descriptor, and what
    /// became of it.
    pub fn status_address(&self) -> (address: u32)
        requires
            self.wf(),
        ensures
            address == self.spec_status_address(),
    {
        self.current_descriptor() + 3 * WORD_SIZE
    }

    /// Prepare a receive operation using the ring's current descriptor.
    pub fn submit_ring_head(&mut self) -> (actions: [Action; 6])
        requires
            old(self).wf(),
        ensures
            final(self).wf(),
            *final(self) == old(self).advanced(),
            actions@ == old(self).submit_actions(),
    {
        let rdes = self.current_descriptor();
        let words = receive_words(self.current_buffer());
        self.advance_index();
        [
            Action::Store { address: rdes, value: words[0] },
            Action::Store { address: rdes + WORD_SIZE, value: words[1] },
            Action::Store { address: rdes + 2 * WORD_SIZE, value: words[2] },
            Action::Store { address: rdes + 3 * WORD_SIZE, value: words[3] },
            // Force all descriptor writes to memory.
            Action::Fence,
            // Update the tail pointer to point at the newly-added descriptor.
            Action::Write { register: Register::DmaCh0RxdescTailPointer, value: rdes },
        ]
    }

    /// Send `len` bytes of the current buffer.
    pub fn transmit_ring_head(&mut self, len: u32) -> (actions: [Action; 6])
        requires
            old(self).wf(),
        ensures
            final(self).wf(),
            *final(self) == old(self).advanced(),
            actions@ == old(self).transmit_actions(len),
    {
        let tdes = self.current_descriptor();
        let words = transmit_words(self.current_buffer(), len);
        // Move along to the next descriptor, so we can schedule another transmit
        // operation. We also need to finish the DMA controller update by advancing the
        // tail pointer.
        self.advance_index();
        // This points at the *next* descriptor, since we just advanced the index.
        let next = self.current_descriptor();
        [
            Action::Store { address: tdes, value: words[0] },
            Action::Store { address: tdes + WORD_SIZE, value: words[1] },
            Action::Store { address: tdes + 2 * WORD_SIZE, value: words[2] },
            Action::Store { address: tdes + 3 * WORD_SIZE, value: words[3] },
            // Force all descriptor writes to memory.
            Action::Fence,
            Action::Write { register: Register::DmaCh0TxdescTailPointer, value: next },
        ]
    }
}

} // verus!
