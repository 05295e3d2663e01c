//! Rings, their memory, and their descriptors.

use imxrt_enet_qos::descriptor::{
    clamped, has_error, owner, packet_length, receive_words, transmit_words, Owner,
};
use imxrt_enet_qos::ring::{Buffer, DescriptorList};
use imxrt_enet_qos::{Action, Placement, Register, Ring, RingRef, MAX_BUFFER_SIZE};

const PLACEMENT: Placement = Placement {
    descriptors: 0x2020_0000,
    buffers: 0x2020_1000,
};

fn ring_of_four() -> RingRef {
    Ring::<4>::new().take_ring_ref(PLACEMENT)
}

#[test]
fn new_ring_is_zero() {
    let ring = Ring::<5>::new();
    assert!(ring.descriptors.list.iter().all(|words| *words == [0; 4]));
    assert_eq!(ring.descriptors.list.len(), 5);
    assert!(ring
        .buffers
        .iter()
        .all(|buffer| buffer.bytes.iter().all(|byte| *byte == 0)));
    assert_eq!(ring.buffers.len(), 5);
}

#[test]
fn default_ring_is_a_new_ring() {
    let ring = Ring::<4>::default();
    assert!(ring.descriptors.list.iter().all(|words| *words == [0; 4]));
    assert!(ring
        .buffers
        .iter()
        .all(|buffer| buffer.bytes.iter().all(|byte| *byte == 0)));
}

#[test]
fn memory_has_the_layout_that_hardware_expects() {
    assert_eq!(std::mem::align_of::<Buffer<MAX_BUFFER_SIZE>>(), 8);
    assert_eq!(std::mem::size_of::<Buffer<MAX_BUFFER_SIZE>>(), 1536);
    assert_eq!(std::mem::align_of::<DescriptorList<4>>(), 8);
    assert_eq!(std::mem::size_of::<DescriptorList<4>>(), 64);
    assert_eq!(std::mem::align_of::<Ring<4>>(), 8);
    let ring = Ring::<4>::new();
    assert_eq!(ring.descriptors.list.as_ptr() as usize % 8, 0);
    assert_eq!(ring.buffers[0].bytes.as_ptr() as usize % 8, 0);
    assert_eq!(
        ring.buffers[1].bytes.as_ptr() as usize - ring.buffers[0].bytes.as_ptr() as usize,
        1536
    );
    assert_eq!(
        ring.descriptors.list[1].as_ptr() as usize - ring.descriptors.list[0].as_ptr() as usize,
        16
    );
    assert_eq!(imxrt_enet_qos::ring::BUFFER_SIZE as usize, MAX_BUFFER_SIZE);
}

#[test]
fn ring_ref_starts_at_the_first_descriptor() {
    let ring = ring_of_four();
    assert_eq!(ring.index, 0);
    assert_eq!(ring.len, 4);
    assert_eq!(ring.start_address(), 0x2020_0000);
    // Off by one, as the hardware wants it.
    assert_eq!(ring.descriptor_ring_len(), 3);
    assert_eq!(ring.current_descriptor(), 0x2020_0000);
    assert_eq!(ring.current_buffer(), 0x2020_1000);
    assert_eq!(ring.status_address(), 0x2020_000c);
}

#[test]
fn start_address_stays_while_the_index_goes_around() {
    let mut ring = ring_of_four();
    for k in 0..9 {
        assert_eq!(ring.start_address(), 0x2020_0000);
        assert_eq!(ring.index, k % 4);
        assert_eq!(
            ring.current_descriptor(),
            ring.start_address() + 16 * (k as u32 % 4)
        );
        ring.advance_index();
    }
}

#[test]
fn all_addresses_are_multiples_of_eight() {
    let mut ring = Ring::<5>::new().take_ring_ref(Placement {
        descriptors: 0x2020_0008,
        buffers: 0x2020_1018,
    });
    assert_eq!(ring.start_address() % 8, 0);
    for _ in 0..5 {
        assert_eq!(ring.current_descriptor() % 8, 0);
        assert_eq!(ring.current_buffer() % 8, 0);
        ring.advance_index();
    }
}

#[test]
fn index_goes_around() {
    let mut ring = ring_of_four();
    let mut seen = vec![];
    for _ in 0..9 {
        seen.push(ring.index);
        ring.advance_index();
    }
    assert_eq!(seen, [0, 1, 2, 3, 0, 1, 2, 3, 0]);
}

#[test]
fn addresses_follow_the_index() {
    let mut ring = ring_of_four();
    ring.advance_index();
    ring.advance_index();
    ring.advance_index();
    assert_eq!(ring.current_descriptor(), 0x2020_0030);
    assert_eq!(ring.current_buffer(), 0x2020_2200);
    assert_eq!(ring.status_address(), 0x2020_003c);
}

#[test]
fn ring_may_end_where_the_bus_ends() {
    let list_last = Placement {
        descriptors: 0xffff_ffc0,
        buffers: 0xffff_e7c0,
    };
    assert!(list_last.accepts(4));
    let mut ring = Ring::<4>::new().take_ring_ref(list_last);
    for _ in 0..3 {
        ring.advance_index();
    }
    assert_eq!(ring.current_descriptor(), 0xffff_fff0);
    assert_eq!(ring.current_buffer(), 0xffff_f9c0);
    assert_eq!(ring.status_address(), 0xffff_fffc);

    let buffers_last = Placement {
        descriptors: 0xffff_e7c0,
        buffers: 0xffff_e800,
    };
    assert!(buffers_last.accepts(4));
    let mut ring = Ring::<4>::new().take_ring_ref(buffers_last);
    for _ in 0..3 {
        ring.advance_index();
    }
    assert_eq!(ring.current_descriptor(), 0xffff_e7f0);
    assert_eq!(ring.current_buffer(), 0xffff_fa00);
}

#[test]
fn placements_that_cannot_be_used() {
    let good = Placement {
        descriptors: 0x2020_0000,
        buffers: 0x2020_0040,
    };
    assert!(good.accepts(4));
    // One more descriptor would lie in the first buffer.
    assert!(!good.accepts(5));
    assert!(!good.accepts(usize::MAX));
    let inside = Placement {
        descriptors: 0x2020_0100,
        buffers: 0x2020_0000,
    };
    assert!(!inside.accepts(4));
    let behind = Placement {
        descriptors: 0x2020_1800,
        buffers: 0x2020_0000,
    };
    assert!(behind.accepts(4));
    assert!(!Placement { descriptors: 0x2020_0004, ..good }.accepts(4));
    assert!(!Placement { buffers: 0x2020_0044, ..good }.accepts(4));
    // These run past the end of the bus.
    assert!(!Placement { descriptors: 0xffff_ffc8, ..good }.accepts(4));
    assert!(!Placement { buffers: 0xffff_e808, ..good }.accepts(4));
}

#[test]
fn rings_that_share_memory() {
    let tx = Placement {
        descriptors: 0x2020_0000,
        buffers: 0x2020_1000,
    };
    let rx = Placement {
        descriptors: 0x2020_0040,
        buffers: 0x2020_2800,
    };
    assert!(tx.clear_of(4, &rx, 6));
    assert!(rx.clear_of(6, &tx, 4));
    // A ring is not apart from itself, nor from one whose list, or whose buffers, reach
    // into it.
    assert!(!tx.clear_of(4, &tx, 4));
    assert!(!tx.clear_of(5, &rx, 6));
    assert!(!tx.clear_of(4, &Placement { descriptors: 0x2020_27f8, ..rx }, 4));
    assert!(!tx.clear_of(4, &Placement { buffers: 0x2020_27f8, ..rx }, 6));
    assert!(!tx.clear_of(4, &Placement { buffers: 0x201f_ea08, ..rx }, 4));
}

#[test]
fn submit_stores_the_descriptor_then_moves_the_tail() {
    let mut ring = ring_of_four();
    ring.advance_index();
    let actions = ring.submit_ring_head();
    assert_eq!(
        actions,
        [
            Action::Store {
                address: 0x2020_0010,
                value: 0x2020_1600,
            },
            Action::Store {
                address: 0x2020_0014,
                value: 0,
            },
            Action::Store {
                address: 0x2020_0018,
                value: 0,
            },
            Action::Store {
                address: 0x2020_001c,
                value: 0x8100_0000,
            },
            Action::Fence,
            Action::Write {
                register: Register::DmaCh0RxdescTailPointer,
                value: 0x2020_0010,
            },
        ]
    );
    assert_eq!(ring.index, 2);
}

#[test]
fn transmit_stores_the_descriptor_then_moves_the_tail_past_it() {
    let mut ring = ring_of_four();
    for _ in 0..3 {
        ring.advance_index();
    }
    let actions = ring.transmit_ring_head(60);
    assert_eq!(
        actions,
        [
            Action::Store {
                address: 0x2020_0030,
                value: 0x2020_2200,
            },
            Action::Store {
                address: 0x2020_0034,
                value: 0,
            },
            Action::Store {
                address: 0x2020_0038,
                value: 60,
            },
            Action::Store {
                address: 0x2020_003c,
                value: 0xb003_003c,
            },
            Action::Fence,
            // The next descriptor is the first one again.
            Action::Write {
                register: Register::DmaCh0TxdescTailPointer,
                value: 0x2020_0000,
            },
        ]
    );
    assert_eq!(ring.index, 0);
}

#[test]
fn owner_is_the_top_bit() {
    assert_eq!(owner(0), Owner::Software);
    assert_eq!(owner(0x7fff_ffff), Owner::Software);
    assert_eq!(owner(0x8000_0000), Owner::Hardware);
    assert!(Owner::Software.is_software());
    assert!(!Owner::Hardware.is_software());
}

#[test]
fn error_is_the_summary_bit() {
    assert!(!has_error(0));
    assert!(!has_error(0xffff_7fff));
    assert!(has_error(0x0000_8000));
}

#[test]
fn packet_length_is_fifteen_bits() {
    assert_eq!(packet_length(0), 0);
    assert_eq!(packet_length(0x3000_05ea), 1514);
    assert_eq!(packet_length(0xffff_ffff), 0x7fff);
}

#[test]
fn lengths_are_clamped_to_the_buffer() {
    assert_eq!(clamped(0), 0);
    assert_eq!(clamped(1536), 1536);
    assert_eq!(clamped(1537), 1536);
    assert_eq!(clamped(usize::MAX), 1536);
}

#[test]
fn descriptor_words() {
    assert_eq!(receive_words(0x1000), [0x1000, 0, 0, 0x8100_0000]);
    assert_eq!(transmit_words(0x1000, 0), [0x1000, 0, 0, 0xb003_0000]);
    assert_eq!(
        transmit_words(0x1000, 1536),
        [0x1000, 0, 1536, 0xb003_0600]
    );
    assert_eq!(owner(receive_words(0x1000)[3]), Owner::Hardware);
    assert_eq!(owner(transmit_words(0x1000, 64)[3]), Owner::Hardware);
}
