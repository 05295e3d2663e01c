//! A driver that is up: packets, the MAC, and the MDIO bus.

use imxrt_enet_qos::driver::mdio_data;
use imxrt_enet_qos::{
    Access, Action, EnetQos, Field, LoadOrder, Placement, ReceiveNext, ReceiveQuestion, Register,
    Ring, RxAnswer, RxQuestion, Sequencer, MAX_BUFFER_SIZE,
};
use std::collections::HashMap;

const SOFTWARE: u32 = 0x3000_0040;
const HARDWARE: u32 = 0x8100_0000;
const ERROR: u32 = 0x3000_8040;

fn driver() -> EnetQos {
    let tx = Placement {
        descriptors: 0x2020_0000,
        buffers: 0x2020_1000,
    };
    let rx = Placement {
        descriptors: 0x2030_0000,
        buffers: 0x2030_1000,
    };
    EnetQos {
        tx_ring: Ring::<4>::new().take_ring_ref(tx),
        rx_ring: Ring::<6>::new().take_ring_ref(rx),
    }
}

fn stores(actions: &[Action], memory: &mut HashMap<u32, u32>) {
    for action in actions {
        if let Action::Store { address, value } = *action {
            memory.insert(address, value);
        }
    }
}

fn apply(register: u32, action: Action) -> u32 {
    let actions = [action];
    let mut sequencer = Sequencer::new(&actions);
    assert!(matches!(sequencer.step(0), Some(Access::Read { .. })));
    match sequencer.step(register) {
        Some(Access::Write { value, .. }) => value,
        other => panic!("unexpected {:?}", other),
    }
}

#[test]
fn transmit_needs_a_descriptor_of_software() {
    let mut driver = driver();
    assert!(driver.transmit(0).is_some());
    assert!(driver.transmit(SOFTWARE).is_some());
    assert!(driver.transmit(HARDWARE).is_none());
    assert!(driver.tx_token(HARDWARE).is_none());
    assert!(driver.rx_token(SOFTWARE).is_some());
    assert!(driver.rx_token(HARDWARE).is_none());
}

#[test]
fn receive_needs_both_descriptors() {
    let mut driver = driver();
    assert!(driver.receive(SOFTWARE, SOFTWARE).is_some());
    assert!(driver.receive(SOFTWARE, HARDWARE).is_none());
    assert!(driver.receive(HARDWARE, SOFTWARE).is_none());
    assert!(driver.receive(HARDWARE, HARDWARE).is_none());
    assert_eq!(driver.rx_ring.index, 0);
    assert_eq!(driver.tx_ring.index, 0);
}

#[test]
fn sending_a_packet() {
    let mut driver = driver();
    let mut buffer = [0xeeu8; MAX_BUFFER_SIZE];
    let token = driver.transmit(0).unwrap();
    let (result, actions) = token.consume(&mut buffer, 3, |packet: &mut [u8]| {
        assert_eq!(packet.len(), 3);
        packet.copy_from_slice(&[1, 2, 3]);
        "sent"
    });
    assert_eq!(result, "sent");
    assert_eq!(buffer[..4], [1, 2, 3, 0xee]);
    assert_eq!(
        actions,
        [
            Action::Store {
                address: 0x2020_0000,
                value: 0x2020_1000,
            },
            Action::Store {
                address: 0x2020_0004,
                value: 0,
            },
            Action::Store {
                address: 0x2020_0008,
                value: 3,
            },
            Action::Store {
                address: 0x2020_000c,
                value: 0xb003_0003,
            },
            Action::Fence,
            Action::Write {
                register: Register::DmaCh0TxdescTailPointer,
                value: 0x2020_0010,
            },
        ]
    );
    assert_eq!(driver.tx_ring.index, 1);
    assert_eq!(driver.rx_ring.index, 0);
}

#[test]
fn sending_too_much_is_clamped() {
    let mut driver = driver();
    let mut buffer = [0u8; MAX_BUFFER_SIZE];
    let token = driver.transmit(0).unwrap();
    let (length, actions) = token.consume(&mut buffer, 9000, |packet: &mut [u8]| {
        packet.fill(7);
        packet.len()
    });
    assert_eq!(length, 1536);
    assert!(buffer.iter().all(|byte| *byte == 7));
    assert_eq!(
        actions[2],
        Action::Store {
            address: 0x2020_0008,
            value: 1536,
        }
    );
    assert_eq!(
        actions[3],
        Action::Store {
            address: 0x2020_000c,
            value: 0xb003_0600,
        }
    );
}

#[test]
fn receiving_a_packet() {
    let mut driver = driver();
    let mut buffer = [0u8; MAX_BUFFER_SIZE];
    buffer[..4].copy_from_slice(&[9, 8, 7, 6]);
    let status = 0x3000_0003;
    let (rx, _tx) = driver.receive(status, 0).unwrap();
    let (sum, actions) = rx.consume(status, &buffer, |packet: &[u8]| {
        assert_eq!(packet, [9, 8, 7]);
        packet.iter().map(|byte| u32::from(*byte)).sum::<u32>()
    });
    assert_eq!(sum, 24);
    // The descriptor goes back to the hardware.
    assert_eq!(
        actions,
        [
            Action::Store {
                address: 0x2030_0000,
                value: 0x2030_1000,
            },
            Action::Store {
                address: 0x2030_0004,
                value: 0,
            },
            Action::Store {
                address: 0x2030_0008,
                value: 0,
            },
            Action::Store {
                address: 0x2030_000c,
                value: 0x8100_0000,
            },
            Action::Fence,
            Action::Write {
                register: Register::DmaCh0RxdescTailPointer,
                value: 0x2030_0000,
            },
        ]
    );
    assert_eq!(driver.rx_ring.index, 1);
    assert_eq!(driver.tx_ring.index, 0);
}

#[test]
fn receiving_a_full_and_an_empty_buffer() {
    let mut driver = driver();
    let buffer = [5u8; MAX_BUFFER_SIZE];
    let token = driver.rx_token(1536).unwrap();
    let (length, _) = token.consume(1536, &buffer, |packet: &[u8]| packet.len());
    assert_eq!(length, 1536);
    let token = driver.rx_token(0).unwrap();
    let (length, _) = token.consume(0, &buffer, |packet: &[u8]| packet.len());
    assert_eq!(length, 0);
    assert_eq!(driver.rx_ring.index, 2);
}

#[test]
fn both_tokens_move_their_own_ring() {
    let mut driver = driver();
    let received = [5u8; MAX_BUFFER_SIZE];
    let mut sent = [0u8; MAX_BUFFER_SIZE];
    let (rx, tx) = driver.receive(SOFTWARE, 0).unwrap();
    let (copy, _) = rx.consume(SOFTWARE, &received, |packet: &[u8]| packet.to_vec());
    tx.consume(&mut sent, copy.len(), |packet: &mut [u8]| {
        packet.copy_from_slice(&copy);
    });
    assert_eq!(sent[..64], received[..64]);
    assert_eq!(sent[64], 0);
    assert_eq!(driver.rx_ring.index, 1);
    assert_eq!(driver.tx_ring.index, 1);
}

#[test]
fn transmit_ring_fills_up() {
    let mut driver = driver();
    let mut memory: HashMap<u32, u32> = HashMap::new();
    let mut buffer = [0u8; MAX_BUFFER_SIZE];
    for sent in 0..4usize {
        let status = *memory.get(&driver.tx_ring.status_address()).unwrap_or(&0);
        let token = driver.transmit(status).unwrap();
        let (_, actions) = token.consume(&mut buffer, 60 + sent, |_packet: &mut [u8]| ());
        stores(&actions, &mut memory);
    }
    assert_eq!(driver.tx_ring.index, 0);
    let status = memory[&driver.tx_ring.status_address()];
    assert!(driver.transmit(status).is_none());
    // Each packet kept its descriptor.
    for sent in 0..4u32 {
        assert_eq!(memory[&(0x2020_0008 + 16 * sent)], 60 + sent);
    }
}

#[test]
fn ownership_is_loaded_with_acquire() {
    assert_eq!(RxQuestion::Owner.load_order(), LoadOrder::Acquire);
    assert_eq!(RxQuestion::Error.load_order(), LoadOrder::Relaxed);
}

#[test]
fn nothing_is_discarded_while_hardware_owns() {
    let mut driver = driver();
    assert!(matches!(
        driver.discard_errors(RxQuestion::Owner, HARDWARE),
        RxAnswer::Settled
    ));
    // The error bit of a descriptor that hardware owns means nothing.
    assert!(matches!(
        driver.discard_errors(RxQuestion::Owner, HARDWARE | 0x8000),
        RxAnswer::Settled
    ));
    assert_eq!(driver.rx_ring.index, 0);
}

#[test]
fn good_packets_are_kept() {
    let mut driver = driver();
    assert!(matches!(
        driver.discard_errors(RxQuestion::Owner, SOFTWARE),
        RxAnswer::Inspect(RxQuestion::Error)
    ));
    assert!(matches!(
        driver.discard_errors(RxQuestion::Error, SOFTWARE),
        RxAnswer::Settled
    ));
    assert_eq!(driver.rx_ring.index, 0);
}

#[test]
fn bad_packets_are_discarded() {
    let mut driver = driver();
    let mut memory: HashMap<u32, u32> = HashMap::new();
    for i in 0..6u32 {
        memory.insert(0x2030_000c + 16 * i, HARDWARE);
    }
    memory.insert(0x2030_000c, ERROR);
    memory.insert(0x2030_001c, ERROR);
    memory.insert(0x2030_002c, SOFTWARE);

    let mut question = RxQuestion::Owner;
    let mut discarded: u32 = 0;
    loop {
        let status = memory[&driver.rx_ring.status_address()];
        match driver.discard_errors(question, status) {
            RxAnswer::Inspect(next) => question = next,
            RxAnswer::Resubmit(actions, next) => {
                stores(&actions, &mut memory);
                assert_eq!(
                    actions[5],
                    Action::Write {
                        register: Register::DmaCh0RxdescTailPointer,
                        value: 0x2030_0000 + 16 * discarded,
                    }
                );
                discarded += 1;
                question = next;
            }
            RxAnswer::Settled => break,
        }
    }
    assert_eq!(discarded, 2);
    assert_eq!(driver.rx_ring.index, 2);
    assert_eq!(memory[&0x2030_000c], HARDWARE);
    assert_eq!(memory[&0x2030_001c], HARDWARE);
    let status = memory[&driver.rx_ring.status_address()];
    assert!(driver.receive(status, 0).is_some());
}

#[test]
fn discarding_goes_around_and_leaves_the_rest() {
    let mut driver = driver();
    for _ in 0..5 {
        driver.rx_ring.advance_index();
    }
    let mut memory: HashMap<u32, u32> = HashMap::new();
    for i in 0..6u32 {
        for word in 0..4 {
            memory.insert(0x2030_0000 + 16 * i + 4 * word, 0x100 * i + word);
        }
    }
    // Bad packets in the last descriptor and in the first, and good ones behind.
    memory.insert(0x2030_005c, ERROR);
    memory.insert(0x2030_000c, ERROR);
    memory.insert(0x2030_001c, SOFTWARE);
    let before = memory.clone();

    let mut question = RxQuestion::Owner;
    loop {
        let status = memory[&driver.rx_ring.status_address()];
        match driver.discard_errors(question, status) {
            RxAnswer::Inspect(next) => question = next,
            RxAnswer::Resubmit(actions, next) => {
                stores(&actions, &mut memory);
                question = next;
            }
            RxAnswer::Settled => break,
        }
    }
    assert_eq!(driver.rx_ring.index, (5 + 2) % 6);
    assert_eq!(memory[&driver.rx_ring.status_address()], SOFTWARE);
    assert_ne!(memory[&0x2030_000c] & HARDWARE, 0);
    assert_ne!(memory[&0x2030_005c] & HARDWARE, 0);
    for address in (0x2030_0010..0x2030_0050).step_by(4) {
        assert_eq!(memory[&address], before[&address]);
    }
    assert!(driver.rx_token(SOFTWARE).is_some());
}

#[test]
fn discarding_ends_after_the_whole_ring() {
    let mut driver = driver();
    let mut memory: HashMap<u32, u32> = HashMap::new();
    for i in 0..6u32 {
        memory.insert(0x2030_000c + 16 * i, ERROR);
    }
    let mut question = RxQuestion::Owner;
    let mut discarded: u32 = 0;
    loop {
        let status = memory[&driver.rx_ring.status_address()];
        match driver.discard_errors(question, status) {
            RxAnswer::Inspect(next) => question = next,
            RxAnswer::Resubmit(actions, next) => {
                stores(&actions, &mut memory);
                discarded += 1;
                question = next;
            }
            RxAnswer::Settled => break,
        }
    }
    assert_eq!(discarded, 6);
    let status = memory[&driver.rx_ring.status_address()];
    assert!(driver.receive(status, 0).is_none());
}

/// Follows the questions to a packet, and counts them.
fn follow(driver: &mut EnetQos, memory: &mut HashMap<u32, u32>) -> (ReceiveNext, usize) {
    let mut question = ReceiveQuestion::first();
    let mut asked: usize = 0;
    loop {
        let status = memory[&driver.status_address(question)];
        let (actions, next) = driver.receive_step(question, status);
        asked += 1;
        if let Some(actions) = actions {
            stores(&actions, memory);
        }
        match next {
            ReceiveNext::Ask(next) => question = next,
            end => return (end, asked),
        }
    }
}

fn words(status: u32, tx_status: u32) -> HashMap<u32, u32> {
    let mut memory: HashMap<u32, u32> = HashMap::new();
    for i in 0..6u32 {
        memory.insert(0x2030_000c + 16 * i, status);
    }
    for i in 0..4u32 {
        memory.insert(0x2020_000c + 16 * i, tx_status);
    }
    memory
}

#[test]
fn receiving_discards_first_and_then_finds_the_packet() {
    let mut driver = driver();
    let mut memory = words(HARDWARE, 0);
    memory.insert(0x2030_000c, ERROR);
    memory.insert(0x2030_001c, ERROR);
    memory.insert(0x2030_002c, SOFTWARE);
    let (end, asked) = follow(&mut driver, &mut memory);
    assert_eq!(
        end,
        ReceiveNext::Ready {
            rx_status: SOFTWARE,
            tx_status: 0,
        }
    );
    // Two for each bad packet, two for the good one, and one for each token.
    assert_eq!(asked, 8);
    assert_eq!(driver.rx_ring.index, 2);
    assert_eq!(driver.tx_ring.index, 0);
    assert_eq!(memory[&0x2030_000c], HARDWARE);
    assert_eq!(memory[&0x2030_001c], HARDWARE);
    assert_eq!(memory[&0x2020_000c], 0);
    assert!(driver.receive(SOFTWARE, 0).is_some());
}

#[test]
fn receiving_asks_for_space_only_if_there_is_a_packet() {
    let mut driver = driver();
    let mut memory = words(HARDWARE, 0);
    // Who owns it, and is there a packet?
    assert_eq!(
        follow(&mut driver, &mut memory),
        (ReceiveNext::Nothing, 2)
    );
    let mut memory = words(SOFTWARE, HARDWARE);
    assert_eq!(
        follow(&mut driver, &mut memory),
        (ReceiveNext::Nothing, 4)
    );
    assert_eq!(driver.rx_ring.index, 0);
}

#[test]
fn packets_that_complete_late_are_received_whatever_they_report() {
    let mut driver = driver();
    let (actions, next) = driver.receive_step(ReceiveQuestion::first(), HARDWARE);
    assert!(actions.is_none());
    assert_eq!(next, ReceiveNext::Ask(ReceiveQuestion::Packet));
    let (actions, next) = driver.receive_step(ReceiveQuestion::Packet, ERROR);
    assert!(actions.is_none());
    assert_eq!(
        next,
        ReceiveNext::Ask(ReceiveQuestion::Space { rx_status: ERROR })
    );
    assert_eq!(
        ReceiveQuestion::Discard(RxQuestion::Error).load_order(),
        LoadOrder::Relaxed
    );
    assert_eq!(ReceiveQuestion::first().load_order(), LoadOrder::Acquire);
    assert_eq!(ReceiveQuestion::Packet.load_order(), LoadOrder::Acquire);
    assert_eq!(
        ReceiveQuestion::Space { rx_status: 0 }.load_order(),
        LoadOrder::Acquire
    );
}

#[test]
fn enabling_and_disabling_the_mac() {
    let mut driver = driver();
    let on = driver.enable_mac(true);
    let off = driver.enable_mac(false);
    assert_eq!(
        on,
        Action::Modify {
            register: Register::MacConfiguration,
            mask: 3,
            bits: 3,
        }
    );
    assert_eq!(
        off,
        Action::Modify {
            register: Register::MacConfiguration,
            mask: 3,
            bits: 0,
        }
    );
    let configured = 0x0830_e000;
    assert_eq!(apply(configured, on), 0x0830_e003);
    assert_eq!(apply(apply(configured, on), off), configured);
    assert_eq!(apply(0xffff_ffff, off), 0xffff_fffc);
}

#[test]
fn mdio_write_is_a_command_the_data_and_a_start() {
    let mut driver = driver();
    let actions = driver.mdio_write(2, 0x1f, 0xbeef);
    assert_eq!(
        actions,
        [
            Action::Modify {
                register: Register::MacMdioAddress,
                mask: 0x03ff_000c,
                bits: 0x005f_0004,
            },
            Action::Write {
                register: Register::MacMdioData,
                value: 0xbeef,
            },
            Action::Modify {
                register: Register::MacMdioAddress,
                mask: 1,
                bits: 1,
            },
            Action::Poll {
                register: Register::MacMdioAddress,
                mask: 1,
            },
        ]
    );
}

#[test]
fn mdio_write_waits_until_the_bus_is_idle() {
    let mut driver = driver();
    let actions = driver.mdio_write(1, 0, 0x8000);
    let mut sequencer = Sequencer::new(&actions);
    let mut register: u32 = 0x400;
    let mut reads: u32 = 0;
    let mut value: u32 = 0;
    let mut last = None;
    while let Some(access) = sequencer.step(value) {
        last = Some(access);
        match access {
            Access::Read { .. } => {
                reads += 1;
                // The transaction is over when it was looked at ten times.
                if reads == 12 {
                    register &= !1;
                }
                value = register;
            }
            Access::Write {
                register: Register::MacMdioAddress,
                value,
            } => register = value,
            _ => {}
        }
    }
    assert_eq!(reads, 12);
    assert_eq!(register, 0x0020_0404);
    assert_eq!(
        last,
        Some(Access::Read {
            register: Register::MacMdioAddress
        })
    );
}

#[test]
fn mdio_read_is_a_command_and_a_start() {
    let mut driver = driver();
    let actions = driver.mdio_read(2, 1);
    assert_eq!(
        actions,
        [
            Action::Modify {
                register: Register::MacMdioAddress,
                mask: 0x03ff_000c,
                bits: 0x0041_000c,
            },
            Action::Modify {
                register: Register::MacMdioAddress,
                mask: 1,
                bits: 1,
            },
            Action::Poll {
                register: Register::MacMdioAddress,
                mask: 1,
            },
            Action::Fetch {
                register: Register::MacMdioData,
            },
        ]
    );
}

#[test]
fn mdio_read_returns_what_the_phy_says() {
    let mut driver = driver();
    let actions = driver.mdio_read(2, 1);
    let mut sequencer = Sequencer::new(&actions);
    let address = Access::Read {
        register: Register::MacMdioAddress,
    };
    assert_eq!(sequencer.step(0), Some(address));
    assert_eq!(
        sequencer.step(0x400),
        Some(Access::Write {
            register: Register::MacMdioAddress,
            value: 0x0041_040c,
        })
    );
    assert_eq!(sequencer.step(0), Some(address));
    assert_eq!(
        sequencer.step(0x0041_040c),
        Some(Access::Write {
            register: Register::MacMdioAddress,
            value: 0x0041_040d,
        })
    );
    assert_eq!(sequencer.step(0), Some(address));
    // Busy twice.
    assert_eq!(sequencer.step(0x0041_040d), Some(address));
    assert_eq!(sequencer.step(0x0041_040d), Some(address));
    assert_eq!(
        sequencer.step(0x0041_040c),
        Some(Access::Read {
            register: Register::MacMdioData
        })
    );
    assert_eq!(sequencer.step(0x796d), None);
    assert_eq!(mdio_data(0x796d), 0x796d);
}

#[test]
fn mdio_addresses_have_five_bits() {
    let mut driver = driver();
    assert_eq!(
        driver.mdio_read(0xff, 0xff)[0],
        Action::Modify {
            register: Register::MacMdioAddress,
            mask: 0x03ff_000c,
            bits: 0x03ff_000c,
        }
    );
    assert_eq!(driver.mdio_read(0x20, 0x21), driver.mdio_read(0, 1));
}

#[test]
fn mdio_commands_keep_the_clock_range() {
    let mut driver = driver();
    let configured = Field::Cr.place(4);
    let written = apply(configured, driver.mdio_write(3, 4, 5)[0]);
    assert_eq!(Field::Cr.extract(written), 4);
    assert_eq!(Field::Pa.extract(written), 3);
    assert_eq!(Field::Rda.extract(written), 4);
    let read = apply(written, driver.mdio_read(6, 7)[0]);
    assert_eq!(Field::Cr.extract(read), 4);
    assert_eq!(Field::Goc1.extract(read), 1);
    assert_eq!(Field::Goc0.extract(read), 1);
}

#[test]
fn mdio_data_is_the_low_half() {
    assert_eq!(mdio_data(0), 0);
    assert_eq!(mdio_data(0xffff_1234), 0x1234);
    assert_eq!(mdio_data(0x0000_ffff), 0xffff);
}

#[test]
fn capabilities_of_the_device() {
    let driver = driver();
    let caps = driver.capabilities();
    assert!(matches!(caps.medium, smoltcp::phy::Medium::Ethernet));
    assert_eq!(caps.max_transmission_unit, 1514);
    assert_eq!(caps.ip_mtu(), 1500);
    // The shorter ring decides.
    assert_eq!(caps.max_burst_size, Some(4));
    assert!(matches!(caps.checksum.ipv4, smoltcp::phy::Checksum::None));
    assert!(matches!(caps.checksum.udp, smoltcp::phy::Checksum::None));
    assert!(matches!(caps.checksum.tcp, smoltcp::phy::Checksum::None));
    assert!(matches!(caps.checksum.icmpv4, smoltcp::phy::Checksum::None));
}

#[test]
fn default_capabilities_of_the_stack() {
    let caps = smoltcp::phy::DeviceCapabilities::default();
    assert!(matches!(caps.medium, smoltcp::phy::Medium::Ethernet));
    assert_eq!(caps.max_transmission_unit, 0);
    assert_eq!(caps.max_burst_size, None);
    assert!(matches!(caps.checksum.ipv4, smoltcp::phy::Checksum::Both));
    assert!(matches!(caps.checksum.udp, smoltcp::phy::Checksum::Both));
    assert!(matches!(caps.checksum.tcp, smoltcp::phy::Checksum::Both));
    assert!(matches!(caps.checksum.icmpv4, smoltcp::phy::Checksum::Both));
}

#[test]
fn shorter_receive_ring_limits_the_burst() {
    let mut driver = driver();
    driver.rx_ring = Ring::<4>::new().take_ring_ref(driver.rx_ring.placement);
    driver.tx_ring = Ring::<9>::new().take_ring_ref(driver.tx_ring.placement);
    assert_eq!(driver.capabilities().max_burst_size, Some(4));
}
