//! Bringing up a simulated peripheral.

use imxrt_enet_qos::initialize::{
    csr_clock_range, initialize_mac, initialize_mdio_clocks, initialize_mtl,
};
use imxrt_enet_qos::{
    Access, Action, EnetQos, Field, Placement, Register, Ring, Sequencer, StartupStep,
};
use std::collections::HashMap;

const TX: Placement = Placement {
    descriptors: 0x2020_0000,
    buffers: 0x2020_1000,
};

const RX: Placement = Placement {
    descriptors: 0x2030_0000,
    buffers: 0x2030_1000,
};

const MAC: [u8; 6] = [0x02, 0x11, 0x22, 0x33, 0x44, 0x55];

/// Registers and memory. A reset takes three reads.
struct Device {
    registers: HashMap<Register, u32>,
    memory: HashMap<u32, u32>,
    busy_reads: u32,
    log: Vec<Access>,
}

impl Device {
    fn new(fill: u32) -> Self {
        let mut registers = HashMap::new();
        for register in [
            Register::DmaCh0TxControl,
            Register::DmaCh0RxControl,
            Register::MtlTxq0OperationMode,
            Register::MtlRxq0OperationMode,
            Register::MacRxqCtrl0,
            Register::MacPacketFilter,
            Register::MacQ0TxFlowCtrl,
            Register::MacRxFlowCtrl,
            Register::MacConfiguration,
            Register::MacMdioAddress,
        ] {
            registers.insert(register, fill);
        }
        Device {
            registers,
            memory: HashMap::new(),
            busy_reads: 3,
            log: vec![],
        }
    }

    fn load(&self, address: u32) -> u32 {
        *self.memory.get(&address).unwrap_or(&0)
    }

    fn get(&self, register: Register) -> u32 {
        *self.registers.get(&register).unwrap_or(&0)
    }

    fn field(&self, field: Field) -> u32 {
        field.extract(self.get(field.layout().register))
    }

    fn perform(&mut self, actions: &[Action]) {
        let mut sequencer = Sequencer::new(actions);
        let mut value: u32 = 0;
        while let Some(access) = sequencer.step(value) {
            self.log.push(access);
            match access {
                Access::Read { register } => {
                    if register == Register::DmaMode {
                        if self.busy_reads == 0 {
                            self.registers.insert(Register::DmaMode, 0);
                        } else {
                            self.busy_reads -= 1;
                        }
                    }
                    value = self.get(register);
                }
                Access::Write { register, value } => {
                    self.registers.insert(register, value);
                }
                Access::Store { address, value } => {
                    self.memory.insert(address, value);
                }
                Access::Fence => {}
            }
        }
    }
}

fn bring_up(device: &mut Device, hz: u32) -> (EnetQos, usize) {
    let tx_ring = Ring::<4>::new();
    let rx_ring = Ring::<6>::new();
    let (mut startup, actions) = EnetQos::new(&tx_ring, TX, &rx_ring, RX, hz, &MAC);
    device.perform(&actions);
    let mut fills: usize = 0;
    loop {
        let status = device.load(startup.status_address());
        match startup.step(status) {
            StartupStep::Fill(next, actions) => {
                device.perform(&actions);
                fills += 1;
                startup = next;
            }
            StartupStep::Configure(unclocked, actions) => {
                device.perform(&actions);
                assert_eq!(unclocked.bus_clk_root_hz, hz);
                let (driver, action) = unclocked.finish();
                device.perform(&[action]);
                return (driver, fills);
            }
        }
    }
}

#[test]
fn every_receive_descriptor_is_handed_over_once() {
    let mut device = Device::new(0);
    let (driver, fills) = bring_up(&mut device, 200_000_000);
    assert_eq!(fills, 6);
    assert_eq!(driver.rx_ring.index, 0);
    assert_eq!(driver.tx_ring.index, 0);
    for i in 0..6u32 {
        let address = 0x2030_0000 + 16 * i;
        assert_eq!(device.load(address), 0x2030_1000 + 1536 * i);
        assert_eq!(device.load(address + 4), 0);
        assert_eq!(device.load(address + 8), 0);
        assert_eq!(device.load(address + 12), 0x8100_0000);
    }
    // The tail pointer points at the last descriptor.
    assert_eq!(device.get(Register::DmaCh0RxdescTailPointer), 0x2030_0050);
    // The transmit descriptors are left alone.
    assert_eq!(device.load(0x2020_000c), 0);
    assert_eq!(device.memory.len(), 24);
}

#[test]
fn startup_leaves_buffers_and_transmit_descriptors() {
    let mut device = Device::new(0);
    for i in 0..16u32 {
        device.memory.insert(0x2020_0000 + 4 * i, 0x1000 + i);
    }
    // The first and the last word of all buffers.
    for address in [0x2020_1000, 0x2020_27fc, 0x2030_1000, 0x2030_33fc] {
        device.memory.insert(address, address);
    }
    bring_up(&mut device, 200_000_000);
    for i in 0..16u32 {
        assert_eq!(device.load(0x2020_0000 + 4 * i), 0x1000 + i);
    }
    for address in [0x2020_1000, 0x2020_27fc, 0x2030_1000, 0x2030_33fc] {
        assert_eq!(device.load(address), address);
    }
}

#[test]
fn everything_but_the_clock_is_set_up_for_any_bus_clock() {
    let mut device = Device::new(0);
    let (startup, actions) =
        EnetQos::new(&Ring::<4>::new(), TX, &Ring::<6>::new(), RX, 1, &MAC);
    device.perform(&actions);
    match startup.step(0x8000_0000) {
        StartupStep::Configure(unclocked, actions) => {
            device.perform(&actions);
            assert_eq!(csr_clock_range(unclocked.bus_clk_root_hz), None);
        }
        StartupStep::Fill(..) => unreachable!(),
    }
    assert_eq!(device.get(Register::MacConfiguration), 0x0830_e000);
    assert_eq!(device.get(Register::MacMdioAddress), 0);
}

#[test]
fn startup_stops_at_a_descriptor_that_hardware_owns() {
    let mut device = Device::new(0);
    device.memory.insert(0x2030_002c, 0x8000_0000);
    let (driver, fills) = bring_up(&mut device, 200_000_000);
    assert_eq!(fills, 2);
    assert_eq!(driver.rx_ring.index, 2);
    assert_eq!(device.get(Register::DmaCh0RxdescTailPointer), 0x2030_0010);
}

#[test]
fn reset_is_waited_for() {
    let mut device = Device::new(0);
    bring_up(&mut device, 200_000_000);
    let read = Access::Read {
        register: Register::DmaMode,
    };
    assert_eq!(
        device.log[0],
        Access::Write {
            register: Register::DmaMode,
            value: 1,
        }
    );
    // Three busy reads, and one that finds the reset complete.
    assert_eq!(device.log[1..5], [read, read, read, read]);
    assert_eq!(
        device.log[5],
        Access::Write {
            register: Register::DmaCh0RxdescListAddress,
            value: 0x2030_0000,
        }
    );
    assert_eq!(
        device.log[6],
        Access::Write {
            register: Register::DmaCh0RxdescRingLength,
            value: 5,
        }
    );
}

#[test]
fn registers_after_startup_from_zeros() {
    let mut device = Device::new(0);
    bring_up(&mut device, 200_000_000);
    assert_eq!(device.get(Register::DmaCh0RxdescListAddress), 0x2030_0000);
    assert_eq!(device.get(Register::DmaCh0RxdescRingLength), 5);
    assert_eq!(device.get(Register::DmaCh0TxdescListAddress), 0x2020_0000);
    assert_eq!(device.get(Register::DmaCh0TxdescRingLength), 3);
    assert_eq!(device.get(Register::DmaCh0TxControl), 0x0001_0001);
    assert_eq!(device.get(Register::DmaCh0RxControl), 0x0001_0c01);
    assert_eq!(device.get(Register::DmaCh0InterruptEnable), 0);
    assert_eq!(device.get(Register::MtlTxq0OperationMode), 0x001f_000a);
    assert_eq!(device.get(Register::MtlRxq0OperationMode), 0x01f0_0020);
    assert_eq!(device.get(Register::MacRxqCtrl0), 2);
    assert_eq!(device.get(Register::MacAddress0High), 0x0000_5544);
    assert_eq!(device.get(Register::MacAddress0Low), 0x3322_1102);
    assert_eq!(device.get(Register::MacPacketFilter), 0x0000_02d0);
    assert_eq!(device.get(Register::MacQ0TxFlowCtrl), 0x0200_0000);
    assert_eq!(device.get(Register::MacRxFlowCtrl), 0);
    assert_eq!(device.get(Register::MacInterruptEnable), 0);
    assert_eq!(device.get(Register::MacConfiguration), 0x0830_e000);
    assert_eq!(device.get(Register::MacMdioAddress), 0x0000_0400);
}

#[test]
fn registers_after_startup_from_ones() {
    let mut device = Device::new(0xffff_ffff);
    bring_up(&mut device, 200_000_000);
    // Fields that startup does not name stay as they were.
    assert_eq!(device.get(Register::DmaCh0TxControl), 0xffc1_ffff);
    assert_eq!(device.get(Register::DmaCh0RxControl), 0xffc1_8c0f);
    assert_eq!(device.get(Register::MtlTxq0OperationMode), 0xffff_fffb);
    assert_eq!(device.get(Register::MtlRxq0OperationMode), 0xffff_ffff);
    assert_eq!(device.get(Register::MacRxqCtrl0), 0xffff_fffe);
    assert_eq!(device.get(Register::MacPacketFilter), 0x7fce_fad0);
    assert_eq!(device.get(Register::MacQ0TxFlowCtrl), 0x0200_fffd);
    assert_eq!(device.get(Register::MacRxFlowCtrl), 0xffff_fffe);
    assert_eq!(device.get(Register::MacConfiguration), 0x8fff_efff);
    // This one is written as a whole.
    assert_eq!(device.get(Register::MacMdioAddress), 0x0000_0400);
}

#[test]
fn link_is_full_duplex_at_100_mbit() {
    for fill in [0u32, 0xffff_ffff, 0x5a5a_a5a5] {
        let mut device = Device::new(fill);
        let te = device.field(Field::Te);
        let re = device.field(Field::Re);
        bring_up(&mut device, 200_000_000);
        assert_eq!(device.field(Field::Dm), 1);
        assert_eq!(device.field(Field::Ps), 1);
        assert_eq!(device.field(Field::Fes), 1);
        assert_eq!(device.field(Field::Lm), 0);
        assert_eq!(device.field(Field::Ipc), 1);
        // The user enables the MAC.
        assert_eq!(device.field(Field::Te), te);
        assert_eq!(device.field(Field::Re), re);
    }
}

#[test]
fn filter_lets_broadcast_in_without_being_promiscuous() {
    for fill in [0u32, 0xffff_ffff, 0x5a5a_a5a5] {
        let mut device = Device::new(fill);
        bring_up(&mut device, 200_000_000);
        assert_eq!(device.field(Field::Dbf), 0);
        assert_eq!(device.field(Field::Pm), 1);
        assert_eq!(device.field(Field::Pr), 0);
        assert_eq!(device.field(Field::Vtfe), 0);
        assert_eq!(device.field(Field::Saf), 1);
        assert_eq!(device.field(Field::Pcf), 3);
        assert_eq!(device.field(Field::Pt), 512);
    }
}

#[test]
fn dma_starts_after_everything_it_needs() {
    let mut device = Device::new(0);
    bring_up(&mut device, 200_000_000);
    let position = |wanted: Register| {
        device
            .log
            .iter()
            .rposition(|access| matches!(access, Access::Write { register, .. } if *register == wanted))
            .unwrap()
    };
    let started = position(Register::DmaCh0RxControl);
    assert!(position(Register::DmaCh0RxdescListAddress) < started);
    assert!(position(Register::DmaCh0RxdescTailPointer) < started);
    assert!(position(Register::DmaCh0TxdescListAddress) < started);
    assert!(position(Register::DmaCh0InterruptEnable) < started);
    assert!(position(Register::MacAddress0High) < position(Register::MacAddress0Low));
    assert!(started < position(Register::MtlTxq0OperationMode));
    assert!(position(Register::MacRxqCtrl0) < position(Register::MacAddress0High));
    assert!(position(Register::MacConfiguration) < position(Register::MacMdioAddress));
}

#[test]
fn descriptors_are_stored_and_fenced_before_the_tail_moves() {
    let mut device = Device::new(0);
    bring_up(&mut device, 200_000_000);
    for (i, access) in device.log.iter().enumerate() {
        if let Access::Write {
            register: Register::DmaCh0RxdescTailPointer,
            value,
        } = *access
        {
            assert_eq!(device.log[i - 1], Access::Fence);
            for word in 0..4usize {
                assert!(matches!(
                    device.log[i - 5 + word],
                    Access::Store { address, .. } if address == value + 4 * word as u32
                ));
            }
        }
    }
}

#[test]
fn clock_ranges() {
    assert_eq!(csr_clock_range(0), None);
    assert_eq!(csr_clock_range(19_999_999), None);
    assert_eq!(csr_clock_range(20_000_000), Some(2));
    assert_eq!(csr_clock_range(34_999_999), Some(2));
    assert_eq!(csr_clock_range(35_000_000), Some(3));
    assert_eq!(csr_clock_range(60_000_000), Some(0));
    assert_eq!(csr_clock_range(99_999_999), Some(0));
    assert_eq!(csr_clock_range(100_000_000), Some(1));
    assert_eq!(csr_clock_range(150_000_000), Some(4));
    assert_eq!(csr_clock_range(240_000_000), Some(4));
    assert_eq!(csr_clock_range(250_000_000), Some(5));
    assert_eq!(csr_clock_range(300_000_000), Some(6));
    assert_eq!(csr_clock_range(500_000_000), Some(7));
    assert_eq!(csr_clock_range(799_999_999), Some(7));
    assert_eq!(csr_clock_range(800_000_000), None);
    assert_eq!(csr_clock_range(u32::MAX), None);
}

#[test]
fn clock_range_goes_to_its_field() {
    assert_eq!(
        initialize_mdio_clocks(500_000_000),
        Action::Write {
            register: Register::MacMdioAddress,
            value: 0x700,
        }
    );
    let mut device = Device::new(0xffff_ffff);
    bring_up(&mut device, 60_000_000);
    assert_eq!(device.get(Register::MacMdioAddress), 0);
    assert_eq!(device.field(Field::Gb), 0);
}

#[test]
fn fifos_have_all_their_memory() {
    let actions = initialize_mtl();
    assert_eq!(
        actions[0],
        Action::Modify {
            register: Register::MtlTxq0OperationMode,
            mask: 0x001f_000e,
            bits: 0x001f_000a,
        }
    );
    let mut device = Device::new(0);
    device.perform(&actions);
    assert_eq!((device.field(Field::Tqs) + 1) * 256, 8192);
    assert_eq!((device.field(Field::Rqs) + 1) * 256, 8192);
}

#[test]
fn mac_address_is_written_high_half_first() {
    let actions = initialize_mac(&[1, 2, 3, 4, 5, 6]);
    assert_eq!(
        actions[0],
        Action::Write {
            register: Register::MacAddress0High,
            value: 0x0605,
        }
    );
    assert_eq!(
        actions[1],
        Action::Write {
            register: Register::MacAddress0Low,
            value: 0x0403_0201,
        }
    );
    assert_ne!(actions[1], initialize_mac(&[1, 2, 3, 5, 5, 6])[1]);
    assert_ne!(actions[0], initialize_mac(&[1, 2, 3, 4, 5, 7])[0]);
}
