//! The Ethernet QOS driver.

use crate::action::{self, Action};
use crate::capabilities::default_capabilities;
use crate::descriptor::{self, clamped, has_error, owner, packet_length, MAX_BUFFER_SIZE};
use crate::initialize::{
    self, initialize_mac, initialize_mdio_clocks, initialize_mtl, reset_dma_controller,
    start_dma_controller, MacAddress,
};
use crate::register::{Field, Register};
use crate::ring::{Placement, Ring, RingRef};
use vstd::prelude::*;

verus! {

/// The Ethernet QOS driver.
///
/// This is what software knows: how far it has come in either ring. It performs no access
/// of its own. Its methods say which accesses to perform, and take the words that were
/// loaded.
#[derive(Debug, PartialEq, Eq, Structural)]
pub struct EnetQos {
    /// Reference to user-allocated transmit ring.
    pub tx_ring: RingRef,
    /// Reference to user-allocated receive ring.
    pub rx_ring: RingRef,
}

/// A driver whose peripheral is not up yet.
///
/// The receive descriptors go to the DMA controller one by one. Before each
/// [`step`](Startup::step), load the word at [`status_address`](Startup::status_address).
pub struct Startup {
    /// The driver, once the peripheral is up.
    pub driver: EnetQos,
    /// The frequency, in Hz, of `BUS_CLK_ROOT`.
    pub bus_clk_root_hz: u32,
    /// Our MAC address.
    pub mac_address: MacAddress,
}

/// A driver whose peripheral is up, but for the MDIO clock.
pub struct Unclocked {
    /// The driver, once the MDIO clock is set.
    pub driver: EnetQos,
    /// The frequency, in Hz, of `BUS_CLK_ROOT`.
    pub bus_clk_root_hz: u32,
}

impl Unclocked {
    /// Sets the MDIO clock. Perform the action. Then the driver is ready.
    pub fn finish(self) -> (finished: (EnetQos, Action))
        requires
            initialize::supports_clock(self.bus_clk_root_hz),
        ensures
            finished.0 == self.driver,
            finished.1 == initialize::clock_action(
                initialize::clock_range_of(self.bus_clk_root_hz),
            ),
    {
        (self.driver, initialize_mdio_clocks(self.bus_clk_root_hz))
    }
}

/// What to do next to bring up the peripheral.
pub enum StartupStep {
    /// Perform the actions, and step again.
    Fill(Startup, [Action; 6]),
    /// Perform the actions, and set the MDIO clock.
    Configure(Unclocked, [Action; 17]),
}

impl Startup {
    /// The rings are well formed.
    pub open spec fn wf(self) -> bool {
        self.driver.wf()
    }

    /// The actions that configure the peripheral, but for the MDIO clock, once the DMA
    /// controller owns the receive descriptors.
    pub open spec fn configure_actions(self) -> Seq<Action> {
        initialize::start_actions(self.driver.tx_ring) + initialize::mtl_actions()
            + initialize::mac_actions(self.mac_address@)
    }

    /// The actions that remain once the DMA controller owns the receive descriptors.
    pub open spec fn finish_actions(self) -> Seq<Action> {
        self.configure_actions() + seq![
            initialize::clock_action(initialize::clock_range_of(self.bus_clk_root_hz)),
        ]
    }

    /// Return the address of the word to load before the next step.
    pub fn status_address(&self) -> (address: u32)
        requires
            self.wf(),
        ensures
            address == self.driver.rx_ring.spec_status_address(),
    {
        self.driver.rx_ring.status_address()
    }

    /// Takes the last word of the current receive descriptor, and says how to go on.
    ///
    /// All receive descriptors are marked as owned by the DMA controller. Otherwise, we
    /// wouldn't get any packets! Once we come across one that is owned already, the rest
    /// of the peripheral is configured.
    pub fn step(self, status: u32) -> (step: StartupStep)
        requires
            self.wf(),
        ensures
            step is Fill <==> owner(status) is Software,
            step matches StartupStep::Fill(startup, actions) ==> {
                &&& startup.wf()
                &&& startup.driver.rx_ring == self.driver.rx_ring.advanced()
                &&& startup == (Startup { driver: startup.driver, ..self })
                &&& startup.driver.tx_ring == self.driver.tx_ring
                &&& actions@ == self.driver.rx_ring.submit_actions()
            },
            step matches StartupStep::Configure(unclocked, actions) ==> {
                &&& unclocked.driver.wf()
                &&& unclocked.driver == self.driver
                &&& unclocked.bus_clk_root_hz == self.bus_clk_root_hz
                &&& actions@ == self.configure_actions()
            },
    {
        let mut startup = self;
        if owner(status).is_software() {
            let actions = startup.driver.rx_ring.submit_ring_head();
            StartupStep::Fill(startup, actions)
        } else {
            let dma = start_dma_controller(&startup.driver.tx_ring);
            let mtl = initialize_mtl();
            let mac = initialize_mac(&startup.mac_address);
            let actions = [
                dma[0],
                dma[1],
                dma[2],
                dma[3],
                dma[4],
                dma[5],
                dma[6],
                mtl[0],
                mtl[1],
                mtl[2],
                mac[0],
                mac[1],
                mac[2],
                mac[3],
                mac[4],
                mac[5],
                mac[6],
            ];
            assert(actions@ =~= self.configure_actions());
            let unclocked = Unclocked {
                driver: startup.driver,
                bus_clk_root_hz: startup.bus_clk_root_hz,
            };
            StartupStep::Configure(unclocked, actions)
        }
    }
}

/// How a word of a descriptor is loaded.
#[derive(Debug, Clone, Copy, PartialEq, Eq, Structural)]
pub enum LoadOrder {
    /// The load comes before every later access: what the DMA controller wrote before it
    /// gave up the descriptor is visible.
    Acquire,
    /// No order is needed.
    Relaxed,
}

/// Which question the last word of a receive descriptor answers.
#[derive(Debug, Clone, Copy, PartialEq, Eq, Structural)]
pub enum RxQuestion {
    /// Who owns the descriptor?
    Owner,
    /// Does the descriptor, which software owns, report an error?
    Error,
}

impl RxQuestion {
    /// Returns how to load the word that answers this question.
    pub fn load_order(self) -> (order: LoadOrder)
        ensures
            order is Acquire <==> self is Owner,
    {
        match self {
            RxQuestion::Owner => LoadOrder::Acquire,
            RxQuestion::Error => LoadOrder::Relaxed,
        }
    }
}

/// What a receive descriptor told.
pub enum RxAnswer {
    /// Software owns the descriptor. Load the word again, and ask the next question.
    Inspect(RxQuestion),
    /// The descriptor reports an error. Perform the actions, and ask the next question of
    /// the descriptor behind it.
    Resubmit([Action; 6], RxQuestion),
    /// There is nothing to discard.
    Settled,
}

impl RxAnswer {
    /// The question to ask next, if there is one.
    pub open spec fn next(self) -> Option<RxQuestion> {
        match self {
            RxAnswer::Inspect(next) => Some(next),
            RxAnswer::Resubmit(_, next) => Some(next),
            RxAnswer::Settled => None,
        }
    }

    /// The actions to perform first.
    pub open spec fn actions(self) -> Seq<Action> {
        match self {
            RxAnswer::Resubmit(actions, _) => actions@,
            _ => Seq::empty(),
        }
    }
}

/// What comes of asking one question while discarding: the driver, the next question if there
/// is one, and the actions to perform before it.
pub open spec fn discard_step(driver: EnetQos, question: RxQuestion, status: u32) -> (
    EnetQos,
    Option<RxQuestion>,
    Seq<Action>,
) {
    match question {
        RxQuestion::Owner => if owner(status) is Software {
            (driver, Some(RxQuestion::Error), Seq::empty())
        } else {
            (driver, None, Seq::empty())
        },
        RxQuestion::Error => if has_error(status) {
            (
                EnetQos { rx_ring: driver.rx_ring.advanced(), ..driver },
                Some(RxQuestion::Owner),
                driver.rx_ring.submit_actions(),
            )
        } else {
            (driver, None, Seq::empty())
        },
    }
}

/// Which question comes next on the way to a packet.
#[derive(Debug, Clone, Copy, PartialEq, Eq, Structural)]
pub enum ReceiveQuestion {
    /// Is there a receive descriptor to discard?
    Discard(RxQuestion),
    /// Does software own the receive descriptor, so that there is a packet?
    Packet,
    /// Does software own the transmit descriptor, so that there is space for a reply?
    Space {
        /// The word that told of the packet.
        rx_status: u32,
    },
}

impl ReceiveQuestion {
    /// The question that all begins with.
    pub fn first() -> (question: ReceiveQuestion)
        ensures
            question == ReceiveQuestion::Discard(RxQuestion::Owner),
    {
        ReceiveQuestion::Discard(RxQuestion::Owner)
    }

    /// Returns how to load the word that answers this question.
    pub fn load_order(self) -> (order: LoadOrder)
        ensures
            order is Relaxed <==> self == ReceiveQuestion::Discard(RxQuestion::Error),
    {
        match self {
            ReceiveQuestion::Discard(question) => question.load_order(),
            ReceiveQuestion::Packet => LoadOrder::Acquire,
            ReceiveQuestion::Space { .. } => LoadOrder::Acquire,
        }
    }
}

/// Where the way to a packet leads.
#[derive(Debug, Clone, Copy, PartialEq, Eq, Structural)]
pub enum ReceiveNext {
    /// Ask this question.
    Ask(ReceiveQuestion),
    /// There is nothing to receive now.
    Nothing,
    /// There is a packet, and space for a reply. Hand both words to
    /// [`receive`](EnetQos::receive).
    Ready {
        /// The last word of the receive descriptor.
        rx_status: u32,
        /// The last word of the transmit descriptor.
        tx_status: u32,
    },
}

/// What comes of asking one question on the way to a packet: the driver, where to go next,
/// and the actions to perform before that.
///
/// Discarding comes first. The transmit descriptor matters only if there is a packet.
pub open spec fn receive_outcome(driver: EnetQos, question: ReceiveQuestion, status: u32) -> (
    EnetQos,
    ReceiveNext,
    Seq<Action>,
) {
    match question {
        ReceiveQuestion::Discard(question) => {
            let (driver, next, actions) = discard_step(driver, question, status);
            match next {
                Some(next) => (driver, ReceiveNext::Ask(ReceiveQuestion::Discard(next)), actions),
                None => (driver, ReceiveNext::Ask(ReceiveQuestion::Packet), actions),
            }
        },
        ReceiveQuestion::Packet => if owner(status) is Software {
            let next = ReceiveNext::Ask(ReceiveQuestion::Space { rx_status: status });
            (driver, next, Seq::empty())
        } else {
            (driver, ReceiveNext::Nothing, Seq::empty())
        },
        ReceiveQuestion::Space { rx_status } => if owner(status) is Software {
            (driver, ReceiveNext::Ready { rx_status, tx_status: status }, Seq::empty())
        } else {
            (driver, ReceiveNext::Nothing, Seq::empty())
        },
    }
}

/// The actions to perform, if there are any.
pub open spec fn actions_of(actions: Option<[Action; 6]>) -> Seq<Action> {
    match actions {
        Some(actions) => actions@,
        None => Seq::empty(),
    }
}

impl EnetQos {
    /// Both rings are well formed, and share no memory.
    pub open spec fn wf(self) -> bool {
        self.tx_ring.wf() && self.rx_ring.wf() && self.tx_ring.is_apart_from(self.rx_ring)
    }

    /// Construct a driver with configurable TX and RX rings.
    ///
    /// `bus_clk_root_hz` is the frequency, in Hz, of `BUS_CLK_ROOT`.
    ///
    /// Perform the actions, and go on with the [`Startup`].
    pub fn new<const TX: usize, const RX: usize>(
        tx_ring: &Ring<TX>,
        tx_placement: Placement,
        rx_ring: &Ring<RX>,
        rx_placement: Placement,
        bus_clk_root_hz: u32,
        mac_address: &MacAddress,
    ) -> (startup: (Startup, [Action; 4]))
        requires
            TX >= 4,
            RX >= 4,
            tx_placement.is_valid(TX as int),
            rx_placement.is_valid(RX as int),
            tx_placement.is_apart_from(TX as int, rx_placement, RX as int),
        ensures
            startup.0.wf(),
            startup.0 == (Startup {
                driver: EnetQos {
                    tx_ring: RingRef { placement: tx_placement, len: TX, index: 0 },
                    rx_ring: RingRef { placement: rx_placement, len: RX, index: 0 },
                },
                bus_clk_root_hz,
                mac_address: *mac_address,
            }),
            startup.1@ == initialize::reset_actions(startup.0.driver.rx_ring),
    {
        let tx_ring = tx_ring.take_ring_ref(tx_placement);
        let rx_ring = rx_ring.take_ring_ref(rx_placement);
        let actions = reset_dma_controller(&rx_ring);
        let driver = EnetQos { tx_ring, rx_ring };
        (Startup { driver, bus_clk_root_hz, mac_address: *mac_address }, actions)
    }

    /// Enable `true` or disable `false` the MAC.
    pub fn enable_mac(&mut self, enable: bool) -> (action: Action)
        ensures
            *final(self) == *old(self),
            action == enable_action(enable),
    {
        let value: u32 = if enable { 1 } else { 0 };
        let fields = [(Field::Te, value), (Field::Re, value)];
        assert(fields@ =~= enable_fields(enable));
        Action::modify(Register::MacConfiguration, &fields)
    }

    /// Write to the attached PHY through the MDIO interface (Clause 22).
    ///
    /// `phy` is your PHY's address. `reg` is the register, and `data` is the associated
    /// data. The last action spins until the MAC has completed the write.
    pub fn mdio_write(&mut self, phy: u8, reg: u8, data: u16) -> (actions: [Action; 4])
        ensures
            *final(self) == *old(self),
            actions@ == mdio_write_actions(phy, reg, data),
    {
        let command = [
            (Field::Pa, phy as u32),
            (Field::Rda, reg as u32),
            // Write command.
            (Field::Goc1, 0),
            (Field::Goc0, 1),
        ];
        assert(command@ =~= mdio_command(phy, reg, 0));
        [
            Action::modify(Register::MacMdioAddress, &command),
            Action::Write { register: Register::MacMdioData, value: data as u32 },
            Action::modify_one(Register::MacMdioAddress, Field::Gb, 1),
            Action::Poll { register: Register::MacMdioAddress, mask: Field::Gb.mask() },
        ]
    }

    /// Read a register's data from an attached PHY (Clause 22).
    ///
    /// `phy` is your PHY's address. `reg` is the register to read. The actions spin until the
    /// transaction completes, and fetch its result. Hand that to [`mdio_data`].
    pub fn mdio_read(&mut self, phy: u8, reg: u8) -> (actions: [Action; 4])
        ensures
            *final(self) == *old(self),
            actions@ == mdio_read_actions(phy, reg),
    {
        let command = [
            (Field::Pa, phy as u32),
            (Field::Rda, reg as u32),
            // Read command.
            (Field::Goc1, 1),
            (Field::Goc0, 1),
        ];
        assert(command@ =~= mdio_command(phy, reg, 1));
        [
            Action::modify(Register::MacMdioAddress, &command),
            Action::modify_one(Register::MacMdioAddress, Field::Gb, 1),
            Action::Poll { register: Register::MacMdioAddress, mask: Field::Gb.mask() },
            Action::Fetch { register: Register::MacMdioData },
        ]
    }

    /// Discards receive descriptors that report an error.
    ///
    /// Before asking for a token, start with [`RxQuestion::Owner`], and follow the answers
    /// until there is nothing to discard. `status` is the last word of the current receive
    /// descriptor, freshly loaded for each question.
    pub fn discard_errors(&mut self, question: RxQuestion, status: u32) -> (answer: RxAnswer)
        requires
            old(self).wf(),
        ensures
            final(self).wf(),
            answer is Inspect <==> question is Owner && owner(status) is Software,
            answer is Resubmit <==> question is Error && has_error(status),
            answer matches RxAnswer::Inspect(next) ==> next is Error,
            answer matches RxAnswer::Resubmit(actions, next) ==> {
                &&& next is Owner
                &&& actions@ == old(self).rx_ring.submit_actions()
                &&& *final(self) == (EnetQos { rx_ring: old(self).rx_ring.advanced(), ..*old(self) })
            },
            !(answer is Resubmit) ==> *final(self) == *old(self),
            (*final(self), answer.next(), answer.actions()) == discard_step(
                *old(self),
                question,
                status,
            ),
    {
        match question {
            RxQuestion::Owner => {
                if owner(status).is_software() {
                    RxAnswer::Inspect(RxQuestion::Error)
                } else {
                    RxAnswer::Settled
                }
            },
            RxQuestion::Error => {
                if has_error(status) {
                    // We can't trust its data. Re-schedule the descriptor to receive new
                    // data. Users can figure out that there was an error by querying the
                    // MAC statistics.
                    RxAnswer::Resubmit(self.rx_ring.submit_ring_head(), RxQuestion::Owner)
                } else {
                    RxAnswer::Settled
                }
            },
        }
    }

    /// Return the address of the word that answers the question.
    pub fn status_address(&self, question: ReceiveQuestion) -> (address: u32)
        requires
            self.wf(),
        ensures
            address == if question is Space {
                self.tx_ring.spec_status_address()
            } else {
                self.rx_ring.spec_status_address()
            },
    {
        match question {
            ReceiveQuestion::Space { .. } => self.tx_ring.status_address(),
            _ => self.rx_ring.status_address(),
        }
    }

    /// Takes one step towards a packet.
    ///
    /// Start with [`ReceiveQuestion::first`]. `status` is the word at
    /// [`status_address`](EnetQos::status_address), freshly loaded for each question. Perform
    /// the actions, if there are any, before going on.
    ///
    /// A packet is one whatever its error bit says by then: hardware may have completed it
    /// after the last descriptor was discarded.
    pub fn receive_step(&mut self, question: ReceiveQuestion, status: u32) -> (step: (
        Option<[Action; 6]>,
        ReceiveNext,
    ))
        requires
            old(self).wf(),
        ensures
            final(self).wf(),
            (*final(self), step.1, actions_of(step.0)) == receive_outcome(
                *old(self),
                question,
                status,
            ),
            step.0 is Some <==> question == ReceiveQuestion::Discard(RxQuestion::Error)
                && has_error(status),
    {
        match question {
            ReceiveQuestion::Discard(question) => match self.discard_errors(question, status) {
                RxAnswer::Inspect(next) => (
                    None,
                    ReceiveNext::Ask(ReceiveQuestion::Discard(next)),
                ),
                RxAnswer::Resubmit(actions, next) => (
                    Some(actions),
                    ReceiveNext::Ask(ReceiveQuestion::Discard(next)),
                ),
                RxAnswer::Settled => (None, ReceiveNext::Ask(ReceiveQuestion::Packet)),
            },
            ReceiveQuestion::Packet => {
                if owner(status).is_software() {
                    (None, ReceiveNext::Ask(ReceiveQuestion::Space { rx_status: status }))
                } else {
                    (None, ReceiveNext::Nothing)
                }
            },
            ReceiveQuestion::Space { rx_status } => {
                if owner(status).is_software() {
                    (None, ReceiveNext::Ready { rx_status, tx_status: status })
                } else {
                    (None, ReceiveNext::Nothing)
                }
            },
        }
    }

    /// Produce a receive token, if one is available.
    ///
    /// `status` is the last word of the current receive descriptor.
    pub fn rx_token(&mut self, status: u32) -> (token: Option<RxToken<'_>>)
        ensures
            token is Some <==> owner(status) is Software,
            token matches Some(token) ==> {
                &&& *token.ring == old(self).rx_ring
                &&& *final(self) == (EnetQos { rx_ring: *final(token.ring), ..*old(self) })
            },
            token is None ==> *final(self) == *old(self),
    {
        if owner(status).is_software() {
            Some(RxToken { ring: &mut self.rx_ring })
        } else {
            None
        }
    }

    /// Produce a transmit token, if one is available.
    ///
    /// `status` is the last word of the current transmit descriptor.
    pub fn tx_token(&mut self, status: u32) -> (token: Option<TxToken<'_>>)
        ensures
            token is Some <==> owner(status) is Software,
            token matches Some(token) ==> {
                &&& *token.ring == old(self).tx_ring
                &&& *final(self) == (EnetQos { tx_ring: *final(token.ring), ..*old(self) })
            },
            token is None ==> *final(self) == *old(self),
    {
        if owner(status).is_software() {
            Some(TxToken { ring: &mut self.tx_ring })
        } else {
            None
        }
    }

    /// Produce both tokens, if both are available.
    ///
    /// The arguments are the last words of the current receive descriptor and of the
    /// current transmit descriptor.
    pub fn receive(&mut self, rx_status: u32, tx_status: u32) -> (tokens: Option<
        (RxToken<'_>, TxToken<'_>),
    >)
        ensures
            tokens is Some <==> owner(rx_status) is Software && owner(tx_status) is Software,
            tokens matches Some(tokens) ==> {
                &&& *tokens.0.ring == old(self).rx_ring
                &&& *tokens.1.ring == old(self).tx_ring
                &&& *final(self) == (EnetQos {
                    rx_ring: *final(tokens.0.ring),
                    tx_ring: *final(tokens.1.ring),
                })
            },
            tokens is None ==> *final(self) == *old(self),
    {
        if owner(rx_status).is_software() && owner(tx_status).is_software() {
            Some((RxToken { ring: &mut self.rx_ring }, TxToken { ring: &mut self.tx_ring }))
        } else {
            None
        }
    }

    /// Produce a transmit token, if one is available.
    ///
    /// `status` is the last word of the current transmit descriptor.
    pub fn transmit(&mut self, status: u32) -> (token: Option<TxToken<'_>>)
        ensures
            token is Some <==> owner(status) is Software,
            token matches Some(token) ==> {
                &&& *token.ring == old(self).tx_ring
                &&& *final(self) == (EnetQos { tx_ring: *final(token.ring), ..*old(self) })
            },
            token is None ==> *final(self) == *old(self),
    {
        self.tx_token(status)
    }

    /// What the network stack needs to know about the device.
    pub fn capabilities(&self) -> (caps: smoltcp::phy::DeviceCapabilities)
        ensures
            caps.medium is Ethernet,
            caps.max_transmission_unit == MAX_TRANSMISSION_UNIT,
            caps.max_burst_size == Some(
                if self.tx_ring.len <= self.rx_ring.len {
                    self.tx_ring.len
                } else {
                    self.rx_ring.len
                },
            ),
            caps.checksum.ipv4 is None,
            caps.checksum.udp is None,
            caps.checksum.tcp is None,
            caps.checksum.icmpv4 is None,
    {
        let mut caps = default_capabilities();

        caps.medium = smoltcp::phy::Medium::Ethernet;
        caps.max_transmission_unit = MAX_TRANSMISSION_UNIT;

        // How many MTUs of data can we have in flight at a given time? That depends on how
        // many descriptors we've allocated.
        let burst_size: usize = if self.tx_ring.len <= self.rx_ring.len {
            self.tx_ring.len
        } else {
            self.rx_ring.len
        };
        caps.max_burst_size = Some(burst_size);

        caps.checksum.ipv4 = smoltcp::phy::Checksum::None;
        caps.checksum.udp = smoltcp::phy::Checksum::None;
        caps.checksum.tcp = smoltcp::phy::Checksum::None;
        caps.checksum.icmpv4 = smoltcp::phy::Checksum::None;

        caps
    }
}

/// The largest Ethernet frame.
///
/// 1500 bytes in the Ethernet packet (AKA, the IP MTU), 6 bytes for the source MAC, 6 bytes
/// for the destination MAC, and 2 bytes for EtherType. Doesn't include any CRCs.
pub const MAX_TRANSMISSION_UNIT: usize = 1500 + 6 + 6 + 2;

/// The fields that enable or disable the MAC.
pub open spec fn enable_fields(enable: bool) -> Seq<(Field, u32)> {
    let value: u32 = if enable { 1 } else { 0 };
    seq![(Field::Te, value), (Field::Re, value)]
}

/// The action that enables or disables the MAC.
pub open spec fn enable_action(enable: bool) -> Action {
    action::modify_fields(Register::MacConfiguration, enable_fields(enable))
}

/// The fields of an MDIO command, with the given high bit of the operation.
pub open spec fn mdio_command(phy: u8, reg: u8, goc_1: u32) -> Seq<(Field, u32)> {
    seq![(Field::Pa, phy as u32), (Field::Rda, reg as u32), (Field::Goc1, goc_1), (Field::Goc0, 1u32)]
}

/// The actions that start the MDIO transaction, and wait for its end.
pub open spec fn mdio_run_actions() -> Seq<Action> {
    seq![
        action::modify_fields(Register::MacMdioAddress, seq![(Field::Gb, 1u32)]),
        Action::Poll { register: Register::MacMdioAddress, mask: Field::Gb.mask() },
    ]
}

/// The actions that write `data` to register `reg` of PHY `phy`.
pub open spec fn mdio_write_actions(phy: u8, reg: u8, data: u16) -> Seq<Action> {
    seq![
        action::modify_fields(Register::MacMdioAddress, mdio_command(phy, reg, 0)),
        Action::Write { register: Register::MacMdioData, value: data as u32 },
    ] + mdio_run_actions()
}

/// The actions that read register `reg` of PHY `phy`.
pub open spec fn mdio_read_actions(phy: u8, reg: u8) -> Seq<Action> {
    seq![
        action::modify_fields(Register::MacMdioAddress, mdio_command(phy, reg, 1)),
    ] + mdio_run_actions() + seq![Action::Fetch { register: Register::MacMdioData }]
}

/// Returns the data of an MDIO transaction, given the value of `MAC_MDIO_DATA`.
pub fn mdio_data(register: u32) -> (data: u16)
    ensures
        data == Field::Gd.extract(register),
        data == register % 0x1_0000,
{
    let data = Field::Gd.extract(register);
    // GD is a 16 bit field.
    assert((register & ((((1u32 << 16) - 1) as u32) << 0)) >> 0 <= 0xffff && (register & ((((1u32
        << 16) - 1) as u32) << 0)) >> 0 == register % 0x1_0000) by (bit_vector);
    data as u16
}

/// `f` was handed `bytes`, and returned `result`.
pub open spec fn shown<R, F: FnOnce(&[u8]) -> R>(f: F, bytes: Seq<u8>, result: R) -> bool {
    exists|packet: &[u8]| packet@ == bytes && #[trigger] call_ensures(f, (packet,), result)
}

/// Hands the first `len` bytes of the buffer to the closure.
fn fill_packet<R, F>(buffer: &mut [u8], len: usize, f: F) -> (result: R) where
    F: FnOnce(&mut [u8]) -> R,

    requires
        len <= old(buffer)@.len(),
        forall|packet: &mut [u8]|
            (*packet)@ == old(buffer)@.take(len as int) ==> call_requires(f, (packet,)),
    ensures
        exists|packet: &mut [u8]|
            {
                &&& (*packet)@ == old(buffer)@.take(len as int)
                &&& #[trigger] call_ensures(f, (packet,), result)
                &&& final(buffer)@ == (*final(packet))@ + old(buffer)@.skip(len as int)
            },
{
    let (packet, _rest) = buffer.split_at_mut(len);
    f(packet)
}

/// A token for sending packets.
pub struct TxToken<'r> {
    /// The ring we use for sending data.
    pub ring: &'r mut RingRef,
}

impl<'r> TxToken<'r> {
    /// Sends one packet of `len` bytes.
    ///
    /// `buffer` is the ring's current buffer. The closure fills it. Perform the actions to
    /// send it.
    pub fn consume<R, F>(self, buffer: &mut [u8; MAX_BUFFER_SIZE], len: usize, f: F) -> (sent: (
        R,
        [Action; 6],
    )) where F: FnOnce(&mut [u8]) -> R
        requires
            self.ring.wf(),
            forall|packet: &mut [u8]|
                (*packet)@ == old(buffer)@.take(clamped(len) as int) ==> call_requires(f, (packet,)),
        ensures
            exists|packet: &mut [u8]|
                {
                    &&& (*packet)@ == old(buffer)@.take(clamped(len) as int)
                    &&& #[trigger] call_ensures(f, (packet,), sent.0)
                    &&& final(buffer)@ == (*final(packet))@ + old(buffer)@.skip(clamped(len) as int)
                },
            sent.1@ == old(self.ring).transmit_actions(clamped(len) as u32),
            *final(self.ring) == old(self.ring).advanced(),
            final(self.ring).wf(),
    {
        // len comes from the caller, which we can't control. Prevent an out-of-bounds
        // access by clamping the size.
        //
        // If a caller tries to send more data, then they aren't respecting the max packet
        // size (MPS) we set in the device capabilities.
        let len = clamped(len);
        // When this returns, the user has updated the buffer with data to transmit.
        let result = fill_packet(buffer, len, f);
        let actions = self.ring.transmit_ring_head(len as u32);
        let sent = (result, actions);
        assert(sent.0 == result);
        sent
    }
}

/// A token for receiving packets.
pub struct RxToken<'r> {
    /// The ring for receiving data.
    pub ring: &'r mut RingRef,
}

impl<'r> RxToken<'r> {
    /// Receives one packet.
    ///
    /// `buffer` is the ring's current buffer, and `status` is the last word of the ring's
    /// current descriptor. The closure sees the bytes that the hardware tells us are
    /// valid. Perform the actions to give the descriptor back.
    pub fn consume<R, F>(self, status: u32, buffer: &[u8; MAX_BUFFER_SIZE], f: F) -> (received: (
        R,
        [Action; 6],
    )) where F: FnOnce(&[u8]) -> R
        requires
            self.ring.wf(),
            packet_length(status) <= MAX_BUFFER_SIZE,
            forall|packet: &[u8]|
                packet@ == buffer@.take(packet_length(status) as int) ==> call_requires(f, (packet,)),
        ensures
            shown(f, buffer@.take(packet_length(status) as int), received.0),
            exists|packet: &[u8]|
                packet@ == buffer@.take((status % 0x8000) as int) && #[trigger] call_ensures(
                    f,
                    (packet,),
                    received.0,
                ),
            received.1@ == old(self.ring).submit_actions(),
            *final(self.ring) == old(self.ring).advanced(),
            final(self.ring).wf(),
    {
        proof {
            descriptor::law_status_word_is_read_bit_by_bit(status);
        }
        let valid_len = packet_length(status);
        let packet = vstd::slice::slice_subrange(buffer, 0, valid_len);
        assert(packet@ =~= buffer@.take(valid_len as int));
        let result = f(packet);
        assert(shown(f, buffer@.take(valid_len as int), result)) by {
            assert(call_ensures(f, (packet,), result));
        }
        // Now that we've read data from this descriptor, we can give it back to the
        // hardware to receive another packet.
        let actions = self.ring.submit_ring_head();
        (result, actions)
    }
}

} // verus!
