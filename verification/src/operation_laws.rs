//! What holds of the operations of a driver that is up.

use crate::action::{self, Action};
use crate::descriptor::{self, clamped, has_error, owner};
use crate::driver::{self, EnetQos, ReceiveNext, ReceiveQuestion, RxQuestion};
use crate::initialize;
use crate::register::{self, Field, Register};
use crate::ring::{Ring, RingRef};
use crate::ring_laws;
use vstd::prelude::*;

verus! {

/// Enabling or disabling the MAC sets both of its enable bits, and changes no other field
/// of any register: speed, duplex and checksumming stay.
pub proof fn law_enable_mac_changes_only_the_enable_bits(
    world: action::World,
    enable: bool,
    field: Field,
)
    ensures
        ({
            let was = world.registers;
            let now = world.after(driver::enable_action(enable)).registers;
            let value: u32 = if enable { 1 } else { 0 };
            &&& register::field_in(now, Field::Te) == value
            &&& register::field_in(now, Field::Re) == value
            &&& field != Field::Te && field != Field::Re ==> register::field_in(now, field)
                == register::field_in(was, field)
        }),
{
    let was = world.registers[Register::MacConfiguration];
    let fields = driver::enable_fields(enable);
    register::lemma_max_values();
    register::law_modify_assigns(was, fields, 0);
    register::law_modify_assigns(was, fields, 1);
    if field != Field::Te && field != Field::Re && field.layout().register
        == Register::MacConfiguration {
        register::law_modify_keeps_other_fields(was, fields, field);
    }
}

/// Disabling the MAC undoes enabling it.
pub proof fn law_disable_undoes_enable(world: action::World)
    requires
        register::field_in(world.registers, Field::Te) == 0,
        register::field_in(world.registers, Field::Re) == 0,
    ensures
        world.after(driver::enable_action(true)).after(
            driver::enable_action(false),
        ).registers[Register::MacConfiguration] == world.registers[Register::MacConfiguration],
{
    let was = world.registers[Register::MacConfiguration];
    reveal_with_fuel(register::mask_of, 3);
    reveal_with_fuel(register::bits_of, 3);
    let (on, off) = (driver::enable_fields(true), driver::enable_fields(false));
    assert(on.drop_last() =~= seq![(Field::Te, 1u32)]);
    assert(off.drop_last() =~= seq![(Field::Te, 0u32)]);
    assert(on.drop_last().drop_last() =~= Seq::empty());
    assert(off.drop_last().drop_last() =~= Seq::empty());
    let (te, re) = (Field::Te.mask(), Field::Re.mask());
    let (mask_on, mask_off) = (register::mask_of(on), register::mask_of(off));
    let (bits_on, bits_off) = (register::bits_of(on), register::bits_of(off));
    assert((((was & !mask_on) | bits_on) & !mask_off) | bits_off == was) by (bit_vector)
        requires
            te == (((1u32 << 1) - 1) as u32) << 1,
            re == (((1u32 << 1) - 1) as u32) << 0,
            (was & te) >> 1 == 0,
            (was & re) >> 0 == 0,
            mask_on == (0u32 | te) | re,
            mask_off == (0u32 | te) | re,
            bits_on == (0u32 | ((1u32 << 1) & te)) | ((1u32 << 0) & re),
            bits_off == (0u32 | ((0u32 << 1) & te)) | ((0u32 << 0) & re),
    ;
}

/// The registers after an MDIO command was given and started.
proof fn lemma_mdio_command(was: u32, phy: u8, reg: u8, goc_1: u32)
    requires
        goc_1 <= 1,
    ensures
        ({
            let commanded = register::changed(was, driver::mdio_command(phy, reg, goc_1));
            let now = register::changed(commanded, seq![(Field::Gb, 1u32)]);
            &&& Field::Pa.extract(now) == phy as u32 & 31
            &&& Field::Rda.extract(now) == reg as u32 & 31
            &&& Field::Goc1.extract(now) == goc_1
            &&& Field::Goc0.extract(now) == 1
            &&& Field::Gb.extract(now) == 1
            &&& Field::Cr.extract(now) == Field::Cr.extract(was)
        }),
{
    let command = driver::mdio_command(phy, reg, goc_1);
    let commanded = register::changed(was, command);
    let start = seq![(Field::Gb, 1u32)];
    register::lemma_max_values();
    register::law_modify_assigns(was, command, 0);
    register::law_modify_assigns(was, command, 1);
    register::law_modify_assigns(was, command, 2);
    register::law_modify_assigns(was, command, 3);
    register::law_modify_keeps_other_fields(was, command, Field::Cr);
    register::law_modify_assigns(commanded, start, 0);
    register::law_modify_keeps_other_fields(commanded, start, Field::Pa);
    register::law_modify_keeps_other_fields(commanded, start, Field::Rda);
    register::law_modify_keeps_other_fields(commanded, start, Field::Goc1);
    register::law_modify_keeps_other_fields(commanded, start, Field::Goc0);
    register::law_modify_keeps_other_fields(commanded, start, Field::Cr);
}

/// An MDIO write addresses the PHY and its register (five bits of either), carries the
/// data, starts the transaction, and keeps the clock range.
pub proof fn law_mdio_write_starts_a_write(world: action::World, phy: u8, reg: u8, data: u16)
    ensures
        ({
            let was = world.registers;
            let now = world.after_all(driver::mdio_write_actions(phy, reg, data)).registers;
            &&& register::field_in(now, Field::Pa) == phy as u32 & 31
            &&& register::field_in(now, Field::Rda) == reg as u32 & 31
            &&& register::field_in(now, Field::Goc1) == 0
            &&& register::field_in(now, Field::Goc0) == 1
            &&& register::field_in(now, Field::Gb) == 1
            &&& register::field_in(now, Field::Cr) == register::field_in(was, Field::Cr)
            &&& register::field_in(now, Field::Gd) == data
            &&& forall|r: Register|
                r != Register::MacMdioAddress && r != Register::MacMdioData ==> #[trigger] now[r]
                    == was[r]
        }),
{
    reveal_with_fuel(action::World::after_all, 5);
    let actions = driver::mdio_write_actions(phy, reg, data);
    assert(actions =~= seq![
        action::modify_fields(Register::MacMdioAddress, driver::mdio_command(phy, reg, 0)),
        Action::Write { register: Register::MacMdioData, value: data as u32 },
        action::modify_fields(Register::MacMdioAddress, seq![(Field::Gb, 1u32)]),
        Action::Poll { register: Register::MacMdioAddress, mask: Field::Gb.mask() },
    ]);
    lemma_mdio_command(world.registers[Register::MacMdioAddress], phy, reg, 0);
    law_mdio_data_is_whole(data);
}

/// An MDIO read addresses the PHY and its register (five bits of either), starts the
/// transaction, and keeps the clock range.
pub proof fn law_mdio_read_starts_a_read(world: action::World, phy: u8, reg: u8)
    ensures
        ({
            let was = world.registers;
            let now = world.after_all(driver::mdio_read_actions(phy, reg)).registers;
            &&& register::field_in(now, Field::Pa) == phy as u32 & 31
            &&& register::field_in(now, Field::Rda) == reg as u32 & 31
            &&& register::field_in(now, Field::Goc1) == 1
            &&& register::field_in(now, Field::Goc0) == 1
            &&& register::field_in(now, Field::Gb) == 1
            &&& register::field_in(now, Field::Cr) == register::field_in(was, Field::Cr)
            &&& forall|r: Register|
                r != Register::MacMdioAddress ==> #[trigger] now[r] == was[r]
        }),
{
    reveal_with_fuel(action::World::after_all, 5);
    let actions = driver::mdio_read_actions(phy, reg);
    assert(actions =~= seq![
        action::modify_fields(Register::MacMdioAddress, driver::mdio_command(phy, reg, 1)),
        action::modify_fields(Register::MacMdioAddress, seq![(Field::Gb, 1u32)]),
        Action::Poll { register: Register::MacMdioAddress, mask: Field::Gb.mask() },
        Action::Fetch { register: Register::MacMdioData },
    ]);
    lemma_mdio_command(world.registers[Register::MacMdioAddress], phy, reg, 1);
}

/// The command of an MDIO transaction, before it is started: the PHY, its register and the
/// operation are there, and every other bit is as it was.
proof fn lemma_mdio_commanded(was: u32, phy: u8, reg: u8, goc_1: u32)
    requires
        goc_1 <= 1,
    ensures
        ({
            let commanded = register::changed(was, driver::mdio_command(phy, reg, goc_1));
            &&& Field::Pa.extract(commanded) == phy % 32
            &&& Field::Rda.extract(commanded) == reg % 32
            &&& Field::Goc1.extract(commanded) == goc_1
            &&& Field::Goc0.extract(commanded) == 1
            &&& commanded & !0x03ff_000c == was & !0x03ff_000c
            &&& commanded % 2 == was % 2
            &&& register::changed(commanded, seq![(Field::Gb, 1u32)]) == commanded | 1
        }),
{
    let command = driver::mdio_command(phy, reg, goc_1);
    let commanded = register::changed(was, command);
    register::lemma_max_values();
    register::law_modify_assigns(was, command, 0);
    register::law_modify_assigns(was, command, 1);
    register::law_modify_assigns(was, command, 2);
    register::law_modify_assigns(was, command, 3);
    register::law_modify_keeps_other_bits(was, command);
    reveal_with_fuel(register::mask_of, 5);
    reveal_with_fuel(register::bits_of, 2);
    lemma_mdio_numbers(phy as u32, reg as u32, was, commanded);
}

proof fn lemma_mdio_numbers(phy: u32, reg: u32, was: u32, commanded: u32)
    by (bit_vector)
    ensures
        phy & 31 == phy % 32,
        reg & 31 == reg % 32,
        (((0u32 | register::field_mask(21, 5)) | register::field_mask(16, 5))
            | register::field_mask(3, 1)) | register::field_mask(2, 1) == 0x03ff_000cu32,
        commanded & !0x03ff_000cu32 == was & !0x03ff_000cu32 ==> commanded % 2 == was % 2,
        (commanded & !(0u32 | register::field_mask(0, 1))) | (0u32 | ((1u32 << 0u32)
            & register::field_mask(0, 1))) == commanded | 1u32,
{
}

/// The transaction starts with the access at `at`, with everything in place: the command is
/// there and the data, nothing was started before, and nothing is written afterwards.
pub open spec fn mdio_write_starts_at(
    world: action::World,
    phy: u8,
    reg: u8,
    data: u16,
    trace: Seq<(action::Access, u32)>,
    at: int,
) -> bool {
    let was = world.registers;
    let then = world.after_trace(trace.take(at)).registers;
    let command = then[Register::MacMdioAddress];
    &&& 0 <= at < trace.len()
    &&& trace[at].0 == (action::Access::Write {
        register: Register::MacMdioAddress,
        value: command | 1,
    })
    &&& then[Register::MacMdioData] == data
    &&& Field::Pa.extract(command) == phy % 32
    &&& Field::Rda.extract(command) == reg % 32
    &&& Field::Goc1.extract(command) == 0
    &&& Field::Goc0.extract(command) == 1
    &&& command & !0x03ff_000c == was[Register::MacMdioAddress] & !0x03ff_000c
    &&& forall|r: Register|
        r != Register::MacMdioAddress && r != Register::MacMdioData
            ==> #[trigger] then[r] == was[r]
    &&& forall|i: int|
        0 <= i < at ==> ((#[trigger] trace[i]).0 matches action::Access::Write {
            register,
            value,
        } ==> {
            ||| register == Register::MacMdioAddress && value % 2 == was[Register::MacMdioAddress]
                % 2
            ||| register == Register::MacMdioData && value == data
        })
    &&& forall|i: int|
        at < i < trace.len() ==> (#[trigger] trace[i]).0 == (action::Access::Read {
            register: Register::MacMdioAddress,
        })
}

/// When an MDIO write starts, everything is in place: at the one access that sets the busy
/// bit, the data register holds the data, and the address register holds the PHY, the
/// register and the write command. Before that access the busy bit is as it was; after it,
/// nothing is written; and nothing else was changed on the way.
pub proof fn law_mdio_write_is_complete_when_it_starts(
    world: action::World,
    phy: u8,
    reg: u8,
    data: u16,
    trace: Seq<(action::Access, u32)>,
)
    requires
        action::performs(driver::mdio_write_actions(phy, reg, data), trace),
        action::modifies_what_it_left(world, driver::mdio_write_actions(phy, reg, data), trace),
    ensures
        exists|at: int| #[trigger] mdio_write_starts_at(world, phy, reg, data, trace, at),
{
    let actions = driver::mdio_write_actions(phy, reg, data);
    let poll = Action::Poll { register: Register::MacMdioAddress, mask: Field::Gb.mask() };
    let was = world.registers[Register::MacMdioAddress];
    let commanded = register::changed(was, driver::mdio_command(phy, reg, 0));
    lemma_mdio_commanded(was, phy, reg, 0);
    let (set, put, go) = (actions[0], actions[1], actions[2]);
    let (mask, bits) = (set->Modify_mask, set->Modify_bits);
    let (go_mask, go_bits) = (go->Modify_mask, go->Modify_bits);
    let address = Register::MacMdioAddress;
    let w1 = world.after(set);
    let w2 = w1.after(put);
    let (a1, t1) = (actions.skip(1), trace.skip(2));
    action::lemma_modify_comes_first(actions, trace, world, address, mask, bits);
    let (a2, t2) = (a1.skip(1), t1.skip(1));
    assert(a1[0] == put && a2[0] == go);
    action::lemma_write_comes_first(a1, t1, w1, Register::MacMdioData, data as u32);
    action::lemma_modify_comes_first(a2, t2, w2, address, go_mask, go_bits);
    let t3 = t2.skip(2);
    assert(a2.skip(1) =~= seq![poll]);
    action::law_poll_ends_with_clear_bits(address, Field::Gb.mask(), t3);
    assert(t1[0] == trace[2] && t2[0] == trace[3] && t2[1] == trace[4]);
    assert(trace.take(4) =~= trace.take(2) + t1.take(1) + t2.take(1));
    action::law_effects_add_up(world, trace.take(2) + t1.take(1), t2.take(1));
    action::law_effects_add_up(world, trace.take(2), t1.take(1));
    assert(world.after_trace(trace.take(4)) == w2);
    assert forall|i: int| 4 < i < trace.len() implies (#[trigger] trace[i]).0 == (
    action::Access::Read { register: Register::MacMdioAddress }) by {
        assert(t3[i - 5] == trace[i]);
    }
    assert(w2.registers[address] == commanded);
    assert(trace[4].0 == (action::Access::Write {
        register: Register::MacMdioAddress,
        value: commanded | 1,
    }));
    assert(mdio_write_starts_at(world, phy, reg, data, trace, 4));
}

proof fn lemma_one_fetch(trace: Seq<(action::Access, u32)>)
    requires
        action::performs(seq![Action::Fetch { register: Register::MacMdioData }], trace),
    ensures
        trace.len() == 1,
        trace[0].0 == (action::Access::Read { register: Register::MacMdioData }),
{
    reveal_with_fuel(action::performs, 2);
    assert(seq![Action::Fetch { register: Register::MacMdioData }].skip(1).len() == 0);
    assert(trace.skip(1).len() == 0);
}

/// The transaction starts with the access at `at`, with everything in place: the command is
/// there, nothing was started before, and nothing is written afterwards.
pub open spec fn mdio_read_starts_at(
    world: action::World,
    phy: u8,
    reg: u8,
    trace: Seq<(action::Access, u32)>,
    at: int,
) -> bool {
    let was = world.registers;
    let then = world.after_trace(trace.take(at)).registers;
    let command = then[Register::MacMdioAddress];
    &&& 0 <= at < trace.len()
    &&& trace[at].0 == (action::Access::Write {
        register: Register::MacMdioAddress,
        value: command | 1,
    })
    &&& Field::Pa.extract(command) == phy % 32
    &&& Field::Rda.extract(command) == reg % 32
    &&& Field::Goc1.extract(command) == 1
    &&& Field::Goc0.extract(command) == 1
    &&& command & !0x03ff_000c == was[Register::MacMdioAddress] & !0x03ff_000c
    &&& forall|r: Register|
        r != Register::MacMdioAddress ==> #[trigger] then[r] == was[r]
    &&& forall|i: int|
        0 <= i < at ==> ((#[trigger] trace[i]).0 matches action::Access::Write {
            register,
            value,
        } ==> register == Register::MacMdioAddress && value % 2
            == was[Register::MacMdioAddress] % 2)
    &&& forall|i: int|
        at < i < trace.len() ==> (#[trigger] trace[i]).0 == (action::Access::Read {
            register: if i < trace.len() - 1 {
                Register::MacMdioAddress
            } else {
                Register::MacMdioData
            },
        })
}

/// When an MDIO read starts, everything is in place: at the one access that sets the busy
/// bit, the address register holds the PHY, the register and the read command. Before that
/// access the busy bit is as it was; after it, nothing is written; and nothing else was
/// changed on the way.
pub proof fn law_mdio_read_is_complete_when_it_starts(
    world: action::World,
    phy: u8,
    reg: u8,
    trace: Seq<(action::Access, u32)>,
)
    requires
        action::performs(driver::mdio_read_actions(phy, reg), trace),
        action::modifies_what_it_left(world, driver::mdio_read_actions(phy, reg), trace),
    ensures
        exists|at: int| #[trigger] mdio_read_starts_at(world, phy, reg, trace, at),
{
    let actions = driver::mdio_read_actions(phy, reg);
    let poll = Action::Poll { register: Register::MacMdioAddress, mask: Field::Gb.mask() };
    let fetch = Action::Fetch { register: Register::MacMdioData };
    let was = world.registers[Register::MacMdioAddress];
    let commanded = register::changed(was, driver::mdio_command(phy, reg, 1));
    lemma_mdio_commanded(was, phy, reg, 1);
    let (set, go) = (actions[0], actions[1]);
    let (mask, bits) = (set->Modify_mask, set->Modify_bits);
    let (go_mask, go_bits) = (go->Modify_mask, go->Modify_bits);
    let address = Register::MacMdioAddress;
    let w1 = world.after(set);
    let (a1, t1) = (actions.skip(1), trace.skip(2));
    action::lemma_modify_comes_first(actions, trace, world, address, mask, bits);
    assert(a1[0] == go);
    action::lemma_modify_comes_first(a1, t1, w1, address, go_mask, go_bits);
    let t2 = t1.skip(2);
    assert(t1[0] == trace[2] && t1[1] == trace[3]);
    assert(a1.skip(1) =~= seq![poll] + seq![fetch]);
    action::law_traces_split(seq![poll], seq![fetch], t2);
    let k = choose|k: int|
        0 <= k <= t2.len() && #[trigger] action::performs(seq![poll], t2.take(k))
            && action::performs(seq![fetch], t2.skip(k));
    action::law_poll_ends_with_clear_bits(address, Field::Gb.mask(), t2.take(k));
    lemma_one_fetch(t2.skip(k));
    assert(trace.take(3) =~= trace.take(2) + t1.take(1));
    action::law_effects_add_up(world, trace.take(2), t1.take(1));
    assert(world.after_trace(trace.take(3)) == w1);
    assert(w1.registers[address] == commanded);
    assert forall|i: int| 3 < i < trace.len() implies (#[trigger] trace[i]).0 == (
    action::Access::Read {
        register: if i < trace.len() - 1 {
            Register::MacMdioAddress
        } else {
            Register::MacMdioData
        },
    }) by {
        assert(t2[i - 4] == trace[i]);
        if i < trace.len() - 1 {
            assert(t2.take(k)[i - 4] == t2[i - 4]);
        } else {
            assert(t2.skip(k)[0] == t2[k]);
        }
    }
    assert(trace[3].0 == (action::Access::Write {
        register: Register::MacMdioAddress,
        value: commanded | 1,
    }));
    assert(mdio_read_starts_at(world, phy, reg, trace, 3));
}

/// The steps of both MDIO transactions. The command has the PHY from bit 21 up, its register
/// from bit 16 up, and the operation in bits 2 and 3; only then is bit 0 set; and it is polled
/// until it is clear. A write puts its data in place before the start. A read fetches its data
/// at the end.
pub proof fn law_mdio_goes_step_by_step(phy: u8, reg: u8, data: u16)
    ensures
        ({
            let command = 0x20_0000 * (phy % 32) + 0x1_0000 * (reg % 32) + 4;
            let go = Action::Modify { register: Register::MacMdioAddress, mask: 1, bits: 1 };
            let poll = Action::Poll { register: Register::MacMdioAddress, mask: 1 };
            &&& driver::mdio_write_actions(phy, reg, data) =~= seq![
                Action::Modify {
                    register: Register::MacMdioAddress,
                    mask: 0x03ff_000c,
                    bits: command as u32,
                },
                Action::Write { register: Register::MacMdioData, value: data as u32 },
                go,
                poll,
            ]
            &&& driver::mdio_read_actions(phy, reg) =~= seq![
                Action::Modify {
                    register: Register::MacMdioAddress,
                    mask: 0x03ff_000c,
                    bits: (command + 8) as u32,
                },
                go,
                poll,
                Action::Fetch { register: Register::MacMdioData },
            ]
        }),
{
    reveal_with_fuel(register::mask_of, 5);
    reveal_with_fuel(register::bits_of, 5);
    lemma_mdio_command_numbers(phy as u32, reg as u32);
    lemma_mdio_numbers(0, 0, 0, 0);
}

proof fn lemma_mdio_command_numbers(phy: u32, reg: u32)
    by (bit_vector)
    ensures
        register::field_mask(0, 1) == 1u32,
        0u32 | register::field_mask(0, 1) == 1u32,
        0u32 | ((1u32 << 0u32) & register::field_mask(0, 1)) == 1u32,
        (((0u32 | ((phy << 21u32) & register::field_mask(21, 5))) | ((reg << 16u32)
            & register::field_mask(16, 5))) | ((0u32 << 3u32) & register::field_mask(3, 1))) | ((
        1u32 << 2u32) & register::field_mask(2, 1)) == 0x20_0000 * (phy % 32) + 0x1_0000 * (reg
            % 32) + 4,
        (((0u32 | ((phy << 21u32) & register::field_mask(21, 5))) | ((reg << 16u32)
            & register::field_mask(16, 5))) | ((1u32 << 3u32) & register::field_mask(3, 1))) | ((
        1u32 << 2u32) & register::field_mask(2, 1)) == 0x20_0000 * (phy % 32) + 0x1_0000 * (reg
            % 32) + 12,
{
}

/// Enabling the MAC sets the lowest two bits of its configuration, and disabling it clears
/// them. Every other bit, and every other register, stays.
pub proof fn law_enable_mac_sets_two_bits(world: action::World, enable: bool)
    ensures
        ({
            let was = world.registers;
            let now = world.after(driver::enable_action(enable)).registers;
            let configuration = was[Register::MacConfiguration];
            &&& enable ==> now[Register::MacConfiguration] == configuration | 3
            &&& !enable ==> now[Register::MacConfiguration] == configuration & !3
            &&& forall|r: Register|
                r != Register::MacConfiguration ==> #[trigger] now[r] == was[r]
            &&& world.after(driver::enable_action(enable)).memory == world.memory
        }),
{
    reveal_with_fuel(register::mask_of, 3);
    reveal_with_fuel(register::bits_of, 3);
    lemma_enable_numbers(world.registers[Register::MacConfiguration]);
}

proof fn lemma_enable_numbers(was: u32)
    by (bit_vector)
    ensures
        (was & !((0u32 | register::field_mask(1, 1)) | register::field_mask(0, 1))) | ((0u32 | ((
        1u32 << 1u32) & register::field_mask(1, 1))) | ((1u32 << 0u32) & register::field_mask(0, 1)))
            == was | 3u32,
        (was & !((0u32 | register::field_mask(1, 1)) | register::field_mask(0, 1))) | ((0u32 | ((
        0u32 << 1u32) & register::field_mask(1, 1))) | ((0u32 << 0u32) & register::field_mask(0, 1)))
            == was & !3u32,
{
}

/// How the words that were loaded decide on the way to a packet, whatever else they say.
///
/// While discarding, software goes on with a descriptor below bit 31, gives it back if bit 15
/// is set, and turns to the packet otherwise. There is a packet if its word has bit 31 clear,
/// and space for a reply if the word of the transmit descriptor has. Both words come out as
/// they were loaded, and only discarding moves a ring.
pub proof fn law_receiving_goes_by_the_status_words(driver: EnetQos, status: u32, rx_status: u32)
    ensures
        ({
            let software = status < 0x8000_0000;
            let error = (status / 0x8000) % 2 == 1;
            let nothing = Seq::<Action>::empty();
            let discard = ReceiveNext::Ask(ReceiveQuestion::Discard(RxQuestion::Owner));
            let inspect = ReceiveNext::Ask(ReceiveQuestion::Discard(RxQuestion::Error));
            let packet = ReceiveNext::Ask(ReceiveQuestion::Packet);
            let space = ReceiveNext::Ask(ReceiveQuestion::Space { rx_status: status });
            let ready = ReceiveNext::Ready { rx_status, tx_status: status };
            let moved = EnetQos { rx_ring: driver.rx_ring.advanced(), ..driver };
            &&& driver::receive_outcome(
                driver,
                ReceiveQuestion::Discard(RxQuestion::Owner),
                status,
            ) == (driver, if software { inspect } else { packet }, nothing)
            &&& driver::receive_outcome(
                driver,
                ReceiveQuestion::Discard(RxQuestion::Error),
                status,
            ) == if error {
                (moved, discard, driver.rx_ring.submit_actions())
            } else {
                (driver, packet, nothing)
            }
            &&& driver::receive_outcome(driver, ReceiveQuestion::Packet, status) == (
                driver,
                if software { space } else { ReceiveNext::Nothing },
                nothing,
            )
            &&& driver::receive_outcome(driver, ReceiveQuestion::Space { rx_status }, status) == (
                driver,
                if software { ready } else { ReceiveNext::Nothing },
                nothing,
            )
        }),
{
    descriptor::law_status_word_is_read_bit_by_bit(status);
}

/// An MDIO write is over only once the MAC has completed it: the last access finds the
/// bus idle.
pub proof fn law_mdio_write_waits_for_completion(
    phy: u8,
    reg: u8,
    data: u16,
    trace: Seq<(action::Access, u32)>,
)
    requires
        action::performs(driver::mdio_write_actions(phy, reg, data), trace),
    ensures
        trace.len() > 0,
        trace.last().0 == (action::Access::Read { register: Register::MacMdioAddress }),
        Field::Gb.extract(trace.last().1) == 0,
{
    let actions = driver::mdio_write_actions(phy, reg, data);
    let poll = Action::Poll { register: Register::MacMdioAddress, mask: Field::Gb.mask() };
    let before = actions.drop_last();
    assert(actions =~= before + seq![poll]);
    action::law_traces_split(before, seq![poll], trace);
    let k = choose|k: int|
        0 <= k <= trace.len() && #[trigger] action::performs(before, trace.take(k))
            && action::performs(seq![poll], trace.skip(k));
    action::law_poll_ends_with_clear_bits(
        Register::MacMdioAddress,
        Field::Gb.mask(),
        trace.skip(k),
    );
    assert(trace.last() == trace.skip(k).last());
    assert(trace.skip(k)[trace.skip(k).len() - 1].0 == action::Access::Read {
        register: Register::MacMdioAddress,
    });
    lemma_idle(trace.last().1);
}

/// An MDIO read fetches the data last, and only once the access before found the bus idle.
pub proof fn law_mdio_read_fetches_after_completion(
    phy: u8,
    reg: u8,
    trace: Seq<(action::Access, u32)>,
)
    requires
        action::performs(driver::mdio_read_actions(phy, reg), trace),
    ensures
        trace.len() > 1,
        trace.last().0 == (action::Access::Read { register: Register::MacMdioData }),
        trace[trace.len() - 2].0 == (action::Access::Read { register: Register::MacMdioAddress }),
        Field::Gb.extract(trace[trace.len() - 2].1) == 0,
{
    let actions = driver::mdio_read_actions(phy, reg);
    let poll = Action::Poll { register: Register::MacMdioAddress, mask: Field::Gb.mask() };
    let fetch = Action::Fetch { register: Register::MacMdioData };
    let before = actions.take(2);
    assert(actions =~= before + seq![poll] + seq![fetch]);
    action::law_traces_split(before + seq![poll], seq![fetch], trace);
    let end = choose|k: int|
        0 <= k <= trace.len() && #[trigger] action::performs(before + seq![poll], trace.take(k))
            && action::performs(seq![fetch], trace.skip(k));
    let polled = trace.take(end);
    action::law_traces_split(before, seq![poll], polled);
    let k = choose|k: int|
        0 <= k <= polled.len() && #[trigger] action::performs(before, polled.take(k))
            && action::performs(seq![poll], polled.skip(k));
    action::law_poll_ends_with_clear_bits(
        Register::MacMdioAddress,
        Field::Gb.mask(),
        polled.skip(k),
    );
    assert(polled.skip(k)[polled.skip(k).len() - 1] == trace[end - 1]);
    reveal_with_fuel(action::performs, 2);
    assert(seq![fetch].skip(1) =~= Seq::empty());
    assert(trace.skip(end).len() == 1);
    assert(trace.skip(end)[0] == trace[end]);
    lemma_idle(trace[end - 1].1);
}

proof fn lemma_idle(value: u32)
    ensures
        value & Field::Gb.mask() == 0 ==> Field::Gb.extract(value) == 0,
        value & Field::Swr.mask() == 0 ==> Field::Swr.extract(value) == 0,
{
    assert(0u32 >> 0u32 == 0) by (bit_vector);
}

/// A reset is waited for: only after a read finds it complete is anything written, and that
/// is where the receive ring lies, and how long it is.
pub proof fn law_reset_is_waited_for(rx_ring: RingRef, trace: Seq<(action::Access, u32)>)
    requires
        action::performs(initialize::reset_actions(rx_ring), trace),
    ensures
        ({
            let n = trace.len();
            &&& n >= 4
            &&& trace[0].0 == (action::Access::Write { register: Register::DmaMode, value: 1 })
            &&& forall|i: int|
                1 <= i < n - 2 ==> (#[trigger] trace[i]).0 == (action::Access::Read {
                    register: Register::DmaMode,
                })
            &&& Field::Swr.extract(trace[n - 3].1) == 0
            &&& trace[n - 2].0 == (action::Access::Write {
                register: Register::DmaCh0RxdescListAddress,
                value: rx_ring.placement.descriptors,
            })
            &&& trace[n - 1].0 == (action::Access::Write {
                register: Register::DmaCh0RxdescRingLength,
                value: (rx_ring.len - 1) as u32,
            })
            &&& action::performs(initialize::receive_extent_actions(rx_ring), trace.skip(n - 2))
        }),
{
    let actions = initialize::reset_actions(rx_ring);
    let poll = Action::Poll { register: Register::DmaMode, mask: Field::Swr.mask() };
    let rest = actions.skip(1);
    let writes = actions.skip(2);
    reveal_with_fuel(action::performs, 4);
    assert(bits_of_reset() == 1) by {
        lemma_reset_bits();
    }
    let later = trace.skip(1);
    assert(rest =~= seq![poll] + writes);
    assert(action::performs(rest, later));
    action::law_traces_split(seq![poll], writes, later);
    let k = choose|k: int|
        0 <= k <= later.len() && #[trigger] action::performs(seq![poll], later.take(k))
            && action::performs(writes, later.skip(k));
    action::law_poll_ends_with_clear_bits(Register::DmaMode, Field::Swr.mask(), later.take(k));
    let tail = later.skip(k);
    assert(writes.skip(1).skip(1) =~= Seq::empty());
    assert(tail.skip(1).skip(1).len() == 0);
    assert(tail.len() == 2);
    assert(writes =~= initialize::receive_extent_actions(rx_ring));
    assert(trace.skip(trace.len() - 2) =~= tail);
    assert(tail[0] == trace[k + 1]);
    assert(tail[1] == trace[k + 2]);
    assert(tail.skip(1)[0] == tail[1]);
    assert forall|i: int| 1 <= i < trace.len() - 2 implies (#[trigger] trace[i]).0 == (
    action::Access::Read { register: Register::DmaMode }) by {
        assert(later.take(k)[i - 1] == trace[i]);
    }
    assert(later.take(k).last() == trace[k]);
    lemma_idle(trace[k].1);
}

spec fn bits_of_reset() -> u32 {
    register::bits_of(seq![(Field::Swr, 1u32)])
}

proof fn lemma_reset_bits()
    ensures
        bits_of_reset() == 1,
{
    reveal_with_fuel(register::bits_of, 2);
    assert(seq![(Field::Swr, 1u32)].drop_last() =~= Seq::empty());
    assert(0u32 | ((1u32 << 0) & ((((1u32 << 1) - 1) as u32) << 0)) == 1) by (bit_vector);
}

/// All sixteen bits of MDIO data pass through the data register.
pub proof fn law_mdio_data_is_whole(data: u16)
    ensures
        Field::Gd.extract(data as u32) == data,
{
    assert(((data as u32) & ((((1u32 << 16) - 1) as u32) << 0)) >> 0 == data as u32) by (bit_vector);
}

/// A poll goes on exactly while its field reads as one. The fields that are waited for have
/// one bit.
pub proof fn law_poll_waits_while_the_field_is_one(value: u32)
    ensures
        value & Field::Swr.mask() != 0 <==> Field::Swr.extract(value) == 1,
        value & Field::Gb.mask() != 0 <==> Field::Gb.extract(value) == 1,
{
    assert(value & ((((1u32 << 1) - 1) as u32) << 0) != 0 <==> (value & ((((1u32 << 1) - 1) as u32)
        << 0)) >> 0 == 1) by (bit_vector);
}

/// The two address registers hold every byte of the MAC address, and nothing else.
pub proof fn law_mac_address_registers_hold_the_address(mac_address: Seq<u8>)
    requires
        mac_address.len() == 6,
    ensures
        ({
            let low = initialize::mac_address_low(mac_address);
            let high = initialize::mac_address_high(mac_address);
            &&& low & 0xff == mac_address[0]
            &&& (low >> 8) & 0xff == mac_address[1]
            &&& (low >> 16) & 0xff == mac_address[2]
            &&& low >> 24 == mac_address[3]
            &&& high & 0xff == mac_address[4]
            &&& high >> 8 == mac_address[5]
        }),
{
    let (a, b, c) = (mac_address[0], mac_address[1], mac_address[2]);
    let (d, e, f) = (mac_address[3], mac_address[4], mac_address[5]);
    let low = initialize::mac_address_low(mac_address);
    let high = initialize::mac_address_high(mac_address);
    assert(low & 0xff == a as u32 && (low >> 8) & 0xff == b as u32 && (low >> 16) & 0xff == c as u32
        && low >> 24 == d as u32) by (bit_vector)
        requires
            low == ((d as u32) << 24) | ((c as u32) << 16) | ((b as u32) << 8) | a as u32,
    ;
    assert(high & 0xff == e as u32 && high >> 8 == f as u32) by (bit_vector)
        requires
            high == ((f as u32) << 8) | e as u32,
    ;
}

/// Different MAC addresses give different register contents.
pub proof fn law_mac_address_registers_are_distinct(a: Seq<u8>, b: Seq<u8>)
    requires
        a.len() == 6,
        b.len() == 6,
        initialize::mac_address_low(a) == initialize::mac_address_low(b),
        initialize::mac_address_high(a) == initialize::mac_address_high(b),
    ensures
        a == b,
{
    law_mac_address_registers_hold_the_address(a);
    law_mac_address_registers_hold_the_address(b);
    assert(a =~= b);
}

/// A packet that respects the advertised size is sent whole, and its length fits both
/// length fields of the descriptor.
pub proof fn law_packets_within_the_limit_are_sent_whole(len: usize, buffer: u32)
    requires
        len <= driver::MAX_TRANSMISSION_UNIT,
    ensures
        clamped(len) == len,
        descriptor::transmit_format(buffer, clamped(len) as u32)[2] == len,
        descriptor::transmit_format(buffer, clamped(len) as u32)[3]
            & descriptor::TDESC3_FRAME_LENGTH_MASK == len,
{
    descriptor::law_transmit_length_fits(buffer, len as u32);
}

/// The memory holds the descriptors of `ring`.
pub open spec fn holds<const N: usize>(memory: Map<u32, u32>, at: RingRef, ring: Ring<N>) -> bool {
    forall|i: int|
        0 <= i < N ==> #[trigger] ring_laws::words_at(memory, at, i) == ring.descriptors.list@[i]@
}

/// Every descriptor of a new ring belongs to software.
pub proof fn law_new_ring_belongs_to_software<const N: usize>(
    memory: Map<u32, u32>,
    at: RingRef,
    ring: Ring<N>,
)
    requires
        at.len == N,
        ring.is_zero(),
        holds(memory, at, ring),
    ensures
        ring_laws::software_owns_all(at, memory),
{
    descriptor::law_zero_descriptor_belongs_to_software();
    assert forall|i: int| 0 <= i < at.len implies owner(
        #[trigger] ring_laws::words_at(memory, at, i)[3],
    ) is Software by {
        assert(ring.descriptors.list@[i]@[3] == 0);
    }
}

/// However far software comes in either ring, the rings stay where they are, well formed and
/// apart.
pub proof fn law_rings_stay_apart(driver: EnetQos, sent: nat, received: nat)
    requires
        driver.wf(),
    ensures
        (EnetQos {
            tx_ring: ring_laws::advanced_by(driver.tx_ring, sent),
            rx_ring: ring_laws::advanced_by(driver.rx_ring, received),
        }).wf(),
{
    ring_laws::law_start_address_stays(driver.tx_ring, sent, 0);
    ring_laws::law_start_address_stays(driver.rx_ring, received, 0);
}

/// After `rounds` receive descriptors were discarded, the current one is discarded too:
/// software owns it, and it reports an error.
pub open spec fn discards_after(ring: RingRef, world: action::World, rounds: nat) -> bool {
    let (after, left) = ring_laws::after_submits(ring, world, rounds);
    let status = ring_laws::status_in(after, left.memory);
    owner(status) is Software && has_error(status)
}

/// `rounds` receive descriptors are discarded, and then no more.
pub open spec fn discards_exactly(ring: RingRef, world: action::World, rounds: nat) -> bool {
    &&& !discards_after(ring, world, rounds)
    &&& forall|j: nat| j < rounds ==> #[trigger] discards_after(ring, world, j)
}

proof fn lemma_first_kept(ring: RingRef, world: action::World, from: nat)
    requires
        from <= ring.len,
        !discards_after(ring, world, ring.len as nat),
        forall|j: nat| j < from ==> #[trigger] discards_after(ring, world, j),
    ensures
        exists|k: nat| k <= ring.len && #[trigger] discards_exactly(ring, world, k),
    decreases ring.len - from,
{
    if discards_after(ring, world, from) {
        lemma_first_kept(ring, world, from + 1);
    } else {
        assert(discards_exactly(ring, world, from));
    }
}

/// While hardware adds nothing, a driver discards at most every receive descriptor. It
/// stops at the first that hardware owns, or that reports no error.
pub proof fn law_discarding_ends(ring: RingRef, world: action::World)
    requires
        ring.wf(),
    ensures
        exists|k: nat| k <= ring.len && #[trigger] discards_exactly(ring, world, k),
{
    ring_laws::law_submits_run_out(ring, world);
    lemma_first_kept(ring, world, 0);
}

/// The driver and the world after `rounds` receive descriptors were discarded.
pub open spec fn after_discards(driver: EnetQos, world: action::World, rounds: nat) -> (
    EnetQos,
    action::World,
) {
    let (rx_ring, left) = ring_laws::after_submits(driver.rx_ring, world, rounds);
    (EnetQos { rx_ring, ..driver }, left)
}

/// While hardware adds nothing, asking who owns the descriptor and then, if software does,
/// whether it reports an error, resubmits the descriptor exactly if it is to be discarded.
/// Performing what the answer asks for leads to where one more descriptor was discarded, and
/// the first question is next. Otherwise nothing changes, and there is no next question.
pub proof fn law_answers_discard_one_descriptor(
    driver: EnetQos,
    world: action::World,
    rounds: nat,
)
    ensures
        ({
            let (now, left) = after_discards(driver, world, rounds);
            let status = ring_laws::status_in(now.rx_ring, left.memory);
            let owned = driver::discard_step(now, RxQuestion::Owner, status);
            let erred = driver::discard_step(now, RxQuestion::Error, status);
            let (more, fewer) = after_discards(driver, world, rounds + 1);
            let software = owner(status) is Software;
            &&& owned.0 == now
            &&& owned.1 == if software {
                Some(RxQuestion::Error)
            } else {
                None
            }
            &&& owned.2 == Seq::<Action>::empty()
            &&& discards_after(driver.rx_ring, world, rounds) <==> software && erred.1 == Some(
                RxQuestion::Owner,
            )
            &&& discards_after(driver.rx_ring, world, rounds) ==> erred.0 == more && left.after_all(
                erred.2,
            ) == fewer
            &&& software && !discards_after(driver.rx_ring, world, rounds) ==> erred.0 == now
                && erred.1 is None && erred.2 == Seq::<Action>::empty()
        }),
{
}

/// The driver and the world after at most `questions` questions were asked while discarding,
/// each of the current receive descriptor, and what they ask for was performed; and the next
/// question, if there is one.
pub open spec fn discard_run(
    driver: EnetQos,
    world: action::World,
    question: Option<RxQuestion>,
    questions: nat,
) -> (EnetQos, action::World, Option<RxQuestion>)
    decreases questions,
{
    match question {
        Some(asked) => if questions == 0 {
            (driver, world, question)
        } else {
            let status = ring_laws::status_in(driver.rx_ring, world.memory);
            let (after, next, actions) = driver::discard_step(driver, asked, status);
            discard_run(after, world.after_all(actions), next, (questions - 1) as nat)
        },
        None => (driver, world, question),
    }
}

/// While hardware adds nothing, following the answers discards as many descriptors as report
/// an error before the first that does not, or that hardware owns, and then ends: with two
/// questions for each of them, and at most two for the last.
pub proof fn law_answers_lead_to_the_end(driver: EnetQos, world: action::World, rounds: nat)
    requires
        discards_exactly(driver.rx_ring, world, rounds),
    ensures
        ({
            let (after, left) = after_discards(driver, world, rounds);
            discard_run(driver, world, Some(RxQuestion::Owner), 2 * rounds + 2) == (
                after,
                left,
                None::<RxQuestion>,
            )
        }),
{
    lemma_answers_from(driver, world, rounds, 0);
}

proof fn lemma_answers_from(driver: EnetQos, world: action::World, rounds: nat, done: nat)
    requires
        discards_exactly(driver.rx_ring, world, rounds),
        done <= rounds,
    ensures
        ({
            let (now, left) = after_discards(driver, world, done);
            let (after, end) = after_discards(driver, world, rounds);
            let questions = (2 * (rounds - done) + 2) as nat;
            discard_run(now, left, Some(RxQuestion::Owner), questions) == (
                after,
                end,
                None::<RxQuestion>,
            )
        }),
    decreases rounds - done,
{
    reveal_with_fuel(discard_run, 4);
    law_answers_discard_one_descriptor(driver, world, done);
    if done < rounds {
        assert(discards_after(driver.rx_ring, world, done));
        lemma_answers_from(driver, world, rounds, done + 1);
    }
}

/// The driver and the world after at most `questions` questions were asked on the way to a
/// packet, and what they ask for was performed; and where to go next.
pub open spec fn receive_run(
    driver: EnetQos,
    world: action::World,
    next: ReceiveNext,
    questions: nat,
) -> (EnetQos, action::World, ReceiveNext)
    decreases questions,
{
    match next {
        ReceiveNext::Ask(question) => if questions == 0 {
            (driver, world, next)
        } else {
            let ring = if question is Space {
                driver.tx_ring
            } else {
                driver.rx_ring
            };
            let status = ring_laws::status_in(ring, world.memory);
            let (after, next, actions) = driver::receive_outcome(driver, question, status);
            receive_run(after, world.after_all(actions), next, (questions - 1) as nat)
        },
        _ => (driver, world, next),
    }
}

/// Where the way to a packet ends, if hardware adds nothing after what was discarded.
pub open spec fn received(driver: EnetQos, world: action::World) -> ReceiveNext {
    let rx_status = ring_laws::status_in(driver.rx_ring, world.memory);
    let tx_status = ring_laws::status_in(driver.tx_ring, world.memory);
    if owner(rx_status) is Software && owner(tx_status) is Software {
        ReceiveNext::Ready { rx_status, tx_status }
    } else {
        ReceiveNext::Nothing
    }
}

/// While hardware adds nothing, the way to a packet ends. It discards every bad descriptor
/// in front, and then finds a packet if software owns the next descriptor, and the transmit
/// descriptor too. The packet reports no error, and discarding has no say in whether there
/// is space for a reply.
pub proof fn law_receiving_finds_a_good_packet(driver: EnetQos, world: action::World, rounds: nat)
    requires
        driver.wf(),
        discards_exactly(driver.rx_ring, world, rounds),
    ensures
        ({
            let first = ReceiveNext::Ask(ReceiveQuestion::Discard(RxQuestion::Owner));
            let (after, left) = after_discards(driver, world, rounds);
            let end = received(after, left);
            &&& receive_run(driver, world, first, 2 * rounds + 4) == (after, left, end)
            &&& end matches ReceiveNext::Ready { rx_status, tx_status } ==> {
                &&& !has_error(rx_status)
                &&& tx_status == ring_laws::status_in(driver.tx_ring, world.memory)
            }
            &&& after.wf()
        }),
{
    lemma_receiving_from(driver, world, rounds, 0);
    law_discarding_leaves_a_good_packet(driver.rx_ring, world, rounds);
    ring_laws::law_rings_apart(driver.tx_ring, driver.rx_ring, 0);
    let at = driver.tx_ring.index as int;
    ring_laws::law_rings_do_not_interfere(
        driver.rx_ring,
        driver.tx_ring,
        world,
        rounds,
        Seq::empty(),
        at,
    );
    let left = after_discards(driver, world, rounds).1;
    assert(ring_laws::words_at(left.memory, driver.tx_ring, at)[3] == ring_laws::status_in(
        driver.tx_ring,
        left.memory,
    ));
    assert(ring_laws::words_at(world.memory, driver.tx_ring, at)[3] == ring_laws::status_in(
        driver.tx_ring,
        world.memory,
    ));
}

proof fn lemma_receiving_from(driver: EnetQos, world: action::World, rounds: nat, done: nat)
    requires
        discards_exactly(driver.rx_ring, world, rounds),
        done <= rounds,
    ensures
        ({
            let first = ReceiveNext::Ask(ReceiveQuestion::Discard(RxQuestion::Owner));
            let (now, left) = after_discards(driver, world, done);
            let (after, end) = after_discards(driver, world, rounds);
            receive_run(now, left, first, (2 * (rounds - done) + 4) as nat) == (
                after,
                end,
                received(after, end),
            )
        }),
    decreases rounds - done,
{
    reveal_with_fuel(receive_run, 6);
    law_answers_discard_one_descriptor(driver, world, done);
    if done < rounds {
        assert(discards_after(driver.rx_ring, world, done));
        lemma_receiving_from(driver, world, rounds, done + 1);
    }
}

/// What discarding leaves, while hardware adds nothing. If software owns the descriptor that
/// it stops at, so that there is a token for it, then that descriptor reports no error. The
/// discarded descriptors, and no others, went back to hardware, each with its own buffer;
/// software owned every one of them, and it reported an error. The ring has moved on by as
/// many descriptors.
pub proof fn law_discarding_leaves_a_good_packet(ring: RingRef, world: action::World, rounds: nat)
    requires
        ring.wf(),
        discards_exactly(ring, world, rounds),
    ensures
        rounds <= ring.len,
        ({
            let (after, left) = ring_laws::after_submits(ring, world, rounds);
            let status = ring_laws::status_in(after, left.memory);
            &&& owner(status) is Software ==> !has_error(status)
            &&& after.wf()
            &&& after == (RingRef { index: after.index, ..ring })
            &&& after.index == (ring.index + rounds) % (ring.len as int)
            &&& forall|i: int|
                #![trigger ring_laws::words_at(left.memory, ring, i)]
                0 <= i < ring.len ==> if ring_laws::distance(ring, i) < rounds {
                    let was = ring_laws::words_at(world.memory, ring, i);
                    let now = ring_laws::words_at(left.memory, ring, i);
                    &&& owner(was[3]) is Software
                    &&& has_error(was[3])
                    &&& now == descriptor::receive_format(ring.buffer_address(i))
                    &&& owner(now[3]) is Hardware
                } else {
                    ring_laws::words_at(left.memory, ring, i) == ring_laws::words_at(
                        world.memory,
                        ring,
                        i,
                    )
                }
        }),
{
    ring_laws::law_submits_run_out(ring, world);
    if rounds > ring.len {
        assert(discards_after(ring, world, ring.len as nat));
    }
    ring_laws::law_submits_add_up(ring, world, rounds);
    ring_laws::law_start_address_stays(ring, rounds, 0);
    let left = ring_laws::after_submits(ring, world, rounds).1;
    assert forall|i: int|
        #![trigger ring_laws::words_at(left.memory, ring, i)]
        0 <= i < ring.len implies if ring_laws::distance(ring, i) < rounds {
        let was = ring_laws::words_at(world.memory, ring, i);
        let now = ring_laws::words_at(left.memory, ring, i);
        &&& owner(was[3]) is Software
        &&& has_error(was[3])
        &&& now == descriptor::receive_format(ring.buffer_address(i))
        &&& owner(now[3]) is Hardware
    } else {
        ring_laws::words_at(left.memory, ring, i) == ring_laws::words_at(world.memory, ring, i)
    } by {
        ring_laws::law_submits_go_around(ring, world, rounds, i);
        descriptor::law_receive_format_belongs_to_hardware(ring.buffer_address(i));
        let turn = ring_laws::distance(ring, i);
        if turn < rounds {
            // When its turn came, the descriptor held what it does to begin with.
            assert(discards_after(ring, world, turn as nat));
            ring_laws::law_submits_go_around(ring, world, turn as nat, i);
            let (then, partly) = ring_laws::after_submits(ring, world, turn as nat);
            assert(ring_laws::words_at(partly.memory, ring, i)[3] == ring_laws::status_in(
                then,
                partly.memory,
            ));
        }
    }
}

} // verus!
