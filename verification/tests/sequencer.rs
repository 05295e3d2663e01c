//! How lists of actions become single accesses.

use imxrt_enet_qos::register::modified;
use imxrt_enet_qos::{Access, Action, Field, Register, Sequencer};

#[test]
fn writes_stores_and_fences_pass_through() {
    let actions = [
        Action::Store {
            address: 0x100,
            value: 7,
        },
        Action::Fence,
        Action::Write {
            register: Register::MacMdioData,
            value: 9,
        },
    ];
    let mut sequencer = Sequencer::new(&actions);
    assert_eq!(
        sequencer.step(0),
        Some(Access::Store {
            address: 0x100,
            value: 7
        })
    );
    assert_eq!(sequencer.step(0), Some(Access::Fence));
    assert_eq!(
        sequencer.step(0),
        Some(Access::Write {
            register: Register::MacMdioData,
            value: 9
        })
    );
    assert_eq!(sequencer.step(0), None);
    assert_eq!(sequencer.step(0), None);
}

#[test]
fn modify_reads_then_writes() {
    let actions = [Action::modify(
        Register::MacConfiguration,
        &[(Field::Te, 1), (Field::Re, 1), (Field::Lm, 0)],
    )];
    assert_eq!(
        actions[0],
        Action::Modify {
            register: Register::MacConfiguration,
            mask: 0x1003,
            bits: 0x0003,
        }
    );
    let mut sequencer = Sequencer::new(&actions);
    assert_eq!(
        sequencer.step(0xdead),
        Some(Access::Read {
            register: Register::MacConfiguration
        })
    );
    assert_eq!(
        sequencer.step(0x1008_9000),
        Some(Access::Write {
            register: Register::MacConfiguration,
            value: 0x1008_8003,
        })
    );
    assert_eq!(sequencer.step(0), None);
}

#[test]
fn modified_replaces_the_masked_bits() {
    assert_eq!(modified(0xffff_ffff, 0x0000_00f0, 0x0000_0050), 0xffff_ff5f);
    assert_eq!(modified(0, 0x0000_00f0, 0x0000_0050), 0x50);
    assert_eq!(modified(0x1234_5678, 0, 0), 0x1234_5678);
}

#[test]
fn poll_repeats_until_the_bits_clear() {
    let actions = [
        Action::Poll {
            register: Register::MacMdioAddress,
            mask: 1,
        },
        Action::Fence,
    ];
    let read = Some(Access::Read {
        register: Register::MacMdioAddress,
    });
    let mut sequencer = Sequencer::new(&actions);
    assert_eq!(sequencer.step(0), read);
    assert_eq!(sequencer.step(1), read);
    assert_eq!(sequencer.step(0xffff_ffff), read);
    // Only the masked bits count.
    assert_eq!(sequencer.step(0xffff_fffe), Some(Access::Fence));
    assert_eq!(sequencer.step(1), None);
}

#[test]
fn poll_may_end_the_list() {
    let actions = [Action::Poll {
        register: Register::DmaMode,
        mask: 1,
    }];
    let mut sequencer = Sequencer::new(&actions);
    assert_eq!(
        sequencer.step(0),
        Some(Access::Read {
            register: Register::DmaMode
        })
    );
    assert_eq!(sequencer.step(0), None);
}

#[test]
fn polls_follow_polls() {
    let actions = [
        Action::Poll {
            register: Register::DmaMode,
            mask: 1,
        },
        Action::Poll {
            register: Register::MacMdioAddress,
            mask: 1,
        },
    ];
    let mut sequencer = Sequencer::new(&actions);
    let first = Some(Access::Read {
        register: Register::DmaMode,
    });
    let second = Some(Access::Read {
        register: Register::MacMdioAddress,
    });
    assert_eq!(sequencer.step(0), first);
    assert_eq!(sequencer.step(0), second);
    assert_eq!(sequencer.step(1), second);
    assert_eq!(sequencer.step(0), None);
}

#[test]
fn no_actions_no_accesses() {
    let actions: [Action; 0] = [];
    let mut sequencer = Sequencer::new(&actions);
    assert_eq!(sequencer.step(0), None);
}

#[test]
fn write_fields_leaves_the_rest_zero() {
    assert_eq!(
        Action::write(Register::MacMdioAddress, &[(Field::Cr, 4)]),
        Action::Write {
            register: Register::MacMdioAddress,
            value: 0x400,
        }
    );
}
