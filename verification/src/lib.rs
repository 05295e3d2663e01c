//! A basic driver for the ENET QOS IP block.
//!
//! The driver is intended for integration with smoltcp. It uses hardware checksumming as
//! much as possible. It was designed by following the MIMXRT1170 reference manual.
//!
//! This crate decides; it does not touch the device. Each operation returns the
//! [`Action`]s that carry it out, and a [`Sequencer`] turns those into single accesses to
//! registers and to memory. What the accesses return comes back as plain values.
//!
//! # Limitations
//!
//! The driver assumes that all global memory *that you allocate* for it is placed in
//! non-cacheable memory. Nothing flushes any cache lines before coordinating with a DMA
//! controller.
//!
//! This driver does not utilize any TCP / UDP hardware offloading, besides checksumming.
//! Your network stack is expected to achieve this goal.
//!
//! This driver fixes itself to full duplex, 100MBit. Given this speed limitation, the
//! driver only uses one DMA channel.
//!
//! The driver expects you to poll for packets. Interrupts are disabled, and there's no
//! interface to enable them.
//!
//! There's no VLAN support.

pub mod action;
pub mod capabilities;
pub mod descriptor;
pub mod driver;
pub mod initialize;
pub mod operation_laws;
pub mod register;
pub mod ring;
pub mod ring_laws;
pub mod startup_laws;

pub use action::{Access, Action, Sequencer};
pub use descriptor::{Owner, MAX_BUFFER_SIZE};
pub use driver::{
    EnetQos, LoadOrder, ReceiveNext, ReceiveQuestion, RxAnswer, RxQuestion, RxToken, Startup,
    StartupStep, TxToken, Unclocked,
};
pub use initialize::MacAddress;
pub use register::{Field, Register};
pub use ring::{Placement, Ring, RingRef};
