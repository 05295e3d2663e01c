//! The parts of `smoltcp` that describe a device to the network stack.

use vstd::prelude::*;

verus! {

/// `smoltcp::phy::Checksum`: which checksums the stack computes and verifies by itself.
#[verifier::external_type_specification]
pub struct ExChecksum(smoltcp::phy::Checksum);

/// `smoltcp::phy::Medium`: what the packets of a device are.
#[verifier::external_type_specification]
pub struct ExMedium(smoltcp::phy::Medium);

/// `smoltcp::phy::ChecksumCapabilities`: the checksum behavior of each protocol.
#[verifier::external_type_specification]
pub struct ExChecksumCapabilities(smoltcp::phy::ChecksumCapabilities);

/// `smoltcp::phy::DeviceCapabilities`: what a device can do.
#[verifier::external_type_specification]
pub struct ExDeviceCapabilities(smoltcp::phy::DeviceCapabilities);

/// Calls `smoltcp::phy::DeviceCapabilities::default`.
///
/// It returns an Ethernet device (Ethernet comes first among the media that are compiled
/// in) without room for a packet, with no limit on bursts, and with all checksums left to
/// the stack.
#[verifier::external_body]
pub(crate) fn default_capabilities() -> (caps: smoltcp::phy::DeviceCapabilities)
    ensures
        caps.medium is Ethernet,
        caps.max_transmission_unit == 0,
        caps.max_burst_size is None,
        caps.checksum.ipv4 is Both,
        caps.checksum.udp is Both,
        caps.checksum.tcp is Both,
        caps.checksum.icmpv4 is Both,
{
    smoltcp::phy::DeviceCapabilities::default()
}

} // verus!
