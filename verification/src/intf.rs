use vstd::prelude::*;

verus! {

/// The transport a device conversation runs over.  Implementations own the
/// USB (or replay) channel; they deliver whole reassembled answer frames and
/// promise nothing about their contents — every byte that comes back is
/// validated by the protocol layer above.
pub trait Intf {
    /// Sends one 16-byte command frame and returns the reassembled answer.
    fn send_and_receive(&mut self, to_device: Vec<u8>) -> Vec<u8>;

    /// Sends a command that the device answers by rebooting; the transport
    /// must not wait for a reply and must instead wait out the reconnect.
    fn cmd_oneway_devicereset(&mut self, to_device: Vec<u8>);

    /// Current wall-clock time in microseconds since the Unix epoch.
    fn get_time_micros(&self) -> u64;
}

} // verus!
