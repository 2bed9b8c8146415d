use vstd::prelude::*;
use crate::errors::GtError;
use crate::framing::{decode_answer, encode_command};
use crate::intf::Intf;

verus! {

/// One command/answer conversation with the device: frames outgoing
/// payloads, unwraps and checks incoming answers.
pub struct CommBulk<I: Intf> {
    pub intf: I,
}

impl<I: Intf> CommBulk<I> {
    pub fn new(intf: I) -> (r: CommBulk<I>) {
        CommBulk { intf }
    }

    /// Frames and sends `to_device`, then validates the answer envelope and
    /// returns the inner payload.  The payload length field is 16 bits, so a
    /// valid payload never exceeds 65535 bytes.
    pub fn simple_cmd_return(&mut self, to_device: Vec<u8>) -> (r: Result<Vec<u8>, GtError>)
        requires
            to_device.len() < 16,
        ensures
            r matches Ok(p) ==> p@.len() <= 65535,
    {
        let frame = encode_command(&to_device);
        let answer = self.intf.send_and_receive(frame);
        match decode_answer(&answer) {
            Ok(payload) => {
                assert(payload@.len() == answer@[1] * 256 + answer@[2]);
                Ok(payload)
            },
            Err(e) => Err(GtError::Framing(e)),
        }
    }

    /// Sends `to_device` and checks that the answer payload equals
    /// `expect_from_device` byte for byte.
    pub fn simple_cmd_eqresult(&mut self, to_device: Vec<u8>, expect_from_device: Vec<u8>) -> (r:
        Result<(), GtError>)
        requires
            to_device.len() < 16,
    {
        let answer = self.simple_cmd_return(to_device)?;
        if !vecs_eq(&answer, &expect_from_device) {
            return Err(GtError::UnexpectedAnswer { received: answer });
        }
        Ok(())
    }

    /// Frames and sends a command that triggers a device reboot: no answer
    /// is read; the transport handles the disconnect and reconnect.
    pub fn simple_cmd_oneway_devicereset(&mut self, to_device: Vec<u8>)
        requires
            to_device.len() < 16,
    {
        let frame = encode_command(&to_device);
        self.intf.cmd_oneway_devicereset(frame);
    }

    pub fn get_time_micros(&self) -> u64 {
        self.intf.get_time_micros()
    }

}

/// Byte-wise equality of two vectors.
pub fn vecs_eq(a: &Vec<u8>, b: &Vec<u8>) -> (r: bool)
    ensures
        r == (a@ == b@),
{
    if a.len() != b.len() {
        assert(a@ !~= b@);
        return false;
    }
    let mut i: usize = 0;
    while i < a.len()
        invariant
            i <= a.len() == b.len(),
            forall|j: int| 0 <= j < i ==> a@[j] == b@[j],
        decreases a.len() - i,
    {
        if a[i] != b[i] {
            assert(a@ !~= b@);
            return false;
        }
        i = i + 1;
    }
    assert(a@ =~= b@);
    true
}

} // verus!
