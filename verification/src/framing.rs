use vstd::prelude::*;
use crate::errors::FramingError;

verus! {

/// The first byte of every answer frame.
pub const ANSWER_PREFIX: u8 = 0x93;

/// Sum of a byte sequence as an unbounded integer; the wire checksum rule is
/// stated modulo 256 over this sum.
pub open spec fn byte_sum(s: Seq<u8>) -> int
    decreases s.len(),
{
    if s.len() == 0 {
        0
    } else {
        byte_sum(s.drop_last()) + s.last()
    }
}

pub proof fn lemma_byte_sum_take_step(s: Seq<u8>, i: int)
    requires
        0 <= i < s.len(),
    ensures
        byte_sum(s.take(i + 1)) == byte_sum(s.take(i)) + s[i],
{
    assert(s.take(i + 1).drop_last() =~= s.take(i));
    assert(s.take(i + 1).last() == s[i]);
}

pub proof fn lemma_byte_sum_nonneg(s: Seq<u8>)
    ensures
        byte_sum(s) >= 0,
    decreases s.len(),
{
    if s.len() > 0 {
        lemma_byte_sum_nonneg(s.drop_last());
    }
}

/// The checksum byte appended to `s`: the two's complement of the byte sum.
pub open spec fn checksum_byte(s: Seq<u8>) -> u8 {
    (((256 - byte_sum(s) % 256) % 256) as u8)
}

/// A command frame: the payload zero-padded to 15 bytes, plus the checksum.
pub open spec fn spec_encode_command(payload: Seq<u8>) -> Seq<u8> {
    let padded = payload + Seq::new((15 - payload.len()) as nat, |i: int| 0u8);
    padded.push(checksum_byte(padded))
}

/// Builds the 16-byte command frame for a payload of up to 15 bytes:
/// zero-pad to 15 bytes, then append the two's-complement checksum.
pub fn encode_command(payload: &Vec<u8>) -> (frame: Vec<u8>)
    requires
        payload.len() < 16,
    ensures
        frame@ == spec_encode_command(payload@),
        frame@.len() == 16,
{
    let mut frame: Vec<u8> = Vec::new();
    let mut i: usize = 0;
    while i < payload.len()
        invariant
            i <= payload.len() <= 15,
            frame@ =~= payload@.take(i as int),
        decreases payload.len() - i,
    {
        frame.push(payload[i]);
        i = i + 1;
    }
    assert(frame@ =~= payload@);
    while frame.len() < 15
        invariant
            payload.len() <= frame.len() <= 15,
            frame@ =~= payload@ + Seq::new((frame.len() - payload.len()) as nat, |j: int| 0u8),
        decreases 15 - frame.len(),
    {
        frame.push(0u8);
    }
    let ghost padded = frame@;
    let mut sum: u16 = 0;
    let mut j: usize = 0;
    while j < frame.len()
        invariant
            j <= frame.len() == 15,
            frame@ == padded,
            sum < 256,
            sum == byte_sum(padded.take(j as int)) % 256,
        decreases frame.len() - j,
    {
        proof {
            lemma_byte_sum_take_step(padded, j as int);
            lemma_byte_sum_nonneg(padded.take(j as int));
        }
        sum = (sum + frame[j] as u16) % 256;
        j = j + 1;
    }
    assert(padded.take(15int) =~= padded);
    let check: u8 = ((256 - sum as u32) % 256) as u8;
    proof {
        lemma_byte_sum_nonneg(padded);
    }
    frame.push(check);
    assert(frame@ =~= spec_encode_command(payload@));
    frame
}

/// The payload length an answer frame declares in its big-endian length field.
pub open spec fn spec_declared_len(s: Seq<u8>) -> int {
    s[1] * 256 + s[2]
}

/// Exact decoding of an answer frame, in the order the checks are applied:
/// sentinel prefix, checksum over the whole frame, declared length against
/// the actual length, then the inner payload.
pub open spec fn spec_decode_answer(s: Seq<u8>) -> Result<Seq<u8>, FramingError> {
    if s.len() == 0 {
        Err(FramingError::LengthMismatch)
    } else if s[0] != ANSWER_PREFIX {
        Err(FramingError::BadPrefix)
    } else if byte_sum(s) % 256 != 0 {
        Err(FramingError::ChecksumMismatch)
    } else if s.len() < 4 || spec_declared_len(s) != s.len() - 4 {
        Err(FramingError::LengthMismatch)
    } else {
        Ok(s.subrange(3, s.len() - 1))
    }
}

/// Validates an answer frame and extracts its payload.  A checksum is valid
/// exactly when the whole frame, trailing byte included, sums to zero mod 256.
pub fn decode_answer(answer: &Vec<u8>) -> (r: Result<Vec<u8>, FramingError>)
    ensures
        r matches Ok(p) ==> spec_decode_answer(answer@) matches Ok(sp) && p@ == sp,
        r matches Err(e) ==> spec_decode_answer(answer@) matches Err(se) && e == se,
{
    if answer.len() == 0 {
        return Err(FramingError::LengthMismatch);
    }
    if answer[0] != ANSWER_PREFIX {
        return Err(FramingError::BadPrefix);
    }
    let mut sum: u16 = 0;
    let mut j: usize = 0;
    while j < answer.len()
        invariant
            j <= answer.len(),
            sum < 256,
            sum == byte_sum(answer@.take(j as int)) % 256,
        decreases answer.len() - j,
    {
        proof {
            lemma_byte_sum_take_step(answer@, j as int);
            lemma_byte_sum_nonneg(answer@.take(j as int));
        }
        sum = (sum + answer[j] as u16) % 256;
        j = j + 1;
    }
    assert(answer@.take(answer@.len() as int) =~= answer@);
    if sum != 0 {
        return Err(FramingError::ChecksumMismatch);
    }
    if answer.len() < 4 {
        return Err(FramingError::LengthMismatch);
    }
    let declared: usize = (answer[1] as usize) * 256 + (answer[2] as usize);
    if declared != answer.len() - 4 {
        return Err(FramingError::LengthMismatch);
    }
    let mut payload: Vec<u8> = Vec::new();
    let mut k: usize = 3;
    while k < answer.len() - 1
        invariant
            3 <= k <= answer.len() - 1,
            answer.len() >= 4,
            payload@ =~= answer@.subrange(3, k as int),
        decreases answer.len() - k,
    {
        payload.push(answer[k]);
        k = k + 1;
    }
    assert(payload@ =~= answer@.subrange(3, answer@.len() - 1));
    Ok(payload)
}

/// For any payload short enough to frame, the whole encoded command frame
/// sums to zero mod 256: the receiver's checksum rule accepts it.
pub proof fn lemma_encode_command_sums_to_zero(payload: Seq<u8>)
    requires
        payload.len() < 16,
    ensures
        byte_sum(spec_encode_command(payload)) % 256 == 0,
{
    let padded = payload + Seq::new((15 - payload.len()) as nat, |i: int| 0u8);
    let framed = padded.push(checksum_byte(padded));
    assert(framed.drop_last() =~= padded);
    assert(byte_sum(framed) == byte_sum(padded) + checksum_byte(padded));
    lemma_byte_sum_nonneg(padded);
}

/// The answer frame a well-behaved device builds around `payload`: sentinel,
/// big-endian length, payload, two's-complement checksum.
pub open spec fn spec_encode_answer(payload: Seq<u8>) -> Seq<u8> {
    let body = seq![
        ANSWER_PREFIX,
        ((payload.len() as int / 256) as u8),
        ((payload.len() as int % 256) as u8),
    ] + payload;
    body.push(checksum_byte(body))
}

/// Round trip of the answer envelope: every well-formed frame decodes back
/// to exactly the payload it framed.
pub proof fn lemma_answer_round_trip(payload: Seq<u8>)
    requires
        payload.len() <= 65535,
    ensures
        spec_decode_answer(spec_encode_answer(payload)) == Ok::<Seq<u8>, FramingError>(payload),
{
    let body = seq![
        ANSWER_PREFIX,
        ((payload.len() as int / 256) as u8),
        ((payload.len() as int % 256) as u8),
    ] + payload;
    let frame = body.push(checksum_byte(body));
    assert(frame.drop_last() =~= body);
    assert(byte_sum(frame) == byte_sum(body) + checksum_byte(body));
    lemma_byte_sum_nonneg(body);
    assert(frame[0] == ANSWER_PREFIX);
    assert(spec_declared_len(frame) == frame.len() - 4);
    assert(frame.subrange(3, frame.len() - 1) =~= payload);
}

/// Accumulates the physical fragments of one logical answer until the frame
/// is long enough for the payload length it declares.
pub struct AnswerAssembler {
    buf: Vec<u8>,
}

/// A frame is complete once it holds the declared payload plus the 4-byte
/// envelope (sentinel, two length bytes, checksum).
pub open spec fn spec_answer_complete(s: Seq<u8>) -> bool {
    s.len() >= 3 && s.len() >= spec_declared_len(s) + 4
}

impl AnswerAssembler {
    pub closed spec fn view(&self) -> Seq<u8> {
        self.buf@
    }

    pub fn new() -> (r: AnswerAssembler)
        ensures
            r@ == Seq::<u8>::empty(),
    {
        AnswerAssembler { buf: Vec::new() }
    }

    /// Appends one transport read; fragment boundaries carry no meaning.
    pub fn push_fragment(&mut self, fragment: &Vec<u8>)
        ensures
            final(self)@ == old(self)@ + fragment@,
    {
        let ghost orig = self.buf@;
        let mut i: usize = 0;
        while i < fragment.len()
            invariant
                i <= fragment.len(),
                self.buf@ =~= orig + fragment@.take(i as int),
            decreases fragment.len() - i,
        {
            self.buf.push(fragment[i]);
            i = i + 1;
        }
        assert(self.buf@ =~= orig + fragment@);
    }

    pub fn is_complete(&self) -> (r: bool)
        ensures
            r == spec_answer_complete(self@),
    {
        if self.buf.len() < 3 {
            return false;
        }
        let declared: usize = (self.buf[1] as usize) * 256 + (self.buf[2] as usize);
        self.buf.len() >= declared + 4
    }

    pub fn into_bytes(self) -> (r: Vec<u8>)
        ensures
            r@ == self@,
    {
        self.buf
    }
}

/// How an answer was cut into transport reads is irrelevant: assembly is
/// concatenation, and decoding is a function of the assembled bytes alone,
/// so any fragmentation of the same bytes decodes identically.
pub proof fn lemma_fragmentation_irrelevant(fragments: Seq<Seq<u8>>, whole: Seq<u8>)
    requires
        whole == fragments.flatten(),
    ensures
        spec_decode_answer(fragments.flatten()) == spec_decode_answer(whole),
{
}

} // verus!
