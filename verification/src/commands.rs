use vstd::prelude::*;
use vstd::string::*;
use crate::comm_bulk::CommBulk;
use crate::errors::GtError;
use crate::intf::Intf;
use crate::textfmt::{
    spec_dec, spec_dec_padded, spec_hex_padded, u64_dec_padded, u64_dec_string, u64_hex_padded,
};

verus! {

/// The model families the answer to the model query can name.
#[derive(Debug, PartialEq, Eq, Structural, Clone, Copy)]
pub enum Model {
    Gt100,
    Gt200,
    Gt120,
    Gt200e,
}

/// The NMEA-switch command payload: opcode, fixed sub-code, and the flag
/// byte (0x03 to enable, 0x00 to disable).
pub open spec fn spec_encode_nmea_switch(flag: bool) -> Seq<u8> {
    seq![0x93u8, 0x01u8, 0x01u8, if flag { 0x03u8 } else { 0x00u8 }]
}

pub fn encode_nmea_switch(flag: bool) -> (r: Vec<u8>)
    ensures
        r@ == spec_encode_nmea_switch(flag),
{
    let mut command: Vec<u8> = vec![0x93u8, 0x01u8, 0x01u8];
    command.push(if flag { 0x03u8 } else { 0x00u8 });
    assert(command@ =~= spec_encode_nmea_switch(flag));
    command
}

/// Switches NMEA passthrough mode on or off.  The device acknowledges with
/// an empty payload; anything else is a protocol violation.
pub fn cmd_nmea_switch<I: Intf>(comm: &mut CommBulk<I>, flag: bool) -> (r: Result<(), GtError>) {
    comm.simple_cmd_eqresult(encode_nmea_switch(flag), Vec::new())
}

pub open spec fn spec_is_model_code(code: u8) -> bool {
    code == 0x13 || code == 0x14 || code == 0x15 || code == 0x17
}

pub open spec fn spec_model_of(code: u8) -> Model {
    if code == 0x13 {
        Model::Gt100
    } else if code == 0x14 {
        Model::Gt200
    } else if code == 0x15 {
        Model::Gt120
    } else {
        Model::Gt200e
    }
}

/// Decodes the model-query answer: exactly 3 bytes, the two fixed tag bytes,
/// then one of the four known model codes; anything else is a hard failure.
pub fn decode_model(payload: &Vec<u8>) -> (r: Result<Model, GtError>)
    ensures
        (r is Ok) == (payload@.len() == 3 && payload@[0] == 0xc2 && payload@[1] == 0x20
            && spec_is_model_code(payload@[2])),
        r matches Ok(m) ==> m == spec_model_of(payload@[2]),
        r matches Err(e) ==> e matches GtError::UnexpectedAnswer { received } && received@
            == payload@,
{
    if payload.len() != 3 || payload[0] != 0xc2 || payload[1] != 0x20 {
        return Err(GtError::UnexpectedAnswer { received: payload.clone() });
    }
    match payload[2] {
        0x13 => Ok(Model::Gt100),
        0x14 => Ok(Model::Gt200),
        0x15 => Ok(Model::Gt120),
        0x17 => Ok(Model::Gt200e),
        _ => Err(GtError::UnexpectedAnswer { received: payload.clone() }),
    }
}

/// The fixed model-query command payload.
pub open spec fn spec_encode_model() -> Seq<u8> {
    seq![0x93u8, 0x05u8, 0x04u8, 0x00u8, 0x03u8, 0x01u8, 0x9fu8]
}

pub fn encode_model() -> (r: Vec<u8>)
    ensures
        r@ == spec_encode_model(),
{
    let command: Vec<u8> = vec![0x93u8, 0x05u8, 0x04u8, 0x00u8, 0x03u8, 0x01u8, 0x9fu8];
    assert(command@ =~= spec_encode_model());
    command
}

/// Queries which model family the device belongs to.
pub fn cmd_model<I: Intf>(comm: &mut CommBulk<I>) -> (r: Result<Model, GtError>) {
    let answer = comm.simple_cmd_return(encode_model())?;
    decode_model(&answer)
}

/// The derived identity of the connected device, every field already
/// rendered the way the export metadata carries it.
#[derive(Debug)]
pub struct IdentificationJson {
    pub manufacturer: String,
    pub model: u16,
    pub device_id: String,
    pub name: String,
    pub alias: String,
    pub serial_number: String,
    pub hw_version: String,
    pub fw_version: String,
    pub sw_version: String,
    pub description: String,
}

/// Little-endian value of `n` bytes of `s` starting at `start`.
pub open spec fn spec_le_value(s: Seq<u8>, start: int, n: nat) -> int
    decreases n,
{
    if n == 0 {
        0
    } else {
        s[start] + 256 * spec_le_value(s, start + 1, (n - 1) as nat)
    }
}

/// The model number in the identification answer: big-endian 16 bits at
/// bytes 6 and 7.
pub open spec fn spec_id_model(p: Seq<u8>) -> int {
    p[6] * 256 + p[7]
}

/// The 48-bit device serial component: bytes 10 through 15, little-endian.
pub open spec fn spec_id_devid2(p: Seq<u8>) -> int {
    spec_le_value(p, 10, 6)
}

/// The packed firmware date field: little-endian 16 bits at bytes 8 and 9;
/// day in the low 5 bits, month in the next 4, year in the next 8.
pub open spec fn spec_id_version3(p: Seq<u8>) -> int {
    p[8] + p[9] * 256
}

/// `major.minor.yymmdd` firmware version string.
pub open spec fn spec_id_fw_version(p: Seq<u8>) -> Seq<char> {
    let v3 = spec_id_version3(p);
    spec_dec(p[4] as nat) + "."@ + spec_dec(p[5] as nat) + "."@ + spec_dec_padded(
        ((v3 / 512) % 256) as nat,
        2,
    ) + spec_dec_padded(((v3 / 32) % 16) as nat, 2) + spec_dec_padded((v3 % 32) as nat, 2)
}

/// `modelnumber-serialcomponent` device id string.
pub open spec fn spec_id_device_id(p: Seq<u8>) -> Seq<char> {
    spec_dec_padded(spec_id_model(p) as nat, 4) + "-"@ + spec_hex_padded(
        spec_id_devid2(p) as nat,
        12,
    )
}

/// `GT120B-XXYY` name string from the two name bytes, high byte first.
pub open spec fn spec_id_name(p: Seq<u8>) -> Seq<char> {
    "GT120B-"@ + spec_hex_padded(p[11] as nat, 2) + spec_hex_padded(p[10] as nat, 2)
}

/// Decimal concatenation of model and 32-bit serial.
pub open spec fn spec_id_serial_number(p: Seq<u8>) -> Seq<char> {
    spec_dec((10000000000 * spec_id_model(p) + spec_le_value(p, 0, 4)) as nat)
}

pub open spec fn pow256(n: nat) -> int
    decreases n,
{
    if n == 0 {
        1
    } else {
        256 * pow256((n - 1) as nat)
    }
}

proof fn lemma_pow256_small()
    ensures
        pow256(0) == 1,
        pow256(1) == 0x100,
        pow256(2) == 0x10000,
        pow256(3) == 0x1000000,
        pow256(4) == 0x100000000,
        pow256(5) == 0x10000000000,
        pow256(6) == 0x1000000000000,
        pow256(7) == 0x100000000000000,
{
    assert(pow256(0) == 1);
    assert(pow256(1) == 0x100);
    assert(pow256(2) == 0x10000);
    assert(pow256(3) == 0x1000000);
    assert(pow256(4) == 0x100000000);
    assert(pow256(5) == 0x10000000000);
    assert(pow256(6) == 0x1000000000000);
    assert(pow256(7) == 0x100000000000000);
}

fn le_value_u64(p: &Vec<u8>, start: usize, n: usize) -> (r: u64)
    requires
        start + n <= p@.len(),
        p@.len() <= 32,
        n <= 7,
    ensures
        r == spec_le_value(p@, start as int, n as nat),
        r < pow256(n as nat),
    decreases n,
{
    proof {
        lemma_pow256_small();
    }
    if n == 0 {
        0
    } else {
        let rest = le_value_u64(p, start + 1, n - 1);
        p[start] as u64 + 256 * rest
    }
}

/// Decodes the 17-byte identification answer into the identity record.  The
/// answer length and the decoded model number (only 10, the GT120B, is
/// known) are validated; every derived string is pinned down exactly.
pub fn decode_identification(payload: &Vec<u8>, conf_orig_sw_equivalent: bool) -> (r: Result<
    IdentificationJson,
    GtError,
>)
    ensures
        (r is Ok) == (payload@.len() == 17 && spec_id_model(payload@) == 10),
        r matches Ok(id) ==> {
            &&& id.model == 10
            &&& id.device_id@ == spec_id_device_id(payload@)
            &&& id.name@ == spec_id_name(payload@)
            &&& id.alias@ == spec_id_name(payload@)
            &&& id.serial_number@ == spec_id_serial_number(payload@)
            &&& id.fw_version@ == spec_id_fw_version(payload@)
            &&& id.hw_version@ == ""@
            &&& id.sw_version@ == "not installed"@
            &&& id.description@ == ""@
            &&& (conf_orig_sw_equivalent ==> id.manufacturer@ == ""@)
            &&& (!conf_orig_sw_equivalent ==> id.manufacturer@ == "mobileaction"@)
        },
        r matches Err(e) ==> e matches GtError::UnexpectedAnswer { received } && received@
            == payload@,
{
    if payload.len() != 17 {
        return Err(GtError::UnexpectedAnswer { received: payload.clone() });
    }
    let model: u16 = payload[6] as u16 * 256 + payload[7] as u16;
    if model != 10 {
        return Err(GtError::UnexpectedAnswer { received: payload.clone() });
    }
    let serial: u64 = le_value_u64(payload, 0, 4);
    let version1 = payload[4];
    let version2 = payload[5];
    let version3: u16 = payload[8] as u16 + payload[9] as u16 * 256;
    let devid2: u64 = le_value_u64(payload, 10, 6);

    let mut name = String::from_str("GT120B-");
    name.append(u64_hex_padded(payload[11] as u64, 2).as_str());
    name.append(u64_hex_padded(payload[10] as u64, 2).as_str());

    let mut version = u64_dec_string(version1 as u64);
    version.append(".");
    version.append(u64_dec_string(version2 as u64).as_str());
    version.append(".");
    version.append(u64_dec_padded(((version3 / 512) % 256) as u64, 2).as_str());
    version.append(u64_dec_padded(((version3 / 32) % 16) as u64, 2).as_str());
    version.append(u64_dec_padded((version3 % 32) as u64, 2).as_str());

    proof {
        lemma_pow256_small();
    }
    let serialnumber: u64 = 10000000000u64 * model as u64 + serial;
    let mut deviceid = u64_dec_padded(model as u64, 4);
    deviceid.append("-");
    deviceid.append(u64_hex_padded(devid2, 12).as_str());

    let manufacturer = if conf_orig_sw_equivalent {
        String::from_str("")
    } else {
        String::from_str("mobileaction")
    };

    Ok(
        IdentificationJson {
            manufacturer,
            model,
            device_id: deviceid,
            name: name.clone(),
            alias: name,
            serial_number: u64_dec_string(serialnumber),
            hw_version: String::from_str(""),
            fw_version: version,
            sw_version: String::from_str("not installed"),
            description: String::from_str(""),
        },
    )
}

/// The fixed identification-query command payload: the bare opcode.
pub open spec fn spec_encode_identification() -> Seq<u8> {
    seq![0x93u8, 0x0au8]
}

pub fn encode_identification() -> (r: Vec<u8>)
    ensures
        r@ == spec_encode_identification(),
{
    let command: Vec<u8> = vec![0x93u8, 0x0au8];
    assert(command@ =~= spec_encode_identification());
    command
}

/// Queries the identification record.
pub fn cmd_identification<I: Intf>(comm: &mut CommBulk<I>, conf_orig_sw_equivalent: bool) -> (r:
    Result<IdentificationJson, GtError>) {
    let answer = comm.simple_cmd_return(encode_identification())?;
    decode_identification(&answer, conf_orig_sw_equivalent)
}

/// The empirically derived offset formula: the two low bytes of the count
/// answer name the first free 0x1000-aligned block.
pub open spec fn spec_offset_from_count(b: u8, c: u8) -> int {
    (b * 8 + c / 32 + 1) * 4096
}

/// Derives the memory offset from the two low count bytes, bit-exactly:
/// `(((b << 3) + (c >> 5) + 1) << 12)`.
pub fn calculate_offset_from_count(b: u8, c: u8) -> (r: u32)
    ensures
        r == spec_offset_from_count(b, c),
        r % 0x1000 == 0,
        0x1000 <= r <= 0x800000,
{
    assert(((b as u32) << 3u32) == b * 8 && ((c as u32) >> 5u32) == c / 32) by (bit_vector);
    let out_shifted: u32 = ((b as u32) << 3u32) + ((c as u32) >> 5u32) + 1;
    let r = out_shifted << 12u32;
    assert(out_shifted << 12u32 == out_shifted * 4096) by (bit_vector)
        requires
            out_shifted <= 2048,
    ;
    r
}

/// The offset formula reproduces the capture-derived input/output pairs
/// bit-exactly.
pub proof fn lemma_offset_formula_examples()
    ensures
        spec_offset_from_count(0x08, 0xC0) == 0x047000,
        spec_offset_from_count(0x06, 0x02) == 0x031000,
        spec_offset_from_count(0x0B, 0x8B) == 0x05D000,
        spec_offset_from_count(0x02, 0x6E) == 0x014000,
        spec_offset_from_count(0x01, 0xDC) == 0x00F000,
{
}

/// Decodes the 3-byte count answer into the end-of-data offset.
pub fn decode_count(payload: &Vec<u8>) -> (r: Result<u32, GtError>)
    ensures
        (r is Ok) == (payload@.len() == 3),
        r matches Ok(v) ==> v == spec_offset_from_count(payload@[1], payload@[2]),
        r matches Err(e) ==> e matches GtError::UnexpectedAnswer { received } && received@
            == payload@,
{
    if payload.len() != 3 {
        return Err(GtError::UnexpectedAnswer { received: payload.clone() });
    }
    Ok(calculate_offset_from_count(payload[1], payload[2]))
}

/// The fixed count-query command payload.
pub open spec fn spec_encode_count() -> Seq<u8> {
    seq![0x93u8, 0x0bu8, 0x03u8, 0x00u8, 0x1du8]
}

pub fn encode_count() -> (r: Vec<u8>)
    ensures
        r@ == spec_encode_count(),
{
    let command: Vec<u8> = vec![0x93u8, 0x0bu8, 0x03u8, 0x00u8, 0x1du8];
    assert(command@ =~= spec_encode_count());
    command
}

/// Queries the record count answer and derives the 0x1000-aligned offset of
/// the end of recorded data from it.
pub fn cmd_count<I: Intf>(comm: &mut CommBulk<I>) -> (r: Result<u32, GtError>)
    ensures
        r matches Ok(v) ==> v % 0x1000 == 0 && 0x1000 <= v <= 0x800000,
{
    let answer = comm.simple_cmd_return(encode_count())?;
    decode_count(&answer)
}

/// Little-endian bytes of `x`, lowest first.
pub open spec fn spec_le_bytes(x: int, n: nat) -> Seq<u8>
    decreases n,
{
    if n == 0 {
        Seq::empty()
    } else {
        seq![(x % 256) as u8] + spec_le_bytes(x / 256, (n - 1) as nat)
    }
}

fn u64_le_bytes(x: u64, n: usize) -> (r: Vec<u8>)
    ensures
        r@ == spec_le_bytes(x as int, n as nat),
{
    let mut r: Vec<u8> = Vec::new();
    let mut d: u64 = x;
    let mut j: usize = 0;
    while j < n
        invariant
            j <= n,
            r@ + spec_le_bytes(d as int, (n - j) as nat) =~= spec_le_bytes(x as int, n as nat),
        decreases n - j,
    {
        let ghost before = r@;
        let ghost dd = d as int;
        r.push((d % 256) as u8);
        d = d / 256;
        j = j + 1;
        proof {
            assert(spec_le_bytes(dd, (n - j + 1) as nat) == seq![(dd % 256) as u8]
                + spec_le_bytes(dd / 256, (n - j) as nat));
            assert(r@ + spec_le_bytes(d as int, (n - j) as nat) =~= before + spec_le_bytes(
                dd,
                (n - j + 1) as nat,
            ));
        }
    }
    assert(r@ =~= spec_le_bytes(x as int, n as nat));
    r
}

/// The set-clock command payload: opcode, the microsecond count (8 bytes
/// little-endian), then the second count truncated to 5 bytes little-endian.
pub open spec fn spec_encode_set_time(time_us: u64) -> Seq<u8> {
    seq![0x93u8, 0x09u8] + spec_le_bytes(time_us as int, 8) + spec_le_bytes(time_us as int / 1000000, 5)
}

pub fn encode_set_time(time_us: u64) -> (r: Vec<u8>)
    ensures
        r@ == spec_encode_set_time(time_us),
        r@.len() == 15,
{
    let mut command: Vec<u8> = vec![0x93u8, 0x09u8];
    let mut us_bytes = u64_le_bytes(time_us, 8);
    command.append(&mut us_bytes);
    let time_s = time_us / 1000000;
    let mut s_bytes = u64_le_bytes(time_s, 5);
    command.append(&mut s_bytes);
    proof {
        lemma_le_bytes_len(time_us as int, 8);
        lemma_le_bytes_len(time_us as int / 1000000, 5);
        assert(command@ =~= spec_encode_set_time(time_us));
    }
    command
}

proof fn lemma_le_bytes_len(x: int, n: nat)
    ensures
        spec_le_bytes(x, n).len() == n,
    decreases n,
{
    if n > 0 {
        lemma_le_bytes_len(x / 256, (n - 1) as nat);
    }
}

/// Pushes the current time to the device clock.
pub fn cmd_set_time<I: Intf>(comm: &mut CommBulk<I>, time_us: u64) -> (r: Result<(), GtError>) {
    let command = encode_set_time(time_us);
    comm.simple_cmd_eqresult(command, Vec::new())
}

/// The memory-read command payload: opcode and sub-code, the requested size
/// (big-endian 16 bits), two fixed marker bytes, and the 24-bit offset
/// (big-endian).
pub open spec fn spec_encode_read(pos: u32, size: u16) -> Seq<u8> {
    seq![
        0x93u8,
        0x05u8,
        0x07u8,
        (size / 256) as u8,
        (size % 256) as u8,
        0x04u8,
        0x03u8,
        ((pos / 0x10000) % 256) as u8,
        ((pos / 0x100) % 256) as u8,
        (pos % 256) as u8,
    ]
}

pub fn encode_read(pos: u32, size: u16) -> (r: Vec<u8>)
    requires
        pos < 0x1000000,
    ensures
        r@ == spec_encode_read(pos, size),
{
    let mut command: Vec<u8> = vec![0x93u8, 0x05u8, 0x07u8];
    command.push((size / 256) as u8);
    command.push((size % 256) as u8);
    command.push(0x04u8);
    command.push(0x03u8);
    command.push(((pos / 0x10000) % 256) as u8);
    command.push(((pos / 0x100) % 256) as u8);
    command.push((pos % 256) as u8);
    assert(command@ =~= spec_encode_read(pos, size));
    command
}

/// Reads `size` bytes of record memory at `pos`.  A well-behaved device
/// answers with exactly `size` bytes; any other length is a hard failure.
pub fn cmd_read<I: Intf>(comm: &mut CommBulk<I>, pos: u32, size: u16) -> (r: Result<
    Vec<u8>,
    GtError,
>)
    requires
        pos < 0x1000000,
    ensures
        r matches Ok(p) ==> p@.len() == size,
{
    let command = encode_read(pos, size);
    let answer = comm.simple_cmd_return(command)?;
    if answer.len() != size as usize {
        return Err(GtError::UnexpectedAnswer { received: answer });
    }
    Ok(answer)
}

/// The fixed delete-and-reboot command payload.
pub open spec fn spec_encode_delete_reboot() -> Seq<u8> {
    seq![0x93u8, 0x11u8, 0x02u8, 0x00u8, 0x80u8]
}

pub fn encode_delete_reboot() -> (r: Vec<u8>)
    ensures
        r@ == spec_encode_delete_reboot(),
{
    let command: Vec<u8> = vec![0x93u8, 0x11u8, 0x02u8, 0x00u8, 0x80u8];
    assert(command@ =~= spec_encode_delete_reboot());
    command
}

/// Erases record memory and reboots the device.  One-way: the device sends
/// no answer; the transport waits for the reconnect instead.
pub fn cmd_delete_reboot<I: Intf>(comm: &mut CommBulk<I>) {
    comm.simple_cmd_oneway_devicereset(encode_delete_reboot());
}

} // verus!
