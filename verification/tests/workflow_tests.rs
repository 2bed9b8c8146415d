use igotu_gt120b::comm_bulk::CommBulk;
use igotu_gt120b::commands::cmd_identification;
use igotu_gt120b::errors::GtError;
use igotu_gt120b::gt120b_workflow::{workflow, workflow_clear};
use igotu_gt120b::intf::Intf;

fn hex_bytes(s: &str) -> Vec<u8> {
    s.split_whitespace()
        .map(|b| u8::from_str_radix(b, 16).unwrap())
        .collect()
}

/// Frames `payload` as the device would: sentinel, big-endian length,
/// payload, two's-complement checksum.
fn make_answer(payload: &[u8]) -> Vec<u8> {
    let mut frame = vec![0x93u8];
    frame.extend_from_slice(&(payload.len() as u16).to_be_bytes());
    frame.extend_from_slice(payload);
    let sum = frame.iter().fold(0u8, |acc, b| acc.wrapping_add(*b));
    frame.push(0u8.wrapping_sub(sum));
    frame
}

/// Answers each command with the next canned answer, in order.
struct ScriptIntf {
    answers: Vec<Vec<u8>>,
    next: usize,
}

impl Intf for ScriptIntf {
    fn send_and_receive(&mut self, _to_device: Vec<u8>) -> Vec<u8> {
        let a = self.answers[self.next].clone();
        self.next += 1;
        a
    }

    fn cmd_oneway_devicereset(&mut self, _to_device: Vec<u8>) {}

    fn get_time_micros(&self) -> u64 {
        1753997870971000
    }
}

fn scripted(answers: Vec<Vec<u8>>) -> CommBulk<ScriptIntf> {
    CommBulk::new(ScriptIntf { answers, next: 0 })
}

const IDENT_PAYLOAD: &str = "a6 23 63 0d 01 02 00 0a 4d 2f 66 0d 71 8c 18 00 02";

fn identify_answers() -> Vec<Vec<u8>> {
    vec![
        make_answer(&[]),                              // NMEA switch
        make_answer(&hex_bytes("c2 20 15")),           // model: GT120
        make_answer(&hex_bytes(IDENT_PAYLOAD)),        // identification
        make_answer(&hex_bytes("00 00 20")),           // count: offset 0x2000
    ]
}

fn fix_record_block() -> Vec<u8> {
    // one super-block: an 8-byte header, a fix at 2025-07-31T22:00:00Z,
    // three empty records
    let mut block = vec![0u8; 8];
    let mut rec = vec![0u8; 30];
    let ymd: u32 = (25u32 << 24) | (7 << 16) | (31 << 11) | (22 << 6);
    rec[2..6].copy_from_slice(&ymd.to_be_bytes());
    block.extend_from_slice(&rec);
    block.extend_from_slice(&[0xffu8; 90]);
    assert_eq!(block.len(), 128);
    block
}

#[test]
fn workflow_downloads_and_exports() {
    let mut config = vec![0u8; 0xea];
    config[16..20].copy_from_slice(b"MyGT");

    let mut first_read = fix_record_block();
    first_read.extend_from_slice(&[0xffu8; 128]);
    assert_eq!(first_read.len(), 0x100);

    let mut answers = identify_answers();
    answers.push(make_answer(&[0xff; 8])); // idle probe
    answers.push(make_answer(&[])); // set time
    answers.push(make_answer(&config)); // configuration block
    answers.push(make_answer(&hex_bytes("00 00 20"))); // count re-check
    answers.push(make_answer(&[0xff; 0x100])); // probe block at 0x2000: empty
    answers.push(make_answer(&[0xff; 0x100])); // probe block at 0x3000: empty
    answers.push(make_answer(&[0xff; 0x80])); // trailing fixed read
    answers.push(make_answer(&first_read)); // bulk read at 0x1000, first 0x100
    answers.push(make_answer(&[0xff; 0xf00])); // bulk read at 0x1100, rest

    let mut comm = scripted(answers);
    let run = workflow(
        &mut comm,
        false,
        false,
        true,
        "testout-".to_string(),
        ".gpx".to_string(),
    )
    .unwrap();

    assert_eq!(run.identification.alias, "MyGT");
    assert_eq!(run.identification.name, "GT120B-0D66");
    assert_eq!(run.files.len(), 1);
    assert_eq!(run.files[0].points.len(), 1);
    assert!(!run.clear_pending);
}

#[test]
fn workflow_rejects_nonidle_probe_slot() {
    let mut answers = identify_answers();
    answers.push(make_answer(&[0x00; 8])); // idle probe: not all 0xFF

    let mut comm = scripted(answers);
    let result = workflow(
        &mut comm,
        false,
        false,
        true,
        String::new(),
        String::new(),
    );

    assert!(matches!(result, Err(GtError::UnknownDeviceState)));
}

#[test]
fn workflow_rejects_unsupported_model() {
    let mut answers = identify_answers();
    answers[1] = make_answer(&hex_bytes("c2 20 13")); // model: GT100

    let mut comm = scripted(answers);
    let result = workflow(
        &mut comm,
        false,
        false,
        true,
        String::new(),
        String::new(),
    );

    assert!(matches!(result, Err(GtError::UnsupportedModel)));
}

#[test]
fn workflow_clear_verifies_identity() {
    let mut id_comm = scripted(vec![make_answer(&hex_bytes(IDENT_PAYLOAD))]);
    let id = cmd_identification(&mut id_comm, true).unwrap();

    let mut answers = identify_answers();
    answers.push(make_answer(&[0xff; 8])); // idle probe after reboot
    answers.push(make_answer(&[])); // set time

    let mut comm = scripted(answers);
    workflow_clear(&mut comm, &id, true).unwrap();
}

#[test]
fn workflow_clear_rejects_changed_identity() {
    let mut id_comm = scripted(vec![make_answer(&hex_bytes(IDENT_PAYLOAD))]);
    let mut id = cmd_identification(&mut id_comm, true).unwrap();
    id.serial_number = "0".to_string();

    let mut comm = scripted(identify_answers());
    let result = workflow_clear(&mut comm, &id, true);

    assert!(matches!(result, Err(GtError::UnknownDeviceState)));
}

#[test]
fn garbled_answer_is_a_framing_error() {
    let mut answers = identify_answers();
    answers[0] = hex_bytes("41 42 43"); // not an answer frame at all

    let mut comm = scripted(answers);
    let result = workflow(
        &mut comm,
        false,
        false,
        true,
        String::new(),
        String::new(),
    );

    assert!(matches!(
        result,
        Err(GtError::Framing(igotu_gt120b::errors::FramingError::BadPrefix))
    ));
}

#[test]
fn config_name_decoding() {
    let mut config = vec![0u8; 0xea];
    config[16..19].copy_from_slice(b"Fox");
    assert_eq!(igotu_gt120b::gt120b_workflow::decode_config_name(&config), "Fox");

    let mut config2 = vec![0u8; 0xea];
    config2[16..21].copy_from_slice("Caf\u{e9}".as_bytes());
    assert_eq!(
        igotu_gt120b::gt120b_workflow::decode_config_name(&config2),
        "Caf\u{e9}"
    );

    let all_zero = vec![0u8; 0xea];
    assert_eq!(igotu_gt120b::gt120b_workflow::decode_config_name(&all_zero), "");
}
