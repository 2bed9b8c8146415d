use igotu_gt120b::gt120b_datadump::Gt120bDataDump;

fn packed_time(y: u16, mo: u8, d: u8, h: u8, mi: u8, s: u8, ms: u16) -> [u8; 6] {
    let ymd: u32 = ((y - 2000) as u32) << 24
        | (mo as u32) << 16
        | (d as u32) << 11
        | (h as u32) << 6
        | mi as u32;
    let fullms: u16 = s as u16 * 1000 + ms;
    let b = ymd.to_be_bytes();
    let m = fullms.to_le_bytes();
    [b[0], b[1], b[2], b[3], m[0], m[1]]
}

fn record(tag: u8, y: u16, mo: u8, d: u8, h: u8, mi: u8, s: u8, ms: u16) -> Vec<u8> {
    let mut r = vec![0u8; 30];
    r[0] = tag;
    r[2..8].copy_from_slice(&packed_time(y, mo, d, h, mi, s, ms));
    r
}

fn superblock(records: &[Vec<u8>]) -> Vec<u8> {
    assert!(records.len() <= 4);
    let mut out = vec![0u8; 8];
    for r in records {
        assert_eq!(r.len(), 30);
        out.extend_from_slice(r);
    }
    for _ in records.len()..4 {
        out.extend_from_slice(&[0xffu8; 30]);
    }
    assert_eq!(out.len(), 128);
    out
}

fn new_dump() -> Gt120bDataDump {
    Gt120bDataDump::new("testout-".to_string(), ".gpx".to_string())
}

#[test]
fn flag_propagation_start_and_stop() {
    let mut dump = new_dump();
    let block = superblock(&[
        record(0x41, 2025, 7, 31, 20, 0, 0, 0),
        record(0x00, 2025, 7, 31, 20, 1, 0, 0),
        record(0x00, 2025, 7, 31, 20, 2, 0, 0),
        record(0x42, 2025, 7, 31, 20, 3, 0, 0),
    ]);
    dump.process_datablock(block).unwrap();

    let files = dump.write_out(false, 0);

    assert_eq!(files.len(), 1);
    assert_eq!(files[0].points.len(), 2);
    assert!(files[0].points[0].wpflags & 0x01 != 0, "fix A carries the begin bit");
    assert!(files[0].points[0].wpflags & 0x02 == 0);
    assert!(files[0].points[1].wpflags & 0x02 != 0, "fix B carries the end bit");
    assert!(files[0].points[1].wpflags & 0x01 == 0);
}

#[test]
fn flag_propagation_trigger_hits_following_fix_only() {
    let mut dump = new_dump();
    let block = superblock(&[
        record(0x00, 2025, 7, 31, 20, 1, 0, 0),
        record(0x43, 2025, 7, 31, 20, 2, 0, 0),
        record(0x00, 2025, 7, 31, 20, 3, 0, 0),
    ]);
    dump.process_datablock(block).unwrap();

    let files = dump.write_out(false, 0);

    assert_eq!(files.len(), 1);
    assert_eq!(files[0].points.len(), 2);
    assert!(files[0].points[0].wpflags & 0x10 == 0, "trigger does not mark the preceding fix");
    assert!(files[0].points[1].wpflags & 0x10 != 0, "trigger marks the following fix");
}

#[test]
fn day_split_after_grace_window() {
    let mut dump = new_dump();
    // 4 hours 1 minute apart, crossing local midnight: the grace window
    // (22:00 + 4h = 02:00) is over at 02:01.
    let block = superblock(&[
        record(0x00, 2025, 7, 31, 22, 0, 0, 0),
        record(0x00, 2025, 8, 1, 2, 1, 0, 0),
    ]);
    dump.process_datablock(block).unwrap();

    let files = dump.write_out(true, 0);

    assert_eq!(files.len(), 2);
    assert_eq!(files[0].points.len(), 1);
    assert_eq!(files[1].points.len(), 1);
    assert_eq!(files[0].name, "testout-2025-07-31_22-00.gpx");
    assert_eq!(files[1].name, "testout-2025-08-01_02-01.gpx");
}

#[test]
fn no_day_split_within_grace_window() {
    let mut dump = new_dump();
    // 10 minutes apart, crossing midnight, but well inside the grace window.
    let block = superblock(&[
        record(0x00, 2025, 7, 31, 23, 55, 0, 0),
        record(0x00, 2025, 8, 1, 0, 5, 0, 0),
    ]);
    dump.process_datablock(block).unwrap();

    let files = dump.write_out(true, 0);

    assert_eq!(files.len(), 1);
    assert_eq!(files[0].points.len(), 2);
}

#[test]
fn no_day_split_when_disabled() {
    let mut dump = new_dump();
    let block = superblock(&[
        record(0x00, 2025, 7, 30, 10, 0, 0, 0),
        record(0x00, 2025, 7, 31, 22, 0, 0, 0),
    ]);
    dump.process_datablock(block).unwrap();

    let files = dump.write_out(false, 0);

    assert_eq!(files.len(), 1);
    assert_eq!(files[0].points.len(), 2);
}

#[test]
fn decode_is_idempotent() {
    let block = superblock(&[record(0x00, 2025, 7, 31, 20, 8, 44, 441)]);

    let mut dump = new_dump();
    dump.process_datablock(block.clone()).unwrap();
    dump.process_datablock(block).unwrap();

    let files = dump.write_out(false, 0);

    assert_eq!(files.len(), 1);
    assert_eq!(files[0].points.len(), 2);
    assert_eq!(files[0].points[0], files[0].points[1]);
}

#[test]
fn entries_are_sorted_by_time() {
    let mut dump = new_dump();
    dump.process_datablock(superblock(&[record(0x00, 2025, 7, 31, 20, 30, 0, 0)]))
        .unwrap();
    dump.process_datablock(superblock(&[record(0x00, 2025, 7, 31, 20, 10, 0, 0)]))
        .unwrap();
    dump.process_datablock(superblock(&[record(0x00, 2025, 7, 31, 20, 20, 0, 0)]))
        .unwrap();

    let files = dump.write_out(false, 0);

    assert_eq!(files.len(), 1);
    let pts = &files[0].points;
    assert_eq!(pts.len(), 3);
    assert!(pts[0].time.minute == 10 && pts[1].time.minute == 20 && pts[2].time.minute == 30);
}

#[test]
fn local_time_in_file_name() {
    let mut dump = new_dump();
    let block = superblock(&[record(0x00, 2025, 7, 31, 23, 30, 0, 0)]);
    dump.process_datablock(block).unwrap();

    // two hours east of UTC: the local timestamp crosses into the next day
    let files = dump.write_out(true, 7200);

    assert_eq!(files.len(), 1);
    assert_eq!(files[0].name, "testout-2025-08-01_01-30.gpx");
}

#[test]
fn unknown_tag_leaves_accumulation_unchanged() {
    let mut dump = new_dump();
    dump.process_datablock(superblock(&[record(0x00, 2025, 7, 31, 20, 0, 0, 0)]))
        .unwrap();
    let bad = superblock(&[record(0x7f, 2025, 7, 31, 20, 1, 0, 0)]);

    assert!(dump.process_datablock(bad).is_err());

    let files = dump.write_out(false, 0);
    assert_eq!(files.len(), 1);
    assert_eq!(files[0].points.len(), 1);
}
