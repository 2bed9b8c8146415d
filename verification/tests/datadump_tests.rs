#![allow(non_snake_case)]

use igotu_gt120b::datetime::UtcTime;
use igotu_gt120b::errors::GtError;
use igotu_gt120b::gt120b_datadump::{parse_datablock, ButtonEnum, DatablockEnum};

fn hex_bytes(s: &str) -> Vec<u8> {
    s.split_whitespace()
        .map(|b| u8::from_str_radix(b, 16).unwrap())
        .collect()
}

fn utc_dt_from_ymd_hms_milli(y: u16, mo: u8, d: u8, h: u8, mi: u8, s: u8, ms: u16) -> UtcTime {
    UtcTime::from_ymd_hms_milli(y, mo, d, h, mi, s, ms)
}

#[test]
fn parse_datablock_NoBlock_goodcase() {
    let input = hex_bytes(
        "ff ff ff ff ff ff ff ff ff ff ff ff ff ff ff ff ff ff ff ff ff ff ff ff ff ff ff ff ff ff",
    );

    let result = parse_datablock(&input).unwrap();

    println!("{:?}", result);
    assert!(matches!(result, DatablockEnum::NoBlock));
}

#[test]
fn parse_datablock_NextMod_switchOn() {
    let input = hex_bytes(
        "41 a0 19 07 fd 05 f4 15 00 00 0c 00 00 19 00 00 00 00 00 00 00 00 3a c0 00 00 00 00 00 00",
    );

    let result = parse_datablock(&input).unwrap();

    println!("{:?}", result);
    assert!(matches!(result, DatablockEnum::Button(_, _)));
    let DatablockEnum::Button(time, typ) = result else {
        panic!("Invalid result type")
    };
    assert_eq!(time, utc_dt_from_ymd_hms_milli(2025, 7, 31, 20, 5, 5, 620));
    assert_eq!(typ, ButtonEnum::On);
}

#[test]
fn parse_datablock_PrevMod_switchOff() {
    let input = hex_bytes(
        "42 a6 19 07 fd 08 69 b5 2a 00 00 00 00 00 2c 95 3b 1c ce 55 18 05 b6 a3 00 00 19 00 c0 0f",
    );

    let result = parse_datablock(&input).unwrap();

    println!("{:?}", result);
    assert!(matches!(result, DatablockEnum::Button(_, _)));
    let DatablockEnum::Button(time, typ) = result else {
        panic!("Invalid result type")
    };
    assert_eq!(time, utc_dt_from_ymd_hms_milli(2025, 7, 31, 20, 8, 46, 441));
    assert_eq!(typ, ButtonEnum::Off);
}

#[test]
fn parse_datablock_Datablock_goodcase() {
    let input = hex_bytes(
        "00 a4 19 07 fd 08 99 ad 2a 00 2b 35 00 19 2c 95 3b 1c cc 61 18 05 c2 ab 00 00 73 00 cd 1e",
    );

    let result = parse_datablock(&input).unwrap();

    println!("{:?}", result);
    assert!(matches!(result, DatablockEnum::Datablock(_)));
    let DatablockEnum::Datablock(wpt) = result else {
        panic!("Invalid result type")
    };
    assert_eq!(wpt.time, utc_dt_from_ymd_hms_milli(2025, 7, 31, 20, 8, 44, 441));
    assert_eq!(wpt.wpflags, 0x00);
    assert_eq!(wpt.sat_used, 4);
    assert_eq!(wpt.sat_visib, 10);
    assert_eq!(wpt.course_centi as f32 / 100.0, 78.85);
    assert_eq!(wpt.speed_centi as f32 / 100.0, 1.15);
    assert_eq!(wpt.hdop_deci as f32 / 10.0, 4.2);
    assert_eq!(wpt.ele_centi as f32 / 100.0, 439.7);
    assert_eq!(wpt.lat_e7 as f32 / 10000000.0, 47.366684);
    assert_eq!(wpt.lon_e7 as f32 / 10000000.0, 8.548398);
}

#[test]
fn parse_datablock_Datablock_wide_hdop() {
    let input = hex_bytes(
        "00 a4 19 07 fd 08 99 ad 17 02 2b 35 00 19 2c 95 3b 1c cc 61 18 05 c2 ab 00 00 73 00 cd 1e",
    );

    let result = parse_datablock(&input).unwrap();

    println!("{:?}", result);
    assert!(matches!(result, DatablockEnum::Datablock(_)));
    let DatablockEnum::Datablock(wpt) = result else {
        panic!("Invalid result type")
    };
    assert_eq!(wpt.time, utc_dt_from_ymd_hms_milli(2025, 7, 31, 20, 8, 44, 441));
    assert_eq!(wpt.wpflags, 0x00);
    assert_eq!(wpt.sat_used, 4);
    assert_eq!(wpt.sat_visib, 10);
    assert_eq!(wpt.course_centi as f32 / 100.0, 78.85);
    assert_eq!(wpt.speed_centi as f32 / 100.0, 1.15);
    assert_eq!(wpt.hdop_deci as f32 / 10.0, 53.5);
    assert_eq!(wpt.ele_centi as f32 / 100.0, 439.7);
    assert_eq!(wpt.lat_e7 as f32 / 10000000.0, 47.366684);
    assert_eq!(wpt.lon_e7 as f32 / 10000000.0, 8.548398);
}

#[test]
fn parse_datablock_NextMod_button() {
    let input = hex_bytes(
        "43 a0 19 07 fd 07 71 e0 00 00 0c 00 00 19 00 00 00 00 00 00 00 00 00 00 00 00 00 00 00 00",
    );

    let result = parse_datablock(&input).unwrap();

    println!("{:?}", result);
    assert!(matches!(result, DatablockEnum::Button(_, _)));
    let DatablockEnum::Button(time, typ) = result else {
        panic!("Invalid result type")
    };
    assert_eq!(time, utc_dt_from_ymd_hms_milli(2025, 7, 31, 20, 7, 57, 457));
    assert_eq!(typ, ButtonEnum::Trigger);
}

#[test]
fn parse_datablock_unknown_tag() {
    let input = hex_bytes(
        "7f a0 19 07 fd 05 f4 15 00 00 0c 00 00 19 00 00 00 00 00 00 00 00 3a c0 00 00 00 00 00 00",
    );

    let result = parse_datablock(&input);

    assert!(matches!(result, Err(GtError::UnknownRecordTag(0x5f))));
}

#[test]
fn parse_datablock_masked_bit_ignored() {
    let input = hex_bytes(
        "61 a0 19 07 fd 05 f4 15 00 00 0c 00 00 19 00 00 00 00 00 00 00 00 3a c0 00 00 00 00 00 00",
    );

    let result = parse_datablock(&input).unwrap();

    assert!(matches!(result, DatablockEnum::Button(_, ButtonEnum::On)));
}

#[test]
fn rfc3339_rendering() {
    let t = utc_dt_from_ymd_hms_milli(2025, 7, 31, 20, 8, 44, 441);
    assert_eq!(t.rfc3339(), "2025-07-31T20:08:44.441Z");
    let early = utc_dt_from_ymd_hms_milli(2003, 1, 2, 3, 4, 5, 6);
    assert_eq!(early.rfc3339(), "2003-01-02T03:04:05.006Z");
}
