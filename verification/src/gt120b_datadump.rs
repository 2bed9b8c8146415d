use vstd::prelude::*;
use crate::commands::spec_le_value;
use crate::datetime::{spec_grace_until_ms, spec_local_day, spec_timestamp_ms, spec_to_local, spec_file_stamp, wf_time, UtcTime};
use crate::errors::GtError;

verus! {

/// A fully decoded geolocated track point.  Physical quantities are held as
/// the integers the record carries; the documented scale divisors (100 for
/// course, speed and elevation, 10 for dilution, 10^7 for coordinates) are
/// applied only where values are rendered.
#[derive(Debug, Clone, Copy, PartialEq, Eq, Structural)]
pub struct Waypoint {
    pub time: UtcTime,
    pub wpflags: u8,
    pub sat_used: u8,
    pub sat_visib: u8,
    pub course_centi: u16,
    pub speed_centi: u16,
    pub hdop_deci: u16,
    pub ele_centi: i32,
    pub lat_e7: i32,
    pub lon_e7: i32,
}

/// The three marker kinds a coordinate-free record can carry.
#[derive(Debug, Clone, Copy, PartialEq, Eq, Structural)]
pub enum ButtonEnum {
    /// Track start: begins a new output file.
    On,
    /// Track stop: flags the nearest preceding fix.
    Off,
    /// Button press: flags the nearest following fix.
    Trigger,
}

/// One classified 30-byte track record.
#[derive(Debug, Clone, Copy, PartialEq, Eq, Structural)]
pub enum DatablockEnum {
    /// A geolocated fix.
    Datablock(Waypoint),
    /// A track-boundary or button marker, with its timestamp.
    Button(UtcTime, ButtonEnum),
    /// No data: dropped before any further processing.
    NoBlock,
}

pub open spec fn spec_time_of(d: DatablockEnum) -> UtcTime {
    match d {
        DatablockEnum::Datablock(w) => w.time,
        DatablockEnum::Button(t, _) => t,
        DatablockEnum::NoBlock => UtcTime {
            year: 2000,
            month: 1,
            day: 1,
            hour: 0,
            minute: 0,
            second: 0,
            millis: 0,
        },
    }
}

/// Every entry the decoder hands on has in-range time fields and is not a
/// no-data sentinel.
pub open spec fn wf_entry(d: DatablockEnum) -> bool {
    wf_time(spec_time_of(d)) && !(d is NoBlock)
}

impl DatablockEnum {
    /// The timestamp entries are ordered by.
    pub fn time(&self) -> (t: UtcTime)
        ensures
            t == spec_time_of(*self),
    {
        match self {
            DatablockEnum::Datablock(w) => w.time,
            DatablockEnum::Button(t, _) => *t,
            DatablockEnum::NoBlock => UtcTime {
                year: 2000,
                month: 1,
                day: 1,
                hour: 0,
                minute: 0,
                second: 0,
                millis: 0,
            },
        }
    }

    /// Whether this entry forces a new output file: a fix carrying the
    /// "begin" flag bit, or a track-start marker.
    pub fn is_new_file(&self) -> (r: bool)
        ensures
            r == spec_is_new_file(*self),
    {
        match self {
            DatablockEnum::Datablock(w) => w.wpflags & 0x01 != 0,
            DatablockEnum::Button(_, typ) => matches!(*typ, ButtonEnum::On),
            _ => false,
        }
    }
}

pub open spec fn spec_is_new_file(d: DatablockEnum) -> bool {
    match d {
        DatablockEnum::Datablock(w) => w.wpflags & 0x01 != 0,
        DatablockEnum::Button(_, typ) => typ is On,
        DatablockEnum::NoBlock => false,
    }
}

/// Big-endian 32-bit value at `start`.
pub open spec fn spec_be32(v: Seq<u8>, start: int) -> int {
    ((v[start] * 256 + v[start + 1]) * 256 + v[start + 2]) * 256 + v[start + 3]
}

/// Little-endian 16-bit value at `start`.
pub open spec fn spec_u16_le(v: Seq<u8>, start: int) -> int {
    v[start] + v[start + 1] * 256
}

/// Little-endian signed 32-bit value at `start`.
pub open spec fn spec_i32_le(v: Seq<u8>, start: int) -> int {
    let u = spec_le_value(v, start, 4);
    if u >= 0x80000000 {
        u - 0x100000000
    } else {
        u
    }
}

/// The packed timestamp of a record: a big-endian 32-bit field at bytes 2-5
/// (year byte, then month, day, hour and minute bit fields) and a
/// little-endian millisecond-of-minute at bytes 6-7.
pub open spec fn spec_record_time(v: Seq<u8>) -> UtcTime {
    let ymd = spec_be32(v, 2);
    let fullms = spec_u16_le(v, 6);
    UtcTime {
        year: (2000 + v[2]) as u16,
        month: ((ymd / 65536) % 16) as u8,
        day: ((ymd / 2048) % 32) as u8,
        hour: ((ymd / 64) % 32) as u8,
        minute: (ymd % 64) as u8,
        second: (fullms / 1000) as u8,
        millis: (fullms % 1000) as u16,
    }
}

/// The full fix decode at the documented byte offsets.
pub open spec fn spec_record_waypoint(v: Seq<u8>) -> Waypoint {
    Waypoint {
        time: spec_record_time(v),
        wpflags: 0,
        sat_used: (v[1] % 16) as u8,
        sat_visib: (v[1] / 16) as u8,
        course_centi: spec_u16_le(v, 28) as u16,
        speed_centi: spec_u16_le(v, 26) as u16,
        hdop_deci: spec_u16_le(v, 8) as u16,
        ele_centi: spec_i32_le(v, 22) as i32,
        lat_e7: spec_i32_le(v, 14) as i32,
        lon_e7: spec_i32_le(v, 18) as i32,
    }
}

/// Classification of one 30-byte record.  The no-data patterns are matched
/// on the raw first byte; the remaining variants on the first byte with the
/// undocumented sometimes-set 0x20 bit cleared.  Any other masked value is
/// the error it carries.
pub open spec fn spec_parse_record(v: Seq<u8>) -> Result<DatablockEnum, u8> {
    let tag = v[0];
    if tag == 0xff || tag == 0x02 || tag == 0x50 {
        Ok(DatablockEnum::NoBlock)
    } else {
        let masked = tag & 0xdf;
        if masked == 0x41 {
            Ok(DatablockEnum::Button(spec_record_time(v), ButtonEnum::On))
        } else if masked == 0x42 {
            Ok(DatablockEnum::Button(spec_record_time(v), ButtonEnum::Off))
        } else if masked == 0x43 {
            Ok(DatablockEnum::Button(spec_record_time(v), ButtonEnum::Trigger))
        } else if masked == 0x00 {
            Ok(DatablockEnum::Datablock(spec_record_waypoint(v)))
        } else {
            Err(masked)
        }
    }
}

proof fn lemma_le4(s: Seq<u8>, start: int)
    requires
        0 <= start,
        start + 4 <= s.len(),
    ensures
        spec_le_value(s, start, 4) == s[start] + s[start + 1] * 256 + s[start + 2] * 65536 + s[start
            + 3] * 16777216,
        0 <= spec_le_value(s, start, 4) < 0x100000000,
{
    assert(spec_le_value(s, start + 3, 1) == s[start + 3] + 256 * spec_le_value(s, start + 4, 0));
    assert(spec_le_value(s, start + 2, 2) == s[start + 2] + 256 * spec_le_value(s, start + 3, 1));
    assert(spec_le_value(s, start + 1, 3) == s[start + 1] + 256 * spec_le_value(s, start + 2, 2));
    assert(spec_le_value(s, start, 4) == s[start] + 256 * spec_le_value(s, start + 1, 3));
}

fn u32_be_at(data: &Vec<u8>, start: usize) -> (r: u32)
    requires
        start + 4 <= data.len(),
    ensures
        r == spec_be32(data@, start as int),
{
    ((data[start] as u32 * 256 + data[start + 1] as u32) * 256 + data[start + 2] as u32) * 256
        + data[start + 3] as u32
}

fn u16_le_at(data: &Vec<u8>, start: usize) -> (r: u16)
    requires
        start + 2 <= data.len(),
    ensures
        r == spec_u16_le(data@, start as int),
{
    data[start] as u16 + data[start + 1] as u16 * 256
}

fn i32_le_at(data: &Vec<u8>, start: usize) -> (r: i32)
    requires
        start + 4 <= data.len(),
    ensures
        r as int == spec_i32_le(data@, start as int),
{
    proof {
        lemma_le4(data@, start as int);
    }
    let u: u64 = data[start] as u64 + data[start + 1] as u64 * 256 + data[start + 2] as u64 * 65536
        + data[start + 3] as u64 * 16777216;
    if u >= 0x80000000 {
        ((u as i64) - 0x100000000) as i32
    } else {
        u as i32
    }
}

fn record_time_at(data: &Vec<u8>, start: usize) -> (t: UtcTime)
    requires
        start + 30 <= data.len(),
    ensures
        t == spec_record_time(data@.subrange(start as int, start as int + 30)),
        wf_time(t),
{
    let ghost v = data@.subrange(start as int, start as int + 30);
    let ymd = u32_be_at(data, start + 2);
    let fullms = u16_le_at(data, start + 6);
    assert(ymd / 65536 % 16 == spec_be32(v, 2) / 65536 % 16);
    UtcTime {
        year: 2000 + data[start + 2] as u16,
        month: (ymd / 65536 % 16) as u8,
        day: (ymd / 2048 % 32) as u8,
        hour: (ymd / 64 % 32) as u8,
        minute: (ymd % 64) as u8,
        second: (fullms / 1000) as u8,
        millis: fullms % 1000,
    }
}

/// Parses the 30-byte record at `start`, classifying it by its (masked)
/// first byte and decoding the packed fields of the matching variant.
fn parse_record_at(data: &Vec<u8>, start: usize) -> (r: Result<DatablockEnum, GtError>)
    requires
        start + 30 <= data.len(),
    ensures
        r matches Ok(d) ==> spec_parse_record(data@.subrange(start as int, start as int + 30))
            == Ok::<DatablockEnum, u8>(d) && (wf_entry(d) || d is NoBlock),
        r matches Err(e) ==> e matches GtError::UnknownRecordTag(t) && spec_parse_record(
            data@.subrange(start as int, start as int + 30),
        ) == Err::<DatablockEnum, u8>(t),
{
    let ghost v = data@.subrange(start as int, start as int + 30);
    let tag = data[start];
    if tag == 0xff || tag == 0x02 || tag == 0x50 {
        return Ok(DatablockEnum::NoBlock);
    }
    let masked = tag & 0xdf;
    if masked == 0x41 {
        return Ok(DatablockEnum::Button(record_time_at(data, start), ButtonEnum::On));
    }
    if masked == 0x42 {
        return Ok(DatablockEnum::Button(record_time_at(data, start), ButtonEnum::Off));
    }
    if masked == 0x43 {
        return Ok(DatablockEnum::Button(record_time_at(data, start), ButtonEnum::Trigger));
    }
    if masked != 0x00 {
        return Err(GtError::UnknownRecordTag(masked));
    }
    let time = record_time_at(data, start);
    let wp = Waypoint {
        time,
        wpflags: 0,
        sat_used: data[start + 1] % 16,
        sat_visib: data[start + 1] / 16,
        course_centi: u16_le_at(data, start + 28),
        speed_centi: u16_le_at(data, start + 26),
        hdop_deci: u16_le_at(data, start + 8),
        ele_centi: i32_le_at(data, start + 22),
        lat_e7: i32_le_at(data, start + 14),
        lon_e7: i32_le_at(data, start + 18),
    };
    proof {
        lemma_le4(v, 22);
        lemma_le4(data@, start as int + 22);
        lemma_le4(v, 14);
        lemma_le4(data@, start as int + 14);
        lemma_le4(v, 18);
        lemma_le4(data@, start as int + 18);
        assert(wp == spec_record_waypoint(v));
    }
    Ok(DatablockEnum::Datablock(wp))
}

/// Parses one whole 30-byte record.
pub fn parse_datablock(value: &Vec<u8>) -> (r: Result<DatablockEnum, GtError>)
    requires
        value@.len() == 30,
    ensures
        r matches Ok(d) ==> spec_parse_record(value@) == Ok::<DatablockEnum, u8>(d) && (wf_entry(d)
            || d is NoBlock),
        r matches Err(e) ==> e matches GtError::UnknownRecordTag(t) && spec_parse_record(value@)
            == Err::<DatablockEnum, u8>(t),
{
    assert(value@.subrange(0, 30) =~= value@);
    parse_record_at(value, 0)
}

/// The 30-byte record slot `k` of `data`: record `k % 4` of super-block
/// `k / 4`, behind that block's 8-byte header.
pub open spec fn spec_slot(data: Seq<u8>, k: int) -> Seq<u8> {
    let off = 128 * (k / 4) + 8 + 30 * (k % 4);
    data.subrange(off, off + 30)
}

/// Decoding of the record slots of `data` from slot `k` on: each slot is
/// classified in order; the first unknown tag aborts the decode with that
/// tag; no-data records are dropped.
pub open spec fn spec_decode_from(data: Seq<u8>, k: int) -> Result<Seq<DatablockEnum>, u8>
    decreases 4 * (data.len() / 128) - k,
{
    if k < 0 || k >= 4 * (data.len() / 128) {
        Ok(Seq::empty())
    } else {
        match spec_parse_record(spec_slot(data, k)) {
            Err(t) => Err(t),
            Ok(d) => match spec_decode_from(data, k + 1) {
                Err(t) => Err(t),
                Ok(s) => Ok(
                    if d is NoBlock {
                        s
                    } else {
                        seq![d] + s
                    },
                ),
            },
        }
    }
}

/// Decoding of a whole sequence of 128-byte super-blocks.
pub open spec fn spec_decode_data(data: Seq<u8>) -> Result<Seq<DatablockEnum>, u8> {
    spec_decode_from(data, 0)
}


/// One step of the slot decode, as `spec_decode_from` unfolds it.
proof fn lemma_decode_from_step(data: Seq<u8>, k: int)
    requires
        0 <= k < 4 * (data.len() / 128),
    ensures
        spec_decode_from(data, k) == (match spec_parse_record(spec_slot(data, k)) {
            Err(t) => Err::<Seq<DatablockEnum>, u8>(t),
            Ok(d) => match spec_decode_from(data, k + 1) {
                Err(t) => Err::<Seq<DatablockEnum>, u8>(t),
                Ok(s) => Ok::<Seq<DatablockEnum>, u8>(
                    if d is NoBlock {
                        s
                    } else {
                        seq![d] + s
                    },
                ),
            },
        }),
{
}

/// The accumulated decoded entries of one full read pass, with the exporter
/// that turns them into per-file track sequences.
pub struct Gt120bDataDump {
    waypoints: Vec<DatablockEnum>,
    prefix: String,
    suffix: String,
}

impl Gt120bDataDump {
    /// The entries decoded so far, in arrival order until sorted.
    pub closed spec fn entries(&self) -> Seq<DatablockEnum> {
        self.waypoints@
    }

    pub closed spec fn spec_prefix(&self) -> Seq<char> {
        self.prefix@
    }

    pub closed spec fn spec_suffix(&self) -> Seq<char> {
        self.suffix@
    }

    /// Everything accumulated came out of the record decoder: time fields in
    /// range and no no-data sentinels.
    pub open spec fn wf(&self) -> bool {
        forall|i: int| 0 <= i < self.entries().len() ==> wf_entry(#[trigger] self.entries()[i])
    }

    /// A fresh, empty accumulation.  `prefix` and `suffix` surround the
    /// timestamp in the names of the files the exporter emits.
    pub fn new(prefix: String, suffix: String) -> (r: Gt120bDataDump)
        ensures
            r.entries() == Seq::<DatablockEnum>::empty(),
            r.wf(),
            r.spec_prefix() == prefix@,
            r.spec_suffix() == suffix@,
    {
        Gt120bDataDump { waypoints: Vec::new(), prefix, suffix }
    }

    /// Decodes a whole number of 128-byte super-blocks and appends every
    /// entry that carries data.  An unknown record tag aborts the decode and
    /// leaves the accumulation unchanged.
    pub fn process_datablock(&mut self, data: Vec<u8>) -> (r: Result<(), GtError>)
        requires
            old(self).wf(),
            data@.len() % 128 == 0,
        ensures
            final(self).wf(),
            final(self).spec_prefix() == old(self).spec_prefix(),
            final(self).spec_suffix() == old(self).spec_suffix(),
            (r is Ok) == (spec_decode_data(data@) is Ok),
            r is Ok ==> (spec_decode_data(data@) matches Ok(s) && final(self).entries() == old(
                self,
            ).entries() + s),
            r is Err ==> final(self).entries() == old(self).entries(),
            r matches Err(e) ==> (e matches GtError::UnknownRecordTag(t) && spec_decode_data(data@)
                == Err::<Seq<DatablockEnum>, u8>(t)),
    {
        let num_slots: usize = (data.len() / 128) * 4;
        let mut out: Vec<DatablockEnum> = Vec::new();
        let mut k: usize = 0;
        while k < num_slots
            invariant
                *self == *old(self),
                old(self).wf(),
                k <= num_slots,
                num_slots == 4 * (data@.len() / 128),
                data@.len() % 128 == 0,
                data@.len() <= usize::MAX,
                forall|i: int| 0 <= i < out@.len() ==> wf_entry(#[trigger] out@[i]),
                spec_decode_from(data@, k as int) matches Ok(s) ==> spec_decode_data(data@)
                    == Ok::<Seq<DatablockEnum>, u8>(out@ + s),
                spec_decode_from(data@, k as int) matches Err(t) ==> spec_decode_data(data@)
                    == Err::<Seq<DatablockEnum>, u8>(t),
            decreases num_slots - k,
        {
            proof {
                assert(k as int / 4 < data@.len() / 128);
                assert(128 * (data@.len() / 128) <= data@.len());
            }
            let start: usize = (k / 4) * 128 + 8 + (k % 4) * 30;
            let ghost slot = data@.subrange(start as int, start as int + 30);
            proof {
                assert(slot =~= spec_slot(data@, k as int));
                lemma_decode_from_step(data@, k as int);
            }
            match parse_record_at(&data, start) {
                Err(e) => {
                    return Err(e);
                },
                Ok(d) => {
                    let ghost out_before = out@;
                    if !matches!(d, DatablockEnum::NoBlock) {
                        out.push(d);
                    }
                    proof {
                        let rec = spec_decode_from(data@, k as int + 1);
                        if rec is Ok {
                            let s2 = rec->Ok_0;
                            if d is NoBlock {
                                assert(out_before + s2 =~= out@ + s2);
                            } else {
                                assert(out_before + (seq![d] + s2) =~= out@ + s2);
                            }
                        }
                    }
                },
            }
            k = k + 1;
        }
        let ghost out_final = out@;
        let ghost before = self.waypoints@;
        self.waypoints.append(&mut out);
        proof {
            assert(spec_decode_from(data@, num_slots as int) == Ok::<Seq<DatablockEnum>, u8>(
                Seq::empty(),
            ));
            assert(out_final + Seq::<DatablockEnum>::empty() =~= out_final);
            assert forall|i: int| 0 <= i < self.waypoints@.len() implies wf_entry(
                #[trigger] self.waypoints@[i],
            ) by {
                if i < before.len() {
                    assert(wf_entry(old(self).entries()[i]));
                } else {
                    assert(self.waypoints@[i] == out_final[i - before.len()]);
                }
            }
        }
        Ok(())
    }
}

impl Gt120bDataDump {
    /// The timestamp of the first accumulated entry, in arrival order; what
    /// the local zone offset is looked up for.
    pub fn first_entry_time(&self) -> (r: Option<UtcTime>)
        ensures
            (r is Some) == (self.entries().len() > 0),
            r matches Some(t) ==> t == spec_time_of(self.entries()[0]),
    {
        if self.waypoints.len() == 0 {
            None
        } else {
            Some(self.waypoints[0].time())
        }
    }
}

/// The timestamp key entries are ordered by.
pub open spec fn spec_entry_key(d: DatablockEnum) -> int {
    spec_timestamp_ms(spec_time_of(d))
}

pub open spec fn spec_sorted_by_time(s: Seq<DatablockEnum>) -> bool {
    forall|i: int, j: int|
        0 <= i < j < s.len() ==> spec_entry_key(s[i]) <= spec_entry_key(s[j])
}

/// Insertion of `x` behind every entry whose key is at most the key of `x`:
/// entries with equal timestamps keep their arrival order.
pub open spec fn spec_stable_insert(s: Seq<DatablockEnum>, x: DatablockEnum) -> Seq<DatablockEnum>
    decreases s.len(),
{
    if s.len() == 0 {
        seq![x]
    } else if spec_entry_key(s.last()) <= spec_entry_key(x) {
        s.push(x)
    } else {
        spec_stable_insert(s.drop_last(), x).push(s.last())
    }
}

/// The stable sort of the entries by timestamp: each entry in turn inserted
/// behind its equals.
pub open spec fn spec_sort_entries(s: Seq<DatablockEnum>) -> Seq<DatablockEnum>
    decreases s.len(),
{
    if s.len() == 0 {
        Seq::empty()
    } else {
        spec_stable_insert(spec_sort_entries(s.drop_last()), s.last())
    }
}

proof fn lemma_stable_insert_at(s: Seq<DatablockEnum>, x: DatablockEnum, p: int)
    requires
        0 <= p <= s.len(),
        forall|j: int| p <= j < s.len() ==> spec_entry_key(#[trigger] s[j]) > spec_entry_key(x),
        p > 0 ==> spec_entry_key(s[p - 1]) <= spec_entry_key(x),
    ensures
        spec_stable_insert(s, x) =~= s.take(p) + seq![x] + s.skip(p),
    decreases s.len(),
{
    if s.len() == 0 {
        assert(spec_stable_insert(s, x) =~= s.take(p) + seq![x] + s.skip(p));
    } else if spec_entry_key(s.last()) <= spec_entry_key(x) {
        assert(p == s.len());
        assert(spec_stable_insert(s, x) =~= s.take(p) + seq![x] + s.skip(p));
    } else {
        assert(p < s.len());
        lemma_stable_insert_at(s.drop_last(), x, p);
        assert(s.drop_last().take(p) =~= s.take(p));
        assert(s.drop_last().skip(p).push(s.last()) =~= s.skip(p));
        assert(spec_stable_insert(s, x) =~= s.take(p) + seq![x] + s.skip(p));
    }
}

/// Stable insertion keeps exactly the entries it was given, one more copy of
/// the inserted one, and keeps the sequence sorted.
pub proof fn lemma_stable_insert_props(s: Seq<DatablockEnum>, x: DatablockEnum)
    ensures
        spec_stable_insert(s, x).to_multiset() == s.to_multiset().insert(x),
        spec_stable_insert(s, x).len() == s.len() + 1,
        spec_sorted_by_time(s) ==> spec_sorted_by_time(spec_stable_insert(s, x)),
    decreases s.len(),
{
    broadcast use vstd::seq_lib::group_to_multiset_ensures;

    if s.len() == 0 {
        assert(seq![x] =~= Seq::<DatablockEnum>::empty().push(x));
        assert(seq![x].to_multiset() == Seq::<DatablockEnum>::empty().to_multiset().insert(x));
        assert(Seq::<DatablockEnum>::empty().to_multiset() == s.to_multiset());
    } else if spec_entry_key(s.last()) <= spec_entry_key(x) {
        if spec_sorted_by_time(s) {
            let r = s.push(x);
            assert forall|i: int, j: int| 0 <= i < j < r.len() implies spec_entry_key(r[i])
                <= spec_entry_key(r[j]) by {
                if j < s.len() {
                } else {
                    assert(r[j] == x);
                    if i < s.len() - 1 {
                        assert(spec_entry_key(s[i]) <= spec_entry_key(s[s.len() - 1]));
                    }
                }
            }
        }
    } else {
        lemma_stable_insert_props(s.drop_last(), x);
        let r0 = spec_stable_insert(s.drop_last(), x);
        let r = r0.push(s.last());
        assert(s.drop_last().push(s.last()) =~= s);
        assert(s.drop_last().to_multiset().insert(s.last()) == s.to_multiset());
        assert(r.to_multiset() == r0.to_multiset().insert(s.last()));
        assert(s.drop_last().to_multiset().insert(x).insert(s.last())
            =~= s.drop_last().to_multiset().insert(s.last()).insert(x)) by {
            broadcast use vstd::multiset::group_multiset_axioms;
            broadcast use vstd::multiset::group_multiset_properties;

        }
        if spec_sorted_by_time(s) {
            assert(spec_sorted_by_time(s.drop_last()));
            lemma_stable_insert_members(s.drop_last(), x);
            assert forall|i: int, j: int| 0 <= i < j < r.len() implies spec_entry_key(r[i])
                <= spec_entry_key(r[j]) by {
                if j == r.len() - 1 {
                    assert(r[j] == s.last());
                    assert(r0[i] == x || s.drop_last().contains(r0[i]));
                    if s.drop_last().contains(r0[i]) {
                        let w = choose|w: int|
                            0 <= w < s.drop_last().len() && s.drop_last()[w] == r0[i];
                        assert(spec_entry_key(s[w]) <= spec_entry_key(s[s.len() - 1]));
                    }
                }
            }
        }
    }
}

/// Every entry of a stable insertion is the inserted one or one of the
/// original entries.
proof fn lemma_stable_insert_members(s: Seq<DatablockEnum>, x: DatablockEnum)
    ensures
        forall|i: int|
            0 <= i < spec_stable_insert(s, x).len() ==> #[trigger] spec_stable_insert(s, x)[i] == x
                || s.contains(spec_stable_insert(s, x)[i]),
    decreases s.len(),
{
    if s.len() == 0 {
    } else if spec_entry_key(s.last()) <= spec_entry_key(x) {
        assert(forall|i: int| 0 <= i < s.len() ==> s.contains(#[trigger] s[i]));
    } else {
        lemma_stable_insert_members(s.drop_last(), x);
        assert forall|i: int| 0 <= i < spec_stable_insert(s, x).len() implies #[trigger]
            spec_stable_insert(s, x)[i] == x || s.contains(spec_stable_insert(s, x)[i]) by {
            let r = spec_stable_insert(s, x);
            if i < r.len() - 1 {
                if r[i] != x {
                    let w = choose|w: int|
                        0 <= w < s.drop_last().len() && s.drop_last()[w] == r[i];
                    assert(s[w] == r[i]);
                }
            } else {
                assert(r[i] == s.last());
                assert(s[s.len() - 1] == s.last());
            }
        }
    }
}

/// The stable sort keeps exactly the entries it was given and orders them.
pub proof fn lemma_sort_entries_props(s: Seq<DatablockEnum>)
    ensures
        spec_sort_entries(s).to_multiset() == s.to_multiset(),
        spec_sort_entries(s).len() == s.len(),
        spec_sorted_by_time(spec_sort_entries(s)),
    decreases s.len(),
{
    broadcast use vstd::seq_lib::group_to_multiset_ensures;

    if s.len() > 0 {
        lemma_sort_entries_props(s.drop_last());
        lemma_stable_insert_props(spec_sort_entries(s.drop_last()), s.last());
        assert(s.drop_last().push(s.last()) =~= s);
        assert(s.drop_last().to_multiset().insert(s.last()) == s.to_multiset());
    }
}

fn sorted_insert(v: &mut Vec<DatablockEnum>, x: DatablockEnum)
    requires
        forall|i: int| 0 <= i < old(v)@.len() ==> wf_entry(#[trigger] old(v)@[i]),
        wf_entry(x),
    ensures
        final(v)@ == spec_stable_insert(old(v)@, x),
        forall|i: int| 0 <= i < final(v)@.len() ==> wf_entry(#[trigger] final(v)@[i]),
{
    let ghost orig = v@;
    let xk = x.time().timestamp_ms();
    let mut p: usize = v.len();
    let mut scanning = true;
    while scanning && p > 0
        invariant
            p <= v@.len(),
            v@ == orig,
            forall|i: int| 0 <= i < v@.len() ==> wf_entry(#[trigger] v@[i]),
            xk == spec_entry_key(x),
            wf_entry(x),
            forall|j: int| p <= j < v@.len() ==> spec_entry_key(#[trigger] v@[j]) > xk,
            !scanning ==> p > 0 && spec_entry_key(v@[p - 1]) <= xk,
        decreases p + (if scanning { 1int } else { 0int }),
    {
        let cand = v[p - 1].time().timestamp_ms();
        if cand <= xk {
            scanning = false;
        } else {
            p = p - 1;
        }
    }
    proof {
        lemma_stable_insert_at(orig, x, p as int);
    }
    v.insert(p, x);
    assert(v@ =~= orig.take(p as int) + seq![x] + orig.skip(p as int));
    proof {
        lemma_stable_insert_props(orig, x);
        assert forall|i: int| 0 <= i < v@.len() implies wf_entry(#[trigger] v@[i]) by {
            if i < p {
                assert(v@[i] == orig[i]);
            } else if i > p {
                assert(v@[i] == orig[i - 1]);
            }
        }
    }
}

impl Gt120bDataDump {
    /// Sorts the accumulated entries by timestamp, stably.
    fn sort_entries(&mut self)
        requires
            old(self).wf(),
        ensures
            final(self).wf(),
            final(self).entries() == spec_sort_entries(old(self).entries()),
            final(self).spec_prefix() == old(self).spec_prefix(),
            final(self).spec_suffix() == old(self).spec_suffix(),
    {
        let ghost orig = self.waypoints@;
        proof {
            assert forall|j: int| 0 <= j < orig.len() implies wf_entry(#[trigger] orig[j]) by {
                assert(wf_entry(old(self).entries()[j]));
            }
        }
        let mut out: Vec<DatablockEnum> = Vec::new();
        let mut i: usize = 0;
        while i < self.waypoints.len()
            invariant
                i <= self.waypoints@.len(),
                self.waypoints@ == orig,
                self.prefix@ == old(self).spec_prefix(),
                self.suffix@ == old(self).spec_suffix(),
                forall|j: int| 0 <= j < orig.len() ==> wf_entry(#[trigger] orig[j]),
                out@ == spec_sort_entries(orig.take(i as int)),
                forall|j: int| 0 <= j < out@.len() ==> wf_entry(#[trigger] out@[j]),
            decreases self.waypoints@.len() - i,
        {
            let x = self.waypoints[i];
            sorted_insert(&mut out, x);
            proof {
                assert(orig.take(i as int + 1).drop_last() =~= orig.take(i as int));
                assert(orig.take(i as int + 1).last() == orig[i as int]);
            }
            i = i + 1;
        }
        assert(orig.take(orig.len() as int) =~= orig);
        self.waypoints = out;
    }
}


/// The forward flag pass over the time-sorted entries.  The carry starts at
/// zero; a track-start marker raises the begin bit (0x01) in it, a button
/// press the trigger bit (0x10), a track-stop marker resets it; the nearest
/// following fix absorbs the carry into its flags, and the carry resets.
pub open spec fn spec_flags_forward(s: Seq<DatablockEnum>, carry: u8) -> Seq<DatablockEnum>
    decreases s.len(),
{
    if s.len() == 0 {
        Seq::empty()
    } else {
        match s[0] {
            DatablockEnum::NoBlock => seq![s[0]] + spec_flags_forward(s.skip(1), carry),
            DatablockEnum::Button(t, b) => {
                let c2 = if b is On {
                    carry | 0x01
                } else if b is Off {
                    0
                } else {
                    carry | 0x10
                };
                seq![s[0]] + spec_flags_forward(s.skip(1), c2)
            },
            DatablockEnum::Datablock(w) => seq![
                DatablockEnum::Datablock(Waypoint { wpflags: w.wpflags | carry, ..w }),
            ] + spec_flags_forward(s.skip(1), 0),
        }
    }
}

/// The backward flag pass, scanning from the last entry to the first.  A
/// track-stop marker raises the end bit (0x02) in the carry, a track-start
/// marker resets it, a button press leaves it alone; the nearest preceding
/// fix absorbs the carry and resets it.
pub open spec fn spec_flags_backward(s: Seq<DatablockEnum>, carry: u8) -> Seq<DatablockEnum>
    decreases s.len(),
{
    if s.len() == 0 {
        Seq::empty()
    } else {
        match s.last() {
            DatablockEnum::NoBlock => spec_flags_backward(s.drop_last(), carry).push(s.last()),
            DatablockEnum::Button(t, b) => {
                let c2 = if b is On {
                    0
                } else if b is Off {
                    carry | 0x02
                } else {
                    carry
                };
                spec_flags_backward(s.drop_last(), c2).push(s.last())
            },
            DatablockEnum::Datablock(w) => spec_flags_backward(s.drop_last(), 0).push(
                DatablockEnum::Datablock(Waypoint { wpflags: w.wpflags | carry, ..w }),
            ),
        }
    }
}

impl Gt120bDataDump {
    /// Applies the forward flag pass in place.
    fn transfer_flags_forward(&mut self)
        requires
            old(self).wf(),
        ensures
            final(self).wf(),
            final(self).entries() == spec_flags_forward(old(self).entries(), 0),
            final(self).spec_prefix() == old(self).spec_prefix(),
            final(self).spec_suffix() == old(self).spec_suffix(),
    {
        let ghost orig = self.waypoints@;
        proof {
            assert forall|j: int| 0 <= j < orig.len() implies wf_entry(#[trigger] orig[j]) by {
                assert(wf_entry(old(self).entries()[j]));
            }
            assert(orig.skip(0int) =~= orig);
            assert(self.waypoints@.take(0int) =~= Seq::<DatablockEnum>::empty());
            assert(Seq::<DatablockEnum>::empty() + spec_flags_forward(orig, 0)
                =~= spec_flags_forward(orig, 0));
        }
        let mut carry: u8 = 0;
        let mut i: usize = 0;
        while i < self.waypoints.len()
            invariant
                i <= orig.len(),
                self.waypoints@.len() == orig.len(),
                self.prefix@ == old(self).spec_prefix(),
                self.suffix@ == old(self).spec_suffix(),
                self.waypoints@.skip(i as int) == orig.skip(i as int),
                forall|j: int|
                    0 <= j < self.waypoints@.len() ==> wf_entry(#[trigger] self.waypoints@[j]),
                spec_flags_forward(orig, 0) == self.waypoints@.take(i as int) + spec_flags_forward(
                    orig.skip(i as int),
                    carry,
                ),
            decreases orig.len() - i,
        {
            let ghost ii = i as int;
            proof {
                assert(orig.skip(ii)[0] == orig[ii]);
                assert(orig.skip(ii).skip(1) =~= orig.skip(ii + 1));
                assert(self.waypoints@[ii] == orig.skip(ii)[0]);
            }
            let ghost v_before = self.waypoints@;
            let ghost carry_before = carry;
            let d = self.waypoints[i];
            match d {
                DatablockEnum::NoBlock => {},
                DatablockEnum::Button(_, typ) => {
                    match typ {
                        ButtonEnum::On => {
                            carry = carry | 0x01;
                        },
                        ButtonEnum::Off => {
                            carry = 0;
                        },
                        ButtonEnum::Trigger => {
                            carry = carry | 0x10;
                        },
                    }
                },
                DatablockEnum::Datablock(w) => {
                    let w2 = Waypoint { wpflags: w.wpflags | carry, ..w };
                    self.waypoints.set(i, DatablockEnum::Datablock(w2));
                    carry = 0;
                },
            }
            proof {
                assert(spec_flags_forward(orig.skip(ii), carry_before) == seq![
                    self.waypoints@[ii],
                ] + spec_flags_forward(orig.skip(ii + 1), carry));
                assert(self.waypoints@.take(ii + 1) =~= v_before.take(ii) + seq![
                    self.waypoints@[ii],
                ]);
                assert(self.waypoints@.skip(ii + 1) =~= orig.skip(ii + 1));
                assert(v_before.take(ii) + (seq![self.waypoints@[ii]] + spec_flags_forward(
                    orig.skip(ii + 1),
                    carry,
                )) =~= self.waypoints@.take(ii + 1) + spec_flags_forward(orig.skip(ii + 1), carry));
            }
            i = i + 1;
        }
        proof {
            assert(orig.skip(orig.len() as int) =~= Seq::<DatablockEnum>::empty());
            assert(self.waypoints@.take(orig.len() as int) =~= self.waypoints@);
        }
    }

    /// Applies the backward flag pass in place.
    fn transfer_flags_backward(&mut self)
        requires
            old(self).wf(),
        ensures
            final(self).wf(),
            final(self).entries() == spec_flags_backward(old(self).entries(), 0),
            final(self).spec_prefix() == old(self).spec_prefix(),
            final(self).spec_suffix() == old(self).spec_suffix(),
    {
        let ghost orig = self.waypoints@;
        proof {
            assert forall|j: int| 0 <= j < orig.len() implies wf_entry(#[trigger] orig[j]) by {
                assert(wf_entry(old(self).entries()[j]));
            }
            assert(orig.take(orig.len() as int) =~= orig);
            assert(self.waypoints@.skip(orig.len() as int) =~= Seq::<DatablockEnum>::empty());
            assert(spec_flags_backward(orig, 0) + Seq::<DatablockEnum>::empty()
                =~= spec_flags_backward(orig, 0));
        }
        let mut carry: u8 = 0;
        let mut i: usize = self.waypoints.len();
        while i > 0
            invariant
                i <= orig.len(),
                self.waypoints@.len() == orig.len(),
                self.prefix@ == old(self).spec_prefix(),
                self.suffix@ == old(self).spec_suffix(),
                self.waypoints@.take(i as int) == orig.take(i as int),
                forall|j: int|
                    0 <= j < self.waypoints@.len() ==> wf_entry(#[trigger] self.waypoints@[j]),
                spec_flags_backward(orig, 0) == spec_flags_backward(orig.take(i as int), carry)
                    + self.waypoints@.skip(i as int),
            decreases i,
        {
            let ghost ii = i as int;
            proof {
                assert(orig.take(ii).last() == orig[ii - 1]);
                assert(orig.take(ii).drop_last() =~= orig.take(ii - 1));
                assert(self.waypoints@[ii - 1] == orig.take(ii)[ii - 1]);
            }
            let ghost v_before = self.waypoints@;
            let ghost carry_before = carry;
            let d = self.waypoints[i - 1];
            match d {
                DatablockEnum::NoBlock => {},
                DatablockEnum::Button(_, typ) => {
                    match typ {
                        ButtonEnum::On => {
                            carry = 0;
                        },
                        ButtonEnum::Off => {
                            carry = carry | 0x02;
                        },
                        ButtonEnum::Trigger => {},
                    }
                },
                DatablockEnum::Datablock(w) => {
                    let w2 = Waypoint { wpflags: w.wpflags | carry, ..w };
                    self.waypoints.set(i - 1, DatablockEnum::Datablock(w2));
                    carry = 0;
                },
            }
            proof {
                assert(spec_flags_backward(orig.take(ii), carry_before) == spec_flags_backward(
                    orig.take(ii - 1),
                    carry,
                ).push(self.waypoints@[ii - 1]));
                assert(self.waypoints@.take(ii - 1) =~= orig.take(ii - 1));
                assert(spec_flags_backward(orig.take(ii - 1), carry).push(self.waypoints@[ii - 1])
                    + v_before.skip(ii) =~= spec_flags_backward(orig.take(ii - 1), carry)
                    + self.waypoints@.skip(ii - 1));
            }
            i = i - 1;
        }
        proof {
            assert(orig.take(0int) =~= Seq::<DatablockEnum>::empty());
            assert(self.waypoints@.skip(0int) =~= self.waypoints@);
        }
    }
}


/// One output file: its name and its track points in order.
pub struct TrackFile {
    pub name: String,
    pub points: Vec<Waypoint>,
}

impl View for TrackFile {
    type V = (Seq<char>, Seq<Waypoint>);

    open spec fn view(&self) -> (Seq<char>, Seq<Waypoint>) {
        (self.name@, self.points@)
    }
}

/// Whether `t` begins a new local calendar day for the currently open file:
/// never within the grace window, otherwise exactly when its local day
/// differs from the day the file was opened on.
pub open spec fn spec_need_daychange(t: UtcTime, off: int, lastday: int, grace_ms: int) -> bool {
    if spec_timestamp_ms(t) <= grace_ms {
        false
    } else {
        spec_local_day(t, off) != lastday
    }
}

/// The name of the track file opened at `t`: the configured prefix, the
/// local timestamp, the configured suffix.
pub open spec fn spec_file_name(prefix: Seq<char>, suffix: Seq<char>, t: UtcTime, off: int) -> Seq<
    char,
> {
    prefix + spec_file_stamp(spec_to_local(t, off)) + suffix
}

/// The file-splitting pass over the sorted, flag-annotated entries from
/// index `i` on.  Markers and no-data entries are never written.  A fix
/// closes the open file when it carries the begin flag or, with day
/// splitting on, falls on a new local day outside the grace window; it opens
/// a file (named after it) when none is open; and it is appended to the open
/// file.  The open-file state is carried in `is_open`, `name`, `pts`,
/// `lastday` and `grace_ms`.
pub open spec fn spec_split_from(
    s: Seq<DatablockEnum>,
    i: int,
    conf_day: bool,
    off: int,
    prefix: Seq<char>,
    suffix: Seq<char>,
    is_open: bool,
    name: Seq<char>,
    pts: Seq<Waypoint>,
    lastday: int,
    grace_ms: int,
) -> Seq<(Seq<char>, Seq<Waypoint>)>
    decreases s.len() - i,
{
    if i < 0 || i >= s.len() {
        if is_open {
            seq![(name, pts)]
        } else {
            Seq::empty()
        }
    } else {
        match s[i] {
            DatablockEnum::Datablock(w) => {
                let keep_open = is_open && !spec_is_new_file(DatablockEnum::Datablock(w)) && !(
                conf_day && spec_need_daychange(w.time, off, lastday, grace_ms));
                if keep_open {
                    spec_split_from(
                        s,
                        i + 1,
                        conf_day,
                        off,
                        prefix,
                        suffix,
                        true,
                        name,
                        pts.push(w),
                        lastday,
                        grace_ms,
                    )
                } else {
                    let emitted: Seq<(Seq<char>, Seq<Waypoint>)> = if is_open {
                        seq![(name, pts)]
                    } else {
                        Seq::empty()
                    };
                    emitted + spec_split_from(
                        s,
                        i + 1,
                        conf_day,
                        off,
                        prefix,
                        suffix,
                        true,
                        spec_file_name(prefix, suffix, w.time, off),
                        seq![w],
                        spec_local_day(w.time, off),
                        spec_grace_until_ms(w.time),
                    )
                }
            },
            _ => spec_split_from(
                s,
                i + 1,
                conf_day,
                off,
                prefix,
                suffix,
                is_open,
                name,
                pts,
                lastday,
                grace_ms,
            ),
        }
    }
}

/// The files the exporter emits for the sorted, flag-annotated entries.
pub open spec fn spec_split(
    s: Seq<DatablockEnum>,
    conf_day: bool,
    off: int,
    prefix: Seq<char>,
    suffix: Seq<char>,
) -> Seq<(Seq<char>, Seq<Waypoint>)> {
    spec_split_from(
        s,
        0,
        conf_day,
        off,
        prefix,
        suffix,
        false,
        Seq::empty(),
        Seq::empty(),
        0,
        0,
    )
}

impl Gt120bDataDump {
    /// Sorts the accumulated entries by timestamp (stably), runs the
    /// backward and forward flag passes, and splits the annotated fixes into
    /// output files: on every fix carrying the begin flag, and, when
    /// `conf_change_every_day` is set, on every local-day change past the
    /// four-hour grace window of the entry that opened the file.  The zone
    /// offset `tz_offset_secs` (seconds east of UTC) decides the local day
    /// and the local file-name timestamps.
    pub fn write_out(&mut self, conf_change_every_day: bool, tz_offset_secs: i32) -> (files: Vec<
        TrackFile,
    >)
        requires
            old(self).wf(),
            -86400 < tz_offset_secs < 86400,
        ensures
            final(self).wf(),
            files@.map_values(|f: TrackFile| f@) == spec_split(
                spec_flags_forward(
                    spec_flags_backward(spec_sort_entries(old(self).entries()), 0),
                    0,
                ),
                conf_change_every_day,
                tz_offset_secs as int,
                old(self).spec_prefix(),
                old(self).spec_suffix(),
            ),
    {
        self.sort_entries();
        self.transfer_flags_backward();
        self.transfer_flags_forward();
        let ghost s = self.waypoints@;
        let ghost pre = self.prefix@;
        let ghost suf = self.suffix@;
        let ghost conf = conf_change_every_day;
        let off = tz_offset_secs;
        let mut files: Vec<TrackFile> = Vec::new();
        let mut is_open = false;
        let mut cur_name = String::new();
        let mut cur_pts: Vec<Waypoint> = Vec::new();
        let mut lastday: i64 = 0;
        let mut grace_ms: u64 = 0;
        let mut i: usize = 0;
        proof {
            assert(files@.map_values(|f: TrackFile| f@) =~= Seq::<(Seq<char>, Seq<Waypoint>)>::empty());
            assert(Seq::<(Seq<char>, Seq<Waypoint>)>::empty() + spec_split(s, conf, off as int, pre, suf)
                =~= spec_split(s, conf, off as int, pre, suf));
        }
        while i < self.waypoints.len()
            invariant
                i <= s.len(),
                self.waypoints@ == s,
                self.prefix@ == pre,
                self.suffix@ == suf,
                conf == conf_change_every_day,
                -86400 < off < 86400,
                forall|j: int| 0 <= j < s.len() ==> wf_entry(#[trigger] s[j]),
                spec_split(s, conf, off as int, pre, suf) == files@.map_values(|f: TrackFile| f@)
                    + spec_split_from(
                    s,
                    i as int,
                    conf,
                    off as int,
                    pre,
                    suf,
                    is_open,
                    cur_name@,
                    cur_pts@,
                    lastday as int,
                    grace_ms as int,
                ),
            decreases s.len() - i,
        {
            let ghost ii = i as int;
            let ghost files_before = files@;
            let ghost name_before = cur_name@;
            let ghost pts_before = cur_pts@;
            let ghost open_before = is_open;
            let ghost lastday_before = lastday as int;
            let ghost grace_before = grace_ms as int;
            let d = self.waypoints[i];
            proof {
                assert(wf_entry(s[ii]));
            }
            if let DatablockEnum::Datablock(w) = d {
                let mut must_close = false;
                if is_open {
                    if d.is_new_file() {
                        must_close = true;
                    } else if conf_change_every_day {
                        let tms = w.time.timestamp_ms();
                        if tms > grace_ms {
                            let ld = w.time.local_day(off);
                            if ld != lastday {
                                must_close = true;
                            }
                        }
                    }
                }
                let ghost keep_open = open_before && !spec_is_new_file(
                    DatablockEnum::Datablock(w),
                ) && !(conf && spec_need_daychange(w.time, off as int, lastday_before, grace_before));
                proof {
                    assert(keep_open == (open_before && !must_close));
                }
                if must_close {
                    let done = TrackFile { name: cur_name, points: cur_pts };
                    files.push(done);
                    cur_name = String::new();
                    cur_pts = Vec::new();
                    is_open = false;
                }
                if !is_open {
                    let ghost was_emitting = open_before && !keep_open;
                    let local_t = w.time.to_local(off);
                    let mut nm = String::from_str(self.prefix.as_str());
                    nm.append(local_t.file_stamp().as_str());
                    nm.append(self.suffix.as_str());
                    cur_name = nm;
                    cur_pts = Vec::new();
                    lastday = w.time.local_day(off);
                    grace_ms = w.time.grace_until_ms();
                    is_open = true;
                    proof {
                        assert(cur_name@ =~= spec_file_name(pre, suf, w.time, off as int));
                    }
                }
                cur_pts.push(w);
                proof {
                    if keep_open {
                        assert(files@ == files_before);
                        assert(cur_pts@ =~= pts_before.push(w));
                        assert(spec_split_from(
                            s,
                            ii,
                            conf,
                            off as int,
                            pre,
                            suf,
                            open_before,
                            name_before,
                            pts_before,
                            lastday_before,
                            grace_before,
                        ) == spec_split_from(
                            s,
                            ii + 1,
                            conf,
                            off as int,
                            pre,
                            suf,
                            true,
                            cur_name@,
                            cur_pts@,
                            lastday as int,
                            grace_ms as int,
                        ));
                    } else {
                        assert(cur_pts@ =~= seq![w]);
                        let emitted: Seq<(Seq<char>, Seq<Waypoint>)> = if open_before {
                            seq![(name_before, pts_before)]
                        } else {
                            Seq::<(Seq<char>, Seq<Waypoint>)>::empty()
                        };
                        assert(files@.map_values(|f: TrackFile| f@) =~= files_before.map_values(
                            |f: TrackFile| f@,
                        ) + emitted);
                        let rest = spec_split_from(
                            s,
                            ii + 1,
                            conf,
                            off as int,
                            pre,
                            suf,
                            true,
                            cur_name@,
                            cur_pts@,
                            lastday as int,
                            grace_ms as int,
                        );
                        assert(spec_split_from(
                            s,
                            ii,
                            conf,
                            off as int,
                            pre,
                            suf,
                            open_before,
                            name_before,
                            pts_before,
                            lastday_before,
                            grace_before,
                        ) == emitted + rest);
                        assert(files_before.map_values(|f: TrackFile| f@) + (emitted + rest) =~= (
                        files_before.map_values(|f: TrackFile| f@) + emitted) + rest);
                    }
                }
            } else {
                proof {
                    assert(spec_split_from(
                        s,
                        ii,
                        conf,
                        off as int,
                        pre,
                        suf,
                        open_before,
                        name_before,
                        pts_before,
                        lastday_before,
                        grace_before,
                    ) == spec_split_from(
                        s,
                        ii + 1,
                        conf,
                        off as int,
                        pre,
                        suf,
                        open_before,
                        name_before,
                        pts_before,
                        lastday_before,
                        grace_before,
                    ));
                }
            }
            i = i + 1;
        }
        let ghost files_before = files@;
        let ghost name_final = cur_name@;
        let ghost pts_final = cur_pts@;
        if is_open {
            let done = TrackFile { name: cur_name, points: cur_pts };
            files.push(done);
            proof {
                assert(files@.map_values(|f: TrackFile| f@) =~= files_before.map_values(
                    |f: TrackFile| f@,
                ) + seq![(name_final, pts_final)]);
            }
        }
        proof {
            assert(files@.map_values(|f: TrackFile| f@) =~= spec_split(
                s,
                conf,
                off as int,
                pre,
                suf,
            ));
        }
        files
    }
}


/// The forward pass rewrites flag bytes only: it keeps the length, every
/// entry's kind and every entry's timestamp.
pub proof fn lemma_flags_forward_preserves_shape(s: Seq<DatablockEnum>, carry: u8)
    ensures
        spec_flags_forward(s, carry).len() == s.len(),
        forall|i: int|
            0 <= i < s.len() ==> spec_time_of(#[trigger] spec_flags_forward(s, carry)[i])
                == spec_time_of(s[i]),
        forall|i: int|
            0 <= i < s.len() ==> ((spec_flags_forward(s, carry)[i] is Datablock) == (
            #[trigger] s[i] is Datablock)),
    decreases s.len(),
{
    if s.len() > 0 {
        let r = spec_flags_forward(s, carry);
        let c2 = match s[0] {
            DatablockEnum::NoBlock => carry,
            DatablockEnum::Button(_, b) => if b is On {
                carry | 0x01
            } else if b is Off {
                0
            } else {
                carry | 0x10
            },
            DatablockEnum::Datablock(_) => 0,
        };
        lemma_flags_forward_preserves_shape(s.skip(1), c2);
        assert forall|i: int| 0 <= i < s.len() implies spec_time_of(#[trigger] r[i])
            == spec_time_of(s[i]) && ((r[i] is Datablock) == (s[i] is Datablock)) by {
            if i > 0 {
                assert(r[i] == spec_flags_forward(s.skip(1), c2)[i - 1]);
                assert(s.skip(1)[i - 1] == s[i]);
            }
        }
    }
}

/// The backward pass rewrites flag bytes only: it keeps the length, every
/// entry's kind and every entry's timestamp.
pub proof fn lemma_flags_backward_preserves_shape(s: Seq<DatablockEnum>, carry: u8)
    ensures
        spec_flags_backward(s, carry).len() == s.len(),
        forall|i: int|
            0 <= i < s.len() ==> spec_time_of(#[trigger] spec_flags_backward(s, carry)[i])
                == spec_time_of(s[i]),
        forall|i: int|
            0 <= i < s.len() ==> ((spec_flags_backward(s, carry)[i] is Datablock) == (
            #[trigger] s[i] is Datablock)),
    decreases s.len(),
{
    if s.len() > 0 {
        let r = spec_flags_backward(s, carry);
        let c2 = match s.last() {
            DatablockEnum::NoBlock => carry,
            DatablockEnum::Button(_, b) => if b is On {
                0
            } else if b is Off {
                carry | 0x02
            } else {
                carry
            },
            DatablockEnum::Datablock(_) => 0,
        };
        lemma_flags_backward_preserves_shape(s.drop_last(), c2);
        assert forall|i: int| 0 <= i < s.len() implies spec_time_of(#[trigger] r[i])
            == spec_time_of(s[i]) && ((r[i] is Datablock) == (s[i] is Datablock)) by {
            if i < s.len() - 1 {
                assert(r[i] == spec_flags_backward(s.drop_last(), c2)[i]);
                assert(s.drop_last()[i] == s[i]);
            }
        }
    }
}

} // verus!
