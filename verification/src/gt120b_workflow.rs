use vstd::prelude::*;
use crate::comm_bulk::{vecs_eq, CommBulk};
use crate::commands::{
    cmd_count, cmd_delete_reboot, cmd_identification, cmd_model, cmd_nmea_switch, cmd_read,
    cmd_set_time, IdentificationJson, Model,
};
use crate::errors::GtError;
use crate::gt120b_datadump::{Gt120bDataDump, TrackFile};
use crate::intf::Intf;

verus! {

/// The fixed address of the 8-byte idle-probe slot.
pub const IDLE_PROBE_POS: u32 = 0x1fff80;

/// What one download pass produces: the device identity (alias filled in
/// from the configuration block), the exported files, and whether the
/// requested memory clear still has to run (it is skipped when nothing was
/// exported).
pub struct WorkflowRun {
    pub identification: IdentificationJson,
    pub files: Vec<TrackFile>,
    pub clear_pending: bool,
}

/// Relies on chrono's `Local.offset_from_utc_datetime`: the machine zone's
/// offset for the given UTC instant, in seconds east of UTC.  The offset of
/// a `FixedOffset` is strictly within one day; out-of-calendar field values
/// fall back to an offset of zero.
#[verifier::external_body]
fn local_offset_secs(year: u16, month: u8, day: u8, hour: u8, minute: u8, second: u8) -> (r: i32)
    ensures
        -86400 < r < 86400,
{
    match chrono::NaiveDate::from_ymd_opt(year as i32, month as u32, day as u32) {
        Some(d) => match d.and_hms_opt(hour as u32, minute as u32, second as u32) {
            Some(dt) => chrono::TimeZone::offset_from_utc_datetime(&chrono::Local, &dt)
                .local_minus_utc(),
            None => 0,
        },
        None => 0,
    }
}

/// The characters `String::from_utf8_lossy` decodes from the given bytes: a
/// function of the bytes alone.
pub uninterp spec fn utf8_lossy_of(bytes: Seq<u8>) -> Seq<char>;

/// Relies on `String::from_utf8_lossy`: decodes the bytes as UTF-8,
/// replacing invalid sequences; the result depends on the bytes alone.
#[verifier::external_body]
fn utf8_lossy(bytes: &Vec<u8>) -> (r: String)
    ensures
        r@ == utf8_lossy_of(bytes@),
{
    String::from_utf8_lossy(bytes).into_owned()
}

/// `s` with every trailing zero byte removed.
pub open spec fn spec_trim_trailing_zeros(s: Seq<u8>) -> Seq<u8>
    decreases s.len(),
{
    if s.len() > 0 && s.last() == 0 {
        spec_trim_trailing_zeros(s.drop_last())
    } else {
        s
    }
}

/// The device alias in the configuration block: bytes 16 to 47, trailing
/// zero padding removed, decoded as UTF-8.
pub fn decode_config_name(config: &Vec<u8>) -> (r: String)
    requires
        config.len() >= 48,
    ensures
        r@ == utf8_lossy_of(spec_trim_trailing_zeros(config@.subrange(16, 48))),
{
    let ghost field = config@.subrange(16, 48);
    let mut end: usize = 48;
    while end > 16 && config[end - 1] == 0
        invariant
            16 <= end <= 48,
            config.len() >= 48,
            spec_trim_trailing_zeros(field) == spec_trim_trailing_zeros(
                config@.subrange(16, end as int),
            ),
        decreases end,
    {
        proof {
            assert(config@.subrange(16, end as int).last() == config@[end - 1]);
            assert(config@.subrange(16, end as int).drop_last() =~= config@.subrange(
                16,
                end as int - 1,
            ));
        }
        end = end - 1;
    }
    let mut name_bytes: Vec<u8> = Vec::new();
    let mut i: usize = 16;
    while i < end
        invariant
            16 <= i <= end <= 48,
            config.len() >= 48,
            name_bytes@ =~= config@.subrange(16, i as int),
        decreases end - i,
    {
        name_bytes.push(config[i]);
        i = i + 1;
    }
    proof {
        let trimmed = config@.subrange(16, end as int);
        assert(name_bytes@ =~= trimmed);
        if end > 16 {
            assert(trimmed.last() == config@[end - 1]);
        }
        assert(spec_trim_trailing_zeros(trimmed) == trimmed);
    }
    utf8_lossy(&name_bytes)
}

/// True exactly when every byte of `v` is 0xFF.
pub fn all_ff(v: &Vec<u8>) -> (r: bool)
    ensures
        r == (forall|i: int| 0 <= i < v@.len() ==> v@[i] == 0xff),
{
    let mut i: usize = 0;
    while i < v.len()
        invariant
            i <= v@.len(),
            forall|j: int| 0 <= j < i ==> v@[j] == 0xff,
        decreases v@.len() - i,
    {
        if v[i] != 0xff {
            return false;
        }
        i = i + 1;
    }
    true
}

/// Field-wise identity comparison, the alias excepted: the alias is read
/// back from the configuration block and may legitimately change across a
/// clear and reboot.
pub fn identity_matches(a: &IdentificationJson, b: &IdentificationJson) -> (r: bool)
    ensures
        r == (a.manufacturer@ == b.manufacturer@ && a.model == b.model && a.device_id@
            == b.device_id@ && a.name@ == b.name@ && a.serial_number@ == b.serial_number@
            && a.hw_version@ == b.hw_version@ && a.fw_version@ == b.fw_version@ && a.sw_version@
            == b.sw_version@ && a.description@ == b.description@),
{
    a.manufacturer == b.manufacturer && a.model == b.model && a.device_id == b.device_id && a.name
        == b.name && a.serial_number == b.serial_number && a.hw_version == b.hw_version
        && a.fw_version == b.fw_version && a.sw_version == b.sw_version && a.description
        == b.description
}

/// The identify block: enable NMEA passthrough, query the model, the
/// identification record and the count-derived end-of-data offset.
fn cmdblock_identify<I: Intf>(comm: &mut CommBulk<I>, conf_orig_sw_meta: bool) -> (r: Result<
    (Model, u32, IdentificationJson),
    GtError,
>)
    ensures
        r matches Ok((m, off, id)) ==> off % 0x1000 == 0 && 0x1000 <= off <= 0x800000,
{
    cmd_nmea_switch(comm, true)?;
    let model = cmd_model(comm)?;
    let id_struct = cmd_identification(comm, conf_orig_sw_meta)?;
    let offset = cmd_count(comm)?;
    Ok((model, offset, id_struct))
}

/// One doublet read: the first 0x100 bytes of the block at `pos`, and, only
/// if they are not all 0xFF, the remaining 0xF00 bytes.  Returns whether the
/// block held data.  With `collect` set, everything read is decoded into
/// `dumper`.
fn cmdblock_read_doublet<I: Intf>(
    comm: &mut CommBulk<I>,
    pos: u32,
    dumper: &mut Gt120bDataDump,
    collect: bool,
) -> (r: Result<bool, GtError>)
    requires
        pos <= 0xfff000,
        old(dumper).wf(),
    ensures
        final(dumper).wf(),
        final(dumper).spec_prefix() == old(dumper).spec_prefix(),
        final(dumper).spec_suffix() == old(dumper).spec_suffix(),
        !collect ==> final(dumper).entries() == old(dumper).entries(),
{
    let resp1 = cmd_read(comm, pos, 0x0100)?;
    if all_ff(&resp1) {
        return Ok(false);
    }
    if collect {
        match dumper.process_datablock(resp1) {
            Ok(()) => (),
            Err(e) => {
                return Err(e);
            },
        }
    }
    let resp2 = cmd_read(comm, pos + 0x0100, 0x0f00)?;
    if collect {
        match dumper.process_datablock(resp2) {
            Ok(()) => (),
            Err(e) => {
                return Err(e);
            },
        }
    }
    Ok(true)
}

/// Probes 0x1000-aligned blocks from `id_offset` upward until two
/// consecutive blocks are empty, recording the last non-empty block offset
/// and whether every probed block was empty.  A device that reports data
/// past the 24-bit address space is in an unknown state.
fn cmdblock_find_end_offset<I: Intf>(comm: &mut CommBulk<I>, id_offset: u32) -> (r: Result<
    (u32, bool),
    GtError,
>)
    requires
        id_offset % 0x1000 == 0,
        0x1000 <= id_offset <= 0x800000,
    ensures
        r matches Ok((end, all_empty)) ==> end % 0x1000 == 0 && id_offset <= end <= 0xfff000,
{
    let mut end_offset = id_offset;
    let mut all_begin_empty = true;
    let mut r1 = false;
    let mut r0 = false;
    let mut i: u32 = 0;
    let mut scratch = Gt120bDataDump::new(String::new(), String::new());
    while i < 2 || r0 || r1
        invariant
            id_offset % 0x1000 == 0,
            0x1000 <= id_offset <= 0x800000,
            id_offset + i * 0x1000 <= 0x1000000,
            end_offset % 0x1000 == 0,
            id_offset <= end_offset,
            i > 0 ==> end_offset <= id_offset + (i - 1) * 0x1000,
            i == 0 ==> end_offset == id_offset,
            scratch.wf(),
        decreases 0x1000000 - id_offset - i * 0x1000,
    {
        let pos = id_offset + i * 0x1000;
        if pos > 0xfff000 {
            return Err(GtError::UnknownDeviceState);
        }
        r1 = r0;
        r0 = cmdblock_read_doublet(comm, pos, &mut scratch, false)?;
        if r0 {
            end_offset = pos;
            all_begin_empty = false;
        }
        i = i + 1;
    }
    cmd_read(comm, id_offset + (i - 1) * 0x1000 + 0xf80, 0x080)?;
    Ok((end_offset, all_begin_empty))
}

/// The full download pass: identify the device (only the GT120 family is
/// accepted), check the idle-probe slot, push the clock, read the alias from
/// the configuration block, verify the count answer is stable, locate the
/// end of recorded data, bulk-read every block up to it (plus the tail reads
/// of the final partial block), and export the decoded entries.  A clear is
/// never performed here: `clear_pending` says whether `workflow_clear` still
/// has to run once the files are safely written.
pub fn workflow<I: Intf>(
    comm: &mut CommBulk<I>,
    conf_clear: bool,
    conf_orig_sw_workflow: bool,
    conf_orig_sw_meta: bool,
    conf_prefix: String,
    conf_suffix: String,
) -> (r: Result<WorkflowRun, GtError>)
    ensures
        r matches Ok(run) ==> run.clear_pending == (conf_clear && run.files@.len() > 0),
{
    let (id_model, id_offset, mut id_struct) = cmdblock_identify(comm, conf_orig_sw_meta)?;
    if !matches!(id_model, Model::Gt120) {
        return Err(GtError::UnsupportedModel);
    }

    let read8_payload = cmd_read(comm, IDLE_PROBE_POS, 0x0008)?;
    if !all_ff(&read8_payload) {
        return Err(GtError::UnknownDeviceState);
    }
    let time_us = comm.get_time_micros();
    cmd_set_time(comm, time_us)?;

    if conf_orig_sw_workflow {
        let offset2 = cmd_count(comm)?;
        if offset2 != id_offset {
            return Err(GtError::UnknownDeviceState);
        }
        let read8_payload2 = cmd_read(comm, IDLE_PROBE_POS, 0x0008)?;
        if !vecs_eq(&read8_payload2, &read8_payload) {
            return Err(GtError::UnknownDeviceState);
        }
    }

    let name_config_response = cmd_read(comm, 0x000000, 0x00ea)?;
    id_struct.alias = decode_config_name(&name_config_response);

    let offset_check = cmd_count(comm)?;
    if offset_check != id_offset {
        return Err(GtError::UnknownDeviceState);
    }

    let (end_offset, all_begin_empty) = cmdblock_find_end_offset(comm, id_offset)?;

    let mut datadumper = Gt120bDataDump::new(conf_prefix, conf_suffix);
    let mut offset: u32 = 0x1000;
    while offset < end_offset
        invariant
            offset % 0x1000 == 0,
            end_offset % 0x1000 == 0,
            0x1000 <= offset <= end_offset,
            end_offset <= 0xfff000,
            datadumper.wf(),
        decreases end_offset - offset,
    {
        cmdblock_read_doublet(comm, offset, &mut datadumper, true)?;
        offset = offset + 0x1000;
    }

    if !all_begin_empty {
        let resp = cmd_read(comm, offset, 0x0100)?;
        match datadumper.process_datablock(resp) {
            Ok(()) => (),
            Err(e) => {
                return Err(e);
            },
        }
        let resp = cmd_read(comm, offset + 0x000f80, 0x0080)?;
        match datadumper.process_datablock(resp) {
            Ok(()) => (),
            Err(e) => {
                return Err(e);
            },
        }
        let resp = cmd_read(comm, offset + 0x000100, 0x0e80)?;
        match datadumper.process_datablock(resp) {
            Ok(()) => (),
            Err(e) => {
                return Err(e);
            },
        }
    }

    let tz_offset_secs = match datadumper.first_entry_time() {
        Some(t) => local_offset_secs(t.year, t.month, t.day, t.hour, t.minute, t.second),
        None => 0,
    };
    let conf_change_every_day: bool = true;
    let files = datadumper.write_out(conf_change_every_day, tz_offset_secs);

    let clear_pending = conf_clear && files.len() > 0;
    Ok(WorkflowRun { identification: id_struct, files, clear_pending })
}

/// The clear pass, run only after the exported files are safely on disk:
/// erase and reboot the device (the transport waits out the reconnect),
/// re-identify it, check that model and identity (alias excepted) are
/// unchanged, re-check the idle-probe slot and push the clock again.
pub fn workflow_clear<I: Intf>(
    comm: &mut CommBulk<I>,
    id_struct: &IdentificationJson,
    conf_orig_sw_meta: bool,
) -> (r: Result<(), GtError>) {
    cmd_delete_reboot(comm);

    let (id2_model, _id2_offset, id2_struct) = cmdblock_identify(comm, conf_orig_sw_meta)?;
    if !matches!(id2_model, Model::Gt120) {
        return Err(GtError::UnsupportedModel);
    }
    if !identity_matches(id_struct, &id2_struct) {
        return Err(GtError::UnknownDeviceState);
    }

    let payload = cmd_read(comm, IDLE_PROBE_POS, 0x0008)?;
    if !all_ff(&payload) {
        return Err(GtError::UnknownDeviceState);
    }

    let time_us = comm.get_time_micros();
    cmd_set_time(comm, time_us)?;
    Ok(())
}

} // verus!
