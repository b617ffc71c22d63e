//! The records of `appinfo.vdf`.
//!
//! The file starts with a magic number that tells its version and with the
//! number of a universe. Records follow, one per app: the app's id, the
//! length of the rest of the record, and that many bytes, which hold a
//! stretch of metadata and then the app's fields in the binary format. An
//! app id of zero, or the end of the buffer, ends the list. A record whose
//! bytes cannot be read is passed over: its length tells where the next
//! record starts.

use crate::decoder::read_fields;
use crate::error::VdfError;
use crate::format::{parse_fields, VdfValue};
use crate::node::{lemma_object_view, VdfNode};
use crate::reader::Reader;
use crate::text::{decimal, decimal_string};
use vstd::prelude::*;
use vstd::slice::slice_subrange;

verus! {

/// The magic number of version 27 of the file.
pub const MAGIC_V27: u32 = 0x0756_4427;

/// The magic number of version 28 of the file.
pub const MAGIC_V28: u32 = 0x0756_4428;

/// How many bytes of metadata stand before the fields of a record.
pub open spec fn metadata_length(magic: u32) -> int {
    if magic == MAGIC_V28 {
        60
    } else {
        40
    }
}

/// What the file holds for one app.
#[derive(Debug, PartialEq, Eq)]
pub struct AppInfoEntry {
    pub app_id: u32,
    pub data: VdfNode,
}

/// What an `AppInfoEntry` stands for.
pub struct AppRecord {
    pub app_id: u32,
    pub data: VdfValue,
}

impl View for AppInfoEntry {
    type V = AppRecord;

    open spec fn view(&self) -> AppRecord {
        AppRecord { app_id: self.app_id, data: self.data@ }
    }
}

impl AppInfoEntry {
    /// The key under which the entry is handed on: its app id in decimal.
    pub fn key(&self) -> (key: String)
        ensures
            key@ == decimal(self.app_id as nat),
    {
        decimal_string(self.app_id as u64)
    }
}

/// The records that a list of entries stands for.
pub open spec fn records_of(entries: Seq<AppInfoEntry>) -> Seq<AppRecord> {
    Seq::new(entries.len(), |i: int| entries[i]@)
}

/// What was read from an `appinfo.vdf`.
#[derive(Debug, PartialEq, Eq)]
pub struct AppInfo {
    pub magic: u32,
    pub universe: u32,
    pub entries: Vec<AppInfoEntry>,
}

/// What an `AppInfo` stands for.
pub struct AppInfoView {
    pub magic: u32,
    pub universe: u32,
    pub records: Seq<AppRecord>,
}

impl View for AppInfo {
    type V = AppInfoView;

    open spec fn view(&self) -> AppInfoView {
        AppInfoView {
            magic: self.magic,
            universe: self.universe,
            records: records_of(self.entries@),
        }
    }
}

/// A record as it is framed in the file: the app id and the bytes that the
/// record's length sets apart for it.
pub struct AppFrame {
    pub app_id: u32,
    pub payload: Seq<u8>,
}

/// The frame at `pos` and the index after it, where a frame stands there:
/// where an app id that is not zero and a length can be read, and the
/// buffer holds as many bytes as the length says.
pub open spec fn frame_at(bytes: Seq<u8>, pos: int) -> Option<(AppFrame, int)> {
    if pos < 0 || pos + 8 > bytes.len() {
        None
    } else {
        let app_id = u32_at(bytes, pos);
        let length = u32_at(bytes, pos + 4);
        if app_id == 0 || pos + 8 + length > bytes.len() {
            None
        } else {
            Some(
                (
                    AppFrame { app_id, payload: bytes.subrange(pos + 8, pos + 8 + length) },
                    pos + 8 + length,
                ),
            )
        }
    }
}

/// The unsigned 32-bit number at `pos`.
pub open spec fn u32_at(bytes: Seq<u8>, pos: int) -> u32 {
    crate::wire::u32_le(bytes.subrange(pos, pos + 4))
}

/// The frames from `pos` on, in the order of the file.
pub open spec fn frames_from(bytes: Seq<u8>, pos: int) -> Seq<AppFrame>
    decreases bytes.len() - pos,
{
    match frame_at(bytes, pos) {
        None => Seq::empty(),
        Some((frame, next)) => seq![frame] + frames_from(bytes, next),
    }
}

/// The fields that the payload of a frame holds behind `skip` bytes of
/// metadata.
pub open spec fn payload_data(payload: Seq<u8>, skip: int) -> Result<VdfValue, VdfError> {
    if payload.len() < skip {
        Err(VdfError::TruncatedInput)
    } else {
        match parse_fields(payload, skip, Seq::empty()) {
            Ok((fields, _)) => Ok(VdfValue::Object(fields)),
            Err(error) => Err(error),
        }
    }
}

/// The records of the frames whose payload can be read, in the order of the
/// frames.
pub open spec fn readable_records(frames: Seq<AppFrame>, skip: int) -> Seq<AppRecord>
    decreases frames.len(),
{
    if frames.len() == 0 {
        Seq::empty()
    } else {
        let before = readable_records(frames.drop_last(), skip);
        match payload_data(frames.last().payload, skip) {
            Ok(data) => before.push(AppRecord { app_id: frames.last().app_id, data }),
            Err(_) => before,
        }
    }
}

/// What an `appinfo.vdf` buffer stands for: its header and the records
/// that can be read. Only the header can make the whole file fail: a
/// buffer too short for it, or a magic number of no known version.
pub open spec fn decoded_appinfo(bytes: Seq<u8>) -> Result<AppInfoView, VdfError> {
    if bytes.len() < 4 {
        Err(VdfError::TruncatedInput)
    } else if u32_at(bytes, 0) != MAGIC_V27 && u32_at(bytes, 0) != MAGIC_V28 {
        Err(VdfError::MalformedHeader)
    } else if bytes.len() < 8 {
        Err(VdfError::TruncatedInput)
    } else {
        Ok(
            AppInfoView {
                magic: u32_at(bytes, 0),
                universe: u32_at(bytes, 4),
                records: readable_records(
                    frames_from(bytes, 8),
                    metadata_length(u32_at(bytes, 0)),
                ),
            },
        )
    }
}

/// Reads the fields of one record from the bytes set apart for it.
pub fn decode_record(payload: &[u8], skip: usize) -> (data: Result<VdfNode, VdfError>)
    ensures
        match data {
            Ok(node) => payload_data(payload@, skip as int) == Ok::<VdfValue, VdfError>(node@),
            Err(error) => payload_data(payload@, skip as int) == Err::<VdfValue, VdfError>(error),
        },
{
    let mut reader = Reader::new(payload);
    match reader.skip(skip) {
        Ok(_) => {},
        Err(error) => {
            return Err(error);
        },
    }
    match read_fields(&mut reader) {
        Ok(entries) => {
            proof {
                lemma_object_view(entries);
            }
            Ok(VdfNode::Object(entries))
        },
        Err(error) => Err(error),
    }
}

/// Reads an `appinfo.vdf`: the header, and every record whose bytes can be
/// read. Records that cannot be read are left out; the others are listed in
/// the order of the file.
pub fn decode_appinfo(buffer: &[u8]) -> (info: Result<AppInfo, VdfError>)
    ensures
        match info {
            Ok(info) => decoded_appinfo(buffer@) == Ok::<AppInfoView, VdfError>(info@),
            Err(error) => decoded_appinfo(buffer@) == Err::<AppInfoView, VdfError>(error),
        },
{
    let ghost bytes = buffer@;
    let mut reader = Reader::new(buffer);
    let magic = match reader.read_u32() {
        Ok(magic) => magic,
        Err(error) => {
            return Err(error);
        },
    };
    if magic != MAGIC_V27 && magic != MAGIC_V28 {
        return Err(VdfError::MalformedHeader);
    }
    let universe = match reader.read_u32() {
        Ok(universe) => universe,
        Err(error) => {
            return Err(error);
        },
    };
    let skip: usize = if magic == MAGIC_V28 {
        60
    } else {
        40
    };
    let total: usize = buffer.len();
    let mut entries: Vec<AppInfoEntry> = Vec::new();
    let ghost mut done: Seq<AppFrame> = Seq::empty();
    assert(done + frames_from(bytes, 8) =~= frames_from(bytes, 8));
    assert(records_of(entries@) =~= readable_records(done, skip as int));
    loop
        invariant_except_break
            8 <= reader.cursor() <= bytes.len(),
            frames_from(bytes, 8) == done + frames_from(bytes, reader.cursor()),
        invariant
            reader.buffer() == bytes,
            bytes == buffer@,
            total == bytes.len(),
            skip == metadata_length(magic),
            records_of(entries@) == readable_records(done, skip as int),
        ensures
            frames_from(bytes, 8) == done,
        decreases bytes.len() - reader.cursor(),
    {
        let ghost pos = reader.cursor();
        let app_id = match reader.read_u32() {
            Ok(app_id) => app_id,
            Err(_) => 0,
        };
        if app_id == 0 {
            assert(frame_at(bytes, pos) is None);
            assert(done + frames_from(bytes, pos) =~= done);
            break ;
        }
        let length = match reader.read_u32() {
            Ok(length) => length,
            Err(_) => {
                assert(frame_at(bytes, pos) is None);
                assert(done + frames_from(bytes, pos) =~= done);
                break ;
            },
        };
        if reader.remaining() < length as usize {
            assert(frame_at(bytes, pos) is None);
            assert(done + frames_from(bytes, pos) =~= done);
            break ;
        }
        let from: usize = reader.position();
        let payload = slice_subrange(buffer, from, from + length as usize);
        let data = decode_record(payload, skip);
        let _ = reader.skip(length as usize);
        proof {
            let frame = AppFrame { app_id, payload: payload@ };
            assert(frame_at(bytes, pos) == Some((frame, reader.cursor())));
            assert(done.push(frame) + frames_from(bytes, reader.cursor()) =~= done + frames_from(
                bytes,
                pos,
            ));
            assert(done.push(frame).drop_last() == done);
            assert(done.push(frame).last() == frame);
            done = done.push(frame);
        }
        match data {
            Ok(node) => {
                let entry = AppInfoEntry { app_id, data: node };
                let ghost before = records_of(entries@);
                entries.push(entry);
                assert(records_of(entries@) =~= before.push(entry@));
            },
            Err(_) => {},
        }
    }
    Ok(AppInfo { magic, universe, entries })
}


/// A frame that can be read is among the records, whatever the other
/// frames hold: the result is the index of its record.
pub proof fn lemma_readable_frame_is_kept(frames: Seq<AppFrame>, skip: int, k: int) -> (j: int)
    requires
        0 <= k < frames.len(),
        payload_data(frames[k].payload, skip) is Ok,
    ensures
        0 <= j < readable_records(frames, skip).len(),
        readable_records(frames, skip)[j] == (AppRecord {
            app_id: frames[k].app_id,
            data: payload_data(frames[k].payload, skip)->Ok_0,
        }),
    decreases frames.len(),
{
    let before = readable_records(frames.drop_last(), skip);
    if k == frames.len() - 1 {
        before.len() as int
    } else {
        assert(frames.drop_last()[k] == frames[k]);
        lemma_readable_frame_is_kept(frames.drop_last(), skip, k)
    }
}

/// One record that cannot be read does not hide the others: where the
/// header of `bytes` is in order, every frame of the file whose payload
/// can be read has its record in what `decoded_appinfo` gives. The result
/// is the index of that record.
pub proof fn lemma_appinfo_keeps_readable_records(bytes: Seq<u8>, k: int) -> (j: int)
    requires
        decoded_appinfo(bytes) is Ok,
        0 <= k < frames_from(bytes, 8).len(),
        payload_data(frames_from(bytes, 8)[k].payload, metadata_length(u32_at(bytes, 0))) is Ok,
    ensures
        0 <= j < decoded_appinfo(bytes)->Ok_0.records.len(),
        decoded_appinfo(bytes)->Ok_0.records[j] == (AppRecord {
            app_id: frames_from(bytes, 8)[k].app_id,
            data: payload_data(
                frames_from(bytes, 8)[k].payload,
                metadata_length(u32_at(bytes, 0)),
            )->Ok_0,
        }),
{
    lemma_readable_frame_is_kept(frames_from(bytes, 8), metadata_length(u32_at(bytes, 0)), k)
}

} // verus!
