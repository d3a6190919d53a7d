use vstd::prelude::*;
use vstd::arithmetic::div_mod::lemma_div_is_ordered;
use crate::coord::{Coordinate, is_valid_coordinate};
use crate::cursor::{BinaryCursor, spec_u16_le, spec_u32_le, spec_i32_le};

verus! {

// Decoder for the compact binary telemetry format: a 12- or 14-byte header
// with a 4-byte signature, followed by a stream of records. Definition
// records register a field layout under a local message-type code (0-15);
// data records reference that layout. GPS positions are carried as signed
// 32-bit "semicircle" values. The decoder is defensive: it tolerates a
// wrong declared data size, truncated records, oversized field counts and
// unknown local codes, and salvages whatever coordinates it can.

/// One field of a message definition: field number, byte size, base-type
/// code.
#[derive(Clone, Copy, PartialEq, Eq, Structural, Debug)]
pub struct FieldDefinition {
    pub field_def_num: u8,
    pub size: u8,
    pub base_type: u8,
}

/// A locally-scoped message definition: the global message number and the
/// ordered field layout. Registered by definition records; consulted by
/// data records carrying the same local message-type code. A later
/// definition with the same local code replaces the earlier one.
pub struct MessageDefinition {
    pub global_message_number: u16,
    pub fields: Vec<FieldDefinition>,
}

impl MessageDefinition {
    /// Field counts and sizes are bounded on registration (anything larger
    /// is treated as corruption), so a message body is at most 10000 bytes.
    pub open spec fn wf(self) -> bool {
        &&& self.fields@.len() <= 100
        &&& forall|i: int|
            0 <= i < self.fields@.len() ==> (#[trigger] self.fields@[i]).size <= 100
    }
}

/// A raw semicircle value scaled to 1e-5 degree units: `raw * (180 / 2^31)`
/// degrees, rounded to 5 decimals with ties away from zero.
pub open spec fn spec_semicircles_to_e5(raw: int) -> int {
    if raw >= 0 {
        (raw * 18_000_000 + 1_073_741_824) / 2_147_483_648
    } else {
        -((-raw * 18_000_000 + 1_073_741_824) / 2_147_483_648)
    }
}

/// Converts a semicircle value to 1e-5 degree units. A value within
/// `[-2^30, 2^30]` (at most 90 degrees in magnitude) lands within the
/// latitude range; any 32-bit value lands within the longitude range.
pub fn semicircles_to_e5(raw: i32) -> (r: i64)
    ensures
        r == spec_semicircles_to_e5(raw as int),
        -1_073_741_824 <= raw <= 1_073_741_824 ==> -9_000_000 <= r <= 9_000_000,
        -18_000_000 <= r <= 18_000_000,
{
    if raw >= 0 {
        let n: i64 = (raw as i64) * 18_000_000 + 1_073_741_824;
        proof {
            lemma_div_is_ordered(n as int, 2_147_483_647int * 18_000_000 + 1_073_741_824, 2_147_483_648);
            if raw <= 1_073_741_824 {
                lemma_div_is_ordered(n as int, 1_073_741_824int * 18_000_000 + 1_073_741_824, 2_147_483_648);
            }
        }
        n / 2_147_483_648
    } else {
        let n: i64 = (-(raw as i64)) * 18_000_000 + 1_073_741_824;
        proof {
            lemma_div_is_ordered(n as int, 2_147_483_648int * 18_000_000 + 1_073_741_824, 2_147_483_648);
            if raw >= -1_073_741_824 {
                lemma_div_is_ordered(n as int, 1_073_741_824int * 18_000_000 + 1_073_741_824, 2_147_483_648);
            }
        }
        -(n / 2_147_483_648)
    }
}

/// What a 4-byte latitude field contributes: the maximum signed 32-bit
/// value and zero are "no data" sentinels, and a value of more than 90
/// degrees in magnitude (outside `[-2^30, 2^30]`) is discarded.
pub open spec fn spec_decode_lat(raw: int) -> Option<int> {
    if raw == 0x7FFF_FFFF || raw == 0 {
        None
    } else if -1_073_741_824 <= raw <= 1_073_741_824 {
        Some(spec_semicircles_to_e5(raw))
    } else {
        None
    }
}

/// What a 4-byte longitude field contributes: only the sentinels are
/// discarded (every 32-bit semicircle value is within 180 degrees).
pub open spec fn spec_decode_lon(raw: int) -> Option<int> {
    if raw == 0x7FFF_FFFF || raw == 0 {
        None
    } else {
        Some(spec_semicircles_to_e5(raw))
    }
}

/// Position of the cursor after consuming a field of `size` bytes at
/// position `p`: clamped to the buffer length when the field does not
/// fit.
pub open spec fn spec_step_pos(data_len: int, p: int, size: int) -> int {
    if size <= data_len - p {
        p + size
    } else {
        data_len
    }
}

/// Cursor position, latitude and longitude after a GPS-primary data
/// record's first `fi` fields, starting at position `p0`: a readable
/// 4-byte field numbered 0 or 1 contributes per `spec_decode_lat` /
/// `spec_decode_lon` (keeping the previous value when the field
/// contributes nothing); every other field is skipped, clamped to the
/// buffer end.
pub open spec fn spec_record_state(
    data: Seq<u8>,
    p0: int,
    fields: Seq<FieldDefinition>,
    fi: int,
) -> (int, Option<int>, Option<int>)
    decreases fi,
{
    if fi <= 0 {
        (p0, None::<int>, None::<int>)
    } else {
        let prev = spec_record_state(data, p0, fields, fi - 1);
        let p = prev.0;
        let f = fields[fi - 1];
        let len = data.len() as int;
        let readable = f.size != 0 && p < len && f.size <= len - p;
        let pos2 = spec_step_pos(len, p, f.size as int);
        if readable && f.field_def_num == 0 && f.size == 4 {
            let raw = spec_i32_le(data[p], data[p + 1], data[p + 2], data[p + 3]);
            if spec_decode_lat(raw) is Some {
                (pos2, spec_decode_lat(raw), prev.2)
            } else {
                (pos2, prev.1, prev.2)
            }
        } else if readable && f.field_def_num == 1 && f.size == 4 {
            let raw = spec_i32_le(data[p], data[p + 1], data[p + 2], data[p + 3]);
            if spec_decode_lon(raw) is Some {
                (pos2, prev.1, spec_decode_lon(raw))
            } else {
                (pos2, prev.1, prev.2)
            }
        } else {
            (pos2, prev.1, prev.2)
        }
    }
}

/// Cursor position and candidate values after an ambiguous data record's
/// first `fi` fields: every readable 4-byte field that is not a sentinel
/// contributes a candidate; every other field is skipped, clamped to the
/// buffer end.
pub open spec fn spec_flex_state(
    data: Seq<u8>,
    p0: int,
    fields: Seq<FieldDefinition>,
    fi: int,
) -> (int, Seq<i32>)
    decreases fi,
{
    if fi <= 0 {
        (p0, Seq::empty())
    } else {
        let prev = spec_flex_state(data, p0, fields, fi - 1);
        let p = prev.0;
        let f = fields[fi - 1];
        let len = data.len() as int;
        let readable = f.size != 0 && p < len && f.size <= len - p;
        let pos2 = spec_step_pos(len, p, f.size as int);
        if readable && f.size == 4 {
            let raw = spec_i32_le(data[p], data[p + 1], data[p + 2], data[p + 3]);
            if raw == 0x7FFF_FFFF || raw == 0 {
                (pos2, prev.1)
            } else {
                (pos2, prev.1.push(raw as i32))
            }
        } else {
            (pos2, prev.1)
        }
    }
}

/// The ambiguous-field classification, from candidate `i` onward: the
/// first candidate within 90 degrees of zero becomes latitude, and the
/// first remaining candidate with a different value becomes longitude.
pub open spec fn spec_classify(
    cands: Seq<i32>,
    i: int,
    lat: Option<i32>,
    lon: Option<i32>,
) -> (Option<i32>, Option<i32>)
    decreases cands.len() - i when 0 <= i
{
    if i < 0 || i >= cands.len() {
        (lat, lon)
    } else {
        let c = cands[i];
        if -1_073_741_824 <= c <= 1_073_741_824 && lat is None {
            spec_classify(cands, i + 1, Some(c), lon)
        } else if lon is None && lat != Some(c) {
            spec_classify(cands, i + 1, lat, Some(c))
        } else {
            spec_classify(cands, i + 1, lat, lon)
        }
    }
}

/// Whether the bytes from position `p` form a complete, acceptable
/// definition record: enough bytes for the fixed part, a field count of at
/// most 100, enough bytes for every field descriptor, and no field larger
/// than 100 bytes.
pub open spec fn spec_def_ok(data: Seq<u8>, p: int) -> bool {
    &&& p + 5 <= data.len()
    &&& data[p + 4] <= 100
    &&& p + 5 + 3 * data[p + 4] <= data.len()
    &&& forall|j: int| 0 <= j < data[p + 4] ==> #[trigger] data[p + 5 + 3 * j + 1] <= 100
}

/// Index of the first field descriptor, at or after `j`, whose declared
/// size is over 100 bytes, or the field count when there is none.
pub open spec fn spec_first_bad_field(data: Seq<u8>, p: int, n: int, j: int) -> int
    decreases n - j,
{
    if j >= n {
        n
    } else if data[p + 5 + 3 * j + 1] > 100 {
        j
    } else {
        spec_first_bad_field(data, p, n, j + 1)
    }
}

/// Where the cursor stands after a definition-record parse, successful
/// or not: rejection never rewinds, it stops right after the offending
/// byte.
pub open spec fn spec_def_end_pos(data: Seq<u8>, p: int) -> int {
    if p + 5 > data.len() {
        p
    } else if data[p + 4] > 100 {
        p + 5
    } else if 3 * data[p + 4] > data.len() - (p + 5) {
        p + 5
    } else {
        let n = data[p + 4] as int;
        let fb = spec_first_bad_field(data, p, n, 0);
        if fb == n {
            p + 5 + 3 * n
        } else {
            p + 5 + 3 * (fb + 1)
        }
    }
}

/// Sum of the field sizes of a definition's first `i` fields.
pub open spec fn spec_size_prefix(fields: Seq<FieldDefinition>, i: int) -> int
    decreases i,
{
    if i <= 0 {
        0
    } else {
        spec_size_prefix(fields, i - 1) + fields[i - 1].size
    }
}

/// Total byte width of a data message with the given definition.
pub open spec fn spec_total_size(fields: Seq<FieldDefinition>) -> int {
    spec_size_prefix(fields, fields.len() as int)
}

/// The field descriptors of an acceptable definition record starting at
/// position `p` (meaningful when `spec_def_ok` holds).
pub open spec fn spec_def_fields(data: Seq<u8>, p: int) -> Seq<FieldDefinition> {
    Seq::new(
        data[p + 4] as nat,
        |j: int| FieldDefinition {
            field_def_num: data[p + 5 + 3 * j],
            size: data[p + 5 + 3 * j + 1],
            base_type: data[p + 5 + 3 * j + 2],
        },
    )
}

/// The registry of message definitions as pure data: the global message
/// number and field layout under each local code.
pub open spec fn spec_defs_model(defs: Seq<Option<MessageDefinition>>) -> Seq<
    Option<(u16, Seq<FieldDefinition>)>,
> {
    Seq::new(
        defs.len(),
        |i: int| match defs[i] {
            Some(d) => Some((d.global_message_number, d.fields@)),
            None => None,
        },
    )
}

/// The coordinate a decoded latitude/longitude pair contributes, after
/// validation: one coordinate, or nothing.
pub open spec fn spec_emit(lat: Option<int>, lon: Option<int>) -> Seq<Coordinate> {
    match (lat, lon) {
        (Some(la), Some(lo)) => if crate::coord::valid_coordinate(la, lo) {
            seq![Coordinate { lat_e5: la as i64, lon_e5: lo as i64 }]
        } else {
            Seq::empty()
        },
        _ => Seq::empty(),
    }
}

/// The coordinates decoded from the record stream from position `pos`
/// onward, with the given definition registry, consecutive-error count,
/// and number of coordinates already found. Mirrors the record loop: a
/// definition record registers or fails, a data record decodes by its
/// definition's global message number, corruption counts errors and
/// forces progress, and the loop stops at the data-region bound, on an
/// overrun or oversized message, or when the error cap is reached with
/// little extracted.
pub open spec fn spec_decode_records(
    data: Seq<u8>,
    pos: int,
    defs: Seq<Option<(u16, Seq<FieldDefinition>)>>,
    errors: int,
    found: int,
    data_end: int,
) -> Seq<Coordinate>
    decreases data.len() - pos when 0 <= pos <= data.len()
{
    if pos >= data_end || data.len() - pos < 2 {
        Seq::empty()
    } else {
        let header = data[pos];
        let p1 = pos + 1;
        let local = (header & 0x0F) as int;
        if header & 0x40 != 0 {
            // definition record
            let pos2 = spec_def_end_pos(data, p1);
            if spec_def_ok(data, p1) {
                let defs2 = defs.update(
                    local,
                    Some(
                        (
                            spec_u16_le(data[p1 + 2], data[p1 + 3]) as u16,
                            spec_def_fields(data, p1),
                        ),
                    ),
                );
                if pos < pos2 <= data.len() {
                    spec_decode_records(data, pos2, defs2, 0, found, data_end)
                } else {
                    Seq::empty()
                }
            } else {
                spec_decode_fail(data, pos, pos2, defs, errors, found, data_end)
            }
        } else {
            // data record
            match defs[local] {
                Some((global, fields)) => {
                    let total = spec_total_size(fields);
                    if total > data.len() - p1 {
                        Seq::empty()
                    } else if global == 20 {
                        let st = spec_record_state(data, p1, fields, fields.len() as int);
                        let emit = spec_emit(st.1, st.2);
                        if pos < st.0 <= data.len() {
                            emit + spec_decode_records(
                                data,
                                st.0,
                                defs,
                                0,
                                found + emit.len(),
                                data_end,
                            )
                        } else {
                            emit
                        }
                    } else if global == 19 || global == 18 {
                        let st = spec_flex_state(data, p1, fields, fields.len() as int);
                        let cls = spec_classify(st.1, 0, None, None);
                        let emit = spec_emit(
                            match cls.0 {
                                Some(la) => Some(spec_semicircles_to_e5(la as int)),
                                None => None,
                            },
                            match cls.1 {
                                Some(lo) => Some(spec_semicircles_to_e5(lo as int)),
                                None => None,
                            },
                        );
                        if pos < st.0 <= data.len() {
                            emit + spec_decode_records(
                                data,
                                st.0,
                                defs,
                                0,
                                found + emit.len(),
                                data_end,
                            )
                        } else {
                            emit
                        }
                    } else if total < 1000 {
                        let pos2 = spec_step_pos(data.len() as int, p1, total);
                        if pos < pos2 <= data.len() {
                            spec_decode_records(data, pos2, defs, 0, found, data_end)
                        } else {
                            Seq::empty()
                        }
                    } else {
                        Seq::empty()
                    }
                },
                None => spec_decode_fail(data, pos, p1, defs, errors, found, data_end),
            }
        }
    }
}

/// The error-recovery step: count one consecutive error, force at least
/// one byte of progress, and stop at the error cap unless enough
/// coordinates were already extracted, in which case the counter is
/// halved.
pub open spec fn spec_decode_fail(
    data: Seq<u8>,
    pos: int,
    after: int,
    defs: Seq<Option<(u16, Seq<FieldDefinition>)>>,
    errors: int,
    found: int,
    data_end: int,
) -> Seq<Coordinate>
    decreases data.len() - pos, 0int when 0 <= pos <= data.len()
{
    let np = if after == pos {
        spec_step_pos(data.len() as int, pos, 1)
    } else {
        after
    };
    let e2 = errors + 1;
    if e2 >= 100 && found < 100 {
        Seq::empty()
    } else {
        let e3 = if e2 >= 100 {
            50int
        } else {
            e2
        };
        if pos < np <= data.len() {
            spec_decode_records(data, np, defs, e3, found, data_end)
        } else {
            Seq::empty()
        }
    }
}

/// Everything the decoder extracts from a buffer: nothing for a short
/// buffer, a header length below 12, or a wrong signature; otherwise the
/// record stream is decoded up to the data-region bound (the larger of
/// the declared data size and the buffer length less the trailing CRC).
pub open spec fn spec_decode(data: Seq<u8>) -> Seq<Coordinate> {
    if data.len() < 14 {
        Seq::empty()
    } else if data[0] < 12 {
        Seq::empty()
    } else if !(data[8] == 0x2E && data[9] == 0x46 && data[10] == 0x49 && data[11] == 0x54) {
        Seq::empty()
    } else {
        let after: int = if data[0] == 14 {
            14
        } else {
            12
        };
        let declared = spec_u32_le(data[4], data[5], data[6], data[7]);
        let header_data_end: int = if after + declared > data.len() {
            data.len() as int
        } else {
            after + declared
        };
        let file_data_end: int = data.len() - 2;
        let data_end: int = if header_data_end > file_data_end {
            header_data_end
        } else {
            file_data_end
        };
        spec_decode_records(data, after, Seq::new(16, |i: int| None), 0, 0, data_end)
    }
}

/// Stateful decoder for the binary telemetry format: a bounds-checked
/// cursor plus the registry of locally-scoped message definitions
/// (local codes 0-15), both scoped to one decoding session.
pub struct FitParser {
    pub cursor: BinaryCursor,
    pub definitions: Vec<Option<MessageDefinition>>,
}

impl FitParser {
    pub open spec fn wf(self) -> bool {
        &&& self.cursor.wf()
        &&& self.definitions@.len() == 16
        &&& forall|i: int|
            0 <= i < 16 ==> ((#[trigger] self.definitions@[i]) matches Some(d) ==> d.wf())
    }

    pub fn new(data: Vec<u8>) -> (p: Self)
        ensures
            p.wf(),
            p.cursor.data@ == data@,
            p.cursor.pos == 0,
            forall|i: int| 0 <= i < 16 ==> (#[trigger] p.definitions@[i]) is None,
    {
        let mut defs: Vec<Option<MessageDefinition>> = Vec::new();
        let mut k: usize = 0;
        while k < 16
            invariant
                k <= 16,
                defs@.len() == k,
                forall|i: int| 0 <= i < k ==> (#[trigger] defs@[i]) is None,
            decreases 16 - k,
        {
            defs.push(None);
            k += 1;
        }
        FitParser { cursor: BinaryCursor::new(data), definitions: defs }
    }

    /// Parses the body of a definition record (the record header byte has
    /// already been consumed): reserved byte, architecture byte, global
    /// message number, field count, then 3-byte field descriptors. Returns
    /// `None`, without rewinding, on truncation, a field count above 100,
    /// or a field size above 100.
    fn parse_definition_message(&mut self) -> (r: Option<MessageDefinition>)
        requires
            old(self).wf(),
        ensures
            final(self).wf(),
            final(self).cursor.data@ == old(self).cursor.data@,
            final(self).definitions@ == old(self).definitions@,
            final(self).cursor.pos >= old(self).cursor.pos,
            (r is Some) == spec_def_ok(old(self).cursor.data@, old(self).cursor.pos as int),
            final(self).cursor.pos == spec_def_end_pos(
                old(self).cursor.data@,
                old(self).cursor.pos as int,
            ),
            r matches Some(def) ==> {
                let data = old(self).cursor.data@;
                let p = old(self).cursor.pos as int;
                &&& def.wf()
                &&& def.global_message_number == spec_u16_le(data[p + 2], data[p + 3])
                &&& def.fields@.len() == data[p + 4]
                &&& forall|j: int|
                    0 <= j < def.fields@.len() ==> {
                        &&& (#[trigger] def.fields@[j]).field_def_num == data[p + 5 + 3 * j]
                        &&& def.fields@[j].size == data[p + 5 + 3 * j + 1]
                        &&& def.fields@[j].base_type == data[p + 5 + 3 * j + 2]
                    }
                &&& final(self).cursor.pos == p + 5 + 3 * data[p + 4]
            },
    {
        let ghost data = self.cursor.data@;
        let ghost p0 = self.cursor.pos as int;
        let ghost defs0 = self.definitions@;
        if self.cursor.data.len() - self.cursor.pos < 5 {
            return None;
        }
        self.cursor.skip(1);  // reserved byte
        self.cursor.skip(1);  // architecture byte
        let global_message_number = match self.cursor.read_u16_le() {
            Some(g) => g,
            None => {
                return None;
            },
        };
        let num_fields = match self.cursor.read_u8() {
            Some(n) => n,
            None => {
                return None;
            },
        };
        if num_fields > 100 {
            return None;
        }
        if (num_fields as usize) * 3 > self.cursor.data.len() - self.cursor.pos {
            return None;
        }
        let mut fields: Vec<FieldDefinition> = Vec::new();
        let mut j: usize = 0;
        while j < num_fields as usize
            invariant
                self.cursor.wf(),
                self.definitions@ == defs0,
                self.definitions@.len() == 16,
                forall|i: int|
                    0 <= i < 16 ==> ((#[trigger] self.definitions@[i]) matches Some(d) ==> d.wf()),
                self.cursor.data@ == data,
                data == old(self).cursor.data@,
                p0 == old(self).cursor.pos as int,
                defs0 == old(self).definitions@,
                0 <= p0,
                p0 + 5 <= data.len(),
                num_fields <= 100,
                j <= num_fields as usize,
                num_fields == data[p0 + 4],
                self.cursor.pos == p0 + 5 + 3 * j,
                p0 + 5 + 3 * (num_fields as int) <= data.len(),
                fields@.len() == j,
                spec_first_bad_field(data, p0, num_fields as int, 0) == spec_first_bad_field(
                    data,
                    p0,
                    num_fields as int,
                    j as int,
                ),
                forall|k: int|
                    0 <= k < j ==> {
                        &&& (#[trigger] fields@[k]).field_def_num == data[p0 + 5 + 3 * k]
                        &&& fields@[k].size == data[p0 + 5 + 3 * k + 1]
                        &&& fields@[k].size <= 100
                        &&& fields@[k].base_type == data[p0 + 5 + 3 * k + 2]
                    },
            decreases num_fields as usize - j,
        {
            let field_def_num = match self.cursor.read_u8() {
                Some(b) => b,
                None => {
                    return None;
                },
            };
            let size = match self.cursor.read_u8() {
                Some(b) => b,
                None => {
                    return None;
                },
            };
            let base_type = match self.cursor.read_u8() {
                Some(b) => b,
                None => {
                    return None;
                },
            };
            if size > 100 {
                return None;
            }
            fields.push(FieldDefinition { field_def_num, size, base_type });
            j += 1;
        }
        assert forall|jj: int| 0 <= jj < data[p0 + 4] implies #[trigger] data[p0 + 5 + 3 * jj + 1]
            <= 100 by {
            assert(fields@[jj].size == data[p0 + 5 + 3 * jj + 1]);
        }
        Some(MessageDefinition { global_message_number, fields })
    }

    /// Decodes a data record with the GPS-primary layout: a 4-byte field
    /// numbered 0 is latitude and a 4-byte field numbered 1 is longitude;
    /// the maximum signed 32-bit value and zero are "no data" sentinels,
    /// and a latitude of more than 90 degrees in magnitude is discarded.
    /// Returns a raw fixed-point pair, not yet validated.
    fn parse_record_message(&mut self, definition: &MessageDefinition) -> (r: Option<(i64, i64)>)
        requires
            old(self).wf(),
            definition.wf(),
        ensures
            final(self).wf(),
            final(self).cursor.data@ == old(self).cursor.data@,
            final(self).definitions@ == old(self).definitions@,
            final(self).cursor.pos >= old(self).cursor.pos,
            r matches Some(c) ==> {
                &&& -9_000_000 <= c.0 <= 9_000_000
                &&& -18_000_000 <= c.1 <= 18_000_000
            },
            ({
                let st = spec_record_state(
                    old(self).cursor.data@,
                    old(self).cursor.pos as int,
                    definition.fields@,
                    definition.fields@.len() as int,
                );
                &&& final(self).cursor.pos == st.0
                &&& (r is Some) == (st.1 is Some && st.2 is Some)
                &&& r matches Some(c) ==> st.1 == Some(c.0 as int) && st.2 == Some(c.1 as int)
            }),
    {
        let ghost data = old(self).cursor.data@;
        let ghost p = old(self).cursor.pos as int;
        let mut lat: Option<i64> = None;
        let mut lon: Option<i64> = None;
        let mut fi: usize = 0;
        while fi < definition.fields.len()
            invariant
                self.wf(),
                self.cursor.data@ == old(self).cursor.data@,
                self.definitions@ == old(self).definitions@,
                self.cursor.pos >= old(self).cursor.pos,
                definition.wf(),
                fi <= definition.fields@.len(),
                lat matches Some(v) ==> -9_000_000 <= v <= 9_000_000,
                lon matches Some(v) ==> -18_000_000 <= v <= 18_000_000,
                data == old(self).cursor.data@,
                p == old(self).cursor.pos as int,
                ({
                    let st = spec_record_state(data, p, definition.fields@, fi as int);
                    &&& self.cursor.pos == st.0
                    &&& (lat is Some) == (st.1 is Some)
                    &&& lat matches Some(v) ==> st.1 == Some(v as int)
                    &&& (lon is Some) == (st.2 is Some)
                    &&& lon matches Some(v) ==> st.2 == Some(v as int)
                }),
            decreases definition.fields@.len() - fi,
        {
            let field = definition.fields[fi];
            let size = field.size as usize;
            let avail = self.cursor.data.len() - self.cursor.pos;
            if size == 0 || avail == 0 || size > avail {
                // cannot read this field safely: consume what is there
                let safe = if avail < size { avail } else { size };
                self.cursor.skip(safe);
            } else if field.field_def_num == 0 {
                if size == 4 {
                    match self.cursor.read_i32_le() {
                        Some(raw) => {
                            if raw != 0x7FFF_FFFF && raw != 0 {
                                if -1_073_741_824 <= raw && raw <= 1_073_741_824 {
                                    lat = Some(semicircles_to_e5(raw));
                                }
                            }
                        },
                        None => {},
                    }
                } else {
                    self.cursor.skip(size);
                }
            } else if field.field_def_num == 1 {
                if size == 4 {
                    match self.cursor.read_i32_le() {
                        Some(raw) => {
                            if raw != 0x7FFF_FFFF && raw != 0 {
                                // every 32-bit semicircle value is within
                                // 180 degrees, so no range check is needed
                                lon = Some(semicircles_to_e5(raw));
                            }
                        },
                        None => {},
                    }
                } else {
                    self.cursor.skip(size);
                }
            } else {
                self.cursor.skip(size);
            }
            fi += 1;
        }
        match (lat, lon) {
            (Some(la), Some(lo)) => Some((la, lo)),
            _ => None,
        }
    }

    /// Decodes a data record of an auxiliary message type whose field
    /// numbering is ambiguous: every non-sentinel 4-byte value is a
    /// candidate degree value; the first candidate within 90 degrees of
    /// zero is taken as latitude, and the first remaining candidate with a
    /// different value as longitude. Returns a raw fixed-point pair, not
    /// yet validated.
    fn parse_flexible_gps_message(&mut self, definition: &MessageDefinition) -> (r: Option<
        (i64, i64),
    >)
        requires
            old(self).wf(),
            definition.wf(),
        ensures
            final(self).wf(),
            final(self).cursor.data@ == old(self).cursor.data@,
            final(self).definitions@ == old(self).definitions@,
            final(self).cursor.pos >= old(self).cursor.pos,
            r matches Some(c) ==> {
                &&& -9_000_000 <= c.0 <= 9_000_000
                &&& -18_000_000 <= c.1 <= 18_000_000
            },
            ({
                let st = spec_flex_state(
                    old(self).cursor.data@,
                    old(self).cursor.pos as int,
                    definition.fields@,
                    definition.fields@.len() as int,
                );
                let cls = spec_classify(st.1, 0, None, None);
                &&& final(self).cursor.pos == st.0
                &&& (r is Some) == (cls.0 is Some && cls.1 is Some)
                &&& r matches Some(c) ==> {
                    &&& cls.0 matches Some(la) && c.0 == spec_semicircles_to_e5(la as int)
                    &&& cls.1 matches Some(lo) && c.1 == spec_semicircles_to_e5(lo as int)
                }
            }),
    {
        let ghost data = old(self).cursor.data@;
        let ghost p = old(self).cursor.pos as int;
        let mut potential: Vec<i32> = Vec::new();
        let mut fi: usize = 0;
        while fi < definition.fields.len()
            invariant
                self.wf(),
                self.cursor.data@ == old(self).cursor.data@,
                self.definitions@ == old(self).definitions@,
                self.cursor.pos >= old(self).cursor.pos,
                definition.wf(),
                fi <= definition.fields@.len(),
                data == old(self).cursor.data@,
                p == old(self).cursor.pos as int,
                ({
                    let st = spec_flex_state(data, p, definition.fields@, fi as int);
                    &&& self.cursor.pos == st.0
                    &&& potential@ == st.1
                }),
            decreases definition.fields@.len() - fi,
        {
            let field = definition.fields[fi];
            let size = field.size as usize;
            let avail = self.cursor.data.len() - self.cursor.pos;
            if size == 0 || avail == 0 || size > avail {
                // cannot read this field safely: consume what is there
                let safe = if avail < size { avail } else { size };
                self.cursor.skip(safe);
            } else if size == 4 {
                match self.cursor.read_i32_le() {
                    Some(raw) => {
                        if raw != 0x7FFF_FFFF && raw != 0 {
                            // every 32-bit semicircle value is within 180
                            // degrees, so it qualifies as a candidate
                            potential.push(raw);
                        }
                    },
                    None => {},
                }
            } else {
                self.cursor.skip(size);
            }
            fi += 1;
        }

        let mut lat_raw: Option<i32> = None;
        let mut lon_raw: Option<i32> = None;
        let mut ci: usize = 0;
        while ci < potential.len()
            invariant
                ci <= potential@.len(),
                lat_raw matches Some(v) ==> -1_073_741_824 <= v <= 1_073_741_824,
                spec_classify(potential@, 0, None, None) == spec_classify(
                    potential@,
                    ci as int,
                    lat_raw,
                    lon_raw,
                ),
            decreases potential@.len() - ci,
        {
            let c = potential[ci];
            if -1_073_741_824 <= c && c <= 1_073_741_824 && lat_raw.is_none() {
                lat_raw = Some(c);
            } else if lon_raw.is_none() && (match lat_raw {
                Some(lr) => c != lr,
                None => true,
            }) {
                lon_raw = Some(c);
            }
            ci += 1;
        }
        match (lat_raw, lon_raw) {
            (Some(la), Some(lo)) => Some((semicircles_to_e5(la), semicircles_to_e5(lo))),
            _ => None,
        }
    }

    /// Total byte width of a data message with the given definition.
    fn total_field_size(definition: &MessageDefinition) -> (t: usize)
        requires
            definition.wf(),
        ensures
            t == spec_total_size(definition.fields@),
            t <= 10_000,
    {
        let mut total: usize = 0;
        let mut fi: usize = 0;
        while fi < definition.fields.len()
            invariant
                definition.wf(),
                fi <= definition.fields@.len(),
                total == spec_size_prefix(definition.fields@, fi as int),
                total <= 100 * fi,
            decreases definition.fields@.len() - fi,
        {
            total = total + definition.fields[fi].size as usize;
            fi += 1;
        }
        total
    }

    /// Copies a message definition, so the registry entry can stay in
    /// place while the cursor advances through the record body.
    fn clone_definition(definition: &MessageDefinition) -> (r: MessageDefinition)
        requires
            definition.wf(),
        ensures
            r.global_message_number == definition.global_message_number,
            r.fields@ == definition.fields@,
            r.wf(),
    {
        let mut fields: Vec<FieldDefinition> = Vec::new();
        let mut i: usize = 0;
        while i < definition.fields.len()
            invariant
                i <= definition.fields@.len(),
                fields@ == definition.fields@.subrange(0, i as int),
            decreases definition.fields@.len() - i,
        {
            fields.push(definition.fields[i]);
            assert(fields@ =~= definition.fields@.subrange(0, i + 1));
            i += 1;
        }
        assert(fields@ =~= definition.fields@);
        MessageDefinition { global_message_number: definition.global_message_number, fields }
    }

    /// The definition currently registered under a local message-type
    /// code, copied out, or `None` when that code has not been defined.
    fn lookup_definition(&self, local: usize) -> (r: Option<MessageDefinition>)
        requires
            self.wf(),
            local < 16,
        ensures
            (r is Some) == (self.definitions@[local as int] is Some),
            r matches Some(d) ==> {
                &&& self.definitions@[local as int] matches Some(d0)
                &&& d.global_message_number == d0.global_message_number
                &&& d.fields@ == d0.fields@
                &&& d.wf()
            },
    {
        match &self.definitions[local] {
            Some(d) => Some(Self::clone_definition(d)),
            None => None,
        }
    }

    /// Decodes every GPS coordinate in the buffer, in file order,
    /// computing exactly `spec_decode`: checks
    /// the header (length byte at least 12, the 4-byte signature at
    /// offsets 8-11, optional trailing header CRC), then walks the record
    /// stream until the data-region bound, registering definitions and
    /// decoding data records, with bounded-retry recovery on corrupt
    /// records. Decoding terminates on any input, never reads out of
    /// bounds, and returns only valid coordinates; a buffer shorter than
    /// 14 bytes, a header length below 12, or a wrong signature yields no
    /// coordinates at all.
    pub fn parse_gps_coordinates(&mut self) -> (coordinates: Vec<Coordinate>)
        requires
            old(self).wf(),
            old(self).cursor.pos == 0,
            forall|i: int| 0 <= i < 16 ==> (#[trigger] old(self).definitions@[i]) is None,
        ensures
            coordinates@ == spec_decode(old(self).cursor.data@),
            final(self).wf(),
            final(self).cursor.data@ == old(self).cursor.data@,
            forall|k: int| 0 <= k < coordinates@.len() ==> (#[trigger] coordinates@[k]).wf(),
            old(self).cursor.data@.len() < 14 ==> coordinates@.len() == 0,
            old(self).cursor.data@.len() >= 14 && old(self).cursor.data@[0] < 12
                ==> coordinates@.len() == 0,
            old(self).cursor.data@.len() >= 14 && !(old(self).cursor.data@[8] == 0x2E
                && old(self).cursor.data@[9] == 0x46 && old(self).cursor.data@[10] == 0x49
                && old(self).cursor.data@[11] == 0x54) ==> coordinates@.len() == 0,
    {
        let mut coordinates: Vec<Coordinate> = Vec::new();
        if self.cursor.data.len() < 14 {
            return coordinates;
        }

        let header_size = match self.cursor.read_u8() {
            Some(h) => h,
            None => {
                return coordinates;
            },
        };
        if header_size < 12 {
            return coordinates;
        }
        let _protocol_version = self.cursor.read_u8();
        let _profile_version = self.cursor.read_u16_le();
        let data_size = match self.cursor.read_u32_le() {
            Some(v) => v,
            None => {
                return coordinates;
            },
        };
        // signature ".FIT" at offsets 8-11
        let sig0 = match self.cursor.read_u8() {
            Some(b) => b,
            None => {
                return coordinates;
            },
        };
        let sig1 = match self.cursor.read_u8() {
            Some(b) => b,
            None => {
                return coordinates;
            },
        };
        let sig2 = match self.cursor.read_u8() {
            Some(b) => b,
            None => {
                return coordinates;
            },
        };
        let sig3 = match self.cursor.read_u8() {
            Some(b) => b,
            None => {
                return coordinates;
            },
        };
        if !(sig0 == 0x2E && sig1 == 0x46 && sig2 == 0x49 && sig3 == 0x54) {
            return coordinates;
        }

        // skip the header CRC if a 14-byte header is declared
        if header_size == 14 {
            self.cursor.skip(2);
        }

        // Data-region bound: the larger of (header position + declared
        // data size) and (buffer length - 2), tolerating a wrong declared
        // size while reserving the trailing CRC bytes.
        let len = self.cursor.data.len();
        let after_header = self.cursor.pos;
        let header_data_end: usize = if (data_size as usize) > len - after_header {
            len
        } else {
            after_header + (data_size as usize)
        };
        let file_data_end: usize = if len >= 2 {
            len - 2
        } else {
            0
        };
        let data_end: usize = if header_data_end > file_data_end {
            header_data_end
        } else {
            file_data_end
        };

        let ghost gdata = old(self).cursor.data@;
        let ghost dend = data_end as int;
        proof {
            assert(spec_defs_model(self.definitions@) =~= Seq::new(16, |i: int| None));
            assert(coordinates@ + spec_decode_records(
                gdata,
                self.cursor.pos as int,
                spec_defs_model(self.definitions@),
                0,
                0,
                dend,
            ) =~= spec_decode_records(
                gdata,
                self.cursor.pos as int,
                spec_defs_model(self.definitions@),
                0,
                0,
                dend,
            ));
        }
        let mut consecutive_errors: usize = 0;
        while self.cursor.pos < data_end && self.cursor.data.len() - self.cursor.pos >= 2
            invariant_except_break
                consecutive_errors < 100,
                coordinates@ + spec_decode_records(
                    gdata,
                    self.cursor.pos as int,
                    spec_defs_model(self.definitions@),
                    consecutive_errors as int,
                    coordinates@.len() as int,
                    dend,
                ) == spec_decode(gdata),
            invariant
                self.wf(),
                self.cursor.data@ == old(self).cursor.data@,
                gdata == old(self).cursor.data@,
                dend == data_end as int,
                data_end <= self.cursor.data@.len(),
                forall|k: int| 0 <= k < coordinates@.len() ==> (#[trigger] coordinates@[k]).wf(),
            ensures
                coordinates@ == spec_decode(gdata),
            decreases self.cursor.data@.len() - self.cursor.pos,
        {
            let ghost top_pos = self.cursor.pos as int;
            let ghost top_model = spec_defs_model(self.definitions@);
            let ghost top_err = consecutive_errors as int;
            let ghost top_coords = coordinates@;
            let ghost grec = spec_decode_records(
                gdata,
                top_pos,
                top_model,
                top_err,
                top_coords.len() as int,
                dend,
            );
            let start_pos = self.cursor.pos;
            let record_header = match self.cursor.read_u8() {
                Some(h) => h,
                None => {
                    break;
                },
            };
            let is_definition = record_header & 0x40 != 0;
            assert((record_header & 0x0F) < 16) by (bit_vector);
            let local_message_type = (record_header & 0x0F) as usize;
            let ghost p1 = top_pos + 1;

            let mut stop = false;
            let parse_success: bool = if is_definition {
                match self.parse_definition_message() {
                    Some(definition) => {
                        let ghost gdef_global = definition.global_message_number;
                        let ghost gdef_fields = definition.fields@;
                        self.definitions.set(local_message_type, Some(definition));
                        proof {
                            assert(gdef_fields =~~= spec_def_fields(gdata, p1));
                            assert(spec_defs_model(self.definitions@) =~~= top_model.update(
                                local_message_type as int,
                                Some(
                                    (
                                        spec_u16_le(gdata[p1 + 2], gdata[p1 + 3]) as u16,
                                        spec_def_fields(gdata, p1),
                                    ),
                                ),
                            ));
                            assert(grec == spec_decode_records(
                                gdata,
                                self.cursor.pos as int,
                                spec_defs_model(self.definitions@),
                                0,
                                top_coords.len() as int,
                                dend,
                            ));
                        }
                        true
                    },
                    None => false,
                }
            } else {
                match self.lookup_definition(local_message_type) {
                    Some(definition) => {
                        proof {
                            assert(top_model[local_message_type as int] matches Some(e)
                                && e.0 == definition.global_message_number
                                && e.1 == definition.fields@);
                        }
                        let total_size = Self::total_field_size(&definition);
                        if total_size > self.cursor.data.len() - self.cursor.pos {
                            // not enough bytes left for this message:
                            // consume the tail if the width is plausible,
                            // then stop
                            proof {
                                assert(grec =~= Seq::<Coordinate>::empty());
                                assert(top_coords + grec =~= top_coords);
                            }
                            if total_size < 1000 {
                                let rest = self.cursor.data.len() - self.cursor.pos;
                                self.cursor.skip(rest);
                            }
                            stop = true;
                            true
                        } else if definition.global_message_number == 20 {
                            // primary GPS record
                            match self.parse_record_message(&definition) {
                                Some((la, lo)) => {
                                    if is_valid_coordinate(la, lo) {
                                        coordinates.push(Coordinate { lat_e5: la, lon_e5: lo });
                                    }
                                },
                                None => {},
                            }
                            proof {
                                let st = spec_record_state(
                                    gdata,
                                    p1,
                                    definition.fields@,
                                    definition.fields@.len() as int,
                                );
                                let emit = spec_emit(st.1, st.2);
                                assert(coordinates@ =~= top_coords + emit);
                                assert(grec =~= emit + spec_decode_records(
                                    gdata,
                                    self.cursor.pos as int,
                                    top_model,
                                    0,
                                    coordinates@.len() as int,
                                    dend,
                                ));
                                assert(top_coords + grec =~= coordinates@
                                    + spec_decode_records(
                                    gdata,
                                    self.cursor.pos as int,
                                    top_model,
                                    0,
                                    coordinates@.len() as int,
                                    dend,
                                ));
                            }
                            true
                        } else if definition.global_message_number == 19
                            || definition.global_message_number == 18 {
                            // auxiliary messages that sometimes carry GPS
                            // fields with ambiguous numbering
                            match self.parse_flexible_gps_message(&definition) {
                                Some((la, lo)) => {
                                    if is_valid_coordinate(la, lo) {
                                        coordinates.push(Coordinate { lat_e5: la, lon_e5: lo });
                                    }
                                },
                                None => {},
                            }
                            proof {
                                let st = spec_flex_state(
                                    gdata,
                                    p1,
                                    definition.fields@,
                                    definition.fields@.len() as int,
                                );
                                let cls = spec_classify(st.1, 0, None, None);
                                let emit = spec_emit(
                                    match cls.0 {
                                        Some(la) => Some(spec_semicircles_to_e5(la as int)),
                                        None => None,
                                    },
                                    match cls.1 {
                                        Some(lo) => Some(spec_semicircles_to_e5(lo as int)),
                                        None => None,
                                    },
                                );
                                assert(coordinates@ =~= top_coords + emit);
                                assert(grec =~= emit + spec_decode_records(
                                    gdata,
                                    self.cursor.pos as int,
                                    top_model,
                                    0,
                                    coordinates@.len() as int,
                                    dend,
                                ));
                                assert(top_coords + grec =~= coordinates@
                                    + spec_decode_records(
                                    gdata,
                                    self.cursor.pos as int,
                                    top_model,
                                    0,
                                    coordinates@.len() as int,
                                    dend,
                                ));
                            }
                            true
                        } else {
                            // other message: skip exactly its width, or
                            // stop when the width is unreasonable
                            if total_size < 1000 {
                                self.cursor.skip(total_size);
                                proof {
                                    assert(grec == spec_decode_records(
                                        gdata,
                                        self.cursor.pos as int,
                                        top_model,
                                        0,
                                        top_coords.len() as int,
                                        dend,
                                    ));
                                }
                            } else {
                                proof {
                                    assert(grec =~= Seq::<Coordinate>::empty());
                                    assert(top_coords + grec =~= top_coords);
                                }
                                let rest = self.cursor.data.len() - self.cursor.pos;
                                self.cursor.skip(rest);
                                stop = true;
                            }
                            true
                        }
                    },
                    None => false,
                }
            };

            if stop {
                break;
            }
            if parse_success {
                consecutive_errors = 0;
            } else {
                proof {
                    assert(grec == spec_decode_fail(
                        gdata,
                        top_pos,
                        self.cursor.pos as int,
                        top_model,
                        top_err,
                        top_coords.len() as int,
                        dend,
                    ));
                }
                consecutive_errors = consecutive_errors + 1;
                if self.cursor.pos == start_pos {
                    // force progress so the loop always terminates
                    self.cursor.skip(1);
                }
                if consecutive_errors >= 100 {
                    if coordinates.len() < 100 {
                        // too much corruption and little to show for it
                        proof {
                            assert(grec =~= Seq::<Coordinate>::empty());
                            assert(top_coords + grec =~= top_coords);
                        }
                        break;
                    } else {
                        // substantial data already extracted: halve the
                        // counter and keep salvaging
                        consecutive_errors = 50;
                    }
                }
            }
        }
        proof {
            assert(coordinates@ =~= coordinates@ + Seq::<Coordinate>::empty());
        }
        coordinates
    }
}

} // verus!
