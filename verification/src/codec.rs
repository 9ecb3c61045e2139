//! Executable wire codec: turning fields into bytes and bytes back into
//! fields, verified against the byte-level model in [`crate::wire_format`].

use vstd::prelude::*;

use crate::field::Field;
use crate::field::FieldData;
use crate::field::FieldType;
use crate::field::valid_tag;
use crate::field::SpecField;
use crate::field::SpecFieldData;
use crate::field::fields_view;
use crate::field::lemma_fields_view;
use crate::wire_format::MAX_DATA_LEN;
use crate::wire_format::MAX_NAME_LEN;
use crate::wire_format::spec_be_num;
use crate::wire_format::spec_be_cap;
use crate::wire_format::spec_min_be;
use crate::wire_format::spec_u32_be;
use crate::wire_format::spec_record;
use crate::wire_format::spec_records;
use crate::wire_format::spec_value_bytes;
use crate::wire_format::spec_fields_wf;
use crate::wire_format::spec_frame;
use crate::wire_format::lemma_spec_fields_wf;
use crate::wire_format::lemma_value_len_bounded;
use crate::wire_format::lemma_be_num_bound;
use crate::wire_format::lemma_be_cap_monotone;
use crate::wire_format::lemma_be_num_fits_u64;
use crate::wire_format::spec_rec_ok;
use crate::wire_format::spec_rec_len;
use crate::wire_format::spec_rec_in_bounds;
use crate::wire_format::spec_rec_name_bytes;
use crate::wire_format::spec_rec_data_bytes;
use crate::wire_format::spec_parse_fields;
use crate::wire_format::spec_parse_value;
use vstd::utf8::valid_utf8;
use vstd::utf8::decode_utf8;
use vstd::slice::slice_subrange;
use vstd::slice::slice_to_vec;

verus! {

broadcast use vstd::std_specs::vec::group_vec_axioms, vstd::seq::group_seq_axioms;

/// Everything that can go wrong while building, encoding, decoding or
/// interpreting fields.  Codec and mapping failures abort only the one
/// operation they occur in.
#[derive(Debug, Clone, PartialEq, Eq)]
pub enum WireError {
    /// A field name longer than 255 bytes cannot be carried on the wire.
    NameTooLong,
    /// A payload longer than the 4-byte data-length field can say.
    DataTooLong,
    /// The declared lengths read past the end of the available bytes.
    Truncated,
    /// Name or string-payload bytes that are not valid UTF-8.
    InvalidUtf8,
    /// A type tag byte outside the five assigned values.
    UnknownTag(u8),
    /// An integer payload of more than 8 bytes.
    IntTooWide,
    /// A frame whose byte count disagrees with its declared total length.
    LengthMismatch,
    /// A field held a different type than the caller asked for.
    TypeMismatch,
    /// A required reply field was absent; carries the field's name.
    MissingField(String),
    /// A reply was requested for a method name this client does not know.
    UnknownMethod(String),
}

/// Appends a copy of `bytes` to `out`.
pub(crate) fn push_bytes(out: &mut Vec<u8>, bytes: &[u8])
    ensures
        final(out)@ == old(out)@ + bytes@,
{
    let ghost start = out@;
    let mut i: usize = 0;
    while i < bytes.len()
        invariant
            i <= bytes@.len(),
            out@ == start + bytes@.subrange(0, i as int),
        decreases bytes@.len() - i,
    {
        out.push(bytes[i]);
        proof {
            assert(start + bytes@.subrange(0, i as int) + seq![bytes@[i as int]]
                =~= start + bytes@.subrange(0, i + 1));
        }
        i = i + 1;
    }
    proof {
        assert(bytes@.subrange(0, bytes@.len() as int) =~= bytes@);
    }
}

/// The unsigned big-endian value of up to 8 bytes.
pub fn bytes2num(bytes: &[u8]) -> (r: u64)
    requires
        bytes@.len() <= 8,
    ensures
        r == spec_be_num(bytes@),
{
    let mut acc: u64 = 0;
    let mut i: usize = 0;
    while i < bytes.len()
        invariant
            bytes@.len() <= 8,
            i <= bytes@.len(),
            acc == spec_be_num(bytes@.subrange(0, i as int)),
        decreases bytes@.len() - i,
    {
        proof {
            lemma_be_num_bound(bytes@.subrange(0, i as int));
            lemma_be_cap_monotone(i as nat, 7);
            assert(spec_be_cap(7) == 0xFF_FFFF_FFFF_FFFF) by {
                reveal_with_fuel(spec_be_cap, 8);
            }
            assert(bytes@.subrange(0, i + 1).drop_last() =~= bytes@.subrange(0, i as int));
        }
        acc = acc * 256 + (bytes[i] as u64);
        i = i + 1;
    }
    proof {
        assert(bytes@.subrange(0, bytes@.len() as int) =~= bytes@);
    }
    acc
}

/// Appends the 4 big-endian bytes of `v` to `out`.
fn write_u32_be(v: u32, out: &mut Vec<u8>)
    ensures
        final(out)@ == old(out)@ + spec_u32_be(v),
{
    let ghost start = out@;
    out.push((v / 0x1000000) as u8);
    out.push(((v / 0x10000) % 0x100) as u8);
    out.push(((v / 0x100) % 0x100) as u8);
    out.push((v % 0x100) as u8);
    proof {
        assert(out@ =~= start + spec_u32_be(v));
    }
}

/// Appends the minimal big-endian bytes of `v` to `out`; zero appends
/// nothing.
fn write_min_be(v: u64, out: &mut Vec<u8>)
    ensures
        final(out)@ == old(out)@ + spec_min_be(v),
    decreases v,
{
    if v != 0 {
        write_min_be(v / 256, out);
        out.push((v % 256) as u8);
    }
    proof {
        if v == 0 {
            assert(old(out)@ + spec_min_be(v) =~= old(out)@);
        } else {
            assert(old(out)@ + spec_min_be(v / 256) + seq![(v % 256) as u8]
                =~= old(out)@ + spec_min_be(v));
        }
    }
}

/// Appends the payload bytes of `data` to `out`, or reports why the payload
/// cannot be carried: some length field would overflow.  On an error `out`
/// is left as it was.
fn write_value(data: &FieldData, out: &mut Vec<u8>) -> (r: Result<(), WireError>)
    ensures
        match r {
            Ok(()) => data.deep_view().wf() && final(out)@ == old(out)@ + spec_value_bytes(
                data.deep_view(),
            ),
            Err(e) => !data.deep_view().wf() && final(out)@ == old(out)@ && (e
                == WireError::NameTooLong || e == WireError::DataTooLong),
        },
    decreases data,
{
    match data {
        FieldData::S64(v) => {
            write_min_be(*v, out);
            Ok(())
        }
        FieldData::Str(s) => {
            let sb = s.as_str().as_bytes();
            if sb.len() as u64 > MAX_DATA_LEN {
                return Err(WireError::DataTooLong);
            }
            push_bytes(out, sb);
            Ok(())
        }
        FieldData::Bin(b) => {
            if b.len() as u64 > MAX_DATA_LEN {
                return Err(WireError::DataTooLong);
            }
            push_bytes(out, b.as_slice());
            Ok(())
        }
        FieldData::Dict(fs) => write_children(fs, out),
        FieldData::List(fs) => write_children(fs, out),
    }
}

/// Appends the records of all child fields to `out`, checking that the run
/// fits the parent's 4-byte data-length field.  On an error `out` is left as
/// it was.
fn write_children(fs: &Vec<Field>, out: &mut Vec<u8>) -> (r: Result<(), WireError>)
    ensures
        match r {
            Ok(()) => spec_fields_wf(fields_view(fs@)) && spec_records(fields_view(fs@)).len()
                <= MAX_DATA_LEN && final(out)@ == old(out)@ + spec_records(fields_view(fs@)),
            Err(e) => !(spec_fields_wf(fields_view(fs@)) && spec_records(
                fields_view(fs@),
            ).len() <= MAX_DATA_LEN) && final(out)@ == old(out)@ && (e == WireError::NameTooLong
                || e == WireError::DataTooLong),
        },
    decreases fs,
{
    let start: usize = out.len();
    let ghost orig = out@;
    let mut i: usize = 0;
    while i < fs.len()
        invariant
            i <= fs@.len(),
            start == orig.len(),
            orig == old(out)@,
            out@ == orig + spec_records(fields_view(fs@.subrange(0, i as int))),
            spec_fields_wf(fields_view(fs@.subrange(0, i as int))),
        decreases fs@.len() - i,
    {
        let ghost prefix = fields_view(fs@.subrange(0, i as int));
        let r = serialize(&fs[i], out);
        match r {
            Ok(()) => {}
            Err(e) => {
                out.truncate(start);
                proof {
                    assert(out@ =~= orig);
                    lemma_fields_view(fs@);
                    lemma_spec_fields_wf(fields_view(fs@));
                    assert(fields_view(fs@)[i as int] == fs@[i as int].deep_view());
                    assert(!fields_view(fs@)[i as int].wf());
                }
                return Err(e);
            }
        }
        proof {
            let pv = fields_view(fs@.subrange(0, i + 1));
            assert(fs@.subrange(0, i + 1).drop_last() =~= fs@.subrange(0, i as int));
            assert(fs@.subrange(0, i + 1).last() == fs@[i as int]);
            assert(pv.drop_last() =~= prefix);
            assert(pv.last() == fs@[i as int].deep_view());
            assert(spec_records(pv) =~= spec_records(prefix) + spec_record(
                fs@[i as int].deep_view(),
            ));
        }
        i = i + 1;
    }
    proof {
        assert(fs@.subrange(0, fs@.len() as int) =~= fs@);
    }
    if out.len() - start > MAX_DATA_LEN as usize {
        out.truncate(start);
        proof {
            assert(out@ =~= orig);
        }
        return Err(WireError::DataTooLong);
    }
    Ok(())
}

/// Appends the complete record of `field` to `out`: tag byte, name-length
/// byte, 4 big-endian data-length bytes, name bytes, payload bytes.
///
/// Fails, leaving `out` as it was, exactly when the field cannot be carried:
/// a name of more than 255 bytes anywhere in it, or a payload longer than
/// the 4-byte data-length field can say.
pub fn serialize(field: &Field, out: &mut Vec<u8>) -> (r: Result<(), WireError>)
    ensures
        match r {
            Ok(()) => field.deep_view().wf() && final(out)@ == old(out)@ + spec_record(
                field.deep_view(),
            ),
            Err(e) => !field.deep_view().wf() && final(out)@ == old(out)@ && (e
                == WireError::NameTooLong || e == WireError::DataTooLong),
        },
    decreases field,
{
    let name_bytes = field.name.as_str().as_bytes();
    if name_bytes.len() > MAX_NAME_LEN {
        return Err(WireError::NameTooLong);
    }
    let mut payload: Vec<u8> = Vec::new();
    match write_value(&field.data, &mut payload) {
        Ok(()) => {}
        Err(e) => {
            return Err(e);
        }
    }
    proof {
        lemma_value_len_bounded(field.data.deep_view());
    }
    let ghost start = out@;
    out.push(field.get_type_id());
    out.push(name_bytes.len() as u8);
    write_u32_be(payload.len() as u32, out);
    push_bytes(out, name_bytes);
    out.append(&mut payload);
    proof {
        assert(out@ =~= start + spec_record(field.deep_view()));
    }
    Ok(())
}

impl Field {
    /// The wire type tag byte of this field.
    pub fn get_type_id(&self) -> (t: u8)
        ensures
            t == self.deep_view().tag(),
    {
        match &self.data {
            FieldData::Dict(_) => 1,
            FieldData::S64(_) => 2,
            FieldData::Str(_) => 3,
            FieldData::Bin(_) => 4,
            FieldData::List(_) => 5,
        }
    }
}

/// Encodes a message: a 4-byte big-endian total length followed by each
/// field's record in sequence order.
///
/// Fails exactly when some field cannot be carried: a name of more than 255
/// bytes, a payload longer than a 4-byte length field can say, or records
/// that together overflow the frame's own 4-byte total length.
pub fn encode(fields: &Vec<Field>) -> (r: Result<Vec<u8>, WireError>)
    ensures
        match r {
            Ok(out) => spec_fields_wf(fields_view(fields@)) && spec_records(
                fields_view(fields@),
            ).len() <= MAX_DATA_LEN && out@ == spec_frame(fields_view(fields@)),
            Err(e) => !(spec_fields_wf(fields_view(fields@)) && spec_records(
                fields_view(fields@),
            ).len() <= MAX_DATA_LEN) && (e == WireError::NameTooLong || e
                == WireError::DataTooLong),
        },
{
    let mut body: Vec<u8> = Vec::new();
    match write_children(fields, &mut body) {
        Ok(()) => {}
        Err(e) => {
            return Err(e);
        }
    }
    let mut out: Vec<u8> = Vec::new();
    write_u32_be(body.len() as u32, &mut out);
    out.append(&mut body);
    proof {
        assert(out@ =~= spec_frame(fields_view(fields@)));
    }
    Ok(out)
}

impl Field {
    /// Builds a field, checking the wire format's limits: the name must fit
    /// the 1-byte name-length field and every payload the 4-byte data-length
    /// field, child fields included.
    pub fn new(name: String, data: FieldData) -> (r: Result<Field, WireError>)
        ensures
            match r {
                Ok(f) => f.deep_view() == (SpecField { name: name@, data: data.deep_view() })
                    && f.deep_view().wf(),
                Err(e) => !(SpecField { name: name@, data: data.deep_view() }).wf() && (e
                    == WireError::NameTooLong || e == WireError::DataTooLong)
                    && (vstd::utf8::encode_utf8(name@).len() > MAX_NAME_LEN ==> e
                    == WireError::NameTooLong),
            },
    {
        if name.as_str().as_bytes().len() > MAX_NAME_LEN {
            return Err(WireError::NameTooLong);
        }
        let mut probe: Vec<u8> = Vec::new();
        match write_value(&data, &mut probe) {
            Ok(()) => Ok(Field { name, data }),
            Err(e) => Err(e),
        }
    }

    /// Builds an integer field carrying `value`.  Fails exactly when the
    /// name is longer than 255 bytes.
    pub fn from_u32(name: String, value: u32) -> (r: Result<Field, WireError>)
        ensures
            match r {
                Ok(f) => vstd::utf8::encode_utf8(name@).len() <= MAX_NAME_LEN && f.deep_view()
                    == (SpecField { name: name@, data: SpecFieldData::S64(value as u64) }),
                Err(e) => vstd::utf8::encode_utf8(name@).len() > MAX_NAME_LEN && e
                    == WireError::NameTooLong,
            },
    {
        if name.as_str().as_bytes().len() > MAX_NAME_LEN {
            return Err(WireError::NameTooLong);
        }
        Ok(Field { name, data: FieldData::S64(value as u64) })
    }

    /// Builds a string field carrying `value`.  Fails exactly when the name
    /// is longer than 255 bytes or the string longer than the 4-byte
    /// data-length field can say.
    pub fn from_str(name: String, value: &str) -> (r: Result<Field, WireError>)
        ensures
            match r {
                Ok(f) => vstd::utf8::encode_utf8(name@).len() <= MAX_NAME_LEN
                    && vstd::utf8::encode_utf8(value@).len() <= MAX_DATA_LEN && f.deep_view()
                    == (SpecField { name: name@, data: SpecFieldData::Str(value@) }),
                Err(e) => (vstd::utf8::encode_utf8(name@).len() > MAX_NAME_LEN && e
                    == WireError::NameTooLong) || (vstd::utf8::encode_utf8(name@).len()
                    <= MAX_NAME_LEN && vstd::utf8::encode_utf8(value@).len() > MAX_DATA_LEN && e
                    == WireError::DataTooLong),
            },
    {
        if name.as_str().as_bytes().len() > MAX_NAME_LEN {
            return Err(WireError::NameTooLong);
        }
        if value.as_bytes().len() as u64 > MAX_DATA_LEN {
            return Err(WireError::DataTooLong);
        }
        Ok(Field { name, data: FieldData::Str(value.to_owned()) })
    }

    /// The byte length of this field's encoded payload; checks the wire
    /// format's limits on the way.
    pub fn get_data_length(&self) -> (r: Result<u32, WireError>)
        ensures
            match r {
                Ok(n) => self.data.deep_view().wf() && n == spec_value_bytes(
                    self.data.deep_view(),
                ).len(),
                Err(e) => !self.data.deep_view().wf() && (e == WireError::NameTooLong || e
                    == WireError::DataTooLong),
            },
    {
        let mut probe: Vec<u8> = Vec::new();
        match write_value(&self.data, &mut probe) {
            Ok(()) => {
                proof {
                    lemma_value_len_bounded(self.data.deep_view());
                }
                Ok(probe.len() as u32)
            }
            Err(e) => Err(e),
        }
    }
}

/// The total byte length of a field's record: 6 header bytes plus name and
/// payload.  Fails when the field cannot be carried or its record would not
/// fit a 32-bit length.
pub fn get_total_field_size(field: &Field) -> (r: Result<u32, WireError>)
    ensures
        match r {
            Ok(n) => field.deep_view().wf() && n == spec_record(field.deep_view()).len(),
            Err(e) => !(field.deep_view().wf() && spec_record(field.deep_view()).len()
                <= u32::MAX) && (e == WireError::NameTooLong || e == WireError::DataTooLong),
        },
{
    let name_bytes_len = field.name.as_str().as_bytes().len();
    if name_bytes_len > MAX_NAME_LEN {
        return Err(WireError::NameTooLong);
    }
    let data_len = match field.get_data_length() {
        Ok(n) => n,
        Err(e) => {
            return Err(e);
        }
    };
    let total: u64 = 6u64 + name_bytes_len as u64 + data_len as u64;
    if total > u32::MAX as u64 {
        return Err(WireError::DataTooLong);
    }
    proof {
        assert(spec_record(field.deep_view()).len() == 6 + vstd::utf8::encode_utf8(
            field.name@,
        ).len() + spec_value_bytes(field.data.deep_view()).len());
    }
    Ok(total as u32)
}

/// Relies on `String::from_utf8`: it returns `Ok` exactly on valid UTF-8
/// input, and the returned string is built of exactly the input bytes.
#[verifier::external_body]
fn string_from_utf8(bytes: Vec<u8>) -> (r: Option<String>)
    ensures
        match r {
            Some(s) => valid_utf8(bytes@) && s@ == decode_utf8(bytes@),
            None => !valid_utf8(bytes@),
        },
{
    String::from_utf8(bytes).ok()
}

/// One field record read off the wire before its payload is interpreted:
/// the tag byte (one of the five assigned values), the name, and the raw
/// payload bytes.
#[derive(Debug, PartialEq)]
pub struct ParsableField {
    pub field_type: u8,
    pub name: String,
    pub data: Vec<u8>,
}

/// Mathematical model of a flat field record.
pub ghost struct SpecParsableField {
    pub field_type: u8,
    pub name: Seq<char>,
    pub data: Seq<u8>,
}

impl DeepView for ParsableField {
    type V = SpecParsableField;

    /// The model of this record.
    open spec fn deep_view(&self) -> SpecParsableField {
        SpecParsableField { field_type: self.field_type, name: self.name@, data: self.data@ }
    }
}

/// The models of a run of flat records, in order.
pub open spec fn pfields_view(fields: Seq<ParsableField>) -> Seq<SpecParsableField> {
    Seq::new(fields.len(), |i: int| fields[i].deep_view())
}

impl ParsableField {
    /// Reads one field record off the head of `input` and says how many
    /// bytes it occupied.  Fails with `Truncated` when fewer than 6 header
    /// bytes arrive or the declared name or data length reads past the end
    /// of `input`, with the unknown-tag error when the tag byte is not one
    /// of the five assigned values, and with `InvalidUtf8` when the name
    /// bytes are not valid UTF-8.
    pub fn from_read(input: &[u8]) -> (r: Result<(usize, ParsableField), WireError>)
        ensures
            match r {
                Ok((n, pf)) => spec_rec_ok(input@) && valid_tag(input@[0]) && n == spec_rec_len(
                    input@,
                ) && pf.deep_view() == (SpecParsableField {
                    field_type: input@[0],
                    name: decode_utf8(spec_rec_name_bytes(input@)),
                    data: spec_rec_data_bytes(input@),
                }),
                Err(e) => !(spec_rec_ok(input@) && valid_tag(input@[0])) && (if input@.len() < 6 {
                    e == WireError::Truncated
                } else if !valid_tag(input@[0]) {
                    e == WireError::UnknownTag(input@[0])
                } else if !spec_rec_in_bounds(input@) {
                    e == WireError::Truncated
                } else {
                    e == WireError::InvalidUtf8
                }),
            },
    {
        if input.len() < 6 {
            return Err(WireError::Truncated);
        }
        let ft = input[0];
        if ft < 1 || ft > 5 {
            return Err(WireError::UnknownTag(ft));
        }
        let nl = input[1] as usize;
        let dl64 = bytes2num(slice_subrange(input, 2, 6));
        let rem = input.len() - 6;
        if nl > rem {
            return Err(WireError::Truncated);
        }
        let rem2 = rem - nl;
        if dl64 > rem2 as u64 {
            return Err(WireError::Truncated);
        }
        let dl = dl64 as usize;
        let name_bytes = slice_subrange(input, 6, 6 + nl);
        let data_slice = slice_subrange(input, 6 + nl, 6 + nl + dl);
        match string_from_utf8(slice_to_vec(name_bytes)) {
            None => Err(WireError::InvalidUtf8),
            Some(name) => Ok(
                (6 + nl + dl, ParsableField { field_type: ft, name, data: slice_to_vec(
                    data_slice,
                ) }),
            ),
        }
    }

    /// The record's raw tag byte.
    pub fn field_type(&self) -> (t: u8)
        ensures
            t == self.deep_view().field_type,
    {
        self.field_type
    }

    /// A copy of the record's name.
    pub fn name(&self) -> (r: String)
        ensures
            r@ == self.deep_view().name,
    {
        self.name.clone()
    }

    /// A copy of the record's payload bytes.
    pub fn data(&self) -> (r: Vec<u8>)
        ensures
            r@ == self.deep_view().data,
    {
        let r = self.data.clone();
        proof {
            assert(r@ =~= self.data@);
        }
        r
    }
}

/// Decodes a run of complete field records into typed fields, recursing
/// into map and list payloads.  Succeeds exactly when the bytes divide into
/// whole records with assigned tags, UTF-8 names and string payloads, and
/// integer payloads of at most 8 bytes; the result then models the bytes
/// exactly as [`spec_parse_fields`] says.
pub fn decode_fields(input: &[u8]) -> (r: Result<Vec<Field>, WireError>)
    ensures
        match spec_parse_fields(input@) {
            Some(fvs) => r is Ok && fields_view((r->Ok_0)@) == fvs,
            None => r is Err,
        },
        r is Err ==> !(r->Err_0 is MissingField) && !(r->Err_0 is UnknownMethod),
    decreases input@.len(),
{
    let input_len: usize = input.len();
    let mut pos: usize = 0;
    let mut acc: Vec<Field> = Vec::new();
    proof {
        assert(input@.len() <= usize::MAX) by {
            assert(input@.len() == input_len);
        }
        assert(input@.subrange(0, input@.len() as int) =~= input@);
        assert(fields_view(acc@) =~= Seq::<SpecField>::empty());
        if spec_parse_fields(input@) is Some {
            assert(fields_view(acc@) + spec_parse_fields(input@)->Some_0
                =~= spec_parse_fields(input@)->Some_0);
        }
    }
    while pos < input.len()
        invariant
            pos <= input@.len(),
            input@.len() <= usize::MAX,
            (match spec_parse_fields(input@.subrange(pos as int, input@.len() as int)) {
                Some(t) => spec_parse_fields(input@) == Some(fields_view(acc@) + t),
                None => spec_parse_fields(input@) is None,
            }),
        decreases input@.len() - pos,
    {
        let ghost tailv = input@.subrange(pos as int, input@.len() as int);
        let tail = slice_subrange(input, pos, input.len());
        let (consumed, pf) = match ParsableField::from_read(tail) {
            Ok(x) => x,
            Err(e) => {
                return Err(e);
            }
        };
        let ghost nameb = spec_rec_name_bytes(tailv);
        let ghost datab = spec_rec_data_bytes(tailv);
        let ft = match FieldType::from_u8(pf.field_type) {
            Some(t) => t,
            None => {
                return Err(WireError::UnknownTag(pf.field_type));
            }
        };
        let pf_name = pf.name;
        let pf_data = pf.data;
        let data = match ft {
            FieldType::S64 => {
                if pf_data.len() > 8 {
                    return Err(WireError::IntTooWide);
                }
                proof {
                    lemma_be_num_fits_u64(datab);
                }
                FieldData::S64(bytes2num(pf_data.as_slice()))
            }
            FieldType::Str => {
                match string_from_utf8(pf_data) {
                    Some(s) => FieldData::Str(s),
                    None => {
                        return Err(WireError::InvalidUtf8);
                    }
                }
            }
            FieldType::Bin => FieldData::Bin(pf_data),
            FieldType::Dict => {
                proof {
                    assert(datab.len() < input@.len());
                }
                match decode_fields(pf_data.as_slice()) {
                    Ok(fs) => FieldData::Dict(fs),
                    Err(e) => {
                        return Err(e);
                    }
                }
            }
            FieldType::List => {
                proof {
                    assert(datab.len() < input@.len());
                }
                match decode_fields(pf_data.as_slice()) {
                    Ok(fs) => FieldData::List(fs),
                    Err(e) => {
                        return Err(e);
                    }
                }
            }
        };
        let field = Field { name: pf_name, data };
        proof {
            assert(spec_parse_value(tailv[0], datab) == Some(field.data.deep_view()));
            assert(field.deep_view() == (SpecField {
                name: decode_utf8(nameb),
                data: field.data.deep_view(),
            }));
            let rest = tailv.subrange(spec_rec_len(tailv), tailv.len() as int);
            assert(input@.subrange(pos + consumed, input@.len() as int) =~= rest);
            assert(spec_parse_fields(tailv) == (match spec_parse_fields(rest) {
                Some(r2) => Some(seq![field.deep_view()] + r2),
                None => None::<Seq<SpecField>>,
            }));
            let ghost oldacc = fields_view(acc@);
            assert(acc@.push(field).drop_last() =~= acc@);
            assert(acc@.push(field).last() == field);
            assert(fields_view(acc@.push(field)) == fields_view(acc@).push(field.deep_view()));
            if spec_parse_fields(rest) is Some {
                let r2 = spec_parse_fields(rest)->Some_0;
                assert(oldacc + (seq![field.deep_view()] + r2)
                    =~= oldacc.push(field.deep_view()) + r2);
            }
        }
        acc.push(field);
        pos = pos + consumed;
    }
    proof {
        let tailv = input@.subrange(pos as int, input@.len() as int);
        assert(tailv.len() == 0);
        assert(spec_parse_fields(tailv) == Some(Seq::<SpecField>::empty()));
        assert(fields_view(acc@) + Seq::<SpecField>::empty() =~= fields_view(acc@));
    }
    Ok(acc)
}

/// Decodes one whole frame: reads the 4-byte big-endian total length, then
/// parses exactly that many bytes of field records.  Fails with `Truncated`
/// when fewer than 4 bytes arrive, with `LengthMismatch` when the declared
/// total disagrees with the bytes present, and with the record parser's
/// error when the body does not divide into well-formed records.
pub fn decode(input: &[u8]) -> (r: Result<Vec<Field>, WireError>)
    ensures
        match r {
            Ok(fields) => input@.len() >= 4 && input@.len() - 4 == spec_be_num(
                input@.subrange(0, 4),
            ) && spec_parse_fields(input@.subrange(4, input@.len() as int)) == Some(
                fields_view(fields@),
            ),
            Err(e) => input@.len() < 4 || input@.len() - 4 != spec_be_num(
                input@.subrange(0, 4),
            ) || spec_parse_fields(input@.subrange(4, input@.len() as int)) is None,
        },
        input@.len() < 4 ==> r == Err::<Vec<Field>, WireError>(WireError::Truncated),
        (input@.len() >= 4 && input@.len() - 4 != spec_be_num(input@.subrange(0, 4))) ==> r
            == Err::<Vec<Field>, WireError>(WireError::LengthMismatch),
{
    if input.len() < 4 {
        return Err(WireError::Truncated);
    }
    let declared = bytes2num(slice_subrange(input, 0, 4));
    if (input.len() - 4) as u64 != declared {
        return Err(WireError::LengthMismatch);
    }
    decode_fields(slice_subrange(input, 4, input.len()))
}

/// The string a record carries, when it is a string field with UTF-8
/// payload bytes.
pub open spec fn spec_str_value(pf: SpecParsableField) -> Option<Seq<char>> {
    if pf.field_type == 3 && valid_utf8(pf.data) {
        Some(decode_utf8(pf.data))
    } else {
        None
    }
}

/// The 32-bit value a record carries, when it is an integer field of at
/// most 8 payload bytes; only the low 32 bits are kept.
pub open spec fn spec_u32_value(pf: SpecParsableField) -> Option<u32> {
    if pf.field_type == 2 && pf.data.len() <= 8 {
        Some((spec_be_num(pf.data) % 0x1_0000_0000) as u32)
    } else {
        None
    }
}

/// The bytes a record carries, when it is a binary field.
pub open spec fn spec_bin_value(pf: SpecParsableField) -> Option<Seq<u8>> {
    if pf.field_type == 4 {
        Some(pf.data)
    } else {
        None
    }
}

/// The strings a record carries, when it is a list field whose payload
/// parses into string child fields.
pub open spec fn spec_str_list_value(pf: SpecParsableField) -> Option<Seq<Seq<char>>> {
    if pf.field_type == 5 && spec_parse_fields(pf.data) is Some && (forall|i: int|
        0 <= i < spec_parse_fields(pf.data)->Some_0.len()
            ==> #[trigger] spec_parse_fields(pf.data)->Some_0[i].data is Str) {
        let fs = spec_parse_fields(pf.data)->Some_0;
        Some(Seq::new(fs.len(), |i: int| fs[i].data->Str_0))
    } else {
        None
    }
}

/// Typed extraction from a decoded record: reading it as a string, an
/// unsigned integer, raw bytes, or a list of strings.  Extraction fails
/// with a type-mismatch error when the record's stored tag differs from the
/// requested shape, and with the payload's own decode error when the
/// payload cannot carry the shape.
pub trait Convertible<T: DeepView>: DeepView<V = SpecParsableField> + Sized {
    /// Whether the modelled record can be read as a `T`.
    spec fn can_convert(pf: SpecParsableField) -> bool;

    /// The value read, when it can be.
    spec fn converted(pf: SpecParsableField) -> T::V;

    /// Reads the record as a `T`; succeeds exactly on records of the
    /// requested shape.
    fn convert(&self) -> (r: Result<T, WireError>)
        ensures
            match r {
                Ok(v) => Self::can_convert(self.deep_view()) && v.deep_view() == Self::converted(
                    self.deep_view(),
                ),
                Err(e) => !Self::can_convert(self.deep_view()) && !(e is MissingField) && !(e
                    is UnknownMethod),
            },
    ;
}

impl Convertible<String> for ParsableField {
    open spec fn can_convert(pf: SpecParsableField) -> bool {
        spec_str_value(pf) is Some
    }

    open spec fn converted(pf: SpecParsableField) -> Seq<char> {
        spec_str_value(pf)->Some_0
    }

    fn convert(&self) -> (r: Result<String, WireError>) {
        if self.field_type != 3 {
            return Err(WireError::TypeMismatch);
        }
        match string_from_utf8(self.data()) {
            Some(s) => Ok(s),
            None => Err(WireError::InvalidUtf8),
        }
    }
}

impl Convertible<u32> for ParsableField {
    open spec fn can_convert(pf: SpecParsableField) -> bool {
        spec_u32_value(pf) is Some
    }

    open spec fn converted(pf: SpecParsableField) -> u32 {
        spec_u32_value(pf)->Some_0
    }

    fn convert(&self) -> (r: Result<u32, WireError>) {
        if self.field_type != 2 {
            return Err(WireError::TypeMismatch);
        }
        if self.data.len() > 8 {
            return Err(WireError::IntTooWide);
        }
        let v = bytes2num(self.data.as_slice());
        let w = #[verifier::truncate] (v as u32);
        proof {
            assert(w == v % 0x1_0000_0000) by (bit_vector)
                requires w == v as u32;
        }
        Ok(w)
    }
}

impl Convertible<Vec<u8>> for ParsableField {
    open spec fn can_convert(pf: SpecParsableField) -> bool {
        spec_bin_value(pf) is Some
    }

    open spec fn converted(pf: SpecParsableField) -> Seq<u8> {
        spec_bin_value(pf)->Some_0
    }

    fn convert(&self) -> (r: Result<Vec<u8>, WireError>) {
        if self.field_type != 4 {
            return Err(WireError::TypeMismatch);
        }
        let r = self.data();
        proof {
            assert(r.deep_view() =~= self.data@);
        }
        Ok(r)
    }
}

impl Convertible<Vec<String>> for ParsableField {
    open spec fn can_convert(pf: SpecParsableField) -> bool {
        spec_str_list_value(pf) is Some
    }

    open spec fn converted(pf: SpecParsableField) -> Seq<Seq<char>> {
        spec_str_list_value(pf)->Some_0
    }

    fn convert(&self) -> (r: Result<Vec<String>, WireError>) {
        if self.field_type != 5 {
            return Err(WireError::TypeMismatch);
        }
        let items = match decode_fields(self.data.as_slice()) {
            Ok(fs) => fs,
            Err(e) => {
                return Err(e);
            }
        };
        let ghost fvs = spec_parse_fields(self.data@)->Some_0;
        proof {
            lemma_fields_view(items@);
        }
        let mut out: Vec<String> = Vec::new();
        let mut i: usize = 0;
        while i < items.len()
            invariant
                i <= items@.len(),
                spec_parse_fields(self.data@) == Some(fvs),
                self.field_type == 5,
                fields_view(items@) == fvs,
                fvs.len() == items@.len(),
                forall|j: int| 0 <= j < items@.len()
                    ==> #[trigger] items@[j].deep_view() == fvs[j],
                out@.len() == i,
                forall|j: int| 0 <= j < i ==> #[trigger] fvs[j].data is Str,
                forall|j: int| 0 <= j < i ==> #[trigger] out@[j]@ == fvs[j].data->Str_0,
            decreases items@.len() - i,
        {
            match &items[i].data {
                FieldData::Str(s) => {
                    proof {
                        assert(items@[i as int].deep_view() == fvs[i as int]);
                        assert(items@[i as int].data.deep_view() == SpecFieldData::Str(s@));
                        assert(fvs[i as int].data->Str_0 == s@);
                    }
                    out.push(s.clone());
                }
                _ => {
                    proof {
                        assert(items@[i as int].deep_view() == fvs[i as int]);
                        assert(!(fvs[i as int].data is Str));
                        assert(spec_str_list_value(self.deep_view()) is None);
                    }
                    return Err(WireError::TypeMismatch);
                }
            }
            i = i + 1;
        }
        proof {
            assert(out.deep_view() =~= Seq::new(fvs.len(), |i: int| fvs[i].data->Str_0));
        }
        Ok(out)
    }
}

/// The record whose name is `name`, taking the latest when several records
/// carry the same name, as a name-keyed store would after inserting each in
/// order.
pub open spec fn spec_find_flat(fields: Seq<SpecParsableField>, name: Seq<char>) -> Option<
    SpecParsableField,
>
    decreases fields.len(),
{
    if fields.len() == 0 {
        None
    } else if fields.last().name == name {
        Some(fields.last())
    } else {
        spec_find_flat(fields.drop_last(), name)
    }
}

/// Looks a record up by name among decoded records.
pub fn find_field<'a>(fields: &'a Vec<ParsableField>, field_name: &str) -> (r: Option<
    &'a ParsableField,
>)
    ensures
        match r {
            Some(pf) => spec_find_flat(pfields_view(fields@), field_name@) == Some(
                pf.deep_view(),
            ),
            None => spec_find_flat(pfields_view(fields@), field_name@) is None,
        },
{
    let ghost pvs = pfields_view(fields@);
    let key: String = field_name.to_owned();
    let mut i: usize = fields.len();
    proof {
        assert(pvs.subrange(0, i as int) =~= pvs);
    }
    while i > 0
        invariant
            i <= fields@.len(),
            pvs == pfields_view(fields@),
            pvs.len() == fields@.len(),
            spec_find_flat(pvs.subrange(0, i as int), field_name@) == spec_find_flat(
                pvs,
                field_name@,
            ),
            key@ == field_name@,
        decreases i,
    {
        i = i - 1;
        proof {
            assert(pvs.subrange(0, i + 1).drop_last() =~= pvs.subrange(0, i as int));
            assert(pvs.subrange(0, i + 1).last() == fields@[i as int].deep_view());
        }
        if fields[i].name.eq(&key) {
            return Some(&fields[i]);
        }
    }
    proof {
        assert(pvs.subrange(0, 0) =~= Seq::<SpecParsableField>::empty());
    }
    None
}

/// Parses `s` as a run of complete flat records (payloads uninterpreted),
/// or `None` when the bytes do not divide into whole records with assigned
/// tags and UTF-8 names.
pub open spec fn spec_parse_flat(s: Seq<u8>) -> Option<Seq<SpecParsableField>>
    decreases s.len(),
{
    if s.len() == 0 {
        Some(Seq::empty())
    } else if !(spec_rec_ok(s) && valid_tag(s[0])) {
        None
    } else {
        match spec_parse_flat(s.subrange(spec_rec_len(s), s.len() as int)) {
            None => None,
            Some(rest) => Some(
                seq![
                    SpecParsableField {
                        field_type: s[0],
                        name: decode_utf8(spec_rec_name_bytes(s)),
                        data: spec_rec_data_bytes(s),
                    },
                ] + rest,
            ),
        }
    }
}

} // verus!
