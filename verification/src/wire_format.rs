//! Byte-level model of the wire format.
//!
//! This module defines, as specification functions, exactly which bytes a
//! field produces on the wire and which fields a byte string parses back to,
//! together with the laws connecting the two directions.
//!
//! Layout of one field record: 1 tag byte, 1 name-length byte, 4 big-endian
//! data-length bytes, the raw name bytes, then the payload bytes.  A frame is
//! a 4-byte big-endian total length followed by that many bytes of records.

use vstd::prelude::*;

use crate::field::SpecField;
use crate::field::SpecFieldData;
use crate::field::valid_tag;
use vstd::utf8::encode_utf8;
use vstd::utf8::decode_utf8;
use vstd::utf8::valid_utf8;

verus! {

broadcast use vstd::seq::group_seq_axioms;

/// Largest payload length the 4-byte data-length field can carry.
pub const MAX_DATA_LEN: u64 = 0xFFFF_FFFF;

/// Longest name the 1-byte name-length field can carry.
pub const MAX_NAME_LEN: usize = 255;

/// Minimal-width big-endian bytes of `v`; zero encodes to no bytes at all.
pub open spec fn spec_min_be(v: u64) -> Seq<u8>
    decreases v,
{
    if v == 0 {
        Seq::empty()
    } else {
        spec_min_be(v / 256).push((v % 256) as u8)
    }
}

/// The unsigned value of `s` read big-endian (most significant byte first).
pub open spec fn spec_be_num(s: Seq<u8>) -> nat
    decreases s.len(),
{
    if s.len() == 0 {
        0nat
    } else {
        spec_be_num(s.drop_last()) * 256 + s.last() as nat
    }
}

/// Largest value `n` big-endian bytes can carry.
pub open spec fn spec_be_cap(n: nat) -> nat
    decreases n,
{
    if n == 0 {
        0nat
    } else {
        spec_be_cap((n - 1) as nat) * 256 + 255
    }
}

/// A big-endian byte string of length `n` carries at most `spec_be_cap(n)`.
pub proof fn lemma_be_num_bound(s: Seq<u8>)
    ensures
        spec_be_num(s) <= spec_be_cap(s.len()),
    decreases s.len(),
{
    if s.len() > 0 {
        lemma_be_num_bound(s.drop_last());
    }
}

/// Eight big-endian bytes carry at most `u64::MAX`.
pub proof fn lemma_be_num_fits_u64(s: Seq<u8>)
    requires
        s.len() <= 8,
    ensures
        spec_be_num(s) <= u64::MAX,
{
    lemma_be_num_bound(s);
    assert(spec_be_cap(8) == 0xFFFF_FFFF_FFFF_FFFF) by {
        reveal_with_fuel(spec_be_cap, 9);
    }
    lemma_be_cap_monotone(s.len(), 8);
}

/// `spec_be_cap` grows with the byte count.
pub proof fn lemma_be_cap_monotone(a: nat, b: nat)
    requires
        a <= b,
    ensures
        spec_be_cap(a) <= spec_be_cap(b),
    decreases b,
{
    if a < b && b > 0 {
        lemma_be_cap_monotone(a, (b - 1) as nat);
    }
}

/// Reading back the minimal big-endian bytes of `v` yields `v`, and those
/// bytes fit the 8-byte budget of a 64-bit integer; zero alone is empty.
pub proof fn lemma_min_be_roundtrip(v: u64)
    ensures
        spec_be_num(spec_min_be(v)) == v,
        spec_min_be(v).len() <= 8,
        spec_min_be(v).len() == 0 <==> v == 0,
    decreases v,
{
    if v > 0 {
        lemma_min_be_roundtrip(v / 256);
        assert(spec_min_be(v).drop_last() =~= spec_min_be(v / 256));
        assert(spec_be_cap(8) == 0xFFFF_FFFF_FFFF_FFFF) by {
            reveal_with_fuel(spec_be_cap, 9);
        }
        lemma_min_be_len_bound(v, 8);
    }
}

/// `v <= spec_be_cap(k)` needs at most `k` minimal big-endian bytes.
pub proof fn lemma_min_be_len_bound(v: u64, k: nat)
    requires
        v <= spec_be_cap(k),
    ensures
        spec_min_be(v).len() <= k,
    decreases v,
{
    if v > 0 {
        assert(k > 0);
        assert(v / 256 <= spec_be_cap((k - 1) as nat)) by {
            assert(spec_be_cap(k) == spec_be_cap((k - 1) as nat) * 256 + 255);
            assert(v <= spec_be_cap((k - 1) as nat) * 256 + 255);
            assert(v / 256 <= spec_be_cap((k - 1) as nat)) by (nonlinear_arith)
                requires v <= spec_be_cap((k - 1) as nat) * 256 + 255;
        }
        lemma_min_be_len_bound(v / 256, (k - 1) as nat);
    }
}

/// The 4 big-endian bytes of a 32-bit value.
pub open spec fn spec_u32_be(v: u32) -> Seq<u8> {
    seq![
        (v / 0x1000000) as u8,
        ((v / 0x10000) % 0x100) as u8,
        ((v / 0x100) % 0x100) as u8,
        (v % 0x100) as u8,
    ]
}

/// Reading the 4 big-endian bytes of `v` back yields `v`.
pub proof fn lemma_u32_be_roundtrip(v: u32)
    ensures
        spec_u32_be(v).len() == 4,
        spec_be_num(spec_u32_be(v)) == v,
{
    let s = spec_u32_be(v);
    reveal_with_fuel(spec_be_num, 5);
    assert(s.drop_last() =~= seq![s[0], s[1], s[2]]);
    assert(seq![s[0], s[1], s[2]].drop_last() =~= seq![s[0], s[1]]);
    assert(seq![s[0], s[1]].drop_last() =~= seq![s[0]]);
    assert(seq![s[0]].drop_last() =~= Seq::<u8>::empty());
    assert(spec_be_num(seq![s[0]]) == s[0]);
    assert(spec_be_num(seq![s[0], s[1]]) == s[0] * 256 + s[1]);
    assert(spec_be_num(seq![s[0], s[1], s[2]]) == (s[0] * 256 + s[1]) * 256 + s[2]);
    assert(spec_be_num(s) == ((s[0] * 256 + s[1]) * 256 + s[2]) * 256 + s[3]);
    assert((((v / 0x1000000) * 256 + (v / 0x10000) % 0x100) * 256 + (v / 0x100) % 0x100) * 256
        + v % 0x100 == v) by (nonlinear_arith);
}

/// The payload bytes of a modelled field: minimal big-endian bytes for an
/// integer, raw UTF-8 for a string, the bytes themselves for binary data,
/// and the concatenated child records for a map or list.
pub open spec fn spec_value_bytes(d: SpecFieldData) -> Seq<u8>
    decreases d,
{
    match d {
        SpecFieldData::S64(v) => spec_min_be(v),
        SpecFieldData::Str(s) => encode_utf8(s),
        SpecFieldData::Bin(b) => b,
        SpecFieldData::Dict(fs) => spec_records(fs),
        SpecFieldData::List(fs) => spec_records(fs),
    }
}

/// One complete field record: tag byte, name-length byte, 4 data-length
/// bytes (big-endian), name bytes, payload bytes.
pub open spec fn spec_record(f: SpecField) -> Seq<u8>
    decreases f,
{
    seq![f.tag(), encode_utf8(f.name).len() as u8]
        + spec_u32_be(spec_value_bytes(f.data).len() as u32)
        + encode_utf8(f.name)
        + spec_value_bytes(f.data)
}

/// The records of a field sequence, concatenated in order.
pub open spec fn spec_records(fs: Seq<SpecField>) -> Seq<u8>
    decreases fs,
{
    if fs.len() == 0 {
        Seq::empty()
    } else {
        spec_records(fs.drop_last()) + spec_record(fs.last())
    }
}

impl SpecFieldData {
    /// The payload respects the wire format's length fields: every payload
    /// fits the 4-byte data-length field, recursively for child fields.
    pub open spec fn wf(self) -> bool
        decreases self,
    {
        match self {
            SpecFieldData::S64(_) => true,
            SpecFieldData::Str(s) => encode_utf8(s).len() <= MAX_DATA_LEN,
            SpecFieldData::Bin(b) => b.len() <= MAX_DATA_LEN,
            SpecFieldData::Dict(fs) => spec_fields_wf(fs) && spec_records(fs).len()
                <= MAX_DATA_LEN,
            SpecFieldData::List(fs) => spec_fields_wf(fs) && spec_records(fs).len()
                <= MAX_DATA_LEN,
        }
    }
}

impl SpecField {
    /// The name fits the 1-byte name-length field and the payload is
    /// well-formed.
    pub open spec fn wf(self) -> bool
        decreases self,
    {
        encode_utf8(self.name).len() <= MAX_NAME_LEN && self.data.wf()
    }
}

/// Every field of the sequence is well-formed.
pub open spec fn spec_fields_wf(fs: Seq<SpecField>) -> bool
    decreases fs,
{
    fs.len() == 0 || (spec_fields_wf(fs.drop_last()) && fs.last().wf())
}

/// `spec_fields_wf` holds exactly when each field is well-formed.
pub proof fn lemma_spec_fields_wf(fs: Seq<SpecField>)
    ensures
        spec_fields_wf(fs) <==> (forall|i: int| 0 <= i < fs.len() ==> #[trigger] fs[i].wf()),
    decreases fs.len(),
{
    if fs.len() > 0 {
        lemma_spec_fields_wf(fs.drop_last());
        if spec_fields_wf(fs) {
            assert forall|i: int| 0 <= i < fs.len() implies #[trigger] fs[i].wf() by {
                if i < fs.len() - 1 {
                    assert(fs.drop_last()[i] == fs[i]);
                }
            }
        } else {
            if forall|i: int| 0 <= i < fs.len() ==> #[trigger] fs[i].wf() {
                assert forall|i: int| 0 <= i < fs.drop_last().len()
                    implies #[trigger] fs.drop_last()[i].wf() by {
                    assert(fs.drop_last()[i] == fs[i]);
                }
                assert(fs.last().wf());
            }
        }
    }
}

/// Concatenating field sequences concatenates their records.
pub proof fn lemma_records_concat(a: Seq<SpecField>, b: Seq<SpecField>)
    ensures
        spec_records(a + b) == spec_records(a) + spec_records(b),
    decreases b.len(),
{
    if b.len() == 0 {
        assert(a + b =~= a);
        assert(spec_records(a) + spec_records(b) =~= spec_records(a));
    } else {
        lemma_records_concat(a, b.drop_last());
        assert((a + b).drop_last() =~= a + b.drop_last());
        assert((a + b).last() == b.last());
        assert(spec_records(a) + spec_records(b.drop_last()) + spec_record(b.last())
            =~= spec_records(a) + (spec_records(b.drop_last()) + spec_record(b.last())));
    }
}

// ---- parsing ----

/// The declared name length of the record at the head of `s`.
pub open spec fn spec_rec_name_len(s: Seq<u8>) -> int {
    s[1] as int
}

/// The declared data length of the record at the head of `s`.
pub open spec fn spec_rec_data_len(s: Seq<u8>) -> int {
    spec_be_num(s.subrange(2, 6)) as int
}

/// The total byte length of the record at the head of `s`.
pub open spec fn spec_rec_len(s: Seq<u8>) -> int {
    6 + spec_rec_name_len(s) + spec_rec_data_len(s)
}

/// The record's declared lengths lie within the available bytes.
pub open spec fn spec_rec_in_bounds(s: Seq<u8>) -> bool {
    s.len() >= 6 && spec_rec_len(s) <= s.len()
}

/// The name bytes of the record at the head of `s`.
pub open spec fn spec_rec_name_bytes(s: Seq<u8>) -> Seq<u8> {
    s.subrange(6, 6 + spec_rec_name_len(s))
}

/// The payload bytes of the record at the head of `s`.
pub open spec fn spec_rec_data_bytes(s: Seq<u8>) -> Seq<u8> {
    s.subrange(6 + spec_rec_name_len(s), spec_rec_len(s))
}

/// What the flat record reader accepts: lengths in bounds and a UTF-8 name.
/// The tag byte is not interpreted at this level.
pub open spec fn spec_rec_ok(s: Seq<u8>) -> bool {
    spec_rec_in_bounds(s) && valid_utf8(spec_rec_name_bytes(s))
}

/// Parses `s` as a run of complete field records, or `None` when the bytes
/// do not divide into well-formed records.
pub open spec fn spec_parse_fields(s: Seq<u8>) -> Option<Seq<SpecField>>
    decreases s.len(), 0int,
{
    if s.len() == 0 {
        Some(Seq::empty())
    } else if !(spec_rec_ok(s) && valid_tag(s[0])) {
        None
    } else {
        match spec_parse_value(s[0], spec_rec_data_bytes(s)) {
            None => None,
            Some(d) => match spec_parse_fields(s.subrange(spec_rec_len(s), s.len() as int)) {
                None => None,
                Some(rest) => Some(
                    seq![SpecField { name: decode_utf8(spec_rec_name_bytes(s)), data: d }] + rest,
                ),
            },
        }
    }
}

/// Parses one payload according to its tag byte: an integer of at most 8
/// bytes, a UTF-8 string, raw binary, or child records parsed recursively.
pub open spec fn spec_parse_value(tag: u8, data: Seq<u8>) -> Option<SpecFieldData>
    decreases data.len(), 1int,
{
    if tag == 1 {
        match spec_parse_fields(data) {
            Some(fs) => Some(SpecFieldData::Dict(fs)),
            None => None,
        }
    } else if tag == 2 {
        if data.len() <= 8 {
            Some(SpecFieldData::S64(spec_be_num(data) as u64))
        } else {
            None
        }
    } else if tag == 3 {
        if valid_utf8(data) {
            Some(SpecFieldData::Str(decode_utf8(data)))
        } else {
            None
        }
    } else if tag == 4 {
        Some(SpecFieldData::Bin(data))
    } else if tag == 5 {
        match spec_parse_fields(data) {
            Some(fs) => Some(SpecFieldData::List(fs)),
            None => None,
        }
    } else {
        None
    }
}

/// How the bytes of one well-formed record, with trailing bytes `t` behind
/// it, split back into the record's parts.
pub proof fn lemma_record_shape(f: SpecField, t: Seq<u8>)
    requires
        f.wf(),
    ensures
        ({
            let s = spec_record(f) + t;
            &&& spec_record(f).len() == 6 + encode_utf8(f.name).len()
                + spec_value_bytes(f.data).len()
            &&& s[0] == f.tag()
            &&& spec_rec_name_len(s) == encode_utf8(f.name).len()
            &&& spec_rec_data_len(s) == spec_value_bytes(f.data).len()
            &&& spec_rec_len(s) == spec_record(f).len()
            &&& spec_rec_in_bounds(s)
            &&& spec_rec_name_bytes(s) == encode_utf8(f.name)
            &&& spec_rec_data_bytes(s) == spec_value_bytes(f.data)
            &&& s.subrange(spec_rec_len(s), s.len() as int) == t
        }),
{
    let s = spec_record(f) + t;
    let nb = encode_utf8(f.name);
    let vb = spec_value_bytes(f.data);
    lemma_value_len_bounded(f.data);
    let vlen = vb.len() as u32;
    lemma_u32_be_roundtrip(vlen);
    assert(s.subrange(2, 6) =~= spec_u32_be(vlen));
    assert(spec_rec_data_len(s) == vb.len());
    assert(spec_rec_name_bytes(s) =~= nb);
    assert(spec_rec_data_bytes(s) =~= vb);
    assert(s.subrange(spec_rec_len(s), s.len() as int) =~= t);
}

/// The frame of a message: a 4-byte big-endian total length, then the
/// records of all fields in order.
pub open spec fn spec_frame(fs: Seq<SpecField>) -> Seq<u8> {
    spec_u32_be(spec_records(fs).len() as u32) + spec_records(fs)
}

/// A well-formed payload fits the 4-byte data-length field.
pub proof fn lemma_value_len_bounded(d: SpecFieldData)
    requires
        d.wf(),
    ensures
        spec_value_bytes(d).len() <= MAX_DATA_LEN,
{
    match d {
        SpecFieldData::S64(v) => {
            lemma_min_be_roundtrip(v);
        }
        _ => {}
    }
}

/// Parsing inverts encoding: the concatenated records of well-formed fields
/// parse back to exactly those fields, maps and lists included.
pub proof fn lemma_parse_records(fs: Seq<SpecField>)
    requires
        spec_fields_wf(fs),
    ensures
        spec_parse_fields(spec_records(fs)) == Some(fs),
    decreases fs, 0int,
{
    broadcast use vstd::utf8::encode_utf8_valid_utf8, vstd::utf8::encode_utf8_decode_utf8;

    lemma_spec_fields_wf(fs);
    if fs.len() > 0 {
        let f0 = fs[0];
        let rest = fs.subrange(1, fs.len() as int);
        assert(fs =~= seq![f0] + rest);
        lemma_records_concat(seq![f0], rest);
        assert(spec_records(seq![f0]) =~= spec_record(f0)) by {
            reveal_with_fuel(spec_records, 2);
            assert(seq![f0].drop_last() =~= Seq::<SpecField>::empty());
            assert(spec_records(Seq::<SpecField>::empty()) =~= Seq::<u8>::empty());
            assert(seq![f0].last() == f0);
            assert(Seq::empty() + spec_record(f0) =~= spec_record(f0));
        }
        let t = spec_records(rest);
        let s = spec_record(f0) + t;
        assert(spec_records(fs) == s);
        assert(f0.wf());
        lemma_record_shape(f0, t);
        assert(s.len() >= 6);
        assert(decode_utf8(spec_rec_name_bytes(s)) == f0.name);
        lemma_parse_value_of(f0.data);
        assert(spec_fields_wf(rest)) by {
            lemma_spec_fields_wf(rest);
            assert forall|i: int| 0 <= i < rest.len() implies #[trigger] rest[i].wf() by {
                assert(rest[i] == fs[i + 1]);
            }
        }
        lemma_parse_records(rest);
        assert(seq![SpecField { name: f0.name, data: f0.data }] + rest =~= fs);
    }
}

/// Round trip through one frame: a well-formed message whose records fit
/// the 4-byte total-length field decodes from its own frame to exactly the
/// fields it was encoded from, names, types and payloads alike.
pub proof fn lemma_frame_roundtrip(fs: Seq<SpecField>)
    requires
        spec_fields_wf(fs),
        spec_records(fs).len() <= MAX_DATA_LEN,
    ensures
        spec_frame(fs).len() == 4 + spec_records(fs).len(),
        spec_be_num(spec_frame(fs).subrange(0, 4)) == spec_records(fs).len(),
        spec_parse_fields(spec_frame(fs).subrange(4, spec_frame(fs).len() as int)) == Some(fs),
{
    let total = spec_records(fs).len() as u32;
    lemma_u32_be_roundtrip(total);
    assert(spec_frame(fs).subrange(0, 4) =~= spec_u32_be(total));
    assert(spec_frame(fs).subrange(4, spec_frame(fs).len() as int) =~= spec_records(fs));
    lemma_parse_records(fs);
}

/// Parsing a payload's bytes under its own tag yields the payload back.
pub proof fn lemma_parse_value_of(d: SpecFieldData)
    requires
        d.wf(),
    ensures
        spec_parse_value(d.tag(), spec_value_bytes(d)) == Some(d),
    decreases d, 1int,
{
    broadcast use vstd::utf8::encode_utf8_valid_utf8, vstd::utf8::encode_utf8_decode_utf8;

    match d {
        SpecFieldData::S64(v) => {
            lemma_min_be_roundtrip(v);
        }
        SpecFieldData::Str(_) => {}
        SpecFieldData::Bin(_) => {}
        SpecFieldData::Dict(fs) => {
            lemma_parse_records(fs);
        }
        SpecFieldData::List(fs) => {
            lemma_parse_records(fs);
        }
    }
}

} // verus!

