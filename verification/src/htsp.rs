//! Message mapper: turns application-level requests into field sequences
//! and decoded field sets back into application-level replies.
//!
//! A request maps to a leading `method` string field naming the request
//! kind, followed by the request's named parameters in a fixed order.  A
//! reply is built by looking required named fields up in the decoded set
//! and extracting them at their expected types; a missing required field is
//! reported by name, and optional fields yield "absent" instead of failing.

use vstd::prelude::*;

use crate::codec::Convertible;
use crate::codec::ParsableField;
use crate::codec::SpecParsableField;
use crate::codec::WireError;
use crate::codec::pfields_view;
use crate::codec::serialize as serialize_field;
use crate::codec::encode;
use crate::codec::spec_find_flat;
use crate::codec::find_field;
use crate::codec::spec_parse_flat;
use crate::codec::bytes2num;
use crate::wire_format::spec_be_num;
use crate::wire_format::spec_rec_len;
use vstd::slice::slice_subrange;
use crate::codec::spec_str_value;
use crate::codec::spec_u32_value;
use crate::codec::spec_bin_value;
use crate::codec::spec_str_list_value;
use crate::field::Field;
use crate::field::FieldData;
use crate::field::SpecField;
use crate::field::SpecFieldData;
use crate::field::fields_view;
use crate::field::lemma_fields_view;
use crate::wire_format::MAX_DATA_LEN;
use crate::wire_format::spec_fields_wf;
use crate::wire_format::spec_frame;
use crate::wire_format::spec_records;

verus! {

broadcast use vstd::std_specs::vec::group_vec_axioms, vstd::seq::group_seq_axioms;

/// A request this client can issue.  Requests are immutable once built.
#[derive(Debug, PartialEq)]
pub enum Request {
    /// The protocol handshake.
    Hello { htsp_version: u32, client_name: String, client_version: String },
}

/// A reply this client can interpret.
#[derive(Debug, PartialEq)]
pub enum Reply {
    /// The server's answer to the handshake.
    Hello {
        htsp_version: u32,
        server_name: String,
        server_version: String,
        challenge: Vec<u8>,
        server_capabilities: Vec<String>,
        webroot: Option<String>,
    },
}

/// The field sequence a request maps to: a leading `method` field naming
/// the request kind, then the request's parameters in fixed order.
pub open spec fn spec_request_fields(req: Request) -> Seq<SpecField> {
    match req {
        Request::Hello { htsp_version, client_name, client_version } => seq![
            SpecField { name: "method"@, data: SpecFieldData::Str("hello"@) },
            SpecField { name: "htsp_version"@, data: SpecFieldData::S64(htsp_version as u64) },
            SpecField { name: "client_name"@, data: SpecFieldData::Str(client_name@) },
            SpecField { name: "client_version"@, data: SpecFieldData::Str(client_version@) },
        ],
    }
}

/// Builds the field sequence of a request.
pub(crate) fn request_fields(req: &Request) -> (fields: Vec<Field>)
    ensures
        fields_view(fields@) == spec_request_fields(*req),
{
    match req {
        Request::Hello { htsp_version, client_name, client_version } => {
            let mut fields: Vec<Field> = Vec::new();
            fields.push(
                Field { name: "method".to_owned(), data: FieldData::Str("hello".to_owned()) },
            );
            fields.push(
                Field {
                    name: "htsp_version".to_owned(),
                    data: FieldData::S64(*htsp_version as u64),
                },
            );
            fields.push(
                Field { name: "client_name".to_owned(), data: FieldData::Str(client_name.clone()) },
            );
            fields.push(
                Field {
                    name: "client_version".to_owned(),
                    data: FieldData::Str(client_version.clone()),
                },
            );
            proof {
                lemma_fields_view(fields@);
                let fvs = spec_request_fields(*req);
                assert(fields@.len() == 4);
                assert(fields@[0].deep_view() == fvs[0]);
                assert(fields@[1].deep_view() == fvs[1]);
                assert(fields@[2].deep_view() == fvs[2]);
                assert(fields@[3].deep_view() == fvs[3]);
                assert(fields_view(fields@) =~= fvs);
            }
            fields
        }
    }
}

/// Appends the records of a request's fields to `out`, without the frame's
/// length prefix.  Fails, leaving `out` as it was, exactly when a parameter
/// string is longer than the 4-byte data-length field can say.
pub fn serialize_body(req: &Request, out: &mut Vec<u8>) -> (r: Result<(), WireError>)
    ensures
        match r {
            Ok(()) => spec_fields_wf(spec_request_fields(*req)) && final(out)@ == old(out)@
                + spec_records(spec_request_fields(*req)),
            Err(e) => !spec_fields_wf(spec_request_fields(*req)) && final(out)@ == old(out)@ && (
            e == WireError::NameTooLong || e == WireError::DataTooLong),
        },
{
    let fields = request_fields(req);
    let ghost fvs = spec_request_fields(*req);
    let start: usize = out.len();
    let ghost orig = out@;
    let mut i: usize = 0;
    proof {
        crate::wire_format::lemma_spec_fields_wf(fvs);
        lemma_fields_view(fields@);
        assert(fields@.subrange(0, 0) =~= Seq::<Field>::empty());
        assert(fields_view(Seq::<Field>::empty()) =~= Seq::<SpecField>::empty());
        assert(fields_view(fields@.subrange(0, 0)) =~= fvs.subrange(0, 0));
        assert(orig + spec_records(fields_view(fields@.subrange(0, 0))) =~= orig);
    }
    while i < fields.len()
        invariant
            i <= fields@.len(),
            start == orig.len(),
            orig == old(out)@,
            fvs == spec_request_fields(*req),
            fields_view(fields@) == fvs,
            fvs.len() == fields@.len(),
            forall|j: int| 0 <= j < fields@.len() ==> #[trigger] fields@[j].deep_view() == fvs[j],
            out@ == orig + spec_records(fields_view(fields@.subrange(0, i as int))),
            spec_fields_wf(fields_view(fields@.subrange(0, i as int))),
            fields_view(fields@.subrange(0, i as int)) == fvs.subrange(0, i as int),
        decreases fields@.len() - i,
    {
        let ghost prefix = fields_view(fields@.subrange(0, i as int));
        match serialize_field(&fields[i], out) {
            Ok(()) => {}
            Err(e) => {
                out.truncate(start);
                proof {
                    assert(out@ =~= orig);
                    assert(!fvs[i as int].wf());
                    if spec_fields_wf(fvs) {
                        crate::wire_format::lemma_spec_fields_wf(fvs);
                        assert(fvs[i as int].wf());
                    }
                }
                return Err(e);
            }
        }
        proof {
            let pv = fields_view(fields@.subrange(0, i + 1));
            assert(fields@.subrange(0, i + 1).drop_last() =~= fields@.subrange(0, i as int));
            assert(fields@.subrange(0, i + 1).last() == fields@[i as int]);
            assert(pv.drop_last() =~= prefix);
            assert(pv.last() == fields@[i as int].deep_view());
            assert(pv =~= fvs.subrange(0, i + 1));
        }
        i = i + 1;
    }
    proof {
        assert(fields@.subrange(0, fields@.len() as int) =~= fields@);
        assert(fvs.subrange(0, fvs.len() as int) =~= fvs);
    }
    Ok(())
}

/// Appends one whole frame of a request to `out`: the 4-byte big-endian
/// total length, then the request's field records.  Fails, leaving `out` as
/// it was, exactly when the request cannot be carried in one frame.
pub fn serialize(req: &Request, out: &mut Vec<u8>) -> (r: Result<(), WireError>)
    ensures
        match r {
            Ok(()) => spec_fields_wf(spec_request_fields(*req)) && spec_records(
                spec_request_fields(*req),
            ).len() <= MAX_DATA_LEN && final(out)@ == old(out)@ + spec_frame(
                spec_request_fields(*req),
            ),
            Err(e) => !(spec_fields_wf(spec_request_fields(*req)) && spec_records(
                spec_request_fields(*req),
            ).len() <= MAX_DATA_LEN) && final(out)@ == old(out)@ && (e == WireError::NameTooLong
                || e == WireError::DataTooLong),
        },
{
    let fields = request_fields(req);
    let mut frame = match encode(&fields) {
        Ok(f) => f,
        Err(e) => {
            return Err(e);
        }
    };
    out.append(&mut frame);
    Ok(())
}

/// The required `htsp_version` field is present and reads as an integer.
pub open spec fn spec_hello_version_ok(pvs: Seq<SpecParsableField>) -> bool {
    spec_find_flat(pvs, "htsp_version"@) matches Some(pf) && spec_u32_value(pf) is Some
}

/// The required `server_name` field is present and reads as a string.
pub open spec fn spec_hello_server_name_ok(pvs: Seq<SpecParsableField>) -> bool {
    spec_find_flat(pvs, "server_name"@) matches Some(pf) && spec_str_value(pf) is Some
}

/// The required `server_version` field is present and reads as a string.
pub open spec fn spec_hello_server_version_ok(pvs: Seq<SpecParsableField>) -> bool {
    spec_find_flat(pvs, "server_version"@) matches Some(pf) && spec_str_value(pf) is Some
}

/// The required `challenge` field is present and reads as binary data.
pub open spec fn spec_hello_challenge_ok(pvs: Seq<SpecParsableField>) -> bool {
    spec_find_flat(pvs, "challenge"@) matches Some(pf) && spec_bin_value(pf) is Some
}

/// The required `server_capabilities` field is present and reads as a list of
/// strings.
pub open spec fn spec_hello_caps_ok(pvs: Seq<SpecParsableField>) -> bool {
    spec_find_flat(pvs, "server_capabilities"@) matches Some(pf) && spec_str_list_value(pf) is Some
}

/// The optional `webroot` field, when present, reads as a string.
pub open spec fn spec_hello_webroot_ok(pvs: Seq<SpecParsableField>) -> bool {
    match spec_find_flat(pvs, "webroot"@) {
        None => true,
        Some(pf) => spec_str_value(pf) is Some,
    }
}

/// Everything a hello reply requires can be extracted from the field set.
pub open spec fn spec_hello_ok(pvs: Seq<SpecParsableField>) -> bool {
    &&& spec_hello_version_ok(pvs)
    &&& spec_hello_server_name_ok(pvs)
    &&& spec_hello_server_version_ok(pvs)
    &&& spec_hello_challenge_ok(pvs)
    &&& spec_hello_caps_ok(pvs)
    &&& spec_hello_webroot_ok(pvs)
}

/// The protocol version a hello reply carries.
pub open spec fn spec_hello_version(pvs: Seq<SpecParsableField>) -> u32 {
    spec_u32_value(spec_find_flat(pvs, "htsp_version"@)->Some_0)->Some_0
}

/// The server name a hello reply carries.
pub open spec fn spec_hello_server_name(pvs: Seq<SpecParsableField>) -> Seq<char> {
    spec_str_value(spec_find_flat(pvs, "server_name"@)->Some_0)->Some_0
}

/// The server version a hello reply carries.
pub open spec fn spec_hello_server_version(pvs: Seq<SpecParsableField>) -> Seq<char> {
    spec_str_value(spec_find_flat(pvs, "server_version"@)->Some_0)->Some_0
}

/// The challenge bytes a hello reply carries.
pub open spec fn spec_hello_challenge(pvs: Seq<SpecParsableField>) -> Seq<u8> {
    spec_bin_value(spec_find_flat(pvs, "challenge"@)->Some_0)->Some_0
}

/// The capability strings a hello reply carries.
pub open spec fn spec_hello_caps(pvs: Seq<SpecParsableField>) -> Seq<Seq<char>> {
    spec_str_list_value(spec_find_flat(pvs, "server_capabilities"@)->Some_0)->Some_0
}

/// The web root a hello reply carries, when present.
pub open spec fn spec_hello_webroot(pvs: Seq<SpecParsableField>) -> Option<Seq<char>> {
    match spec_find_flat(pvs, "webroot"@) {
        None => None,
        Some(pf) => Some(spec_str_value(pf)->Some_0),
    }
}

/// The error is one a failed extraction produces, never a missing-field or
/// unknown-method report.
pub open spec fn spec_extraction_err(r: Result<Reply, WireError>) -> bool {
    &&& r is Err
    &&& !(r->Err_0 is MissingField)
    &&& !(r->Err_0 is UnknownMethod)
}

/// The result reports the required field named `name` as missing.
pub open spec fn spec_missing(r: Result<Reply, WireError>, name: Seq<char>) -> bool {
    r matches Err(WireError::MissingField(n)) && n@ == name
}

/// Exactly how a decoded field set and a method name determine the reply.
/// An unknown method is reported as such.  For `hello`, the reply succeeds
/// exactly when every required field is present at its expected type (and
/// `webroot`, when present, is a string), and its members then carry the
/// extracted values.  Otherwise the first failing field, in the fixed
/// required order, decides the error: an absent required field is reported
/// as missing, by its own name; a present but unreadable field gives that
/// field's extraction error.
pub open spec fn spec_reply_matches(
    pvs: Seq<SpecParsableField>,
    method: Seq<char>,
    r: Result<Reply, WireError>,
) -> bool {
    &&& (method != "hello"@ ==> (r matches Err(WireError::UnknownMethod(m)) && m@ == method))
    &&& (method == "hello"@ ==> {
        &&& (r is Ok <==> spec_hello_ok(pvs))
        &&& (r matches Ok(rep) ==> (rep matches Reply::Hello {
            htsp_version,
            server_name,
            server_version,
            challenge,
            server_capabilities,
            webroot,
        } && htsp_version == spec_hello_version(pvs) && server_name@ == spec_hello_server_name(
            pvs,
        ) && server_version@ == spec_hello_server_version(pvs) && challenge@
            == spec_hello_challenge(pvs) && server_capabilities.deep_view() == spec_hello_caps(
            pvs,
        ) && (match spec_hello_webroot(pvs) {
            None => webroot is None,
            Some(w) => webroot matches Some(ws) && ws@ == w,
        })))
        &&& (!spec_hello_ok(pvs) ==> (if spec_find_flat(pvs, "htsp_version"@) is None {
            spec_missing(r, "htsp_version"@)
        } else if !spec_hello_version_ok(pvs) {
            spec_extraction_err(r)
        } else if spec_find_flat(pvs, "server_name"@) is None {
            spec_missing(r, "server_name"@)
        } else if !spec_hello_server_name_ok(pvs) {
            spec_extraction_err(r)
        } else if spec_find_flat(pvs, "server_version"@) is None {
            spec_missing(r, "server_version"@)
        } else if !spec_hello_server_version_ok(pvs) {
            spec_extraction_err(r)
        } else if spec_find_flat(pvs, "challenge"@) is None {
            spec_missing(r, "challenge"@)
        } else if !spec_hello_challenge_ok(pvs) {
            spec_extraction_err(r)
        } else if spec_find_flat(pvs, "server_capabilities"@) is None {
            spec_missing(r, "server_capabilities"@)
        } else if !spec_hello_caps_ok(pvs) {
            spec_extraction_err(r)
        } else {
            spec_extraction_err(r)
        }))
    })
}

/// Looks a required field up by name and extracts it at the requested type.
/// A field absent from the set is reported as missing, by name.
pub fn get_field<T: DeepView>(fields: &Vec<ParsableField>, field_name: &str) -> (r: Result<
    T,
    WireError,
>) where ParsableField: Convertible<T>
    ensures
        match spec_find_flat(pfields_view(fields@), field_name@) {
            None => (r matches Err(WireError::MissingField(n)) && n@ == field_name@),
            Some(pf) => match r {
                Ok(v) => <ParsableField as Convertible<T>>::can_convert(pf) && v.deep_view()
                    == <ParsableField as Convertible<T>>::converted(pf),
                Err(e) => !<ParsableField as Convertible<T>>::can_convert(pf) && !(e
                    is MissingField) && !(e is UnknownMethod),
            },
        },
{
    match find_field(fields, field_name) {
        None => Err(WireError::MissingField(field_name.to_owned())),
        Some(pf) => pf.convert(),
    }
}

/// Looks an optional field up by name: absence yields `None` rather than an
/// error; a present field is extracted at the requested type.
pub fn get_opt_field<T: DeepView>(fields: &Vec<ParsableField>, field_name: &str) -> (r: Result<
    Option<T>,
    WireError,
>) where ParsableField: Convertible<T>
    ensures
        match spec_find_flat(pfields_view(fields@), field_name@) {
            None => r matches Ok(o) && o is None,
            Some(pf) => match r {
                Ok(o) => o matches Some(v) && <ParsableField as Convertible<T>>::can_convert(pf)
                    && v.deep_view() == <ParsableField as Convertible<T>>::converted(pf),
                Err(e) => !<ParsableField as Convertible<T>>::can_convert(pf) && !(e
                    is MissingField) && !(e is UnknownMethod),
            },
        },
{
    match find_field(fields, field_name) {
        None => Ok(None),
        Some(pf) => match pf.convert() {
            Ok(v) => Ok(Some(v)),
            Err(e) => Err(e),
        },
    }
}

/// Looks a required list field up by name and extracts its elements.
pub fn get_list_field<T>(fields: &Vec<ParsableField>, field_name: &str) -> (r: Result<
    Vec<T>,
    WireError,
>) where T: DeepView, ParsableField: Convertible<Vec<T>>
    ensures
        match spec_find_flat(pfields_view(fields@), field_name@) {
            None => (r matches Err(WireError::MissingField(n)) && n@ == field_name@),
            Some(pf) => match r {
                Ok(v) => <ParsableField as Convertible<Vec<T>>>::can_convert(pf) && v.deep_view()
                    == <ParsableField as Convertible<Vec<T>>>::converted(pf),
                Err(e) => !<ParsableField as Convertible<Vec<T>>>::can_convert(pf) && !(e
                    is MissingField) && !(e is UnknownMethod),
            },
        },
{
    match find_field(fields, field_name) {
        None => Err(WireError::MissingField(field_name.to_owned())),
        Some(pf) => pf.convert(),
    }
}

/// Builds the reply for `method` from a decoded field set, as
/// [`spec_reply_matches`] says: required fields are extracted at their
/// expected types, a missing one is reported by name, and `webroot` is
/// optional.
pub fn map2reply(fields: &Vec<ParsableField>, method: &str) -> (r: Result<Reply, WireError>)
    ensures
        spec_reply_matches(pfields_view(fields@), method@, r),
{
    let hello: String = "hello".to_owned();
    if !method.to_owned().eq(&hello) {
        return Err(WireError::UnknownMethod(method.to_owned()));
    }
    let htsp_version: u32 = match get_field::<u32>(fields, "htsp_version") {
        Ok(v) => v,
        Err(e) => {
            return Err(e);
        }
    };
    let server_name: String = match get_field::<String>(fields, "server_name") {
        Ok(v) => v,
        Err(e) => {
            return Err(e);
        }
    };
    let server_version: String = match get_field::<String>(fields, "server_version") {
        Ok(v) => v,
        Err(e) => {
            return Err(e);
        }
    };
    let challenge: Vec<u8> = match get_field::<Vec<u8>>(fields, "challenge") {
        Ok(v) => v,
        Err(e) => {
            return Err(e);
        }
    };
    proof {
        assert(challenge.deep_view() =~= challenge@);
    }
    let server_capabilities: Vec<String> = match get_list_field::<String>(
        fields,
        "server_capabilities",
    ) {
        Ok(v) => v,
        Err(e) => {
            return Err(e);
        }
    };
    let webroot: Option<String> = match get_opt_field::<String>(fields, "webroot") {
        Ok(v) => v,
        Err(e) => {
            return Err(e);
        }
    };
    Ok(
        Reply::Hello {
            htsp_version,
            server_name,
            server_version,
            challenge,
            server_capabilities,
            webroot,
        },
    )
}

/// Reads one whole frame into its flat field records: the 4-byte big-endian
/// total length, then exactly that many bytes of records.  Fails with
/// `Truncated` when fewer than 4 bytes arrive, with `LengthMismatch` when
/// the declared total disagrees with the bytes present, and with the record
/// reader's own error when the body does not divide into whole records with
/// assigned tags and UTF-8 names.
pub fn read_fields(input: &[u8]) -> (r: Result<Vec<ParsableField>, WireError>)
    ensures
        input@.len() < 4 ==> r == Err::<Vec<ParsableField>, WireError>(WireError::Truncated),
        (input@.len() >= 4 && input@.len() - 4 != spec_be_num(input@.subrange(0, 4))) ==> r
            == Err::<Vec<ParsableField>, WireError>(WireError::LengthMismatch),
        (input@.len() >= 4 && input@.len() - 4 == spec_be_num(input@.subrange(0, 4))) ==> (
        match spec_parse_flat(input@.subrange(4, input@.len() as int)) {
            None => r is Err,
            Some(pvs) => r is Ok && pfields_view((r->Ok_0)@) == pvs,
        }),
{
    if input.len() < 4 {
        return Err(WireError::Truncated);
    }
    let declared = bytes2num(slice_subrange(input, 0, 4));
    if (input.len() - 4) as u64 != declared {
        return Err(WireError::LengthMismatch);
    }
    let body = slice_subrange(input, 4, input.len());
    let body_len: usize = body.len();
    let mut pos: usize = 0;
    let mut fields: Vec<ParsableField> = Vec::new();
    proof {
        assert(body@.len() <= usize::MAX) by {
            assert(body@.len() == body_len);
        }
        assert(body@.subrange(0, body@.len() as int) =~= body@);
        assert(pfields_view(fields@) =~= Seq::<SpecParsableField>::empty());
        if spec_parse_flat(body@) is Some {
            assert(pfields_view(fields@) + spec_parse_flat(body@)->Some_0 =~= spec_parse_flat(
                body@,
            )->Some_0);
        }
    }
    while pos < body.len()
        invariant
            pos <= body@.len(),
            body@.len() <= usize::MAX,
            input@.len() >= 4,
            input@.len() - 4 == spec_be_num(input@.subrange(0, 4)),
            body@ == input@.subrange(4, input@.len() as int),
            (match spec_parse_flat(body@.subrange(pos as int, body@.len() as int)) {
                Some(t) => spec_parse_flat(body@) == Some(pfields_view(fields@) + t),
                None => spec_parse_flat(body@) is None,
            }),
        decreases body@.len() - pos,
    {
        let ghost tailv = body@.subrange(pos as int, body@.len() as int);
        let tail = slice_subrange(body, pos, body.len());
        match ParsableField::from_read(tail) {
            Err(e) => {
                return Err(e);
            }
            Ok((consumed, pf)) => {
                proof {
                    let rest = tailv.subrange(spec_rec_len(tailv), tailv.len() as int);
                    assert(body@.subrange(pos + consumed, body@.len() as int) =~= rest);
                    assert(spec_parse_flat(tailv) == (match spec_parse_flat(rest) {
                        Some(r2) => Some(seq![pf.deep_view()] + r2),
                        None => None::<Seq<SpecParsableField>>,
                    }));
                    let oldvs = pfields_view(fields@);
                    assert(pfields_view(fields@.push(pf)) =~= oldvs.push(pf.deep_view()));
                    if spec_parse_flat(rest) is Some {
                        let r2 = spec_parse_flat(rest)->Some_0;
                        assert(oldvs + (seq![pf.deep_view()] + r2) =~= oldvs.push(
                            pf.deep_view(),
                        ) + r2);
                    }
                }
                fields.push(pf);
                pos = pos + consumed;
            }
        }
    }
    proof {
        let tailv = body@.subrange(pos as int, body@.len() as int);
        assert(tailv.len() == 0);
        assert(spec_parse_flat(tailv) == Some(Seq::<SpecParsableField>::empty()));
        assert(pfields_view(fields@) + Seq::<SpecParsableField>::empty() =~= pfields_view(
            fields@,
        ));
    }
    Ok(fields)
}

/// Reads one whole reply frame and builds the reply for `method` from the
/// records it carries, as [`spec_reply_matches`] says.  Fails when the frame
/// itself is malformed — fewer than 4 bytes (`Truncated`), a declared total
/// that disagrees with the bytes present (`LengthMismatch`), or a body that
/// does not divide into whole records with assigned tags and UTF-8 names —
/// or when the field set does not carry the reply.
pub fn deserialize(input: &[u8], method: &str) -> (r: Result<Reply, WireError>)
    ensures
        input@.len() < 4 ==> r == Err::<Reply, WireError>(WireError::Truncated),
        (input@.len() >= 4 && input@.len() - 4 != spec_be_num(input@.subrange(0, 4))) ==> r
            == Err::<Reply, WireError>(WireError::LengthMismatch),
        (input@.len() >= 4 && input@.len() - 4 == spec_be_num(input@.subrange(0, 4))) ==> (
        match spec_parse_flat(input@.subrange(4, input@.len() as int)) {
            None => r is Err,
            Some(pvs) => spec_reply_matches(pvs, method@, r),
        }),
{
    let fields = match read_fields(input) {
        Ok(fields) => fields,
        Err(e) => {
            return Err(e);
        }
    };
    map2reply(&fields, method)
}

} // verus!
