//! Client facade: sequence-number bookkeeping and the assembly of one
//! outbound request into the frame the engine transmits.
//!
//! The counter lives with its connection, starts at zero, and is advanced
//! under the caller's exclusive access (the surrounding program serializes
//! read-increment-write as one step); each advance yields the next value,
//! so concurrent callers taking one number each receive exactly
//! `1, 2, ..., N` with no duplicates and no gaps.

use vstd::prelude::*;

use crate::codec::WireError;
use crate::codec::encode;
use crate::field::Field;
use crate::field::FieldData;
use crate::field::SpecField;
use crate::field::SpecFieldData;
use crate::field::fields_view;
use crate::htsp::Request;
use crate::htsp::request_fields;
use crate::htsp::spec_request_fields;
use crate::wire_format::MAX_DATA_LEN;
use crate::wire_format::spec_fields_wf;
use crate::wire_format::spec_frame;
use crate::wire_format::spec_records;

verus! {

broadcast use vstd::std_specs::vec::group_vec_axioms, vstd::seq::group_seq_axioms;

/// The per-connection sequence counter: a monotonically increasing unsigned
/// integer, initialized to zero when the connection is created and never
/// reset while it lives.
#[derive(Debug)]
pub struct SequenceCounter {
    pub next_sequence_number: u64,
}

impl SequenceCounter {
    /// A fresh counter, at zero: the first number handed out is 1.
    pub fn new() -> (r: Self)
        ensures
            r.next_sequence_number == 0,
    {
        SequenceCounter { next_sequence_number: 0 }
    }

    /// Advances the counter by one and hands the new value out.  The caller
    /// holds exclusive access, so read-increment-write is one atomic step.
    pub fn get_next_sequence_number(&mut self) -> (n: u64)
        requires
            old(self).next_sequence_number < u64::MAX,
        ensures
            final(self).next_sequence_number == old(self).next_sequence_number + 1,
            n == final(self).next_sequence_number,
    {
        self.next_sequence_number = self.next_sequence_number + 1;
        self.next_sequence_number
    }
}

/// Sequence numbers are exhaustive and collision-free: the `k`-th advance
/// of a fresh counter returns `k` (which its contract guarantees), so the
/// values `N` callers receive, one each, are pairwise distinct, lie in
/// `1..=N`, and cover every value of `1..=N`.
pub proof fn lemma_sequence_numbers(results: Seq<u64>)
    requires
        forall|i: int| 0 <= i < results.len() ==> #[trigger] results[i] == i + 1,
    ensures
        forall|i: int, j: int| 0 <= i < j < results.len() ==> results[i] != results[j],
        forall|i: int| 0 <= i < results.len() ==> 1 <= #[trigger] results[i] <= results.len(),
        forall|v: u64| 1 <= v <= results.len() ==> results.contains(v),
{
    assert forall|v: u64| 1 <= v <= results.len() implies results.contains(v) by {
        assert(results[v - 1] == v);
    }
}

/// The field sequence of a request with its optional trailing `seq`
/// correlation field.
pub open spec fn spec_request_fields_with_seq(req: Request, seq_num: Option<u32>) -> Seq<
    SpecField,
> {
    match seq_num {
        None => spec_request_fields(req),
        Some(n) => spec_request_fields(req).push(
            SpecField { name: "seq"@, data: SpecFieldData::S64(n as u64) },
        ),
    }
}

/// Builds the frame of one outbound request: the request's fields, a
/// trailing `seq` correlation field when a sequence number is supplied, and
/// the 4-byte big-endian total length in front.  Fails exactly when the
/// request cannot be carried in one frame: a parameter string longer than a
/// 4-byte length field can say, or records that together overflow the
/// frame's own total length.
pub fn request_frame(req: &Request, seq_num: Option<u32>) -> (r: Result<Vec<u8>, WireError>)
    ensures
        match r {
            Ok(out) => spec_fields_wf(spec_request_fields_with_seq(*req, seq_num))
                && spec_records(spec_request_fields_with_seq(*req, seq_num)).len()
                <= MAX_DATA_LEN && out@ == spec_frame(spec_request_fields_with_seq(*req, seq_num)),
            Err(e) => !(spec_fields_wf(spec_request_fields_with_seq(*req, seq_num))
                && spec_records(spec_request_fields_with_seq(*req, seq_num)).len()
                <= MAX_DATA_LEN) && (e == WireError::NameTooLong || e == WireError::DataTooLong),
        },
{
    let mut fields = request_fields(req);
    match seq_num {
        None => {}
        Some(n) => {
            let ghost before = fields@;
            fields.push(Field { name: "seq".to_owned(), data: FieldData::S64(n as u64) });
            proof {
                assert(fields@.drop_last() =~= before);
                assert(fields@.last().deep_view() == (SpecField {
                    name: "seq"@,
                    data: SpecFieldData::S64(n as u64),
                }));
                assert(fields_view(fields@) == fields_view(before).push(
                    fields@.last().deep_view(),
                ));
                assert(fields_view(fields@) =~= spec_request_fields_with_seq(*req, seq_num));
            }
        }
    }
    encode(&fields)
}

/// The correlation table layered above the connection engine: which `seq`
/// numbers have been sent and still await their reply.  Outbound requests
/// register their number; each arriving reply resolves the number its own
/// `seq` field carries, claiming the one waiting caller it belongs to.
#[derive(Debug)]
pub struct CorrelationTable {
    pub pending: Vec<u32>,
}

impl CorrelationTable {
    /// No sequence number is ever outstanding twice.
    pub open spec fn wf(&self) -> bool {
        forall|i: int, j: int|
            0 <= i < j < self.pending@.len() ==> self.pending@[i] != self.pending@[j]
    }

    /// Whether `seq_num` awaits its reply.
    pub open spec fn spec_outstanding(&self, seq_num: u32) -> bool {
        self.pending@.contains(seq_num)
    }

    /// A fresh table with nothing outstanding.
    pub fn new() -> (r: Self)
        ensures
            r.wf(),
            r.pending@ == Seq::<u32>::empty(),
    {
        CorrelationTable { pending: Vec::new() }
    }

    /// Whether `seq_num` awaits its reply.
    pub fn outstanding(&self, seq_num: u32) -> (r: bool)
        ensures
            r == self.spec_outstanding(seq_num),
    {
        let mut i: usize = 0;
        while i < self.pending.len()
            invariant
                i <= self.pending@.len(),
                forall|j: int| 0 <= j < i ==> self.pending@[j] != seq_num,
            decreases self.pending@.len() - i,
        {
            if self.pending[i] == seq_num {
                return true;
            }
            i = i + 1;
        }
        proof {
            assert(!self.pending@.contains(seq_num));
        }
        false
    }

    /// Registers an outbound request's number.  Succeeds exactly when the
    /// number was not already outstanding; the table is unchanged otherwise.
    pub fn register(&mut self, seq_num: u32) -> (r: bool)
        requires
            old(self).wf(),
        ensures
            final(self).wf(),
            r == !old(self).spec_outstanding(seq_num),
            r ==> final(self).pending@ == old(self).pending@.push(seq_num),
            !r ==> *final(self) == *old(self),
            final(self).spec_outstanding(seq_num),
    {
        if self.outstanding(seq_num) {
            return false;
        }
        self.pending.push(seq_num);
        proof {
            assert(self.pending@.last() == seq_num);
            assert(self.pending@.contains(seq_num));
        }
        true
    }

    /// Resolves an arriving reply's number, releasing its waiting caller.
    /// Succeeds exactly when the number was outstanding; afterwards it no
    /// longer is, so a second reply with the same number claims nobody, and
    /// every other outstanding number still awaits its own reply.
    pub fn resolve(&mut self, seq_num: u32) -> (r: bool)
        requires
            old(self).wf(),
        ensures
            final(self).wf(),
            r == old(self).spec_outstanding(seq_num),
            !final(self).spec_outstanding(seq_num),
            forall|other: u32| other != seq_num ==> (final(self).spec_outstanding(other)
                <==> old(self).spec_outstanding(other)),
            !r ==> *final(self) == *old(self),
    {
        let mut i: usize = 0;
        while i < self.pending.len()
            invariant
                self.wf(),
                *self == *old(self),
                i <= self.pending@.len(),
                forall|j: int| 0 <= j < i ==> self.pending@[j] != seq_num,
            decreases self.pending@.len() - i,
        {
            if self.pending[i] == seq_num {
                self.pending.remove(i);
                proof {
                    let oldp = old(self).pending@;
                    assert forall|a: int, b: int|
                        0 <= a < b < self.pending@.len() implies self.pending@[a]
                        != self.pending@[b] by {
                        if b < i {
                        } else if a < i {
                            assert(self.pending@[b] == oldp[b + 1]);
                        } else {
                            assert(self.pending@[a] == oldp[a + 1]);
                            assert(self.pending@[b] == oldp[b + 1]);
                        }
                    }
                    assert forall|j: int|
                        0 <= j < self.pending@.len() implies self.pending@[j] != seq_num by {
                        if j < i {
                        } else {
                            assert(self.pending@[j] == oldp[j + 1]);
                        }
                    }
                    assert(!self.pending@.contains(seq_num));
                    assert(oldp.contains(seq_num)) by {
                        assert(oldp[i as int] == seq_num);
                    }
                    assert forall|other: u32| other != seq_num implies (
                    self.pending@.contains(other) <==> oldp.contains(other)) by {
                        if self.pending@.contains(other) {
                            let k = choose|k: int|
                                0 <= k < self.pending@.len() && self.pending@[k] == other;
                            if k < i {
                                assert(oldp[k] == other);
                            } else {
                                assert(oldp[k + 1] == other);
                            }
                        }
                        if oldp.contains(other) {
                            let k = choose|k: int| 0 <= k < oldp.len() && oldp[k] == other;
                            if k < i {
                                assert(self.pending@[k] == other);
                            } else {
                                assert(self.pending@[k - 1] == other);
                            }
                        }
                    }
                }
                return true;
            }
            i = i + 1;
        }
        proof {
            assert(!self.pending@.contains(seq_num));
        }
        false
    }
}

} // verus!
