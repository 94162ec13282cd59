//! One electricity telemetry record and its bounded binary encoding.
use vstd::prelude::*;

verus! {

/// Largest number of bytes that the encoding of one record may take.
pub const MAX_VALUE_SIZE: usize = 1024;

/// One reading of an electricity meter.
#[derive(Clone, Debug, PartialEq, Eq)]
pub struct ElectricityEvent {
    pub id: String,
    pub timestamp: u64,
    pub voltage: u64,
    pub current: u64,
    pub value: u64,
}

/// Mathematical value of an [`ElectricityEvent`].
pub ghost struct EventView {
    pub id: Seq<char>,
    pub timestamp: u64,
    pub voltage: u64,
    pub current: u64,
    pub value: u64,
}

impl View for ElectricityEvent {
    type V = EventView;

    open spec fn view(&self) -> EventView {
        EventView {
            id: self.id@,
            timestamp: self.timestamp,
            voltage: self.voltage,
            current: self.current,
            value: self.value,
        }
    }
}

/// Failure of the record codec.
#[derive(Clone, Copy, Debug, PartialEq, Eq, Structural)]
pub enum CodecError {
    /// The record has no encoding of at most [`MAX_VALUE_SIZE`] bytes.
    EncodingError,
    /// The bytes are not the encoding of a record.
    DecodingError,
}

/// The bytes that candid gives for the record `(id, timestamp, voltage, current, value)`,
/// or `None` where candid reports an error.
pub uninterp spec fn candid_encoding(
    id: Seq<char>,
    timestamp: u64,
    voltage: u64,
    current: u64,
    value: u64,
) -> Option<Seq<u8>>;

/// The record `(id, timestamp, voltage, current, value)` that candid reads from `bytes`,
/// or `None` where candid reports an error.
pub uninterp spec fn candid_decoding(bytes: Seq<u8>) -> Option<(Seq<char>, u64, u64, u64, u64)>;

/// Relies on `candid::encode_one` (candid 0.10): the candid message that holds the five
/// fields as one record value. Decoding that message as the same record type gives the
/// same fields back.
#[verifier::external_body]
fn candid_encode(id: &String, timestamp: u64, voltage: u64, current: u64, value: u64) -> (r:
    Option<Vec<u8>>)
    ensures
        r is Some ==> candid_encoding(id@, timestamp, voltage, current, value) == Some(
            r->Some_0@,
        ),
        r is Some ==> candid_decoding(r->Some_0@) == Some((id@, timestamp, voltage, current, value)),
        r is None ==> candid_encoding(id@, timestamp, voltage, current, value) is None,
{
    candid::encode_one((id.clone(), timestamp, voltage, current, value)).ok()
}

/// Relies on `candid::decode_one` (candid 0.10): reads one candid record of five fields,
/// a text and four `nat64`, from a whole message.
#[verifier::external_body]
fn candid_decode(bytes: &Vec<u8>) -> (r: Option<(String, u64, u64, u64, u64)>)
    ensures
        r is Some ==> candid_decoding(bytes@) == Some(
            (r->Some_0.0@, r->Some_0.1, r->Some_0.2, r->Some_0.3, r->Some_0.4),
        ),
        r is None ==> candid_decoding(bytes@) is None,
{
    candid::decode_one::<(String, u64, u64, u64, u64)>(bytes.as_slice()).ok()
}

/// The canonical encoding of a record, where there is one.
pub open spec fn encoding_of(e: EventView) -> Option<Seq<u8>> {
    candid_encoding(e.id, e.timestamp, e.voltage, e.current, e.value)
}

/// The record that `bytes` encode, where they encode one.
pub open spec fn decoding_of(bytes: Seq<u8>) -> Option<EventView> {
    match candid_decoding(bytes) {
        Some(t) => Some(
            EventView { id: t.0, timestamp: t.1, voltage: t.2, current: t.3, value: t.4 },
        ),
        None => None,
    }
}

/// `bytes` decode to a record whose canonical encoding is `bytes` again.
pub open spec fn canonical(bytes: Seq<u8>) -> bool {
    &&& decoding_of(bytes) is Some
    &&& encoding_of(decoding_of(bytes)->Some_0) == Some(bytes)
}

/// Whether two byte vectors are equal.
fn same_bytes(a: &Vec<u8>, b: &Vec<u8>) -> (r: bool)
    ensures
        r == (a@ == b@),
{
    if a.len() != b.len() {
        return false;
    }
    let mut i: usize = 0;
    while i < a.len()
        invariant
            a@.len() == b@.len(),
            i <= a@.len(),
            forall|j: int| 0 <= j < i ==> a@[j] == b@[j],
        decreases a@.len() - i,
    {
        if a[i] != b[i] {
            return false;
        }
        i = i + 1;
    }
    assert(a@ =~= b@);
    true
}

/// The record has an encoding, and it fits in [`MAX_VALUE_SIZE`] bytes.
pub open spec fn fits(e: EventView) -> bool {
    &&& encoding_of(e) is Some
    &&& encoding_of(e)->Some_0.len() <= MAX_VALUE_SIZE
}

impl ElectricityEvent {
    /// Encodes the record as one candid record value whose fields are numbered 0 to 4 in
    /// the order `id`, `timestamp`, `voltage`, `current`, `value` (a candid tuple), not
    /// named. The bytes decode to the same record again.
    pub fn to_bytes(&self) -> (r: Result<Vec<u8>, CodecError>)
        ensures
            r is Ok <==> fits(self@),
            r is Ok ==> Some(r->Ok_0@) == encoding_of(self@),
            r is Ok ==> decoding_of(r->Ok_0@) == Some(self@),
            r is Err ==> r->Err_0 == CodecError::EncodingError,
    {
        match candid_encode(&self.id, self.timestamp, self.voltage, self.current, self.value) {
            Some(bytes) => {
                if bytes.len() <= MAX_VALUE_SIZE {
                    Ok(bytes)
                } else {
                    Err(CodecError::EncodingError)
                }
            },
            None => Err(CodecError::EncodingError),
        }
    }

    /// Decodes a record from the whole of `bytes`, where they are the record's canonical
    /// encoding: bytes that decode but differ from the encoding of what they decode to
    /// are rejected as well.
    pub fn from_bytes(bytes: &Vec<u8>) -> (r: Result<ElectricityEvent, CodecError>)
        ensures
            r is Ok <==> canonical(bytes@),
            r is Ok ==> decoding_of(bytes@) == Some(r->Ok_0@),
            r is Ok ==> encoding_of(r->Ok_0@) == Some(bytes@),
            r is Err ==> r->Err_0 == CodecError::DecodingError,
    {
        match candid_decode(bytes) {
            Some(t) => {
                match candid_encode(&t.0, t.1, t.2, t.3, t.4) {
                    Some(again) => {
                        if same_bytes(&again, bytes) {
                            Ok(
                                ElectricityEvent {
                                    id: t.0,
                                    timestamp: t.1,
                                    voltage: t.2,
                                    current: t.3,
                                    value: t.4,
                                },
                            )
                        } else {
                            Err(CodecError::DecodingError)
                        }
                    },
                    None => Err(CodecError::DecodingError),
                }
            },
            None => Err(CodecError::DecodingError),
        }
    }
}

} // verus!
