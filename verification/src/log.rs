use vstd::prelude::*;

use crate::record::{type_byte, RecordType, HEADER_LENGTH};

verus! {

/// The eight bytes of `x`, most significant first.
pub open spec fn u64_be_bytes(x: u64) -> Seq<u8> {
    seq![
        (x >> 56) as u8,
        (x >> 48) as u8,
        (x >> 40) as u8,
        (x >> 32) as u8,
        (x >> 24) as u8,
        (x >> 16) as u8,
        (x >> 8) as u8,
        x as u8,
    ]
}

/// The unsigned integer whose big-endian bytes are the first eight of `s`.
pub open spec fn u64_from_be(s: Seq<u8>) -> u64
    recommends
        s.len() >= 8,
{
    (s[0] as u64) << 56 | (s[1] as u64) << 48 | (s[2] as u64) << 40 | (s[3] as u64) << 32 | (
    s[4] as u64) << 24 | (s[5] as u64) << 16 | (s[6] as u64) << 8 | (s[7] as u64)
}

/// Reading back the big-endian bytes of an integer gives the integer.
pub proof fn lemma_u64_be_roundtrip(x: u64)
    ensures
        u64_be_bytes(x).len() == 8,
        u64_from_be(u64_be_bytes(x)) == x,
{
    let s = u64_be_bytes(x);
    let b0 = (x >> 56) as u8;
    let b1 = (x >> 48) as u8;
    let b2 = (x >> 40) as u8;
    let b3 = (x >> 32) as u8;
    let b4 = (x >> 24) as u8;
    let b5 = (x >> 16) as u8;
    let b6 = (x >> 8) as u8;
    let b7 = x as u8;
    assert(s[0] == b0 && s[1] == b1 && s[2] == b2 && s[3] == b3 && s[4] == b4 && s[5] == b5
        && s[6] == b6 && s[7] == b7);
    assert(x == ((x >> 56) as u8 as u64) << 56 | ((x >> 48) as u8 as u64) << 48 | ((x
        >> 40) as u8 as u64) << 40 | ((x >> 32) as u8 as u64) << 32 | ((x >> 24) as u8 as u64)
        << 24 | ((x >> 16) as u8 as u64) << 16 | ((x >> 8) as u8 as u64) << 8 | (x as u8 as u64))
        by (bit_vector);
}

/// The header of a record: its type byte, then the data length as a big-endian `u64`.
pub open spec fn record_header(record_type: RecordType, data_len: u64) -> Seq<u8> {
    seq![type_byte(record_type)] + u64_be_bytes(data_len)
}

/// The bytes that stand for one record in a log: its header followed by its data.
pub open spec fn encoded_record(record_type: RecordType, data: Seq<u8>) -> Seq<u8> {
    record_header(record_type, data.len() as u64) + data
}

/// The bytes of a sequence of records written one after another.
pub open spec fn encoded_records(records: Seq<(RecordType, Seq<u8>)>) -> Seq<u8>
    decreases records.len(),
{
    if records.len() == 0 {
        Seq::empty()
    } else {
        encoded_record(records[0].0, records[0].1) + encoded_records(records.drop_first())
    }
}

/// Whether each record's data length can be written in its header.
pub open spec fn lengths_fit(records: Seq<(RecordType, Seq<u8>)>) -> bool {
    forall|i: int| 0 <= i < records.len() ==> #[trigger] records[i].1.len() <= u64::MAX
}

/// The header that the log writes in front of `data_len` bytes of output of the given type.
pub fn encode_header(record_type: RecordType, data_len: u64) -> (header: Vec<u8>)
    ensures
        header@ == record_header(record_type, data_len),
        header@.len() == HEADER_LENGTH,
{
    let mut header: Vec<u8> = Vec::with_capacity(HEADER_LENGTH);
    header.push(record_type.to_u8());
    header.push((data_len >> 56) as u8);
    header.push((data_len >> 48) as u8);
    header.push((data_len >> 40) as u8);
    header.push((data_len >> 32) as u8);
    header.push((data_len >> 24) as u8);
    header.push((data_len >> 16) as u8);
    header.push((data_len >> 8) as u8);
    header.push(data_len as u8);
    assert(header@ =~= record_header(record_type, data_len));
    header
}

/// The bytes that the log writes for one record: its header followed by `data`.
pub fn encode_record(record_type: RecordType, data: &[u8]) -> (bytes: Vec<u8>)
    requires
        data@.len() <= u64::MAX,
    ensures
        bytes@ == encoded_record(record_type, data@),
{
    let mut bytes = encode_header(record_type, data.len() as u64);
    let mut i: usize = 0;
    while i < data.len()
        invariant
            i <= data@.len(),
            data@.len() <= u64::MAX,
            bytes@ == record_header(record_type, data@.len() as u64) + data@.take(i as int),
        decreases data@.len() - i,
    {
        bytes.push(data[i]);
        i = i + 1;
        assert(data@.take(i as int) =~= data@.take(i - 1).push(data@[i - 1]));
    }
    assert(data@.take(data@.len() as int) =~= data@);
    bytes
}

/// A sink for log records.
///
/// `write_record` appends one record of process output; `stop` tells readers of the log that no
/// more records will come.
pub trait LogWriter {
    fn write_record(&mut self, record_type: RecordType, data: &[u8]) -> Result<(), std::io::Error>;

    fn stop(&self);
}

} // verus!
