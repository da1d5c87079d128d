use vstd::prelude::*;

use byteorder::ByteOrder;
use vstd::slice::{slice_subrange, slice_to_vec};

use crate::log::{
    encoded_record, encoded_records, lemma_u64_be_roundtrip, lengths_fit, u64_be_bytes,
    u64_from_be,
};
use crate::record::{type_byte, type_of_byte, Record, RecordType, HEADER_LENGTH};

verus! {

/// Upper limit on the number of bytes read from a log in one go. It has to be larger than the
/// largest record, which is bounded by the size of the chunks read from process output.
pub const READ_CHUNK_SIZE: u64 = 1048576;

/// The data length stated in the header at the front of `s`.
pub open spec fn header_data_len(s: Seq<u8>) -> u64 {
    u64_from_be(s.subrange(1, 9))
}

/// The complete record at the front of `s`, if `s` starts with one.
pub open spec fn spec_read_record(s: Seq<u8>) -> Option<(RecordType, Seq<u8>)> {
    if s.len() < HEADER_LENGTH {
        None
    } else {
        match type_of_byte(s[0]) {
            None => None,
            Some(t) => {
                let n = header_data_len(s);
                if n <= s.len() - HEADER_LENGTH {
                    Some((t, s.subrange(HEADER_LENGTH as int, HEADER_LENGTH + n)))
                } else {
                    None
                }
            },
        }
    }
}

/// Whether `s` starts with a byte that names no record type.
pub open spec fn starts_with_bad_type(s: Seq<u8>) -> bool {
    s.len() >= 1 && type_of_byte(s[0]) is None
}

/// The records at the front of `s`, read one after another until no complete record is left.
pub open spec fn spec_read_records(s: Seq<u8>) -> Seq<(RecordType, Seq<u8>)>
    decreases s.len(),
{
    match spec_read_record(s) {
        Some(r) => seq![r] + spec_read_records(s.skip(HEADER_LENGTH + r.1.len())),
        None => Seq::empty(),
    }
}

/// The number of bytes that the records at the front of `s` take.
pub open spec fn spec_consumed(s: Seq<u8>) -> nat
    decreases s.len(),
{
    match spec_read_record(s) {
        Some(r) => (HEADER_LENGTH + r.1.len() + spec_consumed(s.skip(HEADER_LENGTH + r.1.len()))) as nat,
        None => 0,
    }
}

/// Whether reading the records at the front of `s` stops at something other than a byte that
/// names no record type.
pub open spec fn stops_cleanly(s: Seq<u8>) -> bool
    decreases s.len(),
{
    match spec_read_record(s) {
        Some(r) => stops_cleanly(s.skip(HEADER_LENGTH + r.1.len())),
        None => !starts_with_bad_type(s),
    }
}

/// Why no record could be read.
#[derive(Debug, Clone, Copy, PartialEq, Eq, Structural)]
pub enum ReadError {
    /// The bytes end before the record does.
    UnexpectedEof,
}

/// `byteorder::BigEndian::read_u64`: the first eight bytes of `buf` read as a big-endian
/// unsigned integer. It panics on a buffer shorter than eight bytes, which `requires` leaves out.
#[verifier::external_body]
fn read_u64_be(buf: &[u8]) -> (value: u64)
    requires
        buf@.len() >= 8,
    ensures
        value == u64_from_be(buf@),
{
    byteorder::BigEndian::read_u64(buf)
}

/// Reads the record at the front of `data`.
///
/// Fails with `UnexpectedEof` where `data` holds no complete record. A first byte that names no
/// record type is left out by `requires`.
pub fn read_record(data: &[u8]) -> (result: Result<Record, ReadError>)
    requires
        !starts_with_bad_type(data@),
    ensures
        match spec_read_record(data@) {
            Some(r) => result matches Ok(rec) && rec@ == r,
            None => result == Err::<Record, ReadError>(ReadError::UnexpectedEof),
        },
{
    if data.len() < HEADER_LENGTH {
        return Err(ReadError::UnexpectedEof);
    }
    let record_type = match RecordType::try_from(data[0]) {
        Ok(t) => t,
        Err(()) => {
            return Err(ReadError::UnexpectedEof);
        },
    };
    let len_bytes = slice_subrange(data, 1, HEADER_LENGTH);
    let len = read_u64_be(len_bytes);
    assert(len_bytes@ == data@.subrange(1, 9));
    if len > (data.len() - HEADER_LENGTH) as u64 {
        return Err(ReadError::UnexpectedEof);
    }
    let end = HEADER_LENGTH + len as usize;
    let bytes = slice_subrange(data, HEADER_LENGTH, end);
    let body = slice_to_vec(bytes);
    Ok(Record { record_type, data: body })
}

/// The bytes at the front of `data` that can be read without meeting a byte that names no
/// record type: all of `data` where reading it stops cleanly, else the bytes of the records that
/// come before the bad byte. They hold the same records as `data`.
pub fn readable_prefix(data: &[u8]) -> (n: usize)
    ensures
        n <= data@.len(),
        stops_cleanly(data@) ==> n == data@.len(),
        !stops_cleanly(data@) ==> n == spec_consumed(data@) && n < data@.len(),
        stops_cleanly(data@.take(n as int)),
        spec_read_records(data@.take(n as int)) == spec_read_records(data@),
        spec_consumed(data@.take(n as int)) == spec_consumed(data@),
{
    let mut offset: usize = 0;
    assert(data@.skip(0) =~= data@);
    proof {
        lemma_records_prefix(data@);
        assert(data@.take(data@.len() as int) =~= data@);
    }
    loop
        invariant
            offset <= data@.len(),
            stops_cleanly(data@.skip(offset as int)) == stops_cleanly(data@),
            offset + spec_consumed(data@.skip(offset as int)) == spec_consumed(data@),
            stops_cleanly(data@.take(spec_consumed(data@) as int)),
            spec_read_records(data@.take(spec_consumed(data@) as int)) == spec_read_records(data@),
            spec_consumed(data@.take(spec_consumed(data@) as int)) == spec_consumed(data@),
            data@.take(data@.len() as int) == data@,
        decreases data@.len() - offset,
    {
        let rest = slice_subrange(data, offset, data.len());
        assert(rest@ == data@.skip(offset as int));
        if rest.len() >= 1 && rest[0] > 1 {
            return offset;
        }
        match read_record(rest) {
            Ok(record) => {
                let n = HEADER_LENGTH + record.data.len();
                proof {
                    lemma_consumed_bounds(rest@);
                }
                assert(rest@.skip(n as int) =~= data@.skip(offset + n));
                offset = offset + n;
            },
            Err(_) => {
                return data.len();
            },
        }
    }
}

/// The bytes of the records at the front of `s` hold those records and nothing that stops the
/// reading uncleanly.
pub proof fn lemma_records_prefix(s: Seq<u8>)
    ensures
        spec_consumed(s) <= s.len(),
        stops_cleanly(s.take(spec_consumed(s) as int)),
        spec_read_records(s.take(spec_consumed(s) as int)) == spec_read_records(s),
        spec_consumed(s.take(spec_consumed(s) as int)) == spec_consumed(s),
    decreases s.len(),
{
    lemma_consumed_bounds(s);
    let c = spec_consumed(s);
    let p = s.take(c as int);
    match spec_read_record(s) {
        Some(r) => {
            let n = HEADER_LENGTH + r.1.len();
            let rest = s.skip(n);
            lemma_records_prefix(rest);
            lemma_consumed_bounds(rest);
            assert(p.subrange(1, 9) =~= s.subrange(1, 9));
            assert(p.subrange(HEADER_LENGTH as int, n) =~= s.subrange(HEADER_LENGTH as int, n));
            assert(spec_read_record(p) == Some(r));
            assert(p.skip(n) =~= rest.take(spec_consumed(rest) as int));
        },
        None => {
            assert(p =~= Seq::<u8>::empty());
        },
    }
}

/// The views of a vector of records.
pub open spec fn records_view(records: Seq<Record>) -> Seq<(RecordType, Seq<u8>)> {
    records.map_values(|r: Record| r@)
}

/// The state of a reader of a log: the position in the log of the next record to read.
pub struct Reader {
    pos: u64,
}

impl View for Reader {
    type V = nat;

    open spec fn view(&self) -> nat {
        self.spec_pos() as nat
    }
}

impl Reader {
    pub closed spec fn spec_pos(&self) -> u64 {
        self.pos
    }

    /// A reader at the start of a log.
    pub fn new() -> (reader: Reader)
        ensures
            reader@ == 0,
    {
        Reader { pos: 0 }
    }

    /// Position in the log of the next record to read.
    pub fn pos(&self) -> (pos: u64)
        ensures
            pos == self@,
    {
        self.pos
    }

    /// Reads the complete records at the front of `data`, which holds the log from the
    /// reader's position on, and moves the position past them.
    pub fn read_records(&mut self, data: &[u8]) -> (records: Vec<Record>)
        requires
            stops_cleanly(data@),
            old(self)@ + spec_consumed(data@) <= u64::MAX,
        ensures
            records_view(records@) == spec_read_records(data@),
            final(self)@ == old(self)@ + spec_consumed(data@),
    {
        let mut records: Vec<Record> = Vec::new();
        let mut offset: usize = 0;
        let ghost start = self@;
        assert(data@.skip(0) =~= data@);
        assert(records_view(records@) + spec_read_records(data@) =~= spec_read_records(data@));
        loop
            invariant_except_break
                offset <= data@.len(),
                stops_cleanly(data@.skip(offset as int)),
                self@ == start + offset,
                start + spec_consumed(data@) <= u64::MAX,
                records_view(records@) + spec_read_records(data@.skip(offset as int))
                    == spec_read_records(data@),
                offset + spec_consumed(data@.skip(offset as int)) == spec_consumed(data@),
            ensures
                records_view(records@) == spec_read_records(data@),
                self@ == start + spec_consumed(data@),
            decreases data@.len() - offset,
        {
            let rest = slice_subrange(data, offset, data.len());
            assert(rest@ == data@.skip(offset as int));
            match read_record(rest) {
                Ok(record) => {
                    let n = record.len();
                    let ghost r = spec_read_record(rest@).unwrap();
                    assert(rest@.skip(n as int) =~= data@.skip(offset + n));
                    proof {
                        lemma_consumed_bounds(rest@);
                    }
                    let ghost old_records = records@;
                    records.push(record);
                    assert(records_view(records@) =~= records_view(old_records).push(r));
                    assert(records_view(old_records).push(r) + spec_read_records(
                        data@.skip(offset + n),
                    ) =~= records_view(old_records) + spec_read_records(rest@));
                    self.pos = self.pos + n as u64;
                    offset = offset + n;
                },
                Err(_) => {
                    assert(records_view(records@) + Seq::empty() =~= records_view(records@));
                    break ;
                },
            }
        }
        records
    }

    /// Reads the complete records in a chunk read from the log at the reader's position, and
    /// says whether the chunk reached the end of the log: a chunk shorter than
    /// `READ_CHUNK_SIZE` did.
    pub fn read_chunk(&mut self, buffer: &[u8]) -> (result: (Vec<Record>, bool))
        requires
            stops_cleanly(buffer@),
            old(self)@ + spec_consumed(buffer@) <= u64::MAX,
        ensures
            records_view(result.0@) == spec_read_records(buffer@),
            final(self)@ == old(self)@ + spec_consumed(buffer@),
            result.1 == (buffer@.len() < READ_CHUNK_SIZE),
    {
        let eof_reached = (buffer.len() as u64) < READ_CHUNK_SIZE;
        let records = self.read_records(buffer);
        (records, eof_reached)
    }

    /// Whether tailing the log is over: the last chunk reached the end of the log and the
    /// writer has said that no more records will come.
    pub fn finished(eof_reached: bool, running: bool) -> (done: bool)
        ensures
            done == (eof_reached && !running),
    {
        eof_reached && !running
    }
}

/// The bytes that the records at the front of `s` take lie within `s`.
pub proof fn lemma_consumed_bounds(s: Seq<u8>)
    ensures
        spec_consumed(s) <= s.len(),
    decreases s.len(),
{
    if let Some(r) = spec_read_record(s) {
        lemma_consumed_bounds(s.skip(HEADER_LENGTH + r.1.len()));
    }
}

/// A chunk read from a log holds more than the largest record: the output read from a process in
/// one go plus a record header.
pub proof fn law_chunk_holds_largest_record()
    ensures
        READ_CHUNK_SIZE > crate::supervisor::READ_CHUNK_SIZE + HEADER_LENGTH,
{
}

/// A record written into a log is read back from the front of the log, whatever follows it.
pub proof fn lemma_read_back_record(record_type: RecordType, data: Seq<u8>, rest: Seq<u8>)
    requires
        data.len() <= u64::MAX,
    ensures
        encoded_record(record_type, data).len() == HEADER_LENGTH + data.len(),
        spec_read_record(encoded_record(record_type, data) + rest) == Some((record_type, data)),
        (encoded_record(record_type, data) + rest).skip(HEADER_LENGTH + data.len()) == rest,
{
    let n = data.len() as u64;
    let s = encoded_record(record_type, data) + rest;
    lemma_u64_be_roundtrip(n);
    assert(s.subrange(1, 9) =~= u64_be_bytes(n));
    assert(s[0] == type_byte(record_type));
    assert(type_of_byte(type_byte(record_type)) == Some(record_type));
    assert(s.subrange(HEADER_LENGTH as int, HEADER_LENGTH + n) =~= data);
    assert(s.skip(HEADER_LENGTH + data.len()) =~= rest);
}

/// Records written one after another into a log are read back in the order they were written,
/// followed by whatever the bytes after them hold; the reader moves past exactly the bytes
/// written, and stops where it would have stopped on the bytes after them.
#[verifier::spinoff_prover]
#[verifier::rlimit(50)]
pub proof fn law_read_back_written(records: Seq<(RecordType, Seq<u8>)>, rest: Seq<u8>)
    requires
        lengths_fit(records),
    ensures
        spec_read_records(encoded_records(records) + rest) == records + spec_read_records(rest),
        spec_consumed(encoded_records(records) + rest) == encoded_records(records).len()
            + spec_consumed(rest),
        stops_cleanly(encoded_records(records) + rest) == stops_cleanly(rest),
    decreases records.len(),
{
    if records.len() == 0 {
        assert(encoded_records(records) + rest =~= rest);
        assert(records + spec_read_records(rest) =~= spec_read_records(rest));
    } else {
        let tail = records.drop_first();
        let (t, d) = records[0];
        assert(lengths_fit(tail)) by {
            assert forall|i: int| 0 <= i < tail.len() implies #[trigger] tail[i].1.len()
                <= u64::MAX by {
                assert(tail[i] == records[i + 1]);
            }
        }
        assert(d.len() <= u64::MAX) by {
            assert(records[0].1.len() <= u64::MAX);
        }
        let after = encoded_records(tail) + rest;
        assert(encoded_records(records) + rest =~= encoded_record(t, d) + after);
        lemma_read_back_record(t, d, after);
        law_read_back_written(tail, rest);
        assert(records =~= seq![(t, d)] + tail);
        assert(records + spec_read_records(rest) =~= seq![(t, d)] + (tail + spec_read_records(
            rest,
        )));
    }
}

/// A record that is only partly written yet gives the reader nothing to read: it takes no
/// record and moves past no byte.
pub proof fn law_partial_record_reads_nothing(record_type: RecordType, data: Seq<u8>, k: int)
    requires
        data.len() <= u64::MAX,
        0 <= k < HEADER_LENGTH + data.len(),
    ensures
        spec_read_records(encoded_record(record_type, data).take(k)) == Seq::<
            (RecordType, Seq<u8>),
        >::empty(),
        spec_consumed(encoded_record(record_type, data).take(k)) == 0,
        stops_cleanly(encoded_record(record_type, data).take(k)),
{
    let e = encoded_record(record_type, data);
    let p = e.take(k);
    lemma_read_back_record(record_type, data, Seq::empty());
    assert(e + Seq::<u8>::empty() =~= e);
    if k >= 1 {
        assert(p[0] == type_byte(record_type));
        assert(type_of_byte(type_byte(record_type)) == Some(record_type));
    }
    if k >= HEADER_LENGTH {
        assert(p.subrange(1, 9) =~= e.subrange(1, 9));
        assert(header_data_len(p) == header_data_len(e));
    }
}

/// Reading a log in pieces gives what reading it whole does: the records of a prefix of the log
/// (what had been written at the time), followed by the records read on from the position the
/// reader reached, once more has been written, are the records of the whole log.
pub proof fn law_resume_reading(log: Seq<u8>, k: int)
    requires
        0 <= k <= log.len(),
    ensures
        spec_read_records(log.take(k)) + spec_read_records(log.skip(spec_consumed(log.take(k)) as int))
            == spec_read_records(log),
        spec_consumed(log.take(k)) + spec_consumed(log.skip(spec_consumed(log.take(k)) as int))
            == spec_consumed(log),
    decreases log.len(),
{
    let p = log.take(k);
    match spec_read_record(p) {
        Some(r) => {
            let n = HEADER_LENGTH + r.1.len();
            assert(p.subrange(1, 9) =~= log.subrange(1, 9));
            assert(p.subrange(HEADER_LENGTH as int, n) =~= log.subrange(HEADER_LENGTH as int, n));
            assert(spec_read_record(log) == Some(r));
            let log2 = log.skip(n);
            assert(p.skip(n) =~= log2.take(k - n));
            law_resume_reading(log2, k - n);
            let c2 = spec_consumed(log2.take(k - n));
            lemma_consumed_bounds(log2.take(k - n));
            assert(log.skip(n + c2) =~= log2.skip(c2 as int));
            assert(spec_read_records(p) + spec_read_records(log.skip(spec_consumed(p) as int))
                =~= seq![r] + (spec_read_records(log2.take(k - n)) + spec_read_records(
                log2.skip(c2 as int),
            )));
        },
        None => {
            assert(log.skip(0) =~= log);
            assert(Seq::<(RecordType, Seq<u8>)>::empty() + spec_read_records(log)
                =~= spec_read_records(log));
        },
    }
}

/// The records that rounds of tailing a log send: those of each chunk read, in turn.
pub open spec fn tail_records(chunks: Seq<Seq<u8>>) -> Seq<(RecordType, Seq<u8>)>
    decreases chunks.len(),
{
    if chunks.len() == 0 {
        Seq::empty()
    } else {
        spec_read_records(chunks[0]) + tail_records(chunks.drop_first())
    }
}

/// Whether `chunks` are what rounds of tailing `log` read, from position `pos` on: each chunk is
/// read at the position the reader reached, and holds bytes of the log from there on (the log
/// is only ever appended to, so what a round reads is a prefix of what the log finally holds).
/// The last round reads the whole rest of the log: the writer had stopped before that round read,
/// and the chunk reached the end of the log.
pub open spec fn tails_log(log: Seq<u8>, pos: nat, chunks: Seq<Seq<u8>>) -> bool
    decreases chunks.len(),
{
    if chunks.len() == 0 {
        false
    } else if chunks.len() == 1 {
        pos <= log.len() && chunks[0] == log.skip(pos as int)
    } else {
        &&& pos + chunks[0].len() <= log.len()
        &&& chunks[0] == log.skip(pos as int).take(chunks[0].len() as int)
        &&& tails_log(log, pos + spec_consumed(chunks[0]), chunks.drop_first())
    }
}

/// Tailing a log sends the records of what the log holds from `pos` on, each once, in order.
proof fn lemma_tail_from(log: Seq<u8>, pos: nat, chunks: Seq<Seq<u8>>)
    requires
        tails_log(log, pos, chunks),
    ensures
        tail_records(chunks) == spec_read_records(log.skip(pos as int)),
    decreases chunks.len(),
{
    let c = chunks[0];
    let rest = log.skip(pos as int);
    if chunks.len() == 1 {
        assert(chunks.drop_first().len() == 0);
        assert(tail_records(chunks.drop_first()) == Seq::<(RecordType, Seq<u8>)>::empty());
        assert(spec_read_records(c) + Seq::<(RecordType, Seq<u8>)>::empty() =~= spec_read_records(c));
    } else {
        let k = c.len() as int;
        law_resume_reading(rest, k);
        lemma_consumed_bounds(c);
        let cc = spec_consumed(c);
        assert(rest.take(k) == c);
        assert(rest.skip(cc as int) =~= log.skip((pos + cc) as int));
        lemma_tail_from(log, pos + cc, chunks.drop_first());
    }
}

/// Tailing a log until the writer has stopped reads every record of the log once, in the order
/// written: the records sent over all rounds are the records of the whole log.
pub proof fn law_tailing_reads_every_record_once(log: Seq<u8>, chunks: Seq<Seq<u8>>)
    requires
        tails_log(log, 0, chunks),
    ensures
        tail_records(chunks) == spec_read_records(log),
{
    lemma_tail_from(log, 0, chunks);
    assert(log.skip(0) =~= log);
}

} // verus!
