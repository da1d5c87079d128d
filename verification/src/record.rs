use vstd::prelude::*;

verus! {

/// Which output stream of a process a log record was read from.
#[derive(Clone, Copy, Debug, PartialEq, Eq, Structural)]
pub enum RecordType {
    Stdout,
    Stderr,
}

/// The byte that stands for a record type in the header of a record.
pub open spec fn type_byte(record_type: RecordType) -> u8 {
    match record_type {
        RecordType::Stdout => 0u8,
        RecordType::Stderr => 1u8,
    }
}

/// The record type a header byte stands for, if any.
pub open spec fn type_of_byte(byte: u8) -> Option<RecordType> {
    if byte == 0 {
        Some(RecordType::Stdout)
    } else if byte == 1 {
        Some(RecordType::Stderr)
    } else {
        None
    }
}

impl RecordType {
    /// The header byte of this record type.
    pub fn to_u8(self) -> (byte: u8)
        ensures
            byte == type_byte(self),
    {
        match self {
            RecordType::Stdout => 0,
            RecordType::Stderr => 1,
        }
    }

    /// The record type that a header byte stands for; `Err(())` for any other byte.
    pub fn try_from(value: u8) -> (result: Result<RecordType, ()>)
        ensures
            match type_of_byte(value) {
                Some(t) => result == Ok::<RecordType, ()>(t),
                None => result is Err,
            },
    {
        if value == 0 {
            Ok(RecordType::Stdout)
        } else if value == 1 {
            Ok(RecordType::Stderr)
        } else {
            Err(())
        }
    }
}

/// Length of a record header: one byte of record type plus eight bytes of data length.
pub const HEADER_LENGTH: usize = 9;

/// A log record: the stream it was read from plus a chunk of binary data read from the process.
#[derive(Debug)]
pub struct Record {
    pub record_type: RecordType,
    pub data: Vec<u8>,
}

impl View for Record {
    type V = (RecordType, Seq<u8>);

    open spec fn view(&self) -> (RecordType, Seq<u8>) {
        (self.record_type, self.data@)
    }
}

/// Whether two byte slices hold the same bytes.
pub fn bytes_equal(a: &[u8], b: &[u8]) -> (same: bool)
    ensures
        same == (a@ == b@),
{
    if a.len() != b.len() {
        return false;
    }
    let mut i: usize = 0;
    while i < a.len()
        invariant
            a@.len() == b@.len(),
            i <= a@.len(),
            forall|j: int| 0 <= j < i ==> a@[j] == b@[j],
        decreases a@.len() - i,
    {
        if a[i] != b[i] {
            return false;
        }
        i = i + 1;
    }
    assert(a@ =~= b@);
    true
}

impl PartialEq for Record {
    fn eq(&self, other: &Record) -> (same: bool) {
        self.record_type == other.record_type && bytes_equal(self.data.as_slice(), other.data.as_slice())
    }
}

impl vstd::std_specs::cmp::PartialEqSpecImpl for Record {
    open spec fn obeys_eq_spec() -> bool {
        true
    }

    open spec fn eq_spec(&self, other: &Record) -> bool {
        self@ == other@
    }
}

impl Record {
    /// Number of bytes the record takes in a log: its header plus its data.
    pub fn len(&self) -> (n: usize)
        requires
            self.data@.len() + HEADER_LENGTH <= usize::MAX,
        ensures
            n == HEADER_LENGTH + self.data@.len(),
    {
        HEADER_LENGTH + self.data.len()
    }
}

} // verus!
