use vstd::prelude::*;
use vstd::slice::{slice_subrange, slice_to_vec};

use crate::record::{Record, RecordType};

verus! {

/// Upper limit on the number of bytes read from a process's stdout or stderr in one go. With a
/// record header, this bounds the size of a log record.
pub const READ_CHUNK_SIZE: usize = 1024;

/// The record that one read of a process's output makes: the first `n` bytes of `buffer` as a
/// record of the given type, or `None` where the read found the end of the output (`n == 0`),
/// which ends the reading.
pub fn output_record(record_type: RecordType, buffer: &[u8], n: usize) -> (record: Option<Record>)
    requires
        n <= buffer@.len(),
    ensures
        n == 0 ==> record is None,
        n > 0 ==> (record matches Some(r) && r@ == (record_type, buffer@.take(n as int))),
{
    if n == 0 {
        None
    } else {
        let data = slice_to_vec(slice_subrange(buffer, 0, n));
        Some(Record { record_type, data })
    }
}

/// A command to run as a supervised process: an executable plus its arguments.
pub struct Supervisor {
    executable: String,
    arguments: Vec<String>,
}

/// The texts of a sequence of strings.
pub open spec fn texts(strings: Seq<String>) -> Seq<Seq<char>> {
    strings.map_values(|s: String| s@)
}

impl View for Supervisor {
    type V = (Seq<char>, Seq<Seq<char>>);

    closed spec fn view(&self) -> (Seq<char>, Seq<Seq<char>>) {
        (self.executable@, texts(self.arguments@))
    }
}

impl Supervisor {
    /// A supervisor for running `executable` with `args`.
    pub fn new(executable: &str, args: &[String]) -> (result: Result<Supervisor, std::io::Error>)
        ensures
            result matches Ok(s) && s@ == (executable@, texts(args@)),
    {
        let mut arguments: Vec<String> = Vec::new();
        let mut i: usize = 0;
        while i < args.len()
            invariant
                i <= args@.len(),
                texts(arguments@) == texts(args@.take(i as int)),
            decreases args@.len() - i,
        {
            let ghost before = arguments@;
            let arg = args[i].clone();
            assert(arg@ == args@[i as int]@);
            arguments.push(arg);
            assert(texts(arguments@) =~= texts(before).push(args@[i as int]@));
            assert(texts(args@.take(i + 1)) =~= texts(args@.take(i as int)).push(args@[i as int]@));
            i = i + 1;
        }
        assert(args@.take(args@.len() as int) =~= args@);
        Ok(Supervisor { executable: executable.to_owned(), arguments })
    }

    /// The executable to run.
    pub fn executable(&self) -> (executable: &str)
        ensures
            executable@ == self@.0,
    {
        self.executable.as_str()
    }

    /// The arguments to run the executable with.
    pub fn arguments(&self) -> (arguments: &[String])
        ensures
            texts(arguments@) == self@.1,
    {
        self.arguments.as_slice()
    }
}

} // verus!
