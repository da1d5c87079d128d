use vstd::prelude::*;

verus! {

/// The lowercase hexadecimal digit for `d`.
pub open spec fn hex_char(d: u128) -> char {
    if d < 10 {
        (48 + d) as char
    } else {
        (87 + d) as char
    }
}

/// The 32 hexadecimal digits of `v`, most significant first.
pub open spec fn hex_digits(v: u128) -> Seq<char> {
    Seq::new(32, |i: int| hex_char((v >> ((124 - 4 * i) as u128)) & 0xf))
}

/// The hyphenated form of a UUID with value `v`: its hexadecimal digits in groups of 8, 4, 4, 4
/// and 12, joined by hyphens.
pub open spec fn hyphenated(v: u128) -> Seq<char> {
    let h = hex_digits(v);
    h.subrange(0, 8) + seq!['-'] + h.subrange(8, 12) + seq!['-'] + h.subrange(12, 16) + seq!['-']
        + h.subrange(16, 20) + seq!['-'] + h.subrange(20, 32)
}

/// The value of a hexadecimal digit of either case.
pub open spec fn hex_digit_value(c: char) -> Option<int> {
    let x = c as int;
    if 48 <= x <= 57 {
        Some(x - 48)
    } else if 97 <= x <= 102 {
        Some(x - 87)
    } else if 65 <= x <= 70 {
        Some(x - 55)
    } else {
        None
    }
}

/// The number that hexadecimal digits spell, most significant first, if all are digits.
pub open spec fn hex_number(digits: Seq<char>) -> Option<int>
    decreases digits.len(),
{
    if digits.len() == 0 {
        Some(0)
    } else {
        match (hex_number(digits.drop_last()), hex_digit_value(digits.last())) {
            (Some(high), Some(low)) => Some(high * 16 + low),
            _ => None,
        }
    }
}

/// The value that a 36-character text of 32 hexadecimal digits in groups of 8, 4, 4, 4 and 12,
/// joined by hyphens, spells.
pub open spec fn hyphenated_value(t: Seq<char>) -> Option<int> {
    if t.len() == 36 && t[8] == '-' && t[13] == '-' && t[18] == '-' && t[23] == '-' {
        hex_number(
            t.subrange(0, 8) + t.subrange(9, 13) + t.subrange(14, 18) + t.subrange(19, 23)
                + t.subrange(24, 36),
        )
    } else {
        None
    }
}

/// What `uuid::Uuid::parse_str` gives for a text: the value of the UUID it spells, if any. It
/// spells one as 32 hexadecimal digits, as those digits in the hyphenated groups, or as
/// `urn:uuid:` followed by the hyphenated groups; digits may be of either case.
pub open spec fn uuid_parse(text: Seq<char>) -> Option<u128> {
    let value = if text.len() == 45 && text.subrange(0, 9) == "urn:uuid:"@ {
        hyphenated_value(text.skip(9))
    } else if text.len() == 36 {
        hyphenated_value(text)
    } else if text.len() == 32 {
        hex_number(text)
    } else {
        None
    };
    match value {
        Some(n) => Some(n as u128),
        None => None,
    }
}

/// One more hexadecimal digit of `v`: the digits down to bit `s` spell `v >> s`.
proof fn lemma_next_digit(v: u128, s: u128)
    requires
        s <= 120,
    ensures
        ((v >> (s + 4)) as int) * 16 + (((v >> s) & 0xf) as int) == (v >> s) as int,
{
    assert(((v >> (s + 4)) << 4u128) | ((v >> s) & 0xf) == v >> s) by (bit_vector)
        requires s <= 120;
    assert(((v >> (s + 4)) << 4u128) == (v >> (s + 4)) * 16) by (bit_vector)
        requires s <= 120;
    assert(((v >> (s + 4)) << 4u128) | ((v >> s) & 0xf) == ((v >> (s + 4)) << 4u128) + ((v >> s) & 0xf)) by (bit_vector);
}

/// The digit that `hex_char` writes reads back as its value.
proof fn lemma_hex_char(d: u128)
    requires
        d < 16,
    ensures
        hex_digit_value(hex_char(d)) == Some(d as int),
{
}

/// The first `k` hexadecimal digits of `v` spell `v` without its last `32 - k` digits.
proof fn lemma_hex_prefix(v: u128, k: int)
    requires
        1 <= k <= 32,
    ensures
        hex_number(hex_digits(v).take(k)) == Some((v >> ((128 - 4 * k) as u128)) as int),
    decreases k,
{
    let d = hex_digits(v);
    let s = (128 - 4 * k) as u128;
    assert(d.take(k).drop_last() =~= d.take(k - 1));
    assert((v >> s) & 0xf < 16) by (bit_vector);
    lemma_hex_char((v >> s) & 0xf);
    if k == 1 {
        assert(d.take(0) =~= Seq::<char>::empty());
        assert(v >> 124u128 == (v >> 124u128) & 0xf) by (bit_vector);
    } else {
        lemma_hex_prefix(v, k - 1);
        lemma_next_digit(v, s);
        assert((128 - 4 * (k - 1)) as u128 == s + 4);
    }
}

/// A job identifier's text parses back to it: the hyphenated form of a value spells that value.
pub proof fn law_job_id_text_parses_back(v: u128)
    ensures
        uuid_parse(hyphenated(v)) == Some(v),
{
    let h = hex_digits(v);
    let t = hyphenated(v);
    assert(t.len() == 36);
    assert(t[8] == '-' && t[13] == '-' && t[18] == '-' && t[23] == '-');
    assert(t.subrange(0, 8) + t.subrange(9, 13) + t.subrange(14, 18) + t.subrange(19, 23)
        + t.subrange(24, 36) =~= h);
    lemma_hex_prefix(v, 32);
    assert(h.take(32) =~= h);
    assert(v >> 0u128 == v) by (bit_vector);
}

/// Whether `v` is the value of a random (version 4) UUID of the RFC 4122 variant: the version
/// field (the high half of byte 6) is 4 and the variant field (the top two bits of byte 8) is
/// binary 10. The other 122 bits are free.
pub open spec fn is_random_uuid(v: u128) -> bool {
    (v >> 76u128) & 0xfu128 == 4 && (v >> 62u128) & 0x3u128 == 2
}

/// `uuid::Uuid::new_v4`: a random UUID, as its 128-bit value. Of the value only its version and
/// variant fields are stated, which `new_v4` sets; the rest is random. `new_v4` panics where the
/// operating system yields no random bytes.
#[verifier::external_body]
fn random_uuid() -> (value: u128)
    ensures
        is_random_uuid(value),
{
    uuid::Uuid::new_v4().as_u128()
}

/// `uuid::Uuid::to_string` on `Uuid::from_u128(value)`: the UUID in its lowercase hyphenated form.
#[verifier::external_body]
fn uuid_to_string(value: u128) -> (text: String)
    ensures
        text@ == hyphenated(value),
{
    uuid::Uuid::from_u128(value).to_string()
}

/// `uuid::Uuid::parse_str`, with the UUID it gives taken by its 128-bit value: `uuid_parse`
/// of the text.
#[verifier::external_body]
fn parse_uuid(text: &str) -> (value: Option<u128>)
    ensures
        value == uuid_parse(text@),
{
    match uuid::Uuid::parse_str(text) {
        Ok(u) => Some(u.as_u128()),
        Err(_) => None,
    }
}

/// A unique job identifier: a UUID, held by its 128-bit value.
#[derive(Clone, Copy, Debug, PartialEq, Eq, Structural)]
pub struct JobId {
    value: u128,
}

impl View for JobId {
    type V = u128;

    closed spec fn view(&self) -> u128 {
        self.value
    }
}

impl JobId {
    /// A new random job identifier: a random (version 4, RFC 4122 variant) UUID.
    pub fn new() -> (id: JobId)
        ensures
            is_random_uuid(id@),
    {
        JobId { value: random_uuid() }
    }

    /// The job identifier with the given UUID value.
    pub fn from_u128(value: u128) -> (id: JobId)
        ensures
            id@ == value,
    {
        JobId { value }
    }

    /// The UUID value of the identifier.
    pub fn as_u128(&self) -> (value: u128)
        ensures
            value == self@,
    {
        self.value
    }

    /// The identifier in the lowercase hyphenated form of its UUID.
    pub fn to_string(&self) -> (text: String)
        ensures
            text@ == hyphenated(self@),
    {
        uuid_to_string(self.value)
    }

    /// The identifier for the outcome of parsing the text of a UUID: the UUID's value, or
    /// `None` where the text spelled none.
    pub fn from_parsed(parsed: Option<u128>) -> (result: Result<JobId, ()>)
        ensures
            match parsed {
                Some(v) => result matches Ok(id) && id@ == v,
                None => result is Err,
            },
    {
        match parsed {
            Some(value) => Ok(JobId { value }),
            None => Err(()),
        }
    }

    /// Parses an identifier from the text of a UUID; `Err(())` where the text spells none.
    pub fn from_str(text: &str) -> (result: Result<JobId, ()>)
        ensures
            match uuid_parse(text@) {
                Some(v) => result matches Ok(id) && id@ == v,
                None => result is Err,
            },
            forall|v: u128| text@ == hyphenated(v) ==> (result matches Ok(id) && id@ == v),
    {
        proof {
            assert forall|v: u128| text@ == hyphenated(v) implies uuid_parse(text@) == Some(v) by {
                law_job_id_text_parses_back(v);
            }
        }
        JobId::from_parsed(parse_uuid(text))
    }
}

/// Why an operation on jobs failed.
#[derive(Clone, Copy, Debug, PartialEq, Eq, Structural)]
pub enum JobError {
    /// No job has the given identifier (for the given user).
    NoSuchJob,
    /// The job has been started before.
    AlreadyStarted,
}

impl JobError {
    /// The message that reports the error.
    pub fn message(&self) -> (text: String)
        ensures
            text@ == match self {
                JobError::NoSuchJob => "no such job id"@,
                JobError::AlreadyStarted => "cannot start a job that has already been started"@,
            },
    {
        match self {
            JobError::NoSuchJob => String::from_str("no such job id"),
            JobError::AlreadyStarted => String::from_str(
                "cannot start a job that has already been started",
            ),
        }
    }
}

/// The lifecycle state of a job.
#[derive(Clone, Copy, Debug, PartialEq, Eq, Structural)]
pub enum JobState {
    /// Created but not started yet.
    Created,
    /// Its process has been started and has not been seen to end.
    Running,
    /// Its process exited on its own with the given status.
    Exited { exit_status: i32 },
    /// It was stopped, or its process ended without an exit status.
    Stopped,
}

/// The status of a job as reported to users.
#[derive(Clone, Copy, Debug, PartialEq, Eq, Structural)]
pub enum Status {
    Running,
    Exited { exit_status: i32 },
    Stopped,
}

/// What the channel that delivers the exit status of a job's process says when polled.
#[derive(Clone, Copy, Debug, PartialEq, Eq, Structural)]
pub enum ExitEvent {
    /// Nothing yet: the process is still running.
    Pending,
    /// The process ended, with its exit code, or `None` where a signal ended it.
    Ended(Option<i32>),
    /// The channel was closed without an exit status.
    Closed,
}

/// The state a job is in after its exit-status channel said `event`.
pub open spec fn state_after(state: JobState, event: ExitEvent) -> JobState {
    match state {
        JobState::Running => match event {
            ExitEvent::Pending => JobState::Running,
            ExitEvent::Ended(Some(code)) => JobState::Exited { exit_status: code },
            ExitEvent::Ended(None) => JobState::Stopped,
            ExitEvent::Closed => JobState::Stopped,
        },
        _ => state,
    }
}

/// The status reported for a job in the given state.
pub open spec fn status_of(state: JobState) -> Status {
    match state {
        JobState::Created => Status::Running,
        JobState::Running => Status::Running,
        JobState::Exited { exit_status } => Status::Exited { exit_status },
        JobState::Stopped => Status::Stopped,
    }
}

impl JobState {
    /// The state of a job that has just been created.
    pub fn new() -> (state: JobState)
        ensures
            state == JobState::Created,
    {
        JobState::Created
    }

    /// Whether the job may be started: only a job that was never started may.
    pub fn check_start(&self) -> (result: Result<(), JobError>)
        ensures
            result is Ok <==> *self == JobState::Created,
            result is Err ==> result == Err::<(), JobError>(JobError::AlreadyStarted),
    {
        match self {
            JobState::Created => Ok(()),
            _ => Err(JobError::AlreadyStarted),
        }
    }

    /// Records that the job's process has been started.
    pub fn mark_running(&mut self)
        requires
            *old(self) == JobState::Created,
        ensures
            *final(self) == JobState::Running,
    {
        *self = JobState::Running;
    }

    /// Takes in what the job's exit-status channel said.
    pub fn update(&mut self, event: ExitEvent)
        ensures
            *final(self) == state_after(*old(self), event),
    {
        match self {
            JobState::Running => match event {
                ExitEvent::Pending => {},
                ExitEvent::Ended(Some(code)) => {
                    *self = JobState::Exited { exit_status: code };
                },
                ExitEvent::Ended(None) => {
                    *self = JobState::Stopped;
                },
                ExitEvent::Closed => {
                    *self = JobState::Stopped;
                },
            },
            _ => {},
        }
    }

    /// The job's status, after taking in what its exit-status channel said.
    pub fn status(&mut self, event: ExitEvent) -> (status: Status)
        ensures
            *final(self) == state_after(*old(self), event),
            status == status_of(*final(self)),
    {
        self.update(event);
        match self {
            JobState::Created => Status::Running,
            JobState::Running => Status::Running,
            JobState::Exited { exit_status } => Status::Exited { exit_status: *exit_status },
            JobState::Stopped => Status::Stopped,
        }
    }

    /// Stops the job, after taking in what its exit-status channel said. Returns whether the
    /// process is still running and must be sent the stop signal.
    pub fn stop(&mut self, event: ExitEvent) -> (send_stop_signal: bool)
        ensures
            *final(self) == JobState::Stopped,
            send_stop_signal == (state_after(*old(self), event) == JobState::Running),
    {
        self.update(event);
        let running = match self {
            JobState::Running => true,
            _ => false,
        };
        *self = JobState::Stopped;
        running
    }
}

/// What a running job's exit channel says decides its next state: an exit code is kept as the
/// job's exit status, an end without a code (a signal) or a closed channel stops the job, and
/// nothing yet leaves it running.
pub proof fn law_running_job_follows_its_process(code: i32)
    ensures
        state_after(JobState::Running, ExitEvent::Ended(Some(code))) == (JobState::Exited {
            exit_status: code,
        }),
        state_after(JobState::Running, ExitEvent::Ended(None)) == JobState::Stopped,
        state_after(JobState::Running, ExitEvent::Closed) == JobState::Stopped,
        state_after(JobState::Running, ExitEvent::Pending) == JobState::Running,
{
}

/// The status reported for each state: a job that was created or is running reports
/// `Running`, an exited job reports its exit status unchanged, and a stopped job `Stopped`.
pub proof fn law_status_reports_state(exit_status: i32)
    ensures
        status_of(JobState::Created) == Status::Running,
        status_of(JobState::Running) == Status::Running,
        status_of(JobState::Exited { exit_status }) == (Status::Exited { exit_status }),
        status_of(JobState::Stopped) == Status::Stopped,
{
}

/// A running job whose process exits with a code reports that code when its status is queried.
pub proof fn law_exit_status_is_reported(code: i32)
    ensures
        status_of(state_after(JobState::Running, ExitEvent::Ended(Some(code)))) == (
        Status::Exited { exit_status: code }),
{
}

/// A job whose process has ended keeps its final state, whatever its channel says later.
pub proof fn law_ended_jobs_stay_ended(state: JobState, event: ExitEvent)
    requires
        state is Exited || state is Stopped,
    ensures
        state_after(state, event) == state,
        status_of(state_after(state, event)) == status_of(state),
{
}

/// A job is never created again: no event brings a started job back to the state in which it
/// may be started.
pub proof fn law_started_jobs_cannot_restart(state: JobState, event: ExitEvent)
    requires
        state != JobState::Created,
    ensures
        state_after(state, event) != JobState::Created,
{
}

/// A stopped job reports `Stopped` from then on.
pub proof fn law_stopped_jobs_report_stopped(event: ExitEvent)
    ensures
        status_of(state_after(JobState::Stopped, event)) == Status::Stopped,
{
}

/// Who owns a job, and which job: users see only the jobs that they started.
pub struct JobKey {
    pub owner: String,
    pub id: JobId,
}

impl View for JobKey {
    type V = (Seq<char>, u128);

    open spec fn view(&self) -> (Seq<char>, u128) {
        (self.owner@, self.id@)
    }
}

/// Whether two keys name the same job of the same owner.
fn same_key(a: &JobKey, b: &JobKey) -> (same: bool)
    ensures
        same == (a@ == b@),
{
    a.id == b.id && a.owner == b.owner
}

/// Jobs under their keys: the job at position `i` of `jobs` has the key at position `i` of
/// `keys`, and no key occurs twice (where `wf` holds).
///
/// This stands where a `HashMap` keyed by `JobKey` might: vstd specifies `HashMap` only for keys
/// that obey its key model, which it grants to primitive integer and `bool` keys (and boxes of
/// them), and a key that holds the owner's name as a `String` is not among them.
struct JobTable<T> {
    keys: Vec<JobKey>,
    jobs: Vec<T>,
}

impl<T> JobTable<T> {
    /// The jobs by key.
    closed spec fn view(&self) -> Map<(Seq<char>, u128), T> {
        Map::new(
            |k: (Seq<char>, u128)| exists|i: int| 0 <= i < self.keys@.len() && self.keys@[i]@ == k,
            |k: (Seq<char>, u128)| self.jobs@[self.index_of(k)],
        )
    }

    /// Where the key `k` stands.
    closed spec fn index_of(&self, k: (Seq<char>, u128)) -> int {
        choose|i: int| 0 <= i < self.keys@.len() && self.keys@[i]@ == k
    }

    /// Each key has its job, and no key occurs twice.
    closed spec fn wf(&self) -> bool {
        &&& self.keys@.len() == self.jobs@.len()
        &&& forall|i: int, j: int|
            0 <= i < self.keys@.len() && 0 <= j < self.keys@.len() && i != j
                ==> self.keys@[i]@ != self.keys@[j]@
    }

    fn new() -> (table: JobTable<T>)
        ensures
            table.wf(),
            table.view() == Map::<(Seq<char>, u128), T>::empty(),
    {
        let table = JobTable { keys: Vec::new(), jobs: Vec::new() };
        assert(table.view() =~= Map::<(Seq<char>, u128), T>::empty());
        table
    }

    /// Where the given key stands, if it is there.
    fn find(&self, key: &JobKey) -> (index: Option<usize>)
        ensures
            match index {
                Some(i) => i < self.keys@.len() && self.keys@[i as int]@ == key@,
                None => forall|i: int| 0 <= i < self.keys@.len() ==> self.keys@[i]@ != key@,
            },
    {
        let mut i: usize = 0;
        while i < self.keys.len()
            invariant
                i <= self.keys@.len(),
                forall|j: int| 0 <= j < i ==> self.keys@[j]@ != key@,
            decreases self.keys@.len() - i,
        {
            if same_key(&self.keys[i], key) {
                return Some(i);
            }
            i = i + 1;
        }
        None
    }

    /// The job at position `i` is the one the view holds under its key.
    proof fn lemma_entry(&self, i: int)
        requires
            self.wf(),
            0 <= i < self.keys@.len(),
        ensures
            self.view().contains_key(self.keys@[i]@),
            self.view()[self.keys@[i]@] == self.jobs@[i],
    {
        let k = self.keys@[i]@;
        assert(self.view().dom().contains(k));
        let j = self.index_of(k);
        assert(0 <= j < self.keys@.len() && self.keys@[j]@ == k);
    }

    /// A key that is not there is not in the view.
    proof fn lemma_absent(&self, k: (Seq<char>, u128))
        requires
            forall|i: int| 0 <= i < self.keys@.len() ==> self.keys@[i]@ != k,
        ensures
            !self.view().contains_key(k),
    {
    }

    /// Two tables whose views agree key by key have the same view.
    proof fn lemma_same_view(after: JobTable<T>, expected: Map<(Seq<char>, u128), T>)
        requires
            forall|k2: (Seq<char>, u128)|
                #![trigger after.view().contains_key(k2)]
                after.view().contains_key(k2) == expected.contains_key(k2) && (
                after.view().contains_key(k2) ==> after.view()[k2] == expected[k2]),
        ensures
            after.view() == expected,
    {
        assert(after.view() =~= expected);
    }

    /// Replacing the job at position `i` replaces the job under its key.
    proof fn lemma_set_job(before: JobTable<T>, after: JobTable<T>, i: int, v: T)
        requires
            before.wf(),
            0 <= i < before.keys@.len(),
            after.keys@ == before.keys@,
            after.jobs@ == before.jobs@.update(i, v),
        ensures
            after.wf(),
            after.view() == before.view().insert(before.keys@[i]@, v),
    {
        let k = before.keys@[i]@;
        assert forall|k2: (Seq<char>, u128)|
            #![trigger after.view().contains_key(k2)]
            after.view().contains_key(k2) == before.view().insert(k, v).contains_key(k2) && (
            after.view().contains_key(k2) ==> after.view()[k2] == before.view().insert(k, v)[k2]) by {
            if exists|m: int| 0 <= m < after.keys@.len() && after.keys@[m]@ == k2 {
                let m = choose|m: int| 0 <= m < after.keys@.len() && after.keys@[m]@ == k2;
                after.lemma_entry(m);
                if m != i {
                    before.lemma_entry(m);
                    assert(before.keys@[m]@ != before.keys@[i]@);
                }
            } else {
                after.lemma_absent(k2);
                before.lemma_absent(k2);
            }
        }
        Self::lemma_same_view(after, before.view().insert(k, v));
    }

    /// Stores `job` under `key`, in place of the job stored there before, if any.
    fn insert(&mut self, key: JobKey, job: T)
        requires
            old(self).wf(),
        ensures
            final(self).wf(),
            final(self).view() == old(self).view().insert(key@, job),
    {
        let ghost before = *self;
        let ghost k = key@;
        match self.find(&key) {
            Some(i) => {
                self.jobs.set(i, job);
                proof {
                    Self::lemma_set_job(before, *self, i as int, job);
                }
            },
            None => {
                self.keys.push(key);
                self.jobs.push(job);
                proof {
                    let n = before.keys@.len() as int;
                    assert forall|a: int, b: int|
                        0 <= a < self.keys@.len() && 0 <= b < self.keys@.len() && a != b
                            implies self.keys@[a]@ != self.keys@[b]@ by {
                        if a < n && b < n {
                            assert(before.keys@[a]@ != before.keys@[b]@);
                        }
                    }
                    assert forall|k2: (Seq<char>, u128)|
                        #![trigger self.view().contains_key(k2)]
                        self.view().contains_key(k2) == before.view().insert(k, job).contains_key(
                            k2,
                        ) && (self.view().contains_key(k2) ==> self.view()[k2] == before.view().insert(
                            k,
                            job,
                        )[k2]) by {
                        if exists|m: int| 0 <= m < self.keys@.len() && self.keys@[m]@ == k2 {
                            let m = choose|m: int| 0 <= m < self.keys@.len() && self.keys@[m]@ == k2;
                            self.lemma_entry(m);
                            if m != n {
                                before.lemma_entry(m);
                                assert(before.keys@[m]@ != k);
                            }
                        } else {
                            assert(self.keys@[n]@ == k);
                            self.lemma_absent(k2);
                            assert forall|m: int| 0 <= m < before.keys@.len() implies before.keys@[m]@
                                != k2 by {
                                assert(self.keys@[m]@ != k2);
                            }
                            before.lemma_absent(k2);
                        }
                    }
                    Self::lemma_same_view(*self, before.view().insert(k, job));
                }
            },
        }
    }

    /// Takes out the job stored under `key`; `NoSuchJob` where there is none.
    fn remove(&mut self, key: &JobKey) -> (result: Result<T, JobError>)
        requires
            old(self).wf(),
        ensures
            final(self).wf(),
            old(self).view().contains_key(key@) ==> result == Ok::<T, JobError>(
                old(self).view()[key@],
            ) && final(self).view() == old(self).view().remove(key@),
            !old(self).view().contains_key(key@) ==> result == Err::<T, JobError>(
                JobError::NoSuchJob,
            ) && final(self).view() == old(self).view(),
    {
        let ghost before = *self;
        let ghost k = key@;
        match self.find(key) {
            Some(i) => {
                proof {
                    before.lemma_entry(i as int);
                }
                self.keys.remove(i);
                let job = self.jobs.remove(i);
                proof {
                    assert forall|m: int| 0 <= m < self.keys@.len() implies #[trigger] self.keys@[m]
                        == before.keys@[if m < i { m } else { m + 1 }] && self.jobs@[m]
                        == before.jobs@[if m < i { m } else { m + 1 }] by {}
                    assert forall|a: int, b: int|
                        0 <= a < self.keys@.len() && 0 <= b < self.keys@.len() && a != b
                            implies self.keys@[a]@ != self.keys@[b]@ by {
                        let a2 = if a < i { a } else { a + 1 };
                        let b2 = if b < i { b } else { b + 1 };
                        assert(before.keys@[a2]@ != before.keys@[b2]@);
                    }
                    assert forall|k2: (Seq<char>, u128)|
                        #![trigger self.view().contains_key(k2)]
                        self.view().contains_key(k2) == before.view().remove(k).contains_key(k2) && (
                        self.view().contains_key(k2) ==> self.view()[k2] == before.view().remove(
                            k,
                        )[k2]) by {
                        if exists|m: int| 0 <= m < self.keys@.len() && self.keys@[m]@ == k2 {
                            let m = choose|m: int| 0 <= m < self.keys@.len() && self.keys@[m]@ == k2;
                            let m2 = if m < i { m } else { m + 1 };
                            self.lemma_entry(m);
                            before.lemma_entry(m2);
                            assert(m2 != i);
                            assert(before.keys@[m2]@ != before.keys@[i as int]@);
                        } else {
                            self.lemma_absent(k2);
                            if k2 != k {
                                assert forall|m: int| 0 <= m < before.keys@.len() implies before.keys@[m]@
                                    != k2 by {
                                    if m < i {
                                        assert(self.keys@[m]@ != k2);
                                    } else if m > i {
                                        assert(self.keys@[m - 1]@ != k2);
                                    }
                                }
                                before.lemma_absent(k2);
                            }
                        }
                    }
                    Self::lemma_same_view(*self, before.view().remove(k));
                }
                Ok(job)
            },
            None => {
                proof {
                    before.lemma_absent(k);
                }
                Err(JobError::NoSuchJob)
            },
        }
    }

    /// The job stored under `key`; `NoSuchJob` where there is none.
    fn get(&self, key: &JobKey) -> (result: Result<&T, JobError>)
        requires
            self.wf(),
        ensures
            self.view().contains_key(key@) ==> result == Ok::<&T, JobError>(&self.view()[key@]),
            !self.view().contains_key(key@) ==> result == Err::<&T, JobError>(JobError::NoSuchJob),
    {
        match self.find(key) {
            Some(i) => {
                proof {
                    self.lemma_entry(i as int);
                }
                Ok(&self.jobs[i])
            },
            None => {
                proof {
                    self.lemma_absent(key@);
                }
                Err(JobError::NoSuchJob)
            },
        }
    }
}

/// The jobs of the service, each under the key of its owner and identifier.
pub struct Jobs<T> {
    table: JobTable<T>,
}

impl<T> Jobs<T> {
    /// The jobs by key.
    pub closed spec fn view(&self) -> Map<(Seq<char>, u128), T> {
        self.table.view()
    }

    /// No key occurs twice.
    #[verifier::type_invariant]
    closed spec fn keys_distinct(&self) -> bool {
        self.table.wf()
    }

    /// No jobs.
    pub fn new() -> (jobs: Jobs<T>)
        ensures
            jobs.view() == Map::<(Seq<char>, u128), T>::empty(),
    {
        Jobs { table: JobTable::new() }
    }

    /// Stores `job` under `key`, in place of the job stored there before, if any.
    pub fn insert(&mut self, key: JobKey, job: T)
        ensures
            final(self).view() == old(self).view().insert(key@, job),
    {
        proof {
            use_type_invariant(&*self);
        }
        let mut table = JobTable::new();
        std::mem::swap(&mut table, &mut self.table);
        table.insert(key, job);
        self.table = table;
    }

    /// Takes out the job stored under `key`; `NoSuchJob` where there is none.
    pub fn remove(&mut self, key: &JobKey) -> (result: Result<T, JobError>)
        ensures
            old(self).view().contains_key(key@) ==> result == Ok::<T, JobError>(
                old(self).view()[key@],
            ) && final(self).view() == old(self).view().remove(key@),
            !old(self).view().contains_key(key@) ==> result == Err::<T, JobError>(
                JobError::NoSuchJob,
            ) && final(self).view() == old(self).view(),
    {
        proof {
            use_type_invariant(&*self);
        }
        let mut table = JobTable::new();
        std::mem::swap(&mut table, &mut self.table);
        let result = table.remove(key);
        self.table = table;
        result
    }

    /// The job stored under `key`; `NoSuchJob` where there is none.
    pub fn get(&self, key: &JobKey) -> (result: Result<&T, JobError>)
        ensures
            self.view().contains_key(key@) ==> result == Ok::<&T, JobError>(&self.view()[key@]),
            !self.view().contains_key(key@) ==> result == Err::<&T, JobError>(JobError::NoSuchJob),
    {
        proof {
            use_type_invariant(self);
        }
        self.table.get(key)
    }

    /// The job stored under `key`, to be changed in place; `NoSuchJob` where there is none.
    pub fn get_mut(&mut self, key: &JobKey) -> (result: Result<&mut T, JobError>)
        ensures
            old(self).view().contains_key(key@) ==> (result matches Ok(job) && *job == old(
                self,
            ).view()[key@]),
            old(self).view().contains_key(key@) ==> (result matches Ok(job) && final(self).view()
                == old(self).view().insert(key@, *final(job))),
            !old(self).view().contains_key(key@) ==> result == Err::<&mut T, JobError>(
                JobError::NoSuchJob,
            ) && final(self).view() == old(self).view(),
    {
        proof {
            use_type_invariant(&*self);
        }
        match self.table.find(key) {
            Some(i) => {
                proof {
                    let before = self.table;
                    let k = key@;
                    before.lemma_entry(i as int);
                    assert forall|after: JobTable<T>, v: T|
                        #![trigger after.view(), before.view().insert(k, v)]
                        after.keys@ == before.keys@ && after.jobs@ == before.jobs@.update(i as int, v)
                            implies after.wf() && after.view() == before.view().insert(k, v) by {
                        JobTable::lemma_set_job(before, after, i as int, v);
                    }
                }
                Ok(&mut self.table.jobs[i])
            },
            None => {
                proof {
                    self.table.lemma_absent(key@);
                }
                Err(JobError::NoSuchJob)
            },
        }
    }
}

/// Users see only their own jobs: where `after` is what `Jobs::insert` makes of `before` for one
/// user's job, another user finds under the same identifier what `Jobs::get` found before.
pub proof fn law_jobs_are_private<T>(
    before: Jobs<T>,
    after: Jobs<T>,
    owner: Seq<char>,
    other: Seq<char>,
    id: u128,
    job: T,
)
    requires
        owner != other,
        after.view() == before.view().insert((owner, id), job),
    ensures
        after.view().contains_key((other, id)) == before.view().contains_key((other, id)),
        before.view().contains_key((other, id)) ==> after.view()[(other, id)] == before.view()[(
            other,
            id,
        )],
{
}

/// A job that was stored is found: where `after` is what `Jobs::insert` makes of `before`,
/// `Jobs::get` and `Jobs::get_mut` find the job under its key.
pub proof fn law_stored_job_is_found<T>(
    before: Jobs<T>,
    after: Jobs<T>,
    key: (Seq<char>, u128),
    job: T,
)
    requires
        after.view() == before.view().insert(key, job),
    ensures
        after.view().contains_key(key),
        after.view()[key] == job,
{
}

/// A job that was taken out is gone: where `after` is what `Jobs::remove` makes of `before`,
/// whether or not the key was there, taking it out again finds no such job.
pub proof fn law_removed_job_is_gone<T>(before: Jobs<T>, after: Jobs<T>, key: (Seq<char>, u128))
    requires
        before.view().contains_key(key) ==> after.view() == before.view().remove(key),
        !before.view().contains_key(key) ==> after.view() == before.view(),
    ensures
        !after.view().contains_key(key),
{
}

} // verus!
