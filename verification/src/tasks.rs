//! Tasks and their execution state machine: a task moves from pending to
//! completed, dispatching its disclosure and storage policy with the stated
//! fallbacks and attempting its core operation under a bounded retry. The
//! core operation's outcomes arrive as plain values; completion records that
//! execution was attempted to exhaustion, not that it succeeded.

use vstd::prelude::*;

use crate::codec::{
    advance, push_bytes, push_u32_le, push_u64_le, read_slot_text, read_u32_le_at, read_u64_le_at,
    spec_advance, spec_byte_at, spec_fits_slot, spec_slot_of, spec_slot_text, spec_take_at,
    spec_text_of, spec_u32_le_at, spec_u64_le_at, take_at, write_slot, lemma_slot_roundtrip,
    read_byte_at,
};
use crate::strings::{str_eq, string_from_utf8};
use vstd::bytes::{
    lemma_auto_spec_u32_to_from_le_bytes, lemma_auto_spec_u64_to_from_le_bytes,
    spec_u32_to_le_bytes, spec_u64_to_le_bytes,
};
use vstd::assert_seqs_equal;
use vstd::string::StrSliceExecFns;
use vstd::utf8::{encode_utf8, encode_utf8_decode_utf8, encode_utf8_valid_utf8};

verus! {

/// A task's lifecycle state.
#[derive(Clone, Copy, Debug, PartialEq, Eq, Structural)]
pub enum TaskStatus {
    Pending,
    Completed,
}

/// How much a generated proof may expose.
#[derive(Clone, Copy, Debug, PartialEq, Eq, Structural)]
pub enum DisclosureLevel {
    Anonymous,
    Redacted,
    Full,
}

/// Where a generated proof is stored.
#[derive(Clone, Copy, Debug, PartialEq, Eq, Structural)]
pub enum StorageType {
    Chain,
    Ipfs,
    Encrypted,
}

/// The disclosure level a label names; unrecognized labels fall back to
/// full disclosure.
pub open spec fn spec_disclosure_of(s: Seq<char>) -> DisclosureLevel {
    if s == "anonymous"@ {
        DisclosureLevel::Anonymous
    } else if s == "redacted"@ {
        DisclosureLevel::Redacted
    } else {
        DisclosureLevel::Full
    }
}

/// Parses a disclosure label with the full-disclosure fallback.
pub fn parse_disclosure(s: &str) -> (r: DisclosureLevel)
    ensures
        r == spec_disclosure_of(s@),
{
    if str_eq(s, "anonymous") {
        DisclosureLevel::Anonymous
    } else if str_eq(s, "redacted") {
        DisclosureLevel::Redacted
    } else {
        DisclosureLevel::Full
    }
}

/// The storage target a label names; unrecognized labels fall back to
/// on-chain storage.
pub open spec fn spec_storage_of(s: Seq<char>) -> StorageType {
    if s == "chain"@ {
        StorageType::Chain
    } else if s == "ipfs"@ {
        StorageType::Ipfs
    } else if s == "encrypted"@ {
        StorageType::Encrypted
    } else {
        StorageType::Chain
    }
}

/// Parses a storage label with the on-chain fallback.
pub fn parse_storage(s: &str) -> (r: StorageType)
    ensures
        r == spec_storage_of(s@),
{
    if str_eq(s, "chain") {
        StorageType::Chain
    } else if str_eq(s, "ipfs") {
        StorageType::Ipfs
    } else if str_eq(s, "encrypted") {
        StorageType::Encrypted
    } else {
        StorageType::Chain
    }
}

/// A task's execution policy: a priority label, a delay, the retry bound,
/// and the disclosure and storage labels, kept as written and interpreted
/// with their fallbacks at dispatch time. Immutable once attached.
pub struct TaskConfig {
    pub priority: String,
    pub execution_delay: u64,
    pub retry_attempts: u8,
    pub disclosure_level: String,
    pub storage_type: String,
}

/// The mathematical content of a [`TaskConfig`].
#[verifier::ext_equal]
pub struct TaskConfigView {
    pub priority: Seq<char>,
    pub execution_delay: u64,
    pub retry_attempts: u8,
    pub disclosure_level: Seq<char>,
    pub storage_type: Seq<char>,
}

impl View for TaskConfig {
    type V = TaskConfigView;

    open spec fn view(&self) -> TaskConfigView {
        TaskConfigView {
            priority: self.priority@,
            execution_delay: self.execution_delay,
            retry_attempts: self.retry_attempts,
            disclosure_level: self.disclosure_level@,
            storage_type: self.storage_type@,
        }
    }
}

impl Clone for TaskConfig {
    fn clone(&self) -> (r: Self)
        ensures
            r@ == self@,
    {
        TaskConfig {
            priority: self.priority.clone(),
            execution_delay: self.execution_delay,
            retry_attempts: self.retry_attempts,
            disclosure_level: self.disclosure_level.clone(),
            storage_type: self.storage_type.clone(),
        }
    }
}

/// One unit of work within a reference.
pub struct Task {
    pub id: String,
    pub description: String,
    pub status: TaskStatus,
    pub timestamp: u64,
    pub config: Option<TaskConfig>,
}

/// The mathematical content of a [`Task`].
#[verifier::ext_equal]
pub struct TaskView {
    pub id: Seq<char>,
    pub description: Seq<char>,
    pub status: TaskStatus,
    pub timestamp: u64,
    pub config: Option<TaskConfigView>,
}

impl View for Task {
    type V = TaskView;

    open spec fn view(&self) -> TaskView {
        TaskView {
            id: self.id@,
            description: self.description@,
            status: self.status,
            timestamp: self.timestamp,
            config: match self.config {
                Option::Some(c) => Option::Some(c@),
                Option::None => Option::None,
            },
        }
    }
}

impl Clone for Task {
    fn clone(&self) -> (r: Self)
        ensures
            r@ == self@,
    {
        Task {
            id: self.id.clone(),
            description: self.description.clone(),
            status: self.status,
            timestamp: self.timestamp,
            config: match &self.config {
                Option::Some(c) => Option::Some(c.clone()),
                Option::None => Option::None,
            },
        }
    }
}

/// Whether attempt `i` of the core operation succeeds; outcomes beyond the
/// recorded ones count as failures.
pub open spec fn spec_outcome(outcomes: Seq<bool>, i: int) -> bool {
    0 <= i < outcomes.len() && outcomes[i]
}

/// How many attempts a retry run bounded by `bound` makes when its first
/// attempt is attempt `i`: attempts stop at the first success and never
/// exceed the bound.
pub open spec fn spec_attempts_from(bound: nat, outcomes: Seq<bool>, i: int) -> nat
    decreases bound,
{
    if bound == 0 {
        0
    } else if spec_outcome(outcomes, i) {
        1
    } else if bound == 1 {
        1
    } else {
        (1 + spec_attempts_from((bound - 1) as nat, outcomes, i + 1)) as nat
    }
}

/// How many attempts a bounded retry run makes against the given outcomes.
pub open spec fn spec_attempts(bound: nat, outcomes: Seq<bool>) -> nat {
    spec_attempts_from(bound, outcomes, 0)
}

/// A run never makes more attempts than its bound.
pub proof fn lemma_attempts_at_most_bound(bound: nat, outcomes: Seq<bool>, i: int)
    ensures
        spec_attempts_from(bound, outcomes, i) <= bound,
    decreases bound,
{
    if bound > 1 && !spec_outcome(outcomes, i) {
        lemma_attempts_at_most_bound((bound - 1) as nat, outcomes, i + 1);
    }
}

/// A bounded retry run whose core operation always fails makes exactly as
/// many attempts as its bound allows, and no more.
pub proof fn lemma_retry_exhausts_bound(bound: nat, outcomes: Seq<bool>)
    requires
        forall|i: int| 0 <= i < outcomes.len() ==> !outcomes[i],
    ensures
        spec_attempts(bound, outcomes) == bound,
{
    lemma_retry_exhausts_bound_from(bound, outcomes, 0);
}

/// The always-failing bound holds from any starting attempt.
pub proof fn lemma_retry_exhausts_bound_from(bound: nat, outcomes: Seq<bool>, i: int)
    requires
        forall|j: int| 0 <= j < outcomes.len() ==> !outcomes[j],
    ensures
        spec_attempts_from(bound, outcomes, i) == bound,
    decreases bound,
{
    if bound > 1 {
        lemma_retry_exhausts_bound_from((bound - 1) as nat, outcomes, i + 1);
    }
}

/// Runs the bounded retry loop: one attempt per outcome until the first
/// success, at most `bound` attempts.
fn run_attempts(bound: u8, outcomes: &Vec<bool>) -> (attempts: u64)
    ensures
        attempts == spec_attempts(bound as nat, outcomes@),
{
    let b = bound as usize;
    let mut calls: usize = 0;
    let mut done = false;
    while calls < b && !done
        invariant
            b == bound as nat,
            calls <= b,
            done ==> calls == spec_attempts(b as nat, outcomes@),
            !done ==> spec_attempts(b as nat, outcomes@) == calls + spec_attempts_from(
                (b - calls) as nat,
                outcomes@,
                calls as int,
            ),
        decreases b - calls + if done {
            0int
        } else {
            1int
        },
    {
        let succeeded = if calls < outcomes.len() {
            outcomes[calls]
        } else {
            false
        };
        proof {
            assert(succeeded == spec_outcome(outcomes@, calls as int));
        }
        calls += 1;
        if succeeded {
            done = true;
        }
    }
    proof {
        if !done {
            assert(calls == b);
            assert(spec_attempts_from((b - calls) as nat, outcomes@, calls as int) == 0);
        }
    }
    calls as u64
}

/// Disclosure hook for tasks whose policy is anonymous; a proving backend's
/// anonymous artifact generation attaches here.
pub fn generate_anonymous_proof(_task: &Task) {
}

/// Disclosure hook for tasks whose policy is redacted.
pub fn generate_redacted_proof(_task: &Task) {
}

/// Disclosure hook for tasks whose policy is full disclosure, the fallback.
pub fn generate_full_proof(_task: &Task) {
}

/// The number of attempts a task's policy allows: its retry bound with a
/// config, a single attempt without one.
pub open spec fn spec_task_attempts(config: Option<TaskConfigView>, outcomes: Seq<bool>) -> nat {
    match config {
        Option::Some(c) => spec_attempts(c.retry_attempts as nat, outcomes),
        Option::None => 1,
    }
}

/// The storage target a task's policy selects; on-chain without a config.
pub open spec fn spec_task_storage(config: Option<TaskConfigView>) -> StorageType {
    match config {
        Option::Some(c) => spec_storage_of(c.storage_type),
        Option::None => StorageType::Chain,
    }
}

/// Executes one task to completion: dispatches its disclosure policy, selects
/// its storage target, runs the bounded retry against the given outcomes, and
/// marks the task completed whatever the outcomes were. Returns the number of
/// attempts made and the storage target selected.
pub fn execute_single_task(task: &mut Task, outcomes: &Vec<bool>) -> (r: (u64, StorageType))
    ensures
        final(task)@ == (TaskView { status: TaskStatus::Completed, ..old(task)@ }),
        r.0 == spec_task_attempts(old(task)@.config, outcomes@),
        r.1 == spec_task_storage(old(task)@.config),
{
    let mut attempts: u64 = 1;
    let mut storage = StorageType::Chain;
    match &task.config {
        Option::Some(config) => {
            match parse_disclosure(config.disclosure_level.as_str()) {
                DisclosureLevel::Anonymous => generate_anonymous_proof(task),
                DisclosureLevel::Redacted => generate_redacted_proof(task),
                DisclosureLevel::Full => generate_full_proof(task),
            }
            storage = parse_storage(config.storage_type.as_str());
            attempts = run_attempts(config.retry_attempts, outcomes);
        },
        Option::None => {},
    }
    task.status = TaskStatus::Completed;
    (attempts, storage)
}

/// The byte a task status encodes to.
pub open spec fn spec_status_byte(s: TaskStatus) -> u8 {
    match s {
        TaskStatus::Pending => 0u8,
        TaskStatus::Completed => 1u8,
    }
}

/// The status a byte decodes to.
pub open spec fn spec_status_of_byte(b: u8) -> TaskStatus {
    if b == 1 {
        TaskStatus::Completed
    } else {
        TaskStatus::Pending
    }
}

/// The encoded form of a task config: the priority slot, the delay, the
/// retry bound, and the two policy label slots.
pub open spec fn spec_config_bytes(c: TaskConfigView) -> Seq<u8> {
    spec_slot_of(c.priority) + spec_u64_to_le_bytes(c.execution_delay) + seq![
        c.retry_attempts,
    ] + spec_slot_of(c.disclosure_level) + spec_slot_of(c.storage_type)
}

/// What the 105 bytes at `pos` decode to as a task config; short input
/// yields empty labels and zero numbers.
pub open spec fn spec_parse_config(b: Seq<u8>, pos: int) -> TaskConfigView {
    TaskConfigView {
        priority: spec_slot_text(spec_take_at(b, pos, 32)),
        execution_delay: spec_u64_le_at(b, pos + 32),
        retry_attempts: if 0 <= pos + 40 < b.len() {
            b[pos + 40]
        } else {
            0
        },
        disclosure_level: spec_slot_text(spec_take_at(b, pos + 41, 32)),
        storage_type: spec_slot_text(spec_take_at(b, pos + 73, 32)),
    }
}

/// Appends a task config's encoding.
pub fn write_config(out: &mut Vec<u8>, c: &TaskConfig)
    ensures
        final(out)@ == old(out)@ + spec_config_bytes(c@),
{
    write_slot(out, c.priority.as_str());
    push_u64_le(out, c.execution_delay);
    out.push(c.retry_attempts);
    write_slot(out, c.disclosure_level.as_str());
    write_slot(out, c.storage_type.as_str());
    proof {
        assert(out@ =~= old(out)@ + spec_config_bytes(c@));
    }
}

/// Reads the task config stored at `pos`.
pub fn read_config(b: &Vec<u8>, pos: usize) -> (c: TaskConfig)
    requires
        pos + 105 <= usize::MAX,
    ensures
        c@ == spec_parse_config(b@, pos as int),
{
    let priority = read_slot_text(b, pos);
    let execution_delay = read_u64_le_at(b, pos + 32);
    let retry_attempts = if pos + 40 < b.len() {
        b[pos + 40]
    } else {
        0
    };
    let disclosure_level = read_slot_text(b, pos + 41);
    let storage_type = read_slot_text(b, pos + 73);
    let c = TaskConfig { priority, execution_delay, retry_attempts, disclosure_level, storage_type };
    proof {
        assert(c@ =~= spec_parse_config(b@, pos as int));
    }
    c
}

/// Slot-fit conditions under which a config survives its codec round trip.
pub open spec fn spec_config_fits(c: TaskConfigView) -> bool {
    &&& spec_fits_slot(c.priority)
    &&& spec_fits_slot(c.disclosure_level)
    &&& spec_fits_slot(c.storage_type)
}

/// A config whose labels fit their slots decodes from its own encoding,
/// wherever that encoding stands in a larger buffer.
pub proof fn lemma_parse_config_exact(b: Seq<u8>, pos: int, c: TaskConfigView)
    requires
        spec_config_fits(c),
        0 <= pos,
        pos + 105 <= b.len(),
        b.subrange(pos, pos + 105) == spec_config_bytes(c),
    ensures
        spec_parse_config(b, pos) == c,
{
    lemma_auto_spec_u64_to_from_le_bytes();
    let cb = spec_config_bytes(c);
    let w = b.subrange(pos, pos + 105);
    assert(spec_slot_of(c.priority).len() == 32);
    assert(spec_slot_of(c.disclosure_level).len() == 32);
    assert(spec_slot_of(c.storage_type).len() == 32);
    assert(cb.len() == 105);

    assert_seqs_equal!(spec_take_at(b, pos, 32) == spec_slot_of(c.priority), i => {
        assert(spec_take_at(b, pos, 32)[i] == b[pos + i]);
        assert(w[i] == b[pos + i]);
        assert(cb[i] == spec_slot_of(c.priority)[i]);
    });
    lemma_slot_roundtrip(c.priority);

    assert_seqs_equal!(b.subrange(pos + 32, pos + 40) == spec_u64_to_le_bytes(c.execution_delay), i => {
        assert(b.subrange(pos + 32, pos + 40)[i] == b[pos + 32 + i]);
        assert(w[32 + i] == b[pos + (32 + i)]);
        assert(cb[32 + i] == spec_u64_to_le_bytes(c.execution_delay)[i]);
    });
    assert(spec_u64_le_at(b, pos + 32) == c.execution_delay);

    assert(w[40] == b[pos + 40]);
    assert(cb[40] == c.retry_attempts);

    assert_seqs_equal!(spec_take_at(b, pos + 41, 32) == spec_slot_of(c.disclosure_level), i => {
        assert(spec_take_at(b, pos + 41, 32)[i] == b[pos + 41 + i]);
        assert(w[41 + i] == b[pos + (41 + i)]);
        assert(cb[41 + i] == spec_slot_of(c.disclosure_level)[i]);
    });
    lemma_slot_roundtrip(c.disclosure_level);

    assert_seqs_equal!(spec_take_at(b, pos + 73, 32) == spec_slot_of(c.storage_type), i => {
        assert(spec_take_at(b, pos + 73, 32)[i] == b[pos + 73 + i]);
        assert(w[73 + i] == b[pos + (73 + i)]);
        assert(cb[73 + i] == spec_slot_of(c.storage_type)[i]);
    });
    lemma_slot_roundtrip(c.storage_type);

    assert(spec_parse_config(b, pos) =~= c);
}

/// The encoded form of a task: the identifier slot, the status byte, the
/// timestamp, the length-prefixed description, and the optional config
/// behind a presence flag.
pub open spec fn spec_task_bytes(t: TaskView) -> Seq<u8> {
    spec_slot_of(t.id) + seq![spec_status_byte(t.status)] + spec_u64_to_le_bytes(t.timestamp)
        + spec_u32_to_le_bytes(encode_utf8(t.description).len() as u32) + encode_utf8(t.description)
        + match t.config {
        Option::Some(c) => seq![1u8] + spec_config_bytes(c),
        Option::None => seq![0u8],
    }
}

/// What the bytes at `pos` decode to as a task, and where the next record
/// begins; short input yields empty and zero fields and a cursor clamped to
/// the end of the buffer.
pub open spec fn spec_parse_task(b: Seq<u8>, pos: int) -> (TaskView, int) {
    let id = spec_slot_text(spec_take_at(b, pos, 32));
    let status = spec_status_of_byte(spec_byte_at(b, pos + 32));
    let timestamp = spec_u64_le_at(b, pos + 33);
    let dlen = spec_u32_le_at(b, pos + 41) as int;
    let desc_fits = 0 <= pos && pos + 45 + dlen <= b.len();
    let description = if desc_fits {
        spec_text_of(b.subrange(pos + 45, pos + 45 + dlen))
    } else {
        Seq::<char>::empty()
    };
    let dpos = if desc_fits {
        pos + 45 + dlen
    } else {
        spec_advance(pos, 45, b.len() as int)
    };
    let flag = spec_byte_at(b, dpos);
    let config = if flag != 0 {
        Option::Some(spec_parse_config(b, dpos + 1))
    } else {
        Option::None
    };
    let next = spec_advance(
        dpos,
        if flag != 0 {
            106
        } else {
            1
        },
        b.len() as int,
    );
    (TaskView { id, description, status, timestamp, config }, next)
}

/// Appends a task's encoding. The description carries a four-byte length
/// prefix, so its encoding must fit that prefix.
pub fn write_task(out: &mut Vec<u8>, t: &Task)
    requires
        encode_utf8(t@.description).len() <= u32::MAX,
    ensures
        final(out)@ == old(out)@ + spec_task_bytes(t@),
{
    write_slot(out, t.id.as_str());
    out.push(match t.status {
        TaskStatus::Pending => 0,
        TaskStatus::Completed => 1,
    });
    push_u64_le(out, t.timestamp);
    let dbytes = t.description.as_str().as_bytes_vec();
    push_u32_le(out, dbytes.len() as u32);
    push_bytes(out, &dbytes);
    match &t.config {
        Option::Some(c) => {
            out.push(1);
            write_config(out, c);
        },
        Option::None => {
            out.push(0);
        },
    }
    proof {
        assert(out@ =~= old(out)@ + spec_task_bytes(t@));
    }
}

/// Reads the task stored at `pos` and returns it with the position of the
/// next record.
pub fn read_task(b: &Vec<u8>, pos: usize) -> (r: (Task, usize))
    requires
        pos <= b@.len(),
        b@.len() + 256 <= usize::MAX,
    ensures
        r.0@ == spec_parse_task(b@, pos as int).0,
        r.1 == spec_parse_task(b@, pos as int).1,
        pos <= r.1 <= b@.len(),
        pos < b@.len() ==> r.1 > pos,
{
    let len = b.len();
    let id = read_slot_text(b, pos);
    let status_byte = read_byte_at(b, pos + 32);
    let status = if status_byte == 1 {
        TaskStatus::Completed
    } else {
        TaskStatus::Pending
    };
    let timestamp = read_u64_le_at(b, pos + 33);
    let dlen = read_u32_le_at(b, pos + 41) as usize;
    let desc_fits = len - pos >= 45 && (len - pos) - 45 >= dlen;
    let mut description = String::new();
    let mut dpos: usize = 0;
    if desc_fits {
        let dbytes = take_at(b, pos + 45, dlen);
        proof {
            assert(dbytes@ =~= b@.subrange(pos + 45 as int, pos + 45 + dlen as int));
        }
        description = match string_from_utf8(dbytes) {
            Option::Some(s) => s,
            Option::None => String::new(),
        };
        dpos = pos + 45 + dlen;
    } else {
        dpos = advance(pos, 45, len);
    }
    let flag = read_byte_at(b, dpos);
    let config = if flag != 0 {
        Option::Some(read_config(b, dpos + 1))
    } else {
        Option::None
    };
    let next = advance(
        dpos,
        if flag != 0 {
            106
        } else {
            1
        },
        len,
    );
    let t = Task { id, description, status, timestamp, config };
    proof {
        assert(t@ =~= spec_parse_task(b@, pos as int).0);
    }
    (t, next)
}

/// Fit conditions under which a task survives its codec round trip: its
/// identifier and config labels fit their slots and its description fits the
/// length prefix.
pub open spec fn spec_task_fits(t: TaskView) -> bool {
    &&& spec_fits_slot(t.id)
    &&& encode_utf8(t.description).len() <= u32::MAX
    &&& match t.config {
        Option::Some(c) => spec_config_fits(c),
        Option::None => true,
    }
}

/// A fitting task decodes from its own encoding, wherever that encoding
/// stands in a larger buffer.
pub proof fn lemma_parse_task_exact(b: Seq<u8>, pos: int, t: TaskView)
    requires
        spec_task_fits(t),
        0 <= pos,
        pos + spec_task_bytes(t).len() <= b.len(),
        b.subrange(pos, pos + spec_task_bytes(t).len()) == spec_task_bytes(t),
    ensures
        spec_parse_task(b, pos).0 == t,
        spec_parse_task(b, pos).1 == pos + spec_task_bytes(t).len(),
{
    lemma_auto_spec_u32_to_from_le_bytes();
    lemma_auto_spec_u64_to_from_le_bytes();
    let tb = spec_task_bytes(t);
    let dl = encode_utf8(t.description).len() as int;
    let tail: int = match t.config {
        Option::Some(c) => 106,
        Option::None => 1,
    };
    let el = tb.len() as int;
    assert(tb.len() == 45 + dl + tail);
    let w = b.subrange(pos, pos + el);
    assert(spec_slot_of(t.id).len() == 32);
    let desc = encode_utf8(t.description);

    assert_seqs_equal!(spec_take_at(b, pos, 32) == spec_slot_of(t.id), i => {
        assert(spec_take_at(b, pos, 32)[i] == b[pos + i]);
        assert(w[i] == b[pos + i]);
        assert(tb[i] == spec_slot_of(t.id)[i]);
    });
    lemma_slot_roundtrip(t.id);

    assert(w[32] == b[pos + 32]);
    assert(tb[32] == spec_status_byte(t.status));
    assert(spec_status_of_byte(spec_status_byte(t.status)) == t.status);

    assert_seqs_equal!(b.subrange(pos + 33, pos + 41) == spec_u64_to_le_bytes(t.timestamp), i => {
        assert(b.subrange(pos + 33, pos + 41)[i] == b[pos + 33 + i]);
        assert(w[33 + i] == b[pos + (33 + i)]);
        assert(tb[33 + i] == spec_u64_to_le_bytes(t.timestamp)[i]);
    });
    assert(spec_u64_le_at(b, pos + 33) == t.timestamp);

    assert_seqs_equal!(b.subrange(pos + 41, pos + 45) == spec_u32_to_le_bytes(desc.len() as u32), i => {
        assert(b.subrange(pos + 41, pos + 45)[i] == b[pos + 41 + i]);
        assert(w[41 + i] == b[pos + (41 + i)]);
        assert(tb[41 + i] == spec_u32_to_le_bytes(desc.len() as u32)[i]);
    });
    assert(spec_u32_le_at(b, pos + 41) == dl);

    assert_seqs_equal!(b.subrange(pos + 45, pos + 45 + dl) == desc, i => {
        assert(b.subrange(pos + 45, pos + 45 + dl)[i] == b[pos + 45 + i]);
        assert(w[45 + i] == b[pos + (45 + i)]);
        assert(tb[45 + i] == desc[i]);
    });
    encode_utf8_valid_utf8(t.description);
    encode_utf8_decode_utf8(t.description);

    let dpos = pos + 45 + dl;
    assert(w[45 + dl] == b[pos + (45 + dl)]);
    match t.config {
        Option::Some(c) => {
            assert(tb[45 + dl] == 1u8);
            assert(b[dpos] == 1u8);
            assert(spec_config_bytes(c).len() == 105);
            assert_seqs_equal!(b.subrange(dpos + 1, dpos + 106) == spec_config_bytes(c), i => {
                assert(b.subrange(dpos + 1, dpos + 106)[i] == b[dpos + 1 + i]);
                assert(w[46 + dl + i] == b[pos + (46 + dl + i)]);
                assert(tb[46 + dl + i] == spec_config_bytes(c)[i]);
            });
            lemma_parse_config_exact(b, dpos + 1, c);
        },
        Option::None => {
            assert(tb[45 + dl] == 0u8);
            assert(b[dpos] == 0u8);
        },
    }
    assert(spec_parse_task(b, pos).0 =~= t);
}

} // verus!
