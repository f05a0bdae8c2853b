//! A reference: an aggregate unit of work holding its tasks in insertion
//! order and, once execution has been dispatched, an aggregate proof
//! summary. References persist through the record codec: an identifier slot,
//! a count-prefixed task list, and an optional length-prefixed proof text.

use vstd::assert_seqs_equal;
use vstd::bytes::{
    lemma_auto_spec_u32_to_from_le_bytes, lemma_auto_spec_u64_to_from_le_bytes,
    spec_u32_to_le_bytes,
};
use vstd::prelude::*;
use vstd::string::StrSliceExecFns;
use vstd::utf8::{encode_utf8, encode_utf8_decode_utf8, encode_utf8_valid_utf8};

use crate::codec::{
    push_bytes, push_u32_le, read_byte_at, read_slot_text, read_u32_le_at, spec_byte_at,
    spec_fits_slot, spec_slot_of, spec_slot_text, spec_take_at, spec_text_of, spec_u32_le_at,
    take_at, write_slot, lemma_slot_roundtrip,
};
use crate::strings::string_from_utf8;
use crate::tasks::{
    lemma_parse_task_exact, read_task, spec_parse_task, spec_task_bytes, spec_task_fits, write_task,
    Task, TaskView,
};

verus! {

/// The mathematical content of a task list.
pub open spec fn task_views(ts: Seq<Task>) -> Seq<TaskView> {
    Seq::new(ts.len(), |i: int| ts[i]@)
}

/// Copies a task list.
pub fn clone_tasks(ts: &Vec<Task>) -> (r: Vec<Task>)
    ensures
        task_views(r@) =~= task_views(ts@),
{
    let n = ts.len();
    let mut r: Vec<Task> = Vec::new();
    let mut i: usize = 0;
    while i < n
        invariant
            n == ts@.len(),
            i <= n,
            r@.len() == i,
            forall|j: int| 0 <= j < i ==> task_views(r@)[j] == task_views(ts@)[j],
        decreases n - i,
    {
        let t = ts[i].clone();
        r.push(t);
        i += 1;
    }
    r
}

/// An aggregate unit of work: its identifier, its tasks in insertion order,
/// and the aggregate proof once execution has been dispatched.
pub struct Reference {
    pub id: String,
    pub tasks: Vec<Task>,
    pub zk_proof: Option<String>,
}

/// The mathematical content of a [`Reference`].
#[verifier::ext_equal]
pub struct ReferenceView {
    pub id: Seq<char>,
    pub tasks: Seq<TaskView>,
    pub zk_proof: Option<Seq<char>>,
}

impl View for Reference {
    type V = ReferenceView;

    open spec fn view(&self) -> ReferenceView {
        ReferenceView {
            id: self.id@,
            tasks: task_views(self.tasks@),
            zk_proof: match self.zk_proof {
                Option::Some(ref p) => Option::Some(p@),
                Option::None => Option::None,
            },
        }
    }
}

impl Clone for Reference {
    fn clone(&self) -> (r: Self)
        ensures
            r@ == self@,
    {
        let r = Reference {
            id: self.id.clone(),
            tasks: clone_tasks(&self.tasks),
            zk_proof: match &self.zk_proof {
                Option::Some(p) => Option::Some(p.clone()),
                Option::None => Option::None,
            },
        };
        proof {
            assert(r@ =~= self@);
        }
        r
    }
}

/// The concatenated encodings of a task list.
pub open spec fn spec_tasks_bytes(ts: Seq<TaskView>) -> Seq<u8>
    decreases ts.len(),
{
    if ts.len() == 0 {
        Seq::<u8>::empty()
    } else {
        spec_task_bytes(ts[0]) + spec_tasks_bytes(ts.drop_first())
    }
}

/// Appending a task appends its encoding.
pub proof fn lemma_tasks_bytes_push(ts: Seq<TaskView>, t: TaskView)
    ensures
        spec_tasks_bytes(ts.push(t)) == spec_tasks_bytes(ts) + spec_task_bytes(t),
    decreases ts.len(),
{
    if ts.len() == 0 {
        assert(ts.push(t)[0] == t);
        assert(ts.push(t).drop_first() =~= Seq::<TaskView>::empty());
        assert(spec_tasks_bytes(Seq::<TaskView>::empty()) == Seq::<u8>::empty());
        assert(spec_tasks_bytes(ts.push(t)) == spec_task_bytes(t) + Seq::<u8>::empty());
        assert(spec_task_bytes(t) + Seq::<u8>::empty() =~= spec_task_bytes(t));
        assert(spec_tasks_bytes(ts) + spec_task_bytes(t) =~= spec_task_bytes(t));
    } else {
        assert(ts.push(t).drop_first() =~= ts.drop_first().push(t));
        lemma_tasks_bytes_push(ts.drop_first(), t);
        assert(spec_tasks_bytes(ts.push(t)) =~= spec_tasks_bytes(ts) + spec_task_bytes(t));
    }
}

/// The encoded form of the optional aggregate proof: a presence flag, then
/// the length-prefixed text.
pub open spec fn spec_zk_bytes(zk: Option<Seq<char>>) -> Seq<u8> {
    match zk {
        Option::Some(p) => seq![1u8] + spec_u32_to_le_bytes(encode_utf8(p).len() as u32)
            + encode_utf8(p),
        Option::None => seq![0u8],
    }
}

/// The encoded form of a reference: the identifier slot, the task count,
/// each task's encoding in order, and the optional aggregate proof.
pub open spec fn spec_reference_bytes(r: ReferenceView) -> Seq<u8> {
    spec_slot_of(r.id) + spec_u32_to_le_bytes(r.tasks.len() as u32) + spec_tasks_bytes(r.tasks)
        + spec_zk_bytes(r.zk_proof)
}

/// What the bytes at `pos` decode to as a task list of at most `count`
/// entries, and where decoding stopped; decoding stops early when the input
/// runs out.
pub open spec fn spec_parse_tasks(b: Seq<u8>, pos: int, count: int) -> (Seq<TaskView>, int)
    decreases count,
{
    if count <= 0 || pos < 0 || pos >= b.len() {
        (Seq::<TaskView>::empty(), pos)
    } else {
        let tp = spec_parse_task(b, pos);
        let rest = spec_parse_tasks(b, tp.1, count - 1);
        (seq![tp.0] + rest.0, rest.1)
    }
}

/// What any byte string decodes to as a reference.
pub open spec fn spec_parse_reference(b: Seq<u8>) -> ReferenceView {
    let id = spec_slot_text(spec_take_at(b, 0, 32));
    let count = spec_u32_le_at(b, 32) as int;
    let tp = spec_parse_tasks(b, 36, count);
    let pos = tp.1;
    let flag = spec_byte_at(b, pos);
    let zk = if flag != 0 {
        let zl = spec_u32_le_at(b, pos + 1) as int;
        if pos + 5 + zl <= b.len() {
            Option::Some(spec_text_of(b.subrange(pos + 5, pos + 5 + zl)))
        } else {
            Option::Some(Seq::<char>::empty())
        }
    } else {
        Option::None
    };
    ReferenceView { id, tasks: tp.0, zk_proof: zk }
}

impl Reference {
    /// Encodes the reference. The task count, each description and the
    /// aggregate proof carry four-byte length prefixes, so each must fit.
    pub fn to_bytes(&self) -> (b: Vec<u8>)
        requires
            self@.tasks.len() <= u32::MAX,
            forall|i: int|
                0 <= i < self@.tasks.len() ==> encode_utf8(#[trigger] self@.tasks[i].description).len()
                    <= u32::MAX,
            match self@.zk_proof {
                Option::Some(p) => encode_utf8(p).len() <= u32::MAX,
                Option::None => true,
            },
        ensures
            b@ == spec_reference_bytes(self@),
    {
        let mut b: Vec<u8> = Vec::new();
        write_slot(&mut b, self.id.as_str());
        let n = self.tasks.len();
        push_u32_le(&mut b, n as u32);
        let ghost head = spec_slot_of(self@.id) + spec_u32_to_le_bytes(n as u32);
        let mut i: usize = 0;
        while i < n
            invariant
                n == self.tasks@.len(),
                n <= u32::MAX,
                forall|k: int|
                    0 <= k < self@.tasks.len() ==> encode_utf8(
                        #[trigger] self@.tasks[k].description,
                    ).len() <= u32::MAX,
                head == spec_slot_of(self@.id) + spec_u32_to_le_bytes(n as u32),
                i <= n,
                b@ == head + spec_tasks_bytes(self@.tasks.take(i as int)),
            decreases n - i,
        {
            proof {
                assert(self@.tasks[i as int] == self.tasks@[i as int]@);
            }
            write_task(&mut b, &self.tasks[i]);
            proof {
                lemma_tasks_bytes_push(self@.tasks.take(i as int), self@.tasks[i as int]);
                assert(self@.tasks.take(i as int).push(self@.tasks[i as int]) =~= self@.tasks.take(
                    i + 1,
                ));
                assert(b@ =~= head + spec_tasks_bytes(self@.tasks.take(i + 1)));
            }
            i += 1;
        }
        proof {
            assert(self@.tasks.take(n as int) =~= self@.tasks);
        }
        match &self.zk_proof {
            Option::Some(p) => {
                b.push(1);
                let pb = p.as_str().as_bytes_vec();
                push_u32_le(&mut b, pb.len() as u32);
                push_bytes(&mut b, &pb);
            },
            Option::None => {
                b.push(0);
            },
        }
        proof {
            assert(b@ =~= spec_reference_bytes(self@));
        }
        b
    }

    /// Decodes a reference from any byte string: the identifier from its
    /// slot, then at most the advertised number of tasks while input
    /// remains, then the aggregate proof if its flag is set.
    pub fn from_bytes(bytes: &Vec<u8>) -> (r: Self)
        requires
            bytes@.len() + 256 <= usize::MAX,
        ensures
            r@ == spec_parse_reference(bytes@),
    {
        let len = bytes.len();
        let id = read_slot_text(bytes, 0);
        let count = read_u32_le_at(bytes, 32) as usize;
        let mut tasks: Vec<Task> = Vec::new();
        let mut pos: usize = 36;
        let mut i: usize = 0;
        while i < count && pos < len
            invariant
                len == bytes@.len(),
                len + 256 <= usize::MAX,
                count <= u32::MAX,
                i <= count,
                pos <= len || pos == 36,
                spec_parse_tasks(bytes@, 36, count as int).0 =~= task_views(tasks@)
                    + spec_parse_tasks(bytes@, pos as int, count - i).0,
                spec_parse_tasks(bytes@, 36, count as int).1 == spec_parse_tasks(
                    bytes@,
                    pos as int,
                    count - i,
                ).1,
            decreases count - i,
        {
            let parsed = read_task(bytes, pos);
            let ghost prev = tasks@;
            let ghost prev_pos = pos as int;
            tasks.push(parsed.0);
            pos = parsed.1;
            i += 1;
            proof {
                assert(task_views(tasks@) =~= task_views(prev).push(parsed.0@));
                let step = spec_parse_tasks(bytes@, prev_pos, count - (i - 1));
                assert(step.0 == seq![spec_parse_task(bytes@, prev_pos).0] + spec_parse_tasks(
                    bytes@,
                    spec_parse_task(bytes@, prev_pos).1,
                    count - i,
                ).0);
                assert(task_views(prev).push(parsed.0@) + spec_parse_tasks(
                    bytes@,
                    pos as int,
                    count - i,
                ).0 =~= task_views(prev) + step.0);
            }
        }
        proof {
            assert(spec_parse_tasks(bytes@, pos as int, count - i).0 =~= Seq::<TaskView>::empty());
            assert(spec_parse_tasks(bytes@, 36, count as int).0 =~= task_views(tasks@));
            assert(spec_parse_tasks(bytes@, 36, count as int).1 == pos);
        }
        let flag = read_byte_at(bytes, pos);
        let mut zk_proof: Option<String> = Option::None;
        if flag != 0 {
            let zl = read_u32_le_at(bytes, pos + 1) as usize;
            if pos + 5 <= len && len - (pos + 5) >= zl {
                let zb = take_at(bytes, pos + 5, zl);
                proof {
                    assert(zb@ =~= bytes@.subrange(pos + 5 as int, pos + 5 + zl as int));
                }
                zk_proof = Option::Some(
                    match string_from_utf8(zb) {
                        Option::Some(s) => s,
                        Option::None => String::new(),
                    },
                );
            } else {
                zk_proof = Option::Some(String::new());
            }
        }
        let r = Reference { id, tasks, zk_proof };
        proof {
            assert(r@ =~= spec_parse_reference(bytes@));
        }
        r
    }
}

/// A fitting task list decodes from its own encoding, wherever that
/// encoding stands in a larger buffer, provided at least one byte follows.
pub proof fn lemma_parse_tasks_exact(b: Seq<u8>, pos: int, ts: Seq<TaskView>)
    requires
        forall|i: int| 0 <= i < ts.len() ==> spec_task_fits(#[trigger] ts[i]),
        0 <= pos,
        pos + spec_tasks_bytes(ts).len() < b.len(),
        b.subrange(pos, pos + spec_tasks_bytes(ts).len() as int) == spec_tasks_bytes(ts),
    ensures
        spec_parse_tasks(b, pos, ts.len() as int).0 == ts,
        spec_parse_tasks(b, pos, ts.len() as int).1 == pos + spec_tasks_bytes(ts).len(),
    decreases ts.len(),
{
    if ts.len() == 0 {
        assert(spec_parse_tasks(b, pos, 0).0 =~= ts);
    } else {
        let total = spec_tasks_bytes(ts).len() as int;
        let w = b.subrange(pos, pos + total);
        let t0 = ts[0];
        let t0b = spec_task_bytes(t0);
        let restb = spec_tasks_bytes(ts.drop_first());
        assert(spec_tasks_bytes(ts) == t0b + restb);
        assert_seqs_equal!(b.subrange(pos, pos + t0b.len() as int) == t0b, i => {
            assert(b.subrange(pos, pos + t0b.len() as int)[i] == b[pos + i]);
            assert(w[i] == b[pos + i]);
            assert(spec_tasks_bytes(ts)[i] == t0b[i]);
        });
        lemma_parse_task_exact(b, pos, t0);
        let p2 = pos + t0b.len() as int;
        assert_seqs_equal!(b.subrange(p2, p2 + restb.len() as int) == restb, i => {
            assert(b.subrange(p2, p2 + restb.len() as int)[i] == b[p2 + i]);
            assert(w[t0b.len() + i] == b[pos + (t0b.len() + i)]);
            assert(spec_tasks_bytes(ts)[t0b.len() + i] == restb[i]);
        });
        assert forall|i: int| 0 <= i < ts.drop_first().len() implies spec_task_fits(
            #[trigger] ts.drop_first()[i],
        ) by {
            assert(ts.drop_first()[i] == ts[i + 1]);
        }
        lemma_parse_tasks_exact(b, p2, ts.drop_first());
        assert(seq![ts[0]] + ts.drop_first() =~= ts);
        assert(spec_parse_tasks(b, pos, ts.len() as int).0 =~= ts);
    }
}

/// Decoding the encoding of a reference recovers it exactly, for references
/// whose identifier and tasks fit their slots and length prefixes.
pub proof fn lemma_reference_roundtrip(v: ReferenceView)
    requires
        spec_fits_slot(v.id),
        v.tasks.len() <= u32::MAX,
        forall|i: int| 0 <= i < v.tasks.len() ==> spec_task_fits(#[trigger] v.tasks[i]),
        match v.zk_proof {
            Option::Some(p) => encode_utf8(p).len() <= u32::MAX,
            Option::None => true,
        },
    ensures
        spec_parse_reference(spec_reference_bytes(v)) == v,
{
    lemma_auto_spec_u32_to_from_le_bytes();
    lemma_auto_spec_u64_to_from_le_bytes();
    let b = spec_reference_bytes(v);
    let tb = spec_tasks_bytes(v.tasks);
    let zb = spec_zk_bytes(v.zk_proof);
    let tlen = tb.len() as int;
    assert(zb.len() >= 1);
    assert(b.len() == 36 + tlen + zb.len());

    assert(spec_take_at(b, 0, 32) =~= spec_slot_of(v.id));
    lemma_slot_roundtrip(v.id);
    assert(b.subrange(32, 36) =~= spec_u32_to_le_bytes(v.tasks.len() as u32));
    assert(spec_u32_le_at(b, 32) == v.tasks.len());

    assert(b.subrange(36, 36 + tlen) =~= tb);
    lemma_parse_tasks_exact(b, 36, v.tasks);
    let pos = 36 + tlen;
    assert(b[pos] == zb[0]);
    match v.zk_proof {
        Option::Some(p) => {
            let pe = encode_utf8(p);
            assert(zb[0] == 1u8);
            assert(b.subrange(pos + 1, pos + 5) =~= spec_u32_to_le_bytes(pe.len() as u32));
            assert(spec_u32_le_at(b, pos + 1) == pe.len());
            assert(b.subrange(pos + 5, pos + 5 + pe.len() as int) =~= pe);
            encode_utf8_valid_utf8(p);
            encode_utf8_decode_utf8(p);
        },
        Option::None => {
            assert(zb[0] == 0u8);
        },
    }
    assert(spec_parse_reference(b) =~= v);
}

} // verus!
