//! The reference store and the operations on it: opening a reference,
//! assigning tasks, listing them, executing all pending tasks, and deleting
//! a reference. Execution returns the task list as it stood before
//! completion was applied, while the store already holds the completed
//! tasks: an immediate read of the result can still show a task pending,
//! a later lookup shows it completed.

use vstd::prelude::*;
use vstd::utf8::*;

use crate::identity::fresh_id;
use crate::reference::{clone_tasks, task_views, Reference, ReferenceView};
use crate::strings::{
    lemma_encode_utf8_concat, push_decimal, push_str_bytes, spec_decimal_of, string_from_utf8,
};
use crate::tasks::{execute_single_task, Task, TaskConfig, TaskConfigView, TaskStatus, TaskView};
use vstd::string::StringSliceAdditionalSpecFns;

verus! {

/// The aggregate proof summary recorded on a reference once execution is
/// dispatched: a rendering of the reference identifier and the timestamp.
pub open spec fn spec_summary_chars(id: Seq<char>, timestamp: u64) -> Seq<char> {
    "{\"reference_id\":\""@ + id + "\",\"timestamp\":"@ + spec_decimal_of(timestamp as int)
        + "}"@
}

/// Renders the aggregate proof summary for a reference and a timestamp.
pub fn build_summary(id: &str, timestamp: u64) -> (s: String)
    ensures
        s@ == spec_summary_chars(id@, timestamp),
{
    let mut buf: Vec<u8> = Vec::new();
    push_str_bytes(&mut buf, "{\"reference_id\":\"");
    push_str_bytes(&mut buf, id);
    push_str_bytes(&mut buf, "\",\"timestamp\":");
    push_decimal(&mut buf, timestamp);
    push_str_bytes(&mut buf, "}");
    proof {
        let a = "{\"reference_id\":\""@;
        let c = "\",\"timestamp\":"@;
        let d = spec_decimal_of(timestamp as int);
        let e = "}"@;
        lemma_encode_utf8_concat(a, id@);
        lemma_encode_utf8_concat(a + id@, c);
        lemma_encode_utf8_concat(a + id@ + c, d);
        lemma_encode_utf8_concat(a + id@ + c + d, e);
        assert(buf@ =~= encode_utf8(spec_summary_chars(id@, timestamp)));
        encode_utf8_valid_utf8(spec_summary_chars(id@, timestamp));
        encode_utf8_decode_utf8(spec_summary_chars(id@, timestamp));
    }
    match string_from_utf8(buf) {
        Option::Some(s) => s,
        Option::None => {
            proof {
                assert(false);
            }
            String::new()
        },
    }
}

/// The settlement order dispatched for a reference on an external chain: the
/// chain's name, the fixed action, the reference identifier and a timestamp,
/// rendered with the keys in lexicographic order.
pub open spec fn spec_settlement_chars(chain: Seq<char>, id: Seq<char>, timestamp: u64) -> Seq<
    char,
> {
    "{\"action\":\"execute_task\",\"chain\":\""@ + chain + "\",\"reference_id\":\""@ + id
        + "\",\"timestamp\":"@ + spec_decimal_of(timestamp as int) + "}"@
}

/// Renders the settlement order payload for an external chain.
pub fn settlement_payload(chain: &str, id: &str, timestamp: u64) -> (b: Vec<u8>)
    ensures
        b@ == encode_utf8(spec_settlement_chars(chain@, id@, timestamp)),
{
    let mut buf: Vec<u8> = Vec::new();
    push_str_bytes(&mut buf, "{\"action\":\"execute_task\",\"chain\":\"");
    push_str_bytes(&mut buf, chain);
    push_str_bytes(&mut buf, "\",\"reference_id\":\"");
    push_str_bytes(&mut buf, id);
    push_str_bytes(&mut buf, "\",\"timestamp\":");
    push_decimal(&mut buf, timestamp);
    push_str_bytes(&mut buf, "}");
    proof {
        let a = "{\"action\":\"execute_task\",\"chain\":\""@;
        let c = "\",\"reference_id\":\""@;
        let e = "\",\"timestamp\":"@;
        let f = spec_decimal_of(timestamp as int);
        let g = "}"@;
        lemma_encode_utf8_concat(a, chain@);
        lemma_encode_utf8_concat(a + chain@, c);
        lemma_encode_utf8_concat(a + chain@ + c, id@);
        lemma_encode_utf8_concat(a + chain@ + c + id@, e);
        lemma_encode_utf8_concat(a + chain@ + c + id@ + e, f);
        lemma_encode_utf8_concat(a + chain@ + c + id@ + e + f, g);
        assert(buf@ =~= encode_utf8(spec_settlement_chars(chain@, id@, timestamp)));
    }
    buf
}

/// The first position holding a reference with the given identifier, or a
/// negative value when none does.
pub open spec fn spec_ref_index(refs: Seq<ReferenceView>, id: Seq<char>) -> int
    decreases refs.len(),
{
    if refs.len() == 0 {
        -1
    } else if refs[0].id == id {
        0
    } else {
        let r = spec_ref_index(refs.drop_first(), id);
        if r < 0 {
            -1
        } else {
            1 + r
        }
    }
}

/// A scan that saw no match before `i` and a match at `i` pins the first
/// matching position; a scan that saw none at all pins absence.
pub proof fn lemma_ref_index_scan(refs: Seq<ReferenceView>, id: Seq<char>, i: int)
    requires
        0 <= i <= refs.len(),
        forall|j: int| 0 <= j < i ==> #[trigger] refs[j].id != id,
        i < refs.len() ==> refs[i].id == id,
    ensures
        i < refs.len() ==> spec_ref_index(refs, id) == i,
        i == refs.len() ==> spec_ref_index(refs, id) == -1,
    decreases refs.len(),
{
    if refs.len() == 0 {
    } else if refs[0].id == id {
    } else {
        assert(forall|j: int|
            0 <= j < i - 1 ==> refs.drop_first()[j] == refs[j + 1] && #[trigger] refs[j + 1].id
                != id);
        lemma_ref_index_scan(refs.drop_first(), id, i - 1);
    }
}

/// A non-negative first-match position is in range and matches.
pub proof fn lemma_ref_index_found(refs: Seq<ReferenceView>, id: Seq<char>)
    requires
        spec_ref_index(refs, id) >= 0,
    ensures
        spec_ref_index(refs, id) < refs.len(),
        refs[spec_ref_index(refs, id)].id == id,
    decreases refs.len(),
{
    if refs.len() == 0 {
    } else if refs[0].id == id {
    } else {
        lemma_ref_index_found(refs.drop_first(), id);
    }
}

/// An entry holding the identifier makes the first-match position
/// non-negative.
pub proof fn lemma_ref_index_present(refs: Seq<ReferenceView>, id: Seq<char>, k: int)
    requires
        0 <= k < refs.len(),
        refs[k].id == id,
    ensures
        spec_ref_index(refs, id) >= 0,
    decreases refs.len(),
{
    if refs.len() == 0 {
    } else if refs[0].id == id {
    } else {
        assert(refs.drop_first()[k - 1] == refs[k]);
        lemma_ref_index_present(refs.drop_first(), id, k - 1);
    }
}

/// Every task of a list marked completed, other fields untouched.
pub open spec fn spec_all_completed(ts: Seq<TaskView>) -> Seq<TaskView> {
    Seq::new(ts.len(), |j: int| TaskView { status: TaskStatus::Completed, ..ts[j] })
}

/// The task a fresh assignment creates: pending, stamped with the given
/// time, carrying the given description and policy.
pub open spec fn spec_new_task(
    id: Seq<char>,
    description: Seq<char>,
    timestamp: u64,
    config: Option<TaskConfigView>,
) -> TaskView {
    TaskView { id, description, status: TaskStatus::Pending, timestamp, config }
}

/// The durable collection of references, keyed by their identifiers; a put
/// with an existing identifier replaces the entry, insertion order is kept
/// otherwise.
pub struct ReferenceStore {
    refs: Vec<Reference>,
}

impl View for ReferenceStore {
    type V = Seq<ReferenceView>;

    closed spec fn view(&self) -> Seq<ReferenceView> {
        Seq::new(self.refs@.len(), |i: int| self.refs@[i]@)
    }
}

impl ReferenceStore {
    /// An empty store.
    pub fn new() -> (s: Self)
        ensures
            s@ =~= Seq::<ReferenceView>::empty(),
    {
        ReferenceStore { refs: Vec::new() }
    }

    /// Stores a reference under its identifier: replaces the entry holding
    /// that identifier, or appends when none does.
    fn put(&mut self, r: Reference)
        ensures
            spec_ref_index(old(self)@, r@.id) >= 0 ==> final(self)@ =~= old(self)@.update(
                spec_ref_index(old(self)@, r@.id),
                r@,
            ),
            spec_ref_index(old(self)@, r@.id) < 0 ==> final(self)@ =~= old(self)@.push(r@),
    {
        let n = self.refs.len();
        let mut i: usize = 0;
        while i < n
            invariant
                n == self.refs@.len(),
                self == old(self),
                i <= n,
                forall|j: int| 0 <= j < i ==> #[trigger] self@[j].id != r@.id,
            decreases n - i,
        {
            if crate::strings::str_eq(self.refs[i].id.as_str(), r.id.as_str()) {
                proof {
                    lemma_ref_index_scan(self@, r@.id, i as int);
                }
                vstd::pervasive::VecAdditionalExecFns::set(&mut self.refs, i, r);
                proof {
                    assert(self@ =~= old(self)@.update(i as int, self.refs@[i as int]@));
                }
                return ;
            }
            i += 1;
        }
        proof {
            lemma_ref_index_scan(self@, r@.id, n as int);
        }
        self.refs.push(r);
        proof {
            assert(self@ =~= old(self)@.push(self.refs@[n as int]@));
        }
    }

    /// The position of the reference with the given identifier, if any.
    fn find(&self, reference_id: &str) -> (r: Option<usize>)
        ensures
            match r {
                Option::Some(i) => i == spec_ref_index(self@, reference_id@) && i < self@.len(),
                Option::None => spec_ref_index(self@, reference_id@) < 0,
            },
    {
        let n = self.refs.len();
        let mut i: usize = 0;
        while i < n
            invariant
                n == self.refs@.len(),
                i <= n,
                forall|j: int| 0 <= j < i ==> #[trigger] self@[j].id != reference_id@,
            decreases n - i,
        {
            if crate::strings::str_eq(self.refs[i].id.as_str(), reference_id) {
                proof {
                    lemma_ref_index_scan(self@, reference_id@, i as int);
                }
                return Option::Some(i);
            }
            i += 1;
        }
        proof {
            lemma_ref_index_scan(self@, reference_id@, n as int);
        }
        Option::None
    }

    /// Opens a fresh reference with no tasks and no proof, stored under a
    /// fresh identifier, and returns that identifier.
    pub fn open_reference(&mut self) -> (id: String)
        ensures
            id@.len() == 36,
            spec_ref_index(old(self)@, id@) >= 0 ==> final(self)@ =~= old(self)@.update(
                spec_ref_index(old(self)@, id@),
                (ReferenceView {
                    id: id@,
                    tasks: Seq::<TaskView>::empty(),
                    zk_proof: Option::None,
                }),
            ),
            spec_ref_index(old(self)@, id@) < 0 ==> final(self)@ =~= old(self)@.push(
                (ReferenceView {
                    id: id@,
                    tasks: Seq::<TaskView>::empty(),
                    zk_proof: Option::None,
                }),
            ),
    {
        let id = fresh_id();
        let r = Reference { id: id.clone(), tasks: Vec::new(), zk_proof: Option::None };
        proof {
            assert(r@ =~= (ReferenceView {
                id: id@,
                tasks: Seq::<TaskView>::empty(),
                zk_proof: Option::None,
            }));
        }
        self.put(r);
        id
    }

    /// Assigns a fresh pending task to the reference: returns the new task's
    /// identifier, or nothing when the reference is absent.
    pub fn assign_task(
        &mut self,
        reference_id: &str,
        description: String,
        config: Option<TaskConfig>,
        timestamp: u64,
    ) -> (r: Option<String>)
        ensures
            match r {
                Option::Some(task_id) => {
                    let i = spec_ref_index(old(self)@, reference_id@);
                    &&& i >= 0
                    &&& task_id@.len() == 36
                    &&& final(self)@ =~= old(self)@.update(
                        i,
                        (ReferenceView {
                            tasks: old(self)@[i].tasks.push(
                                spec_new_task(
                                    task_id@,
                                    description@,
                                    timestamp,
                                    match config {
                                        Option::Some(c) => Option::Some(c@),
                                        Option::None => Option::None,
                                    },
                                ),
                            ),
                            ..old(self)@[i]
                        }),
                    )
                },
                Option::None => {
                    &&& spec_ref_index(old(self)@, reference_id@) < 0
                    &&& final(self)@ == old(self)@
                },
            },
    {
        let task_id = fresh_id();
        let task = Task {
            id: task_id.clone(),
            description,
            status: TaskStatus::Pending,
            timestamp,
            config,
        };
        let ghost tv = task@;
        match self.find(reference_id) {
            Option::Some(i) => {
                let mut reference = self.refs[i].clone();
                let ghost old_ref = reference@;
                reference.tasks.push(task);
                proof {
                    assert(tv =~= spec_new_task(
                        task_id@,
                        description@,
                        timestamp,
                        match config {
                            Option::Some(c) => Option::Some(c@),
                            Option::None => Option::None,
                        },
                    ));
                    assert(reference@.tasks =~= old_ref.tasks.push(tv));
                    assert(reference@ =~= (ReferenceView {
                        tasks: old_ref.tasks.push(tv),
                        ..old_ref
                    }));
                }
                vstd::pervasive::VecAdditionalExecFns::set(&mut self.refs, i, reference);
                proof {
                    assert(self@ =~= old(self)@.update(i as int, self.refs@[i as int]@));
                }
                Option::Some(task_id)
            },
            Option::None => Option::None,
        }
    }

    /// The tasks of a reference, in insertion order, or nothing when the
    /// reference is absent.
    pub fn list_tasks(&self, reference_id: &str) -> (r: Option<Vec<Task>>)
        ensures
            match r {
                Option::Some(ts) => {
                    let i = spec_ref_index(self@, reference_id@);
                    &&& i >= 0
                    &&& task_views(ts@) == self@[i].tasks
                },
                Option::None => spec_ref_index(self@, reference_id@) < 0,
            },
    {
        match self.find(reference_id) {
            Option::Some(i) => Option::Some(clone_tasks(&self.refs[i].tasks)),
            Option::None => Option::None,
        }
    }

    /// The reference with the given identifier, or nothing.
    pub fn get_reference(&self, reference_id: &str) -> (r: Option<Reference>)
        ensures
            match r {
                Option::Some(reference) => {
                    let i = spec_ref_index(self@, reference_id@);
                    &&& i >= 0
                    &&& reference@ == self@[i]
                },
                Option::None => spec_ref_index(self@, reference_id@) < 0,
            },
    {
        match self.find(reference_id) {
            Option::Some(i) => Option::Some(self.refs[i].clone()),
            Option::None => Option::None,
        }
    }

    /// Deletes the reference with the given identifier; reports whether it
    /// existed.
    pub fn delete_reference(&mut self, reference_id: &str) -> (existed: bool)
        ensures
            existed == (spec_ref_index(old(self)@, reference_id@) >= 0),
            existed ==> final(self)@ =~= old(self)@.remove(
                spec_ref_index(old(self)@, reference_id@),
            ),
            !existed ==> final(self)@ == old(self)@,
    {
        match self.find(reference_id) {
            Option::Some(i) => {
                let _removed = self.refs.remove(i);
                proof {
                    assert(self@ =~= old(self)@.remove(spec_ref_index(old(self)@, reference_id@)));
                }
                true
            },
            Option::None => false,
        }
    }

    /// Executes every pending task of the reference against the given
    /// per-task outcome lists, records the aggregate proof summary, and
    /// returns the task list as it stood before execution: the caller may
    /// still observe tasks pending there, while a later lookup sees them
    /// completed.
    pub fn execute_tasks(
        &mut self,
        reference_id: &str,
        timestamp: u64,
        op_outcomes: &Vec<Vec<bool>>,
    ) -> (r: Option<Vec<Task>>)
        ensures
            match r {
                Option::Some(ts) => {
                    let i = spec_ref_index(old(self)@, reference_id@);
                    &&& i >= 0
                    &&& task_views(ts@) == old(self)@[i].tasks
                    &&& final(self)@ =~= old(self)@.update(
                        i,
                        (ReferenceView {
                            tasks: spec_all_completed(old(self)@[i].tasks),
                            zk_proof: Option::Some(
                                spec_summary_chars(old(self)@[i].id, timestamp),
                            ),
                            ..old(self)@[i]
                        }),
                    )
                },
                Option::None => {
                    &&& spec_ref_index(old(self)@, reference_id@) < 0
                    &&& final(self)@ == old(self)@
                },
            },
    {
        match self.find(reference_id) {
            Option::Some(i) => {
                let mut reference = self.refs[i].clone();
                let ghost before = reference@;
                let snapshot = clone_tasks(&reference.tasks);
                let empty_outcomes: Vec<bool> = Vec::new();
                let m = reference.tasks.len();
                let mut j: usize = 0;
                while j < m
                    invariant
                        m == reference.tasks@.len(),
                        m == before.tasks.len(),
                        j <= m,
                        reference@.id == before.id,
                        reference@.zk_proof == before.zk_proof,
                        forall|k: int|
                            0 <= k < j ==> reference@.tasks[k] == spec_all_completed(
                                before.tasks,
                            )[k],
                        forall|k: int| j <= k < m ==> reference@.tasks[k] == before.tasks[k],
                    decreases m - j,
                {
                    let outcomes: &Vec<bool> = if j < op_outcomes.len() {
                        &op_outcomes[j]
                    } else {
                        &empty_outcomes
                    };
                    let mut t = reference.tasks[j].clone();
                    if matches!(t.status, TaskStatus::Pending) {
                        let _attempt_info = execute_single_task(&mut t, outcomes);
                        vstd::pervasive::VecAdditionalExecFns::set(&mut reference.tasks, j, t);
                        proof {
                            assert(reference@.tasks[j as int] == (TaskView {
                                status: TaskStatus::Completed,
                                ..before.tasks[j as int]
                            }));
                        }
                    } else {
                        proof {
                            assert(reference@.tasks[j as int].status == TaskStatus::Completed);
                            assert(reference@.tasks[j as int] =~= (TaskView {
                                status: TaskStatus::Completed,
                                ..before.tasks[j as int]
                            }));
                        }
                    }
                    j += 1;
                }
                let summary = build_summary(reference.id.as_str(), timestamp);
                reference.zk_proof = Option::Some(summary);
                proof {
                    assert(reference@.tasks =~= spec_all_completed(before.tasks));
                    assert(reference@ =~= (ReferenceView {
                        tasks: spec_all_completed(before.tasks),
                        zk_proof: Option::Some(spec_summary_chars(before.id, timestamp)),
                        ..before
                    }));
                }
                vstd::pervasive::VecAdditionalExecFns::set(&mut self.refs, i, reference);
                proof {
                    assert(self@ =~= old(self)@.update(i as int, self.refs@[i as int]@));
                }
                Option::Some(snapshot)
            },
            Option::None => Option::None,
        }
    }
}

} // verus!
