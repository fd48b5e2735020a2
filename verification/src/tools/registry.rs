//! The processes that the bash tool has started.

use std::collections::HashMap;

use vstd::prelude::*;
use vstd::std_specs::iter::IteratorSpec;

use crate::paths::components;
use crate::text::concat;
use crate::text::decimal;
use crate::text::numeral;
use crate::text::same_text;

verus! {

/// Whether a process has ended, and how.
#[derive(Debug, Clone, Copy, PartialEq, Eq, Structural)]
pub struct ProcessState {
    pub finished: bool,
    pub exit_code: Option<i32>,
}

/// A process, the log that its output goes to, and the path under which callers see the log.
#[derive(Debug)]
pub struct ProcessEntry {
    pub pid: u32,
    pub log_path: String,
    pub visible_log_path: String,
    pub state: ProcessState,
}

/// What is known of a process, as a mathematical value.
pub struct Process {
    pub log_path: Seq<char>,
    pub visible_log_path: Seq<char>,
    pub state: ProcessState,
}

impl View for ProcessEntry {
    type V = Process;

    open spec fn view(&self) -> Process {
        Process {
            log_path: self.log_path@,
            visible_log_path: self.visible_log_path@,
            state: self.state,
        }
    }
}

/// What the registry keeps of a process.
#[derive(Debug)]
struct Known {
    log_path: String,
    visible_log_path: String,
    state: ProcessState,
}

/// What is kept of a process, as a mathematical value.
spec fn known_process(k: Known) -> Process {
    Process { log_path: k.log_path@, visible_log_path: k.visible_log_path@, state: k.state }
}

/// The processes by their identifiers.
#[derive(Debug)]
pub struct ProcessRegistry {
    inner: HashMap<u32, Known>,
}

impl View for ProcessRegistry {
    type V = Map<u32, Process>;

    closed spec fn view(&self) -> Map<u32, Process> {
        self.inner@.map_values(|k: Known| known_process(k))
    }
}

/// A process that has just been started: it has not ended.
pub open spec fn running() -> ProcessState {
    ProcessState { finished: false, exit_code: None }
}

/// The processes once the one under the identifier that writes to the log has ended.
pub open spec fn with_ended(
    registry: Map<u32, Process>,
    pid: u32,
    log_path: Seq<char>,
    exit_code: Option<i32>,
) -> Map<u32, Process> {
    if registry.contains_key(pid) && registry[pid].log_path == log_path {
        registry.insert(
            pid,
            Process { state: ProcessState { finished: true, exit_code }, ..registry[pid] },
        )
    } else {
        registry
    }
}

/// Whether two paths have the same components.
pub open spec fn same_path(a: Seq<char>, b: Seq<char>) -> bool {
    components(a) == components(b)
}

/// Whether a process that has not ended writes to the log.
pub open spec fn is_active(registry: Map<u32, Process>, path: Seq<char>) -> bool {
    exists|pid: u32| #[trigger]
        registry.contains_key(pid) && !registry[pid].state.finished && same_path(
            registry[pid].log_path,
            path,
        )
}

/// Whether the process has ended and wrote to the log.
pub open spec fn wrote(registry: Map<u32, Process>, pid: u32, path: Seq<char>) -> bool {
    registry.contains_key(pid) && registry[pid].state.finished && same_path(
        registry[pid].log_path,
        path,
    )
}

impl Default for ProcessRegistry {
    /// No processes.
    fn default() -> (r: Self)
        ensures
            r@ == Map::<u32, Process>::empty(),
    {
        let r = ProcessRegistry { inner: HashMap::new() };
        assert(r@ =~= Map::<u32, Process>::empty());
        r
    }
}

impl ProcessRegistry {
    /// Adds a process, in place of an earlier one with the same identifier.
    pub fn insert(&mut self, entry: ProcessEntry)
        ensures
            final(self)@ == old(self)@.insert(entry.pid, entry@),
    {
        broadcast use vstd::std_specs::hash::group_hash_axioms;

        let pid = entry.pid;
        let ghost shown = entry@;
        self.inner.insert(
            pid,
            Known {
                log_path: entry.log_path,
                visible_log_path: entry.visible_log_path,
                state: entry.state,
            },
        );
        assert(self@ =~= old(self)@.insert(pid, shown));
    }

    /// What is known of the process with the given identifier.
    pub fn get(&self, pid: u32) -> (r: Option<ProcessEntry>)
        ensures
            r is Some <==> self@.contains_key(pid),
            r matches Some(e) ==> e.pid == pid && e@ == self@[pid],
    {
        broadcast use vstd::std_specs::hash::group_hash_axioms;

        match self.inner.get(&pid) {
            Some(k) => Some(
                ProcessEntry {
                    pid,
                    log_path: k.log_path.clone(),
                    visible_log_path: k.visible_log_path.clone(),
                    state: k.state,
                },
            ),
            None => None,
        }
    }

    /// What is known of a process that a caller wants to look at.
    pub fn attach(&self, pid: u32) -> (r: Result<ProcessEntry, String>)
        ensures
            match r {
                Ok(e) => self@.contains_key(pid) && e.pid == pid && e@ == self@[pid],
                Err(m) => !self@.contains_key(pid) && m@ == "unknown pid "@ + numeral(pid as nat),
            },
    {
        match self.get(pid) {
            Some(e) => Ok(e),
            None => {
                let digits = decimal(pid as u64);
                Err(concat("unknown pid ", digits.as_str()))
            },
        }
    }

    /// Notes that the process that writes to the given log has ended.
    pub fn finish(&mut self, pid: u32, log_path: &str, exit_code: Option<i32>)
        ensures
            final(self)@ == with_ended(old(self)@, pid, log_path@, exit_code),
    {
        if let Some(e) = self.get(pid) {
            if same_text(e.log_path.as_str(), log_path) {
                self.insert(
                    ProcessEntry {
                        pid,
                        log_path: e.log_path,
                        visible_log_path: e.visible_log_path,
                        state: ProcessState { finished: true, exit_code },
                    },
                );
            }
        }
    }

    /// Forgets the processes with the given identifiers.
    pub fn forget(&mut self, pids: &Vec<u32>)
        ensures
            final(self)@ == old(self)@.remove_keys(pids@.to_set()),
    {
        broadcast use vstd::std_specs::hash::group_hash_axioms;

        let mut i: usize = 0;
        assert(pids@.take(0).to_set() =~= Set::empty());
        assert(self@ =~= old(self)@.remove_keys(pids@.take(0).to_set()));
        while i < pids.len()
            invariant
                i <= pids@.len(),
                self@ == old(self)@.remove_keys(pids@.take(i as int).to_set()),
            decreases pids@.len() - i,
        {
            broadcast use vstd::std_specs::hash::group_hash_axioms;

            let ghost before = self@;
            let ghost done = pids@.take(i as int);
            self.inner.remove(&pids[i]);
            i += 1;
            proof {
                assert(self@ =~= before.remove(pids@[i - 1]));
                let now = pids@.take(i as int);
                assert(now =~= done.push(pids@[i - 1]));
                assert(now.to_set() =~= done.to_set().insert(pids@[i - 1])) by {
                    assert(now[i - 1] == pids@[i - 1]);
                    assert forall|x: u32| done.contains(x) implies now.contains(x) by {
                        let k = choose|k: int| 0 <= k < done.len() && done[k] == x;
                        assert(now[k] == x);
                    }
                }
                assert(self@ =~= old(self)@.remove_keys(now.to_set()));
            }
        }
        assert(pids@.take(pids@.len() as int) =~= pids@);
    }

    /// All the processes, in no particular order.
    pub fn entries(&self) -> (r: Vec<ProcessEntry>)
        ensures
            lists(r@, self@),
            forall|i: int, j: int|
                0 <= i < j < r@.len() ==> (#[trigger] r@[i]).pid != (#[trigger] r@[j]).pid,
    {
        broadcast use vstd::std_specs::hash::group_hash_axioms;

        let mut out: Vec<ProcessEntry> = Vec::new();
        for (pid, k) in it: self.inner.iter()
            invariant
                out@.len() == it.index(),
                it.seq() == self.inner.iter().remaining(),
                forall|i: int| #![trigger out@[i]]
                    0 <= i < out@.len() ==> out@[i].pid == *it.seq()[i].0 && out@[i]@
                        == known_process(*it.seq()[i].1),
        {
            out.push(
                ProcessEntry {
                    pid: *pid,
                    log_path: k.log_path.clone(),
                    visible_log_path: k.visible_log_path.clone(),
                    state: k.state,
                },
            );
        }
        proof {
            let items = self.inner.iter().remaining();
            assert forall|i: int| 0 <= i < out@.len() implies self@.contains_key(
                (#[trigger] out@[i]).pid,
            ) && out@[i]@ == self@[out@[i].pid] by {
                assert(self.inner@.contains_key(*items[i].0));
                assert(self.inner@[*items[i].0] == *items[i].1);
            }
            assert forall|pid: u32| self@.contains_key(pid) implies exists|i: int|
                0 <= i < out@.len() && #[trigger] out@[i].pid == pid by {
                assert(self.inner@.contains_key(pid));
                assert(items.contains((&pid, &self.inner@[pid])));
                let i = choose|i: int| 0 <= i < items.len() && items[i] == (&pid, &self.inner@[pid]);
                assert(out@[i].pid == pid);
            }
            assert forall|i: int, j: int| 0 <= i < j < out@.len() implies (#[trigger] out@[i]).pid
                != (#[trigger] out@[j]).pid by {
                if out@[i].pid == out@[j].pid {
                    assert(*items[i].1 == self.inner@[*items[i].0]);
                    assert(*items[j].1 == self.inner@[*items[j].0]);
                    assert(items[i] == items[j]);
                }
            }
        }
        out
    }
}

/// The list holds the processes of the registry and no others.
pub open spec fn lists(entries: Seq<ProcessEntry>, registry: Map<u32, Process>) -> bool {
    &&& forall|i: int| #![trigger entries[i]]
        0 <= i < entries.len() ==> registry.contains_key(entries[i].pid) && entries[i]@
            == registry[entries[i].pid]
    &&& forall|pid: u32| #[trigger]
        registry.contains_key(pid) ==> exists|i: int|
            0 <= i < entries.len() && #[trigger] entries[i].pid == pid
}

/// A process that was started and has ended is still found, with its logs and its exit code, and
/// the other processes stay as they are.
pub proof fn lemma_finished_process_stays_attachable(
    before: Map<u32, Process>,
    entry: ProcessEntry,
    exit_code: Option<i32>,
    other: u32,
)
    ensures
        ({
            let started = before.insert(entry.pid, entry@);
            let now = with_ended(started, entry.pid, entry.log_path@, exit_code);
            &&& now.contains_key(entry.pid)
            &&& now[entry.pid] == (Process {
                state: ProcessState { finished: true, exit_code },
                ..entry@
            })
            &&& other != entry.pid ==> now.contains_key(other) == before.contains_key(other)
                && now[other] == before[other]
        }),
{
}

/// When a log is written to: by a process that is known and has not ended, whose log has the same
/// components. A process that has ended counts as its writer under the same condition.
pub proof fn lemma_who_writes_to_a_log(registry: Map<u32, Process>, pid: u32, path: Seq<char>)
    ensures
        registry.contains_key(pid) && !registry[pid].state.finished && components(
            registry[pid].log_path,
        ) == components(path) ==> is_active(registry, path),
        is_active(registry, path) ==> exists|p: u32| #[trigger]
            registry.contains_key(p) && !registry[p].state.finished && components(
                registry[p].log_path,
            ) == components(path),
        wrote(registry, pid, path) <==> registry.contains_key(pid) && registry[pid].state.finished
            && components(registry[pid].log_path) == components(path),
        !running().finished,
        running().exit_code is None,
{
}

/// Only the process that writes to the given log ends: another one that has got its identifier
/// since, and whatever else is known, stays as it is.
pub proof fn lemma_only_the_writer_ends(
    registry: Map<u32, Process>,
    pid: u32,
    log_path: Seq<char>,
    exit_code: Option<i32>,
    other: u32,
)
    ensures
        ({
            let now = with_ended(registry, pid, log_path, exit_code);
            let writer = registry.contains_key(other) && other == pid && registry[other].log_path
                == log_path;
            &&& now.dom() == registry.dom()
            &&& writer ==> now[other].state.finished && now[other].state.exit_code == exit_code
                && now[other].log_path == registry[other].log_path && now[other].visible_log_path
                == registry[other].visible_log_path
            &&& registry.contains_key(other) && !writer ==> now[other] == registry[other]
        }),
{
    assert(with_ended(registry, pid, log_path, exit_code).dom() =~= registry.dom());
}

/// A list of the processes has one entry for each of them, with what is known of it.
pub proof fn lemma_listed_processes(entries: Seq<ProcessEntry>, registry: Map<u32, Process>, pid: u32)
    requires
        lists(entries, registry),
    ensures
        registry.contains_key(pid) <==> exists|i: int|
            0 <= i < entries.len() && #[trigger] entries[i].pid == pid && entries[i].log_path@
                == registry[pid].log_path && entries[i].visible_log_path@
                == registry[pid].visible_log_path && entries[i].state == registry[pid].state,
{
    if registry.contains_key(pid) {
        let i = choose|i: int| 0 <= i < entries.len() && #[trigger] entries[i].pid == pid;
        assert(entries[i]@ == registry[pid]);
    }
    if exists|i: int| 0 <= i < entries.len() && #[trigger] entries[i].pid == pid {
        let i = choose|i: int| 0 <= i < entries.len() && #[trigger] entries[i].pid == pid;
        assert(registry.contains_key(entries[i].pid));
    }
}

/// What an entry says of a process.
pub proof fn lemma_what_an_entry_says(e: ProcessEntry)
    ensures
        e@.log_path == e.log_path@,
        e@.visible_log_path == e.visible_log_path@,
        e@.state == e.state,
{
}

} // verus!
