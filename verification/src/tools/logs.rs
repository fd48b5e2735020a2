//! Clearing out old command logs.
//!
//! Logs of running commands are never touched. First every other log that is old enough
//! goes; then, while the logs together are larger than allowed, the oldest ones go. Removing
//! a file may fail: a sweep hands out one file at a time and is told what came of it.

use vstd::prelude::*;

use crate::paths::components;
use crate::paths::path_components;
use crate::paths::same_components;
use crate::text::ends_with;
use crate::text::finishes_with;
use crate::time::age;
use crate::time::is_older;
use crate::time::Span;
use crate::time::Timestamp;
use crate::tools::registry::is_active;
use crate::tools::registry::lists;
use crate::tools::registry::same_path;
use crate::tools::registry::wrote;
use crate::tools::registry::Process;
use crate::tools::registry::ProcessEntry;
use crate::tools::registry::ProcessRegistry;

verus! {

/// How long logs are kept when a command is started, in seconds.
pub const LOG_RETENTION_SECS: u64 = 86_400;

/// How large the logs together may be.
pub const MAX_LOG_DIR_BYTES: u64 = 268_435_456;

/// A log file: its path, its size and when it was last written to.
#[derive(Debug)]
pub struct LogFile {
    pub path: String,
    pub bytes: u64,
    pub modified: Timestamp,
}

/// Whether a file of that name is a log: it has the extension `log`.
pub open spec fn is_log_name(name: Seq<char>) -> bool {
    finishes_with(name, ".log"@) && name.len() > 4
}

/// Whether a file of that name is a log.
pub fn is_log(name: &str) -> (r: bool)
    ensures
        r == is_log_name(name@),
{
    proof {
        reveal_strlit(".log");
    }
    let v = crate::text::chars_of(name);
    ends_with(name, ".log") && v.len() > 4
}

// ---------------------------------------------------------------------------------------
// Oldest first

/// The positions with `k` put behind those that are no younger.
pub open spec fn placed(order: Seq<int>, files: Seq<LogFile>, k: int) -> Seq<int>
    decreases order.len(),
{
    if order.len() == 0 {
        seq![k]
    } else if files[order.last()].modified@ <= files[k].modified@ {
        order.push(k)
    } else {
        placed(order.drop_last(), files, k).push(order.last())
    }
}

/// The positions of the first `n` files from the oldest to the youngest; those of the same
/// age stay in the order in which they are listed.
pub open spec fn oldest_first(files: Seq<LogFile>, n: int) -> Seq<int>
    decreases n,
{
    if n <= 0 {
        Seq::<int>::empty()
    } else {
        placed(oldest_first(files, n - 1), files, n - 1)
    }
}

/// Positions as mathematical integers.
pub open spec fn positions(v: Seq<usize>) -> Seq<int> {
    v.map_values(|i: usize| i as int)
}

/// The positions of all files from the oldest to the youngest.
fn sort_by_age(files: &Vec<LogFile>) -> (r: Vec<usize>)
    ensures
        positions(r@) == oldest_first(files@, files@.len() as int),
        r@.len() == files@.len(),
        forall|i: int| 0 <= i < r@.len() ==> (#[trigger] r@[i]) < files@.len(),
{
    let mut order: Vec<usize> = Vec::new();
    let mut n: usize = 0;
    assert(positions(order@) =~= oldest_first(files@, 0));
    while n < files.len()
        invariant
            n <= files@.len(),
            order@.len() == n,
            positions(order@) == oldest_first(files@, n as int),
            forall|i: int| 0 <= i < order@.len() ==> (#[trigger] order@[i]) < n,
        decreases files@.len() - n,
    {
        let ghost all = positions(order@);
        let mut i: usize = order.len();
        let limit: i128 = files[n].modified.total_nanos();
        assert(all.take(i as int) =~= all && all.skip(i as int) =~= Seq::empty());
        assert(placed(all, files@, n as int) =~= placed(all.take(i as int), files@, n as int)
            + all.skip(i as int));
        while i > 0 && files[order[i - 1]].modified.total_nanos() > limit
            invariant
                n < files@.len(),
                i <= order@.len() == n,
                limit == files@[n as int].modified@,
                all == positions(order@),
                forall|j: int| 0 <= j < order@.len() ==> (#[trigger] order@[j]) < n,
                placed(all, files@, n as int) == placed(all.take(i as int), files@, n as int)
                    + all.skip(i as int),
            decreases i,
        {
            let ghost head = all.take(i as int);
            assert(head.last() == order@[i - 1] as int);
            assert(head.drop_last() =~= all.take(i - 1));
            assert(placed(all.take(i - 1), files@, n as int).push(all[i - 1]) + all.skip(i as int)
                =~= placed(all.take(i - 1), files@, n as int) + all.skip(i - 1));
            i -= 1;
        }
        proof {
            let head = all.take(i as int);
            if i > 0 {
                assert(head.last() == order@[i - 1] as int);
            }
            assert(placed(head, files@, n as int) =~= head.push(n as int));
        }
        order.insert(i, n);
        assert(positions(order@) =~= all.take(i as int).push(n as int) + all.skip(i as int));
        n += 1;
    }
    order
}

/// What it means for positions to go from the oldest file to the youngest.
pub open spec fn by_age(order: Seq<int>, files: Seq<LogFile>) -> bool {
    forall|i: int, j: int|
        0 <= i < j < order.len() ==> files[#[trigger] order[i]].modified@
            <= files[#[trigger] order[j]].modified@
}

/// Placing one more position keeps the order and adds that position alone.
proof fn lemma_placed(order: Seq<int>, files: Seq<LogFile>, k: int)
    requires
        by_age(order, files),
    ensures
        by_age(placed(order, files, k), files),
        placed(order, files, k).len() == order.len() + 1,
        forall|x: int| #[trigger]
            placed(order, files, k).contains(x) <==> x == k || order.contains(x),
    decreases order.len(),
{
    let r = placed(order, files, k);
    if order.len() == 0 {
        assert(r[0] == k);
    } else if files[order.last()].modified@ <= files[k].modified@ {
        assert forall|i: int, j: int| 0 <= i < j < r.len() implies files[#[trigger] r[i]].modified@
            <= files[#[trigger] r[j]].modified@ by {
            if j == order.len() && i < order.len() - 1 {
                assert(files[order[i]].modified@ <= files[order[order.len() - 1]].modified@);
            }
        }
        assert forall|x: int| #[trigger] r.contains(x) <==> x == k || order.contains(x) by {
            if x == k {
                assert(r[order.len() as int] == k);
            }
            if order.contains(x) {
                let i = choose|i: int| 0 <= i < order.len() && order[i] == x;
                assert(r[i] == x);
            }
        }
    } else {
        let init = order.drop_last();
        let inner = placed(init, files, k);
        lemma_placed(init, files, k);
        assert forall|i: int, j: int| 0 <= i < j < r.len() implies files[#[trigger] r[i]].modified@
            <= files[#[trigger] r[j]].modified@ by {
            if j == inner.len() {
                assert(inner.contains(inner[i]));
                if inner[i] != k {
                    let l = choose|l: int| 0 <= l < init.len() && init[l] == inner[i];
                    assert(files[order[l]].modified@ <= files[order[order.len() - 1]].modified@);
                }
            }
        }
        assert forall|x: int| #[trigger] r.contains(x) <==> x == k || order.contains(x) by {
            if r.contains(x) {
                let i = choose|i: int| 0 <= i < r.len() && r[i] == x;
                if i < inner.len() {
                    assert(inner.contains(x));
                    if x != k {
                        let l = choose|l: int| 0 <= l < init.len() && init[l] == x;
                        assert(order[l] == x);
                    }
                } else {
                    assert(order[order.len() - 1] == x);
                }
            }
            if x == k || order.contains(x) {
                if x != k && x == order.last() {
                    assert(r[inner.len() as int] == x);
                } else {
                    if x != k {
                        let l = choose|l: int| 0 <= l < order.len() && order[l] == x;
                        assert(init[l] == x);
                    }
                    assert(inner.contains(x));
                    let i = choose|i: int| 0 <= i < inner.len() && inner[i] == x;
                    assert(r[i] == x);
                }
            }
        }
    }
}

/// Sorting keeps every position once, from the oldest file to the youngest.
pub proof fn lemma_oldest_first(files: Seq<LogFile>, n: int)
    requires
        0 <= n,
    ensures
        by_age(oldest_first(files, n), files),
        oldest_first(files, n).len() == n,
        forall|x: int| #[trigger] oldest_first(files, n).contains(x) <==> 0 <= x < n,
    decreases n,
{
    if n > 0 {
        lemma_oldest_first(files, n - 1);
        lemma_placed(oldest_first(files, n - 1), files, n - 1);
    }
}

// ---------------------------------------------------------------------------------------
// The sweep

/// A sweep as a mathematical value.
pub struct Sweep {
    /// The log files, as they were listed.
    pub files: Seq<LogFile>,
    /// Which of them a running command writes to.
    pub active: Seq<bool>,
    /// Which of them are old enough to go.
    pub expired: Seq<bool>,
    /// The finished processes that wrote to them.
    pub owners: Seq<Option<u32>>,
    /// The positions of the files from the oldest to the youngest.
    pub order: Seq<int>,
    /// Which of them have been removed.
    pub removed: Seq<bool>,
    /// The size of those that have not been removed.
    pub total: u64,
    /// How large they may be together.
    pub max_bytes: u64,
    /// The processes whose logs have been removed.
    pub forgotten: Seq<u32>,
    /// Whether the old files have been dealt with and the size is looked at.
    pub over_quota: bool,
    /// The position in the list, or in the order by age, that is looked at.
    pub pos: int,
}

/// The file that is looked at.
pub open spec fn looked_at(s: Sweep) -> int {
    if s.over_quota {
        s.order[s.pos]
    } else {
        s.pos
    }
}

/// Whether the file that is looked at is to be removed.
pub open spec fn to_remove(s: Sweep) -> bool {
    if s.over_quota {
        s.total > s.max_bytes && s.pos < s.files.len() && !s.active[s.order[s.pos]]
            && !s.removed[s.order[s.pos]]
    } else {
        s.pos < s.files.len() && s.expired[s.pos]
    }
}

/// Whether nothing is left to do.
pub open spec fn is_done(s: Sweep) -> bool {
    s.over_quota && (s.total <= s.max_bytes || s.pos >= s.files.len())
}

/// The sweep at the next file that is to be removed, or at its end.
pub open spec fn advanced(s: Sweep) -> Sweep
    decreases (if s.over_quota { 0int } else { 1int }), s.files.len() - s.pos,
{
    if to_remove(s) || is_done(s) {
        s
    } else if s.pos < s.files.len() {
        advanced(Sweep { pos: s.pos + 1, ..s })
    } else {
        advanced(Sweep { over_quota: true, pos: 0, ..s })
    }
}

/// The difference of two sizes, but never less than nothing.
pub open spec fn less(a: u64, b: u64) -> u64 {
    if a > b {
        (a - b) as u64
    } else {
        0
    }
}

/// The sweep with the file that is looked at removed and the place moved on by one.
pub open spec fn without_file(s: Sweep) -> Sweep {
    let i = looked_at(s);
    Sweep {
        removed: s.removed.update(i, true),
        total: less(s.total, s.files[i].bytes),
        forgotten: match s.owners[i] {
            Some(pid) => s.forgotten.push(pid),
            None => s.forgotten,
        },
        pos: s.pos + 1,
        ..s
    }
}

/// The sweep after the file that is looked at has been removed, or could not be removed.
pub open spec fn reported(s: Sweep, ok: bool) -> Sweep {
    if ok {
        advanced(without_file(s))
    } else {
        advanced(Sweep { pos: s.pos + 1, ..s })
    }
}

/// The size of the first `n` files together.
pub open spec fn sum_bytes(files: Seq<LogFile>, n: int) -> nat
    decreases n,
{
    if n <= 0 {
        0
    } else {
        sum_bytes(files, n - 1) + files[n - 1].bytes as nat
    }
}

/// A size, or the largest one that can be held.
pub open spec fn capped(n: nat) -> u64 {
    if n <= u64::MAX {
        n as u64
    } else {
        u64::MAX
    }
}

/// Whether the log is to go for its age: no running command writes to it and it was last
/// written to at least `retention` ago.
pub open spec fn is_expired(
    file: LogFile,
    registry: Map<u32, Process>,
    now: int,
    retention: nat,
) -> bool {
    !is_active(registry, file.path@) && age(now, file.modified@) >= retention
}

/// Whether `owner` is a finished process that wrote to the log, or there is none.
pub open spec fn owned(registry: Map<u32, Process>, owner: Option<u32>, path: Seq<char>) -> bool {
    match owner {
        Some(pid) => wrote(registry, pid, path),
        None => forall|pid: u32| !#[trigger] wrote(registry, pid, path),
    }
}

/// A sweep at its start.
pub open spec fn fresh(
    s: Sweep,
    files: Seq<LogFile>,
    registry: Map<u32, Process>,
    now: int,
    retention: nat,
    max_bytes: u64,
) -> bool {
    let n = files.len();
    &&& s.files == files
    &&& s.active.len() == n && forall|i: int|
        0 <= i < n ==> #[trigger] s.active[i] == is_active(registry, files[i].path@)
    &&& s.expired.len() == n && forall|i: int|
        0 <= i < n ==> #[trigger] s.expired[i] == is_expired(files[i], registry, now, retention)
    &&& s.owners.len() == n && forall|i: int| #![trigger s.owners[i]]
        0 <= i < n ==> owned(registry, s.owners[i], files[i].path@)
    &&& s.order == oldest_first(files, n as int)
    &&& s.removed.len() == n && forall|i: int| 0 <= i < n ==> !#[trigger] s.removed[i]
    &&& s.total == capped(sum_bytes(files, n as int))
    &&& s.max_bytes == max_bytes
    &&& s.forgotten == Seq::<u32>::empty()
    &&& !s.over_quota
    &&& s.pos == 0
}

/// A sweep through the command logs.
#[derive(Debug)]
pub struct LogSweep {
    files: Vec<LogFile>,
    active: Vec<bool>,
    expired: Vec<bool>,
    owners: Vec<Option<u32>>,
    order: Vec<usize>,
    removed: Vec<bool>,
    total: u64,
    max_bytes: u64,
    forgotten: Vec<u32>,
    over_quota: bool,
    pos: usize,
}

impl View for LogSweep {
    type V = Sweep;

    closed spec fn view(&self) -> Sweep {
        Sweep {
            files: self.files@,
            active: self.active@,
            expired: self.expired@,
            owners: self.owners@,
            order: positions(self.order@),
            removed: self.removed@,
            total: self.total,
            max_bytes: self.max_bytes,
            forgotten: self.forgotten@,
            over_quota: self.over_quota,
            pos: self.pos as int,
        }
    }
}

/// Whether one of the processes runs and writes to the log.
fn find_active(entries: &Vec<ProcessEntry>, path: &str, Ghost(registry): Ghost<Map<u32, Process>>) -> (r:
    bool)
    requires
        lists(entries@, registry),
    ensures
        r == is_active(registry, path@),
{
    let c = path_components(path);
    let mut i: usize = 0;
    while i < entries.len()
        invariant
            i <= entries@.len(),
            crate::text::texts(c@) == components(path@),
            lists(entries@, registry),
            forall|j: int| #![trigger entries@[j]]
                0 <= j < i ==> entries@[j].state.finished || !same_path(
                    entries@[j].log_path@,
                    path@,
                ),
        decreases entries@.len() - i,
    {
        if !entries[i].state.finished {
            let o = path_components(entries[i].log_path.as_str());
            if same_components(&o, &c) {
                assert(registry.contains_key(entries@[i as int].pid));
                assert(registry[entries@[i as int].pid] == entries@[i as int]@);
                return true;
            }
        }
        i += 1;
    }
    proof {
        if is_active(registry, path@) {
            let pid = choose|pid: u32| #[trigger]
                registry.contains_key(pid) && !registry[pid].state.finished && same_path(
                    registry[pid].log_path,
                    path@,
                );
            let j = choose|j: int| 0 <= j < entries@.len() && #[trigger] entries@[j].pid == pid;
            assert(entries@[j]@ == registry[pid]);
        }
    }
    false
}

/// A process that has ended and wrote to the log.
fn find_owner(entries: &Vec<ProcessEntry>, path: &str, Ghost(registry): Ghost<Map<u32, Process>>) -> (r:
    Option<u32>)
    requires
        lists(entries@, registry),
    ensures
        owned(registry, r, path@),
{
    let c = path_components(path);
    let mut i: usize = 0;
    while i < entries.len()
        invariant
            i <= entries@.len(),
            crate::text::texts(c@) == components(path@),
            lists(entries@, registry),
            forall|j: int| #![trigger entries@[j]]
                0 <= j < i ==> !entries@[j].state.finished || !same_path(
                    entries@[j].log_path@,
                    path@,
                ),
        decreases entries@.len() - i,
    {
        if entries[i].state.finished {
            let o = path_components(entries[i].log_path.as_str());
            if same_components(&o, &c) {
                assert(registry.contains_key(entries@[i as int].pid));
                assert(registry[entries@[i as int].pid] == entries@[i as int]@);
                return Some(entries[i].pid);
            }
        }
        i += 1;
    }
    proof {
        assert forall|pid: u32| !#[trigger] wrote(registry, pid, path@) by {
            if wrote(registry, pid, path@) {
                let j = choose|j: int|
                    0 <= j < entries@.len() && #[trigger] entries@[j].pid == pid;
                assert(entries@[j]@ == registry[pid]);
            }
        }
    }
    None
}

impl LogSweep {
    /// Whether the parts of the sweep fit together.
    pub closed spec fn wf(&self) -> bool {
        let n = self.files@.len();
        &&& self.active@.len() == n
        &&& self.expired@.len() == n
        &&& self.owners@.len() == n
        &&& self.order@.len() == n
        &&& self.removed@.len() == n
        &&& self.pos <= n
        &&& forall|i: int| 0 <= i < n ==> (#[trigger] self.order@[i]) < n
    }

    /// Starts a sweep through the given files, at its first file that is to be removed.
    pub fn new(
        files: Vec<LogFile>,
        processes: &ProcessRegistry,
        now: Timestamp,
        retention: Span,
        max_bytes: u64,
    ) -> (r: Self)
        ensures
            r.wf(),
            exists|s: Sweep|
                fresh(s, files@, processes@, now@, retention@, max_bytes) && r@
                    == #[trigger] advanced(s),
    {
        let entries = processes.entries();
        let order = sort_by_age(&files);
        let mut active: Vec<bool> = Vec::new();
        let mut expired: Vec<bool> = Vec::new();
        let mut owners: Vec<Option<u32>> = Vec::new();
        let mut removed: Vec<bool> = Vec::new();
        let mut total: u64 = 0;
        let mut i: usize = 0;
        while i < files.len()
            invariant
                i <= files@.len(),
                lists(entries@, processes@),
                active@.len() == i,
                expired@.len() == i,
                owners@.len() == i,
                removed@.len() == i,
                forall|j: int|
                    0 <= j < i ==> #[trigger] active@[j] == is_active(
                        processes@,
                        files@[j].path@,
                    ),
                forall|j: int|
                    0 <= j < i ==> #[trigger] expired@[j] == is_expired(
                        files@[j],
                        processes@,
                        now@,
                        retention@,
                    ),
                forall|j: int| #![trigger owners@[j]]
                    0 <= j < i ==> owned(processes@, owners@[j], files@[j].path@),
                forall|j: int| 0 <= j < i ==> !#[trigger] removed@[j],
                total == capped(sum_bytes(files@, i as int)),
            decreases files@.len() - i,
        {
            let path = files[i].path.as_str();
            let busy = find_active(&entries, path, Ghost(processes@));
            let owner = find_owner(&entries, path, Ghost(processes@));
            let old_enough = is_older(&now, &files[i].modified, &retention);
            active.push(busy);
            expired.push(!busy && old_enough);
            owners.push(owner);
            removed.push(false);
            total = total.saturating_add(files[i].bytes);
            i += 1;
        }
        let mut sweep = LogSweep {
            files,
            active,
            expired,
            owners,
            order,
            removed,
            total,
            max_bytes,
            forgotten: Vec::new(),
            over_quota: false,
            pos: 0,
        };
        let ghost start = sweep@;
        assert(start.forgotten =~= Seq::<u32>::empty());
        assert(fresh(start, files@, processes@, now@, retention@, max_bytes));
        sweep.advance();
        sweep
    }

    /// Goes on to the next file that is to be removed.
    fn advance(&mut self)
        requires
            old(self).wf(),
        ensures
            final(self).wf(),
            final(self)@ == advanced(old(self)@),
    {
        let total: usize = self.files.len();
        if !self.over_quota {
            while self.pos < total && !self.expired[self.pos]
                invariant
                    self.wf(),
                    !self.over_quota,
                    total == self.files@.len(),
                    advanced(self@) == advanced(old(self)@),
                decreases total - self.pos,
            {
                let ghost before = self@;
                self.pos += 1;
                assert(self@ == Sweep { pos: before.pos + 1, ..before });
            }
            if self.pos < total {
                return;
            }
            let ghost before = self@;
            self.over_quota = true;
            self.pos = 0;
            assert(self@ == Sweep { over_quota: true, pos: 0, ..before });
        }
        while self.pos < total && self.total > self.max_bytes && (self.active[self.order[self.pos]]
            || self.removed[self.order[self.pos]])
            invariant
                self.wf(),
                self.over_quota,
                total == self.files@.len(),
                advanced(self@) == advanced(old(self)@),
            decreases total - self.pos,
        {
            let ghost before = self@;
            assert(self@.order[self.pos as int] == self.order@[self.pos as int]);
            self.pos += 1;
            assert(self@ == Sweep { pos: before.pos + 1, ..before });
        }
        if self.pos < total {
            assert(self@.order[self.pos as int] == self.order@[self.pos as int]);
        }
    }

    /// The position of the file that is to be removed now, if any is.
    fn current(&self) -> (r: Option<usize>)
        requires
            self.wf(),
        ensures
            match r {
                Some(i) => to_remove(self@) && i == looked_at(self@) && i < self@.files.len(),
                None => !to_remove(self@),
            },
    {
        if self.pos >= self.files.len() {
            return None;
        }
        if self.over_quota {
            let i: usize = self.order[self.pos];
            assert(self@.order[self.pos as int] == i);
            if self.total > self.max_bytes && !self.active[i] && !self.removed[i] {
                Some(i)
            } else {
                None
            }
        } else if self.expired[self.pos] {
            Some(self.pos)
        } else {
            None
        }
    }

    /// The path of the file that is to be removed now, if any is.
    pub fn next(&self) -> (r: Option<String>)
        requires
            self.wf(),
        ensures
            match r {
                Some(path) => to_remove(self@) && path@ == self@.files[looked_at(self@)].path@,
                None => !to_remove(self@),
            },
    {
        match self.current() {
            Some(i) => Some(self.files[i].path.clone()),
            None => None,
        }
    }

    /// Notes whether the file was removed, and goes on to the next one. Where no file is to be
    /// removed, nothing changes.
    pub fn report(&mut self, ok: bool)
        requires
            old(self).wf(),
        ensures
            final(self).wf(),
            final(self)@ == if to_remove(old(self)@) {
                reported(old(self)@, ok)
            } else {
                old(self)@
            },
    {
        let i: usize = match self.current() {
            Some(i) => i,
            None => {
                return;
            },
        };
        let total: usize = self.files.len();
        assert(self.pos < total);
        if ok {
            self.removed.set(i, true);
            let bytes: u64 = self.files[i].bytes;
            self.total = self.total.saturating_sub(bytes);
            if let Some(pid) = self.owners[i] {
                self.forgotten.push(pid);
            }
        }
        self.pos += 1;
        self.advance();
    }

    /// The processes whose logs have been removed.
    pub fn forgotten(&self) -> (r: &Vec<u32>)
        ensures
            r@ == self@.forgotten,
    {
        &self.forgotten
    }
}

// ---------------------------------------------------------------------------------------
// What every sweep keeps

/// The sweep after it has been told of each removal in turn. Once nothing is to be removed,
/// further reports change nothing.
pub open spec fn swept(s: Sweep, outcomes: Seq<bool>) -> Sweep
    decreases outcomes.len(),
{
    if outcomes.len() == 0 {
        s
    } else {
        let before = swept(s, outcomes.drop_last());
        if to_remove(before) {
            reported(before, outcomes.last())
        } else {
            before
        }
    }
}

/// The size of the first `n` files that have not been removed.
pub open spec fn kept_bytes(files: Seq<LogFile>, removed: Seq<bool>, n: int) -> nat
    decreases n,
{
    if n <= 0 {
        0
    } else if removed[n - 1] {
        kept_bytes(files, removed, n - 1)
    } else {
        kept_bytes(files, removed, n - 1) + files[n - 1].bytes as nat
    }
}

/// Whether the process is one whose log has been removed.
pub open spec fn owns_removed(removed: Seq<bool>, owners: Seq<Option<u32>>, pid: u32) -> bool {
    exists|i: int| 0 <= i < removed.len() && #[trigger] removed[i] && owners[i] == Some(pid)
}

/// What holds of every sweep: no log of a running command is removed, a file is removed at
/// most once, the size is that of the files that are left, and the forgotten processes are
/// those whose logs have been removed.
pub open spec fn sound(s: Sweep) -> bool {
    let n = s.files.len();
    &&& s.active.len() == n && s.expired.len() == n && s.owners.len() == n && s.removed.len() == n
    &&& s.order == oldest_first(s.files, n as int)
    &&& 0 <= s.pos <= n
    &&& forall|i: int| 0 <= i < n && #[trigger] s.expired[i] ==> !s.active[i]
    &&& forall|i: int| 0 <= i < n && #[trigger] s.removed[i] ==> !s.active[i]
    &&& !s.over_quota ==> forall|i: int| s.pos <= i < n ==> !#[trigger] s.removed[i]
    &&& sum_bytes(s.files, n as int) <= u64::MAX ==> s.total == kept_bytes(
        s.files,
        s.removed,
        n as int,
    )
    &&& forall|pid: u32| #[trigger]
        s.forgotten.contains(pid) <==> owns_removed(s.removed, s.owners, pid)
}

proof fn lemma_kept_bound(files: Seq<LogFile>, removed: Seq<bool>, n: int)
    ensures
        kept_bytes(files, removed, n) <= sum_bytes(files, n),
    decreases n,
{
    if n > 0 {
        lemma_kept_bound(files, removed, n - 1);
    }
}

proof fn lemma_kept_all(files: Seq<LogFile>, removed: Seq<bool>, n: int)
    requires
        forall|i: int| 0 <= i < n ==> !#[trigger] removed[i],
    ensures
        kept_bytes(files, removed, n) == sum_bytes(files, n),
    decreases n,
{
    if n > 0 {
        lemma_kept_all(files, removed, n - 1);
        assert(!removed[n - 1]);
    }
}

proof fn lemma_kept_update(files: Seq<LogFile>, removed: Seq<bool>, k: int, n: int)
    requires
        0 <= k < removed.len(),
        0 <= n <= removed.len(),
        !removed[k],
    ensures
        k < n ==> kept_bytes(files, removed, n) == kept_bytes(files, removed.update(k, true), n)
            + files[k].bytes,
        k >= n ==> kept_bytes(files, removed, n) == kept_bytes(files, removed.update(k, true), n),
    decreases n,
{
    if n > 0 {
        lemma_kept_update(files, removed, k, n - 1);
        if n - 1 != k {
            assert(removed.update(k, true)[n - 1] == removed[n - 1]);
        }
    }
}

/// A sweep is sound at its start.
proof fn lemma_fresh(
    s: Sweep,
    files: Seq<LogFile>,
    registry: Map<u32, Process>,
    now: int,
    retention: nat,
    max_bytes: u64,
)
    requires
        fresh(s, files, registry, now, retention, max_bytes),
    ensures
        sound(s),
{
    lemma_kept_all(files, s.removed, files.len() as int);
    assert forall|i: int| 0 <= i < files.len() && #[trigger] s.expired[i] implies !s.active[i] by {
        assert(s.active[i] == is_active(registry, files[i].path@));
    }
}

/// Going on to the next file keeps a sweep sound and leaves everything but the place alone.
proof fn lemma_advanced(s: Sweep)
    requires
        sound(s),
    ensures
        sound(advanced(s)),
        to_remove(advanced(s)) || is_done(advanced(s)),
        advanced(s) == (Sweep { over_quota: advanced(s).over_quota, pos: advanced(s).pos, ..s }),
        s.over_quota ==> advanced(s).over_quota && advanced(s).pos >= s.pos,
        !s.over_quota && !advanced(s).over_quota ==> advanced(s).pos >= s.pos,
    decreases (if s.over_quota { 0int } else { 1int }), s.files.len() - s.pos,
{
    if !(to_remove(s) || is_done(s)) {
        if s.pos < s.files.len() {
            lemma_advanced(Sweep { pos: s.pos + 1, ..s });
        } else {
            lemma_advanced(Sweep { over_quota: true, pos: 0, ..s });
        }
    }
}

/// What is handed out for removal has not been removed and is no log of a running command.
proof fn lemma_handed_out(s: Sweep)
    requires
        sound(s),
        to_remove(s),
    ensures
        0 <= looked_at(s) < s.files.len(),
        !s.active[looked_at(s)],
        !s.removed[looked_at(s)],
{
    lemma_oldest_first(s.files, s.files.len() as int);
    if s.over_quota {
        assert(s.order.contains(s.order[s.pos]));
    } else {
        assert(s.expired[s.pos]);
    }
}

/// A sweep stays sound when a file is removed, before it goes on to the next file.
proof fn lemma_without_file(s: Sweep)
    requires
        sound(s),
        to_remove(s),
    ensures
        sound(without_file(s)),
{
    lemma_handed_out(s);
    let n = s.files.len() as int;
    let i = looked_at(s);
    let t = without_file(s);
    lemma_kept_update(s.files, s.removed, i, n);
    lemma_kept_bound(s.files, s.removed, n);
    assert forall|j: int| 0 <= j < n && #[trigger] t.removed[j] implies !t.active[j] by {
        if j != i {
            assert(s.removed[j]);
        }
    }
    assert forall|pid: u32| #[trigger] t.forgotten.contains(pid) <==> owns_removed(
        t.removed,
        t.owners,
        pid,
    ) by {
        if t.forgotten.contains(pid) {
            if s.owners[i] == Some(pid) {
                assert(t.removed[i]);
            } else {
                let k = choose|k: int| 0 <= k < t.forgotten.len() && t.forgotten[k] == pid;
                assert(s.forgotten[k] == pid);
                assert(s.forgotten.contains(pid));
                let j = choose|j: int|
                    0 <= j < n && #[trigger] s.removed[j] && s.owners[j] == Some(pid);
                assert(t.removed[j]);
            }
        }
        if owns_removed(t.removed, t.owners, pid) {
            let j = choose|j: int|
                0 <= j < n && #[trigger] t.removed[j] && t.owners[j] == Some(pid);
            if j == i {
                assert(t.forgotten[s.forgotten.len() as int] == pid);
            } else {
                assert(s.removed[j]);
                assert(owns_removed(s.removed, s.owners, pid));
                assert(s.forgotten.contains(pid));
                let k = choose|k: int| 0 <= k < s.forgotten.len() && s.forgotten[k] == pid;
                assert(t.forgotten[k] == pid);
            }
        }
    }
}

/// A report keeps a sweep sound.
proof fn lemma_reported(s: Sweep, ok: bool)
    requires
        sound(s),
        to_remove(s),
    ensures
        sound(reported(s, ok)),
        to_remove(reported(s, ok)) || is_done(reported(s, ok)),
{
    if ok {
        lemma_without_file(s);
        lemma_advanced(without_file(s));
    } else {
        lemma_advanced(Sweep { pos: s.pos + 1, ..s });
    }
}

/// Whatever comes of the removals, a sweep never hands out or removes the log of a running
/// command, its size is that of the files that are left, and the processes that it forgets
/// are those whose logs have been removed.
pub proof fn lemma_sweep_is_sound(
    start: Sweep,
    outcomes: Seq<bool>,
    files: Seq<LogFile>,
    registry: Map<u32, Process>,
    now: int,
    retention: nat,
    max_bytes: u64,
)
    requires
        fresh(start, files, registry, now, retention, max_bytes),
    ensures
        ({
            let s = swept(advanced(start), outcomes);
            &&& sound(s)
            &&& to_remove(s) || is_done(s)
            &&& to_remove(s) ==> 0 <= looked_at(s) < files.len() && !is_active(
                registry,
                files[looked_at(s)].path@,
            )
            &&& s == Sweep {
                removed: s.removed,
                total: s.total,
                forgotten: s.forgotten,
                over_quota: s.over_quota,
                pos: s.pos,
                ..start
            }
        }),
    decreases outcomes.len(),
{
    let s = swept(advanced(start), outcomes);
    if outcomes.len() == 0 {
        lemma_fresh(start, files, registry, now, retention, max_bytes);
        lemma_advanced(start);
    } else {
        lemma_sweep_is_sound(
            start,
            outcomes.drop_last(),
            files,
            registry,
            now,
            retention,
            max_bytes,
        );
        let before = swept(advanced(start), outcomes.drop_last());
        if to_remove(before) {
            lemma_reported(before, outcomes.last());
            lemma_unchanged(before, outcomes.last());
        }
    }
    if to_remove(s) {
        lemma_handed_out(s);
        assert(s.active[looked_at(s)] == is_active(registry, files[looked_at(s)].path@));
    }
}

/// A report leaves alone what the sweep was given at its start.
proof fn lemma_unchanged(s: Sweep, ok: bool)
    requires
        sound(s),
        to_remove(s),
    ensures
        ({
            let t = reported(s, ok);
            t == Sweep {
                removed: t.removed,
                total: t.total,
                forgotten: t.forgotten,
                over_quota: t.over_quota,
                pos: t.pos,
                ..s
            }
        }),
{
    lemma_only_place(without_file(s));
    lemma_only_place(Sweep { pos: s.pos + 1, ..s });
}

/// Going on to the next file changes nothing but the place.
proof fn lemma_only_place(s: Sweep)
    ensures
        advanced(s) == (Sweep { over_quota: advanced(s).over_quota, pos: advanced(s).pos, ..s }),
    decreases (if s.over_quota { 0int } else { 1int }), s.files.len() - s.pos,
{
    if !(to_remove(s) || is_done(s)) {
        if s.pos < s.files.len() {
            lemma_only_place(Sweep { pos: s.pos + 1, ..s });
        } else {
            lemma_only_place(Sweep { over_quota: true, pos: 0, ..s });
        }
    }
}

/// A running process is never forgotten.
pub proof fn lemma_running_processes_stay(
    start: Sweep,
    outcomes: Seq<bool>,
    files: Seq<LogFile>,
    registry: Map<u32, Process>,
    now: int,
    retention: nat,
    max_bytes: u64,
    pid: u32,
)
    requires
        fresh(start, files, registry, now, retention, max_bytes),
        registry.contains_key(pid),
        !registry[pid].state.finished,
    ensures
        !swept(advanced(start), outcomes).forgotten.contains(pid),
{
    lemma_sweep_is_sound(start, outcomes, files, registry, now, retention, max_bytes);
    let s = swept(advanced(start), outcomes);
    if s.forgotten.contains(pid) {
        let i = choose|i: int|
            0 <= i < s.files.len() && #[trigger] s.removed[i] && s.owners[i] == Some(pid);
        assert(owned(registry, start.owners[i], files[i].path@));
    }
}

/// While the logs are too large, the file that is handed out is the oldest of those that
/// have not been looked at.
pub proof fn lemma_oldest_goes_first(s: Sweep, j: int)
    requires
        sound(s),
        to_remove(s),
        s.over_quota,
        s.pos <= j < s.files.len(),
    ensures
        s.files[looked_at(s)].modified@ <= s.files[s.order[j]].modified@,
{
    lemma_oldest_first(s.files, s.files.len() as int);
}

/// Whether every file that the sweep has passed was removed where it had to be.
spec fn cleared(s: Sweep) -> bool {
    let n = s.files.len();
    &&& forall|i: int|
        0 <= i < n && #[trigger] s.expired[i] && (s.over_quota || i < s.pos) ==> s.removed[i]
    &&& s.over_quota ==> forall|j: int| #![trigger s.order[j]]
        0 <= j < s.pos ==> s.active[s.order[j]] || s.removed[s.order[j]]
}

proof fn lemma_cleared_advanced(s: Sweep)
    requires
        sound(s),
        cleared(s),
    ensures
        cleared(advanced(s)),
    decreases (if s.over_quota { 0int } else { 1int }), s.files.len() - s.pos,
{
    if !(to_remove(s) || is_done(s)) {
        if s.pos < s.files.len() {
            lemma_cleared_advanced(Sweep { pos: s.pos + 1, ..s });
        } else {
            lemma_cleared_advanced(Sweep { over_quota: true, pos: 0, ..s });
        }
    }
}

proof fn lemma_cleared(start: Sweep, outcomes: Seq<bool>)
    requires
        sound(start),
        cleared(start),
        forall|i: int| 0 <= i < outcomes.len() ==> #[trigger] outcomes[i],
    ensures
        sound(swept(start, outcomes)),
        cleared(swept(start, outcomes)),
    decreases outcomes.len(),
{
    if outcomes.len() > 0 {
        let init = outcomes.drop_last();
        assert forall|i: int| 0 <= i < init.len() implies #[trigger] init[i] by {
            assert(outcomes[i]);
        }
        lemma_cleared(start, init);
        let s = swept(start, init);
        if to_remove(s) {
            assert(outcomes[outcomes.len() - 1]);
            lemma_handed_out(s);
            lemma_reported(s, true);
            let t = without_file(s);
            lemma_oldest_first(s.files, s.files.len() as int);
            assert forall|j: int| #![trigger t.order[j]]
                t.over_quota && 0 <= j < t.pos implies t.active[t.order[j]]
                || t.removed[t.order[j]] by {
                assert(s.order.contains(s.order[j]));
                if j < s.pos {
                    assert(s.active[s.order[j]] || s.removed[s.order[j]]);
                }
            }
            lemma_without_file(s);
            lemma_cleared_advanced(t);
        }
    }
}

/// When every removal works and the sweep has come to its end, every log that was old enough
/// is gone, and either the logs fit the limit or only those of running commands are left.
pub proof fn lemma_sweep_clears(
    start: Sweep,
    outcomes: Seq<bool>,
    files: Seq<LogFile>,
    registry: Map<u32, Process>,
    now: int,
    retention: nat,
    max_bytes: u64,
    i: int,
)
    requires
        fresh(start, files, registry, now, retention, max_bytes),
        forall|k: int| 0 <= k < outcomes.len() ==> #[trigger] outcomes[k],
        is_done(swept(advanced(start), outcomes)),
        0 <= i < files.len(),
    ensures
        ({
            let s = swept(advanced(start), outcomes);
            &&& is_expired(files[i], registry, now, retention) ==> s.removed[i]
            &&& s.total <= max_bytes || s.removed[i] || is_active(registry, files[i].path@)
        }),
{
    let s = swept(advanced(start), outcomes);
    lemma_fresh(start, files, registry, now, retention, max_bytes);
    lemma_advanced(start);
    lemma_cleared_advanced(start);
    lemma_cleared(advanced(start), outcomes);
    lemma_sweep_is_sound(start, outcomes, files, registry, now, retention, max_bytes);
    assert(s.expired[i] == is_expired(files[i], registry, now, retention));
    assert(s.active[i] == is_active(registry, files[i].path@));
    lemma_oldest_first(files, files.len() as int);
    assert(s.order.contains(i));
    let j = choose|j: int| 0 <= j < s.order.len() && s.order[j] == i;
    assert(s.active[s.order[j]] || s.removed[s.order[j]] || s.pos <= j);
}

// ---------------------------------------------------------------------------------------
// What a sweep takes and what it leaves

/// Which files are logs: those whose name is something followed by `.log`.
pub proof fn lemma_log_names(stem: Seq<char>, name: Seq<char>)
    ensures
        stem.len() > 0 ==> is_log_name(stem + ".log"@),
        !is_log_name(".log"@),
        is_log_name(name) ==> exists|s: Seq<char>| s.len() > 0 && name == #[trigger] (s
            + ".log"@),
{
    reveal_strlit(".log");
    let n = stem + ".log"@;
    assert(n.skip(n.len() - 4) =~= ".log"@);
    if is_log_name(name) {
        let s = name.take(name.len() - 4);
        assert(name =~= s + ".log"@);
    }
}

/// Files of the same age stay in the order in which they are listed.
pub proof fn lemma_same_age_keeps_order(files: Seq<LogFile>, n: int, i: int, j: int)
    requires
        0 <= i < j < n,
        files[oldest_first(files, n)[i]].modified@ == files[oldest_first(files, n)[j]].modified@,
    ensures
        oldest_first(files, n)[i] < oldest_first(files, n)[j],
    decreases n,
{
    lemma_oldest_first(files, n);
    lemma_oldest_first(files, n - 1);
    let order = oldest_first(files, n - 1);
    assert forall|a: int| 0 <= a < order.len() implies #[trigger] order[a] < n - 1 by {
        assert(order.contains(order[a]));
    }
    assert forall|a: int, b: int|
        0 <= a < b < order.len() && files[order[a]].modified@
            == files[order[b]].modified@ implies #[trigger] order[a] < #[trigger] order[b] by {
        lemma_same_age_keeps_order(files, n - 1, a, b);
    }
    lemma_placed_keeps_order(order, files, n - 1);
}

proof fn lemma_placed_keeps_order(order: Seq<int>, files: Seq<LogFile>, k: int)
    requires
        by_age(order, files),
        forall|a: int| 0 <= a < order.len() ==> #[trigger] order[a] < k,
        forall|a: int, b: int|
            0 <= a < b < order.len() && files[order[a]].modified@ == files[order[b]].modified@
                ==> #[trigger] order[a] < #[trigger] order[b],
    ensures
        ({
            let r = placed(order, files, k);
            forall|a: int, b: int|
                0 <= a < b < r.len() && files[r[a]].modified@ == files[r[b]].modified@
                    ==> #[trigger] r[a] < #[trigger] r[b]
        }),
    decreases order.len(),
{
    let r = placed(order, files, k);
    if order.len() > 0 && files[order.last()].modified@ > files[k].modified@ {
        let init = order.drop_last();
        let inner = placed(init, files, k);
        assert(by_age(init, files));
        lemma_placed_keeps_order(init, files, k);
        lemma_placed(init, files, k);
        assert forall|a: int, b: int|
            0 <= a < b < r.len() && files[r[a]].modified@ == files[r[b]].modified@ implies #[trigger] r[a]
            < #[trigger] r[b] by {
            if b == inner.len() {
                assert(inner.contains(inner[a]));
                if inner[a] != k {
                    let l = choose|l: int| 0 <= l < init.len() && init[l] == inner[a];
                    assert(order[l] < order[order.len() - 1]);
                }
            } else {
                assert(inner[a] < inner[b]);
            }
        }
    }
}

/// When a log is old enough to go: no running command writes to it, and at least the given span
/// of time has passed since it was written to. A log from the future counts as written just now.
pub proof fn lemma_when_a_log_is_expired(
    file: LogFile,
    registry: Map<u32, Process>,
    now: int,
    retention: nat,
)
    ensures
        is_expired(file, registry, now, retention) <==> !is_active(registry, file.path@) && (now
            - file.modified@ >= retention || retention == 0),
{
}

/// The size of files together: each one counts, and of those that are left each one that was not
/// removed. A size that a machine number cannot hold counts as the largest one.
pub proof fn lemma_sizes_together(files: Seq<LogFile>, removed: Seq<bool>, n: int, total: nat)
    requires
        0 <= n,
    ensures
        sum_bytes(files, 0) == 0,
        sum_bytes(files, n + 1) == sum_bytes(files, n) + files[n].bytes,
        kept_bytes(files, removed, 0) == 0,
        removed[n] ==> kept_bytes(files, removed, n + 1) == kept_bytes(files, removed, n),
        !removed[n] ==> kept_bytes(files, removed, n + 1) == kept_bytes(files, removed, n)
            + files[n].bytes,
        total <= u64::MAX ==> capped(total) == total,
        total > u64::MAX ==> capped(total) == u64::MAX,
{
}

/// Whether the file was handed out and could not be removed.
pub open spec fn turned_down(start: Sweep, outcomes: Seq<bool>, i: int) -> bool {
    exists|k: int|
        0 <= k < outcomes.len() && !outcomes[k] && to_remove(#[trigger] swept(
            advanced(start),
            outcomes.take(k),
        )) && looked_at(swept(advanced(start), outcomes.take(k))) == i
}

/// Whether every file that the sweep has passed was dealt with.
spec fn dealt_with(s: Sweep, start: Sweep, outcomes: Seq<bool>) -> bool {
    let n = s.files.len();
    &&& forall|i: int|
        0 <= i < n && #[trigger] s.expired[i] && (s.over_quota || i < s.pos) ==> s.removed[i]
            || turned_down(start, outcomes, i)
    &&& s.over_quota ==> forall|j: int| #![trigger s.order[j]]
        0 <= j < s.pos ==> s.active[s.order[j]] || s.removed[s.order[j]] || turned_down(
            start,
            outcomes,
            s.order[j],
        )
}

proof fn lemma_dealt_with_advanced(s: Sweep, start: Sweep, outcomes: Seq<bool>)
    requires
        sound(s),
        dealt_with(s, start, outcomes),
    ensures
        dealt_with(advanced(s), start, outcomes),
    decreases (if s.over_quota { 0int } else { 1int }), s.files.len() - s.pos,
{
    if !(to_remove(s) || is_done(s)) {
        if s.pos < s.files.len() {
            lemma_dealt_with_advanced(Sweep { pos: s.pos + 1, ..s }, start, outcomes);
        } else {
            lemma_dealt_with_advanced(Sweep { over_quota: true, pos: 0, ..s }, start, outcomes);
        }
    }
}

proof fn lemma_turned_down_stays(start: Sweep, outcomes: Seq<bool>, last: bool, i: int)
    requires
        turned_down(start, outcomes, i),
    ensures
        turned_down(start, outcomes.push(last), i),
{
    let k = choose|k: int|
        0 <= k < outcomes.len() && !outcomes[k] && to_remove(#[trigger] swept(
            advanced(start),
            outcomes.take(k),
        )) && looked_at(swept(advanced(start), outcomes.take(k))) == i;
    let longer = outcomes.push(last);
    assert(longer.take(k) =~= outcomes.take(k));
    assert(longer[k] == outcomes[k]);
    assert(to_remove(swept(advanced(start), longer.take(k))));
}

proof fn lemma_dealt_with(start: Sweep, outcomes: Seq<bool>)
    requires
        sound(start),
        !start.over_quota,
        start.pos == 0,
    ensures
        sound(swept(advanced(start), outcomes)),
        dealt_with(swept(advanced(start), outcomes), start, outcomes),
    decreases outcomes.len(),
{
    lemma_advanced(start);
    if outcomes.len() == 0 {
        lemma_dealt_with_advanced(start, start, outcomes);
    } else {
        let init = outcomes.drop_last();
        let ok = outcomes.last();
        lemma_dealt_with(start, init);
        let s = swept(advanced(start), init);
        assert(init.push(ok) =~= outcomes);
        assert forall|i: int| turned_down(start, init, i) implies #[trigger] turned_down(
            start,
            outcomes,
            i,
        ) by {
            lemma_turned_down_stays(start, init, ok, i);
        }
        if to_remove(s) {
            lemma_handed_out(s);
            lemma_reported(s, ok);
            lemma_oldest_first(s.files, s.files.len() as int);
            if !ok {
                let k = outcomes.len() - 1;
                assert(outcomes.take(k) =~= init);
                assert(!outcomes[k]);
                assert(to_remove(swept(advanced(start), outcomes.take(k))));
                assert(turned_down(start, outcomes, looked_at(s)));
            }
            let t = if ok {
                without_file(s)
            } else {
                Sweep { pos: s.pos + 1, ..s }
            };
            assert forall|i: int|
                0 <= i < t.files.len() && #[trigger] t.expired[i] && (t.over_quota || i
                    < t.pos) implies t.removed[i] || turned_down(start, outcomes, i) by {
                assert(s.expired[i]);
            }
            assert forall|j: int| #![trigger t.order[j]]
                t.over_quota && 0 <= j < t.pos implies t.active[t.order[j]]
                || t.removed[t.order[j]] || turned_down(start, outcomes, t.order[j]) by {
                assert(s.order.contains(s.order[j]));
                if j < s.pos {
                    assert(s.active[s.order[j]] || s.removed[s.order[j]] || turned_down(
                        start,
                        init,
                        s.order[j],
                    ));
                }
            }
            if ok {
                lemma_without_file(s);
            }
            lemma_dealt_with_advanced(t, start, outcomes);
        }
    }
}

/// What is left when there is nothing more to remove: every log that was old enough has gone,
/// and the logs fit the limit unless all that are left belong to running commands. The only
/// exceptions are logs that could not be removed.
pub proof fn lemma_what_a_sweep_leaves(
    start: Sweep,
    outcomes: Seq<bool>,
    files: Seq<LogFile>,
    registry: Map<u32, Process>,
    now: int,
    retention: nat,
    max_bytes: u64,
    i: int,
)
    requires
        fresh(start, files, registry, now, retention, max_bytes),
        !to_remove(swept(advanced(start), outcomes)),
        0 <= i < files.len(),
    ensures
        ({
            let s = swept(advanced(start), outcomes);
            &&& !is_active(registry, files[i].path@) && (now - files[i].modified@ >= retention
                || retention == 0) ==> s.removed[i] || turned_down(start, outcomes, i)
            &&& s.total <= max_bytes || s.removed[i] || turned_down(start, outcomes, i)
                || is_active(registry, files[i].path@)
            &&& sum_bytes(files, files.len() as int) <= u64::MAX ==> s.total == kept_bytes(
                files,
                s.removed,
                files.len() as int,
            )
        }),
{
    let s = swept(advanced(start), outcomes);
    lemma_fresh(start, files, registry, now, retention, max_bytes);
    lemma_dealt_with(start, outcomes);
    lemma_sweep_is_sound(start, outcomes, files, registry, now, retention, max_bytes);
    assert(s.expired[i] == is_expired(files[i], registry, now, retention));
    assert(s.active[i] == is_active(registry, files[i].path@));
    lemma_oldest_first(files, files.len() as int);
    assert(s.order.contains(i));
    let j = choose|j: int| 0 <= j < s.order.len() && s.order[j] == i;
    assert(s.active[s.order[j]] || s.removed[s.order[j]] || turned_down(
        start,
        outcomes,
        s.order[j],
    ) || s.pos <= j);
}

/// A log goes only where there is need: it is old enough, or the logs that are left are larger
/// than allowed and it is the oldest of those that can go. What a running command writes to never
/// goes, and nothing goes twice.
pub proof fn lemma_nothing_goes_without_need(
    start: Sweep,
    outcomes: Seq<bool>,
    files: Seq<LogFile>,
    registry: Map<u32, Process>,
    now: int,
    retention: nat,
    max_bytes: u64,
    i: int,
)
    requires
        fresh(start, files, registry, now, retention, max_bytes),
        to_remove(swept(advanced(start), outcomes)),
        0 <= i < files.len(),
    ensures
        ({
            let s = swept(advanced(start), outcomes);
            let next = looked_at(s);
            &&& 0 <= next < files.len()
            &&& !is_active(registry, files[next].path@)
            &&& !s.removed[next]
            &&& {
                ||| now - files[next].modified@ >= retention
                ||| retention == 0
                ||| s.total > max_bytes && (files[next].modified@ <= files[i].modified@
                    || s.removed[i] || is_active(registry, files[i].path@) || turned_down(
                    start,
                    outcomes,
                    i,
                ))
            }
            &&& sum_bytes(files, files.len() as int) <= u64::MAX ==> s.total == kept_bytes(
                files,
                s.removed,
                files.len() as int,
            )
        }),
{
    let s = swept(advanced(start), outcomes);
    lemma_fresh(start, files, registry, now, retention, max_bytes);
    lemma_dealt_with(start, outcomes);
    lemma_sweep_is_sound(start, outcomes, files, registry, now, retention, max_bytes);
    lemma_handed_out(s);
    let next = looked_at(s);
    assert(s.expired[next] == is_expired(files[next], registry, now, retention));
    assert(s.active[i] == is_active(registry, files[i].path@));
    lemma_oldest_first(files, files.len() as int);
    assert(s.order.contains(i));
    let j = choose|j: int| 0 <= j < s.order.len() && s.order[j] == i;
    if s.over_quota && s.pos < j {
        assert(files[s.order[s.pos]].modified@ <= files[s.order[j]].modified@);
    }
}

/// What a removal changes: the file that was handed out counts as removed if and only if it was
/// removed, and all others stay as they are. Its process, where one that has ended wrote to it,
/// is forgotten.
pub proof fn lemma_what_a_removal_changes(s: Sweep, ok: bool, i: int)
    requires
        sound(s),
        to_remove(s),
        0 <= i < s.files.len(),
    ensures
        i == looked_at(s) ==> reported(s, ok).removed[i] == ok,
        i != looked_at(s) ==> reported(s, ok).removed[i] == s.removed[i],
        !ok ==> reported(s, ok).total == s.total && reported(s, ok).forgotten == s.forgotten,
        ok && s.total >= s.files[looked_at(s)].bytes ==> reported(s, ok).total == s.total
            - s.files[looked_at(s)].bytes,
        ok ==> reported(s, ok).forgotten == (match s.owners[looked_at(s)] {
            Some(pid) => s.forgotten + seq![pid],
            None => s.forgotten,
        }),
        reported(s, ok).files == s.files,
{
    lemma_handed_out(s);
    if ok {
        lemma_without_file(s);
        lemma_advanced(without_file(s));
        if let Some(pid) = s.owners[looked_at(s)] {
            assert(s.forgotten.push(pid) =~= s.forgotten + seq![pid]);
        }
    } else {
        lemma_advanced(Sweep { pos: s.pos + 1, ..s });
    }
}

/// Only a process that has ended and wrote to a log that was removed is forgotten, and where one
/// such process is known, one is forgotten.
pub proof fn lemma_who_is_forgotten(
    start: Sweep,
    outcomes: Seq<bool>,
    files: Seq<LogFile>,
    registry: Map<u32, Process>,
    now: int,
    retention: nat,
    max_bytes: u64,
    i: int,
    pid: u32,
)
    requires
        fresh(start, files, registry, now, retention, max_bytes),
        0 <= i < files.len(),
    ensures
        ({
            let s = swept(advanced(start), outcomes);
            &&& s.forgotten.contains(pid) ==> exists|j: int|
                0 <= j < files.len() && #[trigger] s.removed[j] && registry.contains_key(pid)
                    && registry[pid].state.finished && components(registry[pid].log_path)
                    == components(files[j].path@)
            &&& s.removed[i] && registry.contains_key(pid) && registry[pid].state.finished
                && components(registry[pid].log_path) == components(files[i].path@) ==> exists|
                p: u32,
            |
                #[trigger] s.forgotten.contains(p) && registry.contains_key(p)
                    && registry[p].state.finished && components(registry[p].log_path)
                    == components(files[i].path@)
        }),
{
    lemma_sweep_is_sound(start, outcomes, files, registry, now, retention, max_bytes);
    let s = swept(advanced(start), outcomes);
    if s.forgotten.contains(pid) {
        let j = choose|j: int|
            0 <= j < s.files.len() && #[trigger] s.removed[j] && s.owners[j] == Some(pid);
        assert(owned(registry, start.owners[j], files[j].path@));
        assert(s.removed[j]);
    }
    if s.removed[i] && wrote(registry, pid, files[i].path@) {
        assert(owned(registry, start.owners[i], files[i].path@));
        let p = start.owners[i]->0;
        assert(s.owners[i] == Some(p));
        assert(owns_removed(s.removed, s.owners, p));
        assert(s.forgotten.contains(p));
    }
}

/// How long logs are kept, and how large they may be: a day, and 256 MiB.
pub proof fn lemma_limits_of_logs()
    ensures
        LOG_RETENTION_SECS == 24 * 60 * 60,
        MAX_LOG_DIR_BYTES == 256 * 1024 * 1024,
{
}

} // verus!
