//! What the daemon owns: every local unit it has forked and not yet reaped, and the answers its
//! verbs give.
//!
//! Liveness is the `wait()` of the daemon that forked a unit, never a poll and never a record, so
//! the live table here is the whole truth about what runs. The process work itself (signals, waits,
//! forks) is the caller's; each decision it needs is a function of this table.

use vstd::prelude::*;
use vstd::string::*;

use crate::store::{project_key_spec, Identity, Record, Store};
use crate::text::{decimal, decimal_string, push_char, str_eq, views};
use crate::unit::{key_spec, name_of, name_of_spec, Claim, Exit, State, Status};

verus! {

/// `SIGTERM` to the group, `SIGKILL` this long later, in milliseconds.
pub const GRACE: u64 = 5000;

/// The answer to a verb: done, or done with something the footer should say.
#[derive(Debug, Clone, PartialEq, Eq)]
pub struct Verdict {
    pub note: Option<String>,
}

impl Verdict {
    pub fn done() -> (r: Verdict)
        ensures
            r.note is None,
    {
        Verdict { note: None }
    }

    pub fn note(note: String) -> (r: Verdict)
        ensures
            r.note == Some(note),
    {
        Verdict { note: Some(note) }
    }
}

/// A unit of a project, by the project's key and the unit's key.
#[derive(Debug, Clone, PartialEq, Eq)]
pub struct Handle {
    pub project: String,
    pub unit: String,
}

/// A unit this daemon forked and has not yet reaped. `started_at` is milliseconds since the epoch.
#[derive(Debug, Clone, Copy, PartialEq, Eq)]
pub struct Live {
    pub pid: u32,
    pub started_at: u64,
    /// Set before the group is signalled, so the reaping knows a `down` from a `dead`.
    pub stopping: bool,
}

/// How far a halt had to go.
#[derive(Debug, Clone, Copy, PartialEq, Eq)]
pub enum Halt {
    NotRunning,
    Stopped,
    Escalated,
}

pub open spec fn handle_view(h: Handle) -> (Seq<char>, Seq<char>) {
    (h.project@, h.unit@)
}

pub struct Supervisor {
    store: Store,
    grace: u64,
    live: Vec<(Handle, Live)>,
}

/// A row as plain values: state, uptime, exit, claim (holder and pid), note.
pub type StatusView = (State, Option<u64>, Option<Exit>, Option<(Seq<char>, u32)>, Option<Seq<char>>);

pub open spec fn status_view(s: Status) -> StatusView {
    (
        s.state,
        s.uptime,
        s.exit,
        match s.held {
            Some(c) => Some((c.project@, c.pid)),
            None => None,
        },
        match s.note {
            Some(n) => Some(n@),
            None => None,
        },
    )
}

/// A record read back as a row: not running by any authority available here, so a record claiming
/// `up` outside the live table is a stale cache, never a running unit. Its exit stays.
pub open spec fn remembered_view(r: Record) -> StatusView {
    (
        if r.state == State::Dead {
            State::Dead
        } else {
            State::Down
        },
        None,
        r.exit,
        None,
        None,
    )
}

/// The rows the records give: every local unit this project has a record for.
pub open spec fn recorded(records: Seq<(String, Record)>) -> Map<Seq<char>, StatusView>
    decreases records.len(),
{
    if records.len() == 0 {
        Map::empty()
    } else {
        let before = recorded(records.drop_last());
        let (unit, record) = records.last();
        if name_of_spec(unit@, "local"@) is Some {
            before.insert(unit@, remembered_view(record))
        } else {
            before
        }
    }
}

/// The name a project's claim is shown under: the name its identity gives, else its key.
pub open spec fn holder_name(key: Seq<char>, names: Seq<(String, String)>) -> Seq<char>
    decreases names.len(),
{
    if names.len() == 0 {
        key
    } else if names.last().0@ == key {
        names.last().1@
    } else {
        holder_name(key, names.drop_last())
    }
}

/// How long a live unit has been up at `now`.
pub open spec fn uptime_at(started_at: u64, now: u64) -> Option<u64> {
    if now >= started_at {
        Some((now - started_at) as u64)
    } else {
        None
    }
}

/// The rows after the live table has its say: this project's own live units are up, and a unit
/// another project holds carries that claim on this project's row.
pub open spec fn with_live(
    rows: Map<Seq<char>, StatusView>,
    live: Seq<(Handle, Live)>,
    key: Seq<char>,
    now: u64,
    names: Seq<(String, String)>,
) -> Map<Seq<char>, StatusView>
    decreases live.len(),
{
    if live.len() == 0 {
        rows
    } else {
        let before = with_live(rows, live.drop_last(), key, now, names);
        let (h, l) = live.last();
        if h.project@ == key {
            before.insert(h.unit@, (State::Up, uptime_at(l.started_at, now), None, None, None))
        } else {
            let cur = if before.contains_key(h.unit@) {
                before[h.unit@]
            } else {
                (State::Down, None, None, None, None)
            };
            before.insert(
                h.unit@,
                (cur.0, cur.1, cur.2, Some((holder_name(h.project@, names), l.pid)), cur.4),
            )
        }
    }
}

/// Rows as a map from unit key; a later row for a key wins.
pub open spec fn rows_view(rows: Seq<(String, Status)>) -> Map<Seq<char>, StatusView>
    decreases rows.len(),
{
    if rows.len() == 0 {
        Map::empty()
    } else {
        rows_view(rows.drop_last()).insert(rows.last().0@, status_view(rows.last().1))
    }
}

pub open spec fn distinct_keys(rows: Seq<(String, Status)>) -> bool {
    forall|i: int, j: int| 0 <= i < j < rows.len() ==> rows[i].0@ != rows[j].0@
}

proof fn lemma_rows_view_update(rows: Seq<(String, Status)>, i: int, s: Status)
    requires
        distinct_keys(rows),
        0 <= i < rows.len(),
    ensures
        rows_view(rows.update(i, (rows[i].0, s))) == rows_view(rows).insert(rows[i].0@, status_view(s)),
        distinct_keys(rows.update(i, (rows[i].0, s))),
    decreases rows.len(),
{
    let updated = rows.update(i, (rows[i].0, s));
    if i == rows.len() - 1 {
        assert(updated.drop_last() =~= rows.drop_last());
        lemma_rows_view_absent(rows.drop_last(), rows[i].0@);
        assert(rows_view(updated) =~= rows_view(rows).insert(rows[i].0@, status_view(s)));
    } else {
        lemma_rows_view_update(rows.drop_last(), i, s);
        assert(updated.drop_last() =~= rows.drop_last().update(i, (rows[i].0, s)));
        assert(rows.last().0@ != rows[i].0@);
        assert(rows_view(updated) =~= rows_view(rows).insert(rows[i].0@, status_view(s)));
    }
}

proof fn lemma_rows_view_absent(rows: Seq<(String, Status)>, k: Seq<char>)
    ensures
        (forall|j: int| 0 <= j < rows.len() ==> rows[j].0@ != k) ==> !rows_view(rows).contains_key(k),
        rows_view(rows).contains_key(k) ==> exists|j: int| 0 <= j < rows.len() && rows[j].0@ == k,
    decreases rows.len(),
{
    if rows.len() > 0 {
        lemma_rows_view_absent(rows.drop_last(), k);
        if rows_view(rows).contains_key(k) && rows.last().0@ != k {
            let j = choose|j: int| 0 <= j < rows.drop_last().len() && rows.drop_last()[j].0@ == k;
            assert(rows[j].0@ == k);
        }
    }
}

/// Where the row for `key` is.
fn find_row(rows: &Vec<(String, Status)>, key: &str) -> (r: Option<usize>)
    ensures
        match r {
            Some(i) => i < rows@.len() && rows@[i as int].0@ == key@,
            None => forall|j: int| 0 <= j < rows@.len() ==> rows@[j].0@ != key@,
        },
{
    let mut i: usize = 0;
    while i < rows.len()
        invariant
            i <= rows@.len(),
            forall|j: int| 0 <= j < i ==> rows@[j].0@ != key@,
        decreases rows.len() - i,
    {
        if str_eq(rows[i].0.as_str(), key) {
            return Some(i);
        }
        i += 1;
    }
    None
}

/// Sets the row for `key`.
fn put(rows: &mut Vec<(String, Status)>, key: String, status: Status)
    requires
        distinct_keys(old(rows)@),
    ensures
        distinct_keys(final(rows)@),
        rows_view(final(rows)@) == rows_view(old(rows)@).insert(key@, status_view(status)),
{
    match find_row(rows, key.as_str()) {
        Some(i) => {
            let ghost before = rows@;
            let k = rows[i].0.clone();
            rows.set(i, (k, status));
            proof {
                assert(rows@ =~= before.update(i as int, (before[i as int].0, status))) by {
                    assert(rows@[i as int].0@ == before[i as int].0@);
                }
                lemma_rows_view_update_view(before, i as int, k, status);
            }
        },
        None => {
            let ghost before = rows@;
            rows.push((key, status));
            assert(rows@.drop_last() =~= before);
        },
    }
}

proof fn lemma_rows_view_update_view(rows: Seq<(String, Status)>, i: int, k: String, s: Status)
    requires
        distinct_keys(rows),
        0 <= i < rows.len(),
        k@ == rows[i].0@,
    ensures
        rows_view(rows.update(i, (k, s))) == rows_view(rows).insert(k@, status_view(s)),
        distinct_keys(rows.update(i, (k, s))),
    decreases rows.len(),
{
    let updated = rows.update(i, (k, s));
    if i == rows.len() - 1 {
        assert(updated.drop_last() =~= rows.drop_last());
        lemma_rows_view_absent(rows.drop_last(), k@);
        assert(rows_view(updated) =~= rows_view(rows).insert(k@, status_view(s)));
    } else {
        lemma_rows_view_update_view(rows.drop_last(), i, k, s);
        assert(updated.drop_last() =~= rows.drop_last().update(i, (k, s)));
        assert(rows_view(updated) =~= rows_view(rows).insert(k@, status_view(s)));
    }
}

/// The holder of a claim as a footer names it.
fn holder(key: &str, names: &Vec<(String, String)>) -> (r: String)
    ensures
        r@ == holder_name(key@, names@),
{
    let mut k = names.len();
    assert(names@.subrange(0, k as int) =~= names@);
    while k > 0
        invariant
            k <= names@.len(),
            holder_name(key@, names@) == holder_name(key@, names@.subrange(0, k as int)),
        decreases k,
    {
        assert(names@.subrange(0, k as int).drop_last() =~= names@.subrange(0, k - 1));
        assert(names@.subrange(0, k as int).last() == names@[k - 1]);
        if str_eq(names[k - 1].0.as_str(), key) {
            return names[k - 1].1.clone();
        }
        k -= 1;
    }
    String::from_str(key)
}

/// The footer's note for a stop that needed `SIGKILL`.
pub open spec fn escalation_spec(name: Seq<char>, grace: u64) -> Seq<char> {
    name + " ignored SIGTERM; killed after "@ + decimal(
        if grace / 1000 > 1 {
            (grace / 1000) as nat
        } else {
            1
        },
    ) + seq!['s']
}

pub fn escalation(name: &str, grace: u64) -> (r: String)
    ensures
        r@ == escalation_spec(name@, grace),
{
    let seconds = if grace / 1000 > 1 {
        grace / 1000
    } else {
        1
    };
    let mut r = String::from_str(name);
    r.append(" ignored SIGTERM; killed after ");
    let digits = decimal_string(seconds);
    r.append(digits.as_str());
    push_char(&mut r, 's');
    r
}

impl Supervisor {
    /// No two entries of the live table are the same unit of the same project.
    pub closed spec fn wf(&self) -> bool {
        forall|i: int, j: int|
            0 <= i < j < self.live@.len() ==> handle_view(self.live@[i].0) != handle_view(
                self.live@[j].0,
            )
    }

    pub closed spec fn live_spec(&self) -> Seq<(Handle, Live)> {
        self.live@
    }

    pub closed spec fn grace_spec(&self) -> u64 {
        self.grace
    }

    pub closed spec fn store_spec(&self) -> Store {
        self.store
    }

    /// The units this daemon holds, by project key and unit key.
    pub open spec fn holds_spec(&self, h: (Seq<char>, Seq<char>)) -> bool {
        exists|i: int| 0 <= i < self.live_spec().len() && handle_view(#[trigger] self.live_spec()[i].0) == h
    }

    pub fn new(root: String, grace: u64) -> (r: Supervisor)
        ensures
            r.wf(),
            r.live_spec().len() == 0,
            r.grace_spec() == grace,
            r.store_spec().root_spec() == root@,
    {
        Supervisor { store: Store::at(root), grace, live: Vec::new() }
    }

    pub fn store(&self) -> (r: &Store)
        ensures
            *r == self.store_spec(),
    {
        &self.store
    }

    /// Ownership: a daemon with a unit running has something to be the parent of.
    pub fn busy(&self) -> (r: bool)
        ensures
            r == (self.live_spec().len() > 0),
    {
        self.live.len() > 0
    }

    /// The handle of unit `name` of `project`.
    pub fn handle(&self, project: &Identity, name: &str) -> (r: Handle)
        ensures
            r.project@ == project_key_spec(project.path@),
            r.unit@ == key_spec("local"@, name@),
    {
        proof {
            reveal_strlit("local");
        }
        Handle { project: project.key(), unit: crate::unit::key(crate::unit::LOCAL, name) }
    }

    fn find(&self, handle: &Handle) -> (r: Option<usize>)
        ensures
            match r {
                Some(i) => i < self.live_spec().len() && handle_view(self.live_spec()[i as int].0)
                    == handle_view(*handle),
                None => !self.holds_spec(handle_view(*handle)),
            },
    {
        let mut i: usize = 0;
        while i < self.live.len()
            invariant
                i <= self.live@.len(),
                forall|j: int| 0 <= j < i ==> handle_view(self.live@[j].0) != handle_view(*handle),
            decreases self.live.len() - i,
        {
            if str_eq(self.live[i].0.project.as_str(), handle.project.as_str()) && str_eq(
                self.live[i].0.unit.as_str(),
                handle.unit.as_str(),
            ) {
                return Some(i);
            }
            i += 1;
        }
        None
    }

    /// Whether this daemon still holds `handle`: the entry only goes once `wait()` has returned.
    pub fn holds(&self, handle: &Handle) -> (r: bool)
        ensures
            r == self.holds_spec(handle_view(*handle)),
    {
        self.find(handle).is_some()
    }

    /// Who holds the unit name `handle` names, under any project, this one included: one daemon
    /// owns every local unit, so its live table is the whole truth about who holds a unit name.
    pub fn claim_on(&self, handle: &Handle) -> (r: Option<(String, u32)>)
        ensures
            match r {
                Some((project, pid)) => exists|i: int|
                    0 <= i < self.live_spec().len() && #[trigger] self.live_spec()[i].0.unit@ == handle.unit@
                        && self.live_spec()[i].0.project@ == project@ && self.live_spec()[i].1.pid == pid,
                None => forall|i: int|
                    0 <= i < self.live_spec().len() ==> #[trigger] self.live_spec()[i].0.unit@ != handle.unit@,
            },
    {
        let mut i: usize = 0;
        while i < self.live.len()
            invariant
                i <= self.live@.len(),
                forall|j: int| 0 <= j < i ==> #[trigger] self.live@[j].0.unit@ != handle.unit@,
            decreases self.live.len() - i,
        {
            if str_eq(self.live[i].0.unit.as_str(), handle.unit.as_str()) {
                assert(self.live_spec()[i as int].0.unit@ == handle.unit@);
                return Some((self.live[i].0.project.clone(), self.live[i].1.pid));
            }
            i += 1;
        }
        None
    }

    /// A claim on a unit name, shown under the holder's name when its identity gives one.
    pub fn claim(&self, project_key: &str, pid: u32, names: &Vec<(String, String)>) -> (r: Claim)
        ensures
            r.project@ == holder_name(project_key@, names@),
            r.pid == pid,
    {
        Claim { project: holder(project_key, names), pid }
    }

    /// A unit that was just forked joins the live table.
    pub fn adopt(&mut self, handle: Handle, pid: u32, started_at: u64)
        requires
            old(self).wf(),
            !old(self).holds_spec(handle_view(handle)),
        ensures
            final(self).wf(),
            final(self).live_spec() == old(self).live_spec().push(
                (handle, Live { pid, started_at, stopping: false }),
            ),
            final(self).store_spec() == old(self).store_spec(),
            final(self).grace_spec() == old(self).grace_spec(),
    {
        self.live.push((handle, Live { pid, started_at, stopping: false }));
        proof {
            assert forall|i: int, j: int| 0 <= i < j < self.live@.len() implies handle_view(
                self.live@[i].0,
            ) != handle_view(self.live@[j].0) by {
                if j == self.live@.len() - 1 {
                    assert(self.live@[i] == old(self).live@[i]);
                    if handle_view(old(self).live_spec()[i].0) == handle_view(handle) {
                        assert(old(self).holds_spec(handle_view(handle)));
                    }
                } else {
                    assert(self.live@[i] == old(self).live@[i]);
                    assert(self.live@[j] == old(self).live@[j]);
                }
            }
        }
    }

    /// Marks a live unit as being stopped and says which group to signal; nothing when this daemon
    /// does not hold it.
    pub fn mark_stopping(&mut self, handle: &Handle) -> (r: Option<u32>)
        requires
            old(self).wf(),
        ensures
            final(self).wf(),
            final(self).store_spec() == old(self).store_spec(),
            final(self).grace_spec() == old(self).grace_spec(),
            final(self).live_spec().len() == old(self).live_spec().len(),
            match r {
                None => !old(self).holds_spec(handle_view(*handle)) && final(self).live_spec()
                    == old(self).live_spec(),
                Some(pid) => exists|i: int|
                    0 <= i < old(self).live_spec().len() && handle_view(old(self).live_spec()[i].0)
                        == handle_view(*handle) && old(self).live_spec()[i].1.pid == pid
                        && final(self).live_spec() == old(self).live_spec().update(
                        i,
                        (
                            old(self).live_spec()[i].0,
                            Live { stopping: true, ..old(self).live_spec()[i].1 },
                        ),
                    ),
            },
    {
        match self.find(handle) {
            None => None,
            Some(i) => {
                let h = Handle {
                    project: self.live[i].0.project.clone(),
                    unit: self.live[i].0.unit.clone(),
                };
                let l = self.live[i].1;
                let ghost before = self.live@;
                assert(h == before[i as int].0);
                self.live.set(i, (h, Live { stopping: true, ..l }));
                proof {
                    assert forall|a: int, b: int| 0 <= a < b < self.live@.len() implies handle_view(
                        self.live@[a].0,
                    ) != handle_view(self.live@[b].0) by {
                        assert(handle_view(self.live@[a].0) == handle_view(before[a].0));
                        assert(handle_view(self.live@[b].0) == handle_view(before[b].0));
                    }
                }
                Some(l.pid)
            },
        }
    }
}


impl Supervisor {
    /// The answer to `stop`, once the halt has gone as far as it had to. Nothing to signal leaves the
    /// record alone: it still says what the unit exited with.
    pub fn stop(&self, name: &str, halted: Halt) -> (r: Verdict)
        ensures
            match halted {
                Halt::NotRunning => r.note matches Some(n) && n@ == name@ + " is not running"@,
                Halt::Stopped => r.note is None,
                Halt::Escalated => r.note matches Some(n) && n@ == escalation_spec(name@, self.grace_spec()),
            },
    {
        match halted {
            Halt::NotRunning => {
                let mut n = String::from_str(name);
                n.append(" is not running");
                Verdict::note(n)
            },
            Halt::Stopped => Verdict::done(),
            Halt::Escalated => Verdict::note(escalation(name, self.grace)),
        }
    }

    /// The answer to `restart`: the start's own answer, unless the halt before it had to escalate
    /// and the start had nothing to say.
    pub fn restart(&self, name: &str, halted: Halt, started: Verdict) -> (r: Verdict)
        ensures
            (halted == Halt::Escalated && started.note is None) ==> (r.note matches Some(n) && n@
                == escalation_spec(name@, self.grace_spec())),
            !(halted == Halt::Escalated && started.note is None) ==> r == started,
    {
        match (halted, &started.note) {
            (Halt::Escalated, None) => Verdict::note(escalation(name, self.grace)),
            _ => started,
        }
    }

    /// Stopped means two things and needs both: the unit reaped, and nothing left in its group.
    pub fn is_quiet(&self, handle: &Handle, group_empty: bool) -> (r: bool)
        ensures
            r == (!self.holds_spec(handle_view(*handle)) && group_empty),
    {
        !self.holds(handle) && group_empty
    }

    /// A unit was reaped with `exit`: the record it leaves, from the one it had (or a stopped one),
    /// and the live entry goes. A unit being stopped ends `down`, any other `dead`.
    pub fn reaped(&mut self, handle: &Handle, record: Option<Record>, exit: Option<Exit>) -> (r: Record)
        requires
            old(self).wf(),
        ensures
            final(self).wf(),
            final(self).store_spec() == old(self).store_spec(),
            final(self).grace_spec() == old(self).grace_spec(),
            !final(self).holds_spec(handle_view(*handle)),
            forall|h: (Seq<char>, Seq<char>)| h != handle_view(*handle) ==> (final(self).holds_spec(h) <==> old(self).holds_spec(h)),
            r.state == if exists|i: int| 0 <= i < old(self).live_spec().len() && handle_view(old(self).live_spec()[i].0) == handle_view(*handle) && old(self).live_spec()[i].1.stopping {
                State::Down
            } else {
                State::Dead
            },
            r.pid is None,
            r.started_at is None,
            r.ps_start is None,
            r.exit == exit,
            record matches Some(rec) ==> r.cmd@ == rec.cmd@ && r.cwd@ == rec.cwd@,
            record is None ==> r.cmd@.len() == 0 && r.cwd@.len() == 0,
    {
        let found = self.find(handle);
        let stopping = match found {
            Some(i) => self.live[i].1.stopping,
            None => false,
        };
        proof {
            if let Some(i) = found {
                assert forall|j: int| 0 <= j < self.live@.len() && handle_view(self.live@[j].0) == handle_view(*handle) implies j == i by {
                    if j != i {
                        if j < i {
                            assert(handle_view(self.live@[j].0) != handle_view(self.live@[i as int].0));
                        } else {
                            assert(handle_view(self.live@[i as int].0) != handle_view(self.live@[j].0));
                        }
                    }
                }
            }
        }
        let mut out = match record {
            Some(r) => r,
            None => Record::stopped(),
        };
        out.state = if stopping {
            State::Down
        } else {
            State::Dead
        };
        out.pid = None;
        out.started_at = None;
        out.ps_start = None;
        out.exit = exit;
        match found {
            Some(i) => {
                let ghost before = self.live@;
                self.live.remove(i);
                proof {
                    assert forall|a: int, b: int| 0 <= a < b < self.live@.len() implies handle_view(
                        self.live@[a].0,
                    ) != handle_view(self.live@[b].0) by {
                        let a2 = if a < i { a } else { a + 1 };
                        let b2 = if b < i { b } else { b + 1 };
                        assert(self.live@[a] == before[a2]);
                        assert(self.live@[b] == before[b2]);
                    }
                    assert forall|h: (Seq<char>, Seq<char>)| h != handle_view(*handle) implies (self.holds_spec(h) <==> old(self).holds_spec(h)) by {
                        if old(self).holds_spec(h) {
                            let j = choose|j: int| 0 <= j < old(self).live_spec().len() && handle_view(#[trigger] old(self).live_spec()[j].0) == h;
                            assert(j != i);
                            let j2 = if j < i { j } else { j - 1 };
                            assert(self.live@[j2] == before[j]);
                            assert(handle_view(self.live_spec()[j2].0) == h);
                        }
                        if self.holds_spec(h) {
                            let j = choose|j: int| 0 <= j < self.live_spec().len() && handle_view(#[trigger] self.live_spec()[j].0) == h;
                            let j2 = if j < i { j } else { j + 1 };
                            assert(self.live@[j] == before[j2]);
                            assert(handle_view(old(self).live_spec()[j2].0) == h);
                        }
                    }
                    assert(!self.holds_spec(handle_view(*handle))) by {
                        if self.holds_spec(handle_view(*handle)) {
                            let j = choose|j: int| 0 <= j < self.live_spec().len() && handle_view(#[trigger] self.live_spec()[j].0) == handle_view(*handle);
                            let j2 = if j < i { j } else { j + 1 };
                            assert(self.live@[j] == before[j2]);
                        }
                    }
                }
            },
            None => {},
        }
        out
    }

    /// Every unit of `project` as a row: its records read back, then this daemon's own live units of
    /// it, then the claims other projects hold on its unit names. `names` gives the name each holder
    /// is shown under; `now` is milliseconds since the epoch.
    pub fn status(
        &self,
        project: &Identity,
        records: &Vec<(String, Record)>,
        names: &Vec<(String, String)>,
        now: u64,
    ) -> (r: Vec<(String, Status)>)
        ensures
            distinct_keys(r@),
            rows_view(r@) == with_live(
                recorded(records@),
                self.live_spec(),
                project_key_spec(project.path@),
                now,
                names@,
            ),
    {
        let key = project.key();
        let mut rows: Vec<(String, Status)> = Vec::new();
        let mut i: usize = 0;
        while i < records.len()
            invariant
                i <= records@.len(),
                distinct_keys(rows@),
                rows_view(rows@) == recorded(records@.subrange(0, i as int)),
            decreases records.len() - i,
        {
            assert(records@.subrange(0, i as int + 1).drop_last() =~= records@.subrange(0, i as int));
            assert(records@.subrange(0, i as int + 1).last() == records@[i as int]);
            proof {
                reveal_strlit("local");
            }
            if name_of(records[i].0.as_str(), crate::unit::LOCAL).is_some() {
                let row = remembered(&records[i].1);
                put(&mut rows, records[i].0.clone(), row);
            }
            i += 1;
        }
        assert(records@.subrange(0, records@.len() as int) =~= records@);
        let mut k: usize = 0;
        while k < self.live.len()
            invariant
                k <= self.live@.len(),
                distinct_keys(rows@),
                key@ == project_key_spec(project.path@),
                rows_view(rows@) == with_live(
                    recorded(records@),
                    self.live@.subrange(0, k as int),
                    key@,
                    now,
                    names@,
                ),
            decreases self.live.len() - k,
        {
            let ghost pre = self.live@.subrange(0, k as int + 1);
            assert(pre.drop_last() =~= self.live@.subrange(0, k as int));
            assert(pre.last() == self.live@[k as int]);
            let h = &self.live[k].0;
            let l = self.live[k].1;
            if str_eq(h.project.as_str(), key.as_str()) {
                let uptime = if now >= l.started_at {
                    Some(now - l.started_at)
                } else {
                    None
                };
                let row = Status { state: State::Up, uptime, exit: None, held: None, note: None };
                put(&mut rows, h.unit.clone(), row);
            } else {
                let ghost before = rows_view(rows@);
                let current = match find_row(&rows, h.unit.as_str()) {
                    Some(j) => {
                        proof {
                            lemma_rows_view_lookup(rows@, j as int);
                        }
                        rows[j].1.clone_status()
                    },
                    None => {
                        proof {
                            lemma_rows_view_absent(rows@, h.unit@);
                        }
                        Status::of(State::Down)
                    },
                };
                let claim = self.claim(h.project.as_str(), l.pid, names);
                let row = Status { held: Some(claim), ..current };
                put(&mut rows, h.unit.clone(), row);
            }
            k += 1;
        }
        assert(self.live@.subrange(0, self.live@.len() as int) =~= self.live@);
        rows
    }
}

impl Supervisor {
    /// Kill-on-exit, its first half: every live unit is marked as being stopped, so its reaping
    /// records `down`, and each group to signal is handed back with the unit it belongs to.
    pub fn kill_all(&mut self) -> (r: Vec<(Handle, u32)>)
        requires
            old(self).wf(),
        ensures
            final(self).wf(),
            final(self).store_spec() == old(self).store_spec(),
            final(self).grace_spec() == old(self).grace_spec(),
            final(self).live_spec().len() == old(self).live_spec().len(),
            r@.len() == old(self).live_spec().len(),
            forall|i: int| 0 <= i < r@.len() ==> {
                &&& #[trigger] r@[i].0 == old(self).live_spec()[i].0
                &&& r@[i].1 == old(self).live_spec()[i].1.pid
                &&& final(self).live_spec()[i] == (
                    old(self).live_spec()[i].0,
                    Live { stopping: true, ..old(self).live_spec()[i].1 },
                )
            },
    {
        let mut running: Vec<(Handle, u32)> = Vec::new();
        let mut i: usize = 0;
        while i < self.live.len()
            invariant
                i <= self.live@.len(),
                self.live@.len() == old(self).live@.len(),
                self.store == old(self).store,
                self.grace == old(self).grace,
                running@.len() == i,
                forall|j: int| 0 <= j < i ==> {
                    &&& #[trigger] running@[j].0 == old(self).live@[j].0
                    &&& running@[j].1 == old(self).live@[j].1.pid
                    &&& self.live@[j] == (
                        old(self).live@[j].0,
                        Live { stopping: true, ..old(self).live@[j].1 },
                    )
                },
                forall|j: int| i <= j < self.live@.len() ==> self.live@[j] == old(self).live@[j],
            decreases self.live.len() - i,
        {
            let h = Handle { project: self.live[i].0.project.clone(), unit: self.live[i].0.unit.clone() };
            let h2 = Handle { project: self.live[i].0.project.clone(), unit: self.live[i].0.unit.clone() };
            let l = self.live[i].1;
            self.live.set(i, (h, Live { stopping: true, ..l }));
            running.push((h2, l.pid));
            i += 1;
        }
        proof {
            assert forall|a: int, b: int| 0 <= a < b < self.live@.len() implies handle_view(
                self.live@[a].0,
            ) != handle_view(self.live@[b].0) by {
                assert(running@[a].0 == old(self).live@[a].0);
                assert(running@[b].0 == old(self).live@[b].0);
                assert(self.live@[a].0 == old(self).live@[a].0);
                assert(self.live@[b].0 == old(self).live@[b].0);
            }
        }
        running
    }

    /// The records a daemon coming up has to look into: a local unit's record that names a pid was
    /// written by a predecessor, whose children are this daemon's to kill if they still run.
    pub fn kill_leftovers(&self, records: &Vec<(String, Record)>) -> (r: Vec<(String, u32)>)
        ensures
            leftovers_view(r@) == leftovers(records@),
    {
        let mut found: Vec<(String, u32)> = Vec::new();
        let mut j: usize = 0;
        proof {
            reveal_strlit("local");
        }
        while j < records.len()
            invariant
                j <= records@.len(),
                leftovers_view(found@) == leftovers(records@.subrange(0, j as int)),
            decreases records.len() - j,
        {
            assert(records@.subrange(0, j as int + 1).drop_last() =~= records@.subrange(0, j as int));
            assert(records@.subrange(0, j as int + 1).last() == records@[j as int]);
            if name_of(records[j].0.as_str(), crate::unit::LOCAL).is_some() {
                match records[j].1.pid {
                    Some(pid) => {
                        let ghost before = found@;
                        found.push((records[j].0.clone(), pid));
                        assert(leftovers_view(found@) =~= leftovers_view(before).push((records@[j as int].0@, pid)));
                    },
                    None => {},
                }
            }
            j += 1;
        }
        assert(records@.subrange(0, records@.len() as int) =~= records@);
        found
    }
}

/// Which of `records` a daemon coming up rewrites with `forget`: the local units whose record still
/// names a pid, whether or not that process was still there to kill, by position, in the order
/// the records came.
pub open spec fn forget_due(records: Seq<(String, Record)>) -> Seq<int>
    decreases records.len(),
{
    if records.len() == 0 {
        Seq::empty()
    } else {
        let before = forget_due(records.drop_last());
        let (unit, record) = records.last();
        if name_of_spec(unit@, "local"@) is Some && record.pid is Some {
            before.push(records.len() - 1)
        } else {
            before
        }
    }
}

/// The positions of the records a daemon coming up rewrites, once their leftovers are dealt with.
pub fn to_forget(records: &Vec<(String, Record)>) -> (r: Vec<usize>)
    ensures
        r@.map_values(|i: usize| i as int) == forget_due(records@),
{
    let mut found: Vec<usize> = Vec::new();
    let mut j: usize = 0;
    proof {
        reveal_strlit("local");
    }
    while j < records.len()
        invariant
            j <= records@.len(),
            found@.map_values(|i: usize| i as int) == forget_due(records@.subrange(0, j as int)),
        decreases records.len() - j,
    {
        assert(records@.subrange(0, j as int + 1).drop_last() =~= records@.subrange(0, j as int));
        assert(records@.subrange(0, j as int + 1).last() == records@[j as int]);
        let record = &records[j].1;
        if name_of(records[j].0.as_str(), crate::unit::LOCAL).is_some() && record.pid.is_some() {
            let ghost before = found@;
            found.push(j);
            assert(found@.map_values(|i: usize| i as int) =~= before.map_values(|i: usize| i as int).push(j as int));
        }
        j += 1;
    }
    assert(records@.subrange(0, records@.len() as int) =~= records@);
    found
}

/// A daemon is busy exactly while it holds some unit: `adopt` makes it busy, and once `reaped`
/// has let go of the last unit it holds, it is not.
pub proof fn law_busy_exactly_while_a_unit_is_held(s: Supervisor)
    ensures
        (s.live_spec().len() > 0) <==> (exists|h: (Seq<char>, Seq<char>)| s.holds_spec(h)),
{
    if s.live_spec().len() > 0 {
        assert(s.holds_spec(handle_view(s.live_spec()[0].0)));
    }
}

/// Kill-on-exit leaves nothing busy: once every unit `kill_all` named has been reaped, and nothing
/// new was adopted meanwhile, the daemon holds no unit at all. (Each of those reapings records
/// `down`, since `kill_all` marked every unit as being stopped.)
pub proof fn law_reaping_what_kill_all_named_leaves_nothing_busy(
    before: Supervisor,
    after: Supervisor,
    named: Seq<(Handle, u32)>,
)
    requires
        named.len() == before.live_spec().len(),
        forall|i: int| 0 <= i < named.len() ==> #[trigger] named[i].0 == before.live_spec()[i].0,
        forall|i: int| 0 <= i < named.len() ==> !after.holds_spec(handle_view(#[trigger] named[i].0)),
        forall|h: (Seq<char>, Seq<char>)| #[trigger] after.holds_spec(h) ==> before.holds_spec(h),
    ensures
        after.live_spec().len() == 0,
{
    if after.live_spec().len() > 0 {
        let h = handle_view(after.live_spec()[0].0);
        assert(after.holds_spec(h));
        assert(before.holds_spec(h));
        let i = choose|i: int| 0 <= i < before.live_spec().len() && handle_view(#[trigger] before.live_spec()[i].0) == h;
        assert(named[i].0 == before.live_spec()[i].0);
        assert(!after.holds_spec(handle_view(named[i].0)));
    }
}

/// What a daemon coming up says it killed in slot `slot`: `{slot}/{unit}` for each leftover that was
/// still running (`running`, one flag per leftover), in order.
pub open spec fn killed_spec(slot: Seq<char>, leftovers: Seq<(Seq<char>, u32)>, running: Seq<bool>) -> Seq<Seq<char>>
    decreases leftovers.len(),
{
    if leftovers.len() == 0 || running.len() == 0 {
        Seq::empty()
    } else {
        let before = killed_spec(slot, leftovers.drop_last(), running.drop_last());
        if running.last() {
            before.push(slot + seq!['/'] + leftovers.last().0)
        } else {
            before
        }
    }
}

/// The names of the leftovers of one slot that were still running and so were killed.
pub fn killed(slot: &str, leftovers: &Vec<(String, u32)>, running: &Vec<bool>) -> (r: Vec<String>)
    requires
        running@.len() == leftovers@.len(),
    ensures
        views(r@) == killed_spec(slot@, leftovers_view(leftovers@), running@),
{
    let mut r: Vec<String> = Vec::new();
    let mut i: usize = 0;
    while i < leftovers.len()
        invariant
            i <= leftovers@.len(),
            running@.len() == leftovers@.len(),
            views(r@) == killed_spec(
                slot@,
                leftovers_view(leftovers@.subrange(0, i as int)),
                running@.subrange(0, i as int),
            ),
        decreases leftovers.len() - i,
    {
        let ghost lv = leftovers_view(leftovers@.subrange(0, i as int + 1));
        assert(lv.drop_last() =~= leftovers_view(leftovers@.subrange(0, i as int)));
        assert(running@.subrange(0, i as int + 1).drop_last() =~= running@.subrange(0, i as int));
        assert(lv.last() == (leftovers@[i as int].0@, leftovers@[i as int].1));
        assert(running@.subrange(0, i as int + 1).last() == running@[i as int]);
        assert(lv.len() > 0);
        if running[i] {
            let mut name = String::from_str(slot);
            push_char(&mut name, '/');
            name.append(leftovers[i].0.as_str());
            assert(name@ =~= slot@ + seq!['/'] + leftovers@[i as int].0@);
            let ghost before = r@;
            r.push(name);
            assert(views(r@) =~= views(before).push(name@));
        }
        i += 1;
    }
    assert(leftovers@.subrange(0, i as int) =~= leftovers@);
    assert(running@.subrange(0, i as int) =~= running@);
    r
}

/// The local units whose records name a pid, with that pid, in the order the records came.
pub open spec fn leftovers(records: Seq<(String, Record)>) -> Seq<(Seq<char>, u32)>
    decreases records.len(),
{
    if records.len() == 0 {
        Seq::empty()
    } else {
        let before = leftovers(records.drop_last());
        let (unit, record) = records.last();
        match record.pid {
            Some(pid) if name_of_spec(unit@, "local"@) is Some => before.push((unit@, pid)),
            _ => before,
        }
    }
}

pub open spec fn leftovers_view(v: Seq<(String, u32)>) -> Seq<(Seq<char>, u32)> {
    v.map_values(|e: (String, u32)| (e.0@, e.1))
}

proof fn lemma_rows_view_lookup(rows: Seq<(String, Status)>, j: int)
    requires
        distinct_keys(rows),
        0 <= j < rows.len(),
    ensures
        rows_view(rows).contains_key(rows[j].0@),
        rows_view(rows)[rows[j].0@] == status_view(rows[j].1),
    decreases rows.len(),
{
    if j < rows.len() - 1 {
        lemma_rows_view_lookup(rows.drop_last(), j);
        assert(rows.last().0@ != rows[j].0@);
    }
}

impl Status {
    /// A copy of a row, field for field.
    pub fn clone_status(&self) -> (r: Status)
        ensures
            r == *self,
    {
        Status {
            state: self.state,
            uptime: self.uptime,
            exit: self.exit,
            held: match &self.held {
                Some(c) => Some(Claim { project: c.project.clone(), pid: c.pid }),
                None => None,
            },
            note: match &self.note {
                Some(n) => Some(n.clone()),
                None => None,
            },
        }
    }
}

/// A record read back as a row.
pub fn remembered(record: &Record) -> (r: Status)
    ensures
        status_view(r) == remembered_view(*record),
{
    Status {
        state: match record.state {
            State::Dead => State::Dead,
            _ => State::Down,
        },
        uptime: None,
        exit: record.exit,
        held: None,
        note: None,
    }
}

/// A record for a unit that is not running: its exit status stays, its pid does not. `None` when
/// the record already says so and nothing needs writing.
pub fn forget(record: &Record) -> (r: Option<Record>)
    ensures
        (record.pid is None && record.state != State::Up) <==> r is None,
        r matches Some(f) ==> {
            &&& f.state == State::Down
            &&& f.pid is None
            &&& f.started_at is None
            &&& f.ps_start is None
            &&& f.exit == record.exit
            &&& f.cmd@ == record.cmd@
            &&& f.cwd@ == record.cwd@
        },
{
    if record.pid.is_none() && record.state != State::Up {
        return None;
    }
    Some(Record {
        state: State::Down,
        pid: None,
        started_at: None,
        ps_start: None,
        cmd: clone_words(&record.cmd),
        cwd: record.cwd.clone(),
        exit: record.exit,
    })
}

fn clone_words(words: &Vec<String>) -> (r: Vec<String>)
    ensures
        r@ == words@,
{
    let mut r: Vec<String> = Vec::new();
    let mut i: usize = 0;
    while i < words.len()
        invariant
            i <= words@.len(),
            r@ == words@.subrange(0, i as int),
        decreases words.len() - i,
    {
        r.push(words[i].clone());
        i += 1;
    }
    assert(words@.subrange(0, words@.len() as int) =~= words@);
    r
}

/// A record the daemon never forked never reads as running: every row the records give is `down`
/// or `dead`.
pub proof fn law_a_record_never_reads_as_running(records: Seq<(String, Record)>, unit: Seq<char>)
    requires
        recorded(records).contains_key(unit),
    ensures
        recorded(records)[unit].0 == State::Down || recorded(records)[unit].0 == State::Dead,
        recorded(records)[unit].1 is None,
    decreases records.len(),
{
    if records.len() > 0 {
        let before = recorded(records.drop_last());
        if before.contains_key(unit) {
            law_a_record_never_reads_as_running(records.drop_last(), unit);
        }
    }
}

/// A row reads `up` only for a unit of this very project that the live table holds.
pub proof fn law_up_only_from_the_live_table(
    records: Seq<(String, Record)>,
    live: Seq<(Handle, Live)>,
    key: Seq<char>,
    now: u64,
    names: Seq<(String, String)>,
    unit: Seq<char>,
)
    requires
        with_live(recorded(records), live, key, now, names).contains_key(unit),
        with_live(recorded(records), live, key, now, names)[unit].0 == State::Up,
    ensures
        exists|i: int| 0 <= i < live.len() && #[trigger] live[i].0.project@ == key && live[i].0.unit@ == unit,
    decreases live.len(),
{
    if live.len() == 0 {
        law_a_record_never_reads_as_running(records, unit);
    } else {
        let before = with_live(recorded(records), live.drop_last(), key, now, names);
        let (h, l) = live.last();
        if h.project@ == key && h.unit@ == unit {
            assert(live[live.len() - 1].0.project@ == key);
        } else {
            assert(before.contains_key(unit));
            law_up_only_from_the_live_table(records, live.drop_last(), key, now, names, unit);
            let i = choose|i: int| 0 <= i < live.drop_last().len() && #[trigger] live.drop_last()[i].0.project@ == key && live.drop_last()[i].0.unit@ == unit;
            assert(live[i] == live.drop_last()[i]);
        }
    }
}

} // verus!
