//! Spawn records of tmux subagents: how they are named, bound to the child's
//! identity, listed, and when garbage collection removes them.
use crate::ids::{fresh_id, is_v7, hyphenated_hex, id_suffix, id_suffix_spec, id_text};
use crate::paths::{join, join_spec};
use crate::project::opt_view;
use crate::seqs::{sort_by_stamp, sort_by_stamp_vec, Stamped};
use crate::text::{blank, concat, is_blank, str_eq, string_views};
use vstd::prelude::*;
use vstd::string::*;

verus! {

/// The private record of a spawned subagent.
#[derive(Debug, Clone, PartialEq, Eq)]
pub struct SpawnRecord {
    pub spawn_id: u128,
    pub parent_pi_session_id: String,
    pub parent_pid: u32,
    pub child_pi_session_id: Option<String>,
    pub child_paj_session_id: Option<u128>,
    pub name: String,
    pub tmux_name: String,
    pub cwd: String,
    pub project_root: String,
    pub task: String,
    pub created_at_ms: u64,
    pub registered_at_ms: Option<u64>,
}

/// Where spawn records are kept.
#[derive(Debug, Clone, PartialEq, Eq)]
pub struct SpawnStore {
    pub root: String,
}

/// Why a spawn record operation failed.
#[derive(Debug, Clone, PartialEq, Eq)]
pub enum SpawnError {
    MissingRuntimeDirectory,
    NotFound(u128),
    EmptyTask,
    InvalidSystemTime(String),
    TimestampOutOfRange,
    Io(String),
    Json(String),
}

/// What garbage collection does next with a record.
#[derive(Debug, Clone, Copy, PartialEq, Eq, Structural)]
pub enum GcStep {
    /// The record stays.
    Keep,
    /// The record's tmux session is killed first.
    Kill,
    /// The record (and its launcher directory) is removed.
    Remove,
}

impl Stamped for SpawnRecord {
    open spec fn stamp_spec(&self) -> u64 {
        self.created_at_ms
    }

    fn stamp(&self) -> (r: u64) {
        self.created_at_ms
    }
}

/// The record that `create` makes for identifier `id` at `now`.
pub open spec fn created_record(
    parent_pi_session_id: String,
    parent_pid: u32,
    cwd: String,
    project_root: String,
    task: String,
    id: u128,
    now: u64,
    r: SpawnRecord,
) -> bool {
    &&& r.spawn_id == id
    &&& r.parent_pi_session_id == parent_pi_session_id
    &&& r.parent_pid == parent_pid
    &&& r.child_pi_session_id is None
    &&& r.child_paj_session_id is None
    &&& r.name@ == "agent-"@ + id_suffix_spec(id, 8)
    &&& r.tmux_name@ == "paj-"@ + id_suffix_spec(id, 12)
    &&& r.cwd == cwd
    &&& r.project_root == project_root
    &&& r.task == task
    &&& r.created_at_ms == now
    &&& r.registered_at_ms is None
}

/// Whether a record shows in a listing for `parent` (every parent when there
/// is none), active records only when `active_only`.
pub open spec fn listed(r: SpawnRecord, parent: Option<Seq<char>>, active_only: bool, tmux_exists: bool) -> bool {
    (match parent {
        Some(p) => r.parent_pi_session_id@ == p,
        None => true,
    }) && (!active_only || tmux_exists)
}

impl SpawnStore {
    /// A store rooted at `root` (its directories are made by the caller).
    pub fn new(root: String) -> (s: SpawnStore)
        ensures
            s.root@ == root@,
    {
        SpawnStore { root }
    }

    /// The directory of the records.
    pub fn records_dir(&self) -> (p: String)
        ensures
            p@ == join_spec(self.root@, "subagents"@),
    {
        join(self.root.as_str(), "subagents")
    }

    /// The file of a record.
    pub fn path(&self, spawn_id: u128) -> (p: String)
        ensures
            p@ == join_spec(join_spec(self.root@, "subagents"@), hyphenated_hex(spawn_id) + ".json"@),
    {
        let dir = self.records_dir();
        let id = id_text(spawn_id);
        let file = concat(id.as_str(), ".json");
        join(dir.as_str(), file.as_str())
    }

    /// The launcher directory of a spawn, removed with its record.
    pub fn launcher_dir(&self, spawn_id: u128) -> (p: String)
        ensures
            p@ == join_spec(join_spec(self.root@, "subagent-launchers"@), hyphenated_hex(spawn_id)),
    {
        let dir = join(self.root.as_str(), "subagent-launchers");
        let id = id_text(spawn_id);
        join(dir.as_str(), id.as_str())
    }

    /// The record of a spawn with identifier `id` at `now`, unless the task is
    /// blank.
    pub fn record_for(
        &self,
        parent_pi_session_id: String,
        parent_pid: u32,
        cwd: String,
        project_root: String,
        task: String,
        id: u128,
        now: u64,
    ) -> (r: Result<SpawnRecord, SpawnError>)
        ensures
            blank(task@) ==> r == Err::<SpawnRecord, SpawnError>(SpawnError::EmptyTask),
            !blank(task@) ==> (r matches Ok(rec) && created_record(
                parent_pi_session_id,
                parent_pid,
                cwd,
                project_root,
                task,
                id,
                now,
                rec,
            )),
    {
        if is_blank(task.as_str()) {
            return Err(SpawnError::EmptyTask);
        }
        let short = id_suffix(id, 8);
        let longer = id_suffix(id, 12);
        Ok(
            SpawnRecord {
                spawn_id: id,
                parent_pi_session_id,
                parent_pid,
                child_pi_session_id: None,
                child_paj_session_id: None,
                name: concat("agent-", short.as_str()),
                tmux_name: concat("paj-", longer.as_str()),
                cwd,
                project_root,
                task,
                created_at_ms: now,
                registered_at_ms: None,
            },
        )
    }

    /// The record of a new spawn at `now`, under a fresh identifier, unless
    /// the task is blank.
    pub fn create(
        &self,
        parent_pi_session_id: String,
        parent_pid: u32,
        cwd: String,
        project_root: String,
        task: String,
        now: u64,
    ) -> (r: Result<SpawnRecord, SpawnError>)
        ensures
            r matches Ok(rec) ==> is_v7(rec.spawn_id),
            blank(task@) ==> r == Err::<SpawnRecord, SpawnError>(SpawnError::EmptyTask),
            !blank(task@) ==> (r matches Ok(rec) && created_record(
                parent_pi_session_id,
                parent_pid,
                cwd,
                project_root,
                task,
                rec.spawn_id,
                now,
                rec,
            )),
    {
        if is_blank(task.as_str()) {
            return Err(SpawnError::EmptyTask);
        }
        let id = fresh_id();
        self.record_for(parent_pi_session_id, parent_pid, cwd, project_root, task, id, now)
    }

    /// `record` bound to the registered child's identities and name at `now`.
    pub fn bind(
        &self,
        record: SpawnRecord,
        child_pi_session_id: String,
        child_paj_session_id: u128,
        name: String,
        now: u64,
    ) -> (r: SpawnRecord)
        ensures
            r == (SpawnRecord {
                child_pi_session_id: Some(child_pi_session_id),
                child_paj_session_id: Some(child_paj_session_id),
                name,
                registered_at_ms: Some(now),
                ..record
            }),
    {
        SpawnRecord {
            child_pi_session_id: Some(child_pi_session_id),
            child_paj_session_id: Some(child_paj_session_id),
            name,
            registered_at_ms: Some(now),
            ..record
        }
    }
}

/// Whether a record shows in a listing (see `listed`).
pub fn is_listed(record: &SpawnRecord, parent: Option<&str>, active_only: bool, tmux_exists: bool) -> (b: bool)
    ensures
        b == listed(
            *record,
            match parent {
                Some(p) => Some(p@),
                None => None,
            },
            active_only,
            tmux_exists,
        ),
{
    let by_parent = match parent {
        Some(p) => str_eq(record.parent_pi_session_id.as_str(), p),
        None => true,
    };
    by_parent && (!active_only || tmux_exists)
}

/// The tmux arguments that ask whether a subagent's session exists.
pub fn has_session_args(tmux_name: &str) -> (args: Vec<String>)
    ensures
        string_views(args@) == seq!["-L"@, "paj"@, "has-session"@, "-t"@, "="@ + tmux_name@],
{
    let mut args: Vec<String> = Vec::new();
    args.push(String::from_str("-L"));
    args.push(String::from_str("paj"));
    args.push(String::from_str("has-session"));
    args.push(String::from_str("-t"));
    args.push(concat("=", tmux_name));
    proof {
        assert(string_views(args@) =~= seq![
            "-L"@,
            "paj"@,
            "has-session"@,
            "-t"@,
            "="@ + tmux_name@,
        ]);
    }
    args
}

/// The tmux arguments that kill a subagent's session.
pub fn kill_session_args(tmux_name: &str) -> (args: Vec<String>)
    ensures
        string_views(args@) == seq!["-L"@, "paj"@, "kill-session"@, "-t"@, "="@ + tmux_name@],
{
    let mut args: Vec<String> = Vec::new();
    args.push(String::from_str("-L"));
    args.push(String::from_str("paj"));
    args.push(String::from_str("kill-session"));
    args.push(String::from_str("-t"));
    args.push(concat("=", tmux_name));
    proof {
        assert(string_views(args@) =~= seq![
            "-L"@,
            "paj"@,
            "kill-session"@,
            "-t"@,
            "="@ + tmux_name@,
        ]);
    }
    args
}

/// Records in the order they were created, ties kept in the order given.
pub fn order_records(records: Vec<SpawnRecord>) -> (r: Vec<SpawnRecord>)
    ensures
        r@ == sort_by_stamp(records@),
{
    sort_by_stamp_vec(records)
}

/// The first garbage-collection step for a record: kept while its tmux
/// session runs and its parent process lives; its session killed when the
/// session runs but the parent is gone; removed when the session is gone.
pub open spec fn gc_step_spec(tmux_exists: bool, parent_alive: bool) -> GcStep {
    if tmux_exists && parent_alive {
        GcStep::Keep
    } else if tmux_exists {
        GcStep::Kill
    } else {
        GcStep::Remove
    }
}

/// The first garbage-collection step for a record (see `gc_step_spec`).
pub fn gc_first_step(tmux_exists: bool, parent_alive: bool) -> (s: GcStep)
    ensures
        s == gc_step_spec(tmux_exists, parent_alive),
{
    if tmux_exists && parent_alive {
        GcStep::Keep
    } else if tmux_exists {
        GcStep::Kill
    } else {
        GcStep::Remove
    }
}

/// The step after a kill: the record stays only when the kill failed and the
/// session still runs.
pub fn gc_after_kill(killed: bool, still_exists: bool) -> (s: GcStep)
    ensures
        !killed && still_exists ==> s == GcStep::Keep,
        killed || !still_exists ==> s == GcStep::Remove,
{
    if !killed && still_exists {
        GcStep::Keep
    } else {
        GcStep::Remove
    }
}

/// Law: a record is listed exactly when it belongs to the parent asked for
/// (any parent when none is) and, when only active records are asked for,
/// its tmux session exists; a record whose session is gone is never listed
/// as active, whatever the parent filter.
pub proof fn law_listing_filters_parent_and_activity(
    r: SpawnRecord,
    parent: Option<Seq<char>>,
    active_only: bool,
    tmux_exists: bool,
)
    ensures
        active_only && !tmux_exists ==> !listed(r, parent, active_only, tmux_exists),
        parent matches Some(p) && r.parent_pi_session_id@ != p ==> !listed(
            r,
            parent,
            active_only,
            tmux_exists,
        ),
        (parent is None || parent == Some(r.parent_pi_session_id@)) && (!active_only || tmux_exists)
            ==> listed(r, parent, active_only, tmux_exists),
{
}

/// Whether garbage collection removes a record: its session is gone, or its
/// parent is gone and its session was killed or no longer runs after the kill.
pub open spec fn gc_removes(tmux_exists: bool, parent_alive: bool, killed: bool, still_exists: bool) -> bool {
    match gc_step_spec(tmux_exists, parent_alive) {
        GcStep::Keep => false,
        GcStep::Kill => killed || !still_exists,
        GcStep::Remove => true,
    }
}

/// The records of `records` that garbage collection removes, in order, given
/// for each record whether its session ran, whether its parent lived, and
/// (for a killed one) whether the kill succeeded and whether the session
/// still ran afterwards.
pub open spec fn gc_removed_spec(
    records: Seq<SpawnRecord>,
    tmux_exists: Seq<bool>,
    parent_alive: Seq<bool>,
    killed: Seq<bool>,
    still_exists: Seq<bool>,
) -> Seq<SpawnRecord>
    decreases records.len(),
{
    if records.len() == 0 {
        Seq::empty()
    } else {
        let n = records.len() - 1;
        let before = gc_removed_spec(records.drop_last(), tmux_exists, parent_alive, killed, still_exists);
        if gc_removes(tmux_exists[n], parent_alive[n], killed[n], still_exists[n]) {
            before.push(records[n])
        } else {
            before
        }
    }
}

/// The records that garbage collection removes (see `gc_removed_spec`).
pub fn gc_removed(
    records: Vec<SpawnRecord>,
    tmux_exists: &Vec<bool>,
    parent_alive: &Vec<bool>,
    killed: &Vec<bool>,
    still_exists: &Vec<bool>,
) -> (r: Vec<SpawnRecord>)
    requires
        tmux_exists@.len() == records@.len(),
        parent_alive@.len() == records@.len(),
        killed@.len() == records@.len(),
        still_exists@.len() == records@.len(),
    ensures
        r@ == gc_removed_spec(records@, tmux_exists@, parent_alive@, killed@, still_exists@),
{
    let ghost all = records@;
    let mut r: Vec<SpawnRecord> = Vec::new();
    let mut rest = records;
    let mut i: usize = 0;
    let n = rest.len();
    while rest.len() > 0
        invariant
            n == all.len(),
            i + rest@.len() == n,
            rest@ == all.skip(i as int),
            tmux_exists@.len() == n,
            parent_alive@.len() == n,
            killed@.len() == n,
            still_exists@.len() == n,
            r@ == gc_removed_spec(all.take(i as int), tmux_exists@, parent_alive@, killed@, still_exists@),
        decreases rest@.len(),
    {
        let record = rest.remove(0);
        let step = gc_first_step(tmux_exists[i], parent_alive[i]);
        let removes = match step {
            GcStep::Keep => false,
            GcStep::Kill => killed[i] || !still_exists[i],
            GcStep::Remove => true,
        };
        proof {
            assert(record == all[i as int]);
            assert(all.take(i + 1).drop_last() =~= all.take(i as int));
            assert(all.take(i + 1)[i as int] == all[i as int]);
            assert(rest@ =~= all.skip(i + 1));
        }
        if removes {
            r.push(record);
        }
        i = i + 1;
    }
    proof {
        assert(all.take(n as int) =~= all);
    }
    r
}

/// Law: garbage collection removes exactly the records whose session is gone
/// or whose orphaned session was ended, and keeps every record whose session
/// runs under a live parent (or survived the kill); removed records keep
/// their order, and nothing else is removed.
pub proof fn law_gc_removes_exactly_the_orphans(
    records: Seq<SpawnRecord>,
    tmux_exists: Seq<bool>,
    parent_alive: Seq<bool>,
    killed: Seq<bool>,
    still_exists: Seq<bool>,
)
    requires
        tmux_exists.len() >= records.len(),
        parent_alive.len() >= records.len(),
        killed.len() >= records.len(),
        still_exists.len() >= records.len(),
        forall|i: int, j: int|
            0 <= i < j < records.len() ==> records[i].spawn_id != records[j].spawn_id,
    ensures
        forall|i: int|
            0 <= i < records.len() ==> (gc_removed_spec(
                records,
                tmux_exists,
                parent_alive,
                killed,
                still_exists,
            ).contains(#[trigger] records[i]) <==> gc_removes(
                tmux_exists[i],
                parent_alive[i],
                killed[i],
                still_exists[i],
            )),
        forall|x: SpawnRecord|
            gc_removed_spec(records, tmux_exists, parent_alive, killed, still_exists).contains(x)
                ==> records.contains(x),
    decreases records.len(),
{
    if records.len() > 0 {
        let t = records.drop_last();
        let n = records.len() - 1;
        law_gc_removes_exactly_the_orphans(t, tmux_exists, parent_alive, killed, still_exists);
        let before = gc_removed_spec(t, tmux_exists, parent_alive, killed, still_exists);
        let all = gc_removed_spec(records, tmux_exists, parent_alive, killed, still_exists);
        assert forall|i: int| 0 <= i < records.len() implies (all.contains(#[trigger] records[i])
            <==> gc_removes(tmux_exists[i], parent_alive[i], killed[i], still_exists[i])) by {
            if i < n {
                assert(t[i] == records[i]);
                if all.contains(records[i]) && !before.contains(records[i]) {
                    let k = choose|k: int| 0 <= k < all.len() && all[k] == records[i];
                    if k < before.len() {
                        assert(all[k] == before[k]);
                    } else {
                        assert(records[i] == records[n]);
                    }
                }
                if before.contains(records[i]) {
                    let k = choose|k: int| 0 <= k < before.len() && before[k] == records[i];
                    if gc_removes(tmux_exists[n], parent_alive[n], killed[n], still_exists[n]) {
                        assert(all[k] == before[k]);
                    }
                }
            } else {
                if gc_removes(tmux_exists[n], parent_alive[n], killed[n], still_exists[n]) {
                    assert(all[all.len() - 1] == records[n]);
                } else if before.contains(records[n]) {
                    let k = choose|k: int| 0 <= k < before.len() && before[k] == records[n];
                    assert(t.contains(before[k]));
                    let j = choose|j: int| 0 <= j < t.len() && t[j] == before[k];
                    assert(records[j] == t[j]);
                }
            }
        }
        assert forall|x: SpawnRecord| all.contains(x) implies records.contains(x) by {
            let k = choose|k: int| 0 <= k < all.len() && all[k] == x;
            if k < before.len() {
                assert(all[k] == before[k]);
                assert(before.contains(x));
                assert(t.contains(x));
                let j = choose|j: int| 0 <= j < t.len() && t[j] == x;
                assert(records[j] == t[j]);
                assert(records[j] == x);
            } else {
                assert(all[k] == records[n]);
                assert(records[n] == x);
            }
        }
    }
}

/// Law: garbage collection keeps a record exactly when its tmux session runs
/// and its parent process lives, kills a session only when its parent is
/// gone, and removes a record at once exactly when its session is gone,
/// whatever the parent.
pub proof fn law_gc_spares_live_parents(tmux_exists: bool, parent_alive: bool)
    ensures
        (gc_step_spec(tmux_exists, parent_alive) == GcStep::Keep) <==> (tmux_exists && parent_alive),
        (gc_step_spec(tmux_exists, parent_alive) == GcStep::Kill) <==> (tmux_exists
            && !parent_alive),
        (gc_step_spec(tmux_exists, parent_alive) == GcStep::Remove) <==> !tmux_exists,
{
}

} // verus!
