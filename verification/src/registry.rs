//! The session registry: sessions, messages between them, where they are kept,
//! and the rules for naming, status, liveness and recipient resolution.
use crate::ids::{fresh_id, is_v7, hyphenated_hex, id_has_prefix, id_suffix, id_suffix_spec, id_text};
use crate::paths::{has_extension, extension_spec, join, join_spec};
use crate::project::{opt_view, Project};
use crate::seqs::{sort_by_stamp, sort_by_stamp_vec, stamps_sorted, Stamped};
use crate::text::{blank, concat, is_blank, str_eq};
use vstd::prelude::*;
use vstd::string::*;

verus! {

/// A registered Pi session.
#[derive(Debug, Clone, PartialEq, Eq)]
pub struct Session {
    pub id: u128,
    pub name: String,
    pub pid: u32,
    pub pi_session_id: Option<String>,
    pub project_id: String,
    pub project_root: String,
    pub cwd: String,
    pub branch: Option<String>,
    pub role: String,
    pub parent_pi_session_id: Option<String>,
    pub task: Option<String>,
    pub status: String,
    pub bridge_socket: Option<String>,
    pub started_at_ms: u64,
    pub last_heartbeat_ms: u64,
}

/// What a process gives when it registers as a session.
#[derive(Debug, Clone, PartialEq, Eq)]
pub struct Registration {
    pub pid: u32,
    pub pi_session_id: Option<String>,
    pub name: Option<String>,
    pub role: String,
    pub parent_pi_session_id: Option<String>,
    pub task: Option<String>,
    pub cwd: String,
    pub branch: Option<String>,
}

/// The sender of a message.
#[derive(Debug, Clone, PartialEq, Eq)]
pub struct MessageSender {
    pub id: u128,
    pub name: String,
}

/// A message queued for a session.
#[derive(Debug, Clone, PartialEq, Eq)]
pub struct Message {
    pub id: u128,
    pub from: MessageSender,
    pub to: u128,
    pub text: String,
    pub created_at_ms: u64,
}

/// The registry, rooted at a runtime directory.
#[derive(Debug, Clone, PartialEq, Eq)]
pub struct Registry {
    pub root: String,
}

/// Why a registry operation failed.
#[derive(Debug, Clone, PartialEq, Eq)]
pub enum RegistryError {
    MissingRuntimeDirectory,
    SessionNotFound(u128),
    RecipientNotFound(String),
    AmbiguousRecipient(String),
    InvalidAgentName,
    InvalidSessionStatus(String),
    MessageNotFound(u128),
    ReadMetadata { path: String, message: String },
    ParseMetadata { path: String, message: String },
    InvalidMetadataPath(String),
    InvalidSystemTime(String),
    TimestampOutOfRange,
    Io(String),
    Json(String),
}

/// A change to a stored session.
#[derive(Debug, Clone, PartialEq, Eq)]
pub enum SessionChange {
    /// A heartbeat at the given time.
    Heartbeat(u64),
    /// A new agent name.
    Rename(String),
    /// A new status.
    Status(String),
}

/// What happens to a session's inbox: a message is delivered into it, or the
/// message with an identifier is acknowledged.
#[derive(Debug, Clone, PartialEq, Eq)]
pub enum InboxOp {
    Deliver(Message),
    Acknowledge(u128),
}

impl Stamped for Session {
    open spec fn stamp_spec(&self) -> u64 {
        self.started_at_ms
    }

    fn stamp(&self) -> (r: u64) {
        self.started_at_ms
    }
}

impl Stamped for Message {
    open spec fn stamp_spec(&self) -> u64 {
        self.created_at_ms
    }

    fn stamp(&self) -> (r: u64) {
        self.created_at_ms
    }
}

/// The two statuses a session can have.
pub open spec fn valid_status(status: Seq<char>) -> bool {
    status == "idle"@ || status == "busy"@
}

/// The default name of a session: `agent-` and the last 8 digits of its id.
pub open spec fn default_name(id: u128) -> Seq<char> {
    "agent-"@ + id_suffix_spec(id, 8)
}

/// A session is stale when its heartbeat is older than the limit or its
/// process is gone.
pub open spec fn stale(s: Session, now: u64, stale_after_ms: u64, alive: bool) -> bool {
    (if now >= s.last_heartbeat_ms {
        now - s.last_heartbeat_ms
    } else {
        0
    }) > stale_after_ms || !alive
}

/// The sessions of `s` that are not stale, `alive[i]` telling whether the
/// process of `s[i]` runs.
pub open spec fn live_sessions(s: Seq<Session>, alive: Seq<bool>, now: u64, stale_after_ms: u64) -> Seq<
    Session,
>
    decreases s.len(),
{
    if s.len() == 0 {
        s
    } else {
        let r = live_sessions(s.drop_last(), alive, now, stale_after_ms);
        if stale(s.last(), now, stale_after_ms, alive[s.len() - 1]) {
            r
        } else {
            r.push(s.last())
        }
    }
}

/// The sessions of `s` that are stale.
pub open spec fn stale_sessions(s: Seq<Session>, alive: Seq<bool>, now: u64, stale_after_ms: u64) -> Seq<
    Session,
>
    decreases s.len(),
{
    if s.len() == 0 {
        s
    } else {
        let r = stale_sessions(s.drop_last(), alive, now, stale_after_ms);
        if stale(s.last(), now, stale_after_ms, alive[s.len() - 1]) {
            r.push(s.last())
        } else {
            r
        }
    }
}

/// A session answers to a reference by its exact name, its exact Pi session
/// id, or a prefix of its hyphenated id.
pub open spec fn session_matches(s: Session, reference: Seq<char>) -> bool {
    ||| s.name@ == reference
    ||| opt_view(s.pi_session_id) == Some(reference)
    ||| reference.is_prefix_of(hyphenated_hex(s.id))
}

/// The sessions of `s` that answer to `reference`, in order.
pub open spec fn matching_sessions(s: Seq<Session>, reference: Seq<char>) -> Seq<Session> {
    s.filter(|x: Session| session_matches(x, reference))
}

/// The directory of a session under the registry root.
pub open spec fn session_dir_spec(root: Seq<char>, project_id: Seq<char>, id: u128) -> Seq<char> {
    join_spec(
        join_spec(join_spec(join_spec(root, "projects"@), project_id), "sessions"@),
        hyphenated_hex(id),
    )
}

/// The session that a registration creates.
pub open spec fn registered_session(
    root: Seq<char>,
    project: Project,
    r: Registration,
    id: u128,
    now: u64,
    s: Session,
) -> bool {
    &&& s.id == id
    &&& s.name@ == (match r.name {
        Some(n) => n@,
        None => default_name(id),
    })
    &&& s.pid == r.pid
    &&& s.pi_session_id == r.pi_session_id
    &&& s.project_id == project.id
    &&& s.project_root == project.root
    &&& s.cwd == r.cwd
    &&& s.branch == r.branch
    &&& s.role == r.role
    &&& s.parent_pi_session_id == r.parent_pi_session_id
    &&& s.task == r.task
    &&& s.status@ == "idle"@
    &&& opt_view(s.bridge_socket) == Some(
        join_spec(session_dir_spec(root, project.id@, id), "bridge.sock"@),
    )
    &&& s.started_at_ms == now
    &&& s.last_heartbeat_ms == now
}

/// `s` with a new name; everything else as it was.
pub open spec fn renamed(s: Session, t: Session, name: Seq<char>) -> bool {
    t == (Session { name: t.name, ..s }) && t.name@ == name
}

fn copy_opt(o: &Option<String>) -> (r: Option<String>)
    ensures
        r == *o,
{
    match o {
        Some(s) => Some(s.clone()),
        None => None,
    }
}

impl Session {
    /// A copy of this session.
    pub fn copied(&self) -> (r: Session)
        ensures
            r == *self,
    {
        Session {
            id: self.id,
            name: self.name.clone(),
            pid: self.pid,
            pi_session_id: copy_opt(&self.pi_session_id),
            project_id: self.project_id.clone(),
            project_root: self.project_root.clone(),
            cwd: self.cwd.clone(),
            branch: copy_opt(&self.branch),
            role: self.role.clone(),
            parent_pi_session_id: copy_opt(&self.parent_pi_session_id),
            task: copy_opt(&self.task),
            status: self.status.clone(),
            bridge_socket: copy_opt(&self.bridge_socket),
            started_at_ms: self.started_at_ms,
            last_heartbeat_ms: self.last_heartbeat_ms,
        }
    }
}

impl Registry {
    /// A registry rooted at `root` (its directories are made by the caller).
    pub fn new(root: String) -> (r: Registry)
        ensures
            r.root@ == root@,
    {
        Registry { root }
    }

    /// The directory that holds one directory per project.
    pub fn projects_dir(&self) -> (p: String)
        ensures
            p@ == join_spec(self.root@, "projects"@),
    {
        join(self.root.as_str(), "projects")
    }

    /// The directory of a session.
    pub fn session_dir(&self, project_id: &str, session_id: u128) -> (p: String)
        ensures
            p@ == session_dir_spec(self.root@, project_id@, session_id),
    {
        let projects = join(self.root.as_str(), "projects");
        let project = join(projects.as_str(), project_id);
        let sessions = join(project.as_str(), "sessions");
        let id = id_text(session_id);
        join(sessions.as_str(), id.as_str())
    }

    /// The file of a queued message in a session's inbox.
    pub fn message_path(&self, project_id: &str, session_id: u128, message_id: u128) -> (p: String)
        ensures
            p@ == join_spec(
                join_spec(session_dir_spec(self.root@, project_id@, session_id), "inbox"@),
                hyphenated_hex(message_id) + ".json"@,
            ),
    {
        let dir = self.session_dir(project_id, session_id);
        let inbox = join(dir.as_str(), "inbox");
        let id = id_text(message_id);
        let file = concat(id.as_str(), ".json");
        join(inbox.as_str(), file.as_str())
    }

    /// The session that `registration` creates with identifier `id` at `now`.
    pub fn session_for(
        &self,
        project: &Project,
        registration: Registration,
        id: u128,
        now: u64,
    ) -> (s: Session)
        ensures
            registered_session(self.root@, *project, registration, id, now, s),
    {
        let name = match registration.name {
            Some(n) => n,
            None => {
                let short = id_suffix(id, 8);
                concat("agent-", short.as_str())
            },
        };
        let dir = self.session_dir(project.id.as_str(), id);
        let socket = join(dir.as_str(), "bridge.sock");
        Session {
            id,
            name,
            pid: registration.pid,
            pi_session_id: registration.pi_session_id,
            project_id: project.id.clone(),
            project_root: project.root.clone(),
            cwd: registration.cwd,
            branch: registration.branch,
            role: registration.role,
            parent_pi_session_id: registration.parent_pi_session_id,
            task: registration.task,
            status: String::from_str("idle"),
            bridge_socket: Some(socket),
            started_at_ms: now,
            last_heartbeat_ms: now,
        }
    }

    /// The session to record for `registration` at `now`, under a fresh
    /// identifier.
    pub fn register(&self, project: &Project, registration: Registration, now: u64) -> (s: Session)
        ensures
            is_v7(s.id),
            registered_session(self.root@, *project, registration, s.id, now, s),
    {
        let id = fresh_id();
        self.session_for(project, registration, id, now)
    }

    /// `session` with its heartbeat moved to `now`.
    pub fn heartbeat(&self, session: Session, now: u64) -> (s: Session)
        ensures
            s == (Session { last_heartbeat_ms: now, ..session }),
    {
        Session { last_heartbeat_ms: now, ..session }
    }

    /// `session` renamed, unless the name is blank.
    pub fn rename(&self, session: Session, name: String) -> (r: Result<Session, RegistryError>)
        ensures
            blank(name@) ==> r == Err::<Session, RegistryError>(RegistryError::InvalidAgentName),
            !blank(name@) ==> (r matches Ok(t) && renamed(session, t, name@)),
    {
        check_agent_name(name.as_str())?;
        Ok(Session { name, ..session })
    }

    /// `session` with a new status, which must be `idle` or `busy`.
    pub fn set_status(&self, session: Session, status: String) -> (r: Result<Session, RegistryError>)
        ensures
            !valid_status(status@) ==> (r matches Err(RegistryError::InvalidSessionStatus(s))
                && s@ == status@),
            valid_status(status@) ==> (r matches Ok(t) && t == (Session { status: t.status, ..session })
                && t.status@ == status@),
    {
        if !is_valid_status(status.as_str()) {
            return Err(RegistryError::InvalidSessionStatus(status));
        }
        Ok(Session { status, ..session })
    }

    /// Applies `change` to the stored session with identifier `id`: a refused
    /// change (a blank name, an unknown status) fails first, then a missing
    /// session; otherwise the answer is the session's index and its new value.
    pub fn update_session(&self, stored: &Vec<Session>, id: u128, change: SessionChange) -> (r:
        Result<(usize, Session), RegistryError>)
        ensures
            change_error(change) matches Some(e) ==> r == Err::<(usize, Session), RegistryError>(e),
            change_error(change) is None && first_with_id(stored@, id) is None ==> r == Err::<
                (usize, Session),
                RegistryError,
            >(RegistryError::SessionNotFound(id)),
            change_error(change) is None ==> (first_with_id(stored@, id) matches Some(i) ==> r
                == Ok::<(usize, Session), RegistryError>((i as usize, changed(stored@[i], change)))),
    {
        match &change {
            SessionChange::Rename(name) => {
                if is_blank(name.as_str()) {
                    return Err(RegistryError::InvalidAgentName);
                }
            },
            SessionChange::Status(status) => {
                if !is_valid_status(status.as_str()) {
                    return Err(RegistryError::InvalidSessionStatus(status.clone()));
                }
            },
            SessionChange::Heartbeat(_) => {},
        }
        let mut i: usize = 0;
        while i < stored.len()
            invariant
                i <= stored@.len(),
                first_with_id(stored@, id) == first_with_id_from(stored@, id, i as int),
                change_error(change) is None,
            decreases stored.len() - i,
        {
            if stored[i].id == id {
                let s = stored[i].copied();
                let updated = match change {
                    SessionChange::Heartbeat(now) => Session { last_heartbeat_ms: now, ..s },
                    SessionChange::Rename(name) => Session { name, ..s },
                    SessionChange::Status(status) => Session { status, ..s },
                };
                return Ok((i, updated));
            }
            i = i + 1;
        }
        Err(RegistryError::SessionNotFound(id))
    }

    /// The stored session with identifier `id`: the first of `stored` that has
    /// it, or `SessionNotFound` when none has.
    pub fn show(&self, stored: &Vec<Session>, id: u128) -> (r: Result<Session, RegistryError>)
        ensures
            r == (match first_with_id(stored@, id) {
                Some(i) => Ok::<Session, RegistryError>(stored@[i]),
                None => Err(RegistryError::SessionNotFound(id)),
            }),
    {
        let mut i: usize = 0;
        while i < stored.len()
            invariant
                i <= stored@.len(),
                first_with_id(stored@, id) == first_with_id_from(stored@, id, i as int),
            decreases stored.len() - i,
        {
            if stored[i].id == id {
                return Ok(stored[i].copied());
            }
            i = i + 1;
        }
        Err(RegistryError::SessionNotFound(id))
    }
}

/// Refuses a blank agent name.
pub fn check_agent_name(name: &str) -> (r: Result<(), RegistryError>)
    ensures
        blank(name@) <==> r == Err::<(), RegistryError>(RegistryError::InvalidAgentName),
        !blank(name@) <==> r is Ok,
{
    if is_blank(name) {
        Err(RegistryError::InvalidAgentName)
    } else {
        Ok(())
    }
}

/// Whether `status` is `idle` or `busy`.
pub fn is_valid_status(status: &str) -> (b: bool)
    ensures
        b == valid_status(status@),
{
    str_eq(status, "idle") || str_eq(status, "busy")
}

/// Whether a session is stale at `now` (see `stale`).
pub fn session_is_stale(session: &Session, now: u64, stale_after_ms: u64, alive: bool) -> (b: bool)
    ensures
        b == stale(*session, now, stale_after_ms, alive),
{
    let age = if now >= session.last_heartbeat_ms {
        now - session.last_heartbeat_ms
    } else {
        0
    };
    age > stale_after_ms || !alive
}

/// A duration in milliseconds as a `u64`, saturating at its maximum.
pub fn duration_ms(millis: u128) -> (ms: u64)
    ensures
        ms == (if millis <= u64::MAX as u128 {
            millis as u64
        } else {
            u64::MAX
        }),
{
    if millis <= u64::MAX as u128 {
        millis as u64
    } else {
        u64::MAX
    }
}

/// Whether a project directory takes part in a listing for `project_id`
/// (every project when there is none).
pub fn project_selected(dir_name: &str, project_id: Option<&str>) -> (b: bool)
    ensures
        b == (match project_id {
            Some(p) => dir_name@ == p@,
            None => true,
        }),
{
    match project_id {
        Some(p) => str_eq(dir_name, p),
        None => true,
    }
}

/// Sessions in the order they started, ties kept in the order given.
pub fn order_sessions(sessions: Vec<Session>) -> (r: Vec<Session>)
    ensures
        r@ == sort_by_stamp(sessions@),
{
    sort_by_stamp_vec(sessions)
}

/// Messages in the order they were created, ties kept in the order given.
pub fn order_messages(messages: Vec<Message>) -> (r: Vec<Message>)
    ensures
        r@ == sort_by_stamp(messages@),
{
    sort_by_stamp_vec(messages)
}

/// Whether an inbox entry with this file name holds a message.
pub fn is_message_file(name: &str) -> (b: bool)
    ensures
        b == (extension_spec(name@) == Some("json"@)),
{
    has_extension(name, "json")
}

/// The sessions that are not stale.
pub fn list_live(sessions: Vec<Session>, alive: &Vec<bool>, now: u64, stale_after_ms: u64) -> (r: Vec<
    Session,
>)
    requires
        alive@.len() == sessions@.len(),
    ensures
        r@ == live_sessions(sessions@, alive@, now, stale_after_ms),
{
    let (live, _) = partition_stale(sessions, alive, now, stale_after_ms);
    live
}

/// The sessions that are stale, which garbage collection removes.
pub fn gc_candidates(sessions: Vec<Session>, alive: &Vec<bool>, now: u64, stale_after_ms: u64) -> (r: Vec<
    Session,
>)
    requires
        alive@.len() == sessions@.len(),
    ensures
        r@ == stale_sessions(sessions@, alive@, now, stale_after_ms),
{
    let (_, gone) = partition_stale(sessions, alive, now, stale_after_ms);
    gone
}

fn partition_stale(sessions: Vec<Session>, alive: &Vec<bool>, now: u64, stale_after_ms: u64) -> (r: (
    Vec<Session>,
    Vec<Session>,
))
    requires
        alive@.len() == sessions@.len(),
    ensures
        r.0@ == live_sessions(sessions@, alive@, now, stale_after_ms),
        r.1@ == stale_sessions(sessions@, alive@, now, stale_after_ms),
{
    let ghost orig = sessions@;
    let mut live: Vec<Session> = Vec::new();
    let mut gone: Vec<Session> = Vec::new();
    let mut i: usize = 0;
    while i < sessions.len()
        invariant
            orig == sessions@,
            alive@.len() == orig.len(),
            i <= orig.len(),
            live@ == live_sessions(orig.take(i as int), alive@, now, stale_after_ms),
            gone@ == stale_sessions(orig.take(i as int), alive@, now, stale_after_ms),
        decreases sessions.len() - i,
    {
        let s = &sessions[i];
        proof {
            assert(orig.take(i + 1).drop_last() =~= orig.take(i as int));
            assert(orig.take(i + 1).last() == *s);
        }
        if session_is_stale(s, now, stale_after_ms, alive[i]) {
            gone.push(s.copied());
        } else {
            live.push(s.copied());
        }
        i = i + 1;
    }
    proof {
        assert(orig.take(orig.len() as int) =~= orig);
    }
    (live, gone)
}

/// Why a change is refused whatever session it is applied to.
pub open spec fn change_error(change: SessionChange) -> Option<RegistryError> {
    match change {
        SessionChange::Heartbeat(_) => None,
        SessionChange::Rename(name) => if blank(name@) {
            Some(RegistryError::InvalidAgentName)
        } else {
            None
        },
        SessionChange::Status(status) => if valid_status(status@) {
            None
        } else {
            Some(RegistryError::InvalidSessionStatus(status))
        },
    }
}

/// A session after a change that is not refused.
pub open spec fn changed(s: Session, change: SessionChange) -> Session {
    match change {
        SessionChange::Heartbeat(now) => Session { last_heartbeat_ms: now, ..s },
        SessionChange::Rename(name) => Session { name, ..s },
        SessionChange::Status(status) => Session { status, ..s },
    }
}

/// The index of the first session at or after `from` with identifier `id`.
pub open spec fn first_with_id_from(s: Seq<Session>, id: u128, from: int) -> Option<int>
    decreases s.len() - from,
{
    if from < 0 || from >= s.len() {
        None
    } else if s[from].id == id {
        Some(from)
    } else {
        first_with_id_from(s, id, from + 1)
    }
}

/// The index of the first session with identifier `id`.
pub open spec fn first_with_id(s: Seq<Session>, id: u128) -> Option<int> {
    first_with_id_from(s, id, 0)
}

/// Whether `session` answers to `reference`.
pub fn matches_reference(session: &Session, reference: &str) -> (b: bool)
    ensures
        b == session_matches(*session, reference@),
{
    if str_eq(session.name.as_str(), reference) {
        return true;
    }
    let by_pi = match &session.pi_session_id {
        Some(p) => str_eq(p.as_str(), reference),
        None => false,
    };
    by_pi || id_has_prefix(session.id, reference)
}

/// The one live session that answers to `reference`.
pub fn resolve_live_session(live: &Vec<Session>, reference: &str) -> (r: Result<Session, RegistryError>)
    ensures
        ({
            let m = matching_sessions(live@, reference@);
            &&& m.len() == 0 <==> (r matches Err(RegistryError::RecipientNotFound(x)) && x@
                == reference@)
            &&& m.len() == 1 <==> r == Ok::<Session, RegistryError>(m[0])
            &&& m.len() > 1 <==> (r matches Err(RegistryError::AmbiguousRecipient(x)) && x@
                == reference@)
        }),
{
    let ghost pred = |x: Session| session_matches(x, reference@);
    let mut found: Vec<Session> = Vec::new();
    let mut i: usize = 0;
    while i < live.len()
        invariant
            i <= live@.len(),
            pred == (|x: Session| session_matches(x, reference@)),
            found@ == live@.take(i as int).filter(pred),
        decreases live.len() - i,
    {
        let s = &live[i];
        let hit = matches_reference(s, reference);
        proof {
            assert(live@.take(i + 1) =~= live@.take(i as int).push(*s));
            crate::seqs::lemma_filter_push(live@.take(i as int), pred, *s);
        }
        if hit {
            found.push(s.copied());
        }
        i = i + 1;
    }
    proof {
        assert(live@.take(live@.len() as int) =~= live@);
    }
    if found.len() == 0 {
        Err(RegistryError::RecipientNotFound(String::from_str(reference)))
    } else if found.len() == 1 {
        Ok(found[0].copied())
    } else {
        Err(RegistryError::AmbiguousRecipient(String::from_str(reference)))
    }
}

/// The message that `sender` sends to `recipient` with identifier `id` at `now`.
pub fn message_for(sender: &Session, recipient: &Session, text: String, id: u128, now: u64) -> (m: Message)
    ensures
        m.id == id,
        m.from.id == sender.id,
        m.from.name == sender.name,
        m.to == recipient.id,
        m.text == text,
        m.created_at_ms == now,
{
    Message {
        id,
        from: MessageSender { id: sender.id, name: sender.name.clone() },
        to: recipient.id,
        text,
        created_at_ms: now,
    }
}

/// The message that `sender` sends to `recipient` at `now`, under a fresh
/// identifier.
pub fn new_message(sender: &Session, recipient: &Session, text: String, now: u64) -> (m: Message)
    ensures
        m.from.id == sender.id,
        m.from.name == sender.name,
        m.to == recipient.id,
        m.text == text,
        m.created_at_ms == now,
        is_v7(m.id),
{
    let id = fresh_id();
    message_for(sender, recipient, text, id, now)
}

/// What `first_with_id_from` finds: the first matching index at or after
/// `from`, or none when no session from there on has the identifier.
proof fn lemma_first_with_id_from(s: Seq<Session>, id: u128, from: int)
    requires
        0 <= from <= s.len(),
    ensures
        first_with_id_from(s, id, from) matches Some(k) ==> from <= k < s.len() && s[k].id == id
            && forall|j: int| from <= j < k ==> s[j].id != id,
        first_with_id_from(s, id, from) is None ==> forall|j: int| from <= j < s.len() ==> s[j].id != id,
    decreases s.len() - from,
{
    if from < s.len() && s[from].id != id {
        lemma_first_with_id_from(s, id, from + 1);
    }
}

/// A lookup from `from` settles on index `k` when `k` is the first match there.
proof fn lemma_first_with_id_at(s: Seq<Session>, id: u128, from: int, k: int)
    requires
        0 <= from <= k < s.len(),
        s[k].id == id,
        forall|j: int| from <= j < k ==> s[j].id != id,
    ensures
        first_with_id_from(s, id, from) == Some(k),
    decreases k - from,
{
    if from < k {
        lemma_first_with_id_at(s, id, from + 1, k);
    }
}

/// Law: a session added to the stored ones under an identifier that none of
/// them has is the one that a lookup of that identifier finds.
pub proof fn law_registered_session_is_found(stored: Seq<Session>, session: Session)
    requires
        forall|i: int| 0 <= i < stored.len() ==> stored[i].id != session.id,
    ensures
        first_with_id(stored.push(session), session.id) == Some(stored.len() as int),
{
    let t = stored.push(session);
    assert forall|j: int| 0 <= j < stored.len() implies t[j].id != session.id by {
        assert(t[j] == stored[j]);
    }
    lemma_first_with_id_at(t, session.id, 0, stored.len() as int);
}

/// Law: rewriting the stored session that a lookup finds with a record of the
/// same identifier (a heartbeat, a rename, a status change) leaves the lookup
/// on it, so the next read gives back what was written.
pub proof fn law_updated_session_is_found(stored: Seq<Session>, i: int, updated: Session)
    requires
        first_with_id(stored, updated.id) == Some(i),
    ensures
        first_with_id(stored.update(i, updated), updated.id) == Some(i),
        stored.update(i, updated)[i] == updated,
{
    lemma_first_with_id_from(stored, updated.id, 0);
    let t = stored.update(i, updated);
    assert forall|j: int| 0 <= j < i implies t[j].id != updated.id by {
        assert(t[j] == stored[j]);
    }
    lemma_first_with_id_at(t, updated.id, 0, i);
}

/// Law: after a change is applied to a stored session and the new value is
/// written back in its place, a lookup of the identifier gives back exactly
/// the new value, which differs from the old one only in the changed field.
pub proof fn law_change_reads_back(stored: Seq<Session>, id: u128, change: SessionChange)
    requires
        change_error(change) is None,
        first_with_id(stored, id) is Some,
    ensures
        ({
            let i = first_with_id(stored, id)->0;
            let u = changed(stored[i], change);
            &&& first_with_id(stored.update(i, u), id) == Some(i)
            &&& stored.update(i, u)[i] == u
            &&& u.id == id
            &&& (match change {
                SessionChange::Heartbeat(now) => u == (Session { last_heartbeat_ms: now, ..stored[i] }),
                SessionChange::Rename(name) => u == (Session { name, ..stored[i] }),
                SessionChange::Status(status) => u == (Session { status, ..stored[i] }),
            })
        }),
{
    let i = first_with_id(stored, id)->0;
    lemma_first_with_id_from(stored, id, 0);
    law_updated_session_is_found(stored, i, changed(stored[i], change));
}

/// The messages of `inbox` whose identifier is not `id`, in order.
pub open spec fn without_id(inbox: Seq<Message>, id: u128) -> Seq<Message>
    decreases inbox.len(),
{
    if inbox.len() == 0 {
        inbox
    } else {
        let before = without_id(inbox.drop_last(), id);
        if inbox.last().id == id {
            before
        } else {
            before.push(inbox.last())
        }
    }
}

/// The inbox after `ops`, starting empty.
pub open spec fn inbox_after(ops: Seq<InboxOp>) -> Seq<Message>
    decreases ops.len(),
{
    if ops.len() == 0 {
        Seq::empty()
    } else {
        let before = inbox_after(ops.drop_last());
        match ops.last() {
            InboxOp::Deliver(m) => before.push(m),
            InboxOp::Acknowledge(id) => without_id(before, id),
        }
    }
}

/// `m` was delivered by one of `ops` and not acknowledged by a later one.
pub open spec fn delivered_unacknowledged(ops: Seq<InboxOp>, m: Message) -> bool {
    exists|i: int|
        0 <= i < ops.len() && ops[i] == InboxOp::Deliver(m) && forall|j: int|
            i < j < ops.len() ==> ops[j] != InboxOp::Acknowledge(m.id)
}

/// The inbox without the message with identifier `id`, or `MessageNotFound`
/// when it holds none.
pub fn acknowledge(inbox: &Vec<Message>, id: u128) -> (r: Result<Vec<Message>, RegistryError>)
    ensures
        (exists|k: int| 0 <= k < inbox@.len() && inbox@[k].id == id) ==> (r matches Ok(kept)
            && kept@ == without_id(inbox@, id)),
        !(exists|k: int| 0 <= k < inbox@.len() && inbox@[k].id == id) ==> r == Err::<
            Vec<Message>,
            RegistryError,
        >(RegistryError::MessageNotFound(id)),
{
    let mut kept: Vec<Message> = Vec::new();
    let mut found = false;
    let mut i: usize = 0;
    while i < inbox.len()
        invariant
            i <= inbox@.len(),
            kept@ == without_id(inbox@.take(i as int), id),
            found <==> exists|k: int| 0 <= k < i && inbox@[k].id == id,
        decreases inbox.len() - i,
    {
        let m = &inbox[i];
        proof {
            assert(inbox@.take(i + 1).drop_last() =~= inbox@.take(i as int));
            assert(inbox@.take(i + 1).last() == inbox@[i as int]);
        }
        if m.id == id {
            found = true;
        } else {
            kept.push(Message {
                id: m.id,
                from: MessageSender { id: m.from.id, name: m.from.name.clone() },
                to: m.to,
                text: m.text.clone(),
                created_at_ms: m.created_at_ms,
            });
        }
        i = i + 1;
    }
    proof {
        assert(inbox@.take(inbox@.len() as int) =~= inbox@);
    }
    if found {
        Ok(kept)
    } else {
        Err(RegistryError::MessageNotFound(id))
    }
}

proof fn lemma_without_id(inbox: Seq<Message>, id: u128)
    ensures
        forall|x: Message| #[trigger] without_id(inbox, id).contains(x) <==> (inbox.contains(x)
            && x.id != id),
    decreases inbox.len(),
{
    if inbox.len() > 0 {
        let t = inbox.drop_last();
        lemma_without_id(t, id);
        let w = without_id(inbox, id);
        let b = without_id(t, id);
        assert forall|x: Message| #[trigger] w.contains(x) <==> (inbox.contains(x) && x.id != id) by {
            if w.contains(x) {
                let k = choose|k: int| 0 <= k < w.len() && w[k] == x;
                if k < b.len() {
                    assert(w[k] == b[k]);
                    assert(b.contains(x));
                    let j = choose|j: int| 0 <= j < t.len() && t[j] == x;
                    assert(inbox[j] == t[j]);
                } else {
                    assert(inbox[inbox.len() - 1] == x);
                }
            }
            if inbox.contains(x) && x.id != id {
                let j = choose|j: int| 0 <= j < inbox.len() && inbox[j] == x;
                if j < t.len() {
                    assert(t[j] == inbox[j]);
                    assert(t.contains(x));
                    assert(b.contains(x));
                    let k = choose|k: int| 0 <= k < b.len() && b[k] == x;
                    assert(w[k] == b[k]);
                } else {
                    assert(w[w.len() - 1] == x);
                }
            }
        }
    }
}

/// Law: after any deliveries and acknowledgements, a session's pending
/// messages are exactly those that were delivered and not acknowledged since,
/// listed in order of creation time; acknowledging one message leaves every
/// other one pending.
pub proof fn law_pending_are_unacknowledged(ops: Seq<InboxOp>)
    ensures
        forall|m: Message|
            #[trigger] sort_by_stamp(inbox_after(ops)).contains(m) <==> delivered_unacknowledged(
                ops,
                m,
            ),
        stamps_sorted(sort_by_stamp(inbox_after(ops))),
    decreases ops.len(),
{
    broadcast use vstd::seq_lib::group_to_multiset_ensures;

    crate::seqs::law_sort_by_stamp(inbox_after(ops));
    lemma_inbox_contents(ops);
    let inbox = inbox_after(ops);
    let sorted = sort_by_stamp(inbox);
    assert forall|m: Message| #[trigger] sorted.contains(m) <==> inbox.contains(m) by {
        assert(sorted.to_multiset().count(m) == inbox.to_multiset().count(m));
    }
}

/// No two deliveries among `ops` carry the same message identifier.
pub open spec fn distinct_deliveries(ops: Seq<InboxOp>) -> bool {
    forall|i: int, j: int|
        0 <= i < j < ops.len() && ops[i] is Deliver && ops[j] is Deliver ==> (#[trigger] ops[i])->Deliver_0.id
            != (#[trigger] ops[j])->Deliver_0.id
}

/// Law: when every delivered message has its own identifier, each pending
/// message is listed exactly once, and nothing else is listed.
pub proof fn law_pending_each_once(ops: Seq<InboxOp>)
    requires
        distinct_deliveries(ops),
    ensures
        forall|m: Message|
            #[trigger] sort_by_stamp(inbox_after(ops)).to_multiset().count(m) == (if delivered_unacknowledged(
                ops,
                m,
            ) {
                1nat
            } else {
                0nat
            }),
{
    crate::seqs::law_sort_by_stamp(inbox_after(ops));
    lemma_inbox_counts(ops);
}

proof fn lemma_without_id_count(inbox: Seq<Message>, id: u128)
    ensures
        forall|m: Message|
            #[trigger] without_id(inbox, id).to_multiset().count(m) == (if m.id == id {
                0nat
            } else {
                inbox.to_multiset().count(m)
            }),
    decreases inbox.len(),
{
    broadcast use vstd::seq_lib::group_to_multiset_ensures;

    if inbox.len() > 0 {
        let t = inbox.drop_last();
        lemma_without_id_count(t, id);
        let x = inbox.last();
        assert(inbox =~= t.push(x));
        assert(inbox.to_multiset() == t.to_multiset().insert(x));
        let w = without_id(t, id);
        if x.id != id {
            assert(w.push(x).to_multiset() == w.to_multiset().insert(x));
        }
        assert forall|m: Message| #[trigger] without_id(inbox, id).to_multiset().count(m) == (if m.id
            == id {
            0nat
        } else {
            inbox.to_multiset().count(m)
        }) by {
            assert(w.to_multiset().count(m) == (if m.id == id {
                0nat
            } else {
                t.to_multiset().count(m)
            }));
        }
    } else {
        assert(without_id(inbox, id) =~= Seq::<Message>::empty());
    }
}

proof fn lemma_inbox_counts(ops: Seq<InboxOp>)
    requires
        distinct_deliveries(ops),
    ensures
        forall|m: Message|
            #[trigger] inbox_after(ops).to_multiset().count(m) == (if delivered_unacknowledged(ops, m) {
                1nat
            } else {
                0nat
            }),
    decreases ops.len(),
{
    broadcast use vstd::seq_lib::group_to_multiset_ensures;

    lemma_inbox_contents(ops);
    if ops.len() == 0 {
        assert forall|m: Message| #[trigger] inbox_after(ops).to_multiset().count(m) == (if delivered_unacknowledged(ops, m) {
            1nat
        } else {
            0nat
        }) by {
            assert(inbox_after(ops) =~= Seq::<Message>::empty());
        }
    } else {
        let p = ops.drop_last();
        let n = ops.len() - 1;
        assert forall|i: int, j: int|
            0 <= i < j < p.len() && p[i] is Deliver && p[j] is Deliver implies (#[trigger] p[i])->Deliver_0.id
                != (#[trigger] p[j])->Deliver_0.id by {
            assert(p[i] == ops[i] && p[j] == ops[j]);
        }
        lemma_inbox_counts(p);
        lemma_inbox_contents(p);
        let before = inbox_after(p);
        let inbox = inbox_after(ops);
        match ops.last() {
            InboxOp::Deliver(d) => {
                assert(inbox == before.push(d));
                if delivered_unacknowledged(p, d) {
                    let i = choose|i: int|
                        0 <= i < p.len() && p[i] == InboxOp::Deliver(d) && forall|j: int|
                            i < j < p.len() ==> p[j] != InboxOp::Acknowledge(d.id);
                    assert(ops[i] == p[i]);
                    assert(ops[n] == InboxOp::Deliver(d));
                    assert(ops[i]->Deliver_0.id != ops[n]->Deliver_0.id);
                }
                assert forall|m: Message| #[trigger] inbox.to_multiset().count(m) == (if delivered_unacknowledged(ops, m) {
                    1nat
                } else {
                    0nat
                }) by {
                    assert(inbox.contains(m) <==> delivered_unacknowledged(ops, m));
                    assert(before.contains(m) <==> delivered_unacknowledged(p, m));
                    if m != d {
                        assert(inbox.contains(m) <==> before.contains(m)) by {
                            if inbox.contains(m) {
                                let k = choose|k: int| 0 <= k < inbox.len() && inbox[k] == m;
                                assert(k < before.len());
                                assert(before[k] == m);
                            }
                            if before.contains(m) {
                                let k = choose|k: int| 0 <= k < before.len() && before[k] == m;
                                assert(inbox[k] == m);
                            }
                        }
                    } else {
                        assert(inbox[inbox.len() - 1] == m);
                    }
                }
            },
            InboxOp::Acknowledge(id) => {
                lemma_without_id(before, id);
                lemma_without_id_count(before, id);
                assert forall|m: Message| #[trigger] inbox.to_multiset().count(m) == (if delivered_unacknowledged(ops, m) {
                    1nat
                } else {
                    0nat
                }) by {
                    assert(inbox.contains(m) <==> delivered_unacknowledged(ops, m));
                    assert(before.contains(m) <==> delivered_unacknowledged(p, m));
                    assert(inbox.contains(m) <==> (before.contains(m) && m.id != id));
                }
            },
        }
    }
}

proof fn lemma_inbox_contents(ops: Seq<InboxOp>)
    ensures
        forall|m: Message| #[trigger] inbox_after(ops).contains(m) <==> delivered_unacknowledged(ops, m),
    decreases ops.len(),
{
    if ops.len() > 0 {
        let p = ops.drop_last();
        let n = ops.len() - 1;
        lemma_inbox_contents(p);
        let before = inbox_after(p);
        let inbox = inbox_after(ops);
        assert forall|m: Message| #[trigger] inbox.contains(m) <==> delivered_unacknowledged(ops, m) by {
            match ops.last() {
                InboxOp::Deliver(d) => {
                    if inbox.contains(m) {
                        if m == d {
                            assert(ops[n] == InboxOp::Deliver(m));
                        } else {
                            let k = choose|k: int| 0 <= k < inbox.len() && inbox[k] == m;
                            assert(k < before.len());
                            assert(inbox[k] == before[k]);
                            assert(before.contains(m));
                            let i = choose|i: int|
                                0 <= i < p.len() && p[i] == InboxOp::Deliver(m) && forall|j: int|
                                    i < j < p.len() ==> p[j] != InboxOp::Acknowledge(m.id);
                            assert(ops[i] == p[i]);
                            assert forall|j: int| i < j < ops.len() implies ops[j]
                                != InboxOp::Acknowledge(m.id) by {
                                if j < n {
                                    assert(ops[j] == p[j]);
                                }
                            }
                        }
                    }
                    if delivered_unacknowledged(ops, m) {
                        let i = choose|i: int|
                            0 <= i < ops.len() && ops[i] == InboxOp::Deliver(m) && forall|j: int|
                                i < j < ops.len() ==> ops[j] != InboxOp::Acknowledge(m.id);
                        if i == n {
                            assert(inbox[inbox.len() - 1] == m);
                        } else {
                            assert(p[i] == ops[i]);
                            assert forall|j: int| i < j < p.len() implies p[j]
                                != InboxOp::Acknowledge(m.id) by {
                                assert(p[j] == ops[j]);
                            }
                            assert(delivered_unacknowledged(p, m));
                            assert(before.contains(m));
                            let k = choose|k: int| 0 <= k < before.len() && before[k] == m;
                            assert(inbox == before.push(d));
                            assert(inbox[k] == before[k]);
                        }
                    }
                },
                InboxOp::Acknowledge(id) => {
                    lemma_without_id(before, id);
                    if inbox.contains(m) {
                        assert(before.contains(m) && m.id != id);
                        let i = choose|i: int|
                            0 <= i < p.len() && p[i] == InboxOp::Deliver(m) && forall|j: int|
                                i < j < p.len() ==> p[j] != InboxOp::Acknowledge(m.id);
                        assert(ops[i] == p[i]);
                        assert forall|j: int| i < j < ops.len() implies ops[j]
                            != InboxOp::Acknowledge(m.id) by {
                            if j < n {
                                assert(ops[j] == p[j]);
                            }
                        }
                    }
                    if delivered_unacknowledged(ops, m) {
                        let i = choose|i: int|
                            0 <= i < ops.len() && ops[i] == InboxOp::Deliver(m) && forall|j: int|
                                i < j < ops.len() ==> ops[j] != InboxOp::Acknowledge(m.id);
                        assert(ops[n] != InboxOp::Acknowledge(m.id));
                        assert(i < n);
                        assert(p[i] == ops[i]);
                        assert forall|j: int| i < j < p.len() implies p[j] != InboxOp::Acknowledge(
                            m.id,
                        ) by {
                            assert(p[j] == ops[j]);
                        }
                        assert(delivered_unacknowledged(p, m));
                        assert(before.contains(m));
                    }
                },
            }
        }
    }
}

/// Law: a session answers to a reference only by its exact name, its exact
/// Pi session id, or a prefix of its hyphenated id; each of these alone is
/// enough. A name that merely starts with the reference does not answer.
pub proof fn law_recipients_match_exactly(s: Session, reference: Seq<char>)
    ensures
        session_matches(s, reference) ==> s.name@ == reference || (s.pi_session_id is Some
            && s.pi_session_id->0@ == reference) || reference.is_prefix_of(hyphenated_hex(s.id)),
        s.name@ == reference ==> session_matches(s, reference),
        (s.pi_session_id is Some && s.pi_session_id->0@ == reference) ==> session_matches(
            s,
            reference,
        ),
        reference.is_prefix_of(hyphenated_hex(s.id)) ==> session_matches(s, reference),
{
}

/// Law: whether a session is stale depends on its last heartbeat and its
/// process, never on when it started: a live process whose heartbeat is at
/// most `stale_after_ms` old is not stale, a heartbeat older than that makes
/// it stale, and so does a dead process.
pub proof fn law_staleness_follows_the_heartbeat(
    s: Session,
    now: u64,
    stale_after_ms: u64,
    alive: bool,
    started_at_ms: u64,
)
    ensures
        stale(s, now, stale_after_ms, alive) == stale(
            Session { started_at_ms, ..s },
            now,
            stale_after_ms,
            alive,
        ),
        alive && s.last_heartbeat_ms <= now && now - s.last_heartbeat_ms <= stale_after_ms ==> !stale(
            s,
            now,
            stale_after_ms,
            alive,
        ),
        s.last_heartbeat_ms <= now && now - s.last_heartbeat_ms > stale_after_ms ==> stale(
            s,
            now,
            stale_after_ms,
            alive,
        ),
        alive && now < s.last_heartbeat_ms ==> !stale(s, now, stale_after_ms, alive),
        !alive ==> stale(s, now, stale_after_ms, alive),
        alive && s.last_heartbeat_ms <= now && now - s.last_heartbeat_ms <= stale_after_ms
            ==> live_sessions(seq![s], seq![alive], now, stale_after_ms) == seq![s],
{
    let one = seq![s];
    assert(one.drop_last() =~= Seq::<Session>::empty());
    assert(one.last() == s);
    assert(seq![alive][0] == alive);
    assert(live_sessions(one.drop_last(), seq![alive], now, stale_after_ms) =~= Seq::<Session>::empty());
    if alive && s.last_heartbeat_ms <= now && now - s.last_heartbeat_ms <= stale_after_ms {
        assert(live_sessions(one, seq![alive], now, stale_after_ms) =~= Seq::<Session>::empty().push(s));
        assert(Seq::<Session>::empty().push(s) =~= one);
    }
}

/// Law: garbage collection and the live listing split the sessions: each
/// session is in exactly one of the two lists.
pub proof fn law_live_and_stale_partition(
    s: Seq<Session>,
    alive: Seq<bool>,
    now: u64,
    stale_after_ms: u64,
)
    requires
        alive.len() >= s.len(),
    ensures
        live_sessions(s, alive, now, stale_after_ms).to_multiset().add(
            stale_sessions(s, alive, now, stale_after_ms).to_multiset(),
        ) == s.to_multiset(),
        live_sessions(s, alive, now, stale_after_ms).len() + stale_sessions(
            s,
            alive,
            now,
            stale_after_ms,
        ).len() == s.len(),
    decreases s.len(),
{
    broadcast use vstd::seq_lib::group_to_multiset_ensures;

    if s.len() > 0 {
        let t = s.drop_last();
        law_live_and_stale_partition(t, alive, now, stale_after_ms);
        assert(s =~= t.push(s.last()));
        let l = live_sessions(t, alive, now, stale_after_ms);
        let g = stale_sessions(t, alive, now, stale_after_ms);
        if stale(s.last(), now, stale_after_ms, alive[s.len() - 1]) {
            assert(g.push(s.last()).to_multiset() == g.to_multiset().insert(s.last()));
            assert(l.to_multiset().add(g.push(s.last()).to_multiset()) =~= s.to_multiset());
        } else {
            assert(l.push(s.last()).to_multiset() == l.to_multiset().insert(s.last()));
            assert(l.push(s.last()).to_multiset().add(g.to_multiset()) =~= s.to_multiset());
        }
    }
}

} // verus!
