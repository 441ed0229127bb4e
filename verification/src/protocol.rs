//! The vocabulary that clients and the server exchange.
#[allow(unused_imports)]
use vstd::prelude::*;
#[allow(unused_imports)]
use vstd::string::*;

use crate::json::{Json, JsonV};
use crate::text;
use crate::text::{cat2, same};

verus! {

/// Whether a caller is a person or a machine.
#[derive(Debug, Clone, Copy, PartialEq, Eq, Structural)]
pub enum UserKind {
    User,
    Machine,
}

/// The text of the value on the wire.
pub open spec fn user_kind_text(k: UserKind) -> Seq<char> {
    match k {
        UserKind::User => "user"@,
        UserKind::Machine => "machine"@,
    }
}

/// The value that a text on the wire stands for.
pub open spec fn user_kind_of(s: Seq<char>) -> Result<UserKind, Seq<char>> {
    if s == "user"@ {
        Ok(UserKind::User)
    } else if s == "machine"@ {
        Ok(UserKind::Machine)
    } else {
        Err("unknown UserKind: "@ + s)
    }
}

impl UserKind {
    /// The text of the value on the wire.
    pub fn as_wire_str(&self) -> (s: &'static str)
        ensures
            s@ == user_kind_text(*self),
    {
        match self {
            UserKind::User => "user",
            UserKind::Machine => "machine",
        }
    }

    /// Reads the value from its text on the wire.
    pub fn from_wire_str(s: &str) -> (r: Result<UserKind, String>)
        ensures
            match user_kind_of(s@) {
                Ok(k) => r == Ok::<UserKind, String>(k),
                Err(e) => r matches Err(x) && x@ == e,
            },
    {
        if same(s, "user") {
            Ok(UserKind::User)
        } else if same(s, "machine") {
            Ok(UserKind::Machine)
        } else {
            Err(cat2("unknown UserKind: ", s))
        }
    }
}

impl std::str::FromStr for UserKind {
    type Err = String;

    fn from_str(s: &str) -> (r: Result<UserKind, String>)
        ensures
            match user_kind_of(s@) {
                Ok(k) => r == Ok::<UserKind, String>(k),
                Err(e) => r matches Err(x) && x@ == e,
            },
    {
        UserKind::from_wire_str(s)
    }
}

/// A value is read back from its text on the wire.
pub proof fn law_user_kind_reads_back(k: UserKind)
    ensures
        user_kind_of(user_kind_text(k)) == Ok::<UserKind, Seq<char>>(k),
{
    reveal_strlit("user");
    assert("user"@[0] == 'u' && "user"@[1] == 's');
    reveal_strlit("machine");
    assert("machine"@[0] == 'm' && "machine"@[1] == 'a');
}

/// Only the text of a value is read as that value.
pub proof fn law_user_kind_text_is_unique(s: Seq<char>)
    ensures
        user_kind_of(s) matches Ok(k) ==> s == user_kind_text(k),
{
}

/// Who a connection authenticated as.
#[derive(Debug, Clone)]
pub struct AuthedUser {
    pub kind: UserKind,
    pub email: Option<String>,
    pub name: Option<String>,
    pub github_login: Option<String>,
    pub github_id: Option<i64>,
}

/// The mathematical form of a user.
pub struct UserV {
    pub kind: UserKind,
    pub email: Option<Seq<char>>,
    pub name: Option<Seq<char>>,
    pub github_login: Option<Seq<char>>,
    pub github_id: Option<i64>,
}

impl View for AuthedUser {
    type V = UserV;

    open spec fn view(&self) -> UserV {
        UserV {
            kind: self.kind,
            email: text::opt_str(self.email),
            name: text::opt_str(self.name),
            github_login: text::opt_str(self.github_login),
            github_id: self.github_id,
        }
    }
}

impl AuthedUser {
    /// A copy of the user.
    pub fn copy(&self) -> (r: AuthedUser)
        ensures
            r@ == self@,
    {
        AuthedUser {
            kind: self.kind,
            email: self.email.clone(),
            name: self.name.clone(),
            github_login: self.github_login.clone(),
            github_id: self.github_id,
        }
    }
}

/// A member of a room, as clients see it.
#[derive(Debug)]
pub struct PresenceMember {
    pub connection_id: String,
    pub user: AuthedUser,
    pub state: Json,
}

/// The mathematical form of a member.
pub struct MemberV {
    pub connection_id: Seq<char>,
    pub user: UserV,
    pub state: JsonV,
}

impl View for PresenceMember {
    type V = MemberV;

    open spec fn view(&self) -> MemberV {
        MemberV { connection_id: self.connection_id@, user: self.user@, state: self.state@ }
    }
}

/// The views of members.
pub open spec fn member_views(v: Seq<PresenceMember>) -> Seq<MemberV> {
    Seq::new(v.len(), |i: int| v[i]@)
}

impl PresenceMember {
    /// A copy of the member.
    pub fn copy(&self) -> (r: PresenceMember)
        ensures
            r@ == self@,
    {
        PresenceMember {
            connection_id: self.connection_id.clone(),
            user: self.user.copy(),
            state: self.state.copy(),
        }
    }
}

/// Copies of all the members.
pub fn copy_members(v: &Vec<PresenceMember>) -> (r: Vec<PresenceMember>)
    ensures
        member_views(r@) == member_views(v@),
{
    let mut out: Vec<PresenceMember> = Vec::new();
    let mut i: usize = 0;
    while i < v.len()
        invariant
            i <= v@.len(),
            out@.len() == i,
            forall|k: int| 0 <= k < i ==> (#[trigger] out@[k])@ == v@[k]@,
        decreases v@.len() - i,
    {
        out.push(v[i].copy());
        i = i + 1;
    }
    assert(member_views(out@) =~= member_views(v@));
    out
}

/// When a scheduled transaction runs.
#[derive(Debug, Clone)]
pub enum ScheduleWhen {
    AfterMs { ms: i64 },
    RunAt { ms: i64 },
    Cron { expr: String },
    Interval { every_ms: i64 },
}

/// What makes a schedule fire.
#[derive(Debug, Clone, Copy, PartialEq, Eq, Structural)]
pub enum ScheduleKind {
    Oneshot,
    Cron,
    Interval,
}

/// The text of the value on the wire.
pub open spec fn schedule_kind_text(k: ScheduleKind) -> Seq<char> {
    match k {
        ScheduleKind::Oneshot => "oneshot"@,
        ScheduleKind::Cron => "cron"@,
        ScheduleKind::Interval => "interval"@,
    }
}

/// The value that a text on the wire stands for.
pub open spec fn schedule_kind_of(s: Seq<char>) -> Result<ScheduleKind, Seq<char>> {
    if s == "oneshot"@ {
        Ok(ScheduleKind::Oneshot)
    } else if s == "cron"@ {
        Ok(ScheduleKind::Cron)
    } else if s == "interval"@ {
        Ok(ScheduleKind::Interval)
    } else {
        Err("unknown ScheduleKind: "@ + s)
    }
}

impl ScheduleKind {
    /// The text of the value on the wire.
    pub fn as_wire_str(&self) -> (s: &'static str)
        ensures
            s@ == schedule_kind_text(*self),
    {
        match self {
            ScheduleKind::Oneshot => "oneshot",
            ScheduleKind::Cron => "cron",
            ScheduleKind::Interval => "interval",
        }
    }

    /// Reads the value from its text on the wire.
    pub fn from_wire_str(s: &str) -> (r: Result<ScheduleKind, String>)
        ensures
            match schedule_kind_of(s@) {
                Ok(k) => r == Ok::<ScheduleKind, String>(k),
                Err(e) => r matches Err(x) && x@ == e,
            },
    {
        if same(s, "oneshot") {
            Ok(ScheduleKind::Oneshot)
        } else if same(s, "cron") {
            Ok(ScheduleKind::Cron)
        } else if same(s, "interval") {
            Ok(ScheduleKind::Interval)
        } else {
            Err(cat2("unknown ScheduleKind: ", s))
        }
    }
}

impl std::str::FromStr for ScheduleKind {
    type Err = String;

    fn from_str(s: &str) -> (r: Result<ScheduleKind, String>)
        ensures
            match schedule_kind_of(s@) {
                Ok(k) => r == Ok::<ScheduleKind, String>(k),
                Err(e) => r matches Err(x) && x@ == e,
            },
    {
        ScheduleKind::from_wire_str(s)
    }
}

/// A value is read back from its text on the wire.
pub proof fn law_schedule_kind_reads_back(k: ScheduleKind)
    ensures
        schedule_kind_of(schedule_kind_text(k)) == Ok::<ScheduleKind, Seq<char>>(k),
{
    reveal_strlit("oneshot");
    assert("oneshot"@[0] == 'o' && "oneshot"@[1] == 'n');
    reveal_strlit("cron");
    assert("cron"@[0] == 'c' && "cron"@[1] == 'r');
    reveal_strlit("interval");
    assert("interval"@[0] == 'i' && "interval"@[1] == 'n');
}

/// Only the text of a value is read as that value.
pub proof fn law_schedule_kind_text_is_unique(s: Seq<char>)
    ensures
        schedule_kind_of(s) matches Ok(k) ==> s == schedule_kind_text(k),
{
}

/// Where a schedule stands.
#[derive(Debug, Clone, Copy, PartialEq, Eq, Structural)]
pub enum ScheduleStatus {
    Pending,
    Running,
    Paused,
    Error,
}

/// The text of the value on the wire.
pub open spec fn schedule_status_text(k: ScheduleStatus) -> Seq<char> {
    match k {
        ScheduleStatus::Pending => "pending"@,
        ScheduleStatus::Running => "running"@,
        ScheduleStatus::Paused => "paused"@,
        ScheduleStatus::Error => "error"@,
    }
}

/// The value that a text on the wire stands for.
pub open spec fn schedule_status_of(s: Seq<char>) -> Result<ScheduleStatus, Seq<char>> {
    if s == "pending"@ {
        Ok(ScheduleStatus::Pending)
    } else if s == "running"@ {
        Ok(ScheduleStatus::Running)
    } else if s == "paused"@ {
        Ok(ScheduleStatus::Paused)
    } else if s == "error"@ {
        Ok(ScheduleStatus::Error)
    } else {
        Err("unknown ScheduleStatus: "@ + s)
    }
}

impl ScheduleStatus {
    /// The text of the value on the wire.
    pub fn as_wire_str(&self) -> (s: &'static str)
        ensures
            s@ == schedule_status_text(*self),
    {
        match self {
            ScheduleStatus::Pending => "pending",
            ScheduleStatus::Running => "running",
            ScheduleStatus::Paused => "paused",
            ScheduleStatus::Error => "error",
        }
    }

    /// Reads the value from its text on the wire.
    pub fn from_wire_str(s: &str) -> (r: Result<ScheduleStatus, String>)
        ensures
            match schedule_status_of(s@) {
                Ok(k) => r == Ok::<ScheduleStatus, String>(k),
                Err(e) => r matches Err(x) && x@ == e,
            },
    {
        if same(s, "pending") {
            Ok(ScheduleStatus::Pending)
        } else if same(s, "running") {
            Ok(ScheduleStatus::Running)
        } else if same(s, "paused") {
            Ok(ScheduleStatus::Paused)
        } else if same(s, "error") {
            Ok(ScheduleStatus::Error)
        } else {
            Err(cat2("unknown ScheduleStatus: ", s))
        }
    }
}

impl std::str::FromStr for ScheduleStatus {
    type Err = String;

    fn from_str(s: &str) -> (r: Result<ScheduleStatus, String>)
        ensures
            match schedule_status_of(s@) {
                Ok(k) => r == Ok::<ScheduleStatus, String>(k),
                Err(e) => r matches Err(x) && x@ == e,
            },
    {
        ScheduleStatus::from_wire_str(s)
    }
}

/// A value is read back from its text on the wire.
pub proof fn law_schedule_status_reads_back(k: ScheduleStatus)
    ensures
        schedule_status_of(schedule_status_text(k)) == Ok::<ScheduleStatus, Seq<char>>(k),
{
    reveal_strlit("pending");
    assert("pending"@[0] == 'p' && "pending"@[1] == 'e');
    reveal_strlit("running");
    assert("running"@[0] == 'r' && "running"@[1] == 'u');
    reveal_strlit("paused");
    assert("paused"@[0] == 'p' && "paused"@[1] == 'a');
    reveal_strlit("error");
    assert("error"@[0] == 'e' && "error"@[1] == 'r');
}

/// Only the text of a value is read as that value.
pub proof fn law_schedule_status_text_is_unique(s: Seq<char>)
    ensures
        schedule_status_of(s) matches Ok(k) ==> s == schedule_status_text(k),
{
}

/// A schedule, as clients see it.
#[derive(Debug, Clone)]
pub struct ScheduleInfo {
    pub id: String,
    pub kind: ScheduleKind,
    pub due_at: i64,
    pub cron: Option<String>,
    pub every_ms: Option<i64>,
    pub status: ScheduleStatus,
    pub last_error: Option<String>,
    pub created_at: i64,
    pub fired_count: i64,
}

/// The wait before the first retry of a step, where a workflow does not say.
pub const DEFAULT_INITIAL_RETRY_MS: u64 = 1_000;

/// The longest wait between retries of a step, where a workflow does not say.
pub const DEFAULT_MAX_RETRY_MS: u64 = 60_000;

/// How a failed step is retried.
#[derive(Debug, Clone, Copy, PartialEq, Eq, Structural)]
pub struct StepRetry {
    pub max_attempts: u32,
    pub initial_retry_ms: u64,
    pub max_retry_ms: u64,
}

impl StepRetry {
    /// Retries with the waits given, or the usual ones where they are not.
    pub fn with_defaults(
        max_attempts: u32,
        initial_retry_ms: Option<u64>,
        max_retry_ms: Option<u64>,
    ) -> (r: StepRetry)
        ensures
            r.max_attempts == max_attempts,
            r.initial_retry_ms == (match initial_retry_ms {
                Some(ms) => ms,
                None => DEFAULT_INITIAL_RETRY_MS,
            }),
            r.max_retry_ms == (match max_retry_ms {
                Some(ms) => ms,
                None => DEFAULT_MAX_RETRY_MS,
            }),
    {
        StepRetry {
            max_attempts,
            initial_retry_ms: match initial_retry_ms {
                Some(ms) => ms,
                None => DEFAULT_INITIAL_RETRY_MS,
            },
            max_retry_ms: match max_retry_ms {
                Some(ms) => ms,
                None => DEFAULT_MAX_RETRY_MS,
            },
        }
    }
}

impl Default for StepRetry {
    fn default() -> (r: StepRetry)
        ensures
            r == (StepRetry { max_attempts: 3, initial_retry_ms: 1_000, max_retry_ms: 60_000 }),
    {
        StepRetry { max_attempts: 3, initial_retry_ms: 1_000, max_retry_ms: 60_000 }
    }
}

/// A transaction: its steps, in order, as they came over the wire.
#[derive(Debug)]
pub struct Transaction {
    pub steps: Vec<Json>,
}

/// One step of a workflow.
#[derive(Debug)]
pub struct WorkflowStepSpec {
    pub txn: Transaction,
    pub retry: Option<StepRetry>,
    pub sleep_before_ms: Option<u64>,
}

/// A workflow: named steps that run in order.
#[derive(Debug)]
pub struct WorkflowSpec {
    pub name: String,
    pub steps: Vec<WorkflowStepSpec>,
}

/// Where a workflow stands.
#[derive(Debug, Clone, Copy, PartialEq, Eq, Structural)]
pub enum WorkflowStatus {
    Pending,
    Running,
    Success,
    Failed,
    Cancelled,
}

/// The text of the value on the wire.
pub open spec fn workflow_status_text(k: WorkflowStatus) -> Seq<char> {
    match k {
        WorkflowStatus::Pending => "pending"@,
        WorkflowStatus::Running => "running"@,
        WorkflowStatus::Success => "success"@,
        WorkflowStatus::Failed => "failed"@,
        WorkflowStatus::Cancelled => "cancelled"@,
    }
}

/// The value that a text on the wire stands for.
pub open spec fn workflow_status_of(s: Seq<char>) -> Result<WorkflowStatus, Seq<char>> {
    if s == "pending"@ {
        Ok(WorkflowStatus::Pending)
    } else if s == "running"@ {
        Ok(WorkflowStatus::Running)
    } else if s == "success"@ {
        Ok(WorkflowStatus::Success)
    } else if s == "failed"@ {
        Ok(WorkflowStatus::Failed)
    } else if s == "cancelled"@ {
        Ok(WorkflowStatus::Cancelled)
    } else {
        Err("unknown WorkflowStatus: "@ + s)
    }
}

impl WorkflowStatus {
    /// The text of the value on the wire.
    pub fn as_wire_str(&self) -> (s: &'static str)
        ensures
            s@ == workflow_status_text(*self),
    {
        match self {
            WorkflowStatus::Pending => "pending",
            WorkflowStatus::Running => "running",
            WorkflowStatus::Success => "success",
            WorkflowStatus::Failed => "failed",
            WorkflowStatus::Cancelled => "cancelled",
        }
    }

    /// Reads the value from its text on the wire.
    pub fn from_wire_str(s: &str) -> (r: Result<WorkflowStatus, String>)
        ensures
            match workflow_status_of(s@) {
                Ok(k) => r == Ok::<WorkflowStatus, String>(k),
                Err(e) => r matches Err(x) && x@ == e,
            },
    {
        if same(s, "pending") {
            Ok(WorkflowStatus::Pending)
        } else if same(s, "running") {
            Ok(WorkflowStatus::Running)
        } else if same(s, "success") {
            Ok(WorkflowStatus::Success)
        } else if same(s, "failed") {
            Ok(WorkflowStatus::Failed)
        } else if same(s, "cancelled") {
            Ok(WorkflowStatus::Cancelled)
        } else {
            Err(cat2("unknown WorkflowStatus: ", s))
        }
    }
}

impl std::str::FromStr for WorkflowStatus {
    type Err = String;

    fn from_str(s: &str) -> (r: Result<WorkflowStatus, String>)
        ensures
            match workflow_status_of(s@) {
                Ok(k) => r == Ok::<WorkflowStatus, String>(k),
                Err(e) => r matches Err(x) && x@ == e,
            },
    {
        WorkflowStatus::from_wire_str(s)
    }
}

/// A value is read back from its text on the wire.
pub proof fn law_workflow_status_reads_back(k: WorkflowStatus)
    ensures
        workflow_status_of(workflow_status_text(k)) == Ok::<WorkflowStatus, Seq<char>>(k),
{
    reveal_strlit("pending");
    assert("pending"@[0] == 'p' && "pending"@[1] == 'e');
    reveal_strlit("running");
    assert("running"@[0] == 'r' && "running"@[1] == 'u');
    reveal_strlit("success");
    assert("success"@[0] == 's' && "success"@[1] == 'u');
    reveal_strlit("failed");
    assert("failed"@[0] == 'f' && "failed"@[1] == 'a');
    reveal_strlit("cancelled");
    assert("cancelled"@[0] == 'c' && "cancelled"@[1] == 'a');
}

/// Only the text of a value is read as that value.
pub proof fn law_workflow_status_text_is_unique(s: Seq<char>)
    ensures
        workflow_status_of(s) matches Ok(k) ==> s == workflow_status_text(k),
{
}

/// How a step of a workflow ended.
#[derive(Debug, Clone)]
pub struct StepOutcome {
    pub step_index: u32,
    pub status: OutcomeStatus,
    pub attempts: u32,
    pub at: i64,
    pub error: Option<String>,
}

/// Whether a step succeeded.
#[derive(Debug, Clone, Copy, PartialEq, Eq, Structural)]
pub enum OutcomeStatus {
    Success,
    Failed,
}

/// A workflow, as clients see it.
#[derive(Debug, Clone)]
pub struct WorkflowInfo {
    pub id: String,
    pub name: String,
    pub status: WorkflowStatus,
    pub current_step: u32,
    pub step_count: u32,
    pub attempts: u32,
    pub sleep_until: Option<i64>,
    pub last_error: Option<String>,
    pub created_at: i64,
    pub updated_at: i64,
    pub started_at: Option<i64>,
    pub finished_at: Option<i64>,
}

/// A workflow with the outcomes of its steps.
#[derive(Debug, Clone)]
pub struct WorkflowInfoFull {
    pub info: WorkflowInfo,
    pub step_outcomes: Vec<StepOutcome>,
}

} // verus!
