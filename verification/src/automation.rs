//! Automation: the operation a workflow action runs, the idempotency key of
//! an enqueued action, the retry backoff and the queue-tick report, idle
//! detection while typing, and the summary of an edit transaction.
use vstd::prelude::*;
use crate::content::TextOperation;
use crate::domain::{ConditionOperator, Job, JobStatus, WorkflowAction};
use crate::ids::{JobId, ProjectId, WorkflowId};
use crate::hints::dedup_adjacent;
use crate::ids::uuid_text;
use crate::text::{append_chars, append_str, chars_of, slice_to_vec, string_of};

verus! {

/// How deep a chain of events causing jobs may go.
pub const MAX_CAUSATION_DEPTH: u32 = 8;

/// The operation (the kernel tool) a workflow action runs.
pub open spec fn operation_of(action: WorkflowAction) -> Seq<char> {
    match action {
        WorkflowAction::SaveDocument => "document.save"@,
        WorkflowAction::RebuildIndex => "index.rebuild"@,
        WorkflowAction::CheckContinuity => "continuity.check"@,
        WorkflowAction::GenerateContinuation { .. } => "agent.continuation"@,
        WorkflowAction::CreateBackup => "backup.create"@,
        WorkflowAction::RunAgent { .. } => "agent.run"@,
        WorkflowAction::RunPluginOperation { .. } => "plugin.operation"@,
    }
}

/// The operation a workflow action runs.
pub fn operation_name(action: &WorkflowAction) -> (r: &'static str)
    ensures
        r@ == operation_of(*action),
{
    match action {
        WorkflowAction::SaveDocument => "document.save",
        WorkflowAction::RebuildIndex => "index.rebuild",
        WorkflowAction::CheckContinuity => "continuity.check",
        WorkflowAction::GenerateContinuation { .. } => "agent.continuation",
        WorkflowAction::CreateBackup => "backup.create",
        WorkflowAction::RunAgent { .. } => "agent.run",
        WorkflowAction::RunPluginOperation { .. } => "plugin.operation",
    }
}

/// The idempotency key of an action enqueued for an event by a workflow:
/// the event, the workflow and the action, joined by colons. Delivering the
/// same event again yields the same key, so the action is not queued twice.
pub open spec fn idempotency_key(event_id: Seq<char>, workflow_id: u128, action: Seq<char>) -> Seq<char> {
    event_id + ":"@ + uuid_text(workflow_id) + ":"@ + action
}

/// The idempotency key of an action enqueued for an event by a workflow.
pub fn stable_idempotency_key(event_id: &str, workflow_id: u128, action: &str) -> (r: String)
    ensures
        r@ == idempotency_key(event_id@, workflow_id, action@),
{
    let mut v = chars_of(event_id);
    append_str(&mut v, ":");
    let w = crate::ids::uuid_to_string(workflow_id);
    append_str(&mut v, w.as_str());
    append_str(&mut v, ":");
    append_str(&mut v, action);
    string_of(v.as_slice())
}

/// Whether an event this deep in a causation chain may still enqueue jobs.
pub fn causation_allowed(depth: u32) -> (r: bool)
    ensures
        r == (depth <= MAX_CAUSATION_DEPTH),
{
    depth <= MAX_CAUSATION_DEPTH
}

/// Whether a workflow rule fires for an event: the rule is enabled, its
/// trigger is the event's type, and each of its conditions holds
/// (`conditions_hold[k]` says whether condition `k` holds of the payload).
pub fn rule_applies(enabled: bool, trigger_event_type: &str, event_type: &str, conditions_hold: &[bool]) -> (r:
    bool)
    ensures
        r == (enabled && trigger_event_type@ == event_type@ && forall|k: int|
            0 <= k < conditions_hold@.len() ==> #[trigger] conditions_hold@[k]),
{
    if !enabled || !crate::text::str_eq(trigger_event_type, event_type) {
        return false;
    }
    let mut k: usize = 0;
    while k < conditions_hold.len()
        invariant
            k <= conditions_hold.len(),
            forall|j: int| 0 <= j < k ==> #[trigger] conditions_hold@[j],
        decreases conditions_hold.len() - k,
    {
        if !conditions_hold[k] {
            return false;
        }
        k += 1;
    }
    true
}

/// The pieces of a text between the separators `sep`, as `str::split`
/// gives them (an empty text is one empty piece).
pub open spec fn split_on(s: Seq<char>, sep: char) -> Seq<Seq<char>>
    decreases s.len(),
{
    if s.len() == 0 {
        seq![seq![]]
    } else {
        let r = split_on(s.drop_last(), sep);
        if s.last() == sep {
            r.push(seq![])
        } else {
            r.update(r.len() - 1, r.last().push(s.last()))
        }
    }
}

proof fn lemma_split_on_len(s: Seq<char>, sep: char)
    ensures
        split_on(s, sep).len() >= 1,
    decreases s.len(),
{
    if s.len() > 0 {
        lemma_split_on_len(s.drop_last(), sep);
    }
}

/// The keys of a dotted payload path, in order.
pub fn path_segments(path: &str) -> (r: Vec<String>)
    ensures
        crate::protocol::string_views(r@) == split_on(path@, '.'),
{
    let v = chars_of(path);
    let mut done: Vec<String> = Vec::new();
    let mut cur: Vec<char> = Vec::new();
    let mut i: usize = 0;
    while i < v.len()
        invariant
            i <= v.len(),
            v@ == path@,
            crate::protocol::string_views(done@).push(cur@) == split_on(v@.take(i as int), '.'),
        decreases v.len() - i,
    {
        proof {
            assert(v@.take(i + 1).drop_last() =~= v@.take(i as int));
            assert(v@.take(i + 1).last() == v@[i as int]);
            lemma_split_on_len(v@.take(i as int), '.');
        }
        let ghost before = split_on(v@.take(i as int), '.');
        if v[i] == '.' {
            let piece = string_of(cur.as_slice());
            done.push(piece);
            cur = Vec::new();
            proof {
                assert(crate::protocol::string_views(done@).push(cur@) =~= before.push(seq![]));
            }
        } else {
            cur.push(v[i]);
            proof {
                assert(crate::protocol::string_views(done@).push(cur@) =~= before.update(
                    before.len() - 1,
                    before.last().push(v@[i as int]),
                ));
            }
        }
        i += 1;
    }
    assert(v@.take(v.len() as int) =~= v@);
    let last = string_of(cur.as_slice());
    done.push(last);
    done
}

/// What a workflow condition decides without comparing values. A condition
/// whose path is missing holds only when it is `Exists` asking for `false`;
/// an `Exists` condition on a present value holds when it asks for `true`.
/// `None` when the values must be compared. `expects` is the condition's
/// value when that is a boolean.
pub fn presence_outcome(operator: ConditionOperator, found: bool, expects: Option<bool>) -> (r: Option<bool>)
    ensures
        !found ==> r == Some(operator == ConditionOperator::Exists && expects == Some(false)),
        found && operator == ConditionOperator::Exists ==> r == Some(expects == Some(true)),
        found && operator != ConditionOperator::Exists ==> r is None,
{
    let is_exists = match operator {
        ConditionOperator::Exists => true,
        _ => false,
    };
    if !found {
        Some(
            is_exists && match expects {
                Some(b) => !b,
                None => false,
            },
        )
    } else if is_exists {
        Some(
            match expects {
                Some(b) => b,
                None => false,
            },
        )
    } else {
        None
    }
}

/// Why a job was not queued.
#[derive(Debug, Clone, PartialEq, Eq)]
pub enum QueueError {
    /// The store refused the job.
    Storage(String),
    /// The chain of events causing it is too deep.
    CausationDepthExceeded,
}

impl QueueError {
    /// What the error says.
    pub fn message(&self) -> (r: String)
        ensures
            match self {
                QueueError::Storage(m) => r@ == m@,
                QueueError::CausationDepthExceeded => r@ == "causation depth exceeded"@,
            },
    {
        match self {
            QueueError::Storage(m) => crate::text::copy_string(m),
            QueueError::CausationDepthExceeded => string_of(chars_of("causation depth exceeded").as_slice()),
        }
    }
}

/// A new pending job, due now: no dependencies, no attempts yet, at most
/// three, no deadline. It gets a fresh identifier.
pub fn pending_job(
    project_id: ProjectId,
    workflow_id: Option<WorkflowId>,
    operation: String,
    payload: String,
    priority: i32,
    idempotency_key: String,
    causation_id: Option<String>,
    causation_depth: u32,
    now_ms: i64,
) -> (r: Job)
    ensures
        r.project_id == project_id,
        r.workflow_id == workflow_id,
        r.operation@ == operation@,
        r.payload@ == payload@,
        r.priority == priority,
        r.status == JobStatus::Pending,
        r.idempotency_key@ == idempotency_key@,
        r.depends_on@.len() == 0,
        r.attempts == 0,
        r.max_attempts == 3,
        r.run_at_ms == now_ms,
        r.deadline_ms is None,
        r.causation_id == causation_id,
        r.causation_depth == causation_depth,
        r.created_at_ms == now_ms,
        r.updated_at_ms == now_ms,
{
    Job {
        id: JobId::new(),
        project_id,
        workflow_id,
        operation,
        payload,
        priority,
        status: JobStatus::Pending,
        idempotency_key,
        depends_on: Vec::new(),
        attempts: 0,
        max_attempts: 3,
        run_at_ms: now_ms,
        deadline_ms: None,
        causation_id,
        causation_depth,
        created_at_ms: now_ms,
        updated_at_ms: now_ms,
    }
}

/// The job a workflow action becomes: refused when the chain of events
/// causing it is deeper than `MAX_CAUSATION_DEPTH`, else a pending job
/// running the action's operation.
pub fn job_for_action(
    project_id: ProjectId,
    workflow_id: Option<WorkflowId>,
    action: &WorkflowAction,
    payload: String,
    priority: i32,
    idempotency_key: String,
    causation_id: Option<String>,
    causation_depth: u32,
    now_ms: i64,
) -> (r: Result<Job, QueueError>)
    ensures
        causation_depth > MAX_CAUSATION_DEPTH ==> r == Err::<Job, QueueError>(QueueError::CausationDepthExceeded),
        causation_depth <= MAX_CAUSATION_DEPTH ==> (r matches Ok(j) && {
            &&& j.project_id == project_id
            &&& j.workflow_id == workflow_id
            &&& j.operation@ == operation_of(*action)
            &&& j.payload@ == payload@
            &&& j.priority == priority
            &&& j.status == JobStatus::Pending
            &&& j.idempotency_key@ == idempotency_key@
            &&& j.depends_on@.len() == 0
            &&& j.attempts == 0
            &&& j.max_attempts == 3
            &&& j.run_at_ms == now_ms
            &&& j.deadline_ms is None
            &&& j.causation_id == causation_id
            &&& j.causation_depth == causation_depth
            &&& j.created_at_ms == now_ms
            &&& j.updated_at_ms == now_ms
        }),
{
    if !causation_allowed(causation_depth) {
        return Err(QueueError::CausationDepthExceeded);
    }
    let operation = string_of(chars_of(operation_name(action)).as_slice());
    Ok(
        pending_job(
            project_id,
            workflow_id,
            operation,
            payload,
            priority,
            idempotency_key,
            causation_id,
            causation_depth,
            now_ms,
        ),
    )
}

/// The idempotency key of a job the author queues by hand: `manual:` and a
/// job identifier's text.
pub fn manual_idempotency_key(job: JobId) -> (r: String)
    ensures
        r@ == "manual:"@ + crate::ids::uuid_text(job.0),
{
    let mut v = chars_of("manual:");
    let id = job.to_string();
    append_str(&mut v, id.as_str());
    string_of(v.as_slice())
}

// ---------------------------------------------------------------------------
// The queue tick
// ---------------------------------------------------------------------------

/// How the queue runs jobs: after how long a job stuck running counts as
/// left over from a crash, and the base of the retry backoff, both in
/// milliseconds.
#[derive(Debug, Clone, Copy, PartialEq, Eq, Structural)]
pub struct QueuePolicy {
    pub stale_running_after_ms: i64,
    pub backoff_base_ms: i64,
}

impl Default for QueuePolicy {
    fn default() -> (r: QueuePolicy)
        ensures
            r.stale_running_after_ms == 600_000,
            r.backoff_base_ms == 5_000,
    {
        QueuePolicy { stale_running_after_ms: 600_000, backoff_base_ms: 5_000 }
    }
}

/// The factor of the backoff after a job's `attempts`-th failure: 2 to the
/// power `attempts - 1`, at most 64.
pub open spec fn backoff_factor(attempts: u32) -> int {
    let e = if attempts - 1 < 6 {
        attempts - 1
    } else {
        6
    };
    vstd::arithmetic::power2::pow2(e as nat) as int
}

/// How long to wait before retrying a job after its `attempts`-th failure:
/// the base, doubled for each earlier failure, at most 64 times the base.
pub fn retry_backoff(attempts: u32, base_ms: i64) -> (r: i64)
    requires
        attempts >= 1,
        -i64::MAX <= base_ms * backoff_factor(attempts) <= i64::MAX,
    ensures
        r == base_ms * backoff_factor(attempts),
{
    let e: u32 = if attempts - 1 < 6 {
        attempts - 1
    } else {
        6
    };
    let factor: i64 = if e == 0 {
        1
    } else if e == 1 {
        2
    } else if e == 2 {
        4
    } else if e == 3 {
        8
    } else if e == 4 {
        16
    } else if e == 5 {
        32
    } else {
        64
    };
    proof {
        vstd::arithmetic::power2::lemma2_to64();
        assert(factor == vstd::arithmetic::power2::pow2(e as nat));
        assert(factor == backoff_factor(attempts));
    }
    base_ms * factor
}

/// What a queue tick reports about a job whose run failed: dead-lettered
/// with no retry, or pending again with the retry delay.
pub fn failure_status(dead: bool, backoff_ms: i64) -> (r: (&'static str, Option<i64>))
    ensures
        dead ==> r.0@ == "deadLetter"@ && r.1 is None,
        !dead ==> r.0@ == "pending"@ && r.1 == Some(backoff_ms),
{
    if dead {
        ("deadLetter", None)
    } else {
        ("pending", Some(backoff_ms))
    }
}

// ---------------------------------------------------------------------------
// The job handlers the runner starts with
// ---------------------------------------------------------------------------

/// Handles `document.save` jobs.
pub struct SaveDocumentHandler;

/// Handles `index.rebuild` jobs.
pub struct RebuildIndexHandler;

/// Handles `continuity.check` jobs.
pub struct ContinuityCheckHandler;

/// Handles `backup.create` jobs.
pub struct CreateBackupHandler;

impl SaveDocumentHandler {
    /// The operation it handles.
    pub fn operation(&self) -> (r: &'static str)
        ensures
            r@ == "document.save"@,
    {
        "document.save"
    }
}

impl RebuildIndexHandler {
    /// The operation it handles.
    pub fn operation(&self) -> (r: &'static str)
        ensures
            r@ == "index.rebuild"@,
    {
        "index.rebuild"
    }
}

impl ContinuityCheckHandler {
    /// The operation it handles.
    pub fn operation(&self) -> (r: &'static str)
        ensures
            r@ == "continuity.check"@,
    {
        "continuity.check"
    }
}

impl CreateBackupHandler {
    /// The operation it handles.
    pub fn operation(&self) -> (r: &'static str)
        ensures
            r@ == "backup.create"@,
    {
        "backup.create"
    }
}

/// The message of a job whose operation has no handler.
pub fn no_handler_message(operation: &str) -> (r: String)
    ensures
        r@ == "no handler for operation "@ + operation@,
{
    let mut v = chars_of("no handler for operation ");
    append_str(&mut v, operation);
    string_of(v.as_slice())
}

/// What running one due job gave: the job, its operation, whether it
/// succeeded, the handler's output (as JSON text) or the error.
#[derive(Debug, Clone, PartialEq)]
pub struct RunnerResult {
    pub job_id: String,
    pub operation: String,
    pub success: bool,
    pub output: Option<String>,
    pub error: Option<String>,
}

/// The result of running a job: `outcome` is `None` when no handler is
/// registered for the operation, else what the handler returned.
pub fn runner_result(job_id: String, operation: String, outcome: Option<Result<String, String>>) -> (r:
    RunnerResult)
    ensures
        r.job_id@ == job_id@,
        r.operation@ == operation@,
        match outcome {
            Some(Ok(out)) => r.success && r.output == Some(out) && r.error is None,
            Some(Err(e)) => !r.success && r.output is None && r.error == Some(e),
            None => {
                &&& !r.success
                &&& r.output is None
                &&& r.error matches Some(m) && m@ == "no handler for operation "@ + operation@
            },
        },
{
    match outcome {
        Some(Ok(out)) => RunnerResult { job_id, operation, success: true, output: Some(out), error: None },
        Some(Err(e)) => RunnerResult { job_id, operation, success: false, output: None, error: Some(e) },
        None => {
            let m = no_handler_message(operation.as_str());
            RunnerResult { job_id, operation, success: false, output: None, error: Some(m) }
        },
    }
}

// ---------------------------------------------------------------------------
// Typing sessions
// ---------------------------------------------------------------------------

/// The state of the author's typing. Instants are in milliseconds since the
/// Unix epoch.
#[derive(Debug, Clone, Copy, PartialEq, Eq, Structural)]
pub struct TypingSession {
    pub last_input_at_ms: i64,
    pub last_commit_at_ms: i64,
    pub composing: bool,
    pub focused: bool,
    pub chars_since_commit: u32,
}

impl TypingSession {
    /// A focused session with no input since `now_ms`.
    pub fn new(now_ms: i64) -> (r: TypingSession)
        ensures
            r.last_input_at_ms == now_ms,
            r.last_commit_at_ms == now_ms,
            !r.composing,
            r.focused,
            r.chars_since_commit == 0,
    {
        TypingSession {
            last_input_at_ms: now_ms,
            last_commit_at_ms: now_ms,
            composing: false,
            focused: true,
            chars_since_commit: 0,
        }
    }

    /// Whether the author has paused: the editor is focused, no input method
    /// is composing, enough characters were typed since the last commit,
    /// and the last input is at least `debounce_ms` old.
    pub fn should_emit_idle(&self, now_ms: i64, debounce_ms: i64, min_chars: u32) -> (r: bool)
        ensures
            r == (self.focused && !self.composing && self.chars_since_commit >= min_chars && now_ms
                - self.last_input_at_ms >= debounce_ms),
    {
        self.focused && !self.composing && self.chars_since_commit >= min_chars && (now_ms as i128)
            - (self.last_input_at_ms as i128) >= debounce_ms as i128
    }
}

/// What an editor heartbeat makes of a session, and whether the author
/// paused: the session takes the heartbeat's composing, focus and
/// character count, its last input becomes `input_at_ms`, and the pause is
/// checked at `now_ms` with an 1800 ms debounce and at least 20 characters.
pub fn editor_tick(
    session: TypingSession,
    input: &crate::commands::EditorTickInput,
    input_at_ms: i64,
    now_ms: i64,
) -> (r: (TypingSession, bool))
    ensures
        r.0.composing == input.composing,
        r.0.focused == input.focused,
        r.0.chars_since_commit == input.chars_since_commit,
        r.0.last_input_at_ms == input_at_ms,
        r.0.last_commit_at_ms == session.last_commit_at_ms,
        r.1 == (input.focused && !input.composing && input.chars_since_commit >= 20 && now_ms
            - input_at_ms >= 1800),
{
    let mut typing = session;
    typing.composing = input.composing;
    typing.focused = input.focused;
    typing.chars_since_commit = input.chars_since_commit;
    typing.last_input_at_ms = input_at_ms;
    let idle = typing.should_emit_idle(now_ms, 1800, 20);
    (typing, idle)
}

// ---------------------------------------------------------------------------
// Change summaries
// ---------------------------------------------------------------------------

/// Whether one text sorts before another: at the first character where they
/// differ it has the smaller one, or it is a proper prefix of the other
/// (the order of `str`, whose byte order follows the characters').
pub open spec fn text_less(a: Seq<char>, b: Seq<char>) -> bool
    decreases a.len(),
{
    if a.len() == 0 {
        b.len() > 0
    } else if b.len() == 0 {
        false
    } else if a[0] != b[0] {
        (a[0] as u32) < (b[0] as u32)
    } else {
        text_less(a.drop_first(), b.drop_first())
    }
}

fn less_chars(a: &[char], b: &[char]) -> (r: bool)
    ensures
        r == text_less(a@, b@),
{
    let mut i: usize = 0;
    assert(a@.skip(0) =~= a@ && b@.skip(0) =~= b@);
    while i < a.len() && i < b.len() && a[i] == b[i]
        invariant
            i <= a.len(),
            i <= b.len(),
            text_less(a@, b@) == text_less(a@.skip(i as int), b@.skip(i as int)),
        decreases a.len() - i,
    {
        proof {
            let x = a@.skip(i as int);
            let y = b@.skip(i as int);
            assert(x.drop_first() =~= a@.skip(i + 1));
            assert(y.drop_first() =~= b@.skip(i + 1));
            assert(x[0] == a@[i as int] && y[0] == b@[i as int]);
        }
        i += 1;
    }
    proof {
        let x = a@.skip(i as int);
        let y = b@.skip(i as int);
        if i < a.len() {
            assert(x[0] == a@[i as int]);
        }
        if i < b.len() {
            assert(y[0] == b@[i as int]);
        }
    }
    if i == a.len() {
        i < b.len()
    } else if i == b.len() {
        false
    } else {
        (a[i] as u32) < (b[i] as u32)
    }
}

/// Where a text goes into a sorted list so that the sort is stable: after
/// every text it does not sort before.
pub open spec fn text_insertion_point(s: Seq<Seq<char>>, x: Seq<char>) -> int
    decreases s.len(),
{
    if s.len() == 0 {
        0
    } else if text_less(x, s[0]) {
        0
    } else {
        1 + text_insertion_point(s.drop_first(), x)
    }
}

/// The texts stably sorted.
pub open spec fn sorted_texts(s: Seq<Seq<char>>) -> Seq<Seq<char>>
    decreases s.len(),
{
    if s.len() == 0 {
        s
    } else {
        let t = sorted_texts(s.drop_last());
        t.insert(text_insertion_point(t, s.last()), s.last())
    }
}

/// The counts of an edit transaction.
#[derive(Debug, Clone, PartialEq, Eq)]
pub struct ChangeSummary {
    pub inserted_chars: u32,
    pub deleted_chars: u32,
    pub affected_blocks: Vec<String>,
    pub operation_count: u32,
}

/// The characters an operation inserts, counted to 32 bits.
pub open spec fn inserted_by(op: TextOperation) -> int {
    match op {
        TextOperation::Insert { text, .. } => (text@.len() as u32) as int,
        TextOperation::Delete { .. } => 0,
        TextOperation::CreateBlock { text, .. } => (text@.len() as u32) as int,
    }
}

/// The characters an operation deletes.
pub open spec fn deleted_by(op: TextOperation) -> int {
    match op {
        TextOperation::Delete { length, .. } => length as int,
        _ => 0,
    }
}

/// The block an operation touches.
pub open spec fn block_of(op: TextOperation) -> u128 {
    match op {
        TextOperation::Insert { block_id, .. } => block_id.0,
        TextOperation::Delete { block_id, .. } => block_id.0,
        TextOperation::CreateBlock { block_id, .. } => block_id.0,
    }
}

/// The characters the operations insert.
pub open spec fn total_inserted(ops: Seq<TextOperation>) -> int
    decreases ops.len(),
{
    if ops.len() == 0 {
        0
    } else {
        total_inserted(ops.drop_last()) + inserted_by(ops.last())
    }
}

/// The characters the operations delete.
pub open spec fn total_deleted(ops: Seq<TextOperation>) -> int
    decreases ops.len(),
{
    if ops.len() == 0 {
        0
    } else {
        total_deleted(ops.drop_last()) + deleted_by(ops.last())
    }
}

/// The identifier texts of the blocks the operations touch, in order.
pub open spec fn touched_blocks(ops: Seq<TextOperation>) -> Seq<Seq<char>> {
    Seq::new(ops.len(), |i: int| uuid_text(block_of(ops[i])))
}

proof fn lemma_totals_prefix(ops: Seq<TextOperation>, k: int)
    requires
        0 <= k <= ops.len(),
    ensures
        0 <= total_inserted(ops.take(k)) <= total_inserted(ops),
        0 <= total_deleted(ops.take(k)) <= total_deleted(ops),
    decreases ops.len() - k,
{
    if k < ops.len() {
        lemma_totals_prefix(ops, k + 1);
        assert(ops.take(k + 1).drop_last() =~= ops.take(k));
    } else {
        assert(ops.take(k) =~= ops);
    }
    lemma_totals_nonneg(ops.take(k));
}

proof fn lemma_totals_nonneg(ops: Seq<TextOperation>)
    ensures
        total_inserted(ops) >= 0,
        total_deleted(ops) >= 0,
    decreases ops.len(),
{
    if ops.len() > 0 {
        lemma_totals_nonneg(ops.drop_last());
    }
}

impl ChangeSummary {
    /// The counts of a transaction: the characters inserted and deleted, the
    /// blocks touched (each once, sorted), and the number of operations.
    pub fn from_operations(operations: &[TextOperation]) -> (r: ChangeSummary)
        requires
            total_inserted(operations@) <= u32::MAX,
            total_deleted(operations@) <= u32::MAX,
        ensures
            r.inserted_chars == total_inserted(operations@),
            r.deleted_chars == total_deleted(operations@),
            crate::protocol::string_views(r.affected_blocks@) == crate::hints::dedup_adjacent(
                sorted_texts(touched_blocks(operations@)),
            ),
            r.operation_count == operations@.len() as u32,
    {
        let ghost ops = operations@;
        let ghost touched = touched_blocks(ops);
        let mut inserted: u32 = 0;
        let mut deleted: u32 = 0;
        let mut sorted: Vec<Vec<char>> = Vec::new();
        let mut i: usize = 0;
        while i < operations.len()
            invariant
                i <= operations.len(),
                ops == operations@,
                touched == touched_blocks(ops),
                total_inserted(ops) <= u32::MAX,
                total_deleted(ops) <= u32::MAX,
                inserted == total_inserted(ops.take(i as int)),
                deleted == total_deleted(ops.take(i as int)),
                crate::hints::char_views(sorted@) == sorted_texts(touched.take(i as int)),
            decreases operations.len() - i,
        {
            proof {
                assert(ops.take(i + 1).drop_last() =~= ops.take(i as int));
                assert(touched.take(i + 1).drop_last() =~= touched.take(i as int));
                lemma_totals_prefix(ops, i + 1);
            }
            let id_text = match &operations[i] {
                TextOperation::Insert { block_id, text, .. } => {
                    #[verifier::truncate]
                    let n = text.as_str().unicode_len() as u32;
                    inserted = inserted + n;
                    block_id.to_string()
                },
                TextOperation::Delete { block_id, length, .. } => {
                    deleted = deleted + *length;
                    block_id.to_string()
                },
                TextOperation::CreateBlock { block_id, text, .. } => {
                    #[verifier::truncate]
                    let n = text.as_str().unicode_len() as u32;
                    inserted = inserted + n;
                    block_id.to_string()
                },
            };
            let x = chars_of(id_text.as_str());
            assert(x@ == touched[i as int]);
            assert(touched.take(i + 1).last() == touched[i as int]);
            let mut j: usize = 0;
            assert(crate::hints::char_views(sorted@).skip(0) =~= crate::hints::char_views(sorted@));
            while j < sorted.len() && !less_chars(x.as_slice(), sorted[j].as_slice())
                invariant
                    j <= sorted.len(),
                    text_insertion_point(crate::hints::char_views(sorted@), x@) == j
                        + text_insertion_point(crate::hints::char_views(sorted@).skip(j as int), x@),
                decreases sorted.len() - j,
            {
                proof {
                    let s = crate::hints::char_views(sorted@).skip(j as int);
                    assert(s.drop_first() =~= crate::hints::char_views(sorted@).skip(j + 1));
                    assert(s[0] == sorted@[j as int]@);
                }
                j += 1;
            }
            proof {
                let s = crate::hints::char_views(sorted@).skip(j as int);
                if j < sorted.len() {
                    assert(s[0] == sorted@[j as int]@);
                }
            }
            let ghost before = crate::hints::char_views(sorted@);
            let ghost xv = x@;
            sorted.insert(j, x);
            proof {
                assert(crate::hints::char_views(sorted@) =~= before.insert(j as int, xv));
            }
            i += 1;
        }
        proof {
            assert(ops.take(operations.len() as int) =~= ops);
            assert(touched.take(operations.len() as int) =~= touched);
        }
        let unique = crate::hints::dedup_terms(&sorted);
        let mut affected: Vec<String> = Vec::new();
        let mut k: usize = 0;
        while k < unique.len()
            invariant
                k <= unique.len(),
                affected@.len() == k,
                forall|t: int| 0 <= t < k ==> #[trigger] affected@[t]@ == unique@[t]@,
            decreases unique.len() - k,
        {
            affected.push(string_of(unique[k].as_slice()));
            k += 1;
        }
        assert(crate::protocol::string_views(affected@) =~= crate::hints::char_views(unique@));
        #[verifier::truncate]
        let count = operations.len() as u32;
        ChangeSummary {
            inserted_chars: inserted,
            deleted_chars: deleted,
            affected_blocks: affected,
            operation_count: count,
        }
    }
}


proof fn lemma_char_cast_injective(x: char, y: char)
    ensures
        (x as u32) == (y as u32) ==> x == y,
{
    vstd::utf8::char_u32_cast(x, x as u32);
    vstd::utf8::char_u32_cast(y, y as u32);
}

proof fn lemma_text_less_order(a: Seq<char>, b: Seq<char>, c: Seq<char>)
    ensures
        !text_less(a, a),
        text_less(a, b) ==> !text_less(b, a),
        a != b ==> text_less(a, b) || text_less(b, a),
        text_less(a, b) && text_less(b, c) ==> text_less(a, c),
    decreases a.len(),
{
    if a.len() > 0 {
        let cc = if c.len() > 0 {
            c.drop_first()
        } else {
            a.drop_first()
        };
        if b.len() > 0 {
            lemma_text_less_order(a.drop_first(), b.drop_first(), cc);
            lemma_char_cast_injective(a[0], b[0]);
            if a != b && a[0] == b[0] {
                assert(a =~= seq![a[0]] + a.drop_first());
                assert(b =~= seq![b[0]] + b.drop_first());
            }
            if c.len() > 0 {
                lemma_char_cast_injective(b[0], c[0]);
                lemma_char_cast_injective(a[0], c[0]);
            }
        } else {
            lemma_text_less_order(a.drop_first(), a.drop_first(), a.drop_first());
        }
    } else if b.len() == 0 {
        assert(a =~= b);
    }
}

/// Whether no text of `s` sorts before an earlier one.
pub open spec fn texts_sorted(s: Seq<Seq<char>>) -> bool {
    forall|i: int, j: int| 0 <= i < j < s.len() ==> !text_less(#[trigger] s[j], #[trigger] s[i])
}

proof fn lemma_text_insertion_point(s: Seq<Seq<char>>, x: Seq<char>)
    requires
        texts_sorted(s),
    ensures
        0 <= text_insertion_point(s, x) <= s.len(),
        forall|k: int| 0 <= k < text_insertion_point(s, x) ==> !text_less(x, #[trigger] s[k]),
        forall|k: int| text_insertion_point(s, x) <= k < s.len() ==> text_less(x, #[trigger] s[k]),
    decreases s.len(),
{
    if s.len() > 0 {
        let t = s.drop_first();
        assert(texts_sorted(t)) by {
            assert forall|i: int, j: int| 0 <= i < j < t.len() implies !text_less(
                #[trigger] t[j],
                #[trigger] t[i],
            ) by {
                assert(t[i] == s[i + 1] && t[j] == s[j + 1]);
            }
        }
        lemma_text_insertion_point(t, x);
        if text_less(x, s[0]) {
            assert forall|k: int| 0 <= k < s.len() implies text_less(x, #[trigger] s[k]) by {
                if k > 0 {
                    lemma_text_less_order(x, s[0], s[k]);
                    lemma_text_less_order(s[0], s[k], s[k]);
                    if s[0] != s[k] {
                        assert(!text_less(s[k], s[0]));
                    }
                }
            }
        } else {
            let ip = text_insertion_point(s, x);
            assert(ip == 1 + text_insertion_point(t, x));
            assert forall|k: int| 0 <= k < ip implies !text_less(x, #[trigger] s[k]) by {
                if k > 0 {
                    assert(s[k] == t[k - 1]);
                }
            }
            assert forall|k: int| ip <= k < s.len() implies text_less(x, #[trigger] s[k]) by {
                assert(s[k] == t[k - 1]);
            }
        }
    }
}

proof fn lemma_sorted_texts(s: Seq<Seq<char>>)
    ensures
        texts_sorted(sorted_texts(s)),
        sorted_texts(s).len() == s.len(),
    decreases s.len(),
{
    if s.len() > 0 {
        let t = sorted_texts(s.drop_last());
        lemma_sorted_texts(s.drop_last());
        let x = s.last();
        let ip = text_insertion_point(t, x);
        lemma_text_insertion_point(t, x);
        let u = t.insert(ip, x);
        assert forall|i: int, j: int| 0 <= i < j < u.len() implies !text_less(
            #[trigger] u[j],
            #[trigger] u[i],
        ) by {
            if j < ip {
            } else if j == ip {
                assert(u[i] == t[i]);
                lemma_text_less_order(x, t[i], x);
            } else if i < ip {
                assert(u[j] == t[j - 1]);
                lemma_text_less_order(t[j - 1], t[i], t[j - 1]);
            } else if i == ip {
                assert(u[j] == t[j - 1]);
                lemma_text_less_order(x, t[j - 1], x);
            } else {
                assert(u[i] == t[i - 1] && u[j] == t[j - 1]);
            }
        }
    }
}

proof fn lemma_dedup_ascending(s: Seq<Seq<char>>)
    requires
        texts_sorted(s),
    ensures
        forall|i: int, j: int|
            0 <= i < j < dedup_adjacent(s).len() ==> text_less(
                #[trigger] dedup_adjacent(s)[i],
                #[trigger] dedup_adjacent(s)[j],
            ),
        s.len() > 0 ==> dedup_adjacent(s).len() > 0 && dedup_adjacent(s).last() == s.last(),
    decreases s.len(),
{
    if s.len() > 0 {
        let r = s.drop_last();
        assert(texts_sorted(r)) by {
            assert forall|i: int, j: int| 0 <= i < j < r.len() implies !text_less(
                #[trigger] r[j],
                #[trigger] r[i],
            ) by {
                assert(r[i] == s[i] && r[j] == s[j]);
            }
        }
        lemma_dedup_ascending(r);
        let d = dedup_adjacent(r);
        if s.len() >= 2 && s[s.len() - 2] == s.last() {
        } else if s.len() >= 2 {
            let p = s[s.len() - 2];
            let x = s.last();
            lemma_text_less_order(p, x, x);
            assert(!text_less(x, p));
            assert(text_less(p, x));
            assert(d.last() == p);
            let e = d.push(x);
            assert forall|i: int, j: int| 0 <= i < j < e.len() implies text_less(
                #[trigger] e[i],
                #[trigger] e[j],
            ) by {
                if j == e.len() - 1 {
                    assert(e[j] == x);
                    if i < d.len() - 1 {
                        assert(text_less(d[i], d[d.len() - 1]));
                        lemma_text_less_order(d[i], p, x);
                    }
                } else {
                    assert(e[i] == d[i] && e[j] == d[j]);
                }
            }
        }
    }
}

/// The blocks a change summary names are in ascending order, each named
/// once: every one sorts strictly before the next.
pub proof fn lemma_affected_blocks_ascending(operations: Seq<TextOperation>)
    ensures
        ({
            let d = crate::hints::dedup_adjacent(sorted_texts(touched_blocks(operations)));
            forall|i: int, j: int| 0 <= i < j < d.len() ==> text_less(#[trigger] d[i], #[trigger] d[j])
        }),
{
    lemma_sorted_texts(touched_blocks(operations));
    lemma_dedup_ascending(sorted_texts(touched_blocks(operations)));
}

/// The retry backoff grows with each failure, doubling from the base, and
/// stops growing at 64 times the base from the seventh failure on.
pub proof fn lemma_backoff_grows_then_caps(a: u32, b: u32)
    requires
        1 <= a <= b,
    ensures
        1 <= backoff_factor(a) <= backoff_factor(b) <= 64,
        a < 7 ==> backoff_factor((a + 1) as u32) == 2 * backoff_factor(a),
        a >= 7 ==> backoff_factor(a) == 64,
{
    vstd::arithmetic::power2::lemma2_to64();
}

/// Delivering the same event again gives the same idempotency key, and a
/// different action of the same workflow on that event gives a different
/// one, so each action is queued once per event.
pub proof fn lemma_idempotency_key(event_id: Seq<char>, workflow_id: u128, a: Seq<char>, b: Seq<char>)
    ensures
        idempotency_key(event_id, workflow_id, a) == idempotency_key(event_id, workflow_id, a),
        a != b ==> idempotency_key(event_id, workflow_id, a) != idempotency_key(
            event_id,
            workflow_id,
            b,
        ),
{
    let p = event_id + ":"@ + uuid_text(workflow_id) + ":"@;
    assert(idempotency_key(event_id, workflow_id, a) =~= p + a);
    assert(idempotency_key(event_id, workflow_id, b) =~= p + b);
    if a != b && p + a == p + b {
        assert((p + a).skip(p.len() as int) =~= a);
        assert((p + b).skip(p.len() as int) =~= b);
    }
}
} // verus!
