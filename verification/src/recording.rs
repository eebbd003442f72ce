//! Session recording: a structured event log with a JSONL codec, plus the
//! offline replayer that drives tests without a live channel.

use vstd::prelude::*;
use crate::errors::ConnectError;
use crate::json::{encode_json, parse_json, Json, JsonV};
use crate::session::{Command, Output};
use crate::strutil::{eq_ignore_case, is_blank, lower_seq, push_char, str_concat};
use crate::transaction::CommandBlockKind;

verus! {

broadcast use vstd::std_specs::vec::group_vec_axioms;

/// Session recording granularity.
#[derive(Debug, Clone, Copy, PartialEq, Eq, Structural)]
pub enum SessionRecordLevel {
    /// Disable recording.
    Off,
    /// Record key events only.
    KeyEventsOnly,
    /// Record key events and raw chunks.
    Full,
}

impl Default for SessionRecordLevel {
    /// Full recording.
    fn default() -> (r: SessionRecordLevel)
        ensures
            r is Full,
    {
        SessionRecordLevel::Full
    }
}

/// Options for normalizing JSONL recordings into stable fixtures.
#[derive(Debug, Clone, Copy, PartialEq, Eq, Structural)]
pub struct NormalizeOptions {
    /// Keep raw shell chunk events.
    pub keep_raw_chunks: bool,
    /// Keep prompt-changed events.
    pub keep_prompt_changed: bool,
    /// Keep state-changed events.
    pub keep_state_changed: bool,
}

impl Default for NormalizeOptions {
    /// Drop raw chunks and prompt changes, keep state changes.
    fn default() -> (r: NormalizeOptions)
        ensures
            r.keep_raw_chunks == false,
            r.keep_prompt_changed == false,
            r.keep_state_changed == true,
    {
        NormalizeOptions {
            keep_raw_chunks: false,
            keep_prompt_changed: false,
            keep_state_changed: true,
        }
    }
}

/// A recorded session event.
#[derive(Debug, Clone, PartialEq, Eq)]
pub enum SessionEvent {
    ConnectionEstablished { device_addr: String, prompt_after: String, fsm_prompt_after: String },
    ConnectionClosed {
        reason: String,
        prompt_before: Option<String>,
        fsm_prompt_before: Option<String>,
    },
    CommandOutput {
        command: String,
        mode: String,
        prompt_before: Option<String>,
        prompt_after: Option<String>,
        fsm_prompt_before: Option<String>,
        fsm_prompt_after: Option<String>,
        success: bool,
        content: String,
        all: String,
    },
    PromptChanged { prompt: String },
    StateChanged { state: String },
    RawChunk { data: String },
    TxBlockStarted { block_name: String, block_kind: CommandBlockKind },
    TxStepSucceeded { block_name: String, step_index: usize, mode: String, command: String },
    TxStepFailed {
        block_name: String,
        step_index: usize,
        mode: String,
        command: String,
        reason: String,
    },
    TxRollbackStarted { block_name: String },
    TxRollbackStepSucceeded {
        block_name: String,
        step_index: Option<usize>,
        mode: String,
        command: String,
    },
    TxRollbackStepFailed {
        block_name: String,
        step_index: Option<usize>,
        mode: String,
        command: String,
        reason: String,
    },
    TxBlockFinished {
        block_name: String,
        committed: bool,
        rollback_attempted: bool,
        rollback_succeeded: bool,
    },
    TxWorkflowStarted { workflow_name: String, total_blocks: usize },
    TxWorkflowFinished {
        workflow_name: String,
        committed: bool,
        rollback_attempted: bool,
        rollback_succeeded: bool,
    },
}

/// The spec-level shape of an event.
pub enum EventV {
    VConnectionEstablished { device_addr: Seq<char>, prompt_after: Seq<char>, fsm_prompt_after: Seq<char> },
    VConnectionClosed {
        reason: Seq<char>,
        prompt_before: Option<Seq<char>>,
        fsm_prompt_before: Option<Seq<char>>,
    },
    VCommandOutput {
        command: Seq<char>,
        mode: Seq<char>,
        prompt_before: Option<Seq<char>>,
        prompt_after: Option<Seq<char>>,
        fsm_prompt_before: Option<Seq<char>>,
        fsm_prompt_after: Option<Seq<char>>,
        success: bool,
        content: Seq<char>,
        all: Seq<char>,
    },
    VPromptChanged { prompt: Seq<char> },
    VStateChanged { state: Seq<char> },
    VRawChunk { data: Seq<char> },
    VTxBlockStarted { block_name: Seq<char>, block_kind: CommandBlockKind },
    VTxStepSucceeded { block_name: Seq<char>, step_index: int, mode: Seq<char>, command: Seq<char> },
    VTxStepFailed {
        block_name: Seq<char>,
        step_index: int,
        mode: Seq<char>,
        command: Seq<char>,
        reason: Seq<char>,
    },
    VTxRollbackStarted { block_name: Seq<char> },
    VTxRollbackStepSucceeded {
        block_name: Seq<char>,
        step_index: Option<int>,
        mode: Seq<char>,
        command: Seq<char>,
    },
    VTxRollbackStepFailed {
        block_name: Seq<char>,
        step_index: Option<int>,
        mode: Seq<char>,
        command: Seq<char>,
        reason: Seq<char>,
    },
    VTxBlockFinished {
        block_name: Seq<char>,
        committed: bool,
        rollback_attempted: bool,
        rollback_succeeded: bool,
    },
    VTxWorkflowStarted { workflow_name: Seq<char>, total_blocks: int },
    VTxWorkflowFinished {
        workflow_name: Seq<char>,
        committed: bool,
        rollback_attempted: bool,
        rollback_succeeded: bool,
    },
}

/// View of an optional string.
pub open spec fn ov(s: Option<String>) -> Option<Seq<char>> {
    match s {
        Some(v) => Some(v@),
        None => None,
    }
}

/// View of an optional index.
pub open spec fn oiv(s: Option<usize>) -> Option<int> {
    match s {
        Some(v) => Some(v as int),
        None => None,
    }
}

impl SessionEvent {
    /// The spec-level shape of this event.
    pub open spec fn v(self) -> EventV {
        match self {
            SessionEvent::ConnectionEstablished { device_addr, prompt_after, fsm_prompt_after } => EventV::VConnectionEstablished {
                device_addr: device_addr@,
                prompt_after: prompt_after@,
                fsm_prompt_after: fsm_prompt_after@,
            },
            SessionEvent::ConnectionClosed { reason, prompt_before, fsm_prompt_before } => EventV::VConnectionClosed {
                reason: reason@,
                prompt_before: ov(prompt_before),
                fsm_prompt_before: ov(fsm_prompt_before),
            },
            SessionEvent::CommandOutput {
                command,
                mode,
                prompt_before,
                prompt_after,
                fsm_prompt_before,
                fsm_prompt_after,
                success,
                content,
                all,
            } => EventV::VCommandOutput {
                command: command@,
                mode: mode@,
                prompt_before: ov(prompt_before),
                prompt_after: ov(prompt_after),
                fsm_prompt_before: ov(fsm_prompt_before),
                fsm_prompt_after: ov(fsm_prompt_after),
                success,
                content: content@,
                all: all@,
            },
            SessionEvent::PromptChanged { prompt } => EventV::VPromptChanged { prompt: prompt@ },
            SessionEvent::StateChanged { state } => EventV::VStateChanged { state: state@ },
            SessionEvent::RawChunk { data } => EventV::VRawChunk { data: data@ },
            SessionEvent::TxBlockStarted { block_name, block_kind } => EventV::VTxBlockStarted {
                block_name: block_name@,
                block_kind,
            },
            SessionEvent::TxStepSucceeded { block_name, step_index, mode, command } => EventV::VTxStepSucceeded {
                block_name: block_name@,
                step_index: step_index as int,
                mode: mode@,
                command: command@,
            },
            SessionEvent::TxStepFailed { block_name, step_index, mode, command, reason } => EventV::VTxStepFailed {
                block_name: block_name@,
                step_index: step_index as int,
                mode: mode@,
                command: command@,
                reason: reason@,
            },
            SessionEvent::TxRollbackStarted { block_name } => EventV::VTxRollbackStarted {
                block_name: block_name@,
            },
            SessionEvent::TxRollbackStepSucceeded { block_name, step_index, mode, command } => EventV::VTxRollbackStepSucceeded {
                block_name: block_name@,
                step_index: oiv(step_index),
                mode: mode@,
                command: command@,
            },
            SessionEvent::TxRollbackStepFailed {
                block_name,
                step_index,
                mode,
                command,
                reason,
            } => EventV::VTxRollbackStepFailed {
                block_name: block_name@,
                step_index: oiv(step_index),
                mode: mode@,
                command: command@,
                reason: reason@,
            },
            SessionEvent::TxBlockFinished {
                block_name,
                committed,
                rollback_attempted,
                rollback_succeeded,
            } => EventV::VTxBlockFinished {
                block_name: block_name@,
                committed,
                rollback_attempted,
                rollback_succeeded,
            },
            SessionEvent::TxWorkflowStarted { workflow_name, total_blocks } => EventV::VTxWorkflowStarted {
                workflow_name: workflow_name@,
                total_blocks: total_blocks as int,
            },
            SessionEvent::TxWorkflowFinished {
                workflow_name,
                committed,
                rollback_attempted,
                rollback_succeeded,
            } => EventV::VTxWorkflowFinished {
                workflow_name: workflow_name@,
                committed,
                rollback_attempted,
                rollback_succeeded,
            },
        }
    }
}

/// A single recorded session event with its timestamp.
#[derive(Debug, Clone, PartialEq, Eq)]
pub struct SessionRecordEntry {
    /// Wall-clock milliseconds since the epoch.
    pub ts_ms: u128,
    /// The event.
    pub event: SessionEvent,
}

impl SessionRecordEntry {
    /// The spec-level shape of this entry.
    pub open spec fn v(self) -> (u128, EventV) {
        (self.ts_ms, self.event.v())
    }
}

/// The spec-level shapes of a list of entries.
pub open spec fn entries_v(entries: Seq<SessionRecordEntry>) -> Seq<(u128, EventV)> {
    entries.map_values(|e: SessionRecordEntry| e.v())
}

/// Relies on `std::time::SystemTime::now`: the number of milliseconds
/// since the epoch; nothing is assumed about the value.
#[verifier::external_body]
fn now_ms() -> u128 {
    match std::time::SystemTime::now().duration_since(std::time::UNIX_EPOCH) {
        Ok(d) => d.as_millis(),
        Err(_) => 0,
    }
}

/// In-memory session recorder.
#[derive(Debug, Clone, PartialEq, Eq)]
pub struct SessionRecorder {
    level: SessionRecordLevel,
    entries: Vec<SessionRecordEntry>,
}

impl SessionRecorder {
    /// The recorded entries, as spec shapes.
    pub closed spec fn model(&self) -> Seq<(u128, EventV)> {
        entries_v(self.entries@)
    }

    /// The recording level.
    pub closed spec fn level_m(&self) -> SessionRecordLevel {
        self.level
    }

    /// Creates a recorder with the given level and no entries.
    pub fn new(level: SessionRecordLevel) -> (r: SessionRecorder)
        ensures
            r.level_m() == level,
            r.model().len() == 0,
    {
        let r = SessionRecorder { level, entries: Vec::new() };
        proof {
            assert(r.model() =~= Seq::<(u128, EventV)>::empty());
        }
        r
    }

    /// Current recording level.
    pub fn level(&self) -> (r: SessionRecordLevel)
        ensures
            r == self.level_m(),
    {
        self.level
    }

    /// Records a key-level event: appended with the current wall-clock
    /// timestamp unless recording is off.
    pub fn record_event(&mut self, event: SessionEvent) -> (r: Result<(), ConnectError>)
        ensures
            r is Ok,
            final(self).level_m() == old(self).level_m(),
            old(self).level_m() is Off ==> final(self).model() == old(self).model(),
            !(old(self).level_m() is Off) ==> final(self).model().len() == old(self).model().len()
                + 1 && final(self).model().subrange(0, old(self).model().len() as int) == old(
                self,
            ).model() && final(self).model().last().1 == event.v(),
    {
        if matches!(self.level, SessionRecordLevel::Off) {
            return Ok(());
        }
        let ghost prev = self.entries@;
        let ts = now_ms();
        self.entries.push(SessionRecordEntry { ts_ms: ts, event });
        proof {
            assert(entries_v(self.entries@).subrange(0, prev.len() as int) =~= entries_v(prev));
        }
        Ok(())
    }

    /// Records a raw shell chunk, only at the full recording level.
    pub fn record_raw_chunk(&mut self, data: String) -> (r: Result<(), ConnectError>)
        ensures
            r is Ok,
            final(self).level_m() == old(self).level_m(),
            !(old(self).level_m() is Full) ==> final(self).model() == old(self).model(),
            old(self).level_m() is Full ==> final(self).model().len() == old(self).model().len()
                + 1 && final(self).model().subrange(0, old(self).model().len() as int) == old(
                self,
            ).model() && final(self).model().last().1 == (SessionEvent::RawChunk { data }).v(),
    {
        if !matches!(self.level, SessionRecordLevel::Full) {
            return Ok(());
        }
        self.record_event(SessionEvent::RawChunk { data })
    }

    /// Snapshot of all recorded entries.
    pub fn entries(&self) -> (r: Result<Vec<SessionRecordEntry>, ConnectError>)
        ensures
            r matches Ok(v) && entries_v(v@) == self.model(),
    {
        let mut out: Vec<SessionRecordEntry> = Vec::new();
        let mut i: usize = 0;
        while i < self.entries.len()
            invariant
                i <= self.entries@.len(),
                out@.len() == i,
                forall|j: int| 0 <= j < i ==> (#[trigger] out@[j].v()) == self.entries@[j].v(),
            decreases self.entries@.len() - i,
        {
            out.push(clone_entry(&self.entries[i]));
            i += 1;
        }
        proof {
            assert(entries_v(out@) =~= self.model());
        }
        Ok(out)
    }

    /// Removes every recorded entry.
    pub fn clear(&mut self) -> (r: Result<(), ConnectError>)
        ensures
            r is Ok,
            final(self).level_m() == old(self).level_m(),
            final(self).model().len() == 0,
    {
        self.entries = Vec::new();
        proof {
            assert(self.model() =~= Seq::<(u128, EventV)>::empty());
        }
        Ok(())
    }
}

/// Copies one entry, preserving its shape.
pub fn clone_entry(e: &SessionRecordEntry) -> (r: SessionRecordEntry)
    ensures
        r.v() == e.v(),
{
    SessionRecordEntry { ts_ms: e.ts_ms, event: clone_event(&e.event) }
}

/// Copies one event, preserving its shape.
pub fn clone_event(e: &SessionEvent) -> (r: SessionEvent)
    ensures
        r.v() == e.v(),
{
    match e {
        SessionEvent::ConnectionEstablished { device_addr, prompt_after, fsm_prompt_after } => SessionEvent::ConnectionEstablished {
            device_addr: device_addr.clone(),
            prompt_after: prompt_after.clone(),
            fsm_prompt_after: fsm_prompt_after.clone(),
        },
        SessionEvent::ConnectionClosed { reason, prompt_before, fsm_prompt_before } => SessionEvent::ConnectionClosed {
            reason: reason.clone(),
            prompt_before: clone_opt(prompt_before),
            fsm_prompt_before: clone_opt(fsm_prompt_before),
        },
        SessionEvent::CommandOutput {
            command,
            mode,
            prompt_before,
            prompt_after,
            fsm_prompt_before,
            fsm_prompt_after,
            success,
            content,
            all,
        } => SessionEvent::CommandOutput {
            command: command.clone(),
            mode: mode.clone(),
            prompt_before: clone_opt(prompt_before),
            prompt_after: clone_opt(prompt_after),
            fsm_prompt_before: clone_opt(fsm_prompt_before),
            fsm_prompt_after: clone_opt(fsm_prompt_after),
            success: *success,
            content: content.clone(),
            all: all.clone(),
        },
        SessionEvent::PromptChanged { prompt } => SessionEvent::PromptChanged {
            prompt: prompt.clone(),
        },
        SessionEvent::StateChanged { state } => SessionEvent::StateChanged {
            state: state.clone(),
        },
        SessionEvent::RawChunk { data } => SessionEvent::RawChunk { data: data.clone() },
        SessionEvent::TxBlockStarted { block_name, block_kind } => SessionEvent::TxBlockStarted {
            block_name: block_name.clone(),
            block_kind: *block_kind,
        },
        SessionEvent::TxStepSucceeded { block_name, step_index, mode, command } => SessionEvent::TxStepSucceeded {
            block_name: block_name.clone(),
            step_index: *step_index,
            mode: mode.clone(),
            command: command.clone(),
        },
        SessionEvent::TxStepFailed { block_name, step_index, mode, command, reason } => SessionEvent::TxStepFailed {
            block_name: block_name.clone(),
            step_index: *step_index,
            mode: mode.clone(),
            command: command.clone(),
            reason: reason.clone(),
        },
        SessionEvent::TxRollbackStarted { block_name } => SessionEvent::TxRollbackStarted {
            block_name: block_name.clone(),
        },
        SessionEvent::TxRollbackStepSucceeded { block_name, step_index, mode, command } => SessionEvent::TxRollbackStepSucceeded {
            block_name: block_name.clone(),
            step_index: *step_index,
            mode: mode.clone(),
            command: command.clone(),
        },
        SessionEvent::TxRollbackStepFailed { block_name, step_index, mode, command, reason } => SessionEvent::TxRollbackStepFailed {
            block_name: block_name.clone(),
            step_index: *step_index,
            mode: mode.clone(),
            command: command.clone(),
            reason: reason.clone(),
        },
        SessionEvent::TxBlockFinished {
            block_name,
            committed,
            rollback_attempted,
            rollback_succeeded,
        } => SessionEvent::TxBlockFinished {
            block_name: block_name.clone(),
            committed: *committed,
            rollback_attempted: *rollback_attempted,
            rollback_succeeded: *rollback_succeeded,
        },
        SessionEvent::TxWorkflowStarted { workflow_name, total_blocks } => SessionEvent::TxWorkflowStarted {
            workflow_name: workflow_name.clone(),
            total_blocks: *total_blocks,
        },
        SessionEvent::TxWorkflowFinished {
            workflow_name,
            committed,
            rollback_attempted,
            rollback_succeeded,
        } => SessionEvent::TxWorkflowFinished {
            workflow_name: workflow_name.clone(),
            committed: *committed,
            rollback_attempted: *rollback_attempted,
            rollback_succeeded: *rollback_succeeded,
        },
    }
}

/// Copies an optional string.
pub fn clone_opt(s: &Option<String>) -> (r: Option<String>)
    ensures
        ov(r) == ov(*s),
{
    match s {
        Some(v) => Some(v.clone()),
        None => None,
    }
}

} // verus!

verus! {

/// The `kind` tag of an event.
pub open spec fn kind_str(e: EventV) -> Seq<char> {
    match e {
        EventV::VConnectionEstablished { .. } => "connection_established"@,
        EventV::VConnectionClosed { .. } => "connection_closed"@,
        EventV::VCommandOutput { .. } => "command_output"@,
        EventV::VPromptChanged { .. } => "prompt_changed"@,
        EventV::VStateChanged { .. } => "state_changed"@,
        EventV::VRawChunk { .. } => "raw_chunk"@,
        EventV::VTxBlockStarted { .. } => "tx_block_started"@,
        EventV::VTxStepSucceeded { .. } => "tx_step_succeeded"@,
        EventV::VTxStepFailed { .. } => "tx_step_failed"@,
        EventV::VTxRollbackStarted { .. } => "tx_rollback_started"@,
        EventV::VTxRollbackStepSucceeded { .. } => "tx_rollback_step_succeeded"@,
        EventV::VTxRollbackStepFailed { .. } => "tx_rollback_step_failed"@,
        EventV::VTxBlockFinished { .. } => "tx_block_finished"@,
        EventV::VTxWorkflowStarted { .. } => "tx_workflow_started"@,
        EventV::VTxWorkflowFinished { .. } => "tx_workflow_finished"@,
    }
}

/// A possibly-absent string, as JSON.
pub open spec fn jopt(o: Option<Seq<char>>) -> JsonV {
    match o {
        Some(s) => JsonV::VStr(s),
        None => JsonV::VNull,
    }
}

/// A possibly-absent index, as JSON.
pub open spec fn jiopt(o: Option<int>) -> JsonV {
    match o {
        Some(n) => JsonV::VNum(n as u128),
        None => JsonV::VNull,
    }
}

/// The block kind, as JSON.
pub open spec fn jkind_v(k: CommandBlockKind) -> JsonV {
    match k {
        CommandBlockKind::Show => JsonV::VStr("show"@),
        CommandBlockKind::Config => JsonV::VStr("config"@),
    }
}

/// The members of the `event` object: the tag first, then the event's
/// fields in declaration order.
pub open spec fn event_fields_jv(e: EventV) -> Seq<(Seq<char>, JsonV)> {
    seq![("kind"@, JsonV::VStr(kind_str(e)))] + match e {
        EventV::VConnectionEstablished { device_addr, prompt_after, fsm_prompt_after } => seq![
            ("device_addr"@, JsonV::VStr(device_addr)),
            ("prompt_after"@, JsonV::VStr(prompt_after)),
            ("fsm_prompt_after"@, JsonV::VStr(fsm_prompt_after)),
        ],
        EventV::VConnectionClosed { reason, prompt_before, fsm_prompt_before } => seq![
            ("reason"@, JsonV::VStr(reason)),
            ("prompt_before"@, jopt(prompt_before)),
            ("fsm_prompt_before"@, jopt(fsm_prompt_before)),
        ],
        EventV::VCommandOutput {
            command,
            mode,
            prompt_before,
            prompt_after,
            fsm_prompt_before,
            fsm_prompt_after,
            success,
            content,
            all,
        } => seq![
            ("command"@, JsonV::VStr(command)),
            ("mode"@, JsonV::VStr(mode)),
            ("prompt_before"@, jopt(prompt_before)),
            ("prompt_after"@, jopt(prompt_after)),
            ("fsm_prompt_before"@, jopt(fsm_prompt_before)),
            ("fsm_prompt_after"@, jopt(fsm_prompt_after)),
            ("success"@, JsonV::VBool(success)),
            ("content"@, JsonV::VStr(content)),
            ("all"@, JsonV::VStr(all)),
        ],
        EventV::VPromptChanged { prompt } => seq![("prompt"@, JsonV::VStr(prompt))],
        EventV::VStateChanged { state } => seq![("state"@, JsonV::VStr(state))],
        EventV::VRawChunk { data } => seq![("data"@, JsonV::VStr(data))],
        EventV::VTxBlockStarted { block_name, block_kind } => seq![
            ("block_name"@, JsonV::VStr(block_name)),
            ("block_kind"@, jkind_v(block_kind)),
        ],
        EventV::VTxStepSucceeded { block_name, step_index, mode, command } => seq![
            ("block_name"@, JsonV::VStr(block_name)),
            ("step_index"@, JsonV::VNum(step_index as u128)),
            ("mode"@, JsonV::VStr(mode)),
            ("command"@, JsonV::VStr(command)),
        ],
        EventV::VTxStepFailed { block_name, step_index, mode, command, reason } => seq![
            ("block_name"@, JsonV::VStr(block_name)),
            ("step_index"@, JsonV::VNum(step_index as u128)),
            ("mode"@, JsonV::VStr(mode)),
            ("command"@, JsonV::VStr(command)),
            ("reason"@, JsonV::VStr(reason)),
        ],
        EventV::VTxRollbackStarted { block_name } => seq![
            ("block_name"@, JsonV::VStr(block_name)),
        ],
        EventV::VTxRollbackStepSucceeded { block_name, step_index, mode, command } => seq![
            ("block_name"@, JsonV::VStr(block_name)),
            ("step_index"@, jiopt(step_index)),
            ("mode"@, JsonV::VStr(mode)),
            ("command"@, JsonV::VStr(command)),
        ],
        EventV::VTxRollbackStepFailed { block_name, step_index, mode, command, reason } => seq![
            ("block_name"@, JsonV::VStr(block_name)),
            ("step_index"@, jiopt(step_index)),
            ("mode"@, JsonV::VStr(mode)),
            ("command"@, JsonV::VStr(command)),
            ("reason"@, JsonV::VStr(reason)),
        ],
        EventV::VTxBlockFinished {
            block_name,
            committed,
            rollback_attempted,
            rollback_succeeded,
        } => seq![
            ("block_name"@, JsonV::VStr(block_name)),
            ("committed"@, JsonV::VBool(committed)),
            ("rollback_attempted"@, JsonV::VBool(rollback_attempted)),
            ("rollback_succeeded"@, JsonV::VBool(rollback_succeeded)),
        ],
        EventV::VTxWorkflowStarted { workflow_name, total_blocks } => seq![
            ("workflow_name"@, JsonV::VStr(workflow_name)),
            ("total_blocks"@, JsonV::VNum(total_blocks as u128)),
        ],
        EventV::VTxWorkflowFinished {
            workflow_name,
            committed,
            rollback_attempted,
            rollback_succeeded,
        } => seq![
            ("workflow_name"@, JsonV::VStr(workflow_name)),
            ("committed"@, JsonV::VBool(committed)),
            ("rollback_attempted"@, JsonV::VBool(rollback_attempted)),
            ("rollback_succeeded"@, JsonV::VBool(rollback_succeeded)),
        ],
    }
}

/// One JSONL entry, as JSON: `{"ts_ms": …, "event": {…}}`.
pub open spec fn entry_jv(ev: (u128, EventV)) -> JsonV {
    JsonV::VObj(
        seq![
            ("ts_ms"@, JsonV::VNum(ev.0)),
            ("event"@, JsonV::VObj(event_fields_jv(ev.1))),
        ],
    )
}

/// Builds the JSON string field.
fn jstr(s: &String) -> (r: Json)
    ensures
        r.v() == JsonV::VStr(s@),
{
    Json::JStr(s.clone())
}

/// Builds a possibly-absent JSON string field.
fn jo(s: &Option<String>) -> (r: Json)
    ensures
        r.v() == jopt(ov(*s)),
{
    match s {
        Some(v) => Json::JStr(v.clone()),
        None => Json::JNull,
    }
}

/// Appends one member to a growing object.
fn push_field(fields: &mut Vec<(String, Json)>, name: &str, v: Json)
    ensures
        crate::json::fvs_of(final(fields)@) == crate::json::fvs_of(old(fields)@) + seq![
            (name@, v.v()),
        ],
{
    let ghost vv = v.v();
    let ghost before = fields@;
    fields.push((name.to_owned(), v));
    proof {
        let f = fields@.last();
        assert(f.0@ == name@);
        assert(f.1.v() == vv);
        assert(fields@ =~= before.push(f));
        crate::json::lemma_fvs_of_push(before, f);
    }
}

/// Renders one entry as its JSON tree.
pub fn entry_to_json(e: &SessionRecordEntry) -> (r: Json)
    ensures
        r.v() == entry_jv(e.v()),
{
    let mut ev_fields: Vec<(String, Json)> = Vec::new();
    proof {
        assert(crate::json::fvs_of(ev_fields@) =~= Seq::<(Seq<char>, JsonV)>::empty());
    }
    match &e.event {
        SessionEvent::ConnectionEstablished { device_addr, prompt_after, fsm_prompt_after } => {
            push_field(&mut ev_fields, "kind", Json::JStr("connection_established".to_owned()));
            push_field(&mut ev_fields, "device_addr", jstr(device_addr));
            push_field(&mut ev_fields, "prompt_after", jstr(prompt_after));
            push_field(&mut ev_fields, "fsm_prompt_after", jstr(fsm_prompt_after));
        },
        SessionEvent::ConnectionClosed { reason, prompt_before, fsm_prompt_before } => {
            push_field(&mut ev_fields, "kind", Json::JStr("connection_closed".to_owned()));
            push_field(&mut ev_fields, "reason", jstr(reason));
            push_field(&mut ev_fields, "prompt_before", jo(prompt_before));
            push_field(&mut ev_fields, "fsm_prompt_before", jo(fsm_prompt_before));
        },
        SessionEvent::CommandOutput {
            command,
            mode,
            prompt_before,
            prompt_after,
            fsm_prompt_before,
            fsm_prompt_after,
            success,
            content,
            all,
        } => {
            push_field(&mut ev_fields, "kind", Json::JStr("command_output".to_owned()));
            push_field(&mut ev_fields, "command", jstr(command));
            push_field(&mut ev_fields, "mode", jstr(mode));
            push_field(&mut ev_fields, "prompt_before", jo(prompt_before));
            push_field(&mut ev_fields, "prompt_after", jo(prompt_after));
            push_field(&mut ev_fields, "fsm_prompt_before", jo(fsm_prompt_before));
            push_field(&mut ev_fields, "fsm_prompt_after", jo(fsm_prompt_after));
            push_field(&mut ev_fields, "success", Json::JBool(*success));
            push_field(&mut ev_fields, "content", jstr(content));
            push_field(&mut ev_fields, "all", jstr(all));
        },
        SessionEvent::PromptChanged { prompt } => {
            push_field(&mut ev_fields, "kind", Json::JStr("prompt_changed".to_owned()));
            push_field(&mut ev_fields, "prompt", jstr(prompt));
        },
        SessionEvent::StateChanged { state } => {
            push_field(&mut ev_fields, "kind", Json::JStr("state_changed".to_owned()));
            push_field(&mut ev_fields, "state", jstr(state));
        },
        SessionEvent::RawChunk { data } => {
            push_field(&mut ev_fields, "kind", Json::JStr("raw_chunk".to_owned()));
            push_field(&mut ev_fields, "data", jstr(data));
        },
        SessionEvent::TxBlockStarted { block_name, block_kind } => {
            push_field(&mut ev_fields, "kind", Json::JStr("tx_block_started".to_owned()));
            push_field(&mut ev_fields, "block_name", jstr(block_name));
            let kv = match block_kind {
                CommandBlockKind::Show => Json::JStr("show".to_owned()),
                CommandBlockKind::Config => Json::JStr("config".to_owned()),
            };
            push_field(&mut ev_fields, "block_kind", kv);
        },
        SessionEvent::TxStepSucceeded { block_name, step_index, mode, command } => {
            push_field(&mut ev_fields, "kind", Json::JStr("tx_step_succeeded".to_owned()));
            push_field(&mut ev_fields, "block_name", jstr(block_name));
            push_field(&mut ev_fields, "step_index", Json::JNum(*step_index as u128));
            push_field(&mut ev_fields, "mode", jstr(mode));
            push_field(&mut ev_fields, "command", jstr(command));
        },
        SessionEvent::TxStepFailed { block_name, step_index, mode, command, reason } => {
            push_field(&mut ev_fields, "kind", Json::JStr("tx_step_failed".to_owned()));
            push_field(&mut ev_fields, "block_name", jstr(block_name));
            push_field(&mut ev_fields, "step_index", Json::JNum(*step_index as u128));
            push_field(&mut ev_fields, "mode", jstr(mode));
            push_field(&mut ev_fields, "command", jstr(command));
            push_field(&mut ev_fields, "reason", jstr(reason));
        },
        SessionEvent::TxRollbackStarted { block_name } => {
            push_field(&mut ev_fields, "kind", Json::JStr("tx_rollback_started".to_owned()));
            push_field(&mut ev_fields, "block_name", jstr(block_name));
        },
        SessionEvent::TxRollbackStepSucceeded { block_name, step_index, mode, command } => {
            push_field(
                &mut ev_fields,
                "kind",
                Json::JStr("tx_rollback_step_succeeded".to_owned()),
            );
            push_field(&mut ev_fields, "block_name", jstr(block_name));
            let iv = match step_index {
                Some(n) => Json::JNum(*n as u128),
                None => Json::JNull,
            };
            push_field(&mut ev_fields, "step_index", iv);
            push_field(&mut ev_fields, "mode", jstr(mode));
            push_field(&mut ev_fields, "command", jstr(command));
        },
        SessionEvent::TxRollbackStepFailed { block_name, step_index, mode, command, reason } => {
            push_field(&mut ev_fields, "kind", Json::JStr("tx_rollback_step_failed".to_owned()));
            push_field(&mut ev_fields, "block_name", jstr(block_name));
            let iv = match step_index {
                Some(n) => Json::JNum(*n as u128),
                None => Json::JNull,
            };
            push_field(&mut ev_fields, "step_index", iv);
            push_field(&mut ev_fields, "mode", jstr(mode));
            push_field(&mut ev_fields, "command", jstr(command));
            push_field(&mut ev_fields, "reason", jstr(reason));
        },
        SessionEvent::TxBlockFinished {
            block_name,
            committed,
            rollback_attempted,
            rollback_succeeded,
        } => {
            push_field(&mut ev_fields, "kind", Json::JStr("tx_block_finished".to_owned()));
            push_field(&mut ev_fields, "block_name", jstr(block_name));
            push_field(&mut ev_fields, "committed", Json::JBool(*committed));
            push_field(&mut ev_fields, "rollback_attempted", Json::JBool(*rollback_attempted));
            push_field(&mut ev_fields, "rollback_succeeded", Json::JBool(*rollback_succeeded));
        },
        SessionEvent::TxWorkflowStarted { workflow_name, total_blocks } => {
            push_field(&mut ev_fields, "kind", Json::JStr("tx_workflow_started".to_owned()));
            push_field(&mut ev_fields, "workflow_name", jstr(workflow_name));
            push_field(&mut ev_fields, "total_blocks", Json::JNum(*total_blocks as u128));
        },
        SessionEvent::TxWorkflowFinished {
            workflow_name,
            committed,
            rollback_attempted,
            rollback_succeeded,
        } => {
            push_field(&mut ev_fields, "kind", Json::JStr("tx_workflow_finished".to_owned()));
            push_field(&mut ev_fields, "workflow_name", jstr(workflow_name));
            push_field(&mut ev_fields, "committed", Json::JBool(*committed));
            push_field(&mut ev_fields, "rollback_attempted", Json::JBool(*rollback_attempted));
            push_field(&mut ev_fields, "rollback_succeeded", Json::JBool(*rollback_succeeded));
        },
    }
    proof {
        assert(crate::json::fvs_of(ev_fields@) =~= event_fields_jv(e.event.v()));
    }
    let mut top: Vec<(String, Json)> = Vec::new();
    proof {
        assert(crate::json::fvs_of(top@) =~= Seq::<(Seq<char>, JsonV)>::empty());
    }
    push_field(&mut top, "ts_ms", Json::JNum(e.ts_ms));
    let ghost efv = crate::json::fvs_of(ev_fields@);
    push_field(&mut top, "event", Json::JObj(ev_fields));
    let r = Json::JObj(top);
    proof {
        assert(efv == event_fields_jv(e.event.v()));
        assert(crate::json::fvs_of(top@) =~~= seq![
            ("ts_ms"@, JsonV::VNum(e.ts_ms)),
            ("event"@, JsonV::VObj(efv)),
        ]);
        assert(r.v() =~~= entry_jv(e.v()));
    }
    r
}

} // verus!

verus! {

/// The JSONL text of a list of entries: one encoded entry per line.
pub open spec fn jsonl_of(m: Seq<(u128, EventV)>) -> Seq<char>
    decreases m.len(),
{
    if m.len() == 0 {
        Seq::empty()
    } else if m.len() == 1 {
        crate::json::enc_jv(entry_jv(m[0]))
    } else {
        crate::json::enc_jv(entry_jv(m[0])) + seq!['\n'] + jsonl_of(m.skip(1))
    }
}

/// The first `i` lines of the JSONL text.
pub open spec fn jsonl_prefix(m: Seq<(u128, EventV)>, i: int) -> Seq<char>
    decreases i,
{
    if i <= 0 {
        Seq::empty()
    } else if i == 1 {
        crate::json::enc_jv(entry_jv(m[0]))
    } else {
        jsonl_prefix(m, i - 1) + seq!['\n'] + crate::json::enc_jv(entry_jv(m[i - 1]))
    }
}

proof fn lemma_jsonl_prefix_full(m: Seq<(u128, EventV)>)
    ensures
        jsonl_of(m) == jsonl_prefix(m, m.len() as int),
    decreases m.len(),
{
    if m.len() > 1 {
        lemma_jsonl_prefix_full(m.skip(1));
        lemma_jsonl_shift(m, m.len() as int);
    }
}

proof fn lemma_jsonl_shift(m: Seq<(u128, EventV)>, i: int)
    requires
        1 <= i <= m.len(),
        m.len() >= 1,
    ensures
        jsonl_prefix(m, i) == if i == 1 {
            crate::json::enc_jv(entry_jv(m[0]))
        } else {
            crate::json::enc_jv(entry_jv(m[0])) + seq!['\n'] + jsonl_prefix(m.skip(1), i - 1)
        },
    decreases i,
{
    if i > 1 {
        lemma_jsonl_shift(m, i - 1);
        assert(m.skip(1)[i - 2] == m[i - 1]);
        if i == 2 {
            assert(jsonl_prefix(m, 2) =~= crate::json::enc_jv(entry_jv(m[0])) + seq!['\n']
                + crate::json::enc_jv(entry_jv(m[1])));
            assert(jsonl_prefix(m.skip(1), 1) == crate::json::enc_jv(entry_jv(m.skip(1)[0])));
        } else {
            assert((crate::json::enc_jv(entry_jv(m[0])) + seq!['\n'] + jsonl_prefix(
                m.skip(1),
                i - 2,
            )) + seq!['\n'] + crate::json::enc_jv(entry_jv(m[i - 1])) =~= crate::json::enc_jv(
                entry_jv(m[0]),
            ) + seq!['\n'] + (jsonl_prefix(m.skip(1), i - 2) + seq!['\n'] + crate::json::enc_jv(
                entry_jv(m.skip(1)[i - 2]),
            )));
        }
    }
}

impl SessionRecorder {
    /// Exports the recorded entries as JSONL: one canonical JSON object
    /// per line, in recording order.
    pub fn to_jsonl(&self) -> (r: Result<String, ConnectError>)
        ensures
            r matches Ok(out) && out@ == jsonl_of(self.model()),
    {
        let mut out = String::new();
        let mut i: usize = 0;
        while i < self.entries.len()
            invariant
                i <= self.entries@.len(),
                out@ == jsonl_prefix(self.model(), i as int),
                self.model().len() == self.entries@.len(),
            decreases self.entries@.len() - i,
        {
            if i > 0 {
                push_char(&mut out, '\n');
            }
            let j = entry_to_json(&self.entries[i]);
            let line = encode_json(&j);
            proof {
                crate::json::lemma_enc_v(j);
                assert(self.model()[i as int] == self.entries@[i as int].v());
            }
            out.append(line.as_str());
            i += 1;
        }
        proof {
            lemma_jsonl_prefix_full(self.model());
        }
        Ok(out)
    }
}

/// Whether normalization keeps an event.
pub open spec fn keep_event(e: EventV, options: NormalizeOptions) -> bool {
    match e {
        EventV::VRawChunk { .. } => options.keep_raw_chunks,
        EventV::VPromptChanged { .. } => options.keep_prompt_changed,
        EventV::VStateChanged { .. } => options.keep_state_changed,
        _ => true,
    }
}

/// Strict order on indexed entries: by timestamp, then original index.
pub open spec fn pair_lt(a: (usize, SessionRecordEntry), b: (usize, SessionRecordEntry)) -> bool {
    a.1.ts_ms < b.1.ts_ms || (a.1.ts_ms == b.1.ts_ms && a.0 < b.0)
}

/// Insertion into a sorted run: after every element not greater.
pub open spec fn insert_sorted(
    x: (usize, SessionRecordEntry),
    s: Seq<(usize, SessionRecordEntry)>,
) -> Seq<(usize, SessionRecordEntry)>
    decreases s.len(),
{
    if s.len() == 0 {
        seq![x]
    } else if pair_lt(x, s[0]) {
        seq![x] + s
    } else {
        seq![s[0]] + insert_sorted(x, s.skip(1))
    }
}

/// Insertion sort over indexed entries, stable by construction.
pub open spec fn sort_pairs(s: Seq<(usize, SessionRecordEntry)>) -> Seq<
    (usize, SessionRecordEntry),
>
    decreases s.len(),
{
    if s.len() == 0 {
        Seq::empty()
    } else {
        insert_sorted(s.last(), sort_pairs(s.drop_last()))
    }
}

/// Adjacent entries of a sorted run never decrease.
pub open spec fn pairs_sorted(s: Seq<(usize, SessionRecordEntry)>) -> bool {
    forall|i: int, j: int| 0 <= i < j < s.len() ==> !pair_lt(#[trigger] s[j], #[trigger] s[i])
}

/// Inserting into a sorted run keeps it sorted.
proof fn lemma_insert_sorted_keeps(x: (usize, SessionRecordEntry), s: Seq<(usize, SessionRecordEntry)>)
    requires
        pairs_sorted(s),
    ensures
        pairs_sorted(insert_sorted(x, s)),
        insert_sorted(x, s).len() == s.len() + 1,
        forall|i: int|
            0 <= i < insert_sorted(x, s).len() ==> (#[trigger] insert_sorted(x, s)[i]) == x
                || exists|j: int| 0 <= j < s.len() && insert_sorted(x, s)[i] == s[j],
    decreases s.len(),
{
    if s.len() == 0 {
    } else if pair_lt(x, s[0]) {
        let out = seq![x] + s;
        assert forall|i: int, j: int| 0 <= i < j < out.len() implies !pair_lt(
            #[trigger] out[j],
            #[trigger] out[i],
        ) by {
            if i == 0 {
                if j >= 1 {
                    assert(out[j] == s[j - 1]);
                    if j >= 2 {
                        assert(!pair_lt(s[j - 1], s[0]));
                    }
                }
            }
        }
        assert forall|i: int| 0 <= i < out.len() implies (#[trigger] out[i]) == x || exists|j: int|
            0 <= j < s.len() && out[i] == s[j] by {
            if i > 0 {
                assert(out[i] == s[i - 1]);
            }
        }
    } else {
        assert(forall|k: int| 0 <= k < s.skip(1).len() ==> s.skip(1)[k] == s[k + 1]);
        assert(pairs_sorted(s.skip(1)));
        lemma_insert_sorted_keeps(x, s.skip(1));
        let rest = insert_sorted(x, s.skip(1));
        let out = seq![s[0]] + rest;
        assert forall|i: int, j: int| 0 <= i < j < out.len() implies !pair_lt(
            #[trigger] out[j],
            #[trigger] out[i],
        ) by {
            if i == 0 {
                assert(out[j] == rest[j - 1]);
                if rest[j - 1] == x {
                    assert(!pair_lt(x, s[0]));
                } else {
                    let k = choose|k: int|
                        0 <= k < s.skip(1).len() && rest[j - 1] == s.skip(1)[k];
                    assert(!pair_lt(s[k + 1], s[0]));
                }
            } else {
                assert(out[i] == rest[i - 1]);
                assert(out[j] == rest[j - 1]);
            }
        }
        assert forall|i: int| 0 <= i < out.len() implies (#[trigger] out[i]) == x || exists|j: int|
            0 <= j < s.len() && out[i] == s[j] by {
            if i == 0 {
                assert(out[0] == s[0]);
            } else {
                assert(out[i] == rest[i - 1]);
                if rest[i - 1] != x {
                    let k = choose|k: int|
                        0 <= k < s.skip(1).len() && rest[i - 1] == s.skip(1)[k];
                    assert(out[i] == s[k + 1]);
                }
            }
        }
    }
}

/// The sort of any run is sorted.
pub proof fn lemma_sort_pairs_sorted(s: Seq<(usize, SessionRecordEntry)>)
    ensures
        pairs_sorted(sort_pairs(s)),
        sort_pairs(s).len() == s.len(),
    decreases s.len(),
{
    if s.len() > 0 {
        lemma_sort_pairs_sorted(s.drop_last());
        lemma_insert_sorted_keeps(s.last(), sort_pairs(s.drop_last()));
    }
}

/// Inserting at the found position realises `insert_sorted`.
proof fn lemma_insert_at(
    x: (usize, SessionRecordEntry),
    s: Seq<(usize, SessionRecordEntry)>,
    pos: int,
)
    requires
        0 <= pos <= s.len(),
        forall|j: int| 0 <= j < pos ==> !pair_lt(x, #[trigger] s[j]),
        pos == s.len() || pair_lt(x, s[pos]),
    ensures
        insert_sorted(x, s) == s.take(pos) + seq![x] + s.skip(pos),
    decreases pos,
{
    if pos == 0 {
        if s.len() == 0 {
            assert(s.take(0) + seq![x] + s.skip(0) =~= seq![x]);
        } else {
            assert(s.take(0) + seq![x] + s.skip(0) =~= seq![x] + s);
        }
    } else {
        lemma_insert_at(x, s.skip(1), pos - 1);
        assert(!pair_lt(x, s[0]));
        assert(s.skip(1).take(pos - 1) =~= s.take(pos).skip(1));
        assert(s.skip(1).skip(pos - 1) =~= s.skip(pos));
        assert(seq![s[0]] + (s.skip(1).take(pos - 1) + seq![x] + s.skip(1).skip(pos - 1)) =~= s.take(
            pos,
        ) + seq![x] + s.skip(pos));
    }
}

/// Stable sort of indexed entries by `(ts_ms, original index)`.
pub fn sort_indexed(v: Vec<(usize, SessionRecordEntry)>) -> (r: Vec<
    (usize, SessionRecordEntry),
>)
    ensures
        r@ == sort_pairs(v@),
{
    let ghost input = v@;
    let mut v = v;
    let mut out: Vec<(usize, SessionRecordEntry)> = Vec::new();
    proof {
        assert(input.take(0) =~= Seq::<(usize, SessionRecordEntry)>::empty());
    }
    let n = v.len();
    let mut i: usize = 0;
    while i < n
        invariant
            i <= n,
            n == input.len(),
            v@ == input.skip(i as int),
            out@ == sort_pairs(input.take(i as int)),
        decreases n - i,
    {
        let x = v.remove(0);
        proof {
            assert(input.skip(i as int)[0] == input[i as int]);
            assert(x == input[i as int]);
            assert(input.skip(i as int).remove(0) =~= input.skip(i + 1));
        }
        let mut pos: usize = 0;
        while pos < out.len() && !pair_lt_exec(&x, &out[pos])
            invariant
                pos <= out@.len(),
                forall|j: int| 0 <= j < pos ==> !pair_lt(x, #[trigger] out@[j]),
            decreases out@.len() - pos,
        {
            pos += 1;
        }
        let ghost before = out@;
        out.insert(pos, x);
        proof {
            lemma_insert_at(x, before, pos as int);
            assert(out@ =~= before.take(pos as int) + seq![x] + before.skip(pos as int));
            assert(input.take(i + 1).drop_last() =~= input.take(i as int));
            assert(input.take(i + 1).last() == input[i as int]);
        }
        i += 1;
    }
    proof {
        assert(input.take(n as int) =~= input);
    }
    out
}

/// The strict order, executable.
fn pair_lt_exec(a: &(usize, SessionRecordEntry), b: &(usize, SessionRecordEntry)) -> (r: bool)
    ensures
        r == pair_lt(*a, *b),
{
    a.1.ts_ms < b.1.ts_ms || (a.1.ts_ms == b.1.ts_ms && a.0 < b.0)
}

} // verus!

verus! {

/// The entries carried by indexed pairs, indices dropped.
pub open spec fn drop_idx(s: Seq<(usize, SessionRecordEntry)>) -> Seq<SessionRecordEntry> {
    s.map_values(|p: (usize, SessionRecordEntry)| p.1)
}

/// The normalized shape of a recording: entries sorted stably by
/// timestamp, then filtered by the kept-event options.
pub open spec fn normalized_model(
    pairs: Seq<(usize, SessionRecordEntry)>,
    options: NormalizeOptions,
) -> Seq<(u128, EventV)> {
    entries_v(
        drop_idx(sort_pairs(pairs)).filter(
            |e: SessionRecordEntry| keep_event(e.v().1, options),
        ),
    )
}

/// Whether normalization keeps this entry.
fn keep_entry(e: &SessionRecordEntry, options: &NormalizeOptions) -> (r: bool)
    ensures
        r == keep_event(e.v().1, *options),
{
    match &e.event {
        SessionEvent::RawChunk { .. } => options.keep_raw_chunks,
        SessionEvent::PromptChanged { .. } => options.keep_prompt_changed,
        SessionEvent::StateChanged { .. } => options.keep_state_changed,
        _ => true,
    }
}

impl SessionRecorder {
    /// Restores a recorder from JSONL text: blank lines are skipped, every
    /// other line must be one recorded entry.  Blank input yields an empty
    /// full-level recorder; otherwise the recorder holds exactly one entry
    /// per non-blank input line.
    pub fn from_jsonl(jsonl: &str) -> (r: Result<SessionRecorder, ConnectError>)
        ensures
            r matches Ok(rec) ==> rec.level_m() is Full,
            r matches Ok(rec) ==> rec.model().len() == crate::session::nonblank_line_count(
                jsonl@,
            ),
            r matches Err(e) ==> e is InternalServerError,
            crate::strutil::is_blank_seq(jsonl@) && r is Ok ==> (r matches Ok(rec)
                && rec.model().len() == 0),
            crate::strutil::is_blank_seq(jsonl@) ==> r is Ok,
    {
        let mut entries: Vec<SessionRecordEntry> = Vec::new();
        let n = jsonl.unicode_len();
        let mut start: usize = 0;
        let mut i: usize = 0;
        let ghost blank = crate::strutil::is_blank_seq(jsonl@);
        proof {
            assert(jsonl@.take(0) =~= Seq::<char>::empty());
            assert(crate::strutil::is_blank_seq(Seq::<char>::empty()));
            assert(crate::session::nonblank_line_count(Seq::<char>::empty()) == 0);
        }
        while i < n
            invariant
                start <= i <= n,
                n == jsonl@.len(),
                blank == crate::strutil::is_blank_seq(jsonl@),
                blank ==> entries@.len() == 0,
                start as int == 0 || jsonl@[start as int - 1] == '\n',
                forall|m: int| start as int <= m < i as int ==> jsonl@[m] != '\n',
                entries@.len() as int == crate::session::nonblank_line_count(
                    jsonl@.take(start as int),
                ),
            decreases n - i,
        {
            if jsonl.get_char(i) == '\n' {
                let line = jsonl.substring_char(start, i);
                let ghost linev = jsonl@.subrange(start as int, i as int);
                proof {
                    assert(line@ =~= linev);
                    assert(jsonl@.take(i + 1) =~= jsonl@.take(start as int) + linev.push('\n'));
                    crate::session::lemma_line_count_concat(
                        jsonl@.take(start as int),
                        linev.push('\n'),
                    );
                    crate::session::lemma_line_count_one(linev);
                }
                if !is_blank(line) {
                    proof {
                        let k = choose|k: int|
                            0 <= k < line@.len() && !crate::strutil::is_space_char(line@[k]);
                        assert(!crate::strutil::is_space_char(jsonl@[start + k]));
                    }
                    match parse_json(line) {
                        Some(j) => {
                            match entry_of_json(&j) {
                                Some(e) => {
                                    entries.push(e);
                                },
                                None => {
                                    return Err(
                                        ConnectError::InternalServerError(
                                            "record decode error: unrecognised entry".to_owned(),
                                        ),
                                    );
                                },
                            }
                        },
                        None => {
                            return Err(
                                ConnectError::InternalServerError(
                                    "record decode error: invalid json line".to_owned(),
                                ),
                            );
                        },
                    }
                }
                start = i + 1;
            }
            i += 1;
        }
        // the final, unterminated segment
        let line = jsonl.substring_char(start, n);
        let ghost tailv = jsonl@.subrange(start as int, n as int);
        proof {
            assert(line@ =~= tailv);
            assert(jsonl@ =~= jsonl@.take(start as int) + tailv);
            crate::session::lemma_line_count_concat(jsonl@.take(start as int), tailv);
            assert(crate::session::first_newline(tailv) is None) by {
                if crate::session::first_newline(tailv) is Some {
                    crate::session::lemma_first_newline_some(tailv);
                    let k = crate::session::first_newline(tailv)->0;
                    assert(tailv[k] == jsonl@[start as int + k]);
                }
            }
        }
        if !is_blank(line) {
            proof {
                let k = choose|k: int|
                    0 <= k < line@.len() && !crate::strutil::is_space_char(line@[k]);
                assert(!crate::strutil::is_space_char(jsonl@[start + k]));
            }
            match parse_json(line) {
                Some(j) => {
                    match entry_of_json(&j) {
                        Some(e) => {
                            entries.push(e);
                        },
                        None => {
                            return Err(
                                ConnectError::InternalServerError(
                                    "record decode error: unrecognised entry".to_owned(),
                                ),
                            );
                        },
                    }
                },
                None => {
                    return Err(
                        ConnectError::InternalServerError(
                            "record decode error: invalid json line".to_owned(),
                        ),
                    );
                },
            }
        }
        let rec = SessionRecorder { level: SessionRecordLevel::Full, entries };
        proof {
            assert(rec.model().len() == rec.entries@.len());
            if blank {
                assert(rec.model() =~= Seq::<(u128, EventV)>::empty());
            }
        }
        Ok(rec)
    }

    /// Normalizes JSONL text into a stable fixture: entries sorted by
    /// `(ts_ms, original index)` and noisy event kinds dropped according
    /// to the options.
    pub fn normalize_jsonl(jsonl: &str, options: NormalizeOptions) -> (r: Result<
        String,
        ConnectError,
    >)
        ensures
            r matches Err(e) ==> e is InternalServerError,
            r matches Ok(out) ==> exists|pairs: Seq<(usize, SessionRecordEntry)>|
                pairs.len() == crate::session::nonblank_line_count(jsonl@) && (forall|j: int|
                    0 <= j < pairs.len() ==> (#[trigger] pairs[j]).0 as int == j) && out@
                    == jsonl_of(#[trigger] normalized_model(pairs, options)),
    {
        let rec = match Self::from_jsonl(jsonl) {
            Ok(rec) => rec,
            Err(e) => {
                return Err(e);
            },
        };
        let ghost input_count = crate::session::nonblank_line_count(jsonl@);
        proof {
            assert(rec.model().len() == rec.entries@.len());
        }
        let mut indexed: Vec<(usize, SessionRecordEntry)> = Vec::new();
        let mut entries = rec.entries;
        let ghost total0 = entries@.len();
        proof {
            assert(total0 == input_count);
        }
        let mut idx: usize = 0;
        while entries.len() > 0
            invariant
                indexed@.len() == idx,
                entries@.len() + idx as int == total0,
                forall|j: int| 0 <= j < indexed@.len() ==> (#[trigger] indexed@[j]).0 as int == j,
            decreases entries@.len(),
        {
            let e = entries.remove(0);
            indexed.push((idx, e));
            if idx < usize::MAX {
                idx += 1;
            } else {
                return Err(
                    ConnectError::InternalServerError("record index overflow".to_owned()),
                );
            }
        }
        let ghost pairs = indexed@;
        proof {
            assert(pairs.len() == input_count);
        }
        let sorted = sort_indexed(indexed);
        let ghost sortedv = sorted@;
        let mut kept: Vec<SessionRecordEntry> = Vec::new();
        let mut rest = sorted;
        let ghost pred = |e: SessionRecordEntry| keep_event(e.v().1, options);
        let mut i: usize = 0;
        proof {
            assert(sortedv.take(0) =~= Seq::<(usize, SessionRecordEntry)>::empty());
            assert(drop_idx(sortedv.take(0)) =~= Seq::<SessionRecordEntry>::empty());
            assert(vstd::std_specs::vec::spec_vec_len(&rest) == rest@.len());
            assert(sortedv.len() <= usize::MAX);
        }
        while rest.len() > 0
            invariant
                i <= sortedv.len(),
                sortedv.len() <= usize::MAX,
                rest@ == sortedv.skip(i as int),
                kept@ == drop_idx(sortedv.take(i as int)).filter(pred),
                pred == (|e: SessionRecordEntry| keep_event(e.v().1, options)),
            decreases rest@.len(),
        {
            let p = rest.remove(0);
            proof {
                assert(sortedv.skip(i as int)[0] == sortedv[i as int]);
                assert(p == sortedv[i as int]);
                assert(sortedv.skip(i as int).remove(0) =~= sortedv.skip(i + 1));
            }
            let e = p.1;
            let ghost prevkept = drop_idx(sortedv.take(i as int)).filter(pred);
            let keep = keep_entry(&e, &options);
            if keep {
                kept.push(e);
            }
            proof {
                let cur = drop_idx(sortedv.take(i + 1));
                assert(cur =~= drop_idx(sortedv.take(i as int)).push(sortedv[i as int].1));
                assert(cur.drop_last() =~= drop_idx(sortedv.take(i as int)));
                assert(cur.last() == sortedv[i as int].1);
                reveal_with_fuel(Seq::filter, 2);
                if pred(sortedv[i as int].1) {
                    assert(cur.filter(pred) =~= prevkept.push(sortedv[i as int].1));
                } else {
                    assert(cur.filter(pred) =~= prevkept);
                }
            }
            i += 1;
        }
        proof {
            assert(sortedv.take(sortedv.len() as int) =~= sortedv);
        }
        let out_rec = SessionRecorder { level: SessionRecordLevel::Full, entries: kept };
        let out = match out_rec.to_jsonl() {
            Ok(s) => s,
            Err(e) => {
                return Err(ConnectError::InternalServerError("record encode error".to_owned()));
            },
        };
        proof {
            assert(out@ == jsonl_of(normalized_model(pairs, options)));
        }
        Ok(out)
    }
}

} // verus!

verus! {

/// Index of the member named `name`, if present.
fn find_field(fields: &Vec<(String, Json)>, name: &str) -> (r: Option<usize>)
    ensures
        r matches Some(i) ==> (i as int) < fields@.len(),
{
    let mut i: usize = 0;
    while i < fields.len()
        invariant
            i <= fields@.len(),
        decreases fields@.len() - i,
    {
        if crate::device::str_eq(fields[i].0.as_str(), name) {
            return Some(i);
        }
        i += 1;
    }
    None
}

/// A required string member.
fn get_string(fields: &Vec<(String, Json)>, name: &str) -> Option<String> {
    match find_field(fields, name) {
        Some(i) => match &fields[i].1 {
            Json::JStr(s) => Some(s.clone()),
            _ => None,
        },
        None => None,
    }
}

/// An optional string member: absent and `null` both mean none.
fn get_opt_string(fields: &Vec<(String, Json)>, name: &str) -> Result<Option<String>, ()> {
    match find_field(fields, name) {
        Some(i) => match &fields[i].1 {
            Json::JStr(s) => Ok(Some(s.clone())),
            Json::JNull => Ok(None),
            _ => Err(()),
        },
        None => Ok(None),
    }
}

/// A required boolean member.
fn get_bool(fields: &Vec<(String, Json)>, name: &str) -> Option<bool> {
    match find_field(fields, name) {
        Some(i) => match &fields[i].1 {
            Json::JBool(b) => Some(*b),
            _ => None,
        },
        None => None,
    }
}

/// A required unsigned member.
fn get_u128(fields: &Vec<(String, Json)>, name: &str) -> Option<u128> {
    match find_field(fields, name) {
        Some(i) => match &fields[i].1 {
            Json::JNum(n) => Some(*n),
            _ => None,
        },
        None => None,
    }
}

/// A required index member that must fit a `usize`.
fn get_usize(fields: &Vec<(String, Json)>, name: &str) -> Option<usize> {
    match get_u128(fields, name) {
        Some(n) => {
            if n <= usize::MAX as u128 {
                Some(n as usize)
            } else {
                None
            }
        },
        None => None,
    }
}

/// An optional index member.
fn get_opt_usize(fields: &Vec<(String, Json)>, name: &str) -> Result<Option<usize>, ()> {
    match find_field(fields, name) {
        Some(i) => match &fields[i].1 {
            Json::JNum(n) => {
                if *n <= usize::MAX as u128 {
                    Ok(Some(*n as usize))
                } else {
                    Err(())
                }
            },
            Json::JNull => Ok(None),
            _ => Err(()),
        },
        None => Ok(None),
    }
}

/// Decodes one recorded entry from its JSON tree.  Unknown members are
/// ignored; the legacy aliases `prompt` and `state` are accepted for
/// `prompt_after` and `fsm_prompt_after` on connection events.
fn entry_of_json(j: &Json) -> Option<SessionRecordEntry> {
    let top = match j {
        Json::JObj(fields) => fields,
        _ => {
            return None;
        },
    };
    let ts_ms = match get_u128(top, "ts_ms") {
        Some(n) => n,
        None => {
            return None;
        },
    };
    let ei = match find_field(top, "event") {
        Some(i) => i,
        None => {
            return None;
        },
    };
    let ef = match &top[ei].1 {
        Json::JObj(fields) => fields,
        _ => {
            return None;
        },
    };
    let kind = match get_string(ef, "kind") {
        Some(k) => k,
        None => {
            return None;
        },
    };
    let event: SessionEvent;
    if crate::device::str_eq(kind.as_str(), "connection_established") {
        let device_addr = get_string(ef, "device_addr")?;
        let prompt_after = match get_string(ef, "prompt_after") {
            Some(v) => v,
            None => get_string(ef, "prompt")?,
        };
        let fsm_prompt_after = match get_string(ef, "fsm_prompt_after") {
            Some(v) => v,
            None => get_string(ef, "state")?,
        };
        event = SessionEvent::ConnectionEstablished { device_addr, prompt_after, fsm_prompt_after };
    } else if crate::device::str_eq(kind.as_str(), "connection_closed") {
        let reason = get_string(ef, "reason")?;
        let prompt_before = get_opt_string(ef, "prompt_before").ok()?;
        let fsm_prompt_before = get_opt_string(ef, "fsm_prompt_before").ok()?;
        event = SessionEvent::ConnectionClosed { reason, prompt_before, fsm_prompt_before };
    } else if crate::device::str_eq(kind.as_str(), "command_output") {
        let command = get_string(ef, "command")?;
        let mode = get_string(ef, "mode")?;
        let prompt_before = get_opt_string(ef, "prompt_before").ok()?;
        let prompt_after = get_opt_string(ef, "prompt_after").ok()?;
        let fsm_prompt_before = get_opt_string(ef, "fsm_prompt_before").ok()?;
        let fsm_prompt_after = get_opt_string(ef, "fsm_prompt_after").ok()?;
        let success = get_bool(ef, "success")?;
        let content = get_string(ef, "content")?;
        let all = get_string(ef, "all")?;
        event = SessionEvent::CommandOutput {
            command,
            mode,
            prompt_before,
            prompt_after,
            fsm_prompt_before,
            fsm_prompt_after,
            success,
            content,
            all,
        };
    } else if crate::device::str_eq(kind.as_str(), "prompt_changed") {
        let prompt = get_string(ef, "prompt")?;
        event = SessionEvent::PromptChanged { prompt };
    } else if crate::device::str_eq(kind.as_str(), "state_changed") {
        let state = get_string(ef, "state")?;
        event = SessionEvent::StateChanged { state };
    } else if crate::device::str_eq(kind.as_str(), "raw_chunk") {
        let data = get_string(ef, "data")?;
        event = SessionEvent::RawChunk { data };
    } else if crate::device::str_eq(kind.as_str(), "tx_block_started") {
        let block_name = get_string(ef, "block_name")?;
        let kind_str_v = get_string(ef, "block_kind")?;
        let block_kind = if crate::device::str_eq(kind_str_v.as_str(), "show") {
            CommandBlockKind::Show
        } else if crate::device::str_eq(kind_str_v.as_str(), "config") {
            CommandBlockKind::Config
        } else {
            return None;
        };
        event = SessionEvent::TxBlockStarted { block_name, block_kind };
    } else if crate::device::str_eq(kind.as_str(), "tx_step_succeeded") {
        let block_name = get_string(ef, "block_name")?;
        let step_index = get_usize(ef, "step_index")?;
        let mode = get_string(ef, "mode")?;
        let command = get_string(ef, "command")?;
        event = SessionEvent::TxStepSucceeded { block_name, step_index, mode, command };
    } else if crate::device::str_eq(kind.as_str(), "tx_step_failed") {
        let block_name = get_string(ef, "block_name")?;
        let step_index = get_usize(ef, "step_index")?;
        let mode = get_string(ef, "mode")?;
        let command = get_string(ef, "command")?;
        let reason = get_string(ef, "reason")?;
        event = SessionEvent::TxStepFailed { block_name, step_index, mode, command, reason };
    } else if crate::device::str_eq(kind.as_str(), "tx_rollback_started") {
        let block_name = get_string(ef, "block_name")?;
        event = SessionEvent::TxRollbackStarted { block_name };
    } else if crate::device::str_eq(kind.as_str(), "tx_rollback_step_succeeded") {
        let block_name = get_string(ef, "block_name")?;
        let step_index = get_opt_usize(ef, "step_index").ok()?;
        let mode = get_string(ef, "mode")?;
        let command = get_string(ef, "command")?;
        event = SessionEvent::TxRollbackStepSucceeded { block_name, step_index, mode, command };
    } else if crate::device::str_eq(kind.as_str(), "tx_rollback_step_failed") {
        let block_name = get_string(ef, "block_name")?;
        let step_index = get_opt_usize(ef, "step_index").ok()?;
        let mode = get_string(ef, "mode")?;
        let command = get_string(ef, "command")?;
        let reason = get_string(ef, "reason")?;
        event = SessionEvent::TxRollbackStepFailed {
            block_name,
            step_index,
            mode,
            command,
            reason,
        };
    } else if crate::device::str_eq(kind.as_str(), "tx_block_finished") {
        let block_name = get_string(ef, "block_name")?;
        let committed = get_bool(ef, "committed")?;
        let rollback_attempted = get_bool(ef, "rollback_attempted")?;
        let rollback_succeeded = get_bool(ef, "rollback_succeeded")?;
        event = SessionEvent::TxBlockFinished {
            block_name,
            committed,
            rollback_attempted,
            rollback_succeeded,
        };
    } else if crate::device::str_eq(kind.as_str(), "tx_workflow_started") {
        let workflow_name = get_string(ef, "workflow_name")?;
        let total_blocks = get_usize(ef, "total_blocks")?;
        event = SessionEvent::TxWorkflowStarted { workflow_name, total_blocks };
    } else if crate::device::str_eq(kind.as_str(), "tx_workflow_finished") {
        let workflow_name = get_string(ef, "workflow_name")?;
        let committed = get_bool(ef, "committed")?;
        let rollback_attempted = get_bool(ef, "rollback_attempted")?;
        let rollback_succeeded = get_bool(ef, "rollback_succeeded")?;
        event = SessionEvent::TxWorkflowFinished {
            workflow_name,
            committed,
            rollback_attempted,
            rollback_succeeded,
        };
    } else {
        return None;
    }
    Some(SessionRecordEntry { ts_ms, event })
}

} // verus!

verus! {

/// The device context captured at connection time.
#[derive(Debug, Clone, PartialEq, Eq)]
pub struct ReplayContext {
    pub device_addr: String,
    pub prompt: String,
    pub fsm_prompt: String,
}

/// The first connection event of a recording, if any.
pub open spec fn first_connection(m: Seq<(u128, EventV)>) -> Option<EventV>
    decreases m.len(),
{
    if m.len() == 0 {
        None
    } else if m[0].1 is VConnectionEstablished {
        Some(m[0].1)
    } else {
        first_connection(m.skip(1))
    }
}

/// Whether a recorded event answers a replay request.
pub open spec fn replay_hit(e: EventV, cmd: Seq<char>, mode: Option<Seq<char>>) -> bool {
    match e {
        EventV::VCommandOutput { command, mode: rec_mode, .. } => command == cmd && match mode {
            Some(m) => lower_seq(m) == lower_seq(rec_mode),
            None => true,
        },
        _ => false,
    }
}

/// The outputs of replaying a whole script from `cur`: each command is
/// looked up in turn, the cursor moving past every hit.
pub open spec fn script_hits(
    m: Seq<(u128, EventV)>,
    cur: int,
    script: Seq<Command>,
) -> Option<(Seq<EventV>, int)>
    decreases script.len(),
{
    if script.len() == 0 {
        Some((Seq::empty(), cur))
    } else {
        match find_output(m, cur, script[0].command@, Some(script[0].mode@)) {
            Some((k, e)) => match script_hits(m, k + 1, script.skip(1)) {
                Some((rest, endcur)) => Some((seq![e] + rest, endcur)),
                None => None,
            },
            None => None,
        }
    }
}

/// The first replayable output at or after `cur`.
pub open spec fn find_output(
    m: Seq<(u128, EventV)>,
    cur: int,
    cmd: Seq<char>,
    mode: Option<Seq<char>>,
) -> Option<(int, EventV)>
    decreases m.len() - cur,
{
    if cur < 0 || cur >= m.len() {
        None
    } else if replay_hit(m[cur].1, cmd, mode) {
        Some((cur, m[cur].1))
    } else {
        find_output(m, cur + 1, cmd, mode)
    }
}

/// Offline replayer backed by session recording data.
#[derive(Debug, Clone, PartialEq, Eq)]
pub struct SessionReplayer {
    entries: Vec<SessionRecordEntry>,
    cursor: usize,
}

impl SessionReplayer {
    /// The recorded entries.
    pub closed spec fn model(&self) -> Seq<(u128, EventV)> {
        entries_v(self.entries@)
    }

    /// The replay position.
    pub closed spec fn cursor_m(&self) -> int {
        self.cursor as int
    }

    /// Builds a replayer from a recorder snapshot, positioned at the
    /// start.
    pub fn from_recorder(recorder: &SessionRecorder) -> (r: SessionReplayer)
        ensures
            r.model() == recorder.model(),
            r.cursor_m() == 0,
    {
        let entries = match recorder.entries() {
            Ok(v) => v,
            Err(_) => Vec::new(),
        };
        SessionReplayer { entries, cursor: 0 }
    }

    /// Builds a replayer from JSONL recording data.
    pub fn from_jsonl(jsonl: &str) -> (r: Result<SessionReplayer, ConnectError>)
        ensures
            r matches Ok(rep) ==> rep.cursor_m() == 0,
            r matches Err(e) ==> e is InternalServerError,
    {
        match SessionRecorder::from_jsonl(jsonl) {
            Ok(rec) => Ok(Self::from_recorder(&rec)),
            Err(e) => Err(e),
        }
    }

    /// Returns the initial connection context, when the recording holds a
    /// connection event.
    pub fn initial_context(&self) -> (r: Option<ReplayContext>)
        ensures
            match r {
                Some(ctx) => first_connection(self.model()) matches Some(
                    EventV::VConnectionEstablished { device_addr, prompt_after, fsm_prompt_after },
                ) && ctx.device_addr@ == device_addr && ctx.prompt@ == prompt_after
                    && ctx.fsm_prompt@ == fsm_prompt_after,
                None => first_connection(self.model()) is None,
            },
    {
        let mut i: usize = 0;
        proof {
            assert(self.model().skip(0) =~= self.model());
        }
        while i < self.entries.len()
            invariant
                i <= self.entries@.len(),
                self.model().len() == self.entries@.len(),
                first_connection(self.model()) == first_connection(self.model().skip(i as int)),
            decreases self.entries@.len() - i,
        {
            proof {
                assert(self.model().skip(i as int)[0] == self.model()[i as int]);
                assert(self.model().skip(i as int).skip(1) =~= self.model().skip(i + 1));
            }
            match &self.entries[i].event {
                SessionEvent::ConnectionEstablished {
                    device_addr,
                    prompt_after,
                    fsm_prompt_after,
                } => {
                    return Some(
                        ReplayContext {
                            device_addr: device_addr.clone(),
                            prompt: prompt_after.clone(),
                            fsm_prompt: fsm_prompt_after.clone(),
                        },
                    );
                },
                _ => {},
            }
            i += 1;
        }
        proof {
            assert(self.model().skip(self.model().len() as int).len() == 0);
        }
        None
    }

    /// Replays the next recorded output for the given command, in any
    /// mode.
    pub fn replay_next(&mut self, command: &str) -> (r: Result<Output, ConnectError>)
        ensures
            final(self).model() == old(self).model(),
            match r {
                Ok(out) => find_output(
                    old(self).model(),
                    old(self).cursor_m(),
                    command@,
                    None,
                ) matches Some(hit) && final(self).cursor_m() == hit.0 + 1 && output_matches(
                    out,
                    hit.1,
                ),
                Err(e) => e is ReplayMismatchError && find_output(
                    old(self).model(),
                    old(self).cursor_m(),
                    command@,
                    None,
                ) is None,
            },
    {
        self.replay_next_internal(command, None)
    }

    /// Replays the next recorded output for a specific command and mode;
    /// the mode comparison ignores ASCII case.
    pub fn replay_next_in_mode(&mut self, command: &str, mode: &str) -> (r: Result<
        Output,
        ConnectError,
    >)
        ensures
            final(self).model() == old(self).model(),
            match r {
                Ok(out) => find_output(
                    old(self).model(),
                    old(self).cursor_m(),
                    command@,
                    Some(mode@),
                ) matches Some(hit) && final(self).cursor_m() == hit.0 + 1 && output_matches(
                    out,
                    hit.1,
                ),
                Err(e) => e is ReplayMismatchError && find_output(
                    old(self).model(),
                    old(self).cursor_m(),
                    command@,
                    Some(mode@),
                ) is None,
            },
    {
        self.replay_next_internal(command, Some(mode))
    }

    /// Replays a whole script, threading the cursor through every entry:
    /// the outputs are exactly the recorded hits, in script order, and the
    /// cursor ends past the last one; a missing entry fails the whole
    /// script.
    pub fn replay_script(&mut self, script: &Vec<Command>) -> (r: Result<
        Vec<Output>,
        ConnectError,
    >)
        ensures
            final(self).model() == old(self).model(),
            match r {
                Ok(outs) => script_hits(old(self).model(), old(self).cursor_m(), script@) matches
                    Some(hit) && outs@.len() == script@.len() && hit.0.len() == script@.len() && (
                forall|k: int|
                    0 <= k < script@.len() ==> output_matches(#[trigger] outs@[k], hit.0[k]))
                    && final(self).cursor_m() == hit.1,
                Err(e) => e is ReplayMismatchError && script_hits(
                    old(self).model(),
                    old(self).cursor_m(),
                    script@,
                ) is None,
            },
    {
        let ghost oldm = self.model();
        let ghost oldcur = self.cursor_m();
        let mut outputs: Vec<Output> = Vec::new();
        let ghost mut hits: Seq<EventV> = Seq::empty();
        let mut i: usize = 0;
        proof {
            assert(script@.skip(0) =~= script@);
            assert(hits + Seq::<EventV>::empty() =~= hits);
        }
        while i < script.len()
            invariant
                i <= script@.len(),
                outputs@.len() == i,
                hits.len() == i,
                self.model() == oldm,
                oldm == old(self).model(),
                oldcur == old(self).cursor_m(),
                forall|k: int| 0 <= k < i ==> output_matches(#[trigger] outputs@[k], hits[k]),
                (match script_hits(oldm, self.cursor_m(), script@.skip(i as int)) {
                    Some(rest) => script_hits(oldm, oldcur, script@) == Some(
                        (hits + rest.0, rest.1),
                    ),
                    None => script_hits(oldm, oldcur, script@) is None,
                }),
            decreases script@.len() - i,
        {
            proof {
                assert(script@.skip(i as int)[0] == script@[i as int]);
                assert(script@.skip(i as int).skip(1) =~= script@.skip(i + 1));
            }
            let ghost cur0 = self.cursor_m();
            match self.replay_next_in_mode(
                script[i].command.as_str(),
                script[i].mode.as_str(),
            ) {
                Ok(out) => {
                    proof {
                        let hit = find_output(
                            oldm,
                            cur0,
                            script@[i as int].command@,
                            Some(script@[i as int].mode@),
                        )->0;
                        hits = hits.push(hit.1);
                        match script_hits(oldm, self.cursor_m(), script@.skip(i + 1)) {
                            Some(rest) => {
                                assert(script_hits(oldm, cur0, script@.skip(i as int)) == Some(
                                    (seq![hit.1] + rest.0, rest.1),
                                ));
                                assert(hits.drop_last() + (seq![hit.1] + rest.0) =~= hits
                                    + rest.0);
                            },
                            None => {
                                assert(script_hits(oldm, cur0, script@.skip(i as int)) is None);
                            },
                        }
                    }
                    outputs.push(out);
                },
                Err(e) => {
                    proof {
                        assert(script_hits(oldm, cur0, script@.skip(i as int)) is None);
                    }
                    return Err(e);
                },
            }
            i += 1;
        }
        proof {
            assert(script@.skip(script@.len() as int).len() == 0);
            assert(script_hits(oldm, self.cursor_m(), script@.skip(script@.len() as int)) == Some(
                (Seq::<EventV>::empty(), self.cursor_m()),
            ));
            assert(hits + Seq::<EventV>::empty() =~= hits);
        }
        Ok(outputs)
    }

    /// The shared scan: skips non-matching events and returns the first
    /// matching command output.
    fn replay_next_internal(&mut self, command: &str, mode: Option<&str>) -> (r: Result<
        Output,
        ConnectError,
    >)
        ensures
            final(self).model() == old(self).model(),
            match r {
                Ok(out) => find_output(
                    old(self).model(),
                    old(self).cursor_m(),
                    command@,
                    mode_view(mode),
                ) matches Some(hit) && final(self).cursor_m() == hit.0 + 1 && output_matches(
                    out,
                    hit.1,
                ),
                Err(e) => e is ReplayMismatchError && find_output(
                    old(self).model(),
                    old(self).cursor_m(),
                    command@,
                    mode_view(mode),
                ) is None,
            },
    {
        let ghost m = self.model();
        let ghost mv = mode_view(mode);
        proof {
            assert(m == old(self).model());
        }
        while self.cursor < self.entries.len()
            invariant
                self.model() == m,
                m == old(self).model(),
                self.entries@.len() == m.len(),
                find_output(m, old(self).cursor_m(), command@, mv) == find_output(
                    m,
                    self.cursor as int,
                    command@,
                    mv,
                ),
                mv == mode_view(mode),
            decreases self.entries@.len() - self.cursor,
        {
            let cur = self.cursor;
            let hit: bool;
            match &self.entries[cur].event {
                SessionEvent::CommandOutput { command: rec_cmd, mode: rec_mode, .. } => {
                    let cmd_match = crate::device::str_eq(rec_cmd.as_str(), command);
                    let mode_match = match mode {
                        Some(expected) => eq_ignore_case(expected, rec_mode.as_str()),
                        None => true,
                    };
                    hit = cmd_match && mode_match;
                },
                _ => {
                    hit = false;
                },
            }
            proof {
                assert(m[cur as int] == self.entries@[cur as int].v());
                assert(hit == replay_hit(m[cur as int].1, command@, mv));
            }
            if hit {
                match &self.entries[cur].event {
                    SessionEvent::CommandOutput { prompt_after, success, content, all, .. } => {
                        let out = Output {
                            success: *success,
                            content: content.clone(),
                            all: all.clone(),
                            prompt: clone_opt(prompt_after),
                        };
                        self.cursor = cur + 1;
                        proof {
                            assert(find_output(m, cur as int, command@, mv) == Some(
                                (cur as int, m[cur as int].1),
                            ));
                            assert(output_matches(out, m[cur as int].1));
                        }
                        return Ok(out);
                    },
                    _ => {
                        proof {
                            assert(false);
                        }
                    },
                }
            }
            self.cursor = cur + 1;
        }
        let msg = match mode {
            Some(m_str) => str_concat(
                str_concat("no replayable output found for command '", command).as_str(),
                str_concat("' in mode '", str_concat(m_str, "'").as_str()).as_str(),
            ),
            None => str_concat(
                str_concat("no replayable output found for command '", command).as_str(),
                "'",
            ),
        };
        Err(ConnectError::ReplayMismatchError(msg))
    }
}

/// View of an optional mode argument.
pub open spec fn mode_view(mode: Option<&str>) -> Option<Seq<char>> {
    match mode {
        Some(s) => Some(s@),
        None => None,
    }
}

/// The replayed output carries the recorded event's fields.
pub open spec fn output_matches(out: Output, e: EventV) -> bool {
    e matches EventV::VCommandOutput { prompt_after, success, content, all, .. } && out.success
        == success && out.content@ == content && out.all@ == all && ov(out.prompt) == prompt_after
}

} // verus!

verus! {

/// Inserting an element not less than any member appends it.
proof fn lemma_insert_at_end(x: (usize, SessionRecordEntry), t: Seq<(usize, SessionRecordEntry)>)
    requires
        forall|j: int| 0 <= j < t.len() ==> !pair_lt(x, #[trigger] t[j]),
    ensures
        insert_sorted(x, t) == t.push(x),
    decreases t.len(),
{
    if t.len() == 0 {
        assert(insert_sorted(x, t) =~= t.push(x));
    } else {
        assert(!pair_lt(x, t[0]));
        assert(forall|j: int| 0 <= j < t.skip(1).len() ==> t.skip(1)[j] == t[j + 1]);
        lemma_insert_at_end(x, t.skip(1));
        assert(seq![t[0]] + t.skip(1).push(x) =~= t.push(x));
    }
}

/// Sorting a run that is already sorted leaves it unchanged.
pub proof fn lemma_sort_of_sorted(s: Seq<(usize, SessionRecordEntry)>)
    requires
        pairs_sorted(s),
    ensures
        sort_pairs(s) == s,
    decreases s.len(),
{
    if s.len() > 0 {
        assert(pairs_sorted(s.drop_last()));
        lemma_sort_of_sorted(s.drop_last());
        assert(forall|j: int|
            0 <= j < s.drop_last().len() ==> !pair_lt(s.last(), #[trigger] s.drop_last()[j]));
        lemma_insert_at_end(s.last(), s.drop_last());
        assert(s.drop_last().push(s.last()) =~= s);
    }
}

/// Filtering keeps a sequence whose every element passes unchanged.
proof fn lemma_filter_all_kept<A>(s: Seq<A>, p: spec_fn(A) -> bool)
    requires
        forall|j: int| 0 <= j < s.len() ==> p(#[trigger] s[j]),
    ensures
        s.filter(p) == s,
    decreases s.len(),
{
    reveal_with_fuel(Seq::filter, 2);
    if s.len() > 0 {
        assert(forall|j: int| 0 <= j < s.drop_last().len() ==> p(#[trigger] s.drop_last()[j]));
        lemma_filter_all_kept(s.drop_last(), p);
        assert(p(s.last()));
        assert(s.drop_last().push(s.last()) =~= s);
    }
}

/// The pairing of entries with their positions.
pub open spec fn enumerate_entries(s: Seq<SessionRecordEntry>) -> Seq<(usize, SessionRecordEntry)> {
    Seq::new(s.len(), |i: int| (i as usize, s[i]))
}

/// Normalization is idempotent at the model level: entries whose
/// timestamps already run in order and which the options keep come out of
/// the sort-and-filter pipeline exactly as they went in.
pub proof fn lemma_normalized_model_stable(
    entries: Seq<SessionRecordEntry>,
    options: NormalizeOptions,
)
    requires
        entries.len() <= usize::MAX,
        forall|i: int, j: int|
            0 <= i < j < entries.len() ==> (#[trigger] entries[i]).ts_ms <= (
            #[trigger] entries[j]).ts_ms,
        forall|j: int| 0 <= j < entries.len() ==> keep_event((#[trigger] entries[j]).v().1, options),
    ensures
        normalized_model(enumerate_entries(entries), options) == entries_v(entries),
{
    let pairs = enumerate_entries(entries);
    assert forall|i: int, j: int| 0 <= i < j < pairs.len() implies !pair_lt(
        #[trigger] pairs[j],
        #[trigger] pairs[i],
    ) by {
        assert(pairs[i].1 == entries[i]);
        assert(pairs[j].1 == entries[j]);
        assert(pairs[i].0 == i as usize);
        assert(pairs[j].0 == j as usize);
    }
    lemma_sort_of_sorted(pairs);
    let flat = drop_idx(pairs);
    assert(flat =~= entries);
    let pred = |e: SessionRecordEntry| keep_event(e.v().1, options);
    lemma_filter_all_kept(entries, pred);
}

} // verus!

verus! {

/// Every line that the JSONL export writes parses back to exactly the
/// entry's JSON shape: the text half of the recording round trip.
pub proof fn lemma_recorded_line_roundtrip(ev: (u128, EventV))
    ensures
        crate::json::sp_value(crate::json::enc_jv(entry_jv(ev)), 0) == Some(
            (entry_jv(ev), crate::json::enc_jv(entry_jv(ev)).len() as int),
        ),
{
    crate::json::lemma_parse_encode_roundtrip(entry_jv(ev));
}

} // verus!
