use rneter::errors::ConnectError;
use rneter::recording::{
    NormalizeOptions, SessionEvent, SessionRecordLevel, SessionRecorder, SessionReplayer,
};
use rneter::session::Command;

const NOISY_FIXTURE: &str = r#"{"ts_ms":3,"event":{"kind":"raw_chunk","data":"chunk-2"}}
{"ts_ms":1,"event":{"kind":"connection_established","device_addr":"admin@10.0.0.1:22","prompt_after":"router#","fsm_prompt_after":"enable"}}
{"ts_ms":2,"event":{"kind":"prompt_changed","prompt":"router#"}}
{"ts_ms":4,"event":{"kind":"state_changed","state":"config"}}
{"ts_ms":5,"event":{"kind":"command_output","command":"show version","mode":"Enable","success":true,"content":"ok","all":"show version\nok\nrouter#"}}
"#;

fn command_output(command: &str, mode: &str, content: &str, prompt: &str) -> SessionEvent {
    SessionEvent::CommandOutput {
        command: command.to_string(),
        mode: mode.to_string(),
        prompt_before: Some(prompt.to_string()),
        prompt_after: Some(prompt.to_string()),
        fsm_prompt_before: Some(mode.to_ascii_lowercase()),
        fsm_prompt_after: Some(mode.to_ascii_lowercase()),
        success: true,
        content: content.to_string(),
        all: format!("{command}\n{content}\n{prompt}"),
    }
}

#[test]
fn recorder_jsonl_roundtrip() {
    let mut recorder = SessionRecorder::new(SessionRecordLevel::Full);
    recorder
        .record_event(SessionEvent::PromptChanged {
            prompt: "router#".to_string(),
        })
        .expect("record prompt");

    let jsonl = recorder.to_jsonl().expect("encode jsonl");
    let restored = SessionRecorder::from_jsonl(&jsonl).expect("decode jsonl");
    let entries = restored.entries().expect("entries");

    assert_eq!(entries.len(), 1);
    assert!(matches!(
        entries[0].event,
        SessionEvent::PromptChanged { .. }
    ));
}

#[test]
fn replayer_returns_matching_command_output() {
    let mut recorder = SessionRecorder::new(SessionRecordLevel::Full);
    recorder
        .record_event(command_output("show version", "enable", "ok", "router#"))
        .expect("record command output");

    let mut replayer = SessionReplayer::from_recorder(&recorder);
    let output = replayer.replay_next("show version").expect("replay");

    assert!(output.success);
    assert_eq!(output.content, "ok");
}

#[test]
fn replayer_supports_initial_context_for_offline_connection_tests() {
    let mut recorder = SessionRecorder::new(SessionRecordLevel::Full);
    recorder
        .record_event(SessionEvent::ConnectionEstablished {
            device_addr: "admin@192.168.1.1:22".to_string(),
            prompt_after: "router#".to_string(),
            fsm_prompt_after: "enable".to_string(),
        })
        .expect("record connect");

    let replayer = SessionReplayer::from_recorder(&recorder);
    let ctx = replayer.initial_context().expect("context");

    assert_eq!(ctx.device_addr, "admin@192.168.1.1:22");
    assert_eq!(ctx.prompt, "router#");
    assert_eq!(ctx.fsm_prompt, "enable");
}

#[test]
fn replay_script_can_test_command_flow_without_ssh() {
    let mut recorder = SessionRecorder::new(SessionRecordLevel::Full);
    recorder
        .record_event(command_output("terminal length 0", "enable", "", "router#"))
        .expect("record output 1");
    recorder
        .record_event(command_output(
            "show version",
            "enable",
            "Version 1.0",
            "router#",
        ))
        .expect("record output 2");

    let mut replayer = SessionReplayer::from_recorder(&recorder);
    let script = vec![
        Command {
            mode: "enable".to_string(),
            command: "terminal length 0".to_string(),
            timeout: None,
        },
        Command {
            mode: "enable".to_string(),
            command: "show version".to_string(),
            timeout: None,
        },
    ];
    let outputs = replayer.replay_script(&script).expect("replay script");
    assert_eq!(outputs.len(), 2);
    assert_eq!(outputs[1].content, "Version 1.0");
}

#[test]
fn replay_next_in_mode_detects_mismatch() {
    let mut recorder = SessionRecorder::new(SessionRecordLevel::Full);
    recorder
        .record_event(command_output("show version", "enable", "ok", "router#"))
        .expect("record output");

    let mut replayer = SessionReplayer::from_recorder(&recorder);
    let err = match replayer.replay_next_in_mode("show version", "config") {
        Ok(_) => panic!("mismatch mode should fail"),
        Err(err) => err,
    };
    assert!(matches!(err, ConnectError::ReplayMismatchError(_)));
}

#[test]
fn key_events_only_skips_raw_chunks() {
    let mut recorder = SessionRecorder::new(SessionRecordLevel::KeyEventsOnly);

    recorder
        .record_raw_chunk("raw-shell-data".to_string())
        .expect("record raw");
    recorder
        .record_event(SessionEvent::PromptChanged {
            prompt: "router#".to_string(),
        })
        .expect("record prompt");

    let entries = recorder.entries().expect("entries");
    assert_eq!(entries.len(), 1);
    assert!(matches!(
        entries[0].event,
        SessionEvent::PromptChanged { .. }
    ));
}

#[test]
fn off_level_records_nothing() {
    let mut recorder = SessionRecorder::new(SessionRecordLevel::Off);

    recorder
        .record_event(SessionEvent::StateChanged {
            state: "enable".to_string(),
        })
        .expect("record state");
    recorder
        .record_raw_chunk("raw-shell-data".to_string())
        .expect("record raw");

    let entries = recorder.entries().expect("entries");
    assert!(entries.is_empty());
}

#[test]
fn replay_next_returns_error_when_command_not_found() {
    let mut recorder = SessionRecorder::new(SessionRecordLevel::Full);
    recorder
        .record_event(command_output("show clock", "enable", "12:00:00", "router#"))
        .expect("record command output");

    let mut replayer = SessionReplayer::from_recorder(&recorder);
    let err = match replayer.replay_next("show version") {
        Ok(_) => panic!("missing replay should fail"),
        Err(err) => err,
    };
    assert!(matches!(err, ConnectError::ReplayMismatchError(_)));
}

#[test]
fn from_jsonl_accepts_empty_input() {
    let restored = SessionRecorder::from_jsonl("").expect("decode empty jsonl");
    let entries = restored.entries().expect("entries");
    assert!(entries.is_empty());
}

#[test]
fn recorder_clear_removes_all_entries() {
    let mut recorder = SessionRecorder::new(SessionRecordLevel::Full);
    recorder
        .record_event(SessionEvent::StateChanged {
            state: "enable".to_string(),
        })
        .expect("record state");
    recorder.clear().expect("clear");
    let entries = recorder.entries().expect("entries");
    assert!(entries.is_empty());
}

#[test]
fn from_jsonl_supports_legacy_connection_prompt_field() {
    let legacy = r#"{"ts_ms":1,"event":{"kind":"connection_established","device_addr":"u@h:22","prompt":"r#","state":"enable"}}"#;
    let replayer = SessionReplayer::from_jsonl(legacy).expect("parse legacy");
    let ctx = replayer.initial_context().expect("context");
    assert_eq!(ctx.prompt, "r#");
    assert_eq!(ctx.fsm_prompt, "enable");
}

#[test]
fn command_default_has_no_timeout() {
    let cmd = Command::default();
    assert_eq!(cmd.timeout, None);
    assert!(cmd.mode.is_empty());
    assert!(cmd.command.is_empty());
}

#[test]
fn normalize_jsonl_filters_noise_and_sorts_by_timestamp() {
    let normalized = SessionRecorder::normalize_jsonl(NOISY_FIXTURE, NormalizeOptions::default())
        .expect("normalize");
    let restored = SessionRecorder::from_jsonl(&normalized).expect("restore normalized");
    let entries = restored.entries().expect("entries");

    assert_eq!(entries.len(), 3);
    assert!(matches!(
        entries[0].event,
        SessionEvent::ConnectionEstablished { .. }
    ));
    assert!(matches!(entries[1].event, SessionEvent::StateChanged { .. }));
    assert!(matches!(
        entries[2].event,
        SessionEvent::CommandOutput { .. }
    ));
    assert!(entries[0].ts_ms <= entries[1].ts_ms && entries[1].ts_ms <= entries[2].ts_ms);
}

#[test]
fn normalize_jsonl_can_keep_all_event_types() {
    let options = NormalizeOptions {
        keep_raw_chunks: true,
        keep_prompt_changed: true,
        keep_state_changed: true,
    };
    let normalized = SessionRecorder::normalize_jsonl(NOISY_FIXTURE, options).expect("normalize");
    let restored = SessionRecorder::from_jsonl(&normalized).expect("restore normalized");
    let entries = restored.entries().expect("entries");
    assert_eq!(entries.len(), 5);
}

#[test]
fn normalize_jsonl_with_defaults_is_idempotent() {
    let once = SessionRecorder::normalize_jsonl(NOISY_FIXTURE, NormalizeOptions::default())
        .expect("first normalize");
    let twice = SessionRecorder::normalize_jsonl(&once, NormalizeOptions::default())
        .expect("second normalize");
    assert_eq!(once, twice);
}

#[test]
fn jsonl_roundtrip_preserves_escaped_text() {
    let mut recorder = SessionRecorder::new(SessionRecordLevel::Full);
    recorder
        .record_event(SessionEvent::RawChunk {
            data: "line one\nline \"two\"\t\\backslash\r".to_string(),
        })
        .expect("record raw");
    let jsonl = recorder.to_jsonl().expect("encode");
    let restored = SessionRecorder::from_jsonl(&jsonl).expect("decode");
    let entries = restored.entries().expect("entries");
    assert_eq!(entries.len(), 1);
    match &entries[0].event {
        SessionEvent::RawChunk { data } => {
            assert_eq!(data, "line one\nline \"two\"\t\\backslash\r");
        }
        other => panic!("unexpected event: {other:?}"),
    }
}

#[test]
fn jsonl_roundtrip_keeps_transaction_events() {
    let mut recorder = SessionRecorder::new(SessionRecordLevel::Full);
    recorder
        .record_event(SessionEvent::TxBlockStarted {
            block_name: "blk".to_string(),
            block_kind: rneter::transaction::CommandBlockKind::Config,
        })
        .expect("record");
    recorder
        .record_event(SessionEvent::TxRollbackStepFailed {
            block_name: "blk".to_string(),
            step_index: Some(1),
            mode: "Config".to_string(),
            command: "undo x".to_string(),
            reason: "nope".to_string(),
        })
        .expect("record");
    let jsonl = recorder.to_jsonl().expect("encode");
    let restored = SessionRecorder::from_jsonl(&jsonl).expect("decode");
    let entries = restored.entries().expect("entries");
    assert_eq!(entries.len(), 2);
    assert!(matches!(
        entries[0].event,
        SessionEvent::TxBlockStarted { .. }
    ));
    match &entries[1].event {
        SessionEvent::TxRollbackStepFailed {
            step_index, reason, ..
        } => {
            assert_eq!(*step_index, Some(1));
            assert_eq!(reason, "nope");
        }
        other => panic!("unexpected event: {other:?}"),
    }
}

#[test]
fn from_jsonl_rejects_garbage_lines() {
    let err = match SessionRecorder::from_jsonl("this is not json") {
        Ok(_) => panic!("garbage should fail"),
        Err(e) => e,
    };
    assert!(matches!(err, ConnectError::InternalServerError(_)));
}

#[test]
fn decoder_ignores_unknown_event_fields() {
    let line = r#"{"ts_ms":1,"event":{"kind":"state_changed","state":"enable","extra_field":42}}"#;
    let restored = SessionRecorder::from_jsonl(line).expect("decode");
    let entries = restored.entries().expect("entries");
    assert_eq!(entries.len(), 1);
    assert!(matches!(entries[0].event, SessionEvent::StateChanged { .. }));
}
