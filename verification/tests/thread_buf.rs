use ticklog::builder::{Backpressure, TicklogError};
use ticklog::ring::RingBuffer;
use ticklog::thread_buf::{
    handoff_for, parse_u64, stable_thread_id, thread_name_for, warm_up, Handoff, MAX_THREAD_NAME_LEN,
};

#[test]
fn stable_thread_id_parses_the_debug_text() {
    assert_eq!(stable_thread_id(b"ThreadId(2)"), 2);
    assert_eq!(stable_thread_id(b"ThreadId(18446744073709551615)"), u64::MAX);
    assert_eq!(stable_thread_id(b"ThreadId(18446744073709551616)"), 0);
    assert_eq!(stable_thread_id(b"ThreadId()"), 0);
    assert_eq!(stable_thread_id(b"Thread(2)"), 0);
    assert_eq!(stable_thread_id(b"ThreadId(2"), 0);
}

#[test]
fn parse_u64_agrees_with_std() {
    for s in ["0", "+7", "42", "007", "", "+", "-1", "1a", "18446744073709551615", "18446744073709551616"] {
        assert_eq!(parse_u64(s.as_bytes()), s.parse::<u64>().ok(), "input {s:?}");
    }
}

#[test]
fn set_thread_info_is_visible_to_the_drain() {
    let mut ring = RingBuffer::new();
    ring.set_thread_info(37, "producer-37");
    assert_eq!(ring.thread_id(), 37);
    assert_eq!(ring.thread_name(), "producer-37");
    ring.set_thread_info(38, "producer-38");
    assert_eq!(ring.thread_id(), 38);
    assert_eq!(ring.thread_name(), "producer-38");
}

#[test]
fn thread_name_truncation_respects_utf8_boundary() {
    let mut name = "a".repeat(255);
    name.push('é');
    assert_eq!(name.len(), 257);
    let shown = thread_name_for(Some(&name));
    assert!(shown.len() <= MAX_THREAD_NAME_LEN, "truncated name too long: {}", shown.len());
    assert_eq!(shown, "a".repeat(255));
}

#[test]
fn short_and_missing_names() {
    assert_eq!(thread_name_for(Some("worker")), "worker");
    assert_eq!(thread_name_for(None), "<unnamed>");
    let exact = "b".repeat(256);
    assert_eq!(thread_name_for(Some(&exact)), exact);
}

#[test]
fn warm_up_requires_configuration() {
    assert_eq!(warm_up(false), Err(TicklogError::NotInitialized));
    assert_eq!(warm_up(true), Ok(()));
    assert_eq!(warm_up(true), Ok(()));
}

#[test]
fn handoff_follows_the_policy() {
    assert_eq!(handoff_for(Backpressure::NanoLog, true), Some(Handoff::TakeSpare));
    assert_eq!(handoff_for(Backpressure::NanoLog, false), Some(Handoff::HelpThenWait));
    assert_eq!(handoff_for(Backpressure::Quill, false), Some(Handoff::AllocFresh));
    assert_eq!(handoff_for(Backpressure::Drop, true), None);
    assert_eq!(handoff_for(Backpressure::Block, false), None);
}
