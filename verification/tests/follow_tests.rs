use std::collections::HashMap;

use cxdb::client::context::ContextHead;
use cxdb::client::error::Error;
use cxdb::client::follow::{
    decode_turn_appended_event, follow_options, with_follow_buffer, with_max_seen_per_context, FollowError, FollowState,
    FollowTurn, DEFAULT_MAX_SEEN_PER_CONTEXT,
};
use cxdb::client::subscribe::Event;
use cxdb::client::turn::{GetLastOptions, TurnRecord};

#[derive(Default)]
struct StubTurnClient {
    turns: HashMap<u64, Vec<TurnRecord>>,
    heads: HashMap<u64, ContextHead>,
}

impl StubTurnClient {
    fn set_context(&mut self, context_id: u64, turns: Vec<TurnRecord>) {
        let head = match turns.last() {
            Some(t) => ContextHead { context_id, head_turn_id: t.turn_id, head_depth: t.depth },
            None => ContextHead { context_id, head_turn_id: 0, head_depth: 0 },
        };
        self.turns.insert(context_id, turns);
        self.heads.insert(context_id, head);
    }

    fn get_head(&self, context_id: u64) -> Result<ContextHead, Error> {
        self.heads.get(&context_id).cloned().ok_or(Error::ContextNotFound)
    }

    fn get_last(&self, context_id: u64, opts: GetLastOptions) -> Result<Vec<TurnRecord>, Error> {
        let list = self.turns.get(&context_id).ok_or(Error::ContextNotFound)?;
        let limit = if opts.limit == 0 || opts.limit as usize > list.len() { list.len() } else { opts.limit as usize };
        let start = list.len().saturating_sub(limit);
        Ok(list[start..].to_vec())
    }
}

/// Runs one event through the follower's decisions, as the follow loop does.
fn handle(
    ev: &Event,
    client: &StubTurnClient,
    states: &mut HashMap<u64, FollowState>,
    max_seen: usize,
    out: &mut Vec<FollowTurn>,
) -> Result<(), FollowError> {
    if ev.event_type != "turn_appended" {
        return Ok(());
    }
    let event = decode_turn_appended_event(&ev.data)?;
    let state = states.entry(event.context_id).or_insert_with(|| FollowState::new(max_seen));
    let head = client.get_head(event.context_id)?;
    let request = match state.sync_request(event.context_id, &head)? {
        Some(r) => r,
        None => return Ok(()),
    };
    for turn in client.get_last(event.context_id, request)? {
        if state.seen_turn(turn.turn_id) {
            continue;
        }
        out.push(FollowTurn { context_id: event.context_id, turn: turn.clone() });
        state.record_turn(&turn);
    }
    Ok(())
}

fn turn(turn_id: u64, parent_id: u64, depth: u32) -> TurnRecord {
    TurnRecord {
        turn_id,
        parent_id,
        depth,
        type_id: String::new(),
        type_version: 0,
        encoding: 0,
        compression: 0,
        payload_hash: [0; 32],
        payload: Vec::new(),
    }
}

fn make_turn_event(context_id: u64, turn_id: u64, depth: u32) -> Event {
    let payload =
        format!("{{\"context_id\":{context_id},\"turn_id\":{turn_id},\"parent_turn_id\":0,\"depth\":{depth}}}");
    Event { event_type: "turn_appended".to_string(), data: payload.into_bytes(), id: String::new() }
}

#[test]
fn follow_turns_backfill_and_dedupe() {
    let mut client = StubTurnClient::default();
    let context_id = 1;
    client.set_context(context_id, vec![turn(1, 0, 0), turn(2, 1, 1)]);
    let opts = follow_options(&vec![with_follow_buffer(10)]);
    assert_eq!(opts.buffer_size, 10);
    let mut states = HashMap::new();
    let mut out = Vec::new();

    handle(&make_turn_event(context_id, 2, 1), &client, &mut states, opts.max_seen_per_context, &mut out).unwrap();
    client.set_context(context_id, vec![turn(1, 0, 0), turn(2, 1, 1), turn(3, 2, 2)]);
    handle(&make_turn_event(context_id, 3, 2), &client, &mut states, opts.max_seen_per_context, &mut out).unwrap();
    handle(&make_turn_event(context_id, 3, 2), &client, &mut states, opts.max_seen_per_context, &mut out).unwrap();

    let got: Vec<u64> = out.iter().map(|t| t.turn.turn_id).collect();
    assert_eq!(got, vec![1, 2, 3]);
}

#[test]
fn follow_turns_out_of_order() {
    let mut client = StubTurnClient::default();
    let context_id = 2;
    client.set_context(context_id, vec![turn(10, 0, 0), turn(11, 10, 1)]);
    let opts = follow_options(&vec![with_follow_buffer(10)]);
    let mut states = HashMap::new();
    let mut out = Vec::new();

    handle(&make_turn_event(context_id, 11, 1), &client, &mut states, opts.max_seen_per_context, &mut out).unwrap();
    handle(&make_turn_event(context_id, 10, 0), &client, &mut states, opts.max_seen_per_context, &mut out).unwrap();

    let got: Vec<u64> = out.iter().map(|t| t.turn.turn_id).collect();
    assert_eq!(got, vec![10, 11]);
}

#[test]
fn follow_turns_multiple_contexts() {
    let mut client = StubTurnClient::default();
    client.set_context(1, vec![turn(1, 0, 0), turn(2, 1, 1)]);
    client.set_context(2, vec![turn(10, 0, 0)]);
    let opts = follow_options(&vec![with_follow_buffer(10)]);
    let mut states = HashMap::new();
    let mut out = Vec::new();

    handle(&make_turn_event(2, 10, 0), &client, &mut states, opts.max_seen_per_context, &mut out).unwrap();
    handle(&make_turn_event(1, 2, 1), &client, &mut states, opts.max_seen_per_context, &mut out).unwrap();

    assert_eq!(out.len(), 3);
}

#[test]
fn follow_options_later_settings_win() {
    let o = follow_options(&vec![]);
    assert_eq!((o.buffer_size, o.max_seen_per_context), (128, DEFAULT_MAX_SEEN_PER_CONTEXT));
    let o = follow_options(&vec![with_follow_buffer(5), with_max_seen_per_context(3), with_follow_buffer(7)]);
    assert_eq!((o.buffer_size, o.max_seen_per_context), (7, 3));
}

#[test]
fn window_keeps_the_newest_ids() {
    let mut s = FollowState::new(2);
    s.record_turn(&turn(1, 0, 0));
    s.record_turn(&turn(2, 1, 1));
    s.record_turn(&turn(3, 2, 2));
    assert!(!s.seen_turn(1));
    assert!(s.seen_turn(2));
    assert!(s.seen_turn(3));
}

#[test]
fn zero_limit_means_the_default() {
    let mut s = FollowState::new(0);
    for i in 1..=3000u64 {
        s.record_turn(&turn(i, i - 1, (i - 1) as u32));
    }
    assert!(!s.seen_turn(952));
    assert!(s.seen_turn(953));
    assert!(s.seen_turn(3000));
}

#[test]
fn regressed_head_is_an_error() {
    let mut s = FollowState::new(10);
    s.record_turn(&turn(5, 4, 4));
    let head = ContextHead { context_id: 9, head_turn_id: 3, head_depth: 2 };
    match s.sync_request(9, &head) {
        Err(e) => assert_eq!(e.to_display_string(), "follow turns: head depth regressed (context 9)"),
        Ok(_) => panic!("expected an error"),
    }
    let same = ContextHead { context_id: 9, head_turn_id: 5, head_depth: 4 };
    assert!(s.sync_request(9, &same).unwrap().is_none());
    let deeper = ContextHead { context_id: 9, head_turn_id: 7, head_depth: 6 };
    let req = s.sync_request(9, &deeper).unwrap().unwrap();
    assert_eq!((req.limit, req.include_payload), (2, true));
    let fresh = FollowState::new(10);
    assert_eq!(fresh.sync_request(9, &deeper).unwrap().unwrap().limit, 7);
}

#[test]
fn bad_events_are_decode_errors() {
    let text = |data: &[u8]| decode_turn_appended_event(data).unwrap_err().to_display_string();
    assert_eq!(text(b""), "turn_appended: empty payload");
    assert!(text(b"{").starts_with("turn_appended: decode: "));
    assert_eq!(text(br#"{"context_id":0,"turn_id":1,"parent_turn_id":0,"depth":0}"#), "turn_appended: missing context_id");
    assert_eq!(text(br#"{"context_id":1,"turn_id":0,"parent_turn_id":0,"depth":0}"#), "turn_appended: missing turn_id");
    let ok = decode_turn_appended_event(br#"{"context_id":4,"turn_id":5,"parent_turn_id":3,"depth":2}"#).unwrap();
    assert_eq!((ok.context_id, ok.turn_id, ok.depth), (4, 5, 2));
    let e: FollowError = Error::ContextNotFound.into();
    assert_eq!(e.to_display_string(), "cxdb: context not found");
    assert_eq!(FollowError::Cancelled.to_display_string(), "context canceled");
    assert_eq!(FollowError::Timeout.to_display_string(), "context deadline exceeded");
}
