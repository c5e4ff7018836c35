use cxdb::client::cli::{
    check_config, event_line, next_value, parse_args, stop_if_done, turn_decode_problem, turn_line, ConsumeState,
    ParsedArgs, Poll, RoundAction,
};
use cxdb::client::json::parse_json;
use cxdb::client::turn::TurnRecord;

fn args(v: &[&str]) -> Vec<String> {
    v.iter().map(|s| s.to_string()).collect()
}

#[test]
fn parse_args_reads_flags() {
    let r = parse_args(&args(&[
        "--cxdb-events-url", "http://x/events", "--follow-turns", "--tls", "--cxdb-bin-addr", "h:9", "--client-tag",
        "tag", "--max-events", "3", "--max-turns", "4", "--max-errors", "5",
    ]))
    .unwrap();
    match r {
        ParsedArgs::Run(c) => {
            assert_eq!(c.events_url, "http://x/events");
            assert_eq!(c.bin_addr, "h:9");
            assert!(c.follow_turns && c.use_tls);
            assert_eq!(c.client_tag, "tag");
            assert_eq!((c.max_events, c.max_turns, c.max_errors), (3, 4, 5));
            assert!(check_config(&c).is_none());
        }
        ParsedArgs::Help => panic!("unexpected help"),
    }
}

#[test]
fn parse_args_errors_and_help() {
    assert!(matches!(parse_args(&args(&["-h"])), Ok(ParsedArgs::Help)));
    assert!(matches!(parse_args(&args(&["--tls", "--help"])), Ok(ParsedArgs::Help)));
    assert_eq!(parse_args(&args(&["--bogus"])).unwrap_err(), "unknown argument: --bogus");
    assert_eq!(parse_args(&args(&["--client-tag"])).unwrap_err(), "missing value for --client-tag");
    assert_eq!(parse_args(&args(&["--max-turns", "x"])).unwrap_err(), "invalid --max-turns value");
    assert_eq!(next_value(&args(&["a"]), 1, "--f").unwrap_err(), "missing value for --f");
    assert_eq!(next_value(&args(&["a"]), 0, "--f").unwrap(), "a");
}

#[test]
fn config_checks() {
    let r = parse_args(&args(&[])).unwrap();
    match r {
        ParsedArgs::Run(c) => assert_eq!(check_config(&c).unwrap(), "--cxdb-events-url is required"),
        ParsedArgs::Help => panic!(),
    }
    let r = parse_args(&args(&["--cxdb-events-url", "u", "--follow-turns"])).unwrap();
    match r {
        ParsedArgs::Run(c) => {
            assert_eq!(check_config(&c).unwrap(), "--cxdb-bin-addr is required when --follow-turns is set")
        }
        ParsedArgs::Help => panic!(),
    }
}

#[test]
fn stop_rules() {
    assert!(stop_if_done(0, 0, 2, 0, 0, 2));
    assert!(!stop_if_done(5, 5, 5, 0, 0, 0));
    assert!(stop_if_done(3, 0, 0, 3, 0, 0));
    assert!(!stop_if_done(3, 1, 0, 3, 2, 0));
    assert!(stop_if_done(3, 2, 0, 3, 2, 0));
}

#[test]
fn consume_rounds() {
    let mut s = ConsumeState::new(false);
    assert!(!s.turns_open && s.events_open);
    assert_eq!(s.round(Poll::Item, Poll::Empty, Poll::Item, Poll::Item, 2, 0, 0), RoundAction::Continue);
    assert_eq!(s.event_count, 1);
    assert_eq!(s.turn_count, 0);
    assert_eq!(s.round(Poll::Empty, Poll::Empty, Poll::Empty, Poll::Empty, 2, 0, 0), RoundAction::Sleep);
    assert_eq!(s.round(Poll::Item, Poll::Closed, Poll::Empty, Poll::Empty, 2, 0, 0), RoundAction::Cancel);
    assert!(!s.errs_open);
    let mut s = ConsumeState::new(true);
    s.round(Poll::Closed, Poll::Closed, Poll::Closed, Poll::Closed, 0, 0, 0);
    assert!(s.finished());
}

#[test]
fn output_lines() {
    let data = parse_json(br#"{"b":[1,-2,true,null],"a":"x"}"#).unwrap();
    assert_eq!(
        event_line("turn_appended", &data),
        r#"{"data":{"a":"x","b":[1,-2,true,null]},"kind":"event","type":"turn_appended"}"#
    );
    let turn = TurnRecord {
        turn_id: 9,
        parent_id: 8,
        depth: 3,
        type_id: "cxdb.ConversationItem".to_string(),
        type_version: 3,
        encoding: 1,
        compression: 0,
        payload_hash: [0u8; 32],
        payload: vec![],
    };
    assert_eq!(
        turn_line(7, &turn, None, Some(r#"{"1":"user_input"}"#)),
        r#"{"context_id":7,"declared_type_id":"cxdb.ConversationItem","declared_type_version":3,"depth":3,"item":{"1":"user_input"},"kind":"turn","turn_id":9}"#
    );
    assert_eq!(turn_decode_problem(2, 0), Some("unsupported encoding"));
    assert_eq!(turn_decode_problem(1, 1), Some("unsupported compression"));
    assert_eq!(turn_decode_problem(1, 0), None);
}
