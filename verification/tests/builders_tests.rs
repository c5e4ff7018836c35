use cxdb::client::types::builders::{
    attach_provenance, build_assistant, build_assistant_turn, build_handoff, build_system, build_tool_call,
    build_tool_call_item, build_tool_result, empty_context_metadata, new_system_error, new_system_info,
    new_system_warning, new_user_input,
};
use cxdb::client::types::conversation::{ItemStatusComplete, ItemTypeAssistantTurn, ItemTypeUserInput, Now};
use cxdb::client::types::provenance::Provenance;

#[test]
fn user_input_item() {
    let item = new_user_input("Hello from fixtures", vec!["file.txt".to_string()]);
    assert_eq!(item.item_type, ItemTypeUserInput);
    assert_eq!(item.status, ItemStatusComplete);
    let u = item.user_input.as_ref().unwrap();
    assert_eq!(u.text, "Hello from fixtures");
    assert_eq!(u.files, vec!["file.txt".to_string()]);
    assert!(item.turn.is_none());
    assert!(item.timestamp > 0);
}

#[test]
fn assistant_turn_builder_sets_fields() {
    let mut b = build_assistant_turn("answer");
    b.with_reasoning("because")
        .with_agent("planner")
        .with_turn_number(2, 5)
        .with_finish_reason("stop")
        .with_metrics(10, 20)
        .with_status("streaming")
        .with_id("t-1")
        .with_client_tag("tag");
    b.with_tool_call(build_tool_call_item("c1", "ls", "{}").build());
    let item = b.build();
    assert_eq!(item.item_type, ItemTypeAssistantTurn);
    assert_eq!(item.status, "streaming");
    assert_eq!(item.id, "t-1");
    let t = item.turn.unwrap();
    assert_eq!(t.text, "answer");
    assert_eq!(t.reasoning, "because");
    assert_eq!(t.agent, "planner");
    assert_eq!((t.turn_number, t.max_turns), (2, 5));
    assert_eq!(t.finish_reason, "stop");
    let m = t.metrics.unwrap();
    assert_eq!(m.total_tokens, 30);
    assert_eq!(t.tool_calls.len(), 1);
    assert_eq!(t.tool_calls[0].status, "pending");
    assert_eq!(item.context_metadata.unwrap().client_tag, "tag");
}

#[test]
fn tool_call_item_builder_result_and_error() {
    let mut b = build_tool_call_item("c1", "run", "{}");
    b.with_description("runs").with_streaming_output("out", true).with_duration(9);
    b.with_result("ok", Some(0));
    let t = b.build();
    assert_eq!(t.status, "complete");
    assert_eq!(t.description, "runs");
    assert!(t.streaming_output_truncated);
    assert_eq!(t.duration_ms, 9);
    let r = t.result.unwrap();
    assert!(r.success);
    assert_eq!(r.exit_code, Some(0));
    let mut e = build_tool_call_item("c2", "run", "{}");
    e.with_error("boom", Some(2));
    let t = e.build();
    assert_eq!(t.status, "error");
    assert_eq!(t.error.unwrap().message, "boom");
}

#[test]
fn other_builders() {
    let mut h = build_handoff("a", "b");
    h.with_tool_name("tool").with_input("in").with_reason("why").with_id("h1");
    let item = h.build();
    let info = item.handoff.unwrap();
    assert_eq!((info.from_agent.as_str(), info.to_agent.as_str()), ("a", "b"));
    assert_eq!((info.tool_name.as_str(), info.input.as_str(), info.reason.as_str()), ("tool", "in", "why"));

    let mut s = build_system("guardrail", "blocked");
    s.with_title("Note").with_id("s1");
    let item = s.build();
    assert_eq!(item.system.unwrap().title, "Note");
    assert_eq!(new_system_info("i").system.unwrap().kind, "info");
    assert_eq!(new_system_warning("w").system.unwrap().kind, "warning");
    assert_eq!(new_system_error("e").system.unwrap().kind, "error");

    let mut a = build_assistant("hi");
    a.with_reasoning("r").with_model("m").with_tokens(1, 2).with_stop_reason("end").with_status("done");
    let item = a.build();
    assert_eq!(item.status, "done");
    let asst = item.assistant.unwrap();
    assert_eq!((asst.input_tokens, asst.output_tokens), (1, 2));
    assert_eq!(asst.model, "m");

    let mut c = build_tool_call("id", "n", "{}");
    c.with_description("d").with_status("complete");
    let item = c.build();
    assert_eq!(item.status, "complete");
    assert_eq!(item.tool_call.unwrap().description, "d");

    let mut r = build_tool_result("id", "content");
    r.with_error().with_exit_code(3).with_streaming_output("so").with_truncated().with_duration(4);
    let item = r.build();
    let tr = item.tool_result.unwrap();
    assert!(tr.is_error && tr.output_truncated);
    assert_eq!(tr.exit_code, Some(3));
    assert_eq!(tr.duration_ms, 4);
}

#[test]
fn metadata_and_provenance() {
    let mut item = new_user_input("x", vec![]);
    item.with_client_tag("first");
    item.with_client_tag("second");
    let meta = item.context_metadata.as_ref().unwrap();
    assert_eq!(meta.client_tag, "second");
    let mut m = empty_context_metadata();
    attach_provenance(&mut m, Provenance::default());
    assert!(m.provenance.is_some());
    assert!(Now() > 1_600_000_000_000);
}
