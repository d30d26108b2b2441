use codex_console::content::{
    extract_message_content, extract_reasoning_summary, format_command_title, join_stdout_stderr,
};
use codex_console::json::{Json, JsonObject};
use codex_console::json_text::{parse_json, stringify_map, write_indented};
use codex_console::timeline::{parse_timeline_from_file, to_timeline_event, CodexTimelineEvent};

fn payload(text: &str) -> JsonObject {
    match parse_json(text).unwrap() {
        Json::Object(object) => object,
        other => panic!("no object: {:?}", other),
    }
}

fn event(payload_text: &str) -> CodexTimelineEvent {
    let line = format!("{{\"type\":\"t\",\"payload\":{}}}", payload_text);
    to_timeline_event(3, &parse_json(&line).unwrap())
}

fn shown(e: &CodexTimelineEvent) -> (&str, &str, &str) {
    (e.kind.as_str(), e.role.as_str(), e.title.as_str())
}

#[test]
fn unknown_lines_show_themselves() {
    let row = parse_json("{\"type\":\"x\",\"timestamp\":\"2024-01-02T03:04:05+01:00\"}").unwrap();
    let event = to_timeline_event(7, &row);
    assert_eq!(event.id, "line-7");
    assert_eq!(event.timestamp, "2024-01-02T02:04:05+00:00");
    assert_eq!(event.kind, "unknown");
    assert_eq!(event.role, "x");
    assert_eq!(event.title, "x");
    assert_eq!(event.body, event.raw);
    assert_eq!(event.raw, write_indented(&row));
    assert_eq!(event.call_id, "");
    assert_eq!(event.status, "");
}

#[test]
fn unknown_payloads_are_titled_by_their_type() {
    let e = event("{\"type\":\"mystery\"}");
    assert_eq!(shown(&e), ("unknown", "t", "mystery"));
    assert_eq!(e.summary, "{ \"payload\": { \"type\": \"mystery\" }, \"type\": \"t\" }");
    let none = to_timeline_event(0, &parse_json("[1]").unwrap());
    assert_eq!(shown(&none), ("unknown", "", ""));
    assert_eq!(none.timestamp, "");
    assert_eq!(none.summary, "[ 1 ]");
}

#[test]
fn timelines_skip_blank_lines() {
    let lines = vec![
        Ok("  ".to_string()),
        Ok("nonsense".to_string()),
        Err("gone".to_string()),
        Ok("{\"payload\":{\"type\":\"error\",\"message\":\"m\"}}".to_string()),
    ];
    let (events, warnings) = parse_timeline_from_file(&lines);
    assert_eq!(events.len(), 1);
    assert_eq!(events[0].id, "line-3");
    assert_eq!(warnings.len(), 2);
    assert_eq!(warnings[0], "Line 2 is invalid JSON: expected ident at line 1 column 2");
    assert_eq!(warnings[1], "Line 3 could not be read: gone");
}

#[test]
fn events_stand_in_the_order_of_their_lines() {
    let lines = vec![Ok("1".to_string()), Ok("".to_string()), Ok(" 2 ".to_string())];
    let (events, warnings) = parse_timeline_from_file(&lines);
    let ids: Vec<&str> = events.iter().map(|e| e.id.as_str()).collect();
    assert_eq!(ids, vec!["line-0", "line-2"]);
    assert_eq!(events[1].raw, "2");
    assert!(warnings.is_empty());
}

#[test]
fn summaries_of_events_are_cut() {
    let text = "w ".repeat(200);
    let e = event(&format!("{{\"type\":\"user_message\",\"message\":\"{}\"}}", text));
    assert_eq!(e.summary, format!("{}...", "w ".repeat(90)));
    assert_eq!(e.body, text);
}

#[test]
fn heads_of_sessions_are_shown() {
    let e = event("{\"type\":\"session_meta\",\"cwd\":\"/w\",\"model_provider\":\"p\"}");
    assert_eq!(shown(&e), ("session_meta", "system", "Session Meta"));
    assert_eq!(e.summary, "cwd: /w | provider: p");
    assert_eq!(
        e.body,
        "{\n  \"cwd\": \"/w\",\n  \"model_provider\": \"p\",\n  \"type\": \"session_meta\"\n}"
    );
}

#[test]
fn contexts_of_turns_are_shown() {
    let e = event("{\"type\":\"turn_context\",\"summary\":\"auto\"}");
    assert_eq!(shown(&e), ("turn_context", "system", "Turn Context"));
    assert_eq!(e.summary, "auto");
    let none = event("{\"type\":\"turn_context\",\"summary\":null}");
    assert_eq!(none.summary, "{ \"summary\": null, \"type\": \"turn_context\" }");
}

#[test]
fn messages_are_shown_by_the_role_of_their_author() {
    let text = |role: &str| {
        format!(
            "{{\"type\":\"message\",\"role\":\"{}\",\"content\":[{{\"type\":\"text\",\"text\":\" hi \"}}]}}",
            role
        )
    };
    assert_eq!(shown(&event(&text("user"))), ("user_message", "user", "User"));
    assert_eq!(shown(&event(&text("assistant"))), ("assistant_message", "assistant", "Assistant"));
    assert_eq!(shown(&event(&text("developer"))), ("developer_message", "developer", "Developer"));
    assert_eq!(shown(&event(&text("other"))), ("unknown", "other", "Message"));
    assert_eq!(event(&text("user")).body, "hi");
    let empty = event("{\"type\":\"message\",\"role\":\"user\"}");
    assert_eq!(empty.summary, "");
    assert_eq!(empty.body, "{\n  \"role\": \"user\",\n  \"type\": \"message\"\n}");
}

#[test]
fn messages_of_users_and_agents_are_shown() {
    let user = event("{\"type\":\"user_message\",\"message\":\" hello \"}");
    assert_eq!(shown(&user), ("user_message", "user", "User"));
    assert_eq!((user.summary.as_str(), user.body.as_str()), ("hello", " hello "));
    let blank = event("{\"type\":\"user_message\",\"message\":\" \"}");
    assert_eq!(blank.body, "{\n  \"message\": \" \",\n  \"type\": \"user_message\"\n}");
    let agent = event("{\"type\":\"agent_message\",\"message\":\" \",\"phase\":\"final\"}");
    assert_eq!(shown(&agent), ("assistant_message", "assistant", "Assistant"));
    assert_eq!((agent.body.as_str(), agent.status.as_str()), (" ", "final"));
}

#[test]
fn reasoning_is_shown() {
    let e = event("{\"type\":\"reasoning\",\"summary\":[\"a\",\" \",{\"b\":1}]}");
    assert_eq!(shown(&e), ("reasoning", "assistant", "Reasoning"));
    assert_eq!(e.body, "a\n{\n  \"b\": 1\n}");
    let none = event("{\"type\":\"reasoning\"}");
    assert_eq!(none.summary, "");
    assert_eq!(none.body, "{\n  \"type\": \"reasoning\"\n}");
}

#[test]
fn calls_of_tools_are_shown() {
    let call = event(
        "{\"type\":\"function_call\",\"name\":\"shell\",\"arguments\":\"{}\",\"call_id\":\"c1\"}",
    );
    assert_eq!(shown(&call), ("function_call", "tool", "shell"));
    assert_eq!((call.body.as_str(), call.call_id.as_str()), ("{}", "c1"));
    assert_eq!(event("{\"type\":\"function_call\"}").title, "Tool");
    let output = event("{\"type\":\"function_call_output\",\"output\":[1],\"call_id\":\"c1\"}");
    assert_eq!(shown(&output), ("function_call_output", "tool", "Tool Output"));
    assert_eq!((output.body.as_str(), output.call_id.as_str()), ("[\n  1\n]", "c1"));
}

#[test]
fn commands_are_shown() {
    let e = event(
        "{\"type\":\"exec_command_end\",\"command\":[\"ls\",\" -l \"],\"aggregated_output\":\" \",\
         \"stdout\":\" out \",\"stderr\":\"err\",\"exit_code\":0,\"call_id\":\"c\"}",
    );
    assert_eq!(shown(&e), ("exec_command", "tool", "ls -l"));
    assert_eq!(e.body, "out\n\nerr");
    assert_eq!(e.summary, "out err");
    assert_eq!((e.call_id.as_str(), e.status.as_str()), ("c", "0"));
    let formatted = event(
        "{\"type\":\"exec_command_end\",\"formatted_output\":\" f \",\"status\":\"done\",\"exit_code\":1}",
    );
    assert_eq!((formatted.body.as_str(), formatted.status.as_str()), ("f", "done"));
    assert_eq!(formatted.title, "Command");
}

#[test]
fn patches_are_shown() {
    let e = event(
        "{\"type\":\"patch_apply_end\",\"stdout\":\"ok\\n\",\"stderr\":\" \",\"changes\":{\"f\":1},\
         \"success\":true}",
    );
    assert_eq!(shown(&e), ("patch", "tool", "Patch Apply"));
    assert_eq!(e.body, "ok\n\n{\n  \"f\": 1\n}");
    assert_eq!(e.status, "true");
}

#[test]
fn searches_of_the_web_are_shown() {
    for kind in ["web_search_call", "web_search_end"] {
        let e = event(&format!(
            "{{\"type\":\"{}\",\"query\":\"q\",\"action\":\"go\",\"status\":\"s\",\"call_id\":\"c\"}}",
            kind
        ));
        assert_eq!(shown(&e), ("web_search", "tool", "Web Search"));
        assert_eq!((e.summary.as_str(), e.body.as_str()), ("q", "go"));
        assert_eq!((e.call_id.as_str(), e.status.as_str()), ("c", "s"));
    }
    let action = event("{\"type\":\"web_search_call\",\"action\":\"go\"}");
    assert_eq!(action.summary, "go");
    let none = event("{\"type\":\"web_search_call\",\"query\":\"q\"}");
    assert_eq!(none.body, "{\n  \"query\": \"q\",\n  \"type\": \"web_search_call\"\n}");
}

#[test]
fn custom_tools_are_shown() {
    let call = event(
        "{\"type\":\"custom_tool_call\",\"name\":\"n\",\"input\":\"in\",\"status\":\"s\",\"call_id\":\"c\"}",
    );
    assert_eq!(shown(&call), ("custom_tool", "tool", "n"));
    assert_eq!((call.body.as_str(), call.status.as_str()), ("in", "s"));
    assert_eq!(event("{\"type\":\"custom_tool_call\"}").title, "Custom Tool");
    let output = event("{\"type\":\"custom_tool_call_output\",\"output\":\"o\",\"status\":\"s\"}");
    assert_eq!(shown(&output), ("custom_tool", "tool", "Custom Tool Output"));
    assert_eq!((output.body.as_str(), output.status.as_str()), ("o", ""));
}

#[test]
fn images_and_counts_are_shown() {
    let image = event("{\"type\":\"view_image_tool_call\",\"path\":\"/a b\",\"call_id\":\"c\"}");
    assert_eq!(shown(&image), ("image", "tool", "View Image"));
    assert_eq!((image.body.as_str(), image.call_id.as_str()), ("/a b", "c"));
    let count = event("{\"type\":\"token_count\",\"info\":{\"n\":2}}");
    assert_eq!(shown(&count), ("token_count", "system", "Token Count"));
    assert_eq!(count.summary, "{ \"n\": 2 }");
}

#[test]
fn steps_of_tasks_are_shown() {
    for kind in [
        "task_started", "task_complete", "item_completed", "turn_aborted", "thread_rolled_back",
        "context_compacted", "compacted",
    ] {
        let e = event(&format!("{{\"type\":\"{}\",\"reason\":\"r\"}}", kind));
        assert_eq!(shown(&e), ("task", "system", kind));
        assert_eq!(e.status, "r");
        assert_eq!(e.summary, format!("{{ \"reason\": \"r\", \"type\": \"{}\" }}", kind));
    }
}

#[test]
fn errors_are_shown() {
    let e = event("{\"type\":\"error\",\"message\":\"boom\"}");
    assert_eq!(shown(&e), ("error", "system", "Error"));
    assert_eq!((e.summary.as_str(), e.status.as_str()), ("boom", "error"));
    assert_eq!(event("{\"type\":\"error\"}").summary, "Unknown error");
}

#[test]
fn messages_are_put_together_from_texts() {
    let p = payload(
        "{\"content\":[{\"type\":\"input_text\",\"text\":\" a \"},{\"type\":\"image\",\"text\":\"x\"},\
         7,{\"type\":\"output_text\",\"text\":\" \"},{\"type\":\"output_text\",\"text\":\"b\"}]}",
    );
    assert_eq!(extract_message_content(&p), "a\n\nb");
    assert_eq!(extract_message_content(&payload("{\"content\":\"a\"}")), "");
    assert_eq!(extract_message_content(&payload("{}")), "");
}

#[test]
fn reasoning_says_its_content_or_its_summary() {
    assert_eq!(
        extract_reasoning_summary(&payload("{\"content\":\" c \",\"summary\":\"s\"}")),
        "c"
    );
    assert_eq!(extract_reasoning_summary(&payload("{\"content\":\" \",\"summary\":\" s \"}")), " s ");
    assert_eq!(extract_reasoning_summary(&payload("{\"summary\":[]}")), "[]");
    assert_eq!(extract_reasoning_summary(&payload("{\"summary\":[null]}")), "[\n  null\n]");
    assert_eq!(extract_reasoning_summary(&payload("{\"summary\":null}")), "");
    assert_eq!(extract_reasoning_summary(&payload("{}")), "");
}

#[test]
fn commands_are_titled_by_their_words() {
    assert_eq!(format_command_title(&payload("{}")), "Command");
    assert_eq!(format_command_title(&payload("{\"command\":[\" a \",\"\",3,\"b\"]}")), "a b");
    assert_eq!(format_command_title(&payload("{\"command\":[3]}")), "[ 3 ]");
    assert_eq!(format_command_title(&payload("{\"command\":\"x\\ny\"}")), "x y");
    let long = format!("{{\"command\":\"{}\"}}", "x".repeat(130));
    assert_eq!(format_command_title(&payload(&long)), format!("{}...", "x".repeat(120)));
}

#[test]
fn streams_are_joined() {
    assert_eq!(join_stdout_stderr(&payload("{\"stdout\":\"a\\n\",\"stderr\":\"b\"}")), Some("a\n\nb".to_string()));
    assert_eq!(join_stdout_stderr(&payload("{\"stdout\":\" \",\"stderr\":\"b\"}")), Some("b".to_string()));
    assert_eq!(join_stdout_stderr(&payload("{\"stdout\":\" \"}")), None);
    assert_eq!(stringify_map(&payload("{}")), "{}");
}
