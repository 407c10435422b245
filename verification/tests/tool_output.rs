use sophon_sdk::session::notice::ToolEvent;
use sophon_sdk::session::tool_output::{line_count, EditDetail, ToolEditStat, ToolOutput};

fn text(value: &str) -> String {
    serde_json::to_string(value).expect("a text encodes")
}

fn encoded(output: &ToolOutput) -> String {
    match output {
        ToolOutput::EditsApplied(details) => {
            let listed: Vec<String> = details
                .iter()
                .map(|detail| {
                    format!(
                        "{{\"old_string\":{},\"old_line\":1,\"new_string\":{},\"new_line\":1,\"context_before\":{},\"context_after\":{},\"line_prefix\":\"\"}}",
                        text(&detail.old_string),
                        text(&detail.new_string),
                        text(&detail.context_before),
                        text(&detail.context_after),
                    )
                })
                .collect();
            format!(
                "{{\"SearchReplace\":{{\"EditsApplied\":{{\"old_string\":\"\",\"new_string\":\"\",\"absolute_path\":\"/w/src/main.rs\",\"edits\":{{\"details\":[{}]}},\"patch\":null}}}}}}",
                listed.join(",")
            )
        }
        ToolOutput::Bash { output, output_for_prompt } => {
            let bytes: Vec<String> = output.iter().map(|byte| byte.to_string()).collect();
            format!(
                "{{\"Bash\":{{\"output\":[{}],\"output_for_prompt\":{},\"exit_code\":0,\"command\":\"ls\"}}}}",
                bytes.join(","),
                text(output_for_prompt),
            )
        }
        ToolOutput::Text(words) => format!("{{\"Text\":{{\"text\":{}}}}}", text(words)),
    }
}

fn event(output: Option<ToolOutput>) -> ToolEvent {
    ToolEvent {
        id: "call-1".to_string(),
        title: "src/main.rs".to_string(),
        kind: "edit".to_string(),
        status: "completed".to_string(),
        raw_input: None,
        raw_output: output.map(|output| encoded(&output)),
    }
}

fn detail(old: &str, new: &str, context: bool) -> EditDetail {
    EditDetail {
        old_string: old.to_owned(),
        new_string: new.to_owned(),
        context_before: if context { "before\n".to_owned() } else { String::new() },
        context_after: if context { "after\n".to_owned() } else { String::new() },
    }
}

fn edits(details: Vec<EditDetail>) -> ToolOutput {
    ToolOutput::EditsApplied(details)
}

fn bash(output: &str, for_prompt: &str) -> ToolOutput {
    ToolOutput::Bash {
        output: output.as_bytes().to_vec(),
        output_for_prompt: for_prompt.to_owned(),
    }
}

#[test]
fn an_applied_edit_reports_the_lines_each_side_spells() {
    let stat = event(Some(edits(vec![
        detail("one\ntwo\n", "uno\n", false),
        detail("three", "tres\nquatro", false),
    ])))
    .edit_stat()
    .expect("an applied edit carries its details");
    assert_eq!(stat, ToolEditStat { added: 3, removed: 3 });
}

#[test]
fn a_blank_line_going_in_counts_once_and_an_empty_write_counts_never() {
    let inserted = event(Some(edits(vec![detail("", "", true)])))
        .edit_stat()
        .expect("an applied edit carries its details");
    assert_eq!(inserted, ToolEditStat { added: 1, removed: 0 });

    let written_empty = event(Some(edits(vec![detail("", "", false)])))
        .edit_stat()
        .expect("an applied edit carries its details");
    assert!(written_empty.is_empty());
}

#[test]
fn output_this_sdk_cannot_read_is_reported_as_nothing_rather_than_as_zero() {
    assert_eq!(event(None).edit_stat(), None);
    assert_eq!(event(None).output_text(), None);

    let mut unreadable = event(None);
    unreadable.raw_output = Some("{\"ToolTheSdkHasNeverSeen\":{}}".to_owned());
    assert_eq!(unreadable.edit_stat(), None);
    assert_eq!(unreadable.output_text(), None);

    assert_eq!(event(Some(edits(Vec::new()))).edit_stat(), None);
    assert_eq!(event(Some(bash("hi\n", "hi\n"))).edit_stat(), None);
    assert_eq!(
        event(Some(edits(vec![detail("a", "b", false)]))).output_text(),
        None
    );
}

#[test]
fn a_command_answers_with_what_it_printed() {
    assert_eq!(
        event(Some(bash("\u{1b}[31mred\u{1b}[0m\n", "red\n"))).output_text(),
        Some("red\n".to_owned()),
        "the runtime's own rendering is preferred over the raw bytes"
    );
    assert_eq!(
        event(Some(bash("raw\n", ""))).output_text(),
        Some("raw\n".to_owned()),
        "a command the runtime did not pre-render still answers"
    );
    assert_eq!(
        event(Some(bash("", ""))).output_text(),
        None,
        "a command that printed nothing reports nothing"
    );
    assert_eq!(
        event(Some(ToolOutput::Text("3 memories".to_owned()))).output_text(),
        Some("3 memories".to_owned())
    );
}

#[test]
fn lines_are_counted_with_and_without_a_last_break() {
    assert_eq!(line_count(""), 0);
    assert_eq!(line_count("a"), 1);
    assert_eq!(line_count("a\n"), 1);
    assert_eq!(line_count("a\n\nb"), 3);
    assert_eq!(line_count("\n"), 1);
}

#[test]
fn bytes_that_are_no_text_are_shown_with_replacements() {
    let mut raw = event(None);
    raw.raw_output =
        Some("{\"Bash\":{\"output\":[104,255,105],\"output_for_prompt\":\"\"}}".to_owned());
    assert_eq!(raw.output_text(), Some("h\u{fffd}i".to_owned()));
}

#[test]
fn text_that_stays_as_it_was_changes_no_lines() {
    let stat = event(Some(edits(vec![detail("a\n", "a\n", false)])))
        .edit_stat()
        .expect("an applied edit carries its details");
    assert!(stat.is_empty());
    let among = event(Some(edits(vec![
        detail("same", "same", true),
        detail("one", "two\nthree", false),
    ])))
    .edit_stat()
    .expect("an applied edit carries its details");
    assert_eq!(among, ToolEditStat { added: 2, removed: 1 });
}
