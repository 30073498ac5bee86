use openhands_core::agent::{AgentLoop, ChatTurn, Event, MessageEvent, StepDecision, ToolCall, MAX_ITERATIONS};
use openhands_core::bash::{
    combined_output, event_file_name, search_events, terminal_output, BashCommand, BashEvent, BashOutput,
    ExecuteBashRequest, ProcessOutcome, Timestamp,
};
use openhands_core::editor::{
    insert_text, replace_error_message, str_replace, view_file, EditHistory, ReplaceError,
};
use openhands_core::file_ops::{read_file_view, run_glob, run_grep, GlobArgs, GlobOutcome, GrepArgs, GrepOutcome, ReadFileArgs};
use openhands_core::line_editor::FileEditorTool;
use openhands_core::render::make_output;
use openhands_core::runtime::{container_name, container_port, find_tool, remote_route, RemoteRoute};
use openhands_core::tasks::{render_tasks, task_tracker_step, TaskItem};
use openhands_core::unified::{ApplyPatchTool, Hunk};

fn ts(second: u32) -> Timestamp {
    Timestamp { year: 2024, month: 1, day: 2, hour: 3, minute: 4, second, nanos: 0 }
}

fn task(title: &str, notes: &str, status: &str) -> TaskItem {
    TaskItem { title: title.to_string(), notes: notes.to_string(), status: status.to_string() }
}

#[test]
fn test_task_tracker_plan_and_view() {
    let new_tasks = vec![task("Task 1", "Notes 1", "todo"), task("Task 2", "Notes 2", "done")];
    let plan = task_tracker_step("plan", Some(new_tasks), Vec::new()).unwrap();
    assert!(plan.save);
    let result_plan = render_tasks(&plan.tasks);
    assert!(result_plan.contains("[ ] 1. Task 1"));
    assert!(result_plan.contains("[x] 2. Task 2"));
    let view = task_tracker_step("view", None, plan.tasks.clone()).unwrap();
    assert!(!view.save);
    let result_view = render_tasks(&view.tasks);
    assert_eq!(result_plan, result_view);
}

#[test]
fn test_task_tracker_unknown_command_returns_ok() {
    let err = task_tracker_step("unknown", None, Vec::new()).unwrap_err();
    assert!(err.contains("Error: Unknown command"));
}

#[test]
fn task_tracker_renders_exact_checklist() {
    let tasks = vec![task("Task 1", "Notes 1", "todo"), task("Task 2", "Notes 2", "done")];
    assert_eq!(render_tasks(&tasks), "[ ] 1. Task 1 - Notes 1\n[x] 2. Task 2 - Notes 2\n");
    assert_eq!(render_tasks(&vec![task("a", "b", "in_progress")]), "[/] 1. a - b\n");
    assert_eq!(render_tasks(&Vec::new()), "No tasks in the list.");
}

#[test]
fn glob_test_glob_no_matches() {
    let args = GlobArgs { pattern: "*.rs".to_string(), path: None };
    let result = run_glob(&args, "/tmp/x", &GlobOutcome::Matches(Vec::new()));
    assert!(result.contains("No files found"));
}

#[test]
fn glob_report_lists_matches() {
    let args = GlobArgs { pattern: "*.txt".to_string(), path: None };
    let result = run_glob(&args, "/d", &GlobOutcome::Matches(vec!["/d/test.txt".to_string()]));
    assert_eq!(result, "Found 1 file(s) matching pattern '*.txt' in '/d':\n/d/test.txt");
    assert_eq!(run_glob(&args, "/d", &GlobOutcome::NotADirectory), "Path '/d' is not a valid directory");
}

#[test]
fn test_grep_invalid_regex_returns_ok() {
    let args = GrepArgs { pattern: "[".to_string(), path: None, filter: None };
    let result = run_grep(&args, "/d", &GrepOutcome::InvalidRegex("unclosed".to_string()));
    assert!(result.contains("Error: Invalid regex pattern"));
}

#[test]
fn grep_report_notes_filter() {
    let args = GrepArgs { pattern: "match".to_string(), path: None, filter: Some("*.rs".to_string()) };
    let result = run_grep(&args, "/d", &GrepOutcome::Matches(vec!["/d/test.rs".to_string()]));
    assert_eq!(result, "Found 1 file(s) containing pattern 'match' in '/d' (filtered by '*.rs'):\n/d/test.rs");
    let none = run_grep(&args, "/d", &GrepOutcome::Matches(Vec::new()));
    assert_eq!(none, "No files found containing pattern 'match' in directory '/d' (filtered by '*.rs')");
}

#[test]
fn filter_glob_becomes_anchored_regex() {
    assert_eq!(openhands_core::file_ops::filter_to_regex("*.{ts,tsx}"), "^.*\\.(ts|tsx)$");
}

#[test]
fn read_file_pages_and_numbers_lines() {
    let args = ReadFileArgs { path: "test.txt".to_string(), offset: Some(1), limit: Some(2) };
    let result = read_file_view(&args, "/w/test.txt", "line1\nline2\nline3\nline4\n");
    assert!(result.contains("Read file:"));
    assert!(result.contains("showing lines 2-3 of 4"));
    assert!(result.contains("     2\tline2"));
    assert!(result.contains("     3\tline3"));
    assert!(!result.contains("line1"));
}

#[test]
fn read_file_offset_past_end_is_an_error() {
    let args = ReadFileArgs { path: "test.txt".to_string(), offset: Some(100), limit: None };
    let result = read_file_view(&args, "/w/test.txt", "line1\nline2\n");
    assert_eq!(result, "Error: Offset 100 is beyond file length (2 lines). Use a smaller offset.");
}

#[test]
fn cat_output_pads_line_numbers() {
    assert_eq!(make_output("a\nb", "f", 9), "Here's the result of running `cat -n` on f:\n     9\ta\n    10\tb\n");
}

#[test]
fn str_replace_ambiguity_leaves_file_unchanged() {
    let err = str_replace("hello hello hello", "hello", "world").unwrap_err();
    assert_eq!(err, ReplaceError::Multiple(vec![1, 1, 1]));
    let msg = replace_error_message(&err, "hello", "test.txt");
    assert!(msg.contains("Error:"));
    assert!(msg.contains("Multiple occurrences"));
    assert!(msg.contains("in lines [1, 1, 1]"));
}

#[test]
fn str_replace_unique_occurrence() {
    let done = str_replace("hello world", "world", "rust").unwrap();
    assert_eq!(done.new_content, "hello rust");
    assert_eq!(done.line, 1);
    let done = str_replace("a\nb\nc", "c", "d").unwrap();
    assert_eq!(done.new_content, "a\nb\nd");
    assert_eq!(done.line, 3);
}

#[test]
fn str_replace_not_found_and_identical() {
    assert_eq!(str_replace("hello world", "nonexistent", "x").unwrap_err(), ReplaceError::NotFound);
    assert_eq!(str_replace("hello", "hello", "hello").unwrap_err(), ReplaceError::Identical);
    let msg = replace_error_message(&ReplaceError::NotFound, "nonexistent", "t.txt");
    assert!(msg.contains("did not appear verbatim"));
}

#[test]
fn str_replace_counts_non_overlapping() {
    let done = str_replace("aaa", "aa", "b").unwrap();
    assert_eq!(done.new_content, "ba");
}

#[test]
fn undo_restores_previous_content() {
    let mut h = EditHistory::new();
    assert_eq!(h.undo("f.txt"), None);
    h.record("f.txt", "hello world".to_string());
    h.record("g.txt", "other".to_string());
    assert_eq!(h.undo("f.txt"), Some("hello world".to_string()));
    assert_eq!(h.undo("f.txt"), None);
    assert_eq!(h.undo("g.txt"), Some("other".to_string()));
}

#[test]
fn insert_after_counted_lines() {
    assert_eq!(insert_text("a\nb", 1, "x").unwrap(), "a\nx\nb");
    assert_eq!(insert_text("a\nb", 0, "x").unwrap(), "x\na\nb");
    assert_eq!(insert_text("a\nb", 2, "x").unwrap(), "a\nb\nx");
    assert_eq!(
        insert_text("a\nb", 3, "x").unwrap_err(),
        "Error: insert_line 3 should be within the range of allowed values: [0, 2]"
    );
}

#[test]
fn view_file_range_and_errors() {
    let out = view_file("l1\nl2\nl3", "f", &Some(vec![2, 9]));
    assert_eq!(out, "Here's the result of running `cat -n` on f:\n     2\tl2\n     3\tl3\n");
    assert!(view_file("l1", "f", &Some(vec![1])).contains("view_range should be a list of two integers"));
    assert!(view_file("l1", "f", &Some(vec![5, 6])).contains("should be within the range of lines of the file: [1, 1]"));
    assert!(view_file("l1\nl2", "f", &Some(vec![2, 1])).contains("should be greater than or equal to the first element"));
    assert!(view_file("hello world", "f", &None).contains("hello world"));
}

#[test]
fn bash_success_scenario() {
    let out = terminal_output(7, 8, ts(1), ProcessOutcome::Finished {
        code: Some(0),
        stdout: "hello\n".to_string(),
        stderr: String::new(),
    });
    assert_eq!(out.exit_code, Some(0));
    assert_eq!(out.stdout, Some("hello\n".to_string()));
    assert_eq!(out.stderr, None);
    assert_eq!(out.command_id, 7);
}

#[test]
fn bash_timeout_scenario() {
    let out = terminal_output(7, 8, ts(1), ProcessOutcome::TimedOut);
    assert_eq!(out.exit_code, Some(-1));
    assert!(out.stderr.unwrap().contains("timed out"));
}

#[test]
fn bash_spawn_failure_and_missing_code() {
    let out = terminal_output(1, 2, ts(1), ProcessOutcome::SpawnFailed("no shell".to_string()));
    assert_eq!(out.exit_code, Some(-1));
    assert_eq!(out.stderr, Some("Failed to spawn: no shell".to_string()));
    let out = terminal_output(1, 2, ts(1), ProcessOutcome::Finished { code: None, stdout: String::new(), stderr: "x".to_string() });
    assert_eq!(out.exit_code, Some(-1));
    assert_eq!(out.stdout, None);
}

#[test]
fn bash_request_default_timeout() {
    let req = ExecuteBashRequest { command: "ls".to_string(), cwd: None, timeout: None };
    let cmd = BashCommand::from_request(req, 5, ts(0));
    assert_eq!(cmd.timeout, 300);
}

fn output(id: u128, cmd: u128, second: u32) -> BashEvent {
    BashEvent::BashOutput(BashOutput {
        id,
        timestamp: ts(second),
        command_id: cmd,
        order: 0,
        exit_code: Some(0),
        stdout: None,
        stderr: None,
    })
}

fn command(id: u128, second: u32) -> BashEvent {
    BashEvent::BashCommand(BashCommand { id, timestamp: ts(second), command: "x".to_string(), cwd: None, timeout: 5 })
}

#[test]
fn search_filters_by_command_and_sorts() {
    let events = vec![output(11, 1, 5), command(2, 3), command(1, 1), output(12, 2, 4)];
    let page = search_events(events.clone(), Some(1));
    let ids: Vec<u128> = page.items.iter().map(|e| e.id()).collect();
    assert_eq!(ids, vec![1, 11]);
    let all = search_events(events, None);
    let ids: Vec<u128> = all.items.iter().map(|e| e.id()).collect();
    assert_eq!(ids, vec![1, 2, 12, 11]);
    assert!(all.next_page_id.is_none());
}

#[test]
fn event_file_names() {
    let name = event_file_name(&command(0xab, 9));
    assert_eq!(name, "20240102030409_BashCommand_000000000000000000000000000000ab");
    let name = event_file_name(&output(2, 1, 9));
    assert_eq!(
        name,
        "20240102030409_BashOutput_00000000000000000000000000000001_00000000000000000000000000000002"
    );
}

#[test]
fn combined_output_joins_streams() {
    let o = BashOutput {
        id: 1,
        timestamp: ts(0),
        command_id: 1,
        order: 0,
        exit_code: Some(1),
        stdout: Some("out".to_string()),
        stderr: Some("err".to_string()),
    };
    assert_eq!(combined_output(&o), "out\nerr");
}

#[test]
fn agent_loop_stops_after_max_iterations() {
    let history = vec![Event::Message(MessageEvent { source: "user".to_string(), content: "Hello".to_string() })];
    let mut l = AgentLoop::new(&"sys".to_string(), &history);
    assert_eq!(l.messages().len(), 2);
    assert!(matches!(&l.messages()[1], ChatTurn::User(c) if c == "Hello"));
    for _ in 0..MAX_ITERATIONS {
        assert!(l.begin_iteration().is_ok());
        let call = ToolCall { call_id: "c".to_string(), fn_name: "cmd".to_string(), fn_arguments: "{}".to_string() };
        match l.on_completion(String::new(), vec![call]) {
            StepDecision::RunTools(calls) => assert_eq!(calls.len(), 1),
            StepDecision::Finish(_) => panic!("expected tool calls"),
        }
        l.on_tool_result("c".to_string(), Err("boom".to_string()));
    }
    assert_eq!(l.begin_iteration().unwrap_err(), "Max iterations reached");
    assert!(matches!(l.messages().last(), Some(ChatTurn::Tool { content, .. }) if content == "Error: boom"));
}

#[test]
fn agent_loop_finishes_without_tool_calls() {
    let mut l = AgentLoop::new(&"sys".to_string(), &Vec::new());
    l.begin_iteration().unwrap();
    match l.on_completion("done".to_string(), Vec::new()) {
        StepDecision::Finish(m) => {
            assert_eq!(m.source, "agent");
            assert_eq!(m.content, "done");
        }
        StepDecision::RunTools(_) => panic!("expected a final message"),
    }
}

#[test]
fn runtime_routing() {
    let names = vec!["cmd".to_string(), "read_file".to_string()];
    assert_eq!(find_tool(&names, "read_file"), Ok(1));
    assert_eq!(find_tool(&names, "x"), Err("Tool x not found".to_string()));
    assert_eq!(remote_route("cmd"), Ok(RemoteRoute::ExecuteBash));
    assert_eq!(remote_route("write_file"), Ok(RemoteRoute::WriteFile));
    assert_eq!(remote_route("glob"), Err("Tool glob not yet supported via RemoteRuntime API".to_string()));
    assert_eq!(container_port(65535), 3535);
    assert_eq!(container_name(1), "openhands-agent-00000000-0000-0000-0000-000000000001");
}

#[test]
fn line_editor_insert_replace_delete_undo() {
    let mut tool = FileEditorTool::new("/w".to_string());
    tool.load_file("test.txt", "line1\nline3\n".to_string());
    let (msg, text) = tool.insert_operation("test.txt", 2, "line2");
    assert_eq!(text, "line1\nline2\nline3\n");
    assert_eq!(msg, "Inserted 1 line(s) at line 2 in 'test.txt'");
    let (_, text) = tool.replace_operation("test.txt", 2, 2, "new_line2").unwrap();
    assert_eq!(text, "line1\nnew_line2\nline3\n");
    let (_, text) = tool.delete_operation("test.txt", 2, 2).unwrap();
    assert_eq!(text, "line1\nline3\n");
    let view = tool.view_operation("test.txt", Some(1), Some(1)).unwrap();
    assert_eq!(view, "Viewing 'test.txt' (lines 1-1):\n   1 | line1");
    let (_, text) = tool.undo_operation("test.txt").unwrap();
    assert_eq!(text, "line1\nnew_line2\nline3\n");
    assert!(tool.undo_operation("other.txt").is_err());
    assert!(tool.replace_operation("test.txt", 9, 9, "x").is_err());
}

#[test]
fn unified_patch_applies_hunks() {
    let tool = ApplyPatchTool::new("/w".to_string());
    let patch = "*** Begin Patch\n--- a/test.txt\n+++ b/test.txt\n@@ -1,3 +1,3 @@\n line1\n-line2\n+modified_line2\n line3\n*** End Patch";
    let files = tool.parse_patch(patch).unwrap();
    assert_eq!(files.len(), 1);
    let path: String = files[0].new_path.iter().collect();
    assert_eq!(path, "test.txt");
    let text = tool.apply_hunks("line1\nline2\nline3\n", &files[0].hunks).unwrap();
    assert_eq!(text, "line1\nmodified_line2\nline3");
    let added = tool.parse_patch("*** Begin Patch\n--- a/n.txt\n+++ b/n.txt\n@@ -0,0 +1,2 @@\n+line1\n+line2\n*** End Patch").unwrap();
    assert_eq!(tool.apply_hunks("", &added[0].hunks).unwrap(), "line1\nline2");
}

#[test]
fn unified_patch_errors() {
    let tool = ApplyPatchTool::new("/w".to_string());
    assert_eq!(tool.parse_patch("nothing").unwrap_err(), "Patch must start with '*** Begin Patch'");
    assert_eq!(tool.parse_patch("*** Begin Patch\nx\n*** End Patch").unwrap_err(), "No valid patches found in input");
    let mut lines: Vec<Vec<char>> = vec!["a".chars().collect(), "b".chars().collect()];
    let hunk = Hunk { header: "@@ -1,2 @@".chars().collect(), lines: vec!["-x".chars().collect(), "-y".chars().collect()] };
    assert_eq!(tool.apply_hunk(&mut lines, &hunk).unwrap_err(), "Hunk does not match file content (0% match)");
}

#[test]
fn listing_is_sorted_with_header() {
    let entries = vec!["f1.txt (file)".to_string(), "d1 (dir)".to_string()];
    let out = openhands_core::file_ops::list_files_report("/w", entries);
    assert_eq!(out, "Listed directory: /w (2 entries)\nd1 (dir)\nf1.txt (file)");
    assert!(out.contains("f1.txt (file)"));
    assert!(out.contains("d1 (dir)"));
}

#[test]
fn directory_view_hides_dot_entries() {
    let entries = vec![("b.txt".to_string(), false), (".git".to_string(), true), ("a".to_string(), true)];
    let out = openhands_core::file_ops::dir_view_report("/w", &entries);
    assert_eq!(out, "Here's the files and directories in /w, excluding hidden items:\na/\nb.txt");
}

#[test]
fn search_pattern_matches_digits() {
    let p = openhands_core::search::SearchPattern::compile("\\d+").unwrap();
    assert!(p.is_match("abc 123 xyz"));
    assert!(!p.is_match("abc xyz"));
    assert!(openhands_core::search::SearchPattern::compile("[").is_err());
}

#[test]
fn agent_grep_ignores_case_and_filters_names() {
    let p = openhands_core::search::compile_case_insensitive("hello").unwrap();
    assert!(p.is_match("HELLO WORLD"));
    let f = openhands_core::search::SearchPattern::compile(&openhands_core::file_ops::filter_to_regex("*.rs")).unwrap();
    assert!(openhands_core::search::file_matches(&p, Some(&f), "test.rs", "say hello"));
    assert!(!openhands_core::search::file_matches(&p, Some(&f), "test.txt", "say hello"));
    assert!(!openhands_core::search::file_matches(&p, None, "test.rs", "bye"));
    let err = openhands_core::search::compile_case_insensitive("(").unwrap_err();
    assert!(err.starts_with("Invalid regex pattern: "));
}

#[test]
fn server_grep_filters_by_shell_pattern() {
    let p = openhands_core::search::SearchPattern::compile("match").unwrap();
    let f = openhands_core::search::NamePattern::compile("*.rs").unwrap();
    assert!(f.matches("test.rs"));
    assert!(!f.matches("test.txt"));
    assert!(openhands_core::search::server_file_matches(&p, Some(&f), "test.rs", "a match"));
    assert!(!openhands_core::search::server_file_matches(&p, Some(&f), "test.txt", "a match"));
    assert!(openhands_core::search::NamePattern::compile("[").is_err());
}

#[test]
fn remote_output_always_breaks_before_stderr() {
    let mut o = BashOutput { id: 1, timestamp: ts(0), command_id: 1, order: 0, exit_code: Some(1), stdout: None, stderr: Some("bad".to_string()) };
    assert_eq!(openhands_core::bash::remote_output_text(&o), "\nError output:\nbad");
    o.stdout = Some("out".to_string());
    assert_eq!(openhands_core::bash::remote_output_text(&o), "out\nError output:\nbad");
    o.stderr = None;
    assert_eq!(openhands_core::bash::remote_output_text(&o), "out");
}

#[test]
fn read_file_offset_past_empty_file_is_an_error() {
    let args = ReadFileArgs { path: "e.txt".to_string(), offset: Some(1), limit: None };
    assert_eq!(read_file_view(&args, "/w/e.txt", ""), "Error: Offset 1 is beyond file length (0 lines). Use a smaller offset.");
    let args = ReadFileArgs { path: "e.txt".to_string(), offset: None, limit: None };
    assert!(read_file_view(&args, "/w/e.txt", "").starts_with("Read file: /w/e.txt"));
}

#[test]
fn view_keeps_empty_last_line_of_range() {
    let out = view_file("a\n\nb", "f", &Some(vec![1, 2]));
    assert_eq!(out, "Here's the result of running `cat -n` on f:\n     1\ta\n     2\t\n");
}

#[test]
fn search_keeps_load_order_for_equal_times() {
    let events = vec![output(21, 1, 5), command(1, 5), output(22, 1, 5)];
    let page = search_events(events, Some(1));
    let ids: Vec<u128> = page.items.iter().map(|e| e.id()).collect();
    assert_eq!(ids, vec![21, 1, 22]);
}

#[test]
fn newest_first_orders_by_time() {
    let found = vec![("a".to_string(), 1), ("b".to_string(), 3), ("c".to_string(), 3), ("d".to_string(), 2)];
    assert_eq!(openhands_core::file_ops::newest_first(found), vec!["b", "c", "d", "a"]);
    assert!(openhands_core::file_ops::is_hidden_name(".git"));
    assert!(!openhands_core::file_ops::is_hidden_name("src"));
    assert!(openhands_core::file_ops::search_full(100));
    assert!(!openhands_core::file_ops::search_full(99));
}

#[test]
fn str_replace_edit_records_history_only_on_success() {
    let mut h = EditHistory::new();
    let (msg, new) = openhands_core::editor::str_replace_edit(&mut h, "t.txt", "hello hello".to_string(), "hello", "x");
    assert!(new.is_none());
    assert!(msg.contains("Multiple occurrences"));
    assert_eq!(h.undo("t.txt"), None);
    let (msg, new) = openhands_core::editor::str_replace_edit(&mut h, "t.txt", "hello world".to_string(), "world", "rust");
    assert_eq!(new, Some("hello rust".to_string()));
    assert!(msg.contains("     1\thello rust"));
    assert_eq!(h.undo("t.txt"), Some("hello world".to_string()));
}
