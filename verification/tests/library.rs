use rusty_shell::command::{
    command_not_found, execute, execute_type, is_builtin, is_executable_file, reap_completed_jobs, Answer,
    Builtin, ChangeResult, CommandOutcome, Execution, Request, Shell,
};
use rusty_shell::expansion::{expand_arguments, expand_word};
use rusty_shell::history::{parse_count, History};
use rusty_shell::jobs::{display_command, exited_normally, marker_for, ExitReport, JobStatus, JobTable};
use rusty_shell::parser::{parse_command_line, ParsedCommand, LITERAL_DOLLAR};
use rusty_shell::repl::{completion_candidates, completion_display, completion_prefix};
use rusty_shell::shell::{job_started_line, write_prompt};
use rusty_shell::text::decimal_string;
use rusty_shell::variables::{declare, Variables};

fn strings(words: &[&str]) -> Vec<String> {
    words.iter().map(|w| w.to_string()).collect()
}

fn arguments(parsed: &ParsedCommand, stage: usize) -> Vec<String> {
    parsed.stages[stage].arguments.clone()
}

#[test]
fn parser_splits_pipeline_stages() {
    let parsed = parse_command_line("cat file | head -n 3 | wc\n");
    assert_eq!(parsed.stages.len(), 3);
    assert_eq!(arguments(&parsed, 0), strings(&["cat", "file"]));
    assert_eq!(arguments(&parsed, 1), strings(&["head", "-n", "3"]));
    assert_eq!(arguments(&parsed, 2), strings(&["wc"]));
    assert!(!parsed.run_in_background);
}

#[test]
fn parser_marks_a_trailing_ampersand() {
    let parsed = parse_command_line("sleep 10 &\n");
    assert_eq!(parsed.stages.len(), 1);
    assert_eq!(arguments(&parsed, 0), strings(&["sleep", "10"]));
    assert!(parsed.run_in_background);
}

#[test]
fn parser_reads_all_redirection_operators() {
    let parsed = parse_command_line("cat a 2>> err > out");
    let stage = &parsed.stages[0];
    assert_eq!(stage.arguments, strings(&["cat", "a"]));
    let stdout = stage.stdout.as_ref().unwrap();
    assert_eq!(stdout.path, "out");
    assert!(!stdout.append);
    let stderr = stage.stderr.as_ref().unwrap();
    assert_eq!(stderr.path, "err");
    assert!(stderr.append);

    let parsed = parse_command_line("echo first>file");
    assert_eq!(parsed.stages[0].arguments, strings(&["echo", "first"]));
    assert_eq!(parsed.stages[0].stdout.as_ref().unwrap().path, "file");

    let parsed = parse_command_line("echo a1>f 1>>g");
    assert_eq!(parsed.stages[0].arguments, strings(&["echo", "a1"]));
    let stdout = parsed.stages[0].stdout.as_ref().unwrap();
    assert_eq!(stdout.path, "g");
    assert!(stdout.append);
}

#[test]
fn parser_gives_no_stage_for_blank_lines() {
    assert_eq!(parse_command_line("").stages.len(), 0);
    assert_eq!(parse_command_line("  \t \n").stages.len(), 0);
}

#[test]
fn parser_keeps_empty_quotes_as_an_argument() {
    let parsed = parse_command_line("echo '' \"\"");
    assert_eq!(arguments(&parsed, 0), strings(&["echo", "", ""]));
}

#[test]
fn parser_marks_single_quoted_dollars() {
    let parsed = parse_command_line("echo 'a$b' \"c$d\"");
    let marked: String = ['a', LITERAL_DOLLAR, 'b'].iter().collect();
    assert_eq!(arguments(&parsed, 0), vec!["echo".to_string(), marked, "c$d".to_string()]);
}

#[test]
fn parser_keeps_an_unterminated_quote_to_the_end() {
    let parsed = parse_command_line("echo 'open ended");
    assert_eq!(arguments(&parsed, 0), strings(&["echo", "open ended"]));
}

#[test]
fn expansion_leaves_other_dollars_alone() {
    let mut vars = Variables::new();
    declare(&mut vars, &strings(&["x=1"]));
    assert_eq!(expand_word("$", &vars), "$");
    assert_eq!(expand_word("a$", &vars), "a$");
    assert_eq!(expand_word("$1", &vars), "$1");
    assert_eq!(expand_word("${", &vars), "${");
    assert_eq!(expand_word("${x", &vars), "${x");
    assert_eq!(expand_word("${1x}", &vars), "${1x}");
    assert_eq!(expand_word("$x$x${x}", &vars), "111");
    assert_eq!(expand_word("$xy", &vars), "");
}

#[test]
fn expansion_removes_only_words_that_became_empty() {
    let mut vars = Variables::new();
    declare(&mut vars, &strings(&["existing=existingsvalue"]));
    let expanded = expand_arguments(
        &strings(&["cmd", "${missing1}end", "${existing}", "${missing2}", ""]),
        &vars,
    );
    assert_eq!(expanded, strings(&["cmd", "end", "existingsvalue", ""]));
}

#[test]
fn declare_lists_all_variables_and_declares_bare_names() {
    let mut vars = Variables::new();
    let (out, err) = declare(&mut vars, &strings(&["b=2", "a", "c=x=y"]));
    assert_eq!((out.as_str(), err.as_str()), ("", ""));
    let (out, _) = declare(&mut vars, &strings(&[]));
    assert_eq!(out, "declare -- b=\"2\"\ndeclare -- a=\"\"\ndeclare -- c=\"x=y\"\n");
    let (out, _) = declare(&mut vars, &strings(&["-p"]));
    assert_eq!(out, "declare -- b=\"2\"\ndeclare -- a=\"\"\ndeclare -- c=\"x=y\"\n");
    let (out, err) = declare(&mut vars, &strings(&["=x", "a-b"]));
    assert_eq!(out, "");
    assert_eq!(
        err,
        "declare: `=x': not a valid identifier\ndeclare: `a-b': not a valid identifier\n"
    );
}

#[test]
fn declare_then_show_reads_back_the_value() {
    let mut vars = Variables::new();
    declare(&mut vars, &strings(&["name=first", "other=kept"]));
    declare(&mut vars, &strings(&["name=second"]));
    let (out, err) = declare(&mut vars, &strings(&["-p", "name", "other", "gone"]));
    assert_eq!(out, "declare -- name=\"second\"\ndeclare -- other=\"kept\"\n");
    assert_eq!(err, "declare: gone: not found\n");
}

#[test]
fn history_counts_are_decimal_numbers_that_fit() {
    assert_eq!(parse_count("0"), Some(0));
    assert_eq!(parse_count("12"), Some(12));
    assert_eq!(parse_count(""), None);
    assert_eq!(parse_count("1a"), None);
    assert_eq!(parse_count("+1"), None);
    assert_eq!(parse_count("99999999999999999999999"), None);
    let big = usize::MAX.to_string();
    assert_eq!(parse_count(&big), Some(usize::MAX));
    assert_eq!(parse_count(&decimal_string(4096)), Some(4096));
}

#[test]
fn history_records_non_empty_lines_without_line_feeds() {
    let mut history = History::new();
    history.record("echo a\n");
    history.record("\n");
    history.record("");
    history.record("echo b");
    assert_eq!(history.entries, strings(&["echo a", "echo b"]));
    assert_eq!(history.listing(0), "    1  echo a\n    2  echo b\n");
    assert_eq!(history.listing(1), "    2  echo b\n");
}

#[test]
fn history_file_round_trip_gives_back_the_entries() {
    let mut history = History::new();
    for line in ["echo one\n", "ls -l\n", "cd /tmp\n"] {
        history.record(line);
    }
    let text = history.render(0);
    assert_eq!(text, "echo one\nls -l\ncd /tmp\n");
    let mut reread = History::new();
    reread.load(&text);
    assert_eq!(reread.entries, history.entries);

    let mut blank = History::new();
    blank.load("\n\nfirst\n\n\nsecond");
    assert_eq!(blank.entries, strings(&["first", "second"]));
}

#[test]
fn history_appends_each_entry_once() {
    let mut history = History::new();
    history.load_saved("old\n");
    history.record("new one\n");
    assert_eq!(history.unsaved(), "new one\n");
    history.appended = history.entries.len();
    assert_eq!(history.unsaved(), "");
    history.record("newer\n");
    assert_eq!(history.unsaved(), "newer\n");
}

#[test]
fn history_listing_pads_numbers_to_five_columns() {
    let mut history = History::new();
    for i in 0..12 {
        history.record(&format!("c{i}\n"));
    }
    assert_eq!(history.listing(11), "   12  c11\n");
}

#[test]
fn decimal_numbers_are_written_without_leading_zeros() {
    assert_eq!(decimal_string(0), "0");
    assert_eq!(decimal_string(7), "7");
    assert_eq!(decimal_string(10), "10");
    assert_eq!(decimal_string(1234567), "1234567");
}

#[test]
fn job_markers_point_at_the_newest_jobs() {
    assert_eq!(marker_for(0, 1), '+');
    assert_eq!(marker_for(0, 2), '-');
    assert_eq!(marker_for(1, 2), '+');
    assert_eq!(marker_for(0, 3), ' ');
    assert_eq!(marker_for(5, 3), ' ');
    assert_eq!(JobStatus::Running.as_str(), "Running");
    assert_eq!(JobStatus::Done.as_str(), "Done");
}

#[test]
fn job_display_joins_the_command_and_arguments() {
    assert_eq!(display_command("sleep", &strings(&[])), "sleep");
    assert_eq!(display_command("sleep", &strings(&["10", "x"])), "sleep 10 x");
}

#[test]
fn jobs_are_reaped_once_and_numbers_are_reused() {
    let mut shell = Shell::new();
    assert_eq!(shell.jobs.track_job(11, "sleep", &strings(&["500"])), 1);
    assert_eq!(shell.jobs.track_job(12, "cat", &strings(&["first"])), 2);
    assert_eq!(shell.jobs.track_job(13, "cat", &strings(&["second"])), 3);
    assert_eq!(shell.jobs.pids(), vec![11, 12, 13]);

    let report = reap_completed_jobs(&mut shell, &vec![false, true, false]);
    assert_eq!(report, "[2]-  Done                    cat first\n");
    assert_eq!(reap_completed_jobs(&mut shell, &vec![false, false]), "");
    assert_eq!(shell.jobs.next_job_number(), 4);

    let prompt = write_prompt(&mut shell, &vec![false, true]);
    assert_eq!(prompt, "[3]+  Done                    cat second\n$ ");
    assert_eq!(shell.jobs.next_job_number(), 2);

    let listing = shell.jobs.execute_jobs(&vec![true]);
    assert_eq!(listing, "[1]+  Done                    sleep 500\n");
    assert_eq!(shell.jobs.jobs.len(), 0);
    assert_eq!(shell.jobs.next_job_number(), 1);
}

#[test]
fn job_table_starts_empty() {
    let table = JobTable::new();
    assert_eq!(table.next_job_number(), 1);
    assert!(table.pids().is_empty());
}

#[test]
fn job_start_lines_show_number_and_pid() {
    assert_eq!(job_started_line(3, 4242), "[3] 4242\n");
}

#[test]
fn builtins_are_recognised_by_name() {
    for name in ["echo", "exit", "type", "jobs", "pwd", "cd", "history", "declare"] {
        assert!(is_builtin(name), "{name}");
    }
    assert!(!is_builtin("ls"));
    assert!(!is_builtin("Echo"));
}

#[test]
fn type_reports_paths_and_missing_commands() {
    assert_eq!(execute_type(None, None), "");
    assert_eq!(execute_type(Some("cd"), Some("/bin/cd")), "cd is a shell builtin\n");
    assert_eq!(execute_type(Some("ls"), Some("/bin/ls")), "ls is /bin/ls\n");
    assert_eq!(execute_type(Some("nope"), None), "nope: not found\n");
    assert_eq!(command_not_found("nope"), "nope: command not found\n");
}

#[test]
fn builtins_ask_for_what_they_need() {
    let shell = Shell::new();
    assert!(matches!(
        shell.builtin_request(Builtin::Type, &strings(&["ls"])),
        Request::FindExecutable(name) if name == "ls"
    ));
    assert!(matches!(
        shell.builtin_request(Builtin::Type, &strings(&["echo"])),
        Request::Nothing
    ));
    assert!(matches!(shell.builtin_request(Builtin::Pwd, &strings(&[])), Request::CurrentDirectory));
    assert!(matches!(shell.builtin_request(Builtin::Jobs, &strings(&[])), Request::PollJobs));
    assert!(matches!(
        shell.builtin_request(Builtin::History, &strings(&["-w", "f"])),
        Request::WriteFile(path, text) if path == "f" && text.is_empty()
    ));
    assert!(!shell.answer_fits(Builtin::Pwd, &strings(&[]), &Answer::Nothing));
    assert!(shell.answer_fits(Builtin::Jobs, &strings(&[]), &Answer::JobsExited(vec![])));
    assert!(!shell.answer_fits(Builtin::Jobs, &strings(&[]), &Answer::JobsExited(vec![true])));
}

#[test]
fn cd_reports_failures_and_a_missing_home() {
    let mut shell = Shell::new();
    let output = shell.run_builtin(
        Builtin::Cd,
        &strings(&["~"]),
        &Answer::Changed(ChangeResult::HomeUnset),
        true,
    );
    assert_eq!(output.stderr, "cd: HOME not set\n");
    let output = shell.run_builtin(
        Builtin::Cd,
        &strings(&["/missing"]),
        &Answer::Changed(ChangeResult::Failed),
        true,
    );
    assert_eq!(output.stderr, "cd: /missing: No such file or directory\n");
}

#[test]
fn exit_ends_the_shell_only_outside_pipelines() {
    let mut shell = Shell::new();
    let inside = shell.run_builtin(Builtin::Exit, &strings(&[]), &Answer::Nothing, false);
    assert!(inside.outcome == CommandOutcome::Continue);
    let outside = shell.run_builtin(Builtin::Exit, &strings(&[]), &Answer::Nothing, true);
    assert!(outside.outcome == CommandOutcome::Exit);
}

#[test]
fn history_reports_write_failures() {
    let mut shell = Shell::new();
    shell.record_history("history -a /nowhere/file\n");
    let output = shell.run_builtin(
        Builtin::History,
        &strings(&["-a", "/nowhere/file"]),
        &Answer::FileWritten(Err("Permission denied".to_string())),
        true,
    );
    assert_eq!(output.stderr, "history: /nowhere/file: Permission denied\n");
    assert_eq!(shell.history.appended, 0);
}

#[test]
fn pipelines_send_output_to_the_next_stage() {
    let shell = Shell::new();
    let parsed = parse_command_line("echo a > lost | type exit 2> err | wc > out\n");
    match execute(&shell, &parsed) {
        Execution::Pipeline(stages) => {
            assert_eq!(stages.len(), 3);
            assert!(stages[0].builtin && stages[0].pipe_stdout && stages[0].stdout.is_none());
            assert_eq!(stages[0].command, "echo");
            assert_eq!(stages[0].arguments, strings(&["a"]));
            assert!(stages[1].builtin && stages[1].pipe_stdout);
            assert_eq!(stages[1].stderr.as_ref().unwrap().path, "err");
            assert!(!stages[2].builtin && !stages[2].pipe_stdout);
            assert_eq!(stages[2].stdout.as_ref().unwrap().path, "out");
        }
        _ => panic!("a pipeline was expected"),
    }
}

#[test]
fn pipelines_with_an_empty_stage_do_nothing() {
    let shell = Shell::new();
    assert!(matches!(execute(&shell, &parse_command_line("ls |")), Execution::Nothing));
    assert!(matches!(execute(&shell, &parse_command_line("| wc")), Execution::Nothing));
    assert!(matches!(execute(&shell, &parse_command_line("   ")), Execution::Nothing));
}

#[test]
fn expansion_applies_to_command_words_only() {
    let mut shell = Shell::new();
    shell.run_builtin(
        Builtin::Declare,
        &strings(&["cmd=ls", "dir=/tmp"]),
        &Answer::Nothing,
        true,
    );
    match execute(&shell, &parse_command_line("$cmd $dir > ${dir}/out &")) {
        Execution::External(call) => {
            assert_eq!(call.command, "ls");
            assert_eq!(call.arguments, strings(&["/tmp"]));
            assert_eq!(call.stdout.as_ref().unwrap().path, "${dir}/out");
            assert!(call.background);
        }
        _ => panic!("an external command was expected"),
    }
}

#[test]
fn redirection_targets_are_taken_literally() {
    let mut shell = Shell::new();
    shell.run_builtin(Builtin::Declare, &strings(&["X=value"]), &Answer::Nothing, true);
    for line in ["echo hi > $X", "echo hi > '$X'", "echo hi > \"$X\""] {
        match execute(&shell, &parse_command_line(line)) {
            Execution::Builtin(call) => {
                assert_eq!(call.stdout.as_ref().unwrap().path, "$X");
            }
            _ => panic!("a builtin was expected"),
        }
    }
    match execute(&shell, &parse_command_line("echo $X 2>> $X")) {
        Execution::Builtin(call) => {
            assert_eq!(call.arguments, strings(&["value"]));
            let target = call.stderr.as_ref().unwrap();
            assert_eq!(target.path, "$X");
            assert!(target.append);
        }
        _ => panic!("a builtin was expected"),
    }
}

#[test]
fn completion_completes_only_the_command_word() {
    assert_eq!(completion_prefix("ec", 2), (0, "ec"));
    assert_eq!(completion_prefix("echo he", 7), (7, ""));
    assert_eq!(completion_prefix("echo he", 2), (0, "ec"));
    assert_eq!(completion_prefix("ée", 2), (0, "é"));
    assert_eq!(completion_prefix("", 0), (0, ""));
}

#[test]
fn completion_candidates_are_sorted_and_unique() {
    let candidates =
        completion_candidates("e", &strings(&["emacs", "echo", "env", "ed", "vim"]));
    assert_eq!(candidates, strings(&["echo", "ed", "emacs", "env", "exit"]));
    assert_eq!(completion_candidates("hist", &strings(&[])), strings(&["history "]));
    assert_eq!(completion_candidates("custom", &strings(&["custom_executable"])), strings(&["custom_executable "]));
    assert!(completion_candidates("zz", &strings(&["a"])).is_empty());
}

#[test]
fn completion_display_separates_with_two_spaces() {
    assert_eq!(completion_display(&strings(&[])), "");
    assert_eq!(completion_display(&strings(&["a", "bc"])), "a  bc");
}

#[test]
fn jobs_finish_when_their_process_exits() {
    assert!(!exited_normally(None));
    assert!(exited_normally(Some(ExitReport { success: true, code: Some(0) })));
    assert!(exited_normally(Some(ExitReport { success: false, code: Some(3) })));
    assert!(!exited_normally(Some(ExitReport { success: false, code: None })));
}

#[test]
fn executables_need_a_regular_file_with_an_execute_bit() {
    assert!(is_executable_file(true, 0o755));
    assert!(is_executable_file(true, 0o001));
    assert!(!is_executable_file(true, 0o644));
    assert!(!is_executable_file(false, 0o755));
}

#[test]
fn parser_keeps_an_inner_ampersand_in_the_word() {
    let parsed = parse_command_line("echo a&b & c\n");
    assert_eq!(arguments(&parsed, 0), strings(&["echo", "a&b", "&", "c"]));
    assert!(!parsed.run_in_background);

    let parsed = parse_command_line("sleep 5&  \n");
    assert_eq!(arguments(&parsed, 0), strings(&["sleep", "5"]));
    assert!(parsed.run_in_background);
}

#[test]
fn parser_splits_at_any_run_of_white_space() {
    let parsed = parse_command_line(" \t echo\u{3000}one \n\t two$x  \n");
    assert_eq!(arguments(&parsed, 0), strings(&["echo", "one", "two$x"]));
    assert!(parsed.stages[0].stdout.is_none() && parsed.stages[0].stderr.is_none());
    assert!(!parsed.run_in_background);
}
