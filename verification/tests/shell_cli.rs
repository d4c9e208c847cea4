use std::collections::{HashMap, HashSet};

use rusty_shell::command::{
    command_not_found, Answer, ChangeResult, CommandOutcome, DirectoryTarget,
    Execution, Request, Shell,
};
use rusty_shell::parser::RedirectTarget;
use rusty_shell::shell::{accept_input, job_started_line, write_prompt, LoopStep};

/// What a session printed.
#[derive(Debug)]
struct ShellOutput {
    stdout: String,
    stderr: String,
    exited: bool,
}

/// A stand-in for the operating system: executables in `PATH`, an in-memory
/// file system, background processes whose exit the test decides, and a few
/// foreground programs (`cat`, `ls` and argument-printing scripts).
struct World {
    files: HashMap<String, String>,
    scripts: Vec<String>,
    exited: HashSet<u32>,
    environment: HashMap<String, String>,
    next_pid: u32,
}

/// A stream of a command: the terminal, or a file of the world.
enum Sink {
    Terminal,
    File(String),
}

impl World {
    fn new() -> World {
        World {
            files: HashMap::new(),
            scripts: Vec::new(),
            exited: HashSet::new(),
            environment: HashMap::new(),
            next_pid: 4242,
        }
    }

    fn temporary_path(&self, name: &str) -> String {
        format!("/tmp/codecrafters-shell-{name}")
    }

    fn temporary_file(&mut self, name: &str, contents: &str) -> String {
        let path = self.temporary_path(name);
        self.files.insert(path.clone(), contents.to_string());
        path
    }

    fn temporary_executable(&mut self, name: &str) -> String {
        let path = self.temporary_file(name, "#!/usr/bin/env python3\n");
        self.scripts.push(path.clone());
        path
    }

    fn find_executable(&self, name: &str) -> Option<String> {
        match name {
            "sleep" | "cat" | "ls" | "wc" => Some(format!("/usr/bin/{name}")),
            _ if self.scripts.iter().any(|script| script == name) => Some(name.to_string()),
            _ => None,
        }
    }

    fn open(&mut self, target: &Option<RedirectTarget>) -> Sink {
        match target {
            Some(target) => {
                let file = self.files.entry(target.path.clone()).or_default();
                if !target.append {
                    file.clear();
                }
                Sink::File(target.path.clone())
            }
            None => Sink::Terminal,
        }
    }

    fn write(&mut self, sink: &Sink, terminal: &mut String, text: &str) {
        match sink {
            Sink::Terminal => terminal.push_str(text),
            Sink::File(path) => self.files.entry(path.clone()).or_default().push_str(text),
        }
    }

    fn poll(&self, shell: &Shell) -> Vec<bool> {
        shell.jobs.pids().iter().map(|pid| self.exited.contains(pid)).collect()
    }

    fn answer(&mut self, shell: &Shell, request: Request) -> Answer {
        match request {
            Request::Nothing => Answer::Nothing,
            Request::FindExecutable(name) => Answer::Executable(self.find_executable(&name)),
            Request::CurrentDirectory => Answer::Directory("/home/user".to_string()),
            Request::ChangeDirectory(DirectoryTarget::Home) => {
                Answer::Changed(ChangeResult::Changed)
            }
            Request::ChangeDirectory(DirectoryTarget::Path(path)) => {
                if path.starts_with('/') {
                    Answer::Changed(ChangeResult::Changed)
                } else {
                    Answer::Changed(ChangeResult::Failed)
                }
            }
            Request::PollJobs => Answer::JobsExited(self.poll(shell)),
            Request::ReadFile(path) => match self.files.get(&path) {
                Some(text) => Answer::FileRead(Ok(text.clone())),
                None => Answer::FileRead(Err("No such file or directory".to_string())),
            },
            Request::WriteFile(path, text) => {
                self.files.insert(path, text);
                Answer::FileWritten(Ok(()))
            }
            Request::AppendFile(path, text) => {
                self.files.entry(path).or_default().push_str(&text);
                Answer::FileWritten(Ok(()))
            }
        }
    }

    /// Runs a foreground program: what it writes to stdout and stderr.
    fn run_program(&self, command: &str, arguments: &[String]) -> (String, String) {
        let mut out = String::new();
        let mut err = String::new();
        if self.scripts.iter().any(|script| script == command) {
            for (index, argument) in arguments.iter().enumerate() {
                out.push_str(&format!("Arg #{}: {argument}\n", index + 1));
            }
        } else if command == "cat" {
            for path in arguments {
                match self.files.get(path) {
                    Some(text) => out.push_str(text),
                    None => err.push_str(&format!("cat: {path}: No such file or directory\n")),
                }
            }
        } else if command == "ls" {
            for path in arguments {
                if self.files.contains_key(path) {
                    out.push_str(&format!("{path}\n"));
                } else {
                    err.push_str(&format!(
                        "ls: cannot access '{path}': No such file or directory\n"
                    ));
                }
            }
        }
        (out, err)
    }
}

/// The prompt, after the background jobs that finished are reported.
fn prompt(world: &World, shell: &mut Shell) -> String {
    let exited = world.poll(shell);
    write_prompt(shell, &exited)
}

/// Runs the lines of `input` through the shell as its loop does: each
/// command is followed by the prompt for the next read, unless it was `exit`.
fn run_session(world: &mut World, shell: &mut Shell, input: &str) -> ShellOutput {
    let mut stdout = String::new();
    let mut stderr = String::new();

    for line in input.split_inclusive('\n') {
        let LoopStep::Execute(execution) = accept_input(shell, Some(line)) else {
            unreachable!("a line was given");
        };

        match execution {
            Execution::Nothing => {}
            Execution::Builtin(call) => {
                let out = world.open(&call.stdout);
                let err = world.open(&call.stderr);
                let request = shell.builtin_request(call.builtin, &call.arguments);
                let answer = world.answer(shell, request);
                assert!(shell.answer_fits(call.builtin, &call.arguments, &answer));
                let output = shell.run_builtin(call.builtin, &call.arguments, &answer, true);
                world.write(&out, &mut stdout, &output.stdout);
                world.write(&err, &mut stderr, &output.stderr);
                if output.outcome == CommandOutcome::Exit {
                    return ShellOutput { stdout, stderr, exited: true };
                }
            }
            Execution::External(call) => {
                let out = world.open(&call.stdout);
                let err = world.open(&call.stderr);
                if world.find_executable(&call.command).is_none() {
                    world.write(&err, &mut stderr, &command_not_found(&call.command));
                } else if call.background {
                    let pid = world.next_pid;
                    world.next_pid += 1;
                    let number = shell.jobs.track_job(pid, &call.command, &call.arguments);
                    stdout.push_str(&job_started_line(number, pid));
                } else {
                    let (program_out, program_err) =
                        world.run_program(&call.command, &call.arguments);
                    world.write(&out, &mut stdout, &program_out);
                    world.write(&err, &mut stderr, &program_err);
                }
            }
            Execution::Pipeline(_) => {}
        }

        stdout.push_str(&prompt(world, shell));
    }

    ShellOutput { stdout, stderr, exited: false }
}

/// A whole run of the shell: the history file named by `HISTFILE` is read
/// at startup, the first prompt is shown, and at the end (by `exit` or at
/// the end of the input) the session's lines are appended to the file.
fn run_shell_in(world: &mut World, input: &str) -> ShellOutput {
    let mut shell = Shell::new();
    let histfile = world.environment.get("HISTFILE").cloned();
    if let Some(path) = &histfile {
        if let Some(text) = world.files.get(path).cloned() {
            shell.history.load_saved(&text);
        }
    }
    let first_prompt = prompt(world, &mut shell);
    let mut output = run_session(world, &mut shell, input);
    output.stdout.insert_str(0, &first_prompt);
    if !output.exited {
        assert!(matches!(accept_input(&mut shell, None), LoopStep::Finish));
    }
    if let Some(path) = histfile {
        let unsaved = shell.history.unsaved();
        world.files.entry(path).or_default().push_str(&unsaved);
    }
    output
}

fn run_shell_output(input: &str) -> ShellOutput {
    run_shell_in(&mut World::new(), input)
}

fn run_shell(input: &str) -> String {
    run_shell_output(input).stdout
}

fn output_lines(output: &str) -> Vec<&str> {
    output.lines().collect()
}

#[test]
fn unquoted_whitespace_separates_arguments() {
    assert_eq!(
        run_shell("echo hello    world\nexit\n"),
        "$ hello world\n$ "
    );
}

#[test]
fn type_recognizes_builtins() {
    assert_eq!(
        run_shell("type echo\nexit\n"),
        "$ echo is a shell builtin\n$ "
    );
}

#[test]
fn type_recognizes_jobs_as_a_builtin() {
    assert_eq!(
        run_shell("type jobs\nexit\n"),
        "$ jobs is a shell builtin\n$ "
    );
}

#[test]
fn type_recognizes_history_as_a_builtin() {
    assert_eq!(
        run_shell("type history\nexit\n"),
        "$ history is a shell builtin\n$ "
    );
}

#[test]
fn type_recognizes_declare_as_a_builtin() {
    assert_eq!(
        run_shell("type declare\nexit\n"),
        "$ declare is a shell builtin\n$ "
    );
}

#[test]
fn jobs_builtin_produces_no_output_when_no_jobs_exist() {
    assert_eq!(run_shell("jobs\nexit\n"), "$ $ ");
}

#[test]
fn jobs_lists_a_single_running_background_job() {
    let output = run_shell("sleep 10 &\njobs\nexit\n");
    let lines = output_lines(&output);

    assert_eq!(lines.len(), 3, "unexpected output: {output:?}");
    assert!(lines[0].starts_with("$ [1] "), "unexpected output: {output:?}");
    assert_eq!(lines[1], "$ [1]+  Running                 sleep 10 &");
    assert_eq!(lines[2], "$ ");
}

#[test]
fn jobs_lists_multiple_background_jobs_in_start_order_with_markers() {
    let output = run_shell("sleep 10 &\njobs\nsleep 20 &\njobs\nsleep 30 &\njobs\nexit\n");
    let lines = output_lines(&output);

    assert_eq!(lines.len(), 10, "unexpected output: {output:?}");
    assert!(lines[0].starts_with("$ [1] "), "unexpected output: {output:?}");
    assert_eq!(lines[1], "$ [1]+  Running                 sleep 10 &");
    assert!(lines[2].starts_with("$ [2] "), "unexpected output: {output:?}");
    assert_eq!(lines[3], "$ [1]-  Running                 sleep 10 &");
    assert_eq!(lines[4], "[2]+  Running                 sleep 20 &");
    assert!(lines[5].starts_with("$ [3] "), "unexpected output: {output:?}");
    assert_eq!(lines[6], "$ [1]   Running                 sleep 10 &");
    assert_eq!(lines[7], "[2]-  Running                 sleep 20 &");
    assert_eq!(lines[8], "[3]+  Running                 sleep 30 &");
    assert_eq!(lines[9], "$ ");
}

#[test]
fn single_quotes_preserve_whitespace_and_special_characters() {
    assert_eq!(
        run_shell("echo 'hello    $world * ~ \\'\nexit\n"),
        "$ hello    $world * ~ \\\n$ "
    );
}

#[test]
fn adjacent_single_quoted_and_unquoted_segments_form_one_argument() {
    assert_eq!(
        run_shell("echo hello''world 'shell''test'\nexit\n"),
        "$ helloworld shelltest\n$ "
    );
}

#[test]
fn double_quotes_preserve_whitespace_and_treat_single_quotes_literally() {
    assert_eq!(
        run_shell("echo \"quz  hello\"  \"shell's\"\nexit\n"),
        "$ quz  hello shell's\n$ "
    );
}

#[test]
fn adjacent_double_quoted_and_unquoted_segments_form_one_argument() {
    assert_eq!(
        run_shell("echo \"hello\"\"world\" next\"door\"\nexit\n"),
        "$ helloworld nextdoor\n$ "
    );
}

#[test]
fn single_quotes_keep_backslashes_literal() {
    assert_eq!(
        run_shell("echo 'multiple\\\\slashes' 'every\\\"thing_is\\\"literal'\nexit\n"),
        "$ multiple\\\\slashes every\\\"thing_is\\\"literal\n$ "
    );
}

#[test]
fn double_quotes_escape_quotes_and_backslashes() {
    assert_eq!(
        run_shell("echo \"A \\\\ escapes itself\" \"A \\\" inside double quotes\"\nexit\n"),
        "$ A \\ escapes itself A \" inside double quotes\n$ "
    );
}

#[test]
fn double_quotes_preserve_backslashes_before_ordinary_characters() {
    assert_eq!(
        run_shell("echo \"just'one'\\n'backslash\"\nexit\n"),
        "$ just'one'\\n'backslash\n$ "
    );
}

#[test]
fn escaped_quotes_can_join_double_quoted_and_unquoted_segments() {
    assert_eq!(
        run_shell("echo \"inside\\\"literal_quote.\"outside\\\"\nexit\n"),
        "$ inside\"literal_quote.outside\"\n$ "
    );
}

#[test]
fn unquoted_backslashes_escape_spaces_quotes_and_regular_characters() {
    assert_eq!(
        run_shell(
            "echo multiple\\ \\ \\ \\ spaces\necho \\'\\\"literal quotes\\\"\\'\necho ignore\\_backslash\nexit\n"
        ),
        "$ multiple    spaces\n$ '\"literal quotes\"'\n$ ignore_backslash\n$ "
    );
}

#[test]
fn quoted_and_escaped_redirect_operators_remain_literal() {
    assert_eq!(run_shell("echo '>' \\> \">\"\nexit\n"), "$ > > >\n$ ");
}

#[test]
fn quoted_and_escaped_append_operators_remain_literal() {
    assert_eq!(
        run_shell("echo '>>' \\>\\> \">>\"\nexit\n"),
        "$ >> >> >>\n$ "
    );
}


#[test]
fn reports_unknown_commands() {
    let output = run_shell_output("definitely-not-a-shell-command\nexit\n");

    assert_eq!(output.stdout, "$ $ ");
    assert_eq!(
        output.stderr,
        "definitely-not-a-shell-command: command not found\n"
    );
}

#[test]
fn history_lists_previously_executed_commands_in_order() {
    let output = run_shell_output("echo hello\necho world\ninvalid_command\nhistory\nexit\n");

    assert_eq!(
        output.stdout,
        "$ hello\n$ world\n$ $     1  echo hello\n    2  echo world\n    3  invalid_command\n    4  history\n$ "
    );
    assert_eq!(output.stderr, "invalid_command: command not found\n");
}

#[test]
fn history_with_a_limit_shows_only_the_last_n_commands() {
    let output = run_shell_output("echo hello\necho world\ninvalid_command\nhistory 2\nexit\n");

    assert_eq!(
        output.stdout,
        "$ hello\n$ world\n$ $     3  invalid_command\n    4  history 2\n$ "
    );
    assert_eq!(output.stderr, "invalid_command: command not found\n");
}

#[test]
fn history_read_appends_commands_from_a_file() {
    let mut world = World::new();
    let history_path = world.temporary_file("history-read", "echo hello\necho world\n\n");
    let output = run_shell_in(
        &mut world,
        &format!("history -r {}\nhistory\nexit\n", history_path),
    );

    assert_eq!(
        output.stdout,
        format!(
            "$ $     1  history -r {}\n    2  echo hello\n    3  echo world\n    4  history\n$ ",
            history_path
        )
    );
    assert_eq!(output.stderr, "");
}

#[test]
fn history_write_persists_in_memory_commands_to_a_file() {
    let mut world = World::new();
    let history_path = world.temporary_path("history-write");
    let output = run_shell_in(
        &mut world,
        &format!("echo hello\necho world\nhistory -w {}\nexit\n", history_path),
    );

    assert_eq!(output.stdout, "$ hello\n$ world\n$ $ ");
    assert_eq!(output.stderr, "");
    assert_eq!(
        world.files[&history_path],
        format!("echo hello\necho world\nhistory -w {}\n", history_path)
    );
}

#[test]
fn history_append_writes_only_commands_since_the_last_append() {
    let mut world = World::new();
    let history_path = world
        .temporary_file("history-append", "echo initial_command_1\necho initial_command_2\n");
    let output = run_shell_in(
        &mut world,
        &format!(
            "echo new_command\nhistory -a {}\nhistory -a {}\nexit\n",
            history_path, history_path
        ),
    );

    assert_eq!(output.stdout, "$ new_command\n$ $ $ ");
    assert_eq!(output.stderr, "");
    assert_eq!(
        world.files[&history_path],
        format!(
            "echo initial_command_1\necho initial_command_2\necho new_command\nhistory -a {}\nhistory -a {}\n",
            history_path, history_path
        )
    );
}

#[test]
fn history_loads_from_histfile_on_startup() {
    let mut world = World::new();
    let history_path = world.temporary_file("histfile-startup", "echo hello\necho world\n");
    world.environment.insert("HISTFILE".to_string(), history_path);
    let output = run_shell_in(&mut world, "history\nexit\n");

    assert_eq!(
        output.stdout,
        "$     1  echo hello\n    2  echo world\n    3  history\n$ "
    );
    assert_eq!(output.stderr, "");
}

#[test]
fn history_appends_session_commands_to_histfile_on_exit() {
    let mut world = World::new();
    let history_path = world.temporary_path("histfile-exit-write");
    world.environment.insert("HISTFILE".to_string(), history_path.clone());
    let output = run_shell_in(&mut world, "echo hello\necho world\nexit\n");

    assert_eq!(output.stdout, "$ hello\n$ world\n$ ");
    assert_eq!(output.stderr, "");
    assert_eq!(world.files[&history_path], "echo hello\necho world\nexit\n");
}

#[test]
fn history_appends_new_session_commands_to_existing_histfile_on_exit() {
    let mut world = World::new();
    let history_path = world.temporary_file(
        "histfile-exit-append",
        "echo initial_command_1\necho initial_command_2\n",
    );
    world.environment.insert("HISTFILE".to_string(), history_path.clone());
    let output = run_shell_in(&mut world, "echo new_command\nexit\n");

    assert_eq!(output.stdout, "$ new_command\n$ ");
    assert_eq!(output.stderr, "");
    assert_eq!(
        world.files[&history_path],
        "echo initial_command_1\necho initial_command_2\necho new_command\nexit\n"
    );
}

#[test]
fn declare_stores_and_prints_a_variable() {
    let output = run_shell_output("declare foo=bar\ndeclare -p foo\nexit\n");

    assert_eq!(output.stdout, "$ $ declare -- foo=\"bar\"\n$ ");
    assert_eq!(output.stderr, "");
}

#[test]
fn declare_replaces_an_existing_variable_value() {
    let output =
        run_shell_output("declare foo=bar\ndeclare foo=updated\ndeclare -p foo\nexit\n");

    assert_eq!(output.stdout, "$ $ $ declare -- foo=\"updated\"\n$ ");
    assert_eq!(output.stderr, "");
}

#[test]
fn declare_reports_missing_variables() {
    let output = run_shell_output("declare -p missing_variable\nexit\n");

    assert_eq!(output.stdout, "$ $ ");
    assert_eq!(output.stderr, "declare: missing_variable: not found\n");
}

#[test]
fn declare_rejects_invalid_identifiers() {
    let output = run_shell_output("declare 23=x\nexit\n");

    assert_eq!(output.stdout, "$ $ ");
    assert_eq!(output.stderr, "declare: `23=x': not a valid identifier\n");
}

#[test]
fn declare_accepts_underscores_and_digits_after_the_first_character() {
    let output = run_shell_output("declare _FOO123=BAR\ndeclare -p _FOO123\nexit\n");

    assert_eq!(output.stdout, "$ $ declare -- _FOO123=\"BAR\"\n$ ");
    assert_eq!(output.stderr, "");
}

#[test]
fn parameter_expansion_replaces_simple_variables_for_builtins() {
    let output = run_shell_output("declare Item=widget\ndeclare Foo1=Bar2\necho $Item\necho ${Item}_id\necho start_${Item}_end\necho ${Item}and${Foo1}\necho ${missing}world\nexit\n");

    assert_eq!(
        output.stdout,
        "$ $ $ widget\n$ widget_id\n$ start_widget_end\n$ widgetandBar2\n$ world\n$ "
    );
    assert_eq!(output.stderr, "");
}

#[test]
fn parameter_expansion_replaces_variables_for_external_commands() {
    let mut world = World::new();
    let script = world.temporary_executable("print-args.sh");
    let output = run_shell_in(
        &mut world,
        &format!(
            "declare Variable_1=Value_1\ndeclare Variable_2=Value_2\n{} $Variable_1 $Variable_2\nexit\n",
            script
        ),
    );

    assert_eq!(
        output.stdout,
        "$ $ $ Arg #1: Value_1\nArg #2: Value_2\n$ "
    );
    assert_eq!(output.stderr, "");
}

#[test]
fn parameter_expansion_removes_arguments_that_become_empty() {
    let mut world = World::new();
    let script = world.temporary_executable("print-args-empty.sh");
    let output = run_shell_in(
        &mut world,
        &format!(
            "declare existing=existingsvalue\n{} ${{missing1}}end ${{existing}} ${{missing2}}\nexit\n",
            script
        ),
    );

    assert_eq!(
        output.stdout,
        "$ $ Arg #1: end\nArg #2: existingsvalue\n$ "
    );
    assert_eq!(output.stderr, "");
}

#[test]
fn jobs_reports_done_once_and_then_removes_a_completed_background_job() {
    let mut world = World::new();
    let fifo = world.temporary_path("single-reap.fifo");
    let mut shell = Shell::new();
    assert_eq!(prompt(&world, &mut shell), "$ ");

    let output = run_session(&mut world, &mut shell, &format!("cat {} &\n", fifo));
    let background_job_line = &output.stdout;
    assert!(
        background_job_line.starts_with("[1] "),
        "unexpected job line: {background_job_line:?}"
    );
    assert!(background_job_line.ends_with("\n$ "));

    let output = run_session(&mut world, &mut shell, "jobs\n");
    assert_eq!(
        output.stdout,
        format!("[1]+  Running                 cat {} &\n$ ", fifo)
    );

    world.exited.insert(4242);
    let output = run_session(&mut world, &mut shell, "jobs\n");
    assert_eq!(
        output.stdout,
        format!("[1]+  Done                    cat {}\n$ ", fifo)
    );

    let output = run_session(&mut world, &mut shell, "jobs\nexit\n");
    assert_eq!(output.stdout, "$ ");
    assert!(output.exited);
}

#[test]
fn jobs_reaps_multiple_completed_background_jobs_and_recalculates_markers() {
    let mut world = World::new();
    let first_fifo = world.temporary_path("multi-reap-first.fifo");
    let second_fifo = world.temporary_path("multi-reap-second.fifo");
    let mut shell = Shell::new();
    assert_eq!(prompt(&world, &mut shell), "$ ");

    let output = run_session(
        &mut world,
        &mut shell,
        &format!("sleep 500 &\ncat {} &\ncat {} &\n", first_fifo, second_fifo),
    );
    let lines = output_lines(&output.stdout);
    assert!(lines[0].starts_with("[1] "), "unexpected output: {output:?}");
    for expected_job in 2..=3 {
        assert!(lines[expected_job - 1].starts_with(&format!("$ [{expected_job}] ")));
    }

    world.exited.insert(4243);
    let output = run_session(&mut world, &mut shell, "jobs\n");
    assert_eq!(
        output.stdout,
        format!(
            "[1]   Running                 sleep 500 &\n[2]-  Done                    cat {}\n[3]+  Running                 cat {} &\n$ ",
            first_fifo, second_fifo
        )
    );

    world.exited.insert(4244);
    let output = run_session(&mut world, &mut shell, "jobs\n");
    assert_eq!(
        output.stdout,
        format!(
            "[1]-  Running                 sleep 500 &\n[3]+  Done                    cat {}\n$ ",
            second_fifo
        )
    );

    let output = run_session(&mut world, &mut shell, "jobs\nexit\n");
    assert_eq!(output.stdout, "[1]+  Running                 sleep 500 &\n$ ");
}

#[test]
fn completed_jobs_are_reaped_before_the_next_prompt() {
    let mut world = World::new();
    let fifo = world.temporary_path("prompt-reap.fifo");
    let mut shell = Shell::new();
    assert_eq!(prompt(&world, &mut shell), "$ ");

    run_session(&mut world, &mut shell, &format!("sleep 500 &\ncat {} &\n", fifo));
    let output = run_session(&mut world, &mut shell, "jobs\n");
    assert_eq!(
        output.stdout,
        format!(
            "[1]-  Running                 sleep 500 &\n[2]+  Running                 cat {} &\n$ ",
            fifo
        )
    );

    world.exited.insert(4243);
    let output = run_session(&mut world, &mut shell, "echo banana\n");
    assert_eq!(
        output.stdout,
        format!("banana\n[2]+  Done                    cat {}\n$ ", fifo)
    );

    let output = run_session(&mut world, &mut shell, "jobs\nexit\n");
    assert_eq!(output.stdout, "[1]+  Running                 sleep 500 &\n$ ");
}

#[test]
fn job_numbers_recycle_to_one_when_all_jobs_have_been_reaped() {
    let mut world = World::new();
    let fifo = world.temporary_path("recycle-empty.fifo");
    let mut shell = Shell::new();
    assert_eq!(prompt(&world, &mut shell), "$ ");

    let output = run_session(&mut world, &mut shell, &format!("cat {} &\n", fifo));
    assert!(output.stdout.starts_with("[1] "), "unexpected output: {output:?}");

    world.exited.insert(4242);
    let output = run_session(&mut world, &mut shell, "echo apple\n");
    assert_eq!(
        output.stdout,
        format!("apple\n[1]+  Done                    cat {}\n$ ", fifo)
    );

    let output = run_session(&mut world, &mut shell, "sleep 100 &\njobs\nexit\n");
    let recycled_job_line = output_lines(&output.stdout)[0];
    assert!(
        recycled_job_line.starts_with("[1] "),
        "unexpected job line: {recycled_job_line:?}"
    );
    assert!(output
        .stdout
        .ends_with("\n$ [1]+  Running                 sleep 100 &\n$ "));
}

#[test]
fn job_numbers_reuse_the_highest_completed_slot_when_older_jobs_remain() {
    let mut world = World::new();
    let fifo = world.temporary_path("recycle-partial.fifo");
    let mut shell = Shell::new();
    assert_eq!(prompt(&world, &mut shell), "$ ");

    run_session(&mut world, &mut shell, &format!("sleep 100 &\ncat {} &\n", fifo));
    world.exited.insert(4243);
    let output = run_session(&mut world, &mut shell, "echo word\n");
    assert_eq!(
        output.stdout,
        format!("word\n[2]+  Done                    cat {}\n$ ", fifo)
    );

    let output = run_session(&mut world, &mut shell, "sleep 50 &\njobs\nexit\n");
    let recycled_job_line = output_lines(&output.stdout)[0];
    assert!(
        recycled_job_line.starts_with("[2] "),
        "unexpected job line: {recycled_job_line:?}"
    );
    assert!(output.stdout.ends_with(
        "\n$ [1]-  Running                 sleep 100 &\n[2]+  Running                 sleep 50 &\n$ "
    ));
}

#[test]
fn external_commands_receive_single_quoted_paths_as_single_arguments() {
    let mut world = World::new();
    let path = world.temporary_file("single quoted file", "single quote content\n");
    let input = format!("cat '{}'\nexit\n", path);

    assert_eq!(run_shell_in(&mut world, &input).stdout, "$ single quote content\n$ ");
}

#[test]
fn external_commands_receive_double_quoted_paths_as_single_arguments() {
    let mut world = World::new();
    let path = world.temporary_file("double 'quoted' file", "double quote content\n");
    let input = format!("cat \"{}\"\nexit\n", path);

    assert_eq!(run_shell_in(&mut world, &input).stdout, "$ double quote content\n$ ");
}

#[test]
fn cat_receives_literal_backslashes_from_single_quotes() {
    let mut world = World::new();
    let path = world.temporary_file("one slash \\2", "single backslash content\n");
    let input = format!("cat '{}'\nexit\n", path);

    assert_eq!(run_shell_in(&mut world, &input).stdout, "$ single backslash content\n$ ");
}

#[test]
fn cat_receives_escaped_quotes_and_backslashes_from_double_quotes() {
    let mut world = World::new();
    let quote_path = world.temporary_file("doublequote \" 2", "double quote content\n");
    let slash_path = world.temporary_file("backslash \\ 3", "backslash content\n");
    let quote_argument = quote_path.replace('"', "\\\"");
    let slash_argument = slash_path.replace('\\', "\\\\");
    let input = format!("cat \"{quote_argument}\" \"{slash_argument}\"\nexit\n");

    assert_eq!(
        run_shell_in(&mut world, &input).stdout,
        "$ double quote content\nbackslash content\n$ "
    );
}

#[test]
fn cat_receives_characters_escaped_outside_quotes() {
    let mut world = World::new();
    let ignored_path = world.temporary_file("_ignored_1", "content1\n");
    let regular_path = world.temporary_file("ignore_2", "content2\n");
    let slash_path = world.temporary_file("just_one_\\_3", "content3\n");
    let ignored_argument = ignored_path.replace("_ignored_1", "\\_ignored_1");
    let regular_argument = regular_path.replace("ignore_2", "ignore_\\2");
    let slash_argument = slash_path.replace('\\', "\\\\");
    let input = format!("cat {ignored_argument} {regular_argument} {slash_argument}\nexit\n");

    assert_eq!(
        run_shell_in(&mut world, &input).stdout,
        "$ content1\ncontent2\ncontent3\n$ "
    );
}

#[test]
fn stdout_redirection_creates_and_overwrites_files_for_builtins() {
    let mut world = World::new();
    let output_path = world.temporary_file("stdout-redirection", "stale content\n");
    let input = format!(
        "echo first>{0}\necho Hello James 1> {0}\ncat {0}\nexit\n",
        output_path
    );
    let output = run_shell_in(&mut world, &input);

    assert_eq!(output.stdout, "$ $ $ Hello James\n$ ");
    assert_eq!(output.stderr, "");
    assert_eq!(world.files[&output_path], "Hello James\n");
}

#[test]
fn stdout_redirection_does_not_capture_external_stderr() {
    let mut world = World::new();
    let source_path = world.temporary_file("stdout-source", "blueberry\n");
    let output_path = world.temporary_path("stdout-output");
    let missing_path = world.temporary_path("stdout-missing");
    let input = format!("cat {} {} > {}\nexit\n", source_path, missing_path, output_path);
    let output = run_shell_in(&mut world, &input);

    assert_eq!(output.stdout, "$ $ ");
    assert!(output.stderr.contains(&missing_path));
    assert_eq!(world.files[&output_path], "blueberry\n");
}

#[test]
fn stderr_redirection_does_not_capture_external_stdout() {
    let mut world = World::new();
    let source_path = world.temporary_file("stderr-source", "pear\n");
    let error_path = world.temporary_file("stderr-output", "stale error\n");
    let missing_path = world.temporary_path("stderr-missing");
    let input = format!("cat {} {} 2> {}\nexit\n", source_path, missing_path, error_path);
    let output = run_shell_in(&mut world, &input);
    let redirected_error = &world.files[&error_path];

    assert_eq!(output.stdout, "$ pear\n$ ");
    assert_eq!(output.stderr, "");
    assert!(redirected_error.contains(&missing_path));
    assert!(!redirected_error.contains("pear"));
}

#[test]
fn stderr_redirection_creates_an_empty_file_for_successful_builtins() {
    let mut world = World::new();
    let error_path = world.temporary_file("empty-stderr", "stale error\n");
    let input = format!("echo Maria file cannot be found 2> {}\nexit\n", error_path);
    let output = run_shell_in(&mut world, &input);

    assert_eq!(output.stdout, "$ Maria file cannot be found\n$ ");
    assert_eq!(output.stderr, "");
    assert_eq!(world.files[&error_path], "");
}

#[test]
fn redirection_targets_can_be_quoted() {
    let mut world = World::new();
    let output_path = world.temporary_file("redirect target with spaces", "stale content\n");
    let input = format!("echo quoted > '{}'\nexit\n", output_path);
    let output = run_shell_in(&mut world, &input);

    assert_eq!(output.stdout, "$ $ ");
    assert_eq!(output.stderr, "");
    assert_eq!(world.files[&output_path], "quoted\n");
}

#[test]
fn stdout_append_preserves_existing_content_for_builtins() {
    let mut world = World::new();
    let output_path = world.temporary_file("stdout-append", "existing\n");
    let input = format!("echo first>>{0}\necho second 1>> {0}\ncat {0}\nexit\n", output_path);
    let output = run_shell_in(&mut world, &input);

    assert_eq!(output.stdout, "$ $ $ existing\nfirst\nsecond\n$ ");
    assert_eq!(output.stderr, "");
    assert_eq!(world.files[&output_path], "existing\nfirst\nsecond\n");
}

#[test]
fn stdout_append_creates_files_and_leaves_external_stderr_on_terminal() {
    let mut world = World::new();
    let source_path = world.temporary_file("append-source", "apple\n");
    let output_path = world.temporary_path("append-created-output");
    let missing_path = world.temporary_path("append-missing");
    let input = format!("cat {} {} >> {}\nexit\n", source_path, missing_path, output_path);
    let output = run_shell_in(&mut world, &input);

    assert_eq!(output.stdout, "$ $ ");
    assert!(output.stderr.contains(&missing_path));
    assert_eq!(world.files[&output_path], "apple\n");
}

#[test]
fn stdout_overwrite_can_be_followed_by_append() {
    let mut world = World::new();
    let source_path = world.temporary_file("mixed-source", "apple\nbanana\n");
    let output_path = world.temporary_file("mixed-output", "stale\n");
    let input = format!(
        "echo List of files: > {0}\ncat {1} >> {0}\ncat {0}\nexit\n",
        output_path, source_path
    );
    let output = run_shell_in(&mut world, &input);

    assert_eq!(output.stdout, "$ $ $ List of files:\napple\nbanana\n$ ");
    assert_eq!(output.stderr, "");
}

#[test]
fn stderr_append_preserves_existing_errors_and_stdout() {
    let mut world = World::new();
    let error_path = world.temporary_file("stderr-append", "existing error\n");
    let first_missing = world.temporary_path("append-first-missing");
    let second_missing = world.temporary_path("append-second-missing");
    let input = format!(
        "cat {} 2>> {2}\nls {} 2>> {2}\necho visible 2>> {2}\nexit\n",
        first_missing, second_missing, error_path
    );
    let output = run_shell_in(&mut world, &input);
    let errors = world.files[&error_path].clone();
    let first_position = errors.find(&first_missing).expect("first error should be appended");
    let second_position = errors.find(&second_missing).expect("second error should be appended");

    assert_eq!(output.stdout, "$ $ $ visible\n$ ");
    assert_eq!(output.stderr, "");
    assert!(errors.starts_with("existing error\n"));
    assert!(first_position < second_position);
    assert!(!errors.contains("visible"));
}

#[test]
fn stderr_append_creates_an_empty_file_for_successful_builtins() {
    let mut world = World::new();
    let error_path = world.temporary_path("created-stderr-append");
    let input = format!("echo visible 2>> {}\nexit\n", error_path);
    let output = run_shell_in(&mut world, &input);

    assert_eq!(output.stdout, "$ visible\n$ ");
    assert_eq!(output.stderr, "");
    assert_eq!(world.files[&error_path], "");
}

#[test]
fn session_history_reports_bad_arguments() {
    let output = run_shell_output("history x1\nhistory -z\nhistory -r\nhistory -r /missing\nexit\n");
    assert_eq!(output.stdout, "$ $ $ $ $ ");
    assert_eq!(
        output.stderr,
        "history: x1: numeric argument required\nhistory: -z: invalid option\nhistory: -r: option requires an argument\nhistory: /missing: No such file or directory\n"
    );
}

#[test]
fn session_single_quoted_dollars_stay_literal() {
    let output = run_shell_output("declare greeting=hello\necho \"$greeting world\"\necho '${greeting}'\nexit\n");
    assert_eq!(output.stdout, "$ $ hello world\n$ ${greeting}\n$ ");
}

#[test]
fn session_cd_reports_missing_directories() {
    let output = run_shell_output("cd nowhere\ncd /tmp\ncd\npwd\nexit\n");
    assert_eq!(output.stdout, "$ $ $ $ /home/user\n$ ");
    assert_eq!(output.stderr, "cd: nowhere: No such file or directory\n");
}

#[test]
fn session_type_reports_paths_of_executables() {
    let output = run_shell_output("type cat\ntype nothing_here\ntype\nexit\n");
    assert_eq!(
        output.stdout,
        "$ cat is /usr/bin/cat\n$ nothing_here: not found\n$ $ "
    );
}

#[test]
fn session_ends_at_end_of_input_without_exit() {
    let mut world = World::new();
    let history_path = world.temporary_path("eof-histfile");
    world.environment.insert("HISTFILE".to_string(), history_path.clone());
    let output = run_shell_in(&mut world, "echo bye\n");
    assert_eq!(output.stdout, "$ bye\n$ ");
    assert_eq!(world.files[&history_path], "echo bye\n");
}
