//! What a command line does: the builtins, the decisions that come before a
//! process is launched, and the shell state that lasts from one command
//! line to the next.
//!
//! The work that needs the operating system (looking a name up in `PATH`,
//! the working directory, files, child processes) is asked for through a
//! `Request`; the caller performs it and hands back the `Answer`.

use vstd::prelude::*;

use crate::expansion::{expand_arguments, expand_words, literal_text, literal_word};
use crate::history::{
    count_of, file_lines, history_line, last_entries_listing, lemma_last_entries_push,
    lemma_listing_push, listing_from, parse_count, record_spec, render_from, History, HistorySpec,
};
use crate::jobs::{report_from, refreshed, still_running, JobSpec, JobTable};
use crate::parser::{
    stages_view, target_view, CommandSpec, CommandStage, ParsedCommand, RedirectTarget, StageSpec,
    TargetSpec,
};
use crate::text::{chars_of, join, join_strings, text_equals, words_view};
use crate::variables::{declare, declare_spec, VariableSpec, Variables};

verus! {

/// Whether the shell goes on reading commands.
#[derive(Clone, Copy, PartialEq, Eq, Structural)]
pub enum CommandOutcome {
    Continue,
    Exit,
}

/// The commands that the shell runs itself.
#[derive(Clone, Copy, PartialEq, Eq, Structural)]
pub enum Builtin {
    Exit,
    Echo,
    Type,
    Jobs,
    Pwd,
    Cd,
    History,
    Declare,
}

/// The builtin that a command name names, if any.
pub open spec fn builtin_spec(name: Seq<char>) -> Option<Builtin> {
    if name == "exit"@ {
        Some(Builtin::Exit)
    } else if name == "echo"@ {
        Some(Builtin::Echo)
    } else if name == "type"@ {
        Some(Builtin::Type)
    } else if name == "jobs"@ {
        Some(Builtin::Jobs)
    } else if name == "pwd"@ {
        Some(Builtin::Pwd)
    } else if name == "cd"@ {
        Some(Builtin::Cd)
    } else if name == "history"@ {
        Some(Builtin::History)
    } else if name == "declare"@ {
        Some(Builtin::Declare)
    } else {
        None
    }
}

/// The builtin called `command`, if there is one.
pub fn builtin_named(command: &str) -> (result: Option<Builtin>)
    ensures
        result == builtin_spec(command@),
{
    if text_equals(command, "exit") {
        Some(Builtin::Exit)
    } else if text_equals(command, "echo") {
        Some(Builtin::Echo)
    } else if text_equals(command, "type") {
        Some(Builtin::Type)
    } else if text_equals(command, "jobs") {
        Some(Builtin::Jobs)
    } else if text_equals(command, "pwd") {
        Some(Builtin::Pwd)
    } else if text_equals(command, "cd") {
        Some(Builtin::Cd)
    } else if text_equals(command, "history") {
        Some(Builtin::History)
    } else if text_equals(command, "declare") {
        Some(Builtin::Declare)
    } else {
        None
    }
}

/// Whether the shell runs `command` itself.
pub fn is_builtin(command: &str) -> (result: bool)
    ensures
        result == builtin_spec(command@) is Some,
{
    builtin_named(command).is_some()
}

/// Whether a file can be run as a command: a regular file with at least one
/// execute permission bit set.
pub fn is_executable_file(is_file: bool, mode: u32) -> (result: bool)
    ensures
        result == (is_file && (mode & 0o111u32) != 0),
{
    is_file && (mode & 0o111u32) != 0
}

/// The names of the builtins, in the order `type` and completion know them.
pub open spec fn builtin_names() -> Seq<Seq<char>> {
    seq!["echo"@, "exit"@, "type"@, "jobs"@, "pwd"@, "cd"@, "history"@, "declare"@]
}

/// The directory that `cd` asks for.
pub enum DirectoryTarget {
    Home,
    Path(String),
}

/// Work that only the operating system can do, asked for by a builtin.
pub enum Request {
    /// Nothing is needed.
    Nothing,
    /// The path of the executable file with this name in `PATH`.
    FindExecutable(String),
    /// The working directory.
    CurrentDirectory,
    /// Make this the working directory.
    ChangeDirectory(DirectoryTarget),
    /// Which of the background jobs have exited, in the order of the job table.
    PollJobs,
    /// The text of this file.
    ReadFile(String),
    /// Replace the contents of this file (creating it) with this text.
    WriteFile(String, String),
    /// Add this text at the end of this file (creating it).
    AppendFile(String, String),
}

/// How a change of directory went.
#[derive(Clone, Copy, PartialEq, Eq, Structural)]
pub enum ChangeResult {
    Changed,
    Failed,
    HomeUnset,
}

/// What the operating system answered to a `Request`.
pub enum Answer {
    Nothing,
    Executable(Option<String>),
    Directory(String),
    Changed(ChangeResult),
    JobsExited(Vec<bool>),
    FileRead(Result<String, String>),
    FileWritten(Result<(), String>),
}

/// The abstract value of a `Request`; a `ChangeDirectory` to `None` means the
/// home directory.
pub enum RequestSpec {
    Nothing,
    FindExecutable(Seq<char>),
    CurrentDirectory,
    ChangeDirectory(Option<Seq<char>>),
    PollJobs,
    ReadFile(Seq<char>),
    WriteFile(Seq<char>, Seq<char>),
    AppendFile(Seq<char>, Seq<char>),
}

/// The abstract value of an `Answer`.
pub enum AnswerSpec {
    Nothing,
    Executable(Option<Seq<char>>),
    Directory(Seq<char>),
    Changed(ChangeResult),
    JobsExited(Seq<bool>),
    FileRead(Result<Seq<char>, Seq<char>>),
    FileWritten(Result<(), Seq<char>>),
}

impl View for Request {
    type V = RequestSpec;

    open spec fn view(&self) -> RequestSpec {
        match self {
            Request::Nothing => RequestSpec::Nothing,
            Request::FindExecutable(name) => RequestSpec::FindExecutable(name@),
            Request::CurrentDirectory => RequestSpec::CurrentDirectory,
            Request::ChangeDirectory(DirectoryTarget::Home) => RequestSpec::ChangeDirectory(None),
            Request::ChangeDirectory(DirectoryTarget::Path(p)) => RequestSpec::ChangeDirectory(
                Some(p@),
            ),
            Request::PollJobs => RequestSpec::PollJobs,
            Request::ReadFile(p) => RequestSpec::ReadFile(p@),
            Request::WriteFile(p, t) => RequestSpec::WriteFile(p@, t@),
            Request::AppendFile(p, t) => RequestSpec::AppendFile(p@, t@),
        }
    }
}

impl View for Answer {
    type V = AnswerSpec;

    open spec fn view(&self) -> AnswerSpec {
        match self {
            Answer::Nothing => AnswerSpec::Nothing,
            Answer::Executable(Some(p)) => AnswerSpec::Executable(Some(p@)),
            Answer::Executable(None) => AnswerSpec::Executable(None),
            Answer::Directory(d) => AnswerSpec::Directory(d@),
            Answer::Changed(c) => AnswerSpec::Changed(*c),
            Answer::JobsExited(v) => AnswerSpec::JobsExited(v@),
            Answer::FileRead(Ok(t)) => AnswerSpec::FileRead(Ok(t@)),
            Answer::FileRead(Err(m)) => AnswerSpec::FileRead(Err(m@)),
            Answer::FileWritten(Ok(())) => AnswerSpec::FileWritten(Ok(())),
            Answer::FileWritten(Err(m)) => AnswerSpec::FileWritten(Err(m@)),
        }
    }
}

/// The state a shell keeps between command lines.
pub struct Shell {
    pub history: History,
    pub variables: Variables,
    pub jobs: JobTable,
}

/// The abstract value of the shell state.
pub struct ShellSpec {
    pub history: HistorySpec,
    pub vars: Seq<VariableSpec>,
    pub jobs: Seq<JobSpec>,
}

impl View for Shell {
    type V = ShellSpec;

    open spec fn view(&self) -> ShellSpec {
        ShellSpec { history: self.history@, vars: self.variables@, jobs: self.jobs@ }
    }
}

/// What a builtin did: whether the shell goes on, and the text for stdout
/// and for stderr.
pub struct BuiltinOutput {
    pub outcome: CommandOutcome,
    pub stdout: String,
    pub stderr: String,
}

/// The abstract value of a builtin's effect.
pub struct BuiltinSpec {
    pub shell: ShellSpec,
    pub outcome: CommandOutcome,
    pub stdout: Seq<char>,
    pub stderr: Seq<char>,
}

pub open spec fn history_option(word: Seq<char>) -> bool {
    word == "-r"@ || word == "-w"@ || word == "-a"@
}

/// What the `history` builtin asks for.
pub open spec fn history_request(h: HistorySpec, args: Seq<Seq<char>>) -> RequestSpec {
    if args.len() >= 2 && args[0] == "-r"@ {
        RequestSpec::ReadFile(args[1])
    } else if args.len() >= 2 && args[0] == "-w"@ {
        RequestSpec::WriteFile(args[1], render_from(h.entries, 0))
    } else if args.len() >= 2 && args[0] == "-a"@ {
        RequestSpec::AppendFile(args[1], render_from(h.entries, h.appended as int))
    } else {
        RequestSpec::Nothing
    }
}

/// What a builtin asks of the operating system before it can run.
pub open spec fn request_spec(s: ShellSpec, builtin: Builtin, args: Seq<Seq<char>>) -> RequestSpec {
    match builtin {
        Builtin::Type => if args.len() == 0 || builtin_spec(args[0]) is Some {
            RequestSpec::Nothing
        } else {
            RequestSpec::FindExecutable(args[0])
        },
        Builtin::Jobs => RequestSpec::PollJobs,
        Builtin::Pwd => RequestSpec::CurrentDirectory,
        Builtin::Cd => if args.len() == 0 {
            RequestSpec::Nothing
        } else if args[0] == "~"@ {
            RequestSpec::ChangeDirectory(None)
        } else {
            RequestSpec::ChangeDirectory(Some(args[0]))
        },
        Builtin::History => history_request(s.history, args),
        _ => RequestSpec::Nothing,
    }
}

/// Whether an answer is of the kind a request asks for.
pub open spec fn answer_fits(s: ShellSpec, request: RequestSpec, answer: AnswerSpec) -> bool {
    match request {
        RequestSpec::Nothing => answer is Nothing,
        RequestSpec::FindExecutable(_) => answer is Executable,
        RequestSpec::CurrentDirectory => answer is Directory,
        RequestSpec::ChangeDirectory(_) => answer is Changed,
        RequestSpec::PollJobs => answer matches AnswerSpec::JobsExited(v) && v.len() == s.jobs.len(),
        RequestSpec::ReadFile(_) => answer is FileRead,
        RequestSpec::WriteFile(_, _) => answer is FileWritten,
        RequestSpec::AppendFile(_, _) => answer is FileWritten,
    }
}

pub open spec fn no_output(s: ShellSpec) -> BuiltinSpec {
    BuiltinSpec { shell: s, outcome: CommandOutcome::Continue, stdout: seq![], stderr: seq![] }
}

pub open spec fn error_output(s: ShellSpec, message: Seq<char>) -> BuiltinSpec {
    BuiltinSpec { stderr: message, ..no_output(s) }
}

/// What `type name` prints.
pub open spec fn type_text(target: Seq<char>, found: Option<Seq<char>>) -> Seq<char> {
    if builtin_spec(target) is Some {
        target + " is a shell builtin\n"@
    } else {
        match found {
            Some(path) => target + " is "@ + path + "\n"@,
            None => target + ": not found\n"@,
        }
    }
}

/// The `history` builtin.
pub open spec fn history_spec(s: ShellSpec, args: Seq<Seq<char>>, answer: AnswerSpec) -> BuiltinSpec {
    let h = s.history;
    if args.len() == 0 {
        BuiltinSpec { stdout: listing_from(h.entries, 0), ..no_output(s) }
    } else if history_option(args[0]) {
        if args.len() < 2 {
            error_output(s, "history: "@ + args[0] + ": option requires an argument\n"@)
        } else {
            let path = args[1];
            match answer {
                AnswerSpec::FileRead(Ok(text)) => BuiltinSpec {
                    shell: ShellSpec {
                        history: HistorySpec { entries: h.entries + file_lines(text), ..h },
                        ..s
                    },
                    ..no_output(s)
                },
                AnswerSpec::FileWritten(Ok(())) => if args[0] == "-a"@ {
                    BuiltinSpec {
                        shell: ShellSpec {
                            history: HistorySpec { appended: h.entries.len(), ..h },
                            ..s
                        },
                        ..no_output(s)
                    }
                } else {
                    no_output(s)
                },
                AnswerSpec::FileRead(Err(message)) => error_output(
                    s,
                    "history: "@ + path + ": "@ + message + "\n"@,
                ),
                AnswerSpec::FileWritten(Err(message)) => error_output(
                    s,
                    "history: "@ + path + ": "@ + message + "\n"@,
                ),
                _ => no_output(s),
            }
        }
    } else if args[0].len() > 0 && args[0][0] == '-' {
        error_output(s, "history: "@ + args[0] + ": invalid option\n"@)
    } else {
        match count_of(args[0]) {
            Some(n) => BuiltinSpec { stdout: last_entries_listing(h.entries, n), ..no_output(s) },
            None => error_output(s, "history: "@ + args[0] + ": numeric argument required\n"@),
        }
    }
}

/// What a builtin does, given the answer to its request.
pub open spec fn builtin_effect(
    s: ShellSpec,
    builtin: Builtin,
    args: Seq<Seq<char>>,
    answer: AnswerSpec,
    exit_shell: bool,
) -> BuiltinSpec {
    match builtin {
        Builtin::Exit => BuiltinSpec {
            outcome: if exit_shell {
                CommandOutcome::Exit
            } else {
                CommandOutcome::Continue
            },
            ..no_output(s)
        },
        Builtin::Echo => BuiltinSpec { stdout: join(args, " "@) + "\n"@, ..no_output(s) },
        Builtin::Type => if args.len() == 0 {
            no_output(s)
        } else {
            BuiltinSpec {
                stdout: type_text(
                    args[0],
                    match answer {
                        AnswerSpec::Executable(found) => found,
                        _ => None,
                    },
                ),
                ..no_output(s)
            }
        },
        Builtin::Jobs => match answer {
            AnswerSpec::JobsExited(exited) => BuiltinSpec {
                shell: ShellSpec { jobs: still_running(refreshed(s.jobs, exited)), ..s },
                stdout: report_from(refreshed(s.jobs, exited), 0, false),
                ..no_output(s)
            },
            _ => no_output(s),
        },
        Builtin::Pwd => match answer {
            AnswerSpec::Directory(d) => BuiltinSpec { stdout: d + "\n"@, ..no_output(s) },
            _ => no_output(s),
        },
        Builtin::Cd => if args.len() == 0 {
            no_output(s)
        } else {
            match answer {
                AnswerSpec::Changed(ChangeResult::Failed) => error_output(
                    s,
                    "cd: "@ + args[0] + ": No such file or directory\n"@,
                ),
                AnswerSpec::Changed(ChangeResult::HomeUnset) => error_output(
                    s,
                    "cd: HOME not set\n"@,
                ),
                _ => no_output(s),
            }
        },
        Builtin::History => history_spec(s, args, answer),
        Builtin::Declare => {
            let r = declare_spec(s.vars, args);
            BuiltinSpec {
                shell: ShellSpec { vars: r.vars, ..s },
                stdout: r.stdout,
                stderr: r.stderr,
                ..no_output(s)
            }
        },
    }
}


/// What `type` prints (see `type_text`); nothing without a name.
pub fn execute_type(target: Option<&str>, found: Option<&str>) -> (result: String)
    ensures
        result@ == match target {
            None => Seq::<char>::empty(),
            Some(t) => type_text(
                t@,
                match found {
                    Some(p) => Some(p@),
                    None => None,
                },
            ),
        },
{
    let mut output = String::new();
    match target {
        None => {},
        Some(target) => {
            output.append(target);
            if is_builtin(target) {
                output.append(" is a shell builtin\n");
            } else {
                match found {
                    Some(path) => {
                        output.append(" is ");
                        output.append(path);
                        output.append("\n");
                    },
                    None => {
                        output.append(": not found\n");
                    },
                }
            }
        },
    }
    output
}

fn text(literal: &str) -> (result: String)
    ensures
        result@ == literal@,
{
    literal.to_owned()
}

/// `prefix` + `word` + `suffix`.
fn message(prefix: &str, word: &str, suffix: &str) -> (result: String)
    ensures
        result@ == prefix@ + word@ + suffix@,
{
    let mut result = prefix.to_owned();
    result.append(word);
    result.append(suffix);
    result
}

impl Shell {
    pub open spec fn wf(&self) -> bool {
        self.history.wf() && self.variables.wf() && self.jobs.wf()
    }

    /// A shell with no history, no variables and no jobs.
    pub fn new() -> (result: Shell)
        ensures
            result.wf(),
            result@.history.entries.len() == 0,
            result@.history.appended == 0,
            result@.vars.len() == 0,
            result@.jobs.len() == 0,
    {
        Shell { history: History::new(), variables: Variables::new(), jobs: JobTable::new() }
    }

    /// Records a submitted line in the history (see `record_spec`).
    pub fn record_history(&mut self, line: &str)
        requires
            old(self).wf(),
        ensures
            final(self).wf(),
            final(self)@ == (ShellSpec {
                history: record_spec(old(self)@.history, line@),
                ..old(self)@
            }),
    {
        self.history.record(line);
    }

    /// What `builtin args...` needs from the operating system (see
    /// `request_spec`).
    pub fn builtin_request(&self, builtin: Builtin, args: &Vec<String>) -> (result: Request)
        requires
            self.wf(),
        ensures
            result@ == request_spec(self@, builtin, words_view(args@)),
    {
        let ghost words = words_view(args@);
        match builtin {
            Builtin::Type => {
                if args.len() == 0 {
                    Request::Nothing
                } else {
                    assert(words[0] == args@[0]@);
                    if is_builtin(args[0].as_str()) {
                        Request::Nothing
                    } else {
                        Request::FindExecutable(args[0].clone())
                    }
                }
            },
            Builtin::Jobs => Request::PollJobs,
            Builtin::Pwd => Request::CurrentDirectory,
            Builtin::Cd => {
                if args.len() == 0 {
                    Request::Nothing
                } else {
                    assert(words[0] == args@[0]@);
                    if text_equals(args[0].as_str(), "~") {
                        Request::ChangeDirectory(DirectoryTarget::Home)
                    } else {
                        Request::ChangeDirectory(DirectoryTarget::Path(args[0].clone()))
                    }
                }
            },
            Builtin::History => {
                if args.len() >= 2 {
                    assert(words[0] == args@[0]@);
                    assert(words[1] == args@[1]@);
                    if text_equals(args[0].as_str(), "-r") {
                        Request::ReadFile(args[1].clone())
                    } else if text_equals(args[0].as_str(), "-w") {
                        Request::WriteFile(args[1].clone(), self.history.render(0))
                    } else if text_equals(args[0].as_str(), "-a") {
                        Request::AppendFile(args[1].clone(), self.history.render(self.history.appended))
                    } else {
                        Request::Nothing
                    }
                } else {
                    Request::Nothing
                }
            },
            _ => Request::Nothing,
        }
    }

    /// Whether `answer` is of the kind that the request of `builtin args...`
    /// asks for (see `answer_fits`).
    pub fn answer_fits(&self, builtin: Builtin, args: &Vec<String>, answer: &Answer) -> (result:
        bool)
        requires
            self.wf(),
        ensures
            result == answer_fits(self@, request_spec(self@, builtin, words_view(args@)), answer@),
    {
        let request = self.builtin_request(builtin, args);
        match request {
            Request::Nothing => matches!(answer, Answer::Nothing),
            Request::FindExecutable(_) => matches!(answer, Answer::Executable(_)),
            Request::CurrentDirectory => matches!(answer, Answer::Directory(_)),
            Request::ChangeDirectory(_) => matches!(answer, Answer::Changed(_)),
            Request::PollJobs => match answer {
                Answer::JobsExited(v) => v.len() == self.jobs.jobs.len(),
                _ => false,
            },
            Request::ReadFile(_) => matches!(answer, Answer::FileRead(_)),
            Request::WriteFile(_, _) => matches!(answer, Answer::FileWritten(_)),
            Request::AppendFile(_, _) => matches!(answer, Answer::FileWritten(_)),
        }
    }

    fn execute_history(&mut self, args: &Vec<String>, answer: &Answer) -> (result: BuiltinOutput)
        requires
            old(self).wf(),
        ensures
            final(self).wf(),
            ({
                let e = history_spec(old(self)@, words_view(args@), answer@);
                final(self)@ == e.shell && result.outcome == e.outcome && result.stdout@
                    == e.stdout && result.stderr@ == e.stderr
            }),
    {
        let ghost words = words_view(args@);
        let mut stdout = String::new();
        let mut stderr = String::new();
        if args.len() == 0 {
            stdout = self.history.listing(0);
        } else {
            assert(words[0] == args@[0]@);
            let option = text_equals(args[0].as_str(), "-r") || text_equals(args[0].as_str(), "-w")
                || text_equals(args[0].as_str(), "-a");
            if option {
                if args.len() < 2 {
                    stderr = message("history: ", args[0].as_str(), ": option requires an argument\n");
                } else {
                    assert(words[1] == args@[1]@);
                    match answer {
                        Answer::FileRead(Ok(contents)) => {
                            self.history.load(contents.as_str());
                        },
                        Answer::FileWritten(Ok(())) => {
                            if text_equals(args[0].as_str(), "-a") {
                                self.history.appended = self.history.entries.len();
                            }
                        },
                        Answer::FileRead(Err(problem)) => {
                            stderr = message("history: ", args[1].as_str(), ": ");
                            stderr.append(problem.as_str());
                            stderr.append("\n");
                        },
                        Answer::FileWritten(Err(problem)) => {
                            stderr = message("history: ", args[1].as_str(), ": ");
                            stderr.append(problem.as_str());
                            stderr.append("\n");
                        },
                        _ => {},
                    }
                }
            } else {
                let chars = chars_of(args[0].as_str());
                if chars.len() > 0 && chars[0] == '-' {
                    stderr = message("history: ", args[0].as_str(), ": invalid option\n");
                } else {
                    match parse_count(args[0].as_str()) {
                        Some(count) => {
                            let total = self.history.entries.len();
                            if count >= total {
                                stdout = self.history.listing(0);
                            } else {
                                stdout = self.history.listing(total - count);
                            }
                        },
                        None => {
                            stderr = message("history: ", args[0].as_str(), ": numeric argument required\n");
                        },
                    }
                }
            }
        }
        BuiltinOutput { outcome: CommandOutcome::Continue, stdout, stderr }
    }

    /// Runs a builtin with the answer to its request (see `builtin_effect`).
    /// `exit_shell` is false for a builtin that runs as a pipeline stage, where
    /// `exit` does not end the shell.
    pub fn run_builtin(
        &mut self,
        builtin: Builtin,
        args: &Vec<String>,
        answer: &Answer,
        exit_shell: bool,
    ) -> (result: BuiltinOutput)
        requires
            old(self).wf(),
            answer_fits(old(self)@, request_spec(old(self)@, builtin, words_view(args@)), answer@),
        ensures
            final(self).wf(),
            ({
                let e = builtin_effect(old(self)@, builtin, words_view(args@), answer@, exit_shell);
                final(self)@ == e.shell && result.outcome == e.outcome && result.stdout@
                    == e.stdout && result.stderr@ == e.stderr
            }),
    {
        let ghost words = words_view(args@);
        match builtin {
            Builtin::Exit => BuiltinOutput {
                outcome: if exit_shell {
                    CommandOutcome::Exit
                } else {
                    CommandOutcome::Continue
                },
                stdout: String::new(),
                stderr: String::new(),
            },
            Builtin::Echo => {
                let mut stdout = join_strings(args, " ");
                stdout.append("\n");
                BuiltinOutput { outcome: CommandOutcome::Continue, stdout, stderr: String::new() }
            },
            Builtin::Type => {
                let stdout = if args.len() == 0 {
                    String::new()
                } else {
                    assert(words[0] == args@[0]@);
                    let found = match answer {
                        Answer::Executable(Some(path)) => Some(path.as_str()),
                        _ => None,
                    };
                    execute_type(Some(args[0].as_str()), found)
                };
                BuiltinOutput { outcome: CommandOutcome::Continue, stdout, stderr: String::new() }
            },
            Builtin::Jobs => {
                let stdout = match answer {
                    Answer::JobsExited(exited) => self.jobs.execute_jobs(exited),
                    _ => String::new(),
                };
                BuiltinOutput { outcome: CommandOutcome::Continue, stdout, stderr: String::new() }
            },
            Builtin::Pwd => {
                let stdout = match answer {
                    Answer::Directory(directory) => {
                        let mut line = directory.clone();
                        line.append("\n");
                        line
                    },
                    _ => String::new(),
                };
                BuiltinOutput { outcome: CommandOutcome::Continue, stdout, stderr: String::new() }
            },
            Builtin::Cd => {
                let stderr = if args.len() == 0 {
                    String::new()
                } else {
                    assert(words[0] == args@[0]@);
                    match answer {
                        Answer::Changed(ChangeResult::Failed) => message(
                            "cd: ",
                            args[0].as_str(),
                            ": No such file or directory\n",
                        ),
                        Answer::Changed(ChangeResult::HomeUnset) => text("cd: HOME not set\n"),
                        _ => String::new(),
                    }
                };
                BuiltinOutput { outcome: CommandOutcome::Continue, stdout: String::new(), stderr }
            },
            Builtin::History => self.execute_history(args, answer),
            Builtin::Declare => {
                let (stdout, stderr) = declare(&mut self.variables, args);
                BuiltinOutput { outcome: CommandOutcome::Continue, stdout, stderr }
            },
        }
    }
}


// ---------------------------------------------------------------------------
// Laws of the builtins
// ---------------------------------------------------------------------------

/// Law: `cd ~` asks for the home directory, whatever follows it; `cd DIR`
/// with any other first word asks for exactly `DIR`; `cd` alone asks for
/// nothing.
pub proof fn lemma_cd_request(s: ShellSpec, dir: Seq<char>, rest: Seq<Seq<char>>)
    ensures
        request_spec(s, Builtin::Cd, seq!["~"@] + rest) == RequestSpec::ChangeDirectory(None),
        dir != "~"@ ==> request_spec(s, Builtin::Cd, seq![dir] + rest)
            == RequestSpec::ChangeDirectory(Some(dir)),
        request_spec(s, Builtin::Cd, Seq::<Seq<char>>::empty()) == RequestSpec::Nothing,
{
    assert((seq!["~"@] + rest)[0] == "~"@);
    assert((seq![dir] + rest)[0] == dir);
}

/// Law: `cd DIR` prints nothing on stdout and changes no shell state; it
/// reports on stderr exactly when the change failed (naming `DIR` as it was
/// typed, `~` included) or when there is no home directory to go to.
/// `pwd` prints the directory it was told, then a line feed.
pub proof fn lemma_cd_and_pwd_output(
    s: ShellSpec,
    dir: Seq<char>,
    rest: Seq<Seq<char>>,
    change: ChangeResult,
    directory: Seq<char>,
    exit_shell: bool,
)
    ensures
        ({
            let e = builtin_effect(
                s,
                Builtin::Cd,
                seq![dir] + rest,
                AnswerSpec::Changed(change),
                exit_shell,
            );
            &&& e.shell == s && e.stdout.len() == 0 && e.outcome == CommandOutcome::Continue
            &&& e.stderr == match change {
                ChangeResult::Changed => Seq::<char>::empty(),
                ChangeResult::Failed => "cd: "@ + dir + ": No such file or directory\n"@,
                ChangeResult::HomeUnset => "cd: HOME not set\n"@,
            }
        }),
        ({
            let e = builtin_effect(
                s,
                Builtin::Pwd,
                Seq::<Seq<char>>::empty(),
                AnswerSpec::Directory(directory),
                exit_shell,
            );
            &&& e.shell == s && e.stderr.len() == 0 && e.stdout == directory + "\n"@
        }),
{
    assert((seq![dir] + rest)[0] == dir);
}

/// Law: `echo` prints its words separated by single spaces and ends with
/// exactly one line feed, also when it has no words; one more word adds a
/// space (unless it is the first) and the word before that line feed.  It
/// writes nothing to stderr and changes nothing.
pub proof fn lemma_echo_output(
    s: ShellSpec,
    args: Seq<Seq<char>>,
    word: Seq<char>,
    answer: AnswerSpec,
    exit_shell: bool,
)
    ensures
        ({
            let e = builtin_effect(s, Builtin::Echo, args, answer, exit_shell);
            let more = builtin_effect(s, Builtin::Echo, args.push(word), answer, exit_shell);
            &&& e.stdout.len() > 0 && e.stdout.last() == '\n'
            &&& args.len() == 0 ==> e.stdout == "\n"@
            &&& args.len() == 1 ==> e.stdout == args[0] + "\n"@
            &&& more.stdout == if args.len() == 0 {
                word + "\n"@
            } else {
                e.stdout.drop_last() + " "@ + word + "\n"@
            }
            &&& e.shell == s && e.stderr.len() == 0 && e.outcome == CommandOutcome::Continue
        }),
{
    reveal_strlit("\n");
    let longer = args.push(word);
    assert(longer.drop_last() =~= args);
    assert(longer.last() == word);
    let e = builtin_effect(s, Builtin::Echo, args, answer, exit_shell);
    assert(e.stdout.drop_last() =~= join(args, " "@));
    if args.len() == 0 {
        assert(join(longer, " "@) == word);
    } else {
        assert(join(longer, " "@) == join(args, " "@) + " "@ + word);
    }
}

/// The shell state with one more history entry.
pub open spec fn with_entry(s: ShellSpec, entry: Seq<char>) -> ShellSpec {
    ShellSpec { history: HistorySpec { entries: s.history.entries.push(entry), ..s.history }, ..s }
}

/// Law: `history` lists every entry, numbered from one: nothing when there
/// are none, and one more entry adds exactly its line at the end.  A count
/// at least the number of entries lists the same as no count; `history 0`
/// lists nothing; `history n` after one more entry lists what `history n-1`
/// listed before, then the new entry's line.  Listing changes nothing and
/// writes nothing to stderr.
pub proof fn lemma_history_listing(
    s: ShellSpec,
    entry: Seq<char>,
    word: Seq<char>,
    smaller: Seq<char>,
    answer: AnswerSpec,
)
    requires
        count_of(word) is Some,
    ensures
        ({
            let none = Seq::<Seq<char>>::empty();
            let all = history_spec(s, none, answer);
            let counted = history_spec(s, seq![word], answer);
            let n = count_of(word)->0;
            let line = history_line((s.history.entries.len() + 1) as nat, entry);
            &&& s.history.entries.len() == 0 ==> all.stdout.len() == 0
            &&& history_spec(with_entry(s, entry), none, answer).stdout == all.stdout + line
            &&& n >= s.history.entries.len() ==> counted.stdout == all.stdout
            &&& n == 0 ==> counted.stdout.len() == 0
            &&& count_of(smaller) is Some && count_of(smaller)->0 + 1 == n ==> history_spec(
                with_entry(s, entry),
                seq![word],
                answer,
            ).stdout == history_spec(s, seq![smaller], answer).stdout + line
            &&& all.shell == s && all.stderr.len() == 0
            &&& counted.shell == s && counted.stderr.len() == 0
        }),
{
    reveal_strlit("-r");
    reveal_strlit("-w");
    reveal_strlit("-a");
    let entries = s.history.entries;
    let n = count_of(word)->0;
    lemma_listing_push(entries, entry, 0);
    lemma_last_entries_push(entries, entry, n);
    assert(word.len() > 0 && '0' <= word[0] && word[0] <= '9');
    assert(!history_option(word)) by {
        if word.len() == 2 {
            assert(word[0] != '-');
        }
    }
    assert(seq![word][0] == word);
    if count_of(smaller) is Some && count_of(smaller)->0 + 1 == n {
        let m = count_of(smaller)->0;
        lemma_last_entries_push(entries, entry, m);
        assert(smaller.len() > 0 && '0' <= smaller[0] && smaller[0] <= '9');
        assert(!history_option(smaller)) by {
            if smaller.len() == 2 {
                assert(smaller[0] != '-');
            }
        }
        assert(seq![smaller][0] == smaller);
    }
}

/// A builtin to run in the shell itself.
pub struct BuiltinCall {
    pub builtin: Builtin,
    pub arguments: Vec<String>,
    pub stdout: Option<RedirectTarget>,
    pub stderr: Option<RedirectTarget>,
}

/// An external program to launch, in the foreground or the background.
pub struct ExternalCall {
    pub command: String,
    pub arguments: Vec<String>,
    pub stdout: Option<RedirectTarget>,
    pub stderr: Option<RedirectTarget>,
    pub background: bool,
}

/// One process of a pipeline.  A builtin stage runs in a fresh copy of the
/// shell; `pipe_stdout` sends the output to the next stage.
pub struct PipelineStage {
    pub builtin: bool,
    pub command: String,
    pub arguments: Vec<String>,
    pub pipe_stdout: bool,
    pub stdout: Option<RedirectTarget>,
    pub stderr: Option<RedirectTarget>,
}

/// What a command line asks the shell to do.
pub enum Execution {
    Nothing,
    Builtin(BuiltinCall),
    External(ExternalCall),
    Pipeline(Vec<PipelineStage>),
}

/// The abstract value of a pipeline stage to launch.
pub struct LaunchSpec {
    pub builtin: bool,
    pub command: Seq<char>,
    pub arguments: Seq<Seq<char>>,
    pub pipe_stdout: bool,
    pub stdout: Option<TargetSpec>,
    pub stderr: Option<TargetSpec>,
}

/// The abstract value of an `Execution`.
pub enum ExecutionSpec {
    Nothing,
    Builtin {
        builtin: Builtin,
        arguments: Seq<Seq<char>>,
        stdout: Option<TargetSpec>,
        stderr: Option<TargetSpec>,
    },
    External {
        command: Seq<char>,
        arguments: Seq<Seq<char>>,
        stdout: Option<TargetSpec>,
        stderr: Option<TargetSpec>,
        background: bool,
    },
    Pipeline(Seq<LaunchSpec>),
}

impl View for PipelineStage {
    type V = LaunchSpec;

    open spec fn view(&self) -> LaunchSpec {
        LaunchSpec {
            builtin: self.builtin,
            command: self.command@,
            arguments: words_view(self.arguments@),
            pipe_stdout: self.pipe_stdout,
            stdout: target_view(self.stdout),
            stderr: target_view(self.stderr),
        }
    }
}

impl View for Execution {
    type V = ExecutionSpec;

    open spec fn view(&self) -> ExecutionSpec {
        match self {
            Execution::Nothing => ExecutionSpec::Nothing,
            Execution::Builtin(call) => ExecutionSpec::Builtin {
                builtin: call.builtin,
                arguments: words_view(call.arguments@),
                stdout: target_view(call.stdout),
                stderr: target_view(call.stderr),
            },
            Execution::External(call) => ExecutionSpec::External {
                command: call.command@,
                arguments: words_view(call.arguments@),
                stdout: target_view(call.stdout),
                stderr: target_view(call.stderr),
                background: call.background,
            },
            Execution::Pipeline(stages) => ExecutionSpec::Pipeline(
                stages@.map_values(|p: PipelineStage| p@),
            ),
        }
    }
}

/// A redirection target as it is used: its path taken literally, with no
/// parameter expansion (expansion applies to the command's words only).
pub open spec fn literal_target(target: Option<TargetSpec>) -> Option<TargetSpec> {
    match target {
        Some(t) => Some(TargetSpec { path: literal_text(t.path), append: t.append }),
        None => None,
    }
}

/// A stage with the parameters of its words expanded (see `expand_words`);
/// its redirection targets are taken literally.
pub open spec fn expand_stage(stage: StageSpec, vars: Seq<VariableSpec>) -> StageSpec {
    StageSpec {
        arguments: expand_words(stage.arguments, vars),
        stdout: literal_target(stage.stdout),
        stderr: literal_target(stage.stderr),
    }
}

/// How one stage of a pipeline is launched.
pub open spec fn launch_spec(stage: StageSpec, pipe_stdout: bool) -> LaunchSpec {
    LaunchSpec {
        builtin: builtin_spec(stage.arguments[0]) is Some,
        command: stage.arguments[0],
        arguments: stage.arguments.drop_first(),
        pipe_stdout,
        stdout: if pipe_stdout {
            None
        } else {
            stage.stdout
        },
        stderr: stage.stderr,
    }
}

/// A pipeline runs only when every stage names a command; each stage but the
/// last sends its output to the next.
pub open spec fn pipeline_spec(stages: Seq<StageSpec>) -> ExecutionSpec {
    if exists|i: int| 0 <= i < stages.len() && #[trigger] stages[i].arguments.len() == 0 {
        ExecutionSpec::Nothing
    } else {
        ExecutionSpec::Pipeline(
            Seq::new(stages.len(), |i: int| launch_spec(stages[i], i + 1 < stages.len())),
        )
    }
}

/// What a parsed command line does, after parameter expansion: nothing for
/// an empty line or an empty command, a builtin, an external program (in
/// the background when the line ended with `&`), or a pipeline.
pub open spec fn execute_spec(s: ShellSpec, command: CommandSpec) -> ExecutionSpec {
    let stages = command.stages.map_values(|st: StageSpec| expand_stage(st, s.vars));
    if stages.len() == 0 {
        ExecutionSpec::Nothing
    } else if stages.len() == 1 {
        let stage = stages[0];
        if stage.arguments.len() == 0 {
            ExecutionSpec::Nothing
        } else {
            match builtin_spec(stage.arguments[0]) {
                Some(b) => ExecutionSpec::Builtin {
                    builtin: b,
                    arguments: stage.arguments.drop_first(),
                    stdout: stage.stdout,
                    stderr: stage.stderr,
                },
                None => ExecutionSpec::External {
                    command: stage.arguments[0],
                    arguments: stage.arguments.drop_first(),
                    stdout: stage.stdout,
                    stderr: stage.stderr,
                    background: command.background,
                },
            }
        }
    } else {
        pipeline_spec(stages)
    }
}

/// Law: every stage of a command line runs its own words after parameter
/// expansion, however many stages the line has: the first expanded word is
/// the command and the rest are its arguments.  A single stage runs as a
/// builtin when the command names one, else as an external program (in the
/// background when the line asked for it); two or more stages run as a
/// pipeline in which each stage but the last sends its output to the next.
/// Redirection targets are taken literally.  A line with no stage, or with a
/// stage whose words expand to nothing, runs nothing.
pub proof fn lemma_execute_expands_every_stage(s: ShellSpec, command: CommandSpec)
    ensures
        ({
            let n = command.stages.len();
            let words = |i: int| expand_words(command.stages[i].arguments, s.vars);
            let plan = execute_spec(s, command);
            &&& (n == 0 || exists|i: int| 0 <= i < n && (#[trigger] words(i)).len() == 0) ==> plan
                is Nothing
            &&& n == 1 && words(0).len() > 0 ==> match plan {
                ExecutionSpec::Builtin { builtin, arguments, stdout, stderr } => {
                    &&& builtin_spec(words(0)[0]) == Some(builtin)
                    &&& arguments == words(0).drop_first()
                    &&& stdout == literal_target(command.stages[0].stdout)
                    &&& stderr == literal_target(command.stages[0].stderr)
                },
                ExecutionSpec::External { command: name, arguments, stdout, stderr, background } => {
                    &&& builtin_spec(words(0)[0]) is None
                    &&& seq![name] + arguments == words(0)
                    &&& stdout == literal_target(command.stages[0].stdout)
                    &&& stderr == literal_target(command.stages[0].stderr)
                    &&& background == command.background
                },
                _ => false,
            }
            &&& n >= 2 && (forall|i: int| 0 <= i < n ==> (#[trigger] words(i)).len() > 0) ==> match plan {
                ExecutionSpec::Pipeline(launches) => {
                    &&& launches.len() == n
                    &&& forall|i: int|
                        #![trigger launches[i]]
                        0 <= i < n ==> {
                            &&& seq![launches[i].command] + launches[i].arguments == words(i)
                            &&& launches[i].builtin == builtin_spec(launches[i].command) is Some
                            &&& launches[i].pipe_stdout == (i + 1 < n)
                            &&& launches[i].stdout == if i + 1 < n {
                                None
                            } else {
                                literal_target(command.stages[i].stdout)
                            }
                            &&& launches[i].stderr == literal_target(command.stages[i].stderr)
                        }
                },
                _ => false,
            }
        }),
{
    let n = command.stages.len();
    let stages = command.stages.map_values(|st: StageSpec| expand_stage(st, s.vars));
    let words = |i: int| expand_words(command.stages[i].arguments, s.vars);
    assert forall|i: int| 0 <= i < n implies #[trigger] stages[i] == expand_stage(
        command.stages[i],
        s.vars,
    ) && stages[i].arguments == words(i) by {}
    if exists|i: int| 0 <= i < n && (#[trigger] words(i)).len() == 0 {
        let k = choose|i: int| 0 <= i < n && (#[trigger] words(i)).len() == 0;
        assert(stages[k].arguments.len() == 0);
    }
    if n == 1 && words(0).len() > 0 {
        assert(stages[0].arguments == words(0));
        assert(seq![words(0)[0]] + words(0).drop_first() =~= words(0));
    }
    if n >= 2 && (forall|i: int| 0 <= i < n ==> (#[trigger] words(i)).len() > 0) {
        assert(!exists|i: int| 0 <= i < stages.len() && #[trigger] stages[i].arguments.len() == 0);
        match execute_spec(s, command) {
            ExecutionSpec::Pipeline(launches) => {
                assert forall|i: int| 0 <= i < n implies seq![launches[i].command]
                    + launches[i].arguments == words(i) by {
                    assert(words(i).len() > 0);
                    assert(seq![words(i)[0]] + words(i).drop_first() =~= words(i));
                }
            },
            _ => {},
        }
    }
}

fn copy_target(target: &Option<RedirectTarget>) -> (result: Option<RedirectTarget>)
    ensures
        target_view(result) == target_view(*target),
{
    match target {
        Some(t) => Some(RedirectTarget { path: t.path.clone(), append: t.append }),
        None => None,
    }
}

fn literal_redirection(target: &Option<RedirectTarget>) -> (result: Option<RedirectTarget>)
    ensures
        target_view(result) == literal_target(target_view(*target)),
{
    match target {
        Some(t) => Some(RedirectTarget { path: literal_word(t.path.as_str()), append: t.append }),
        None => None,
    }
}

fn expand_command_stage(stage: &CommandStage, vars: &Variables) -> (result: CommandStage)
    requires
        vars.wf(),
    ensures
        result@ == expand_stage(stage@, vars@),
{
    CommandStage {
        arguments: expand_arguments(&stage.arguments, vars),
        stdout: literal_redirection(&stage.stdout),
        stderr: literal_redirection(&stage.stderr),
    }
}

/// The words after the first.
fn tail_words(words: &Vec<String>) -> (result: Vec<String>)
    requires
        words.len() > 0,
    ensures
        words_view(result@) == words_view(words@).drop_first(),
{
    let mut result: Vec<String> = Vec::new();
    let mut i: usize = 1;
    while i < words.len()
        invariant
            1 <= i <= words.len(),
            words_view(result@) == words_view(words@).subrange(1, i as int),
        decreases words.len() - i,
    {
        let ghost before = result@;
        let word = words[i].clone();
        result.push(word);
        assert(words_view(result@) =~= words_view(before).push(word@));
        assert(words_view(result@) =~= words_view(words@).subrange(1, i + 1));
        i = i + 1;
    }
    assert(words_view(words@).subrange(1, words.len() as int) =~= words_view(words@).drop_first());
    result
}

/// Plans a pipeline of expanded stages (see `pipeline_spec`).
pub fn execute_pipeline(stages: &Vec<CommandStage>) -> (result: Execution)
    ensures
        result@ == pipeline_spec(stages_view(stages@)),
{
    let ghost views = stages_view(stages@);
    let n = stages.len();
    let mut i: usize = 0;
    while i < n
        invariant
            n == stages.len(),
            views == stages_view(stages@),
            i <= n,
            forall|k: int| 0 <= k < i ==> #[trigger] views[k].arguments.len() > 0,
        decreases n - i,
    {
        assert(views[i as int] == stages@[i as int]@);
        if stages[i].arguments.len() == 0 {
            assert(views[i as int].arguments.len() == 0);
            return Execution::Nothing;
        }
        i = i + 1;
    }
    let mut launches: Vec<PipelineStage> = Vec::new();
    let mut i: usize = 0;
    while i < n
        invariant
            n == stages.len(),
            views == stages_view(stages@),
            i <= n,
            forall|k: int| 0 <= k < n ==> #[trigger] views[k].arguments.len() > 0,
            launches@.len() == i,
            forall|k: int|
                0 <= k < i ==> #[trigger] launches@[k]@ == launch_spec(views[k], k + 1 < n),
        decreases n - i,
    {
        let stage = &stages[i];
        assert(views[i as int] == stage@);
        assert(views[i as int].arguments.len() > 0);
        let pipe_stdout = i + 1 < n;
        let command = stage.arguments[0].clone();
        let launch = PipelineStage {
            builtin: is_builtin(command.as_str()),
            command,
            arguments: tail_words(&stage.arguments),
            pipe_stdout,
            stdout: if pipe_stdout {
                None
            } else {
                copy_target(&stage.stdout)
            },
            stderr: copy_target(&stage.stderr),
        };
        launches.push(launch);
        i = i + 1;
    }
    let result = Execution::Pipeline(launches);
    assert(result@ matches ExecutionSpec::Pipeline(ls) && ls =~= Seq::new(
        views.len(),
        |k: int| launch_spec(views[k], k + 1 < views.len()),
    ));
    result
}

/// Plans a parsed command line (see `execute_spec`).
pub fn execute(shell: &Shell, parsed: &ParsedCommand) -> (result: Execution)
    requires
        shell.wf(),
    ensures
        result@ == execute_spec(shell@, parsed@),
{
    let ghost expanded_view = parsed@.stages.map_values(|st: StageSpec| expand_stage(st, shell@.vars));
    let mut stages: Vec<CommandStage> = Vec::new();
    let mut i: usize = 0;
    while i < parsed.stages.len()
        invariant
            i <= parsed.stages.len(),
            shell.wf(),
            expanded_view == parsed@.stages.map_values(|st: StageSpec| expand_stage(st, shell@.vars)),
            stages_view(stages@) == expanded_view.take(i as int),
        decreases parsed.stages.len() - i,
    {
        let ghost before = stages@;
        let stage = expand_command_stage(&parsed.stages[i], &shell.variables);
        let ghost stage_view = stage@;
        stages.push(stage);
        assert(stages_view(stages@) =~= stages_view(before).push(stage_view));
        assert(stages_view(stages@) =~= expanded_view.take(i + 1));
        i = i + 1;
    }
    assert(expanded_view.take(i as int) =~= expanded_view);
    if stages.len() == 0 {
        Execution::Nothing
    } else if stages.len() == 1 {
        let stage = &stages[0];
        assert(stage@ == expanded_view[0]);
        if stage.arguments.len() == 0 {
            Execution::Nothing
        } else {
            let command = stage.arguments[0].clone();
            let arguments = tail_words(&stage.arguments);
            match builtin_named(command.as_str()) {
                Some(builtin) => Execution::Builtin(
                    BuiltinCall {
                        builtin,
                        arguments,
                        stdout: copy_target(&stage.stdout),
                        stderr: copy_target(&stage.stderr),
                    },
                ),
                None => Execution::External(
                    ExternalCall {
                        command,
                        arguments,
                        stdout: copy_target(&stage.stdout),
                        stderr: copy_target(&stage.stderr),
                        background: parsed.run_in_background,
                    },
                ),
            }
        }
    } else {
        execute_pipeline(&stages)
    }
}

/// What a missing external command reports on stderr.
pub fn command_not_found(command: &str) -> (result: String)
    ensures
        result@ == command@ + ": command not found\n"@,
{
    let mut result = command.to_owned();
    result.append(": command not found\n");
    result
}

/// Reports the background jobs that finished since the last report (with
/// the exits observed) and forgets them.
pub fn reap_completed_jobs(shell: &mut Shell, exited: &Vec<bool>) -> (result: String)
    requires
        old(shell).wf(),
        exited.len() == old(shell)@.jobs.len(),
    ensures
        final(shell).wf(),
        result@ == report_from(refreshed(old(shell)@.jobs, exited@), 0, true),
        final(shell)@ == (ShellSpec {
            jobs: still_running(refreshed(old(shell)@.jobs, exited@)),
            ..old(shell)@
        }),
{
    shell.jobs.reap(exited)
}

} // verus!
