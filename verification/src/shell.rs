//! The decisions of the read-execute loop around each prompt.

use vstd::prelude::*;

use crate::command::{execute, execute_spec, reap_completed_jobs, Execution, Shell, ShellSpec};
use crate::history::record_spec;
use crate::parser::{parse, parse_command_line};
use crate::jobs::{report_from, refreshed, still_running};
use crate::text::{decimal, decimal_string};

verus! {

/// The bytes with every line feed preceded by a carriage return, as a
/// terminal in raw mode needs them.
pub open spec fn crlf(bytes: Seq<u8>) -> Seq<u8>
    decreases bytes.len(),
{
    if bytes.len() == 0 {
        seq![]
    } else {
        crlf(bytes.drop_last()) + if bytes.last() == 10u8 {
            seq![13u8, 10u8]
        } else {
            seq![bytes.last()]
        }
    }
}

/// Puts a carriage return before every line feed (see `crlf`).
pub fn normalize_terminal_newlines(output: &[u8]) -> (result: Vec<u8>)
    ensures
        result@ == crlf(output@),
{
    let mut normalized: Vec<u8> = Vec::new();
    let mut i: usize = 0;
    while i < output.len()
        invariant
            i <= output.len(),
            normalized@ == crlf(output@.take(i as int)),
        decreases output.len() - i,
    {
        let byte = output[i];
        assert(output@.take(i + 1).drop_last() =~= output@.take(i as int));
        if byte == 10u8 {
            normalized.push(13u8);
        }
        normalized.push(byte);
        i = i + 1;
        assert(normalized@ =~= crlf(output@.take(i as int)));
    }
    assert(output@.take(output.len() as int) =~= output@);
    normalized
}

/// What is shown before reading a command: the background jobs that have
/// finished since the last prompt, then `$ `.
pub fn write_prompt(shell: &mut Shell, exited: &Vec<bool>) -> (result: String)
    requires
        old(shell).wf(),
        exited.len() == old(shell)@.jobs.len(),
    ensures
        final(shell).wf(),
        result@ == report_from(refreshed(old(shell)@.jobs, exited@), 0, true) + "$ "@,
        final(shell)@ == (ShellSpec {
            jobs: still_running(refreshed(old(shell)@.jobs, exited@)),
            ..old(shell)@
        }),
{
    let mut prompt = reap_completed_jobs(shell, exited);
    prompt.append("$ ");
    prompt
}

/// The line printed when a background job starts: its number and process id.
pub fn job_started_line(number: usize, pid: u32) -> (result: String)
    ensures
        result@ == "["@ + decimal(number as nat) + "] "@ + decimal(pid as nat) + "\n"@,
{
    let mut line = "[".to_owned();
    let n = decimal_string(number);
    line.append(n.as_str());
    line.append("] ");
    let p = decimal_string(pid as usize);
    line.append(p.as_str());
    line.append("\n");
    line
}

/// What the loop does with what it read.
pub enum LoopStep {
    /// The input has ended: the shell stops.
    Finish,
    /// Run this command line.
    Execute(Execution),
}

/// What the loop does with a line it read (`None` at the end of the input):
/// the line is recorded in the history, then parsed and planned.
pub fn accept_input(shell: &mut Shell, input: Option<&str>) -> (result: LoopStep)
    requires
        old(shell).wf(),
    ensures
        final(shell).wf(),
        match input {
            None => result is Finish && final(shell)@ == old(shell)@,
            Some(line) => {
                let recorded = ShellSpec {
                    history: record_spec(old(shell)@.history, line@),
                    ..old(shell)@
                };
                &&& final(shell)@ == recorded
                &&& result matches LoopStep::Execute(e) && e@ == execute_spec(recorded, parse(line@))
            },
        },
{
    match input {
        None => LoopStep::Finish,
        Some(line) => {
            shell.record_history(line);
            let parsed = parse_command_line(line);
            LoopStep::Execute(execute(shell, &parsed))
        },
    }
}

} // verus!
