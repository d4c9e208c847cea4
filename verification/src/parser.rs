//! The command-line grammar: words, quoting, escaping, output redirections,
//! pipeline stages and a trailing `&`.
//!
//! The grammar is given by `scan`, a character-at-a-time state machine over
//! the input, and `parse`, which closes the last word and stage.  The
//! executable parser is proved to compute exactly `parse`.

use vstd::prelude::*;

use crate::text::{chars_of, is_space, is_whitespace, words_view};

verus! {

/// Stands in a parsed word for a `$` that was written inside single quotes,
/// so that parameter expansion leaves it alone.
pub const LITERAL_DOLLAR: char = '\u{0}';

/// The file that receives one output stream of a command.
pub struct RedirectTarget {
    pub path: String,
    pub append: bool,
}

/// One command of a pipeline: its words and its output redirections.
pub struct CommandStage {
    pub arguments: Vec<String>,
    pub stdout: Option<RedirectTarget>,
    pub stderr: Option<RedirectTarget>,
}

/// A parsed command line: its pipeline stages, and whether a `&` asked for
/// it to run in the background.
pub struct ParsedCommand {
    pub stages: Vec<CommandStage>,
    pub run_in_background: bool,
}

/// The quoting context of the scanner.
#[derive(Clone, Copy, PartialEq, Eq, Structural)]
pub enum QuoteMode {
    Unquoted,
    Single,
    Double,
}

/// The output stream that a redirection operator names.
#[derive(Clone, Copy, PartialEq, Eq, Structural)]
pub enum RedirectStream {
    Stdout,
    Stderr,
}

/// A redirection operator that still waits for its target word.
#[derive(Clone, Copy, PartialEq, Eq, Structural)]
pub struct PendingRedirection {
    pub stream: RedirectStream,
    pub append: bool,
}

/// The abstract value of a redirection target.
pub struct TargetSpec {
    pub path: Seq<char>,
    pub append: bool,
}

/// The abstract value of a pipeline stage.
pub struct StageSpec {
    pub arguments: Seq<Seq<char>>,
    pub stdout: Option<TargetSpec>,
    pub stderr: Option<TargetSpec>,
}

/// The abstract value of a parsed command line.
pub struct CommandSpec {
    pub stages: Seq<StageSpec>,
    pub background: bool,
}

/// The scanner's state between two characters.
pub struct Scan {
    /// Stages already closed by a `|`.
    pub done: Seq<StageSpec>,
    /// The stage being filled.
    pub stage: StageSpec,
    /// The word being built.
    pub word: Seq<char>,
    /// Whether the word has begun (an empty pair of quotes begins one).
    pub started: bool,
    pub quote: QuoteMode,
    pub pending: Option<PendingRedirection>,
    pub background: bool,
}

impl View for RedirectTarget {
    type V = TargetSpec;

    open spec fn view(&self) -> TargetSpec {
        TargetSpec { path: self.path@, append: self.append }
    }
}

pub open spec fn target_view(target: Option<RedirectTarget>) -> Option<TargetSpec> {
    match target {
        Some(t) => Some(t@),
        None => None,
    }
}

impl View for CommandStage {
    type V = StageSpec;

    open spec fn view(&self) -> StageSpec {
        StageSpec {
            arguments: words_view(self.arguments@),
            stdout: target_view(self.stdout),
            stderr: target_view(self.stderr),
        }
    }
}

pub open spec fn stages_view(stages: Seq<CommandStage>) -> Seq<StageSpec> {
    stages.map_values(|s: CommandStage| s@)
}

impl View for ParsedCommand {
    type V = CommandSpec;

    open spec fn view(&self) -> CommandSpec {
        CommandSpec { stages: stages_view(self.stages@), background: self.run_in_background }
    }
}

pub open spec fn empty_stage() -> StageSpec {
    StageSpec { arguments: seq![], stdout: None, stderr: None }
}

pub open spec fn stage_is_empty(stage: StageSpec) -> bool {
    stage.arguments.len() == 0 && stage.stdout is None && stage.stderr is None
}

pub open spec fn initial_scan() -> Scan {
    Scan {
        done: seq![],
        stage: empty_stage(),
        word: seq![],
        started: false,
        quote: QuoteMode::Unquoted,
        pending: None,
        background: false,
    }
}

/// Closes the word being built, if one has begun: it becomes the target of
/// a waiting redirection, or else the stage's next argument.
pub open spec fn complete(s: Scan) -> Scan {
    if !s.started {
        s
    } else {
        let stage = match s.pending {
            Some(p) => {
                let target = TargetSpec { path: s.word, append: p.append };
                match p.stream {
                    RedirectStream::Stdout => StageSpec { stdout: Some(target), ..s.stage },
                    RedirectStream::Stderr => StageSpec { stderr: Some(target), ..s.stage },
                }
            },
            None => StageSpec { arguments: s.stage.arguments.push(s.word), ..s.stage },
        };
        Scan { stage: stage, word: seq![], started: false, pending: None, ..s }
    }
}

/// Adds one character to the word being built.
pub open spec fn add_char(s: Scan, c: char) -> Scan {
    Scan { word: s.word.push(c), started: true, ..s }
}

/// Closes the stage being filled and starts the next one.
pub open spec fn next_stage(s: Scan) -> Scan {
    Scan { done: s.done.push(s.stage), stage: empty_stage(), pending: None, ..s }
}

/// Runs the scanner from state `s` over the characters `rest`.
pub open spec fn scan(s: Scan, rest: Seq<char>) -> Scan
    decreases rest.len(),
{
    if rest.len() == 0 {
        s
    } else {
        let c = rest[0];
        let tail = rest.drop_first();
        match s.quote {
            QuoteMode::Unquoted => {
                if is_space(c) {
                    scan(complete(s), tail)
                } else if (c == '1' || c == '2') && !s.started && tail.len() > 0 && tail[0] == '>' {
                    let append = tail.len() > 1 && tail[1] == '>';
                    let stream = if c == '2' {
                        RedirectStream::Stderr
                    } else {
                        RedirectStream::Stdout
                    };
                    let next = Scan {
                        pending: Some(PendingRedirection { stream, append }),
                        ..s
                    };
                    if append {
                        scan(next, tail.skip(2))
                    } else {
                        scan(next, tail.skip(1))
                    }
                } else if c == '>' {
                    let append = tail.len() > 0 && tail[0] == '>';
                    let next = Scan {
                        pending: Some(
                            PendingRedirection { stream: RedirectStream::Stdout, append },
                        ),
                        ..complete(s)
                    };
                    if append {
                        scan(next, tail.skip(1))
                    } else {
                        scan(next, tail)
                    }
                } else if c == '|' {
                    scan(next_stage(complete(s)), tail)
                } else if c == '&' && all_space(tail) {
                    scan(Scan { background: true, ..complete(s) }, tail)
                } else if c == '\'' {
                    scan(Scan { quote: QuoteMode::Single, started: true, ..s }, tail)
                } else if c == '"' {
                    scan(Scan { quote: QuoteMode::Double, started: true, ..s }, tail)
                } else if c == '\\' {
                    if tail.len() > 0 {
                        scan(add_char(s, tail[0]), tail.drop_first())
                    } else {
                        scan(Scan { started: true, ..s }, tail)
                    }
                } else {
                    scan(add_char(s, c), tail)
                }
            },
            QuoteMode::Single => {
                if c == '\'' {
                    scan(Scan { quote: QuoteMode::Unquoted, ..s }, tail)
                } else if c == '$' {
                    scan(add_char(s, LITERAL_DOLLAR), tail)
                } else {
                    scan(add_char(s, c), tail)
                }
            },
            QuoteMode::Double => {
                if c == '"' {
                    scan(Scan { quote: QuoteMode::Unquoted, ..s }, tail)
                } else if c == '\\' {
                    if tail.len() > 0 && (tail[0] == '"' || tail[0] == '\\') {
                        scan(add_char(s, tail[0]), tail.drop_first())
                    } else {
                        scan(add_char(s, '\\'), tail)
                    }
                } else {
                    scan(add_char(s, c), tail)
                }
            },
        }
    }
}

/// Closes the last word and the last stage; a line with no words and no
/// redirections has no stages at all.
pub open spec fn finish(s: Scan) -> CommandSpec {
    let f = complete(s);
    CommandSpec {
        stages: if f.done.len() == 0 && stage_is_empty(f.stage) {
            seq![]
        } else {
            f.done.push(f.stage)
        },
        background: f.background,
    }
}

/// What a command line means.
pub open spec fn parse(input: Seq<char>) -> CommandSpec {
    finish(scan(initial_scan(), input))
}

/// The executable scanner state.
struct Scanner {
    stages: Vec<CommandStage>,
    stage: CommandStage,
    current: String,
    token_started: bool,
    mode: QuoteMode,
    pending_redirection: Option<PendingRedirection>,
    background: bool,
}

impl View for Scanner {
    type V = Scan;

    closed spec fn view(&self) -> Scan {
        Scan {
            done: stages_view(self.stages@),
            stage: self.stage@,
            word: self.current@,
            started: self.token_started,
            quote: self.mode,
            pending: self.pending_redirection,
            background: self.background,
        }
    }
}

/// Whether nothing but white space follows position `from`.
fn only_space_from(characters: &Vec<char>, from: usize) -> (result: bool)
    requires
        from <= characters.len(),
    ensures
        result == all_space(characters@.skip(from as int)),
{
    let mut i = from;
    while i < characters.len()
        invariant
            from <= i <= characters.len(),
            forall|j: int| from <= j < i ==> is_space(#[trigger] characters@[j]),
        decreases characters.len() - i,
    {
        if !is_whitespace(characters[i]) {
            assert(characters@.skip(from as int)[i - from] == characters@[i as int]);
            return false;
        }
        i = i + 1;
    }
    assert forall|j: int| 0 <= j < characters@.skip(from as int).len() implies is_space(
        #[trigger] characters@.skip(from as int)[j],
    ) by {
        assert(characters@.skip(from as int)[j] == characters@[from + j]);
    }
    true
}

fn empty_command_stage() -> (stage: CommandStage)
    ensures
        stage@ == empty_stage(),
{
    let stage = CommandStage { arguments: Vec::new(), stdout: None, stderr: None };
    assert(stage@.arguments =~= seq![]);
    stage
}

/// Closes the word being built (see `complete`).
fn complete_argument(scanner: &mut Scanner)
    ensures
        final(scanner)@ == complete(old(scanner)@),
{
    if !scanner.token_started {
        return ;
    }
    let mut argument = String::new();
    std::mem::swap(&mut argument, &mut scanner.current);
    match scanner.pending_redirection {
        Some(redirection) => {
            let target = RedirectTarget { path: argument, append: redirection.append };
            match redirection.stream {
                RedirectStream::Stdout => scanner.stage.stdout = Some(target),
                RedirectStream::Stderr => scanner.stage.stderr = Some(target),
            }
        },
        None => {
            let ghost before = scanner.stage.arguments@;
            scanner.stage.arguments.push(argument);
            assert(words_view(scanner.stage.arguments@) =~= words_view(before).push(
                old(scanner)@.word,
            ));
        },
    }
    scanner.pending_redirection = None;
    scanner.token_started = false;
    assert(final(scanner)@.stage =~= complete(old(scanner)@).stage);
}

fn push_char(scanner: &mut Scanner, c: char)
    ensures
        final(scanner)@ == add_char(old(scanner)@, c),
{
    scanner.current.push(c);
    scanner.token_started = true;
}

fn close_stage(scanner: &mut Scanner)
    ensures
        final(scanner)@ == next_stage(old(scanner)@),
{
    let mut stage = empty_command_stage();
    std::mem::swap(&mut stage, &mut scanner.stage);
    let ghost before = scanner.stages@;
    scanner.stages.push(stage);
    assert(stages_view(scanner.stages@) =~= stages_view(before).push(old(scanner)@.stage));
    scanner.pending_redirection = None;
}

/// Parses one command line (see `parse`).
pub fn parse_command_line(input: &str) -> (command: ParsedCommand)
    ensures
        command@ == parse(input@),
{
    let characters = chars_of(input);
    let n = characters.len();
    let mut scanner = Scanner {
        stages: Vec::new(),
        stage: empty_command_stage(),
        current: String::new(),
        token_started: false,
        mode: QuoteMode::Unquoted,
        pending_redirection: None,
        background: false,
    };
    assert(stages_view(scanner.stages@) =~= Seq::<StageSpec>::empty());
    assert(scanner@ == initial_scan());
    assert(characters@.skip(0) =~= characters@);
    let mut i: usize = 0;
    while i < n
        invariant
            n == characters.len(),
            characters@ == input@,
            i <= n,
            scan(scanner@, characters@.skip(i as int)) == scan(initial_scan(), input@),
        decreases n - i,
    {
        let ghost rest = characters@.skip(i as int);
        let ghost before = scanner@;
        let character = characters[i];
        assert(rest[0] == character);
        assert(rest.drop_first() =~= characters@.skip(i + 1));
        match scanner.mode {
            QuoteMode::Unquoted => {
                if is_whitespace(character) {
                    complete_argument(&mut scanner);
                    i = i + 1;
                } else if (character == '1' || character == '2') && !scanner.token_started && i
                    + 1 < n && characters[i + 1] == '>' {
                    let append = i + 2 < n && characters[i + 2] == '>';
                    let stream = if character == '2' {
                        RedirectStream::Stderr
                    } else {
                        RedirectStream::Stdout
                    };
                    scanner.pending_redirection = Some(PendingRedirection { stream, append });
                    if append {
                        assert(rest.drop_first().skip(2) =~= characters@.skip(i + 3));
                        i = i + 3;
                    } else {
                        assert(rest.drop_first().skip(1) =~= characters@.skip(i + 2));
                        i = i + 2;
                    }
                } else if character == '>' {
                    complete_argument(&mut scanner);
                    let append = i + 1 < n && characters[i + 1] == '>';
                    scanner.pending_redirection = Some(
                        PendingRedirection { stream: RedirectStream::Stdout, append },
                    );
                    if append {
                        assert(rest.drop_first().skip(1) =~= characters@.skip(i + 2));
                        i = i + 2;
                    } else {
                        i = i + 1;
                    }
                } else if character == '|' {
                    complete_argument(&mut scanner);
                    close_stage(&mut scanner);
                    i = i + 1;
                } else if character == '&' && only_space_from(&characters, i + 1) {
                    assert(rest.drop_first() =~= characters@.skip(i + 1));
                    complete_argument(&mut scanner);
                    scanner.background = true;
                    i = i + 1;
                } else if character == '\'' {
                    scanner.mode = QuoteMode::Single;
                    scanner.token_started = true;
                    i = i + 1;
                } else if character == '"' {
                    scanner.mode = QuoteMode::Double;
                    scanner.token_started = true;
                    i = i + 1;
                } else if character == '\\' {
                    if i + 1 < n {
                        push_char(&mut scanner, characters[i + 1]);
                        assert(rest.drop_first().drop_first() =~= characters@.skip(i + 2));
                        i = i + 2;
                    } else {
                        scanner.token_started = true;
                        i = i + 1;
                    }
                } else {
                    push_char(&mut scanner, character);
                    i = i + 1;
                }
            },
            QuoteMode::Single => {
                if character == '\'' {
                    scanner.mode = QuoteMode::Unquoted;
                } else if character == '$' {
                    push_char(&mut scanner, LITERAL_DOLLAR);
                } else {
                    push_char(&mut scanner, character);
                }
                i = i + 1;
            },
            QuoteMode::Double => {
                if character == '"' {
                    scanner.mode = QuoteMode::Unquoted;
                    i = i + 1;
                } else if character == '\\' {
                    if i + 1 < n && (characters[i + 1] == '"' || characters[i + 1] == '\\') {
                        push_char(&mut scanner, characters[i + 1]);
                        assert(rest.drop_first().drop_first() =~= characters@.skip(i + 2));
                        i = i + 2;
                    } else {
                        push_char(&mut scanner, '\\');
                        i = i + 1;
                    }
                } else {
                    push_char(&mut scanner, character);
                    i = i + 1;
                }
            },
        }
    }
    assert(characters@.skip(i as int) =~= Seq::<char>::empty());
    complete_argument(&mut scanner);
    let ghost closed = scanner@;
    let Scanner { mut stages, stage, background, .. } = scanner;
    let empty = stages.len() == 0 && stage.arguments.len() == 0 && stage.stdout.is_none()
        && stage.stderr.is_none();
    if !empty {
        let ghost before = stages@;
        stages.push(stage);
        assert(stages_view(stages@) =~= stages_view(before).push(closed.stage));
    } else {
        assert(stages_view(stages@) =~= Seq::<StageSpec>::empty());
    }
    ParsedCommand { stages, run_in_background: background }
}


// ---------------------------------------------------------------------------
// Laws of the grammar
// ---------------------------------------------------------------------------

/// A character with no meaning to the grammar outside quotes.
pub open spec fn is_plain(c: char) -> bool {
    !is_space(c) && c != '\'' && c != '"' && c != '\\' && c != '>' && c != '|' && c != '&'
}

/// A word made of plain characters only.
pub open spec fn plain_word(w: Seq<char>) -> bool {
    forall|i: int| 0 <= i < w.len() ==> is_plain(#[trigger] w[i])
}

/// A run of white space.
pub open spec fn all_space(w: Seq<char>) -> bool {
    forall|i: int| 0 <= i < w.len() ==> is_space(#[trigger] w[i])
}

/// Text inside single quotes as the scanner records it: each `$` is marked
/// as literal.
pub open spec fn protect(t: Seq<char>) -> Seq<char> {
    t.map_values(|c: char| if c == '$' { LITERAL_DOLLAR } else { c })
}

/// The scanner state with `w` added to the word being built.
pub open spec fn extend_word(s: Scan, w: Seq<char>) -> Scan {
    Scan { word: s.word + w, started: s.started || w.len() > 0, ..s }
}

/// Outside quotes, a plain word just extends the word being built.
pub proof fn lemma_scan_plain(s: Scan, w: Seq<char>, rest: Seq<char>)
    requires
        s.quote == QuoteMode::Unquoted,
        plain_word(w),
        rest.len() == 0 || rest[0] != '>',
    ensures
        scan(s, w + rest) == scan(extend_word(s, w), rest),
    decreases w.len(),
{
    if w.len() == 0 {
        assert(w + rest =~= rest);
        assert(extend_word(s, w).word =~= s.word);
    } else {
        let c = w[0];
        assert(is_plain(c));
        let tail = (w + rest).drop_first();
        assert(tail =~= w.drop_first() + rest);
        if w.len() > 1 {
            assert(is_plain(w[1]));
            assert(tail[0] == w[1]);
        }
        assert(scan(s, w + rest) == scan(add_char(s, c), tail));
        lemma_scan_plain(add_char(s, c), w.drop_first(), rest);
        assert(add_char(s, c).word + w.drop_first() =~= s.word + w);
    }
}

/// Closing a word twice closes it once.
pub proof fn lemma_complete_idempotent(s: Scan)
    ensures
        complete(complete(s)) == complete(s),
{
}

/// Outside quotes, any run of white space ends the word being built.
pub proof fn lemma_scan_spaces(s: Scan, sp: Seq<char>, rest: Seq<char>)
    requires
        s.quote == QuoteMode::Unquoted,
        sp.len() > 0,
        all_space(sp),
    ensures
        scan(s, sp + rest) == scan(complete(s), rest),
    decreases sp.len(),
{
    assert(is_space(sp[0]));
    assert((sp + rest).drop_first() =~= sp.drop_first() + rest);
    if sp.len() == 1 {
        assert(sp.drop_first() + rest =~= rest);
    } else {
        lemma_scan_spaces(complete(s), sp.drop_first(), rest);
        lemma_complete_idempotent(s);
    }
}

/// Inside single quotes every character is kept as it is (a `$` marked as
/// literal) up to the closing quote.
pub proof fn lemma_scan_single_body(s: Scan, t: Seq<char>, rest: Seq<char>)
    requires
        s.quote == QuoteMode::Single,
        s.started,
        forall|i: int| 0 <= i < t.len() ==> #[trigger] t[i] != '\'',
    ensures
        scan(s, t + seq!['\''] + rest) == scan(
            Scan { word: s.word + protect(t), quote: QuoteMode::Unquoted, ..s },
            rest,
        ),
    decreases t.len(),
{
    if t.len() == 0 {
        assert(t + seq!['\''] + rest =~= seq!['\''] + rest);
        assert((seq!['\''] + rest).drop_first() =~= rest);
        assert(s.word + protect(t) =~= s.word);
    } else {
        let c = t[0];
        assert((t + seq!['\''] + rest)[0] == c);
        assert((t + seq!['\''] + rest).drop_first() =~= t.drop_first() + seq!['\''] + rest);
        let next = add_char(s, if c == '$' { LITERAL_DOLLAR } else { c });
        assert(scan(s, t + seq!['\''] + rest) == scan(next, t.drop_first() + seq!['\''] + rest));
        assert forall|i: int| 0 <= i < t.drop_first().len() implies #[trigger] t.drop_first()[i]
            != '\'' by {
            assert(t.drop_first()[i] == t[i + 1]);
        }
        lemma_scan_single_body(next, t.drop_first(), rest);
        assert(next.word + protect(t.drop_first()) =~= s.word + protect(t));
    }
}

/// Law: single quotes preserve every enclosed character literally; the
/// quoted text joins the word being built.
pub proof fn lemma_single_quotes(s: Scan, t: Seq<char>, rest: Seq<char>)
    requires
        s.quote == QuoteMode::Unquoted,
        forall|i: int| 0 <= i < t.len() ==> #[trigger] t[i] != '\'',
    ensures
        scan(s, seq!['\''] + t + seq!['\''] + rest) == scan(
            Scan { word: s.word + protect(t), started: true, ..s },
            rest,
        ),
{
    let input = seq!['\''] + t + seq!['\''] + rest;
    assert(input[0] == '\'');
    assert(input.drop_first() =~= t + seq!['\''] + rest);
    let inside = Scan { quote: QuoteMode::Single, started: true, ..s };
    lemma_scan_single_body(inside, t, rest);
}

/// Inside double quotes, text with no `"` and no `\` is kept as it is.
pub proof fn lemma_scan_double_body(s: Scan, t: Seq<char>, rest: Seq<char>)
    requires
        s.quote == QuoteMode::Double,
        s.started,
        forall|i: int| 0 <= i < t.len() ==> #[trigger] t[i] != '"' && t[i] != '\\',
    ensures
        scan(s, t + seq!['"'] + rest) == scan(
            Scan { word: s.word + t, quote: QuoteMode::Unquoted, ..s },
            rest,
        ),
    decreases t.len(),
{
    if t.len() == 0 {
        assert(t + seq!['"'] + rest =~= seq!['"'] + rest);
        assert((seq!['"'] + rest).drop_first() =~= rest);
        assert(s.word + t =~= s.word);
    } else {
        let c = t[0];
        assert((t + seq!['"'] + rest)[0] == c);
        assert((t + seq!['"'] + rest).drop_first() =~= t.drop_first() + seq!['"'] + rest);
        let next = add_char(s, c);
        assert forall|i: int| 0 <= i < t.drop_first().len() implies #[trigger] t.drop_first()[i]
            != '"' && t.drop_first()[i] != '\\' by {
            assert(t.drop_first()[i] == t[i + 1]);
        }
        lemma_scan_double_body(next, t.drop_first(), rest);
        assert(next.word + t.drop_first() =~= s.word + t);
    }
}

/// Law: double quotes preserve white space (and any text without `"` or
/// `\`); the quoted text joins the word being built.
pub proof fn lemma_double_quotes(s: Scan, t: Seq<char>, rest: Seq<char>)
    requires
        s.quote == QuoteMode::Unquoted,
        forall|i: int| 0 <= i < t.len() ==> #[trigger] t[i] != '"' && t[i] != '\\',
    ensures
        scan(s, seq!['"'] + t + seq!['"'] + rest) == scan(
            Scan { word: s.word + t, started: true, ..s },
            rest,
        ),
{
    let input = seq!['"'] + t + seq!['"'] + rest;
    assert(input[0] == '"');
    assert(input.drop_first() =~= t + seq!['"'] + rest);
    let inside = Scan { quote: QuoteMode::Double, started: true, ..s };
    lemma_scan_double_body(inside, t, rest);
}

/// Law: inside double quotes, `\"` stands for `"` and `\\` for `\`.
pub proof fn lemma_double_quote_escapes(s: Scan, c: char, rest: Seq<char>)
    requires
        s.quote == QuoteMode::Double,
        c == '"' || c == '\\',
    ensures
        scan(s, seq!['\\', c] + rest) == scan(add_char(s, c), rest),
{
    let input = seq!['\\', c] + rest;
    assert(input.drop_first() =~= seq![c] + rest);
    assert(input.drop_first().drop_first() =~= rest);
}

/// Law: outside quotes, a backslash makes the next character an ordinary
/// part of the word, whatever it is.
pub proof fn lemma_unquoted_escape(s: Scan, c: char, rest: Seq<char>)
    requires
        s.quote == QuoteMode::Unquoted,
    ensures
        scan(s, seq!['\\', c] + rest) == scan(add_char(s, c), rest),
{
    let input = seq!['\\', c] + rest;
    assert(input.drop_first() =~= seq![c] + rest);
    assert(input.drop_first().drop_first() =~= rest);
}

/// The words written one after another with a single space between them.
pub open spec fn spaced(words: Seq<Seq<char>>) -> Seq<char>
    decreases words.len(),
{
    if words.len() == 0 {
        seq![]
    } else if words.len() == 1 {
        words[0]
    } else {
        words[0] + seq![' '] + spaced(words.drop_first())
    }
}

/// Plain, non-empty words.
pub open spec fn plain_words(words: Seq<Seq<char>>) -> bool {
    forall|i: int| 0 <= i < words.len() ==> (#[trigger] words[i]).len() > 0 && plain_word(words[i])
}

/// Scanning plain words separated by spaces adds all but the last to the
/// stage and leaves the last one open.
pub proof fn lemma_scan_words(s: Scan, words: Seq<Seq<char>>, rest: Seq<char>)
    requires
        s.quote == QuoteMode::Unquoted,
        !s.started,
        s.word.len() == 0,
        s.pending is None,
        words.len() > 0,
        plain_words(words),
        rest.len() == 0 || rest[0] != '>',
    ensures
        scan(s, spaced(words) + rest) == scan(
            Scan {
                stage: StageSpec {
                    arguments: s.stage.arguments + words.drop_last(),
                    ..s.stage
                },
                word: words.last(),
                started: true,
                ..s
            },
            rest,
        ),
    decreases words.len(),
{
    let w = words[0];
    assert(w.len() > 0 && plain_word(w));
    if words.len() == 1 {
        lemma_scan_plain(s, w, rest);
        assert(s.stage.arguments + words.drop_last() =~= s.stage.arguments);
        assert(extend_word(s, w).word =~= w);
        assert(extend_word(s, w).stage == StageSpec {
            arguments: s.stage.arguments + words.drop_last(),
            ..s.stage
        });
    } else {
        let others = words.drop_first();
        let after = seq![' '] + spaced(others) + rest;
        assert(spaced(words) + rest =~= w + after);
        assert(after[0] == ' ');
        lemma_scan_plain(s, w, after);
        let s1 = extend_word(s, w);
        assert(s1.word =~= w);
        assert(is_space(' '));
        assert(all_space(seq![' ']));
        assert(after =~= seq![' '] + (spaced(others) + rest));
        lemma_scan_spaces(s1, seq![' '], spaced(others) + rest);
        let s2 = complete(s1);
        assert forall|i: int| 0 <= i < others.len() implies (#[trigger] others[i]).len() > 0
            && plain_word(others[i]) by {
            assert(others[i] == words[i + 1]);
        }
        lemma_scan_words(s2, others, rest);
        assert(s2.stage.arguments =~= s.stage.arguments.push(w));
        assert(s2.stage.arguments + others.drop_last() =~= s.stage.arguments + words.drop_last());
        assert(others.last() == words.last());
    }
}

/// The single stage that a list of words makes.
pub open spec fn simple_stage(words: Seq<Seq<char>>) -> StageSpec {
    StageSpec { arguments: words, stdout: None, stderr: None }
}

/// Law: unquoted white space separates arguments: plain words written with
/// spaces between them parse to exactly those words, as one command.
pub proof fn lemma_words_are_arguments(words: Seq<Seq<char>>)
    requires
        words.len() > 0,
        plain_words(words),
    ensures
        parse(spaced(words)) == (CommandSpec { stages: seq![simple_stage(words)], background: false }),
{
    let s = initial_scan();
    let e = Seq::<char>::empty();
    assert(spaced(words) + e =~= spaced(words));
    lemma_scan_words(s, words, e);
    let f = complete(
        Scan {
            stage: StageSpec { arguments: s.stage.arguments + words.drop_last(), ..s.stage },
            word: words.last(),
            started: true,
            ..s
        },
    );
    assert(f.stage.arguments =~= words);
    assert(parse(spaced(words)).stages =~= seq![simple_stage(words)]);
}

/// Law: `|` separates the commands of a pipeline.
pub proof fn lemma_pipeline_stages(first: Seq<Seq<char>>, second: Seq<Seq<char>>)
    requires
        first.len() > 0,
        second.len() > 0,
        plain_words(first),
        plain_words(second),
    ensures
        parse(spaced(first) + " | "@ + spaced(second)) == (CommandSpec {
            stages: seq![simple_stage(first), simple_stage(second)],
            background: false,
        }),
{
    reveal_strlit(" | ");
    let s = initial_scan();
    let bar = seq![' ', '|', ' '];
    let rest = bar + spaced(second);
    assert(" | "@ =~= bar);
    assert(spaced(first) + " | "@ + spaced(second) =~= spaced(first) + rest);
    lemma_scan_words(s, first, rest);
    let s1 = Scan {
        stage: StageSpec { arguments: s.stage.arguments + first.drop_last(), ..s.stage },
        word: first.last(),
        started: true,
        ..s
    };
    // ` ` closes the word, `|` closes the stage, ` ` does nothing
    assert(rest.drop_first() =~= seq!['|', ' '] + spaced(second));
    assert(rest.drop_first().drop_first() =~= seq![' '] + spaced(second));
    assert(rest.drop_first().drop_first().drop_first() =~= spaced(second));
    assert(is_space(' '));
    let s2 = next_stage(complete(complete(s1)));
    let s3 = complete(s2);
    assert(rest[0] == ' ');
    assert(scan(s1, rest) == scan(complete(s1), rest.drop_first()));
    assert(rest.drop_first()[0] == '|');
    assert(scan(complete(s1), rest.drop_first()) == scan(s2, rest.drop_first().drop_first()));
    assert(rest.drop_first().drop_first()[0] == ' ');
    assert(scan(s2, rest.drop_first().drop_first()) == scan(s3, spaced(second)));
    assert(scan(s1, rest) == scan(s3, spaced(second)));
    let e = Seq::<char>::empty();
    assert(spaced(second) + e =~= spaced(second));
    assert(s3.stage.arguments =~= Seq::<Seq<char>>::empty());
    lemma_scan_words(s3, second, e);
    assert(complete(s1).stage.arguments =~= first);
    assert(s3.stage.arguments + second.drop_last() =~= second.drop_last());
    let end = complete(
        Scan {
            stage: StageSpec { arguments: s3.stage.arguments + second.drop_last(), ..s3.stage },
            word: second.last(),
            started: true,
            ..s3
        },
    );
    assert(end.stage.arguments =~= second);
    assert(end.done =~= seq![simple_stage(first)]);
    assert(parse(spaced(first) + " | "@ + spaced(second)).stages =~= seq![
        simple_stage(first),
        simple_stage(second),
    ]);
}

/// Law: a trailing `&` asks for the command to run in the background.
/// (An `&` with more than white space after it is an ordinary character.)
pub proof fn lemma_trailing_ampersand(words: Seq<Seq<char>>)
    requires
        words.len() > 0,
        plain_words(words),
    ensures
        parse(spaced(words) + " &"@) == (CommandSpec {
            stages: seq![simple_stage(words)],
            background: true,
        }),
{
    reveal_strlit(" &");
    let s = initial_scan();
    let rest = seq![' ', '&'];
    assert(" &"@ =~= rest);
    lemma_scan_words(s, words, rest);
    let s1 = Scan {
        stage: StageSpec { arguments: s.stage.arguments + words.drop_last(), ..s.stage },
        word: words.last(),
        started: true,
        ..s
    };
    assert(rest.drop_first() =~= seq!['&']);
    assert(rest.drop_first().drop_first() =~= Seq::<char>::empty());
    assert(is_space(' '));
    assert(rest[0] == ' ');
    assert(scan(s1, rest) == scan(complete(s1), rest.drop_first()));
    let s2 = Scan { background: true, ..complete(complete(s1)) };
    assert(rest.drop_first()[0] == '&');
    assert(all_space(rest.drop_first().drop_first()));
    assert(scan(complete(s1), rest.drop_first()) == scan(s2, rest.drop_first().drop_first()));
    assert(scan(s2, rest.drop_first().drop_first()) == s2);
    assert(complete(s1).stage.arguments =~= words);
    assert(parse(spaced(words) + " &"@).stages =~= seq![simple_stage(words)]);
}

/// The redirection operator for a stream: `>`, `>>`, `2>` or `2>>`.
pub open spec fn redirect_operator(stream: RedirectStream, append: bool) -> Seq<char> {
    (if stream == RedirectStream::Stderr {
        seq!['2']
    } else {
        seq![]
    }) + seq!['>'] + (if append {
        seq!['>']
    } else {
        seq![]
    })
}

/// Law: `words OP target` sends the stream that `OP` names to `target`,
/// appending with `>>` and overwriting with `>`.
pub proof fn lemma_redirection(
    words: Seq<Seq<char>>,
    stream: RedirectStream,
    append: bool,
    target: Seq<char>,
)
    requires
        words.len() > 0,
        plain_words(words),
        target.len() > 0,
        plain_word(target),
    ensures
        ({
            let t = Some(TargetSpec { path: target, append });
            parse(spaced(words) + seq![' '] + redirect_operator(stream, append) + seq![' '] + target)
                == (CommandSpec {
                stages: seq![
                    StageSpec {
                        arguments: words,
                        stdout: if stream == RedirectStream::Stdout {
                            t
                        } else {
                            None
                        },
                        stderr: if stream == RedirectStream::Stderr {
                            t
                        } else {
                            None
                        },
                    },
                ],
                background: false,
            })
        }),
{
    let s = initial_scan();
    let op = redirect_operator(stream, append);
    let rest = seq![' '] + op + seq![' '] + target;
    let input = spaced(words) + seq![' '] + op + seq![' '] + target;
    assert(input =~= spaced(words) + rest);
    lemma_scan_words(s, words, rest);
    let s1 = Scan {
        stage: StageSpec { arguments: s.stage.arguments + words.drop_last(), ..s.stage },
        word: words.last(),
        started: true,
        ..s
    };
    assert(is_space(' '));
    assert(all_space(seq![' ']));
    assert(rest =~= seq![' '] + (op + seq![' '] + target));
    lemma_scan_spaces(s1, seq![' '], op + seq![' '] + target);
    let s2 = complete(s1);
    assert(s2.stage.arguments =~= words);
    let after_op = seq![' '] + target;
    let pending = Some(PendingRedirection { stream, append });
    let s3 = Scan { pending, ..s2 };
    assert(scan(s2, op + after_op) == scan(s3, after_op)) by {
        let x = op + after_op;
        if stream == RedirectStream::Stderr {
            assert(x[0] == '2');
            assert(x.drop_first()[0] == '>');
            if append {
                assert(x.drop_first()[1] == '>');
                assert(x.drop_first().skip(2) =~= after_op);
            } else {
                assert(x.drop_first()[1] == ' ');
                assert(x.drop_first().skip(1) =~= after_op);
            }
        } else {
            assert(x[0] == '>');
            assert(complete(s2) == s2);
            if append {
                assert(x.drop_first()[0] == '>');
                assert(x.drop_first().skip(1) =~= after_op);
            } else {
                assert(x.drop_first()[0] == ' ');
                assert(x.drop_first() =~= after_op);
            }
        }
    }
    assert(after_op =~= seq![' '] + target);
    lemma_scan_spaces(s3, seq![' '], target);
    assert(complete(s3) == s3);
    let e = Seq::<char>::empty();
    assert(target + e =~= target);
    lemma_scan_plain(s3, target, e);
    let s4 = extend_word(s3, target);
    assert(s4.word =~= target);
    assert(scan(s, input) == scan(s1, rest));
    assert(op + after_op =~= op + seq![' '] + target);
    assert(scan(s1, rest) == scan(s2, op + after_op));
    assert(scan(s2, op + after_op) == scan(s3, after_op));
    assert(scan(s3, after_op) == scan(complete(s3), target));
    assert(scan(complete(s3), target + e) == scan(s4, e));
    assert(scan(s4, e) == s4);
    assert(scan(s, input) == s4);
    let st = complete(s4).stage;
    assert(st.arguments == words);
    assert(parse(input).stages =~= seq![st]);
}

/// Law: a line of white space only is no command at all.
pub proof fn lemma_blank_line(sp: Seq<char>)
    requires
        all_space(sp),
    ensures
        parse(sp).stages.len() == 0,
        !parse(sp).background,
{
    let s = initial_scan();
    if sp.len() > 0 {
        let e = Seq::<char>::empty();
        assert(sp + e =~= sp);
        lemma_scan_spaces(s, sp, e);
    }
}


/// Law: quoted and unquoted segments written next to each other form one
/// argument.
pub proof fn lemma_adjacent_segments(a: Seq<char>, b: Seq<char>, c: Seq<char>)
    requires
        plain_word(a),
        plain_word(c),
        forall|i: int| 0 <= i < b.len() ==> #[trigger] b[i] != '\'',
    ensures
        parse(a + seq!['\''] + b + seq!['\''] + c) == (CommandSpec {
            stages: seq![simple_stage(seq![a + protect(b) + c])],
            background: false,
        }),
{
    let s = initial_scan();
    let rest = seq!['\''] + b + seq!['\''] + c;
    assert(a + seq!['\''] + b + seq!['\''] + c =~= a + rest);
    assert(rest[0] == '\'');
    lemma_scan_plain(s, a, rest);
    let s1 = extend_word(s, a);
    lemma_single_quotes(s1, b, c);
    let s2 = Scan { word: s1.word + protect(b), started: true, ..s1 };
    let e = Seq::<char>::empty();
    assert(c + e =~= c);
    lemma_scan_plain(s2, c, e);
    let s3 = extend_word(s2, c);
    assert(s3.word =~= a + protect(b) + c);
    assert(complete(s3).stage.arguments =~= seq![a + protect(b) + c]);
    assert(parse(a + seq!['\''] + b + seq!['\''] + c).stages =~= seq![
        simple_stage(seq![a + protect(b) + c]),
    ]);
}


/// Law: outside quotes, an `&` that is followed by more than white space is
/// an ordinary character of the word.
pub proof fn lemma_inner_ampersand(s: Scan, rest: Seq<char>)
    requires
        s.quote == QuoteMode::Unquoted,
        !all_space(rest),
    ensures
        scan(s, seq!['&'] + rest) == scan(add_char(s, '&'), rest),
{
    let input = seq!['&'] + rest;
    assert(input[0] == '&');
    assert(input.drop_first() =~= rest);
}

/// The white-space separated words of a text, as `str::split_whitespace`
/// gives them: `current` is the word being read, `done` the words before it.
pub open spec fn split_acc(text: Seq<char>, done: Seq<Seq<char>>, current: Seq<char>) -> Seq<
    Seq<char>,
>
    decreases text.len(),
{
    if text.len() == 0 {
        if current.len() > 0 {
            done.push(current)
        } else {
            done
        }
    } else if is_space(text[0]) {
        split_acc(
            text.drop_first(),
            if current.len() > 0 {
                done.push(current)
            } else {
                done
            },
            seq![],
        )
    } else {
        split_acc(text.drop_first(), done, current.push(text[0]))
    }
}

/// The white-space separated words of a text.
pub open spec fn split_whitespace(text: Seq<char>) -> Seq<Seq<char>> {
    split_acc(text, seq![], seq![])
}

/// A character that means nothing special to the grammar outside quotes,
/// or white space.
pub open spec fn no_special(text: Seq<char>) -> bool {
    forall|i: int|
        0 <= i < text.len() ==> #[trigger] text[i] != '\'' && text[i] != '"' && text[i] != '\\'
            && text[i] != '>' && text[i] != '|' && text[i] != '&'
}

/// Scanning text without special characters splits it at white space.
pub proof fn lemma_scan_unquoted_text(s: Scan, text: Seq<char>)
    requires
        s.quote == QuoteMode::Unquoted,
        s.pending is None,
        s.started == (s.word.len() > 0),
        no_special(text),
    ensures
        complete(scan(s, text)) == (Scan {
            stage: StageSpec {
                arguments: split_acc(text, s.stage.arguments, s.word),
                ..s.stage
            },
            word: seq![],
            started: false,
            ..s
        }),
    decreases text.len(),
{
    if text.len() > 0 {
        let c = text[0];
        let tail = text.drop_first();
        assert(no_special(tail)) by {
            assert forall|i: int| 0 <= i < tail.len() implies #[trigger] tail[i] != '\''
                && tail[i] != '"' && tail[i] != '\\' && tail[i] != '>' && tail[i] != '|'
                && tail[i] != '&' by {
                assert(tail[i] == text[i + 1]);
            }
        }
        assert(c != '\'' && c != '"' && c != '\\' && c != '>' && c != '|' && c != '&');
        if tail.len() > 0 {
            assert(tail[0] == text[1]);
            assert(tail[0] != '>');
        }
        if is_space(c) {
            if !s.started {
                assert(s.word =~= Seq::<char>::empty());
            }
            assert(complete(s).word =~= Seq::<char>::empty());
            assert(scan(s, text) == scan(complete(s), tail));
            lemma_scan_unquoted_text(complete(s), tail);
            assert(complete(s).stage.arguments == (if s.word.len() > 0 {
                s.stage.arguments.push(s.word)
            } else {
                s.stage.arguments
            }));
            assert(split_acc(text, s.stage.arguments, s.word) == split_acc(
                tail,
                complete(s).stage.arguments,
                seq![],
            ));
        } else {
            assert(scan(s, text) == scan(add_char(s, c), tail));
            lemma_scan_unquoted_text(add_char(s, c), tail);
            assert(split_acc(text, s.stage.arguments, s.word) == split_acc(
                tail,
                s.stage.arguments,
                s.word.push(c),
            ));
        }
    } else {
        assert(scan(s, text) == s);
        if !s.started {
            assert(s.word =~= Seq::<char>::empty());
        }
        assert(split_acc(text, s.stage.arguments, s.word) == (if s.word.len() > 0 {
            s.stage.arguments.push(s.word)
        } else {
            s.stage.arguments
        }));
    }
}

/// Law: unquoted white space separates arguments: text without quotes,
/// backslashes, `>`, `|` or `&` parses to one command whose arguments are
/// its white-space separated words (runs of any Unicode white space,
/// leading and trailing ones included), with no redirection; text of white
/// space only is no command.
pub proof fn lemma_whitespace_splits_arguments(text: Seq<char>)
    requires
        no_special(text),
    ensures
        parse(text) == (CommandSpec {
            stages: if split_whitespace(text).len() == 0 {
                seq![]
            } else {
                seq![simple_stage(split_whitespace(text))]
            },
            background: false,
        }),
{
    let s = initial_scan();
    lemma_scan_unquoted_text(s, text);
    let f = complete(scan(s, text));
    assert(f.stage == simple_stage(split_whitespace(text)));
    if split_whitespace(text).len() == 0 {
        assert(parse(text).stages =~= Seq::<StageSpec>::empty());
    } else {
        assert(parse(text).stages =~= seq![simple_stage(split_whitespace(text))]);
    }
}

} // verus!
