//! Shell-local variables and the `declare` builtin.

use vstd::prelude::*;

use crate::text::{chars_of, string_from_range, text_equals, words_view};

verus! {

/// One shell variable.
pub struct Variable {
    pub name: String,
    pub value: String,
}

/// The abstract value of a shell variable.
pub struct VariableSpec {
    pub name: Seq<char>,
    pub value: Seq<char>,
}

impl View for Variable {
    type V = VariableSpec;

    open spec fn view(&self) -> VariableSpec {
        VariableSpec { name: self.name@, value: self.value@ }
    }
}

/// The shell's variables, in the order in which they were first declared.
pub struct Variables {
    pub entries: Vec<Variable>,
}

impl View for Variables {
    type V = Seq<VariableSpec>;

    open spec fn view(&self) -> Seq<VariableSpec> {
        self.entries@.map_values(|v: Variable| v@)
    }
}

pub open spec fn is_name_start(c: char) -> bool {
    c == '_' || ('a' <= c && c <= 'z') || ('A' <= c && c <= 'Z')
}

pub open spec fn is_name_char(c: char) -> bool {
    is_name_start(c) || ('0' <= c && c <= '9')
}

/// A valid variable name: a letter or `_`, then letters, digits and `_`.
pub open spec fn is_identifier(s: Seq<char>) -> bool {
    s.len() > 0 && is_name_start(s[0]) && forall|i: int| 0 <= i < s.len() ==> is_name_char(#[trigger] s[i])
}

pub fn name_start(c: char) -> (result: bool)
    ensures
        result == is_name_start(c),
{
    c == '_' || ('a' <= c && c <= 'z') || ('A' <= c && c <= 'Z')
}

pub fn name_char(c: char) -> (result: bool)
    ensures
        result == is_name_char(c),
{
    name_start(c) || ('0' <= c && c <= '9')
}

/// Whether `chars[from..to]` is a valid variable name.
pub fn identifier_in(chars: &Vec<char>, from: usize, to: usize) -> (result: bool)
    requires
        from <= to <= chars.len(),
    ensures
        result == is_identifier(chars@.subrange(from as int, to as int)),
{
    let ghost s = chars@.subrange(from as int, to as int);
    if from == to || !name_start(chars[from]) {
        return false;
    }
    let mut i = from;
    while i < to
        invariant
            from <= i <= to <= chars.len(),
            s == chars@.subrange(from as int, to as int),
            forall|j: int| 0 <= j < i - from ==> is_name_char(#[trigger] s[j]),
        decreases to - i,
    {
        if !name_char(chars[i]) {
            assert(s[i - from] == chars@[i as int]);
            return false;
        }
        i = i + 1;
    }
    true
}

/// The position of the variable called `name`, if there is one.
pub open spec fn position(vars: Seq<VariableSpec>, name: Seq<char>) -> Option<int>
    decreases vars.len(),
{
    if vars.len() == 0 {
        None
    } else if vars.last().name == name {
        Some(vars.len() - 1)
    } else {
        position(vars.drop_last(), name)
    }
}

/// The value of the variable called `name`, if there is one.
pub open spec fn lookup(vars: Seq<VariableSpec>, name: Seq<char>) -> Option<Seq<char>> {
    match position(vars, name) {
        Some(i) => Some(vars[i].value),
        None => None,
    }
}

/// The value that `$name` stands for: the variable's value, or nothing.
pub open spec fn value_of(vars: Seq<VariableSpec>, name: Seq<char>) -> Seq<char> {
    match lookup(vars, name) {
        Some(v) => v,
        None => seq![],
    }
}

/// The variables after `name` is given `value`: an existing variable keeps
/// its place, a new one goes last.
pub open spec fn assign(vars: Seq<VariableSpec>, name: Seq<char>, value: Seq<char>) -> Seq<
    VariableSpec,
> {
    match position(vars, name) {
        Some(i) => vars.update(i, VariableSpec { name, value }),
        None => vars.push(VariableSpec { name, value }),
    }
}

/// No two variables share a name.
pub open spec fn distinct_names(vars: Seq<VariableSpec>) -> bool {
    forall|i: int, j: int|
        0 <= i < vars.len() && 0 <= j < vars.len() && i != j ==> #[trigger] vars[i].name
            != #[trigger] vars[j].name
}

pub proof fn lemma_position(vars: Seq<VariableSpec>, name: Seq<char>)
    ensures
        match position(vars, name) {
            Some(i) => 0 <= i < vars.len() && vars[i].name == name,
            None => forall|j: int| 0 <= j < vars.len() ==> #[trigger] vars[j].name != name,
        },
    decreases vars.len(),
{
    if vars.len() > 0 && vars.last().name != name {
        lemma_position(vars.drop_last(), name);
        if position(vars, name) is None {
            assert forall|j: int| 0 <= j < vars.len() implies #[trigger] vars[j].name != name by {
                if j < vars.len() - 1 {
                    assert(vars.drop_last()[j] == vars[j]);
                }
            }
        }
    }
}

/// Under distinct names, the position found is the only one with that name.
pub proof fn lemma_position_unique(vars: Seq<VariableSpec>, name: Seq<char>, k: int)
    requires
        distinct_names(vars),
        0 <= k < vars.len(),
        vars[k].name == name,
    ensures
        position(vars, name) == Some(k),
{
    lemma_position(vars, name);
}

/// Law: a variable reads back the value last given to it, and giving a value
/// to one name leaves every other name as it was; names stay distinct.
pub proof fn lemma_assign_then_lookup(
    vars: Seq<VariableSpec>,
    name: Seq<char>,
    value: Seq<char>,
    other: Seq<char>,
)
    requires
        distinct_names(vars),
    ensures
        distinct_names(assign(vars, name, value)),
        lookup(assign(vars, name, value), name) == Some(value),
        other != name ==> lookup(assign(vars, name, value), other) == lookup(vars, other),
{
    lemma_position(vars, name);
    lemma_position(vars, other);
    let after = assign(vars, name, value);
    match position(vars, name) {
        Some(i) => {
            lemma_position_unique(after, name, i);
            if other != name {
                lemma_position(after, other);
                match position(vars, other) {
                    Some(k) => {
                        lemma_position_unique(after, other, k);
                    },
                    None => {
                        assert forall|j: int| 0 <= j < after.len() implies #[trigger] after[j].name
                            != other by {}
                    },
                }
            }
        },
        None => {
            assert(distinct_names(after));
            lemma_position_unique(after, name, vars.len() as int);
            if other != name {
                match position(vars, other) {
                    Some(k) => {
                        lemma_position_unique(after, other, k);
                    },
                    None => {
                        lemma_position(after, other);
                        assert forall|j: int| 0 <= j < after.len() implies #[trigger] after[j].name
                            != other by {}
                    },
                }
            }
        },
    }
}

impl Variables {
    pub open spec fn wf(&self) -> bool {
        distinct_names(self@)
    }

    /// No variables.
    pub fn new() -> (result: Variables)
        ensures
            result@ == Seq::<VariableSpec>::empty(),
            result.wf(),
    {
        let result = Variables { entries: Vec::new() };
        assert(result@ =~= Seq::<VariableSpec>::empty());
        result
    }

    /// Where the variable called `name` stands.
    pub fn find(&self, name: &str) -> (result: Option<usize>)
        requires
            self.wf(),
        ensures
            match result {
                Some(i) => i < self@.len() && position(self@, name@) == Some(i as int)
                    && self@[i as int].name == name@,
                None => position(self@, name@) is None,
            },
    {
        proof {
            lemma_position(self@, name@);
        }
        let mut i: usize = 0;
        while i < self.entries.len()
            invariant
                i <= self.entries.len(),
                self.wf(),
                forall|j: int| 0 <= j < i ==> #[trigger] self@[j].name != name@,
            decreases self.entries.len() - i,
        {
            if text_equals(self.entries[i].name.as_str(), name) {
                proof {
                    lemma_position_unique(self@, name@, i as int);
                }
                return Some(i);
            }
            i = i + 1;
        }
        None
    }

    /// The value of the variable called `name`.
    pub fn get(&self, name: &str) -> (result: Option<&String>)
        requires
            self.wf(),
        ensures
            match result {
                Some(v) => lookup(self@, name@) == Some(v@),
                None => lookup(self@, name@) is None,
            },
    {
        match self.find(name) {
            Some(i) => Some(&self.entries[i].value),
            None => None,
        }
    }

    /// Gives `name` the value `value`.
    pub fn set(&mut self, name: String, value: String)
        requires
            old(self).wf(),
        ensures
            final(self).wf(),
            final(self)@ == assign(old(self)@, name@, value@),
    {
        proof {
            lemma_assign_then_lookup(self@, name@, value@, name@);
        }
        match self.find(name.as_str()) {
            Some(i) => {
                let ghost before = self@;
                self.entries.set(i, Variable { name, value });
                assert(self@ =~= assign(before, name@, value@));
            },
            None => {
                let ghost before = self@;
                self.entries.push(Variable { name, value });
                assert(self@ =~= assign(before, name@, value@));
            },
        }
    }
}

/// The line with which `declare -p` shows a variable.
pub open spec fn declare_line(name: Seq<char>, value: Seq<char>) -> Seq<char> {
    "declare -- "@ + name + "=\""@ + value + "\"\n"@
}

/// All variables, one `declare_line` each, in order.
pub open spec fn listing(vars: Seq<VariableSpec>) -> Seq<char>
    decreases vars.len(),
{
    if vars.len() == 0 {
        seq![]
    } else {
        listing(vars.drop_last()) + declare_line(vars.last().name, vars.last().value)
    }
}

/// What `declare` does to the variables and writes to stdout and stderr.
pub struct DeclareResult {
    pub vars: Seq<VariableSpec>,
    pub stdout: Seq<char>,
    pub stderr: Seq<char>,
}

/// `declare -p name...`: shows each named variable, or reports it missing.
pub open spec fn show_each(vars: Seq<VariableSpec>, names: Seq<Seq<char>>) -> DeclareResult
    decreases names.len(),
{
    if names.len() == 0 {
        DeclareResult { vars, stdout: seq![], stderr: seq![] }
    } else {
        let r = show_each(vars, names.drop_last());
        let name = names.last();
        match lookup(vars, name) {
            Some(v) => DeclareResult { stdout: r.stdout + declare_line(name, v), ..r },
            None => DeclareResult {
                stderr: r.stderr + "declare: "@ + name + ": not found\n"@,
                ..r
            },
        }
    }
}

/// The position of the first `c` in `word`, if any.
pub open spec fn first_index(word: Seq<char>, c: char) -> Option<int>
    decreases word.len(),
{
    if word.len() == 0 {
        None
    } else if word[0] == c {
        Some(0)
    } else {
        match first_index(word.drop_first(), c) {
            Some(i) => Some(i + 1),
            None => None,
        }
    }
}

/// `declare word`: `name=value` assigns; a bare name declares the variable
/// (empty) when it does not exist yet; anything else is refused.
pub open spec fn declare_word(r: DeclareResult, word: Seq<char>) -> DeclareResult {
    let (name, value) = match first_index(word, '=') {
        Some(i) => (word.take(i), Some(word.skip(i + 1))),
        None => (word, None),
    };
    if !is_identifier(name) {
        DeclareResult { stderr: r.stderr + "declare: `"@ + word + "': not a valid identifier\n"@, ..r }
    } else {
        match value {
            Some(v) => DeclareResult { vars: assign(r.vars, name, v), ..r },
            None => if lookup(r.vars, name) is Some {
                r
            } else {
                DeclareResult { vars: assign(r.vars, name, seq![]), ..r }
            },
        }
    }
}

pub open spec fn declare_words(vars: Seq<VariableSpec>, words: Seq<Seq<char>>) -> DeclareResult
    decreases words.len(),
{
    if words.len() == 0 {
        DeclareResult { vars, stdout: seq![], stderr: seq![] }
    } else {
        declare_word(declare_words(vars, words.drop_last()), words.last())
    }
}

/// What `declare args...` does.
pub open spec fn declare_spec(vars: Seq<VariableSpec>, args: Seq<Seq<char>>) -> DeclareResult {
    if args.len() == 0 || (args.len() == 1 && args[0] == "-p"@) {
        DeclareResult { vars, stdout: listing(vars), stderr: seq![] }
    } else if args[0] == "-p"@ {
        show_each(vars, args.skip(1))
    } else {
        declare_words(vars, args)
    }
}


pub proof fn lemma_first_index(word: Seq<char>, c: char)
    ensures
        match first_index(word, c) {
            Some(i) => 0 <= i < word.len() && word[i] == c && forall|j: int|
                0 <= j < i ==> #[trigger] word[j] != c,
            None => forall|j: int| 0 <= j < word.len() ==> #[trigger] word[j] != c,
        },
    decreases word.len(),
{
    if word.len() > 0 && word[0] != c {
        lemma_first_index(word.drop_first(), c);
        assert forall|j: int| 1 <= j < word.len() implies #[trigger] word[j] == word.drop_first()[j
            - 1] by {}
    }
}

/// The position of the first `c` in `chars`.
pub fn find_first(chars: &Vec<char>, c: char) -> (result: Option<usize>)
    ensures
        match result {
            Some(i) => first_index(chars@, c) == Some(i as int),
            None => first_index(chars@, c) is None,
        },
{
    proof {
        lemma_first_index(chars@, c);
    }
    let mut i: usize = 0;
    while i < chars.len()
        invariant
            i <= chars.len(),
            forall|j: int| 0 <= j < i ==> #[trigger] chars@[j] != c,
        decreases chars.len() - i,
    {
        if chars[i] == c {
            proof {
                lemma_first_index(chars@, c);
                assert(chars@[i as int] == c);
            }
            return Some(i);
        }
        i = i + 1;
    }
    None
}

fn push_declare_line(out: &mut String, name: &str, value: &str)
    ensures
        final(out)@ == old(out)@ + declare_line(name@, value@),
{
    out.append("declare -- ");
    out.append(name);
    out.append("=\"");
    out.append(value);
    out.append("\"\n");
    assert(final(out)@ =~= old(out)@ + declare_line(name@, value@));
}

/// All variables, as `declare -p` shows them.
pub fn list_variables(vars: &Variables) -> (result: String)
    ensures
        result@ == listing(vars@),
{
    let mut result = String::new();
    let mut i: usize = 0;
    while i < vars.entries.len()
        invariant
            i <= vars.entries.len(),
            result@ == listing(vars@.take(i as int)),
        decreases vars.entries.len() - i,
    {
        push_declare_line(&mut result, vars.entries[i].name.as_str(), vars.entries[i].value.as_str());
        assert(vars@.take(i + 1).drop_last() =~= vars@.take(i as int));
        i = i + 1;
    }
    assert(vars@.take(vars.entries.len() as int) =~= vars@);
    result
}

/// Applies one `declare` word (see `declare_word`).
fn declare_one(vars: &mut Variables, word: &String, stderr: &mut String)
    requires
        old(vars).wf(),
    ensures
        final(vars).wf(),
        ({
            let r = declare_word(
                DeclareResult { vars: old(vars)@, stdout: seq![], stderr: old(stderr)@ },
                word@,
            );
            final(vars)@ == r.vars && final(stderr)@ == r.stderr
        }),
{
    let chars = chars_of(word.as_str());
    let equals = find_first(&chars, '=');
    let end = match equals {
        Some(i) => i,
        None => chars.len(),
    };
    proof {
        lemma_first_index(chars@, '=');
        assert(chars@.take(end as int) =~= chars@.subrange(0, end as int));
        if equals is None {
            assert(chars@ =~= chars@.subrange(0, end as int));
        }
    }
    if !identifier_in(&chars, 0, end) {
        stderr.append("declare: `");
        stderr.append(word.as_str());
        stderr.append("': not a valid identifier\n");
        assert(final(stderr)@ =~= old(stderr)@ + "declare: `"@ + word@ + "': not a valid identifier\n"@);
        return ;
    }
    let name = string_from_range(&chars, 0, end);
    match equals {
        Some(i) => {
            let value = string_from_range(&chars, i + 1, chars.len());
            assert(chars@.skip(i + 1) =~= chars@.subrange(i + 1, chars@.len() as int));
            vars.set(name, value);
        },
        None => {
            if vars.get(name.as_str()).is_none() {
                vars.set(name, String::new());
            }
        },
    }
}

/// Runs `declare args...` (see `declare_spec`): returns what it writes to
/// stdout and to stderr.
pub fn declare(vars: &mut Variables, args: &Vec<String>) -> (result: (String, String))
    requires
        old(vars).wf(),
    ensures
        final(vars).wf(),
        ({
            let r = declare_spec(old(vars)@, words_view(args@));
            final(vars)@ == r.vars && result.0@ == r.stdout && result.1@ == r.stderr
        }),
{
    let ghost words = words_view(args@);
    let show = args.len() > 0 && text_equals(args[0].as_str(), "-p");
    if args.len() == 0 || (args.len() == 1 && show) {
        return (list_variables(vars), String::new());
    }
    let mut stdout = String::new();
    let mut stderr = String::new();
    if show {
        let ghost names = words.skip(1);
        let mut i: usize = 1;
        while i < args.len()
            invariant
                1 <= i <= args.len(),
                vars.wf(),
                vars@ == old(vars)@,
                words == words_view(args@),
                names == words.skip(1),
                ({
                    let r = show_each(old(vars)@, names.take(i - 1));
                    r.vars == vars@ && r.stdout == stdout@ && r.stderr == stderr@
                }),
            decreases args.len() - i,
        {
            assert(names.take(i as int).drop_last() =~= names.take(i - 1));
            assert(names.take(i as int).last() == args@[i as int]@);
            match vars.get(args[i].as_str()) {
                Some(value) => push_declare_line(&mut stdout, args[i].as_str(), value.as_str()),
                None => {
                    let ghost before = stderr@;
                    stderr.append("declare: ");
                    stderr.append(args[i].as_str());
                    stderr.append(": not found\n");
                    assert(stderr@ =~= before + "declare: "@ + args@[i as int]@ + ": not found\n"@);
                },
            }
            i = i + 1;
        }
        assert(names.take(args.len() - 1) =~= names);
    } else {
        let mut i: usize = 0;
        while i < args.len()
            invariant
                i <= args.len(),
                vars.wf(),
                words == words_view(args@),
                ({
                    let r = declare_words(old(vars)@, words.take(i as int));
                    r.vars == vars@ && r.stdout == stdout@ && r.stderr == stderr@
                }),
            decreases args.len() - i,
        {
            assert(words.take(i + 1).drop_last() =~= words.take(i as int));
            declare_one(vars, &args[i], &mut stderr);
            i = i + 1;
        }
        assert(words.take(args.len() as int) =~= words);
    }
    (stdout, stderr)
}


// ---------------------------------------------------------------------------
// Laws of `declare`
// ---------------------------------------------------------------------------

/// A name followed by `=`: the first `=` is the one after the name.
pub proof fn lemma_first_equals_after_name(name: Seq<char>, value: Seq<char>)
    requires
        is_identifier(name),
    ensures
        first_index(name + seq!['='] + value, '=') == Some(name.len() as int),
{
    let w = name + seq!['='] + value;
    lemma_first_index(w, '=');
    assert(w[name.len() as int] == '=');
    assert forall|j: int| 0 <= j < name.len() implies #[trigger] w[j] != '=' by {
        assert(w[j] == name[j]);
        assert(is_name_char(name[j]));
    }
}

/// Law: after `declare NAME=value`, `declare -p NAME` shows the value, and
/// every other variable keeps its value.
pub proof fn lemma_declare_then_show(
    vars: Seq<VariableSpec>,
    name: Seq<char>,
    value: Seq<char>,
    other: Seq<char>,
)
    requires
        distinct_names(vars),
        is_identifier(name),
    ensures
        ({
            let after = declare_spec(vars, seq![name + "="@ + value]);
            &&& after.stdout.len() == 0
            &&& after.stderr.len() == 0
            &&& declare_spec(after.vars, seq!["-p"@, name]).stdout == declare_line(name, value)
            &&& other != name ==> lookup(after.vars, other) == lookup(vars, other)
        }),
{
    reveal_strlit("=");
    reveal_strlit("-p");
    let word = name + "="@ + value;
    assert("="@ =~= seq!['=']);
    lemma_first_equals_after_name(name, value);
    assert(word.take(name.len() as int) =~= name);
    assert(word.skip(name.len() + 1int) =~= value);
    assert(word[0] == name[0]);
    assert(word != "-p"@) by {
        assert(is_name_start(name[0]));
    }
    let words = seq![word];
    assert(words.drop_last() =~= Seq::<Seq<char>>::empty());
    let start = DeclareResult { vars, stdout: seq![], stderr: seq![] };
    assert(declare_words(vars, words.drop_last()) == start);
    assert(declare_words(vars, words) == declare_word(start, word));
    assert(declare_word(start, word).vars == assign(vars, name, value));
    let after = declare_spec(vars, words);
    assert(after.vars == assign(vars, name, value));
    lemma_assign_then_lookup(vars, name, value, other);
    let show = seq!["-p"@, name];
    assert(show.skip(1) =~= seq![name]);
    assert(seq![name].drop_last() =~= Seq::<Seq<char>>::empty());
    assert(show[0] == "-p"@);
    let empty_show = DeclareResult { vars: after.vars, stdout: seq![], stderr: seq![] };
    assert(show_each(after.vars, seq![name].drop_last()) == empty_show);
    assert(lookup(after.vars, name) == Some(value));
    assert(show_each(after.vars, seq![name]).stdout =~= declare_line(name, value));
}

/// Law: `declare NAME` with a bare name never changes a variable that
/// exists (its value stays, nothing else moves); when NAME does not exist
/// it is created with an empty value and every other variable keeps its
/// value.  Nothing is printed.
pub proof fn lemma_declare_bare_name(vars: Seq<VariableSpec>, name: Seq<char>, other: Seq<char>)
    requires
        distinct_names(vars),
        is_identifier(name),
    ensures
        ({
            let after = declare_spec(vars, seq![name]);
            &&& after.stdout.len() == 0
            &&& after.stderr.len() == 0
            &&& lookup(vars, name) is Some ==> after.vars == vars
            &&& lookup(after.vars, name) == match lookup(vars, name) {
                Some(v) => Some(v),
                None => Some(Seq::<char>::empty()),
            }
            &&& other != name ==> lookup(after.vars, other) == lookup(vars, other)
            &&& distinct_names(after.vars)
        }),
{
    reveal_strlit("-p");
    lemma_first_index(name, '=');
    assert(first_index(name, '=') is None) by {
        if first_index(name, '=') is Some {
            let i = first_index(name, '=')->0;
            assert(is_name_char(name[i]));
        }
    }
    assert(name[0] != '-') by {
        assert(is_name_start(name[0]));
    }
    assert(name != "-p"@);
    let words = seq![name];
    assert(words.drop_last() =~= Seq::<Seq<char>>::empty());
    let start = DeclareResult { vars, stdout: seq![], stderr: seq![] };
    assert(declare_words(vars, words.drop_last()) == start);
    assert(declare_words(vars, words) == declare_word(start, name));
    lemma_assign_then_lookup(vars, name, seq![], other);
}

} // verus!
