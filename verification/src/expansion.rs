//! Parameter expansion: `$NAME` and `${NAME}` stand for the value of a shell
//! variable, or for nothing when it is not set.

use vstd::prelude::*;

use crate::parser::{parse, protect, LITERAL_DOLLAR};
use crate::text::{chars_of, words_view};
use crate::variables::{
    is_identifier, is_name_char, is_name_start, name_char, name_start, value_of,
    VariableSpec, Variables,
};

verus! {

/// The length of the longest prefix of `w` made of name characters.
pub open spec fn name_length(w: Seq<char>) -> nat
    decreases w.len(),
{
    if w.len() > 0 && is_name_char(w[0]) {
        1 + name_length(w.drop_first())
    } else {
        0
    }
}

pub proof fn lemma_name_length(w: Seq<char>)
    ensures
        name_length(w) <= w.len(),
        forall|j: int| 0 <= j < name_length(w) ==> is_name_char(#[trigger] w[j]),
        name_length(w) < w.len() ==> !is_name_char(w[name_length(w) as int]),
    decreases w.len(),
{
    if w.len() > 0 && is_name_char(w[0]) {
        lemma_name_length(w.drop_first());
        assert forall|j: int| 0 <= j < name_length(w) implies is_name_char(#[trigger] w[j]) by {
            if j > 0 {
                assert(w[j] == w.drop_first()[j - 1]);
            }
        }
    }
}

/// A name written right before a character that cannot continue it.
pub proof fn lemma_name_length_of_name(name: Seq<char>, rest: Seq<char>)
    requires
        forall|j: int| 0 <= j < name.len() ==> is_name_char(#[trigger] name[j]),
        rest.len() == 0 || !is_name_char(rest[0]),
    ensures
        name_length(name + rest) == name.len(),
    decreases name.len(),
{
    if name.len() == 0 {
        assert(name + rest =~= rest);
    } else {
        assert((name + rest).drop_first() =~= name.drop_first() + rest);
        lemma_name_length_of_name(name.drop_first(), rest);
    }
}

/// `w` with its parameters expanded: `$NAME` takes the longest run of name
/// characters, `${NAME}` needs a valid name and a closing brace; any other
/// `$` stays as it is, and so does a `$` that was single-quoted.
pub open spec fn expand(w: Seq<char>, vars: Seq<VariableSpec>) -> Seq<char>
    decreases w.len(),
{
    if w.len() == 0 {
        seq![]
    } else if w[0] == LITERAL_DOLLAR {
        seq!['$'] + expand(w.drop_first(), vars)
    } else if w[0] == '$' && w.len() > 1 && is_name_start(w[1]) {
        let n = name_length(w.drop_first()) as int;
        proof {
            lemma_name_length(w.drop_first());
        }
        value_of(vars, w.subrange(1, 1 + n)) + expand(w.skip(1 + n), vars)
    } else if w[0] == '$' && w.len() > 2 && w[1] == '{' && is_name_start(w[2]) && 2 + name_length(
        w.skip(2),
    ) < w.len() && w[2 + name_length(w.skip(2)) as int] == '}' {
        let n = name_length(w.skip(2)) as int;
        value_of(vars, w.subrange(2, 2 + n)) + expand(w.skip(3 + n), vars)
    } else {
        seq![w[0]] + expand(w.drop_first(), vars)
    }
}

/// A word taken literally, as a redirection target is: a `$` stays a `$`,
/// single-quoted or not, and nothing is expanded.
pub open spec fn literal_text(w: Seq<char>) -> Seq<char> {
    w.map_values(|c: char| if c == LITERAL_DOLLAR { '$' } else { c })
}

/// Takes a word literally (see `literal_text`).
pub fn literal_word(word: &str) -> (result: String)
    ensures
        result@ == literal_text(word@),
{
    let chars = chars_of(word);
    let mut result = String::new();
    let mut i: usize = 0;
    while i < chars.len()
        invariant
            i <= chars.len(),
            chars@ == word@,
            result@ == literal_text(chars@.take(i as int)),
        decreases chars.len() - i,
    {
        if chars[i] == LITERAL_DOLLAR {
            result.push('$');
        } else {
            result.push(chars[i]);
        }
        i = i + 1;
        assert(result@ =~= literal_text(chars@.take(i as int)));
    }
    assert(chars@.take(chars.len() as int) =~= chars@);
    result
}

/// Expands every word; a word that had text and expands to nothing is
/// dropped, while an empty quoted word stays.
pub open spec fn expand_words(words: Seq<Seq<char>>, vars: Seq<VariableSpec>) -> Seq<Seq<char>>
    decreases words.len(),
{
    if words.len() == 0 {
        seq![]
    } else {
        let rest = expand_words(words.drop_last(), vars);
        let w = words.last();
        let e = expand(w, vars);
        if e.len() == 0 && w.len() > 0 {
            rest
        } else {
            rest.push(e)
        }
    }
}

/// The end of the run of name characters that starts at `from`.
fn name_end(chars: &Vec<char>, from: usize) -> (end: usize)
    requires
        from <= chars.len(),
    ensures
        from <= end <= chars.len(),
        end - from == name_length(chars@.skip(from as int)),
{
    let mut end = from;
    while end < chars.len() && name_char(chars[end])
        invariant
            from <= end <= chars.len(),
            name_length(chars@.skip(from as int)) == (end - from) + name_length(
                chars@.skip(end as int),
            ),
        decreases chars.len() - end,
    {
        assert(chars@.skip(end as int).drop_first() =~= chars@.skip(end + 1));
        end = end + 1;
    }
    if end < chars.len() {
        assert(chars@.skip(end as int)[0] == chars@[end as int]);
    }
    end
}

/// Appends the value of the variable named `chars[from..to]`.
fn push_value(out: &mut String, vars: &Variables, chars: &Vec<char>, from: usize, to: usize)
    requires
        vars.wf(),
        from <= to <= chars.len(),
    ensures
        final(out)@ == old(out)@ + value_of(vars@, chars@.subrange(from as int, to as int)),
{
    let name = crate::text::string_from_range(chars, from, to);
    match vars.get(name.as_str()) {
        Some(value) => out.append(value.as_str()),
        None => {
            assert(old(out)@ + value_of(vars@, name@) =~= old(out)@);
        },
    }
}

/// Expands one word (see `expand`).
pub fn expand_word(word: &str, vars: &Variables) -> (result: String)
    requires
        vars.wf(),
    ensures
        result@ == expand(word@, vars@),
{
    let chars = chars_of(word);
    let n = chars.len();
    let mut result = String::new();
    let mut i: usize = 0;
    assert(chars@.skip(0) =~= chars@);
    assert(result@ + expand(chars@, vars@) =~= expand(word@, vars@));
    while i < n
        invariant
            n == chars.len(),
            chars@ == word@,
            vars.wf(),
            i <= n,
            result@ + expand(chars@.skip(i as int), vars@) == expand(word@, vars@),
        decreases n - i,
    {
        let ghost w = chars@.skip(i as int);
        let ghost before = result@;
        assert(w[0] == chars@[i as int]);
        assert(w.drop_first() =~= chars@.skip(i + 1));
        let c = chars[i];
        if c == LITERAL_DOLLAR {
            result.push('$');
            i = i + 1;
            assert(result@ + expand(chars@.skip(i as int), vars@) =~= before + expand(w, vars@));
        } else if c == '$' && i + 1 < n && name_start(chars[i + 1]) {
            let end = name_end(&chars, i + 1);
            proof {
                assert(w.drop_first() =~= chars@.skip(i + 1));
                lemma_name_length(w.drop_first());
                assert(w.subrange(1, 1 + (end - (i + 1))) =~= chars@.subrange(i + 1, end as int));
                assert(w.skip(1 + (end - (i + 1))) =~= chars@.skip(end as int));
            }
            push_value(&mut result, vars, &chars, i + 1, end);
            i = end;
            assert(result@ + expand(chars@.skip(i as int), vars@) =~= before + expand(w, vars@));
        } else if c == '$' && n - i > 2 && chars[i + 1] == '{' && name_start(chars[i + 2]) {
            let end = name_end(&chars, i + 2);
            proof {
                assert(w.skip(2) =~= chars@.skip(i + 2));
                lemma_name_length(w.skip(2));
            }
            if end < n && chars[end] == '}' {
                proof {
                    assert(w[2 + (end - (i + 2))] == chars@[end as int]);
                    assert(w.subrange(2, 2 + (end - (i + 2))) =~= chars@.subrange(
                        i + 2,
                        end as int,
                    ));
                    assert(w.skip(3 + (end - (i + 2))) =~= chars@.skip(end + 1));
                }
                push_value(&mut result, vars, &chars, i + 2, end);
                i = end + 1;
                assert(result@ + expand(chars@.skip(i as int), vars@) =~= before + expand(
                    w,
                    vars@,
                ));
            } else {
                proof {
                    if end < n {
                        assert(w[2 + (end - (i + 2))] == chars@[end as int]);
                    }
                }
                result.push(c);
                i = i + 1;
                assert(result@ + expand(chars@.skip(i as int), vars@) =~= before + expand(
                    w,
                    vars@,
                ));
            }
        } else {
            result.push(c);
            i = i + 1;
            assert(result@ + expand(chars@.skip(i as int), vars@) =~= before + expand(w, vars@));
        }
    }
    assert(chars@.skip(n as int) =~= Seq::<char>::empty());
    assert(result@ =~= result@ + expand(chars@.skip(n as int), vars@));
    result
}

/// Expands the words of a command (see `expand_words`).
pub fn expand_arguments(arguments: &Vec<String>, vars: &Variables) -> (result: Vec<String>)
    requires
        vars.wf(),
    ensures
        words_view(result@) == expand_words(words_view(arguments@), vars@),
{
    let ghost words = words_view(arguments@);
    let mut result: Vec<String> = Vec::new();
    let mut i: usize = 0;
    while i < arguments.len()
        invariant
            i <= arguments.len(),
            vars.wf(),
            words == words_view(arguments@),
            words_view(result@) == expand_words(words.take(i as int), vars@),
        decreases arguments.len() - i,
    {
        assert(words.take(i + 1).drop_last() =~= words.take(i as int));
        let expanded = expand_word(arguments[i].as_str(), vars);
        let keep = chars_of(expanded.as_str()).len() > 0 || chars_of(arguments[i].as_str()).len()
            == 0;
        if keep {
            let ghost before = result@;
            result.push(expanded);
            assert(words_view(result@) =~= words_view(before).push(expanded@));
        }
        i = i + 1;
    }
    assert(words.take(arguments.len() as int) =~= words);
    result
}


// ---------------------------------------------------------------------------
// Laws of expansion
// ---------------------------------------------------------------------------

/// Law: a `$` that was single-quoted expands to itself, and so does every
/// other character of single-quoted text.
pub proof fn lemma_expand_protected(t: Seq<char>, vars: Seq<VariableSpec>)
    requires
        forall|i: int| 0 <= i < t.len() ==> #[trigger] t[i] != LITERAL_DOLLAR,
    ensures
        expand(protect(t), vars) == t,
    decreases t.len(),
{
    let p = protect(t);
    if t.len() > 0 {
        assert(p.drop_first() =~= protect(t.drop_first()));
        assert forall|i: int| 0 <= i < t.drop_first().len() implies #[trigger] t.drop_first()[i]
            != LITERAL_DOLLAR by {
            assert(t.drop_first()[i] == t[i + 1]);
        }
        lemma_expand_protected(t.drop_first(), vars);
        assert(t =~= seq![t[0]] + t.drop_first());
        assert(t[0] != LITERAL_DOLLAR);
    } else {
        assert(p =~= t);
    }
}

/// Law: text without `$` is left as it is.
pub proof fn lemma_expand_without_dollar(t: Seq<char>, vars: Seq<VariableSpec>)
    requires
        forall|i: int| 0 <= i < t.len() ==> #[trigger] t[i] != LITERAL_DOLLAR && t[i] != '$',
    ensures
        expand(t, vars) == t,
{
    assert(protect(t) =~= t);
    lemma_expand_protected(t, vars);
}

/// Law: `$NAME`, ended by a character that cannot continue a name, stands
/// for the value of `NAME` (nothing when it is not set).
pub proof fn lemma_expand_simple(name: Seq<char>, rest: Seq<char>, vars: Seq<VariableSpec>)
    requires
        is_identifier(name),
        rest.len() == 0 || !is_name_char(rest[0]),
    ensures
        expand(seq!['$'] + name + rest, vars) == value_of(vars, name) + expand(rest, vars),
{
    let w = seq!['$'] + name + rest;
    assert(w.drop_first() =~= name + rest);
    lemma_name_length_of_name(name, rest);
    assert(w[1] == name[0]);
    assert(w.subrange(1, 1 + name.len() as int) =~= name);
    assert(w.skip(1 + name.len() as int) =~= rest);
}

/// Law: `${NAME}` stands for the value of `NAME` (nothing when it is not
/// set), whatever follows the brace.
pub proof fn lemma_expand_braced(name: Seq<char>, rest: Seq<char>, vars: Seq<VariableSpec>)
    requires
        is_identifier(name),
    ensures
        expand(seq!['$', '{'] + name + seq!['}'] + rest, vars) == value_of(vars, name) + expand(
            rest,
            vars,
        ),
{
    let w = seq!['$', '{'] + name + seq!['}'] + rest;
    assert(w.skip(2) =~= name + (seq!['}'] + rest));
    assert(!is_name_char('}'));
    lemma_name_length_of_name(name, seq!['}'] + rest);
    assert(w[1] == '{');
    assert(w[2] == name[0]);
    assert(!is_name_start('{'));
    assert(w[2 + name.len() as int] == '}');
    assert(w.subrange(2, 2 + name.len() as int) =~= name);
    assert(w.skip(3 + name.len() as int) =~= rest);
}

/// Law: `$` inside single quotes remains literal through expansion:
/// `'text'` runs with `text` as its argument, whatever variables are set.
pub proof fn lemma_single_quoted_text_survives_expansion(t: Seq<char>, vars: Seq<VariableSpec>)
    requires
        forall|i: int| 0 <= i < t.len() ==> #[trigger] t[i] != '\'' && t[i] != LITERAL_DOLLAR,
    ensures
        expand_words(
            parse(seq!['\''] + t + seq!['\'']).stages[0].arguments,
            vars,
        ) == seq![t],
{
    let e = Seq::<char>::empty();
    crate::parser::lemma_adjacent_segments(e, t, e);
    assert(e + seq!['\''] + t + seq!['\''] + e =~= seq!['\''] + t + seq!['\'']);
    assert(e + protect(t) + e =~= protect(t));
    lemma_expand_protected(t, vars);
    let words = seq![protect(t)];
    assert(words.drop_last() =~= Seq::<Seq<char>>::empty());
    assert(expand_words(Seq::<Seq<char>>::empty(), vars) =~= Seq::<Seq<char>>::empty());
    assert(protect(t).len() == t.len());
    assert(words.last() == protect(t));
    assert(expand_words(words, vars) =~= seq![t]);
}

} // verus!
