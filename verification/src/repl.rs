//! The line editor's part that is pure computation: which word the cursor
//! completes, which command names complete it, and the submitted line.

use vstd::prelude::*;
use vstd::string::StringSliceAdditionalSpecFns;
use vstd::utf8::{decode_utf8, encode_utf8_decode_utf8, is_char_boundary};

use crate::command::builtin_names;
use crate::text::{chars_of, is_space, is_whitespace, join, join_strings, words_view};

verus! {

broadcast use vstd::utf8::group_utf8_lib;

/// A line as the shell executes it: with its line feed.
pub fn submitted_line(line: &str) -> (result: String)
    ensures
        result@ == line@ + "\n"@,
{
    let mut result = line.to_owned();
    result.append("\n");
    result
}

pub open spec fn has_space(s: Seq<char>) -> bool {
    exists|i: int| 0 <= i < s.len() && is_space(#[trigger] s[i])
}

/// Where the word to complete starts, and the word.  Only the command word
/// (the first word of the line) is completed: once the text before the
/// cursor holds white space, the word is empty and starts at the cursor.
pub fn completion_prefix(line: &str, cursor: usize) -> (result: (usize, &str))
    requires
        is_char_boundary(line.spec_bytes(), cursor as int),
    ensures
        ({
            let before = decode_utf8(line.spec_bytes().subrange(0, cursor as int));
            if has_space(before) {
                result.0 == cursor && result.1@ == Seq::<char>::empty()
            } else {
                result.0 == 0 && result.1@ == before
            }
        }),
{
    let (prefix, _) = line.split_at(cursor);
    proof {
        encode_utf8_decode_utf8(prefix@);
        assert(decode_utf8(line.spec_bytes().subrange(0, cursor as int)) == prefix@);
    }
    let chars = chars_of(prefix);
    let mut i: usize = 0;
    while i < chars.len()
        invariant
            i <= chars.len(),
            chars@ == prefix@,
            decode_utf8(line.spec_bytes().subrange(0, cursor as int)) == prefix@,
            forall|j: int| 0 <= j < i ==> !is_space(#[trigger] chars@[j]),
        decreases chars.len() - i,
    {
        if is_whitespace(chars[i]) {
            proof {
                reveal_strlit("");
                assert(is_space(prefix@[i as int]));
            }
            return (cursor, "");
        }
        i = i + 1;
    }
    (0, prefix)
}

/// How completion candidates are listed: separated by two spaces.
pub fn completion_display(parts: &Vec<String>) -> (result: String)
    ensures
        result@ == join(words_view(parts@), "  "@),
{
    join_strings(parts, "  ")
}

/// Lexicographic order on characters, as `String`'s `Ord` orders UTF-8 text.
pub open spec fn lex_less(a: Seq<char>, b: Seq<char>) -> bool
    decreases a.len(),
{
    if a.len() == 0 {
        b.len() > 0
    } else if b.len() == 0 {
        false
    } else if a[0] != b[0] {
        (a[0] as u32) < (b[0] as u32)
    } else {
        lex_less(a.drop_first(), b.drop_first())
    }
}

pub proof fn lemma_lex_irreflexive(a: Seq<char>)
    ensures
        !lex_less(a, a),
    decreases a.len(),
{
    if a.len() > 0 {
        lemma_lex_irreflexive(a.drop_first());
    }
}

pub proof fn lemma_lex_total(a: Seq<char>, b: Seq<char>)
    ensures
        a == b || lex_less(a, b) || lex_less(b, a),
    decreases a.len(),
{
    if a.len() > 0 && b.len() > 0 && a[0] == b[0] {
        lemma_lex_total(a.drop_first(), b.drop_first());
        if a.drop_first() == b.drop_first() {
            assert(a =~= seq![a[0]] + a.drop_first());
            assert(b =~= seq![b[0]] + b.drop_first());
        }
    } else if a.len() > 0 && b.len() > 0 {
        assert((a[0] as u32) != (b[0] as u32)) by {
            vstd::utf8::char_u32_cast(a[0], a[0] as u32);
            vstd::utf8::char_u32_cast(b[0], b[0] as u32);
        }
    } else if a.len() == 0 && b.len() == 0 {
        assert(a =~= b);
    }
}

pub proof fn lemma_lex_transitive(a: Seq<char>, b: Seq<char>, c: Seq<char>)
    requires
        lex_less(a, b),
        lex_less(b, c),
    ensures
        lex_less(a, c),
    decreases a.len(),
{
    if a.len() > 0 && b.len() > 0 && c.len() > 0 && a[0] == b[0] && b[0] == c[0] {
        lemma_lex_transitive(a.drop_first(), b.drop_first(), c.drop_first());
    }
}

/// Whether `a` sorts before `b`.
fn text_less(a: &str, b: &str) -> (result: bool)
    ensures
        result == lex_less(a@, b@),
{
    let x = chars_of(a);
    let y = chars_of(b);
    let mut i: usize = 0;
    assert(x@.skip(0) =~= x@ && y@.skip(0) =~= y@);
    while i < x.len() && i < y.len() && x[i] == y[i]
        invariant
            i <= x.len(),
            i <= y.len(),
            lex_less(x@, y@) == lex_less(x@.skip(i as int), y@.skip(i as int)),
        decreases x.len() - i,
    {
        assert(x@.skip(i as int).drop_first() =~= x@.skip(i + 1));
        assert(y@.skip(i as int).drop_first() =~= y@.skip(i + 1));
        i = i + 1;
    }
    assert(x@.skip(0) =~= x@ && y@.skip(0) =~= y@);
    if i < x.len() && i < y.len() {
        assert(x@.skip(i as int)[0] == x@[i as int]);
        assert(y@.skip(i as int)[0] == y@[i as int]);
        (x[i] as u32) < (y[i] as u32)
    } else {
        i == x.len() && i < y.len()
    }
}

/// The text `prefix` begins `word`.
pub open spec fn starts_with(word: Seq<char>, prefix: Seq<char>) -> bool {
    prefix.len() <= word.len() && word.take(prefix.len() as int) == prefix
}

fn text_starts_with(word: &str, prefix: &str) -> (result: bool)
    ensures
        result == starts_with(word@, prefix@),
{
    let w = chars_of(word);
    let p = chars_of(prefix);
    if p.len() > w.len() {
        return false;
    }
    let mut i: usize = 0;
    while i < p.len()
        invariant
            p.len() <= w.len(),
            w@ == word@,
            p@ == prefix@,
            i <= p.len(),
            forall|j: int| 0 <= j < i ==> w@[j] == p@[j],
        decreases p.len() - i,
    {
        if w[i] != p[i] {
            assert(w@[i as int] != p@[i as int]);
            assert(w@.take(p@.len() as int)[i as int] != p@[i as int]);
            assert(w@.take(p@.len() as int) != p@);
            return false;
        }
        i = i + 1;
    }
    assert(w@.take(p@.len() as int) =~= p@);
    true
}

/// Strictly increasing in lexicographic order (so without repetition).
pub open spec fn sorted(words: Seq<Seq<char>>) -> bool {
    forall|i: int, j: int| 0 <= i < j < words.len() ==> lex_less(#[trigger] words[i], #[trigger] words[j])
}

/// Inserts `word` into a sorted list unless it is there already.
fn insert_sorted(list: &mut Vec<String>, word: String)
    requires
        sorted(words_view(old(list)@)),
    ensures
        sorted(words_view(final(list)@)),
        words_view(final(list)@).to_set() == words_view(old(list)@).to_set().insert(word@),
{
    let ghost start = words_view(list@);
    let mut p: usize = 0;
    while p < list.len() && text_less(list[p].as_str(), word.as_str())
        invariant
            p <= list.len(),
            start == words_view(list@),
            forall|k: int| 0 <= k < p ==> lex_less(#[trigger] start[k], word@),
        decreases list.len() - p,
    {
        p = p + 1;
    }
    if p < list.len() && text_less(word.as_str(), list[p].as_str()) == false {
        // neither sorts before the other: the word is there already
        proof {
            lemma_lex_total(start[p as int], word@);
            assert(start[p as int] == word@);
            assert(start.to_set().insert(word@) =~= start.to_set());
        }
        return ;
    }
    let ghost w = word@;
    list.insert(p, word);
    proof {
        let now = words_view(list@);
        assert(now =~= start.insert(p as int, w));
        assert forall|i: int, j: int| 0 <= i < j < now.len() implies lex_less(
            #[trigger] now[i],
            #[trigger] now[j],
        ) by {
            if j < p {
            } else if j == p {
            } else if i < p {
                if j > p {
                    // start[i] < w < start[p] <= start[j - 1]
                    assert(lex_less(w, start[p as int]));
                    if j - 1 > p {
                        assert(lex_less(start[p as int], start[j - 1]));
                        lemma_lex_transitive(w, start[p as int], start[j - 1]);
                    }
                    lemma_lex_transitive(start[i], w, start[j - 1]);
                }
            } else if i == p {
                assert(lex_less(w, start[p as int]));
                if j - 1 > p {
                    assert(lex_less(start[p as int], start[j - 1]));
                    lemma_lex_transitive(w, start[p as int], start[j - 1]);
                }
            } else {
                assert(now[i] == start[i - 1] && now[j] == start[j - 1]);
            }
        }
        assert(now.to_set() =~= start.to_set().insert(w)) by {
            assert forall|x: Seq<char>| now.to_set().contains(x) <==> start.to_set().insert(
                w,
            ).contains(x) by {
                if now.to_set().contains(x) {
                    let i = choose|i: int| 0 <= i < now.len() && now[i] == x;
                    if i < p {
                        assert(start[i] == x);
                    } else if i > p {
                        assert(start[i - 1] == x);
                    }
                }
                if start.to_set().contains(x) {
                    let i = choose|i: int| 0 <= i < start.len() && start[i] == x;
                    if i < p {
                        assert(now[i] == x);
                    } else {
                        assert(now[i + 1] == x);
                    }
                }
                if x == w {
                    assert(now[p as int] == w);
                }
            }
        }
    }
}

/// The command names beginning with `prefix`.
pub open spec fn matching(names: Seq<Seq<char>>, prefix: Seq<char>) -> Set<Seq<char>> {
    names.to_set().filter(|n: Seq<char>| starts_with(n, prefix))
}

/// The candidates for completing a command name: the builtins and the
/// executables (as found in `PATH`) that begin with `prefix`, sorted and
/// without repetition.  A single candidate gets a trailing space, so that
/// the completed word is closed.
pub open spec fn candidates_spec(
    prefix: Seq<char>,
    executables: Seq<Seq<char>>,
    result: Seq<Seq<char>>,
) -> bool {
    let names = matching(builtin_names(), prefix).union(matching(executables, prefix));
    if names.len() == 1 {
        result.len() == 1 && names == set![result[0].drop_last()] && result[0].last() == ' '
    } else {
        sorted(result) && result.to_set() == names
    }
}

fn builtin_name_list() -> (result: Vec<String>)
    ensures
        words_view(result@) == builtin_names(),
{
    let mut names: Vec<String> = Vec::new();
    names.push("echo".to_owned());
    names.push("exit".to_owned());
    names.push("type".to_owned());
    names.push("jobs".to_owned());
    names.push("pwd".to_owned());
    names.push("cd".to_owned());
    names.push("history".to_owned());
    names.push("declare".to_owned());
    assert(words_view(names@) =~= builtin_names());
    names
}

/// Adds the names that begin with `prefix` to a sorted list.
fn add_matching(list: &mut Vec<String>, names: &Vec<String>, prefix: &str)
    requires
        sorted(words_view(old(list)@)),
    ensures
        sorted(words_view(final(list)@)),
        words_view(final(list)@).to_set() == words_view(old(list)@).to_set().union(
            matching(words_view(names@), prefix@),
        ),
{
    let ghost all = words_view(names@);
    let mut i: usize = 0;
    while i < names.len()
        invariant
            i <= names.len(),
            all == words_view(names@),
            sorted(words_view(list@)),
            words_view(list@).to_set() == words_view(old(list)@).to_set().union(
                matching(all.take(i as int), prefix@),
            ),
        decreases names.len() - i,
    {
        let ghost before = words_view(list@).to_set();
        assert(all[i as int] == names@[i as int]@);
        let keep = text_starts_with(names[i].as_str(), prefix);
        if keep {
            insert_sorted(list, names[i].clone());
        }
        assert(matching(all.take(i + 1), prefix@) =~= if keep {
            matching(all.take(i as int), prefix@).insert(all[i as int])
        } else {
            matching(all.take(i as int), prefix@)
        }) by {
            assert forall|x: Seq<char>| #[trigger] all.take(i + 1).to_set().contains(x) <==> (
            all.take(i as int).to_set().contains(x) || x == all[i as int]) by {
                if all.take(i + 1).to_set().contains(x) {
                    let k = choose|k: int| 0 <= k < i + 1 && #[trigger] all.take(i + 1)[k] == x;
                    if k < i {
                        assert(all.take(i as int)[k] == x);
                    }
                }
                if all.take(i as int).to_set().contains(x) {
                    let k = choose|k: int| 0 <= k < i && #[trigger] all.take(i as int)[k] == x;
                    assert(all.take(i + 1)[k] == x);
                }
                if x == all[i as int] {
                    assert(all.take(i + 1)[i as int] == x);
                }
            }
        }
        i = i + 1;
    }
    assert(all.take(names.len() as int) =~= all);
}

/// The completion candidates for the command word `prefix` (see
/// `candidates_spec`).
pub fn completion_candidates(prefix: &str, executables: &Vec<String>) -> (result: Vec<String>)
    ensures
        candidates_spec(prefix@, words_view(executables@), words_view(result@)),
{
    let mut list: Vec<String> = Vec::new();
    assert(words_view(list@) =~= Seq::<Seq<char>>::empty());
    let builtins = builtin_name_list();
    add_matching(&mut list, &builtins, prefix);
    add_matching(&mut list, executables, prefix);
    let ghost names = words_view(list@);
    assert(names.to_set() =~= matching(builtin_names(), prefix@).union(
        matching(words_view(executables@), prefix@),
    ));
    proof {
        assert(names.no_duplicates()) by {
            assert forall|i: int, j: int| 0 <= i < names.len() && 0 <= j < names.len() && i != j
                implies names[i] != names[j] by {
                if i < j {
                    assert(lex_less(names[i], names[j]));
                    lemma_lex_irreflexive(names[i]);
                } else {
                    assert(lex_less(names[j], names[i]));
                    lemma_lex_irreflexive(names[j]);
                }
            }
        }
        names.unique_seq_to_set();
    }
    if list.len() == 1 {
        let mut only = list.pop().unwrap();
        only.push(' ');
        let mut result: Vec<String> = Vec::new();
        result.push(only);
        assert(names.to_set() =~= set![names[0]]);
        assert(words_view(result@)[0].drop_last() =~= names[0]);
        result
    } else {
        list
    }
}

} // verus!
