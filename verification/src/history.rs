//! The session history: recorded command lines, how `history` lists them,
//! and the line-oriented file format used to read, write and append them.

use vstd::prelude::*;

use crate::text::{
    chars_of, decimal, decimal_string, digit_char, pad_left, push_padded_left, string_from_range,
    words_view,
};

verus! {

/// The commands recorded in this session, and how many of them were already
/// appended to a history file.
pub struct History {
    pub entries: Vec<String>,
    pub appended: usize,
}

/// The abstract value of the history.
pub struct HistorySpec {
    pub entries: Seq<Seq<char>>,
    pub appended: nat,
}

impl View for History {
    type V = HistorySpec;

    open spec fn view(&self) -> HistorySpec {
        HistorySpec { entries: words_view(self.entries@), appended: self.appended as nat }
    }
}

/// A submitted line without its line feed.
pub open spec fn entry_text(line: Seq<char>) -> Seq<char> {
    if line.len() > 0 && line.last() == '\n' {
        line.drop_last()
    } else {
        line
    }
}

/// The history after a line is submitted: empty lines are not recorded.
pub open spec fn record_spec(h: HistorySpec, line: Seq<char>) -> HistorySpec {
    if entry_text(line).len() == 0 {
        h
    } else {
        HistorySpec { entries: h.entries.push(entry_text(line)), ..h }
    }
}

/// The line with which `history` shows entry number `number`.
pub open spec fn history_line(number: nat, entry: Seq<char>) -> Seq<char> {
    pad_left(decimal(number), 5) + "  "@ + entry + "\n"@
}

/// The entries from index `first` on, numbered from one.
pub open spec fn listing_from(entries: Seq<Seq<char>>, first: int) -> Seq<char>
    decreases entries.len() - first,
{
    if first < 0 || first >= entries.len() {
        seq![]
    } else {
        history_line((first + 1) as nat, entries[first]) + listing_from(entries, first + 1)
    }
}

/// `history n` lists the last `n` entries (all of them when there are fewer).
pub open spec fn last_entries_listing(entries: Seq<Seq<char>>, count: nat) -> Seq<char> {
    if count >= entries.len() {
        listing_from(entries, 0)
    } else {
        listing_from(entries, entries.len() - count)
    }
}

/// The history file holding the entries from index `first` on: one line each.
pub open spec fn render_from(entries: Seq<Seq<char>>, first: int) -> Seq<char>
    decreases entries.len() - first,
{
    if first < 0 || first >= entries.len() {
        seq![]
    } else {
        entries[first] + "\n"@ + render_from(entries, first + 1)
    }
}

/// Splits a history file into its lines; empty lines are skipped.
pub open spec fn lines_acc(text: Seq<char>, done: Seq<Seq<char>>, current: Seq<char>) -> Seq<
    Seq<char>,
>
    decreases text.len(),
{
    if text.len() == 0 {
        if current.len() > 0 {
            done.push(current)
        } else {
            done
        }
    } else if text[0] == '\n' {
        lines_acc(
            text.drop_first(),
            if current.len() > 0 {
                done.push(current)
            } else {
                done
            },
            seq![],
        )
    } else {
        lines_acc(text.drop_first(), done, current.push(text[0]))
    }
}

/// The non-empty lines of a history file.
pub open spec fn file_lines(text: Seq<char>) -> Seq<Seq<char>> {
    lines_acc(text, seq![], seq![])
}

/// A history entry that a file can hold: not empty, no line feed.
pub open spec fn storable(entry: Seq<char>) -> bool {
    entry.len() > 0 && forall|j: int| 0 <= j < entry.len() ==> #[trigger] entry[j] != '\n'
}

/// The value of a string of ASCII digits.
pub open spec fn digits_value(s: Seq<char>) -> nat
    decreases s.len(),
{
    if s.len() == 0 {
        0
    } else {
        digits_value(s.drop_last()) * 10 + ((s.last() as u32) - 48) as nat
    }
}

pub open spec fn is_digit(c: char) -> bool {
    '0' <= c && c <= '9'
}

/// A count as `history` accepts it: ASCII digits whose value fits a `usize`.
pub open spec fn count_of(s: Seq<char>) -> Option<nat> {
    if s.len() > 0 && (forall|j: int| 0 <= j < s.len() ==> is_digit(#[trigger] s[j]))
        && digits_value(s) <= usize::MAX {
        Some(digits_value(s))
    } else {
        None
    }
}

impl History {
    pub open spec fn wf(&self) -> bool {
        self.appended <= self.entries.len()
    }

    /// An empty history.
    pub fn new() -> (result: History)
        ensures
            result.wf(),
            result@.entries == Seq::<Seq<char>>::empty(),
            result@.appended == 0,
    {
        let result = History { entries: Vec::new(), appended: 0 };
        assert(result@.entries =~= Seq::<Seq<char>>::empty());
        result
    }

    /// Records a submitted line (see `record_spec`).
    pub fn record(&mut self, line: &str)
        requires
            old(self).wf(),
        ensures
            final(self).wf(),
            final(self)@ == record_spec(old(self)@, line@),
    {
        let chars = chars_of(line);
        let mut end = chars.len();
        if end > 0 && chars[end - 1] == '\n' {
            end = end - 1;
        }
        assert(chars@.subrange(0, end as int) =~= entry_text(line@));
        if end > 0 {
            let entry = string_from_range(&chars, 0, end);
            let ghost before = self.entries@;
            self.entries.push(entry);
            assert(words_view(self.entries@) =~= words_view(before).push(entry@));
        }
    }

    /// Adds the lines of a history file (see `file_lines`).
    pub fn load(&mut self, text: &str)
        requires
            old(self).wf(),
        ensures
            final(self).wf(),
            final(self)@ == (HistorySpec {
                entries: old(self)@.entries + file_lines(text@),
                ..old(self)@
            }),
    {
        let chars = chars_of(text);
        let n = chars.len();
        let ghost start = self@.entries;
        let mut line_start: usize = 0;
        let mut i: usize = 0;
        assert(chars@.skip(0) =~= chars@);
        assert(self@.entries.skip(start.len() as int) =~= Seq::<Seq<char>>::empty());
        assert(chars@.subrange(0, 0) =~= Seq::<char>::empty());
        assert(self@.entries.take(start.len() as int) =~= start);
        while i < n
            invariant
                n == chars.len(),
                chars@ == text@,
                line_start <= i <= n,
                self.wf(),
                self.appended == old(self).appended,
                start == old(self)@.entries,
                lines_acc(
                    chars@.skip(i as int),
                    self@.entries.skip(start.len() as int),
                    chars@.subrange(line_start as int, i as int),
                ) == file_lines(text@),
                self@.entries.len() >= start.len(),
                self@.entries.take(start.len() as int) == start,
            decreases n - i,
        {
            let ghost rest = chars@.skip(i as int);
            assert(rest[0] == chars@[i as int]);
            assert(rest.drop_first() =~= chars@.skip(i + 1));
            if chars[i] == '\n' {
                if line_start < i {
                    let line = string_from_range(&chars, line_start, i);
                    let ghost before = self@.entries;
                    self.entries.push(line);
                    assert(self@.entries =~= before.push(line@));
                    assert(self@.entries.skip(start.len() as int) =~= before.skip(
                        start.len() as int,
                    ).push(line@));
                    assert(self@.entries.take(start.len() as int) =~= start);
                }
                i = i + 1;
                line_start = i;
                assert(chars@.subrange(line_start as int, i as int) =~= Seq::<char>::empty());
            } else {
                assert(chars@.subrange(line_start as int, i + 1) =~= chars@.subrange(
                    line_start as int,
                    i as int,
                ).push(chars@[i as int]));
                i = i + 1;
            }
        }
        assert(chars@.skip(n as int) =~= Seq::<char>::empty());
        if line_start < n {
            let line = string_from_range(&chars, line_start, n);
            let ghost before = self@.entries;
            self.entries.push(line);
            assert(self@.entries =~= before.push(line@));
            assert(self@.entries.skip(start.len() as int) =~= before.skip(start.len() as int).push(
                line@,
            ));
            assert(self@.entries.take(start.len() as int) =~= start);
        }
        assert(self@.entries =~= start + self@.entries.skip(start.len() as int));
    }

    /// Adds the lines of the history file read at startup; they count as
    /// already saved.
    pub fn load_saved(&mut self, text: &str)
        requires
            old(self).wf(),
        ensures
            final(self).wf(),
            final(self)@.entries == old(self)@.entries + file_lines(text@),
            final(self)@.appended == final(self)@.entries.len(),
    {
        self.load(text);
        self.appended = self.entries.len();
    }

    /// The text to append to the history file at exit: the entries not yet
    /// appended to it.
    pub fn unsaved(&self) -> (result: String)
        ensures
            result@ == render_from(self@.entries, self@.appended as int),
    {
        self.render(self.appended)
    }

    /// What `history` prints from entry index `first` on.
    pub fn listing(&self, first: usize) -> (result: String)
        ensures
            result@ == listing_from(self@.entries, first as int),
    {
        let ghost entries = self@.entries;
        let mut result = String::new();
        let mut i = first;
        while i < self.entries.len()
            invariant
                first <= i,
                entries == self@.entries,
                result@ + listing_from(entries, i as int) == listing_from(entries, first as int),
            decreases self.entries.len() - i,
        {
            let ghost before = result@;
            let number = decimal_string(i + 1);
            push_padded_left(&mut result, number.as_str(), 5);
            result.append("  ");
            result.append(self.entries[i].as_str());
            result.append("\n");
            i = i + 1;
            assert(before + listing_from(entries, i - 1) =~= result@ + listing_from(entries, i as int));
        }
        assert(result@ =~= result@ + listing_from(entries, i as int));
        result
    }

    /// The history file text for the entries from index `first` on.
    pub fn render(&self, first: usize) -> (result: String)
        ensures
            result@ == render_from(self@.entries, first as int),
    {
        let ghost entries = self@.entries;
        let mut result = String::new();
        let mut i = first;
        while i < self.entries.len()
            invariant
                first <= i,
                entries == self@.entries,
                result@ + render_from(entries, i as int) == render_from(entries, first as int),
            decreases self.entries.len() - i,
        {
            let ghost before = result@;
            result.append(self.entries[i].as_str());
            result.append("\n");
            i = i + 1;
            assert(before + render_from(entries, i - 1) =~= result@ + render_from(entries, i as int));
        }
        assert(result@ =~= result@ + render_from(entries, i as int));
        result
    }
}

/// Reads a count for `history n` (see `count_of`).
pub fn parse_count(text: &str) -> (result: Option<usize>)
    ensures
        match result {
            Some(n) => count_of(text@) == Some(n as nat),
            None => count_of(text@) is None,
        },
{
    let chars = chars_of(text);
    if chars.len() == 0 {
        return None;
    }
    let mut value: usize = 0;
    let mut i: usize = 0;
    while i < chars.len()
        invariant
            i <= chars.len(),
            chars@ == text@,
            chars.len() > 0,
            value as nat == digits_value(chars@.take(i as int)),
            forall|j: int| 0 <= j < i ==> is_digit(#[trigger] chars@[j]),
        decreases chars.len() - i,
    {
        let c = chars[i];
        assert(chars@.take(i + 1).drop_last() =~= chars@.take(i as int));
        if !('0' <= c && c <= '9') {
            assert(!is_digit(text@[i as int]));
            return None;
        }
        let digit = (c as u32 - 48) as usize;
        if value > (usize::MAX - digit) / 10 {
            proof {
                assert(chars@.take(i + 1).last() == c);
                assert(digits_value(chars@.take(i + 1)) == value * 10 + digit);
                assert(value * 10 + digit > usize::MAX) by (nonlinear_arith)
                    requires
                        value > (usize::MAX - digit) / 10,
                        digit <= 9,
                ;
                if forall|j: int| 0 <= j < chars@.len() ==> is_digit(#[trigger] chars@[j]) {
                    lemma_digits_value_prefix(chars@, i as int + 1);
                }
            }
            return None;
        }
        value = value * 10 + digit;
        i = i + 1;
    }
    assert(chars@.take(chars.len() as int) =~= chars@);
    Some(value)
}

/// The value of a digit string is at least the value of any prefix of it.
pub proof fn lemma_digits_value_prefix(s: Seq<char>, k: int)
    requires
        0 <= k <= s.len(),
        forall|j: int| 0 <= j < s.len() ==> is_digit(#[trigger] s[j]),
    ensures
        digits_value(s) >= digits_value(s.take(k)),
    decreases s.len() - k,
{
    if k < s.len() {
        lemma_digits_value_prefix(s, k + 1);
        assert(s.take(k + 1).drop_last() =~= s.take(k));
        let v = digits_value(s.take(k));
        assert(v * 10 >= v) by (nonlinear_arith);
        assert(s.take(k + 1).last() == s[k]);
        assert(is_digit(s[k]));
    } else {
        assert(s.take(k) =~= s);
    }
}


// ---------------------------------------------------------------------------
// Laws of the history
// ---------------------------------------------------------------------------

/// Text without line feeds extends the current line.
pub proof fn lemma_lines_text(t: Seq<char>, rest: Seq<char>, done: Seq<Seq<char>>, current: Seq<char>)
    requires
        forall|j: int| 0 <= j < t.len() ==> #[trigger] t[j] != '\n',
    ensures
        lines_acc(t + rest, done, current) == lines_acc(rest, done, current + t),
    decreases t.len(),
{
    if t.len() == 0 {
        assert(t + rest =~= rest);
        assert(current + t =~= current);
    } else {
        assert((t + rest)[0] == t[0]);
        assert((t + rest).drop_first() =~= t.drop_first() + rest);
        assert forall|j: int| 0 <= j < t.drop_first().len() implies #[trigger] t.drop_first()[j]
            != '\n' by {
            assert(t.drop_first()[j] == t[j + 1]);
        }
        lemma_lines_text(t.drop_first(), rest, done, current.push(t[0]));
        assert(current.push(t[0]) + t.drop_first() =~= current + t);
    }
}

/// Reading back what was written from entry `first` on gives those entries.
pub proof fn lemma_lines_of_render(entries: Seq<Seq<char>>, first: int, done: Seq<Seq<char>>)
    requires
        0 <= first <= entries.len(),
        forall|i: int| 0 <= i < entries.len() ==> storable(#[trigger] entries[i]),
    ensures
        lines_acc(render_from(entries, first), done, seq![]) == done + entries.skip(first),
    decreases entries.len() - first,
{
    reveal_strlit("\n");
    if first == entries.len() {
        assert(entries.skip(first) =~= Seq::<Seq<char>>::empty());
        assert(done + entries.skip(first) =~= done);
    } else {
        let e = entries[first];
        assert(storable(e));
        let rest = render_from(entries, first + 1);
        assert(render_from(entries, first) =~= e + (seq!['\n'] + rest));
        lemma_lines_text(e, seq!['\n'] + rest, done, seq![]);
        assert(Seq::<char>::empty() + e =~= e);
        assert((seq!['\n'] + rest)[0] == '\n');
        assert((seq!['\n'] + rest).drop_first() =~= rest);
        lemma_lines_of_render(entries, first + 1, done.push(e));
        assert(done.push(e) + entries.skip(first + 1) =~= done + entries.skip(first));
    }
}

/// Law: reading a history file gives back the entries that were written to
/// it (entries that are not empty and hold no line feed, as recorded lines
/// are).
pub proof fn lemma_history_file_roundtrip(entries: Seq<Seq<char>>)
    requires
        forall|i: int| 0 <= i < entries.len() ==> storable(#[trigger] entries[i]),
    ensures
        file_lines(render_from(entries, 0)) == entries,
{
    lemma_lines_of_render(entries, 0, seq![]);
    assert(Seq::<Seq<char>>::empty() + entries.skip(0) =~= entries);
}

/// Law: what two successive appends write is what one append of all the
/// entries since the first would have written; every entry reaches the file
/// once.
pub proof fn lemma_appends_concatenate(
    earlier: Seq<Seq<char>>,
    later: Seq<Seq<char>>,
    mark: int,
)
    requires
        0 <= mark <= earlier.len(),
        earlier.len() <= later.len(),
        later.take(earlier.len() as int) == earlier,
    ensures
        render_from(later, mark) == render_from(earlier, mark) + render_from(
            later,
            earlier.len() as int,
        ),
    decreases earlier.len() - mark,
{
    if mark == earlier.len() {
        assert(render_from(earlier, mark) =~= Seq::<char>::empty());
        assert(Seq::<char>::empty() + render_from(later, mark) =~= render_from(later, mark));
    } else {
        lemma_appends_concatenate(earlier, later, mark + 1);
        assert(later[mark] == later.take(earlier.len() as int)[mark]);
        assert(render_from(later, mark) =~= render_from(earlier, mark) + render_from(
            later,
            earlier.len() as int,
        ));
    }
}

/// Law: every line recorded is storable in a history file.
pub proof fn lemma_recorded_entries_storable(h: HistorySpec, line: Seq<char>)
    requires
        forall|i: int| 0 <= i < h.entries.len() ==> storable(#[trigger] h.entries[i]),
        forall|j: int| 0 <= j < line.len() - 1 ==> #[trigger] line[j] != '\n',
    ensures
        forall|i: int|
            0 <= i < record_spec(h, line).entries.len() ==> storable(
                #[trigger] record_spec(h, line).entries[i],
            ),
{
    let e = entry_text(line);
    assert forall|j: int| 0 <= j < e.len() implies #[trigger] e[j] != '\n' by {
        assert(e[j] == line[j]);
        if line.len() > 0 && line.last() != '\n' {
            if j == line.len() - 1 {
                assert(line[j] == line.last());
            }
        }
    }
}

/// Law: numbers written by the shell read back as the same count.
pub proof fn lemma_count_of_decimal(n: nat)
    requires
        n <= usize::MAX,
    ensures
        count_of(decimal(n)) == Some(n),
{
    lemma_decimal_digits(n);
}

pub proof fn lemma_decimal_digits(n: nat)
    ensures
        decimal(n).len() > 0,
        forall|j: int| 0 <= j < decimal(n).len() ==> is_digit(#[trigger] decimal(n)[j]),
        digits_value(decimal(n)) == n,
    decreases n,
{
    if n < 10 {
        assert(decimal(n) =~= seq![digit_char(n)]);
        assert(decimal(n).drop_last() =~= Seq::<char>::empty());
        assert((digit_char(n) as u32) == n + 48);
        assert(decimal(n).last() == digit_char(n));
        assert(digits_value(decimal(n).drop_last()) == 0);
    } else {
        lemma_decimal_digits(n / 10);
        let d = decimal(n);
        assert(d.drop_last() =~= decimal(n / 10));
        assert((digit_char(n % 10) as u32) == n % 10 + 48);
        assert(d.last() == digit_char(n % 10));
        assert((n / 10) * 10 + n % 10 == n) by (nonlinear_arith);
        assert forall|j: int| 0 <= j < d.len() implies is_digit(#[trigger] d[j]) by {
            if j < d.len() - 1 {
                assert(d[j] == decimal(n / 10)[j]);
            }
        }
    }
}

/// Law: an empty history lists nothing, and recording one more entry adds
/// exactly one line at the end of every listing that starts within the old
/// entries: the new entry, numbered after all the others.
pub proof fn lemma_listing_push(entries: Seq<Seq<char>>, entry: Seq<char>, first: int)
    requires
        0 <= first <= entries.len(),
    ensures
        listing_from(Seq::<Seq<char>>::empty(), first) == Seq::<char>::empty(),
        listing_from(entries.push(entry), first) == listing_from(entries, first) + history_line(
            (entries.len() + 1) as nat,
            entry,
        ),
    decreases entries.len() - first,
{
    let longer = entries.push(entry);
    let line = history_line((entries.len() + 1) as nat, entry);
    if first == entries.len() {
        assert(longer[first] == entry);
        assert(listing_from(longer, first + 1) == Seq::<char>::empty());
        assert(listing_from(entries, first) == Seq::<char>::empty());
        assert(listing_from(longer, first) =~= listing_from(entries, first) + line);
    } else {
        lemma_listing_push(entries, entry, first + 1);
        assert(longer[first] == entries[first]);
        assert(listing_from(longer, first) =~= listing_from(entries, first) + line);
    }
}

/// Law: `history n` on a history with one more entry lists what `history
/// n - 1` listed before, then the new entry; `history 0` lists nothing, and
/// a count at least the number of entries lists them all.
pub proof fn lemma_last_entries_push(entries: Seq<Seq<char>>, entry: Seq<char>, count: nat)
    ensures
        last_entries_listing(entries, 0) == Seq::<char>::empty(),
        count >= entries.len() ==> last_entries_listing(entries, count) == listing_from(entries, 0),
        last_entries_listing(entries.push(entry), count + 1) == last_entries_listing(entries, count)
            + history_line((entries.len() + 1) as nat, entry),
{
    let n = entries.len();
    assert(listing_from(entries, n as int) == Seq::<char>::empty());
    if count >= n {
        lemma_listing_push(entries, entry, 0);
    } else {
        lemma_listing_push(entries, entry, n - count);
    }
}

} // verus!
