//! The state of the benchmarks and of the queue of commits.
use crate::collector::{BenchmarkName, Commit};
use crate::load;
use crate::load::{CurrentState, InputData, MissingCommit, Persistent};
use crate::selection;
use crate::text;
use vstd::prelude::*;
use vstd::string::*;

verus! {

/// The first line of a log, without what ends it.
pub open spec fn first_line(log: Seq<char>) -> Option<Seq<char>> {
    if log.len() == 0 {
        None
    } else {
        match text::index_from(log, seq!['\n'], 0) {
            None => Some(log),
            Some(end) => if end > 0 && log[end - 1] == '\r' {
                Some(log.take(end - 1))
            } else {
                Some(log.take(end))
            },
        }
    }
}

/// `s` with each backslash that is followed by an `n` turned, with the `n`, into a line break.
pub open spec fn unescaped(s: Seq<char>) -> Seq<char>
    decreases s.len(),
{
    if s.len() == 0 {
        Seq::empty()
    } else if s.len() > 1 && s[0] == '\\' && s[1] == 'n' {
        seq!['\n'] + unescaped(s.skip(2))
    } else {
        seq![s[0]] + unescaped(s.skip(1))
    }
}

/// What a log quotes: the part of its first line from behind the first quotation mark up to the
/// next one that is followed by a space and a brace.
pub open spec fn prettified(log: Seq<char>) -> Option<Seq<char>> {
    match first_line(log) {
        None => None,
        Some(line) => match text::index_from(line, seq!['"'], 0) {
            None => None,
            Some(open) => {
                let rest = line.skip(open + 1);
                match text::index_from(rest, seq!['"', ' ', '}'], 0) {
                    None => None,
                    Some(close) => Some(unescaped(rest.take(close))),
                }
            },
        },
    }
}

/// A log without a line break is one line, unless it is empty.
pub proof fn lemma_only_line(log: Seq<char>)
    requires
        !log.contains('\n'),
    ensures
        first_line(log) == if log.len() == 0 {
            None
        } else {
            Some(log)
        },
{
    text::lemma_first_place(log, seq!['\n'], 0);
    if let Some(end) = text::index_from(log, seq!['\n'], 0) {
        assert(seq!['\n'][0] == log[end + 0]);
        assert(log[end] == '\n');
    }
}

/// The first line of a log is what stands in front of its first line break, without the carriage
/// return that may stand there.
pub proof fn lemma_first_of_lines(head: Seq<char>, rest: Seq<char>)
    requires
        !head.contains('\n'),
    ensures
        first_line(head + seq!['\n'] + rest) == Some(
            if head.len() > 0 && head.last() == '\r' {
                head.drop_last()
            } else {
                head
            },
        ),
{
    let log = head + seq!['\n'] + rest;
    text::lemma_first_place(log, seq!['\n'], 0);
    assert(log.subrange(head.len() as int, head.len() as int + 1) =~= seq!['\n']);
    let end = text::index_from(log, seq!['\n'], 0)->0;
    assert(seq!['\n'][0] == log[end + 0]);
    if end < head.len() {
        assert(head[end] == '\n');
    }
    assert(log.take(end) =~= head);
    if end > 0 {
        assert(log.take(end - 1) =~= head.drop_last());
    }
}

/// Whether a backslash that is followed by an `n` stands in `s` at `i`.
pub open spec fn is_escape(s: Seq<char>, i: int) -> bool {
    0 <= i < s.len() - 1 && s[i] == '\\' && s[i + 1] == 'n'
}

/// Where an escape stands, it becomes a line break, and what stands in front of it and behind it
/// is unescaped by itself.
pub proof fn lemma_every_escape_breaks_the_line(a: Seq<char>, b: Seq<char>)
    ensures
        unescaped(a + seq!['\\', 'n'] + b) == unescaped(a) + seq!['\n'] + unescaped(b),
    decreases a.len(),
{
    let s = a + seq!['\\', 'n'] + b;
    if a.len() == 0 {
        assert(s.skip(2) =~= b);
        assert(unescaped(a) + seq!['\n'] + unescaped(b) =~= seq!['\n'] + unescaped(b));
    } else if a.len() > 1 && a[0] == '\\' && a[1] == 'n' {
        lemma_every_escape_breaks_the_line(a.skip(2), b);
        assert(s.skip(2) =~= a.skip(2) + seq!['\\', 'n'] + b);
        assert(unescaped(s) =~= unescaped(a) + seq!['\n'] + unescaped(b));
    } else {
        lemma_every_escape_breaks_the_line(a.skip(1), b);
        assert(s.skip(1) =~= a.skip(1) + seq!['\\', 'n'] + b);
        assert(unescaped(s) =~= unescaped(a) + seq!['\n'] + unescaped(b));
    }
}

/// No escape is left.
pub proof fn lemma_no_escape_is_left(s: Seq<char>)
    ensures
        forall|i: int| !#[trigger] is_escape(unescaped(s), i),
    decreases s.len(),
{
    if s.len() > 1 && s[0] == '\\' && s[1] == 'n' {
        lemma_no_escape_is_left(s.skip(2));
        let rest = unescaped(s.skip(2));
        assert forall|i: int| !#[trigger] is_escape(unescaped(s), i) by {
            assert(!is_escape(rest, i - 1));
        }
    } else if s.len() > 0 {
        lemma_no_escape_is_left(s.skip(1));
        let rest = unescaped(s.skip(1));
        assert(s.len() > 1 && s[1] != 'n' ==> rest[0] == s[1] || rest[0] == '\n');
        assert forall|i: int| !#[trigger] is_escape(unescaped(s), i) by {
            assert(!is_escape(rest, i - 1));
        }
    }
}

/// What holds no escape stays as it is.
pub proof fn lemma_other_text_is_kept(s: Seq<char>)
    requires
        forall|i: int| !#[trigger] is_escape(s, i),
    ensures
        unescaped(s) == s,
    decreases s.len(),
{
    if s.len() > 0 {
        assert(!is_escape(s, 0));
        assert forall|i: int| !#[trigger] is_escape(s.skip(1), i) by {
            assert(!is_escape(s, i + 1));
        }
        lemma_other_text_is_kept(s.skip(1));
        assert(unescaped(s) =~= s);
    }
}

/// Whether a quotation mark that a space and a brace follow stands in `s` at `i`.
pub open spec fn closes_at(s: Seq<char>, i: int) -> bool {
    0 <= i < s.len() - 2 && s[i] == '"' && s[i + 1] == ' ' && s[i + 2] == '}'
}

/// What a log quotes is cut out of its first line: behind the first quotation mark, and in front
/// of the first one behind that which a space and a brace follow.
pub proof fn lemma_quoted(
    log: Seq<char>,
    line: Seq<char>,
    before: Seq<char>,
    quoted: Seq<char>,
    after: Seq<char>,
)
    requires
        first_line(log) == Some(line),
        line == before + seq!['"'] + quoted + seq!['"', ' ', '}'] + after,
        !before.contains('"'),
        forall|i: int|
            before.len() < i <= before.len() + quoted.len() ==> !#[trigger] closes_at(line, i),
    ensures
        prettified(log) == Some(unescaped(quoted)),
{
    let quote = seq!['"'];
    let open = before.len() as int;
    assert(line.subrange(open, open + 1) =~= quote);
    assert forall|k: int| 0 <= k < open implies !#[trigger] text::occurs_at(line, quote, k) by {
        assert(before[k] != '"');
        assert(line.subrange(k, k + 1)[0] == before[k]);
    }
    text::lemma_found_first(line, quote, 0, open);
    assert(line.skip(open + 1) =~= quoted + seq!['"', ' ', '}'] + after);
    lemma_closed(line, open, quoted, after);
}

proof fn lemma_closed(line: Seq<char>, open: int, quoted: Seq<char>, after: Seq<char>)
    requires
        0 <= open < line.len(),
        line.skip(open + 1) == quoted + seq!['"', ' ', '}'] + after,
        forall|i: int| open < i <= open + quoted.len() ==> !#[trigger] closes_at(line, i),
    ensures
        text::index_from(line.skip(open + 1), seq!['"', ' ', '}'], 0) == Some(
            quoted.len() as int,
        ),
        line.skip(open + 1).take(quoted.len() as int) == quoted,
{
    let closing = seq!['"', ' ', '}'];
    let rest = line.skip(open + 1);
    let n = quoted.len() as int;
    assert(rest.subrange(n, n + 3) =~= closing);
    assert forall|k: int| 0 <= k < n implies !#[trigger] text::occurs_at(rest, closing, k) by {
        assert(!closes_at(line, open + 1 + k));
        let part = rest.subrange(k, k + 3);
        assert(part[0] == line[open + 1 + k]);
        assert(part[1] == line[open + 2 + k]);
        assert(part[2] == line[open + 3 + k]);
    }
    text::lemma_found_first(rest, closing, 0, n);
    assert(rest.take(n) =~= quoted);
}

/// A log that quotes something has a first line with a quotation mark in it and, behind that,
/// another one that a space and a brace follow.
pub proof fn lemma_quotes(log: Seq<char>) -> (parts: (Seq<char>, Seq<char>, Seq<char>))
    requires
        prettified(log) is Some,
    ensures
        first_line(log) == Some(parts.0 + seq!['"'] + parts.1 + seq!['"', ' ', '}'] + parts.2),
        prettified(log) == Some(unescaped(parts.1)),
{
    let line = first_line(log)->0;
    text::lemma_first_place(line, seq!['"'], 0);
    let open = text::index_from(line, seq!['"'], 0)->0;
    assert(seq!['"'][0] == line[open + 0]);
    let rest = line.skip(open + 1);
    let closing = seq!['"', ' ', '}'];
    text::lemma_first_place(rest, closing, 0);
    let close = text::index_from(rest, closing, 0)->0;
    assert(closing[0] == rest[close + 0]);
    assert(closing[1] == rest[close + 1]);
    assert(closing[2] == rest[close + 2]);
    let after = rest.skip(close + 3);
    assert(line =~= line.take(open) + seq!['"'] + rest.take(close) + closing + after);
    (line.take(open), rest.take(close), after)
}

/// Turns each backslash that is followed by an `n` in `chars[from..to]` into a line break.
fn unescape(chars: &Vec<char>, from: usize, to: usize) -> (res: String)
    requires
        from <= to <= chars@.len(),
    ensures
        res@ == unescaped(chars@.subrange(from as int, to as int)),
{
    let ghost all = chars@.subrange(from as int, to as int);
    let mut res: String = String::new();
    let mut i: usize = from;
    assert(all.skip(0) =~= all);
    while i < to
        invariant
            from <= i <= to <= chars.len(),
            all == chars@.subrange(from as int, to as int),
            res@ + unescaped(all.skip(i - from)) == unescaped(all),
        decreases to - i,
    {
        let ghost left = all.skip(i - from);
        if i + 1 < to && chars[i] == '\\' && chars[i + 1] == 'n' {
            res.push('\n');
            proof {
                assert(left.skip(2) =~= all.skip(i + 2 - from));
            }
            i += 2;
        } else {
            res.push(chars[i]);
            proof {
                assert(left.skip(1) =~= all.skip(i + 1 - from));
            }
            i += 1;
        }
    }
    res
}

/// What a log quotes.
pub fn prettify_log(log: &str) -> (res: Option<String>)
    ensures
        match res {
            Some(s) => prettified(log@) == Some(s@),
            None => prettified(log@) is None,
        },
{
    let chars: Vec<char> = text::to_chars(log);
    if chars.len() == 0 {
        return None;
    }
    let line_break: Vec<char> = vec!['\n'];
    assert(line_break@ =~= seq!['\n']);
    let end: usize = match text::find(&chars, &line_break) {
        None => chars.len(),
        Some(end) => if end > 0 && chars[end - 1] == '\r' {
            end - 1
        } else {
            end
        },
    };
    let mut line: Vec<char> = chars;
    line.truncate(end);
    assert(log@.take(log@.len() as int) =~= log@);
    let quote: Vec<char> = vec!['"'];
    assert(quote@ =~= seq!['"']);
    let open: usize = match text::find(&line, &quote) {
        None => {
            return None;
        },
        Some(open) => open,
    };
    let rest: Vec<char> = line.split_off(open + 1);
    let closing: Vec<char> = vec!['"', ' ', '}'];
    match text::find(&rest, &closing) {
        None => None,
        Some(close) => Some(unescape(&rest, 0, close)),
    }
}

/// The state of one benchmark.
#[derive(Debug, PartialEq, Eq)]
pub struct BenchmarkStatus {
    pub name: BenchmarkName,
    pub success: bool,
    pub error: Option<String>,
}

/// The state of one benchmark.
pub struct BenchmarkStatusView {
    pub name: Seq<char>,
    pub success: bool,
    pub error: Option<Seq<char>>,
}

impl View for BenchmarkStatus {
    type V = BenchmarkStatusView;

    open spec fn view(&self) -> BenchmarkStatusView {
        BenchmarkStatusView {
            name: self.name@,
            success: self.success,
            error: match self.error {
                Some(error) => Some(error@),
                None => None,
            },
        }
    }
}

/// The states of a list of benchmarks.
pub open spec fn statuses(list: Seq<BenchmarkStatus>) -> Seq<BenchmarkStatusView> {
    Seq::new(list.len(), |i: int| list[i]@)
}

/// The state of a benchmark, given its name and the log of its failure: what the log quotes is
/// shown, or all of the log if it quotes nothing.
pub open spec fn status_of(entry: (BenchmarkName, Option<String>)) -> BenchmarkStatusView {
    BenchmarkStatusView {
        name: entry.0@,
        success: entry.1 is None,
        error: match entry.1 {
            None => None,
            Some(log) => Some(
                match prettified(log@) {
                    Some(quoted) => quoted,
                    None => log@,
                },
            ),
        },
    }
}

/// The states of those benchmarks that failed, or of those that did not, in their order.
pub open spec fn picked(entries: Seq<(BenchmarkName, Option<String>)>, failed: bool) -> Seq<
    BenchmarkStatusView,
>
    decreases entries.len(),
{
    if entries.len() == 0 {
        Seq::empty()
    } else {
        let before = picked(entries.drop_last(), failed);
        if entries.last().1 is Some == failed {
            before.push(status_of(entries.last()))
        } else {
            before
        }
    }
}

/// The states of all benchmarks, as they are listed: those that failed first, and within each
/// kind the last one first.
pub open spec fn listed(entries: Seq<(BenchmarkName, Option<String>)>) -> Seq<
    BenchmarkStatusView,
> {
    (picked(entries, false) + picked(entries, true)).reverse()
}

/// Every benchmark is listed once, and those that failed stand in front of those that did not.
pub proof fn lemma_failures_come_first(entries: Seq<(BenchmarkName, Option<String>)>)
    ensures
        listed(entries).len() == entries.len(),
        forall|i: int, j: int|
            0 <= i <= j < listed(entries).len() && !(#[trigger] listed(entries)[j]).success
                ==> !(#[trigger] listed(entries)[i]).success,
        forall|i: int|
            #![trigger listed(entries)[i]]
            0 <= i < listed(entries).len() ==> listed(entries)[i].success
                == (listed(entries)[i].error is None),
{
    lemma_picked(entries);
}

proof fn lemma_picked(entries: Seq<(BenchmarkName, Option<String>)>)
    ensures
        picked(entries, false).len() + picked(entries, true).len() == entries.len(),
        forall|i: int|
            0 <= i < picked(entries, false).len() ==> (#[trigger] picked(entries, false)[i]).success
                && picked(entries, false)[i].error is None,
        forall|i: int|
            0 <= i < picked(entries, true).len() ==> !(#[trigger] picked(entries, true)[i]).success
                && picked(entries, true)[i].error is Some,
    decreases entries.len(),
{
    if entries.len() > 0 {
        lemma_picked(entries.drop_last());
    }
}

/// The state of every benchmark is listed.
pub proof fn lemma_all_are_listed(entries: Seq<(BenchmarkName, Option<String>)>, at: int)
    requires
        0 <= at < entries.len(),
    ensures
        listed(entries).contains(status_of(entries[at])),
{
    let failed = entries[at].1 is Some;
    lemma_is_picked(entries, at);
    let list = picked(entries, failed);
    let i = choose|i: int| 0 <= i < list.len() && list[i] == status_of(entries[at]);
    let all = picked(entries, false) + picked(entries, true);
    let j = if failed {
        picked(entries, false).len() + i
    } else {
        i
    };
    assert(listed(entries)[all.len() - 1 - j] == status_of(entries[at]));
}

proof fn lemma_is_picked(entries: Seq<(BenchmarkName, Option<String>)>, at: int)
    requires
        0 <= at < entries.len(),
    ensures
        picked(entries, entries[at].1 is Some).contains(status_of(entries[at])),
    decreases entries.len(),
{
    let failed = entries[at].1 is Some;
    let before = picked(entries.drop_last(), failed);
    if at == entries.len() - 1 {
        assert(picked(entries, failed)[before.len() as int] == status_of(entries[at]));
    } else {
        lemma_is_picked(entries.drop_last(), at);
        let i = choose|i: int| 0 <= i < before.len() && before[i] == status_of(entries[at]);
        assert(picked(entries, failed)[i] == status_of(entries[at]));
    }
}

/// The places of the benchmarks that failed, or of those that did not, among the first `n`.
proof fn lemma_picked_places(
    entries: Seq<(BenchmarkName, Option<String>)>,
    failed: bool,
    n: int,
) -> (chosen: Seq<int>)
    requires
        0 <= n <= entries.len(),
    ensures
        selection::is_selection(
            Seq::new(entries.len(), |i: int| entries[i].1 is Some == failed).take(n),
            chosen,
        ),
        picked(entries.take(n), failed).len() == chosen.len(),
        forall|j: int|
            0 <= j < chosen.len() ==> #[trigger] picked(entries.take(n), failed)[j] == status_of(
                entries[chosen[j]],
            ),
    decreases n,
{
    let wanted = Seq::new(entries.len(), |i: int| entries[i].1 is Some == failed);
    if n == 0 {
        Seq::empty()
    } else {
        let before = lemma_picked_places(entries, failed, n - 1);
        selection::lemma_selection_goes_on(wanted, n - 1, before);
        assert(entries.take(n).drop_last() =~= entries.take(n - 1));
        selection::extended(wanted, n - 1, before)
    }
}

/// Each benchmark is listed at one place, with its name, whether it succeeded, and what its log
/// quotes, or all of its log. Those that failed stand first, and of two that failed, or of two
/// that did not, the one that came later.
pub proof fn lemma_listing(entries: Seq<(BenchmarkName, Option<String>)>) -> (chosen: Seq<int>)
    ensures
        chosen.len() == entries.len(),
        listed(entries).len() == entries.len(),
        forall|i: int| 0 <= i < entries.len() ==> #[trigger] chosen.contains(i),
        forall|p: int|
            #![trigger listed(entries)[p]]
            0 <= p < entries.len() ==> 0 <= chosen[p] < entries.len() && {
                let (name, log) = entries[chosen[p]];
                &&& listed(entries)[p].name == name@
                &&& listed(entries)[p].success <==> log is None
                &&& match log {
                    None => listed(entries)[p].error is None,
                    Some(log) => listed(entries)[p].error == Some(
                        match prettified(log@) {
                            Some(quoted) => quoted,
                            None => log@,
                        },
                    ),
                }
            },
        forall|p: int, q: int|
            0 <= p < q < entries.len() ==> {
                ||| entries[#[trigger] chosen[p]].1 is Some && entries[#[trigger] chosen[q]].1 is None
                ||| entries[chosen[p]].1 is Some == entries[chosen[q]].1 is Some && chosen[p]
                    > chosen[q]
            },
{
    let n = entries.len() as int;
    let good = lemma_picked_places(entries, false, n);
    let bad = lemma_picked_places(entries, true, n);
    assert(entries.take(n) =~= entries);
    lemma_picked(entries);
    let all = good + bad;
    let chosen = all.reverse();
    let marks = Seq::new(entries.len(), |i: int| entries[i].1 is Some == false);
    let other = Seq::new(entries.len(), |i: int| entries[i].1 is Some == true);
    assert(marks.take(n) =~= marks);
    assert(other.take(n) =~= other);
    assert forall|i: int| 0 <= i < n implies #[trigger] chosen.contains(i) by {
        if entries[i].1 is Some {
            assert(other[i]);
            let j = choose|j: int| 0 <= j < bad.len() && bad[j] == i;
            assert(chosen[all.len() - 1 - (good.len() + j)] == i);
        } else {
            assert(marks[i]);
            let j = choose|j: int| 0 <= j < good.len() && good[j] == i;
            assert(chosen[all.len() - 1 - j] == i);
        }
    }
    assert forall|p: int| #![trigger chosen[p]] 0 <= p < n implies 0 <= chosen[p] < n
        && listed(entries)[p] == status_of(entries[chosen[p]]) by {
        let j = all.len() - 1 - p;
        if j < good.len() {
            assert(marks[good[j]]);
            assert(picked(entries, false)[j] == status_of(entries[good[j]]));
        } else {
            assert(other[bad[j - good.len()]]);
            assert(picked(entries, true)[j - good.len()] == status_of(
                entries[bad[j - good.len()]],
            ));
        }
    }
    assert forall|p: int, q: int| 0 <= p < q < n implies {
        ||| entries[#[trigger] chosen[p]].1 is Some && entries[#[trigger] chosen[q]].1 is None
        ||| entries[chosen[p]].1 is Some == entries[chosen[q]].1 is Some && chosen[p] > chosen[q]
    } by {
        let i = all.len() - 1 - p;
        let j = all.len() - 1 - q;
        if i < good.len() {
            assert(marks[good[i]] && marks[good[j]]);
        } else {
            assert(other[bad[i - good.len()]]);
            if j < good.len() {
                assert(marks[good[j]]);
            } else {
                assert(other[bad[j - good.len()]]);
            }
        }
    }
    chosen
}

/// The answer to a request for the state of things.
#[derive(Debug, PartialEq, Eq)]
pub struct Response {
    pub last_commit: Commit,
    pub benchmarks: Vec<BenchmarkStatus>,
    pub missing: Vec<MissingCommit>,
    pub current: Option<CurrentState>,
}

/// The state of a benchmark.
fn find_status(entry: &(BenchmarkName, Option<String>)) -> (status: BenchmarkStatus)
    ensures
        status@ == status_of(*entry),
{
    let error: Option<String> = match &entry.1 {
        Some(log) => Some(
            match prettify_log(log.as_str()) {
                Some(quoted) => quoted,
                None => log.clone(),
            },
        ),
        None => None,
    };
    BenchmarkStatus { name: entry.0.clone(), success: entry.1.is_none(), error }
}

/// The states of all benchmarks, as they are listed.
fn list_benchmarks(entries: &Vec<(BenchmarkName, Option<String>)>) -> (res: Vec<BenchmarkStatus>)
    ensures
        statuses(res@) == listed(entries@),
{
    let mut listing: Vec<BenchmarkStatus> = Vec::new();
    let mut failed: Vec<BenchmarkStatus> = Vec::new();
    for i in 0..entries.len()
        invariant
            statuses(listing@) == picked(entries@.take(i as int), false),
            statuses(failed@) == picked(entries@.take(i as int), true),
    {
        assert(entries@.take(i + 1).drop_last() =~= entries@.take(i as int));
        let status: BenchmarkStatus = find_status(&entries[i]);
        if entries[i].1.is_some() {
            failed.push(status);
        } else {
            listing.push(status);
        }
    }
    assert(entries@.take(entries@.len() as int) =~= entries@);
    listing.append(&mut failed);
    let ghost all = statuses(listing@);
    let mut res: Vec<BenchmarkStatus> = Vec::new();
    while listing.len() > 0
        invariant
            listing@.len() + res@.len() == all.len(),
            forall|k: int| 0 <= k < listing@.len() ==> (#[trigger] listing@[k])@ == all[k],
            forall|k: int|
                0 <= k < res@.len() ==> (#[trigger] res@[k])@ == all[all.len() - 1 - k],
        decreases listing@.len(),
    {
        if let Some(status) = listing.pop() {
            res.push(status);
        }
    }
    res
}

/// The state of the benchmarks and of the queue: `missing` are the commits that are still to be
/// measured.
pub fn handle_status_page(
    data: &InputData,
    missing: Vec<MissingCommit>,
    persistent: &Persistent,
) -> (res: Response)
    requires
        data.commits@.len() > 0,
    ensures
        res.last_commit == data.commits@.last(),
        statuses(res.benchmarks@) == listed(data.errors@),
        res.missing == missing,
        load::current_view(res.current) == persistent@.current,
{
    let current: Option<CurrentState> = match &persistent.current {
        Some(current) => Some(current.clone()),
        None => None,
    };
    Response {
        last_commit: data.commits[data.commits.len() - 1].clone(),
        benchmarks: list_benchmarks(&data.errors),
        missing,
        current,
    }
}

/// The name of the commit that is to be measured next, given those that are still to be.
pub fn handle_next_commit(missing: &Vec<MissingCommit>) -> (res: Option<String>)
    ensures
        match res {
            Some(sha) => missing@.len() > 0 && sha == missing@[0].commit.sha,
            None => missing@.len() == 0,
        },
{
    if missing.len() > 0 {
        Some(missing[0].commit.sha.clone())
    } else {
        None
    }
}

/// The status page names the last commit, lists each benchmark as often as it was run, and shows the
/// missing commits and the current work as they are.
pub proof fn lemma_status_page(
    data: InputData,
    missing: Vec<MissingCommit>,
    persistent: Persistent,
    res: Response,
)
    requires
        data.commits@.len() > 0,
        call_ensures(handle_status_page, (&data, missing, &persistent), res),
    ensures
        res.last_commit == data.commits@[data.commits@.len() - 1],
        res.benchmarks@.len() == data.errors@.len(),
        statuses(res.benchmarks@) == listed(data.errors@),
        res.missing@ == missing@,
        res.current is Some <==> persistent.current is Some,
        persistent.current is Some ==> {
            &&& res.current->0.commit@ == persistent.current->0.commit@
            &&& load::issue_view(res.current->0.issue) == load::issue_view(
                persistent.current->0.issue,
            )
            &&& res.current->0@.benchmarks == persistent.current->0@.benchmarks
        },
{
    lemma_failures_come_first(data.errors@);
    assert(statuses(res.benchmarks@).len() == data.errors@.len());
}

/// The first of the missing commits is measured next, and nothing is if none is missing.
pub proof fn lemma_next_commit_is_the_first(missing: Vec<MissingCommit>, res: Option<String>)
    requires
        call_ensures(handle_next_commit, (&missing,), res),
    ensures
        res is None <==> missing@.len() == 0,
        missing@.len() > 0 ==> res->0@ == missing@[0].commit.sha@,
{
}

} // verus!
