//! Log files, tailed line by line, with lines put together to entries.

use vstd::prelude::*;

use crate::config::FileLogsConfig;
use crate::pattern;
use crate::pattern::Pattern;
use crate::signal;
use crate::signal::LogEntry;
use crate::signal::LogView;
use crate::strmap::Labels;
use crate::text;

verus! {

// ---------------------------------------------------------------------------
// Model
// ---------------------------------------------------------------------------

/// A line as it was read, without its line end.
pub open spec fn bare_line(buf: Seq<char>) -> Seq<char> {
    text::trim_end_char(text::trim_end_char(buf, '\n'), '\r')
}

/// The text, unless it is empty.
pub open spec fn non_empty(s: Seq<char>) -> Option<Seq<char>> {
    if s.len() > 0 {
        Some(s)
    } else {
        None
    }
}

/// What becomes of an entry in the making when a line is read: the entry in
/// the making then, and the entry that is complete. `starts` says whether the
/// line begins an entry; it is absent where every line is an entry.
pub open spec fn fed(pending: Seq<char>, line: Seq<char>, starts: Option<bool>) -> (
    Seq<char>,
    Option<Seq<char>>,
) {
    match starts {
        None => (Seq::empty(), non_empty(line)),
        Some(true) => (line, non_empty(pending)),
        Some(false) => (
            if pending.len() > 0 {
                pending.push('\n') + line
            } else {
                line
            },
            None,
        ),
    }
}

/// Whether a line begins an entry, by the expression for that; absent where
/// there is none.
pub open spec fn starts_entry(source: Option<Seq<char>>, line: Seq<char>) -> Option<bool> {
    match source {
        Some(p) => Some(pattern::regex_matches(p, line)),
        None => None,
    }
}

/// The lines as they were read, without their line ends.
pub open spec fn bare_lines(lines: Seq<Seq<char>>) -> Seq<Seq<char>> {
    lines.map_values(|l: Seq<char>| bare_line(l))
}

/// What becomes of an entry in the making when lines are read: the entry in
/// the making then, and the entries that are complete.
pub open spec fn assembled(
    pending: Seq<char>,
    lines: Seq<Seq<char>>,
    source: Option<Seq<char>>,
) -> (Seq<char>, Seq<Seq<char>>)
    decreases lines.len(),
{
    if lines.len() == 0 {
        (pending, Seq::empty())
    } else {
        let (before, done) = assembled(pending, lines.drop_last(), source);
        let line = lines.last();
        let (after, complete) = fed(before, line, starts_entry(source, line));
        (after, with_entry(done, complete))
    }
}

/// The entries with one more, if there is one.
pub open spec fn with_entry(done: Seq<Seq<char>>, e: Option<Seq<char>>) -> Seq<Seq<char>> {
    match e {
        Some(entry) => done.push(entry),
        None => done,
    }
}

/// The entries that lines come to when nothing follows them.
pub open spec fn entries_in(
    pending: Seq<char>,
    lines: Seq<Seq<char>>,
    source: Option<Seq<char>>,
) -> Seq<Seq<char>> {
    let (rest, done) = assembled(pending, lines, source);
    with_entry(done, non_empty(rest))
}

/// An entry of a file as a log entry.
pub open spec fn entry_of(
    line: Seq<char>,
    filename: Seq<char>,
    source: Seq<char>,
    extra: Map<Seq<char>, Seq<char>>,
    now: i64,
) -> LogView {
    LogView {
        labels: extra.insert("source"@, source).insert("filename"@, filename),
        line,
        timestamp_ns: now,
    }
}

// ---------------------------------------------------------------------------
// Laws
// ---------------------------------------------------------------------------

/// Lines that do not begin an entry are appended to the one before.
pub proof fn law_continuation_lines_are_appended(pending: Seq<char>, line: Seq<char>)
    requires
        pending.len() > 0,
    ensures
        fed(pending, line, Some(false)).0 == pending + seq!['\n'] + line,
        fed(pending, line, Some(false)).1 is None,
{
    assert(pending.push('\n') + line =~= pending + seq!['\n'] + line);
}

/// An entry is complete when the next one begins, and no text is lost: what is
/// handed out is what was in the making, and the new line is in the making.
pub proof fn law_next_entry_completes_the_one_before(pending: Seq<char>, line: Seq<char>)
    requires
        pending.len() > 0,
    ensures
        fed(pending, line, Some(true)) == (line, Some(pending)),
{
}

/// No line is lost: the entries, with line ends between them, are the lines
/// with line ends between them. Empty lines are left out of account, since
/// they begin no entry.
pub proof fn law_no_line_is_lost(lines: Seq<Seq<char>>, source: Option<Seq<char>>)
    requires
        forall|i: int| 0 <= i < lines.len() ==> (#[trigger] lines[i]).len() > 0,
    ensures
        text::join(entries_in(Seq::empty(), lines, source), seq!['\n']) == text::join(
            lines,
            seq!['\n'],
        ),
{
    lemma_no_line_is_lost(lines, source);
}

proof fn lemma_no_line_is_lost(lines: Seq<Seq<char>>, source: Option<Seq<char>>)
    requires
        forall|i: int| 0 <= i < lines.len() ==> (#[trigger] lines[i]).len() > 0,
    ensures
        text::join(entries_in(Seq::empty(), lines, source), seq!['\n']) == text::join(
            lines,
            seq!['\n'],
        ),
        source is Some && lines.len() > 0 ==> assembled(Seq::empty(), lines, source).0.len() > 0,
        source is None ==> assembled(Seq::empty(), lines, source) == (Seq::<char>::empty(), lines),
    decreases lines.len(),
{
    let sep = seq!['\n'];
    let none = Seq::<char>::empty();
    if lines.len() == 0 {
        assert(entries_in(none, lines, source) =~= lines);
    } else {
        let init = lines.drop_last();
        let line = lines[lines.len() - 1];
        assert forall|i: int| 0 <= i < init.len() implies (#[trigger] init[i]).len() > 0 by {
            assert(init[i] == lines[i]);
        }
        lemma_no_line_is_lost(init, source);
        let (before, done) = assembled(none, init, source);
        let all = entries_in(none, lines, source);
        match starts_entry(source, line) {
            None => {
                assert(init.push(line) =~= lines);
                assert(all =~= lines);
            },
            Some(true) => {
                let so_far = with_entry(done, non_empty(before));
                assert(all =~= so_far.push(line));
                assert(all.drop_last() =~= so_far);
                assert(so_far.len() == 0 <==> init.len() == 0) by {
                    if init.len() == 0 {
                        assert(before.len() == 0 && done.len() == 0);
                    }
                }
            },
            Some(false) => {
                if init.len() == 0 {
                    assert(before.len() == 0 && done.len() == 0);
                    assert(all =~= seq![line]);
                    assert(lines =~= seq![line]);
                } else {
                    let grown = before.push('\n') + line;
                    let so_far = done.push(before);
                    assert(all =~= done.push(grown));
                    assert(all.drop_last() =~= done);
                    assert(so_far.drop_last() =~= done);
                    assert(text::join(all, sep) =~= text::join(so_far, sep) + sep + line);
                }
            },
        }
    }
}

/// Without an expression every line that is not empty is an entry of its own.
pub proof fn law_without_multiline_every_line_is_an_entry(pending: Seq<char>, line: Seq<char>)
    requires
        line.len() > 0,
    ensures
        fed(pending, line, None) == (Seq::<char>::empty(), Some(line)),
{
}

// ---------------------------------------------------------------------------
// Assembly
// ---------------------------------------------------------------------------

/// Reads a line into an entry in the making, given whether it begins one.
/// Gives the entry that is complete, if one is.
pub fn feed(pending: &mut String, line: String, starts: Option<bool>) -> (r: Option<String>)
    ensures
        final(pending)@ == fed(old(pending)@, line@, starts).0,
        text::opt_text(r) == fed(old(pending)@, line@, starts).1,
{
    match starts {
        None => {
            *pending = String::new();
            if line.as_str().is_empty() {
                None
            } else {
                Some(line)
            }
        },
        Some(true) => {
            let mut previous = line;
            std::mem::swap(&mut previous, pending);
            if previous.as_str().is_empty() {
                None
            } else {
                Some(previous)
            }
        },
        Some(false) => {
            if !pending.as_str().is_empty() {
                pending.push('\n');
            }
            pending.append(line.as_str());
            assert(pending@ =~= fed(old(pending)@, line@, starts).0);
            None
        },
    }
}

/// Puts the lines of a file together to entries.
#[derive(Debug)]
pub struct LineAssembler {
    start: Option<Pattern>,
    pending: String,
}

impl LineAssembler {
    /// The expression that the first line of an entry matches; absent where
    /// every line is an entry.
    pub closed spec fn start(&self) -> Option<Seq<char>> {
        match self.start {
            Some(p) => Some(p@),
            None => None,
        }
    }

    /// The entry in the making.
    pub closed spec fn pending(&self) -> Seq<char> {
        self.pending@
    }

    /// An expression that does not compile counts as none.
    pub fn new(multiline_start: &Option<String>) -> (r: Self)
        ensures
            r.start() == pattern::compiled(*multiline_start),
            r.pending().len() == 0,
    {
        LineAssembler { start: pattern::compile_option(multiline_start), pending: String::new() }
    }

    /// Takes a line as it was read, with its line end. Gives the entry that is
    /// complete, if one is.
    pub fn read_line(&mut self, buf: &str) -> (r: Option<String>)
        ensures
            ({
                let line = bare_line(buf@);
                let after = fed(old(self).pending(), line, starts_entry(old(self).start(), line));
                &&& final(self).pending() == after.0
                &&& text::opt_text(r) == after.1
            }),
            final(self).start() == old(self).start(),
    {
        let chars = text::chars_of(buf);
        let line = text::string_of(
            text::trimmed_end_char(text::trimmed_end_char(chars.as_slice(), '\n'), '\r'),
        );
        let starts = match &self.start {
            Some(re) => Some(re.is_match(line.as_str())),
            None => None,
        };
        feed(&mut self.pending, line, starts)
    }

    /// Takes the end of what there is to read. Gives the entry in the making,
    /// if there is one.
    pub fn finish(&mut self) -> (r: Option<String>)
        ensures
            text::opt_text(r) == non_empty(old(self).pending()),
            final(self).pending().len() == 0,
            final(self).start() == old(self).start(),
    {
        let mut rest = String::new();
        std::mem::swap(&mut rest, &mut self.pending);
        if rest.as_str().is_empty() {
            None
        } else {
            Some(rest)
        }
    }
}

// ---------------------------------------------------------------------------
// Source
// ---------------------------------------------------------------------------

/// Tails files.
#[derive(Debug)]
pub struct FileLogsSource {
    cfg: FileLogsConfig,
}

impl FileLogsSource {
    /// The configuration.
    pub closed spec fn cfg(&self) -> FileLogsConfig {
        self.cfg
    }

    pub fn new(cfg: FileLogsConfig) -> (r: Self)
        ensures
            r.cfg() == cfg,
    {
        FileLogsSource { cfg }
    }

    /// The configuration.
    pub fn config(&self) -> (r: &FileLogsConfig)
        ensures
            *r == self.cfg(),
    {
        &self.cfg
    }

    /// The log entries of the new lines of a file, which were read with their
    /// line ends, each with the clock's time. `filename` is the final component
    /// of the file's path.
    pub fn entries(
        &self,
        assembler: &mut LineAssembler,
        lines: &Vec<String>,
        filename: &str,
    ) -> (r: Vec<LogEntry>)
        ensures
            ({
                let texts = entries_in(
                    old(assembler).pending(),
                    bare_lines(text::texts(lines@)),
                    old(assembler).start(),
                );
                &&& r@.len() == texts.len()
                &&& forall|i: int|
                    0 <= i < r@.len() ==> self.is_entry((#[trigger] r@[i])@, texts[i], filename@)
            }),
            final(assembler).pending().len() == 0,
            final(assembler).start() == old(assembler).start(),
    {
        let ghost pending = assembler.pending();
        let ghost source = assembler.start();
        let ghost all = bare_lines(text::texts(lines@));
        let mut out: Vec<LogEntry> = Vec::new();
        let mut i: usize = 0;
        while i < lines.len()
            invariant
                i <= lines@.len(),
                all == bare_lines(text::texts(lines@)),
                assembler.start() == source,
                assembler.pending() == assembled(pending, all.take(i as int), source).0,
                out@.len() == assembled(pending, all.take(i as int), source).1.len(),
                forall|j: int|
                    0 <= j < out@.len() ==> self.is_entry(
                        (#[trigger] out@[j])@,
                        assembled(pending, all.take(i as int), source).1[j],
                        filename@,
                    ),
            decreases lines@.len() - i,
        {
            assert(all.take(i + 1).drop_last() =~= all.take(i as int));
            assert(all.take(i + 1).last() == bare_line(lines@[i as int]@));
            if let Some(line) = assembler.read_line(lines[i].as_str()) {
                out.push(self.entry(line.as_str(), filename));
            }
            i = i + 1;
        }
        assert(all.take(i as int) =~= all);
        if let Some(line) = assembler.finish() {
            out.push(self.entry(line.as_str(), filename));
        }
        out
    }

    /// `e` is a log entry of a file's entry, at some time.
    pub open spec fn is_entry(&self, e: LogView, line: Seq<char>, filename: Seq<char>) -> bool {
        exists|now: i64|
            e == #[trigger] entry_of(
                line,
                filename,
                self.cfg().name@,
                self.cfg().extra_labels@,
                now,
            )
    }

    /// The entry of a file as a log entry, with the clock's time.
    pub fn entry(&self, line: &str, filename: &str) -> (r: LogEntry)
        ensures
            self.is_entry(r@, line@, filename@),
    {
        make_entry(
            line,
            filename,
            self.cfg.name.as_str(),
            &self.cfg.extra_labels,
            signal::now_ns(),
        )
    }
}

/// A pattern that stands for more than one path: it holds `*` or `?`.
pub open spec fn is_glob(p: Seq<char>) -> bool {
    text::find_char(p, '*') is Some || text::find_char(p, '?') is Some
}

/// Whether a pattern stands for more than one path.
pub fn has_wildcard(p: &str) -> (r: bool)
    ensures
        r == is_glob(p@),
{
    let chars = text::chars_of(p);
    text::find_char_at(chars.as_slice(), '*', 0).is_some() || text::find_char_at(
        chars.as_slice(),
        '?',
        0,
    ).is_some()
}

/// An entry of a file as a log entry, under the final component of the file's
/// path, which is empty where there is none.
pub fn make_entry(
    line: &str,
    filename: &str,
    source: &str,
    extra: &Labels,
    now: i64,
) -> (r: LogEntry)
    ensures
        r@ == entry_of(line@, filename@, source@, extra@, now),
{
    let mut labels = extra.clone();
    let _ = labels.insert("source".to_owned(), source.to_owned());
    let _ = labels.insert("filename".to_owned(), filename.to_owned());
    LogEntry { labels, line: line.to_owned(), timestamp_ns: now }
}

/// A line is what stands before its line end, with or without a carriage return.
pub proof fn law_a_line_is_bare_of_its_end(line: Seq<char>)
    requires
        line.len() > 0 ==> line.last() != '\n' && line.last() != '\r',
    ensures
        bare_line(line + seq!['\n']) == line,
        bare_line(line + seq!['\r', '\n']) == line,
        bare_line(line) == line,
        forall|lines: Seq<Seq<char>>, i: int|
            0 <= i < lines.len() ==> #[trigger] bare_lines(lines)[i] == bare_line(lines[i]),
        forall|lines: Seq<Seq<char>>| #[trigger] bare_lines(lines).len() == lines.len(),
{
    let none = Seq::<char>::empty();
    text::law_trim_end_char_takes_the_run_off(line, seq!['\n'], '\n');
    text::law_trim_end_char_takes_the_run_off(line, none, '\r');
    text::law_trim_end_char_takes_the_run_off(line, none, '\n');
    assert(line + none =~= line);
    let with_return = line + seq!['\r'];
    assert(with_return.last() == '\r');
    assert(line + seq!['\r', '\n'] =~= with_return + seq!['\n']);
    text::law_trim_end_char_takes_the_run_off(with_return, seq!['\n'], '\n');
    text::law_trim_end_char_takes_the_run_off(line, seq!['\r'], '\r');
}

/// It makes no difference in how many parts lines are read: what two rows of
/// lines come to is what the second comes to behind the first.
pub proof fn law_lines_can_be_read_in_parts(
    pending: Seq<char>,
    a: Seq<Seq<char>>,
    b: Seq<Seq<char>>,
    source: Option<Seq<char>>,
)
    ensures
        ({
            let first = assembled(pending, a, source);
            let second = assembled(first.0, b, source);
            assembled(pending, a + b, source) == (second.0, first.1 + second.1)
        }),
        assembled(pending, Seq::empty(), source) == (pending, Seq::<Seq<char>>::empty()),
    decreases b.len(),
{
    let first = assembled(pending, a, source);
    if b.len() == 0 {
        assert(a + b =~= a);
        assert(first.1 + Seq::<Seq<char>>::empty() =~= first.1);
        assert(assembled(first.0, b, source).1 =~= Seq::empty());
    } else {
        assert((a + b).drop_last() =~= a + b.drop_last());
        assert((a + b).last() == b.last());
        law_lines_can_be_read_in_parts(pending, a, b.drop_last(), source);
        let second = assembled(first.0, b, source);
        assert(assembled(pending, a + b, source).1 =~= first.1 + second.1);
    }
}

/// One line behind an entry in the making: where there is an expression, a line
/// that it matches completes that entry and begins a new one, and any other line
/// is put to the entry. Where there is none, the line is complete by itself.
pub proof fn law_a_matching_line_begins_an_entry(
    pending: Seq<char>,
    line: Seq<char>,
    source: Option<Seq<char>>,
)
    ensures
        ({
            let (after, done) = assembled(pending, seq![line], source);
            &&& source matches Some(p) ==> {
                &&& pattern::regex_matches(p, line) && pending.len() > 0 ==> after == line && done
                    == seq![pending]
                &&& pattern::regex_matches(p, line) && pending.len() == 0 ==> after == line
                    && done.len() == 0
                &&& !pattern::regex_matches(p, line) && pending.len() > 0 ==> after == pending
                    + seq!['\n'] + line && done.len() == 0
                &&& !pattern::regex_matches(p, line) && pending.len() == 0 ==> after == line
                    && done.len() == 0
            }
            &&& source is None && line.len() > 0 ==> after.len() == 0 && done == seq![line]
            &&& source is None && line.len() == 0 ==> after.len() == 0 && done.len() == 0
        }),
        pending.len() > 0 ==> entries_in(pending, Seq::empty(), source) == seq![pending],
        pending.len() == 0 ==> entries_in(pending, Seq::empty(), source).len() == 0,
{
    let one = seq![line];
    assert(one.drop_last() =~= Seq::empty());
    assert(one.last() == line);
    assert(assembled(pending, one.drop_last(), source) == (pending, Seq::<Seq<char>>::empty()));
    assert(pending.push('\n') + line =~= pending + seq!['\n'] + line);
    let (after, done) = assembled(pending, one, source);
    if done.len() == 1 {
        assert(done =~= seq![done[0]]);
    }
    let rest = entries_in(pending, Seq::empty(), source);
    if pending.len() > 0 {
        assert(rest =~= seq![pending]);
    }
}

/// What is still in the making when there is no more to read is the last entry,
/// behind those that were complete.
pub proof fn law_the_last_entry_is_not_lost(
    pending: Seq<char>,
    lines: Seq<Seq<char>>,
    source: Option<Seq<char>>,
)
    ensures
        ({
            let (rest, done) = assembled(pending, lines, source);
            &&& rest.len() > 0 ==> entries_in(pending, lines, source) == done.push(rest)
            &&& rest.len() == 0 ==> entries_in(pending, lines, source) == done
        }),
{
}

/// A log entry of a file carries the entry as its line, the file's name and the
/// name of the source, and the extra labels under other names.
pub proof fn law_file_logs_are_labelled(
    line: Seq<char>,
    filename: Seq<char>,
    source: Seq<char>,
    extra: Map<Seq<char>, Seq<char>>,
    now: i64,
)
    ensures
        ({
            let e = entry_of(line, filename, source, extra, now);
            &&& e.line == line
            &&& e.timestamp_ns == now
            &&& e.labels.contains_key("source"@) && e.labels["source"@] == source
            &&& e.labels.contains_key("filename"@) && e.labels["filename"@] == filename
            &&& forall|k: Seq<char>|
                k != "source"@ && k != "filename"@ ==> (#[trigger] e.labels.contains_key(k)
                    <==> extra.contains_key(k))
            &&& forall|k: Seq<char>|
                k != "source"@ && k != "filename"@ && extra.contains_key(k)
                    ==> #[trigger] e.labels[k] == extra[k]
        }),
{
    reveal_strlit("source");
    reveal_strlit("filename");
    assert("source"@.len() == 6 && "filename"@.len() == 8);
}

/// A pattern stands for more than one path exactly when a `*` or a `?` stands
/// somewhere in it.
pub proof fn law_a_wildcard_is_a_star_or_a_question_mark(p: Seq<char>)
    ensures
        is_glob(p) <==> exists|i: int| 0 <= i < p.len() && (#[trigger] p[i] == '*' || p[i] == '?'),
{
    text::lemma_find_char_from(p, '*', 0);
    text::lemma_find_char_from(p, '?', 0);
}

/// Every entry that is read of a file carries its text, and is labelled with the
/// file and the source.
pub proof fn law_entries_are_those_of_their_file(
    source: FileLogsSource,
    e: LogView,
    line: Seq<char>,
    filename: Seq<char>,
)
    requires
        source.is_entry(e, line, filename),
    ensures
        e.line == line,
        e.labels == source.cfg().extra_labels@.insert("source"@, source.cfg().name@).insert(
            "filename"@,
            filename,
        ),
{
}

} // verus!
