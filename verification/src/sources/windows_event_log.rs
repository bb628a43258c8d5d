//! Events of the Windows Event Log, read from their rendered XML.

use vstd::prelude::*;

use crate::clock;
use crate::config;
use crate::config::WindowsEventLogConfig;
use crate::number;
use crate::signal;
use crate::signal::LogEntry;
use crate::signal::LogView;
use crate::strmap::Labels;
use crate::strmap;
use crate::text;
use vstd::slice::slice_subrange;

verus! {

/// Polls a Windows Event Log channel using the native `wevtapi` Event Log API.
/// Each event is rendered to XML to extract the system fields and formatted
/// through the publisher's message catalogue to obtain the human-readable text.
#[derive(Debug)]
pub struct WindowsEventLogSource {
    cfg: WindowsEventLogConfig,
}

impl WindowsEventLogSource {
    /// The configuration.
    pub closed spec fn cfg(&self) -> WindowsEventLogConfig {
        self.cfg
    }

    pub fn new(cfg: WindowsEventLogConfig) -> (r: Self)
        ensures
            r.cfg() == cfg,
    {
        WindowsEventLogSource { cfg }
    }

    /// The configuration.
    pub fn config(&self) -> (r: &WindowsEventLogConfig)
        ensures
            *r == self.cfg(),
    {
        &self.cfg
    }

    /// The seconds between two polls.
    pub fn interval_secs(&self) -> (r: u64)
        ensures
            r == (match config::duration(self.cfg().interval@) {
                Some(n) => n,
                None => 15,
            }),
    {
        config::duration_or(self.cfg.interval.as_str(), 15)
    }

    /// The seconds that each poll looks back: one interval plus a small
    /// margin.
    pub fn lookback_secs(&self) -> (r: u64)
        requires
            config::duration(self.cfg().interval@) matches Some(n) ==> n + 2 <= u64::MAX,
        ensures
            r == (match config::duration(self.cfg().interval@) {
                Some(n) => n + 2,
                None => 17,
            }),
    {
        self.interval_secs() + 2
    }
}

/// The milliseconds of a number of seconds, as far as 64 bits go.
pub fn lookback_ms(secs: u64) -> (r: u64)
    ensures
        r == (if secs * 1000 <= u64::MAX {
            (secs * 1000) as int
        } else {
            u64::MAX as int
        }),
{
    if secs <= u64::MAX / 1000 {
        secs * 1000
    } else {
        u64::MAX
    }
}

/// The structured XML query that selects the events of the lookback window.
pub fn event_query(lookback_secs: u64) -> (r: String)
    ensures
        r@ == "*[System[TimeCreated[timediff(@SystemTime) <= "@ + number::dec(
            (if lookback_secs * 1000 <= u64::MAX {
                (lookback_secs * 1000) as int
            } else {
                u64::MAX as int
            }) as nat,
        ) + "]]]"@,
{
    text::cat3(
        "*[System[TimeCreated[timediff(@SystemTime) <= ",
        number::dec_u64(lookback_ms(lookback_secs)).as_str(),
        "]]]",
    )
}

// ---------------------------------------------------------------------------
// XML model
// ---------------------------------------------------------------------------

/// Whether a tag name ends before this character.
pub open spec fn ends_name(c: char) -> bool {
    text::is_white(c) || c == '/' || c == '>'
}

/// A start tag stands at position `i`: `open`, which is `<` and the tag name,
/// and then a character that ends the name.
pub open spec fn tag_at(xml: Seq<char>, open: Seq<char>, i: int) -> bool {
    text::stands_at(xml, open, i) && i + open.len() < xml.len() && ends_name(xml[i + open.len()])
}

/// The first position at or after `from` where the start tag stands.
pub open spec fn tag_from(xml: Seq<char>, open: Seq<char>, from: int) -> Option<int>
    decreases xml.len() - from,
{
    if from < 0 || from >= xml.len() {
        None
    } else if tag_at(xml, open, from) {
        Some(from)
    } else {
        tag_from(xml, open, from + 1)
    }
}

/// The quotation mark that is open before position `i`, if one is.
pub open spec fn open_quote(s: Seq<char>, i: int) -> Option<char>
    decreases i,
{
    if i <= 0 || i > s.len() {
        None
    } else {
        match open_quote(s, i - 1) {
            Some(q) => if s[i - 1] == q {
                None
            } else {
                Some(q)
            },
            None => if s[i - 1] == '\'' || s[i - 1] == '"' {
                Some(s[i - 1])
            } else {
                None
            },
        }
    }
}

/// The first position at or after `from` of a `>` that no quotation marks
/// enclose.
pub open spec fn close_from(s: Seq<char>, from: int) -> Option<int>
    decreases s.len() - from,
{
    if from < 0 || from >= s.len() {
        None
    } else if s[from] == '>' && open_quote(s, from) is None {
        Some(from)
    } else {
        close_from(s, from + 1)
    }
}

/// An attribute stands at position `i` of a start tag: `needle`, which is its
/// name and `=`, after white space and outside of the quoted values.
pub open spec fn attr_at(s: Seq<char>, needle: Seq<char>, i: int) -> bool {
    text::stands_at(s, needle, i) && i > 0 && text::is_white(s[i - 1]) && open_quote(s, i) is None
}

/// The first position at or after `from` where the attribute stands.
pub open spec fn attr_from(s: Seq<char>, needle: Seq<char>, from: int) -> Option<int>
    decreases s.len() - from,
{
    if from < 0 || from >= s.len() {
        None
    } else if attr_at(s, needle, from) {
        Some(from)
    } else {
        attr_from(s, needle, from + 1)
    }
}

/// The value of the attribute `attr` of the first `<tag ...>` element, in
/// single or double quotes.
pub open spec fn attr_in(xml: Seq<char>, tag: Seq<char>, attr: Seq<char>) -> Option<Seq<char>> {
    match tag_from(xml, "<"@ + tag, 0) {
        None => None,
        Some(start) => {
            let rest = xml.skip(start);
            match close_from(rest, 0) {
                None => None,
                Some(end) => {
                    let needle = attr + "="@;
                    let inside = rest.take(end);
                    match attr_from(inside, needle, 0) {
                        None => None,
                        Some(p) => quoted_value(inside.skip(p + needle.len())),
                    }
                },
            }
        },
    }
}

/// What `tag_from` finds is a start tag.
pub proof fn lemma_tag_from(xml: Seq<char>, open: Seq<char>, from: int)
    ensures
        tag_from(xml, open, from) matches Some(i) ==> from <= i && tag_at(xml, open, i),
    decreases xml.len() - from,
{
    if 0 <= from < xml.len() && !tag_at(xml, open, from) {
        lemma_tag_from(xml, open, from + 1);
    }
}

/// What `close_from` finds is a `>`.
pub proof fn lemma_close_from(s: Seq<char>, from: int)
    ensures
        close_from(s, from) matches Some(i) ==> from <= i < s.len() && s[i] == '>',
    decreases s.len() - from,
{
    if 0 <= from < s.len() && !(s[from] == '>' && open_quote(s, from) is None) {
        lemma_close_from(s, from + 1);
    }
}

/// What stands between the quotation mark that `s` begins with and the next
/// one of its kind.
pub open spec fn quoted_value(s: Seq<char>) -> Option<Seq<char>> {
    if s.len() == 0 || (s[0] != '\'' && s[0] != '"') {
        None
    } else {
        match text::find_char(s.skip(1), s[0]) {
            Some(close) => Some(s.skip(1).take(close)),
            None => None,
        }
    }
}

/// The content of the first `<tag>...</tag>` element. An element that closes
/// itself is passed over.
pub open spec fn element_in(xml: Seq<char>, tag: Seq<char>) -> Option<Seq<char>>
    decreases xml.len(),
{
    proof {
        lemma_tag_from(xml, "<"@ + tag, 0);
    }
    match tag_from(xml, "<"@ + tag, 0) {
        None => None,
        Some(start) => {
            let rest = xml.skip(start);
            proof {
                lemma_close_from(rest, 0);
            }
            match close_from(rest, 0) {
                None => None,
                Some(gt) => {
                    let content = rest.skip(gt + 1);
                    if gt > 0 && rest[gt - 1] == '/' {
                        element_in(content, tag)
                    } else {
                        match text::find(content, "</"@ + tag + ">"@) {
                            Some(end) => Some(content.take(end)),
                            None => None,
                        }
                    }
                },
            }
        },
    }
}

/// The contents of the `<Data>` elements, in order; blank ones and those of
/// elements that close themselves are passed over.
pub open spec fn data_elements(xml: Seq<char>) -> Seq<Seq<char>>
    decreases xml.len(),
{
    proof {
        lemma_tag_from(xml, "<Data"@, 0);
        reveal_strlit("<Data");
        reveal_strlit("</Data>");
    }
    match tag_from(xml, "<Data"@, 0) {
        None => Seq::empty(),
        Some(start) => {
            let rest = xml.skip(start);
            proof {
                lemma_close_from(rest, 0);
            }
            match close_from(rest, 0) {
                None => Seq::empty(),
                Some(gt) => {
                    let after = rest.skip(gt + 1);
                    if gt > 0 && rest[gt - 1] == '/' {
                        data_elements(after)
                    } else {
                        proof {
                            text::lemma_find_from(after, "</Data>"@, 0);
                        }
                        match text::find(after, "</Data>"@) {
                            None => Seq::empty(),
                            Some(end) => {
                                let value = after.take(end);
                                (if text::is_blank(value) {
                                    Seq::empty()
                                } else {
                                    seq![value]
                                }) + data_elements(after.skip(end + 7))
                            },
                        }
                    }
                },
            }
        },
    }
}

/// Where an event's data stand: in its `<EventData>` element. A fragment
/// without one is taken to be what stands in it.
pub open spec fn data_part(xml: Seq<char>) -> Seq<char> {
    match element_in(xml, "EventData"@) {
        Some(content) => content,
        None => xml,
    }
}

/// The contents of the `<Data>` elements under `<EventData>`, in order.
pub open spec fn data_in(xml: Seq<char>) -> Seq<Seq<char>> {
    data_elements(data_part(xml))
}

/// The digits of a text.
pub open spec fn digits_of(s: Seq<char>) -> Seq<char>
    decreases s.len(),
{
    if s.len() == 0 {
        Seq::empty()
    } else if number::is_digit(s.last()) {
        digits_of(s.drop_last()).push(s.last())
    } else {
        digits_of(s.drop_last())
    }
}

/// The display name of a level; a level that has none is its number.
pub open spec fn level_text(level: u8) -> Seq<char> {
    match level {
        0 => "Information"@,
        1 => "Critical"@,
        2 => "Error"@,
        3 => "Warning"@,
        4 => "Information"@,
        5 => "Verbose"@,
        _ => number::dec(level as nat),
    }
}

/// What a `WinEvent` holds.
pub struct WinEventView {
    pub time_created: Option<Seq<char>>,
    pub id: Option<i64>,
    pub level: Option<Seq<char>>,
    pub provider: Option<Seq<char>>,
    pub message: Seq<char>,
}

/// The id of an event: the digits of its `EventID`.
pub open spec fn id_in(xml: Seq<char>) -> Option<i64> {
    match element_in(xml, "EventID"@) {
        Some(s) => match number::parse_int(digits_of(s)) {
            Some(n) => Some(n as i64),
            None => None,
        },
        None => None,
    }
}

/// The level of an event.
pub open spec fn level_in(xml: Seq<char>) -> Option<Seq<char>> {
    match element_in(xml, "Level"@) {
        Some(s) => match number::parse_nat(text::trim(s), 255) {
            Some(n) => Some(level_text(n as u8)),
            None => None,
        },
        None => None,
    }
}

/// The message of an event: the publisher's, unless it is blank, or else the
/// event's data with spaces between them.
pub open spec fn message_in(xml: Seq<char>, message: Option<Seq<char>>) -> Seq<char> {
    match message {
        Some(m) if !text::is_blank(m) => m,
        _ => text::join(data_in(xml), " "@),
    }
}

/// The event that a rendered XML fragment and a message stand for.
pub open spec fn event_in(xml: Seq<char>, message: Option<Seq<char>>) -> WinEventView {
    WinEventView {
        time_created: attr_in(xml, "TimeCreated"@, "SystemTime"@),
        id: id_in(xml),
        level: level_in(xml),
        provider: attr_in(xml, "Provider"@, "Name"@),
        message: message_in(xml, message),
    }
}

/// The event as a log entry; `now` is its time where it carries none.
pub open spec fn log_of(
    e: WinEventView,
    channel: Seq<char>,
    extra: Map<Seq<char>, Seq<char>>,
    time_ms: Option<i64>,
    now: i64,
) -> LogView {
    let labels = extra.insert("source"@, "windows_event_log"@).insert("channel"@, channel);
    LogView {
        labels: strmap::with_label(
            strmap::with_label(strmap::with_label(labels, "provider"@, e.provider), "level"@, e.level),
            "event_id"@,
            match e.id {
                Some(id) => Some(number::dec_int(id as int)),
                None => None,
            },
        ),
        line: e.message,
        timestamp_ns: match time_ms {
            Some(ms) => (ms * 1_000_000) as i64,
            None => now,
        },
    }
}

/// The time fits into 64 bits of nanoseconds.
pub open spec fn time_in_range(time_ms: Option<i64>) -> bool {
    time_ms matches Some(ms) ==> i64::MIN <= ms * 1_000_000 <= i64::MAX
}

/// What `parse_system_time` makes of an event's time.
pub open spec fn event_ms(e: WinEventView) -> Option<i64> {
    match e.time_created {
        Some(t) => clock::rfc3339_millis(t),
        None => None,
    }
}

// ---------------------------------------------------------------------------
// Laws
// ---------------------------------------------------------------------------

/// A message that is not blank is taken as it is.
pub proof fn law_publisher_message_is_preferred(xml: Seq<char>, m: Seq<char>)
    requires
        !text::is_blank(m),
    ensures
        event_in(xml, Some(m)).message == m,
{
}

/// A blank message counts as none.
pub proof fn law_blank_message_counts_as_none(xml: Seq<char>, m: Seq<char>)
    requires
        text::is_blank(m),
    ensures
        event_in(xml, Some(m)) == event_in(xml, None),
{
}

/// The data of an event are never blank.
pub proof fn law_data_values_are_not_blank(xml: Seq<char>)
    ensures
        forall|i: int| 0 <= i < data_in(xml).len() ==> !text::is_blank(#[trigger] data_in(xml)[i]),
{
    lemma_data_elements_are_not_blank(data_part(xml));
}

proof fn lemma_data_elements_are_not_blank(xml: Seq<char>)
    ensures
        forall|i: int|
            0 <= i < data_elements(xml).len() ==> !text::is_blank(#[trigger] data_elements(xml)[i]),
    decreases xml.len(),
{
    lemma_tag_from(xml, "<Data"@, 0);
    reveal_strlit("<Data");
    reveal_strlit("</Data>");
    if let Some(start) = tag_from(xml, "<Data"@, 0) {
        let rest = xml.skip(start);
        lemma_close_from(rest, 0);
        if let Some(gt) = close_from(rest, 0) {
            let after = rest.skip(gt + 1);
            if gt > 0 && rest[gt - 1] == '/' {
                lemma_data_elements_are_not_blank(after);
                assert(data_elements(xml) == data_elements(after));
            } else {
                text::lemma_find_from(after, "</Data>"@, 0);
                if let Some(end) = text::find(after, "</Data>"@) {
                    let value = after.take(end);
                    let tail = data_elements(after.skip(end + 7));
                    let lead: Seq<Seq<char>> = if text::is_blank(value) {
                        Seq::empty()
                    } else {
                        seq![value]
                    };
                    lemma_data_elements_are_not_blank(after.skip(end + 7));
                    assert(data_elements(xml) == lead + tail);
                    assert forall|i: int|
                        0 <= i < data_elements(xml).len() implies !text::is_blank(
                        #[trigger] data_elements(xml)[i],
                    ) by {
                        if i >= lead.len() {
                            assert((lead + tail)[i] == tail[i - lead.len()]);
                        }
                    }
                }
            }
        }
    }
}

// ---------------------------------------------------------------------------
// XML parsing
// ---------------------------------------------------------------------------

fn find_tag(xml: &[char], open: &[char]) -> (r: Option<usize>)
    ensures
        text::as_pos(r) == tag_from(xml@, open@, 0),
        r matches Some(i) ==> tag_at(xml@, open@, i as int),
{
    let mut i: usize = 0;
    while i < xml.len()
        invariant
            i <= xml@.len(),
            tag_from(xml@, open@, 0) == tag_from(xml@, open@, i as int),
        decreases xml@.len() - i,
    {
        if text::is_at(xml, open, i) && open.len() < xml.len() - i {
            let c = xml[i + open.len()];
            if text::white(c) || c == '/' || c == '>' {
                return Some(i);
            }
        }
        i = i + 1;
    }
    None
}

/// The quotation mark that is open after a character.
fn next_quote(open: Option<char>, c: char) -> (r: Option<char>)
    ensures
        r == (match open {
            Some(q) => if c == q {
                None
            } else {
                Some(q)
            },
            None => if c == '\'' || c == '"' {
                Some(c)
            } else {
                None
            },
        }),
{
    match open {
        Some(q) => if c == q {
            None
        } else {
            Some(q)
        },
        None => if c == '\'' || c == '"' {
            Some(c)
        } else {
            None
        },
    }
}

fn find_close(s: &[char]) -> (r: Option<usize>)
    ensures
        text::as_pos(r) == close_from(s@, 0),
        r matches Some(i) ==> i < s@.len(),
{
    let mut quote: Option<char> = None;
    let mut i: usize = 0;
    while i < s.len()
        invariant
            i <= s@.len(),
            quote == open_quote(s@, i as int),
            close_from(s@, 0) == close_from(s@, i as int),
        decreases s@.len() - i,
    {
        if s[i] == '>' && quote.is_none() {
            return Some(i);
        }
        quote = next_quote(quote, s[i]);
        i = i + 1;
    }
    None
}

fn find_attr(s: &[char], needle: &[char]) -> (r: Option<usize>)
    ensures
        text::as_pos(r) == attr_from(s@, needle@, 0),
        r matches Some(i) ==> attr_at(s@, needle@, i as int),
{
    let mut quote: Option<char> = None;
    let mut i: usize = 0;
    while i < s.len()
        invariant
            i <= s@.len(),
            quote == open_quote(s@, i as int),
            attr_from(s@, needle@, 0) == attr_from(s@, needle@, i as int),
        decreases s@.len() - i,
    {
        if i > 0 && quote.is_none() && text::white(s[i - 1]) && text::is_at(s, needle, i) {
            return Some(i);
        }
        quote = next_quote(quote, s[i]);
        i = i + 1;
    }
    None
}

fn read_quoted(s: &[char]) -> (r: Option<String>)
    ensures
        text::opt_text(r) == quoted_value(s@),
{
    if s.len() == 0 {
        return None;
    }
    let quote = s[0];
    if quote != '\'' && quote != '"' {
        return None;
    }
    let value = slice_subrange(s, 1, s.len());
    assert(value@ =~= s@.skip(1));
    proof {
        text::lemma_find_char_from(value@, quote, 0);
    }
    match text::find_char_at(value, quote, 0) {
        Some(close) => {
            let part = slice_subrange(value, 0, close);
            assert(part@ =~= value@.take(close as int));
            Some(text::string_of(part))
        },
        None => None,
    }
}

/// Extract the value of `attr` from the first `<tag ...>` element. Handles both
/// single- and double-quoted attribute values.
pub fn extract_attr(xml: &str, tag: &str, attr: &str) -> (r: Option<String>)
    ensures
        text::opt_text(r) == attr_in(xml@, tag@, attr@),
{
    let chars = text::chars_of(xml);
    let open = text::chars_of(text::cat2("<", tag).as_str());
    let needle = text::chars_of(text::cat2(attr, "=").as_str());
    let all = chars.as_slice();
    let start: usize = match find_tag(all, open.as_slice()) {
        Some(i) => i,
        None => {
            return None;
        },
    };
    let rest = slice_subrange(all, start, all.len());
    assert(rest@ =~= xml@.skip(start as int));
    let end: usize = match find_close(rest) {
        Some(i) => i,
        None => {
            return None;
        },
    };
    let inside = slice_subrange(rest, 0, end);
    assert(inside@ =~= rest@.take(end as int));
    let at: usize = match find_attr(inside, needle.as_slice()) {
        Some(i) => i,
        None => {
            return None;
        },
    };
    let after = slice_subrange(inside, at + needle.len(), inside.len());
    assert(after@ =~= inside@.skip(at + needle@.len()));
    read_quoted(after)
}

/// Extract the text content of the first `<tag>...</tag>` element.
pub fn extract_element(xml: &str, tag: &str) -> (r: Option<String>)
    ensures
        text::opt_text(r) == element_in(xml@, tag@),
{
    let chars = text::chars_of(xml);
    let open = text::chars_of(text::cat2("<", tag).as_str());
    let close = text::chars_of(text::cat3("</", tag, ">").as_str());
    let all = chars.as_slice();
    let total: usize = all.len();
    let mut cursor: usize = 0;
    assert(xml@.skip(0) =~= xml@);
    loop
        invariant
            all@ == xml@,
            total == all@.len(),
            open@ == "<"@ + tag@,
            close@ == "</"@ + tag@ + ">"@,
            cursor <= total,
            element_in(xml@, tag@) == element_in(xml@.skip(cursor as int), tag@),
        decreases total - cursor,
    {
        let here = slice_subrange(all, cursor, total);
        assert(here@ =~= xml@.skip(cursor as int));
        let start: usize = match find_tag(here, open.as_slice()) {
            Some(i) => i,
            None => {
                return None;
            },
        };
        let rest = slice_subrange(here, start, here.len());
        assert(rest@ =~= here@.skip(start as int));
        let gt: usize = match find_close(rest) {
            Some(i) => i,
            None => {
                return None;
            },
        };
        let n: usize = rest.len();
        let content = slice_subrange(rest, gt + 1, n);
        assert(content@ =~= rest@.skip(gt + 1));
        if gt > 0 && rest[gt - 1] == '/' {
            assert(content@ =~= xml@.skip(cursor + start + gt + 1));
            cursor = cursor + start + gt + 1;
        } else {
            proof {
                text::lemma_find_from(content@, "</"@ + tag@ + ">"@, 0);
            }
            return match text::find_sub(content, close.as_slice(), 0) {
                Some(end) => {
                    let part = slice_subrange(content, 0, end);
                    assert(part@ =~= content@.take(end as int));
                    Some(text::string_of(part))
                },
                None => None,
            };
        }
    }
}

fn collect_data(xml: &str) -> (r: Vec<String>)
    ensures
        text::texts(r@) == data_elements(xml@),
{
    proof {
        reveal_strlit("<Data");
        reveal_strlit("</Data>");
    }
    let chars = text::chars_of(xml);
    let open = text::chars_of("<Data");
    let close = text::chars_of("</Data>");
    let all = chars.as_slice();
    let total: usize = all.len();
    let mut out: Vec<String> = Vec::new();
    let mut cursor: usize = 0;
    assert(xml@.skip(0) =~= xml@);
    assert(text::texts(out@) + data_elements(xml@) =~= data_elements(xml@));
    loop
        invariant
            all@ == xml@,
            total == all@.len(),
            open@ == "<Data"@,
            close@ == "</Data>"@,
            open@.len() == 5,
            close@.len() == 7,
            cursor <= total,
            text::texts(out@) + data_elements(xml@.skip(cursor as int)) == data_elements(xml@),
        decreases total - cursor,
    {
        let rest = slice_subrange(all, cursor, total);
        assert(rest@ =~= xml@.skip(cursor as int));
        let start: usize = match find_tag(rest, open.as_slice()) {
            Some(i) => i,
            None => {
                assert(text::texts(out@) + Seq::empty() =~= text::texts(out@));
                return out;
            },
        };
        let element = slice_subrange(rest, start, rest.len());
        assert(element@ =~= rest@.skip(start as int));
        let gt: usize = match find_close(element) {
            Some(i) => i,
            None => {
                assert(text::texts(out@) + Seq::empty() =~= text::texts(out@));
                return out;
            },
        };
        let n: usize = element.len();
        let after = slice_subrange(element, gt + 1, n);
        assert(after@ =~= element@.skip(gt + 1));
        if gt > 0 && element[gt - 1] == '/' {
            assert(after@ =~= xml@.skip(cursor + start + gt + 1));
            cursor = cursor + start + gt + 1;
        } else {
            proof {
                text::lemma_find_from(after@, "</Data>"@, 0);
            }
            match text::find_sub(after, close.as_slice(), 0) {
                Some(end) => {
                    let value = slice_subrange(after, 0, end);
                    assert(value@ =~= after@.take(end as int));
                    let ghost before = text::texts(out@);
                    let ghost tail = after@.skip(end + 7);
                    let ghost at = cursor + start + gt + 1 + end + 7;
                    assert(tail =~= xml@.skip(at));
                    let trimmed = text::trimmed(value);
                    if trimmed.len() > 0 {
                        out.push(text::string_of(value));
                        assert(text::texts(out@) =~= before.push(value@));
                        assert(before.push(value@) + data_elements(tail) =~= before + (seq![value@]
                            + data_elements(tail)));
                    } else {
                        assert(before + data_elements(tail) =~= before + (Seq::empty()
                            + data_elements(tail)));
                    }
                    cursor = cursor + start + gt + 1 + end + 7;
                },
                None => {
                    assert(text::texts(out@) + Seq::empty() =~= text::texts(out@));
                    return out;
                },
            }
        }
    }
}

/// Collect the text of every `<Data ...>value</Data>` element under EventData.
/// A fragment without an EventData element is taken to be what stands in it.
pub fn extract_data_values(xml: &str) -> (r: Vec<String>)
    ensures
        text::texts(r@) == data_in(xml@),
{
    match extract_element(xml, "EventData") {
        Some(content) => collect_data(content.as_str()),
        None => collect_data(xml),
    }
}

/// Map a Windows event level number to the display name used by
/// `LevelDisplayName`. Unknown (publisher-defined) levels fall back to the
/// raw number so no information is lost.
pub fn level_name(level: u8) -> (r: String)
    ensures
        r@ == level_text(level),
{
    match level {
        0 => "Information".to_owned(),
        1 => "Critical".to_owned(),
        2 => "Error".to_owned(),
        3 => "Warning".to_owned(),
        4 => "Information".to_owned(),
        5 => "Verbose".to_owned(),
        other => number::dec_u64(other as u64),
    }
}

fn keep_digits(s: &[char]) -> (r: Vec<char>)
    ensures
        r@ == digits_of(s@),
{
    let mut out: Vec<char> = Vec::new();
    let mut i: usize = 0;
    while i < s.len()
        invariant
            i <= s@.len(),
            out@ == digits_of(s@.take(i as int)),
        decreases s@.len() - i,
    {
        assert(s@.take(i + 1).drop_last() =~= s@.take(i as int));
        if number::digit(s[i]) {
            out.push(s[i]);
        }
        i = i + 1;
    }
    assert(s@.take(i as int) =~= s@);
    out
}

/// An event of the Windows Event Log.
#[derive(Debug)]
pub struct WinEvent {
    pub time_created: Option<String>,
    pub id: Option<i64>,
    pub level: Option<String>,
    pub provider: Option<String>,
    pub message: String,
}

impl View for WinEvent {
    type V = WinEventView;

    open spec fn view(&self) -> WinEventView {
        WinEventView {
            time_created: text::opt_text(self.time_created),
            id: self.id,
            level: text::opt_text(self.level),
            provider: text::opt_text(self.provider),
            message: self.message@,
        }
    }
}

/// Build a `WinEvent` from a rendered event XML fragment plus an optional
/// pre-formatted message string.
pub fn parse_event_xml(xml: &str, message: Option<String>) -> (r: WinEvent)
    ensures
        r@ == event_in(xml@, text::opt_text(message)),
{
    let provider = extract_attr(xml, "Provider", "Name");
    let id: Option<i64> = match extract_element(xml, "EventID") {
        Some(s) => {
            let chars = text::chars_of(s.as_str());
            let digits = keep_digits(chars.as_slice());
            number::read_int(digits.as_slice())
        },
        None => None,
    };
    let level = match extract_element(xml, "Level") {
        Some(s) => {
            let chars = text::chars_of(s.as_str());
            match number::read_nat(text::trimmed(chars.as_slice()), 255) {
                Some(n) => Some(level_name(n as u8)),
                None => None,
            }
        },
        None => None,
    };
    let time_created = extract_attr(xml, "TimeCreated", "SystemTime");
    let mut own: Option<String> = None;
    if let Some(m) = message {
        if !text::blank(m.as_str()) {
            own = Some(m);
        }
    }
    let line = match own {
        Some(m) => m,
        None => text::joined(&extract_data_values(xml), " "),
    };
    WinEvent { time_created, id, level, provider, message: line }
}

/// Parse an ISO-8601 timestamp to epoch milliseconds.
pub fn parse_system_time(s: &str) -> (r: Option<i64>)
    ensures
        r == clock::rfc3339_millis(s@),
{
    clock::parse_millis(s)
}

impl WinEvent {
    /// The event as a log entry, given its time in milliseconds if it carries
    /// one; `now` is its time, in nanoseconds, where it does not.
    pub fn into_log_at(
        self,
        channel: &str,
        extra: &Labels,
        time_ms: Option<i64>,
        now: i64,
    ) -> (r: LogEntry)
        requires
            time_in_range(time_ms),
        ensures
            r@ == log_of(self@, channel@, extra@, time_ms, now),
    {
        let mut labels = extra.clone();
        let _ = labels.insert("source".to_owned(), "windows_event_log".to_owned());
        let _ = labels.insert("channel".to_owned(), channel.to_owned());
        if let Some(p) = &self.provider {
            let _ = labels.insert("provider".to_owned(), p.clone());
        }
        if let Some(l) = &self.level {
            let _ = labels.insert("level".to_owned(), l.clone());
        }
        if let Some(id) = self.id {
            let _ = labels.insert("event_id".to_owned(), number::dec_i64(id));
        }
        let timestamp_ns: i64 = match time_ms {
            Some(ms) => ms * 1_000_000,
            None => now,
        };
        LogEntry { labels, line: self.message, timestamp_ns }
    }

    /// The event as a log entry. One that carries no time gets the clock's.
    pub fn into_log(self, channel: &str, extra: &Labels) -> (r: LogEntry)
        requires
            time_in_range(event_ms(self@)),
        ensures
            exists|now: i64|
                r@ == #[trigger] log_of(self@, channel@, extra@, event_ms(self@), now),
    {
        let time_ms: Option<i64> = match &self.time_created {
            Some(t) => parse_system_time(t.as_str()),
            None => None,
        };
        let now: i64 = signal::now_ns();
        self.into_log_at(channel, extra, time_ms, now)
    }

    /// The event as a log entry; none where its time does not fit into 64 bits
    /// of nanoseconds.
    pub fn checked_into_log(self, channel: &str, extra: &Labels) -> (r: Option<LogEntry>)
        ensures
            match r {
                Some(l) => time_in_range(event_ms(self@)) && exists|now: i64|
                    l@ == #[trigger] log_of(self@, channel@, extra@, event_ms(self@), now),
                None => !time_in_range(event_ms(self@)),
            },
    {
        let time_ms: Option<i64> = match &self.time_created {
            Some(t) => parse_system_time(t.as_str()),
            None => None,
        };
        if let Some(ms) = time_ms {
            if ms > 9_223_372_036_854 || ms < -9_223_372_036_854 {
                return None;
            }
        }
        Some(self.into_log(channel, extra))
    }
}

// ---------------------------------------------------------------------------
// What is read from events
// ---------------------------------------------------------------------------

proof fn lemma_no_quote_is_open(s: Seq<char>, i: int)
    requires
        i <= s.len(),
        forall|k: int| 0 <= k < i ==> #[trigger] s[k] != '\'' && s[k] != '"',
    ensures
        open_quote(s, i) is None,
    decreases i,
{
    if i > 0 {
        lemma_no_quote_is_open(s, i - 1);
    }
}

proof fn lemma_the_quote_is_open(s: Seq<char>, at: int, i: int)
    requires
        0 <= at < i <= s.len(),
        open_quote(s, at) is None,
        s[at] == '\'' || s[at] == '"',
        forall|k: int| at < k < i ==> #[trigger] s[k] != s[at],
    ensures
        open_quote(s, i) == Some(s[at]),
    decreases i,
{
    if at + 1 < i {
        lemma_the_quote_is_open(s, at, i - 1);
    }
}

proof fn lemma_close_from_is(s: Seq<char>, from: int, at: int)
    requires
        0 <= from <= at < s.len(),
        s[at] == '>',
        open_quote(s, at) is None,
        forall|k: int| from <= k < at ==> #[trigger] s[k] != '>' || open_quote(s, k) is Some,
    ensures
        close_from(s, from) == Some(at),
    decreases at - from,
{
    if from < at {
        lemma_close_from_is(s, from + 1, at);
    }
}

proof fn lemma_tag_from_is(xml: Seq<char>, open: Seq<char>, from: int, at: int)
    requires
        0 <= from <= at < xml.len(),
        open.len() > 0,
        open[0] == '<',
        tag_at(xml, open, at),
        forall|k: int| from <= k < at ==> #[trigger] xml[k] != '<',
    ensures
        tag_from(xml, open, from) == Some(at),
    decreases at - from,
{
    if from < at {
        if tag_at(xml, open, from) {
            assert(xml.subrange(from, from + open.len())[0] == xml[from]);
        }
        lemma_tag_from_is(xml, open, from + 1, at);
    }
}

proof fn lemma_no_tag(xml: Seq<char>, open: Seq<char>, from: int)
    requires
        0 <= from,
        open.len() > 0,
        open[0] == '<',
        forall|k: int| from <= k < xml.len() ==> #[trigger] xml[k] != '<',
    ensures
        tag_from(xml, open, from) is None,
    decreases xml.len() - from,
{
    if from < xml.len() {
        if tag_at(xml, open, from) {
            assert(xml.subrange(from, from + open.len())[0] == xml[from]);
        }
        lemma_no_tag(xml, open, from + 1);
    }
}

proof fn lemma_attr_from_is(s: Seq<char>, needle: Seq<char>, from: int, at: int)
    requires
        0 <= from <= at < s.len(),
        attr_at(s, needle, at),
        forall|k: int| from <= k < at ==> k == 0 || !text::is_white(#[trigger] s[k - 1]),
    ensures
        attr_from(s, needle, from) == Some(at),
    decreases at - from,
{
    if from < at {
        if attr_at(s, needle, from) {
            assert(from > 0 && text::is_white(s[from - 1]));
        }
        lemma_attr_from_is(s, needle, from + 1, at);
    }
}

/// A name that tags and attributes can have.
pub open spec fn is_name(s: Seq<char>) -> bool {
    &&& s.len() > 0
    &&& forall|i: int|
        0 <= i < s.len() ==> !text::is_white(#[trigger] s[i]) && s[i] != '<' && s[i] != '>' && s[i]
            != '/' && s[i] != '\'' && s[i] != '"'
}

proof fn lemma_attribute_of_a_tag(
    tag: Seq<char>,
    attr: Seq<char>,
    quote: char,
    value: Seq<char>,
    rest: Seq<char>,
)
    requires
        is_name(tag),
        is_name(attr),
        quote == '\'' || quote == '"',
        forall|i: int| 0 <= i < value.len() ==> #[trigger] value[i] != quote,
    ensures
        ({
            let tail = "<"@ + tag + seq![' '] + attr + "="@ + seq![quote] + value + seq![quote]
                + seq!['>'] + rest;
            let end = tag.len() + attr.len() + value.len() + 5;
            let inside = tail.take(end as int);
            &&& close_from(tail, 0) == Some(end as int)
            &&& attr_from(inside, attr + "="@, 0) == Some(tag.len() as int + 2)
            &&& quoted_value(inside.skip(tag.len() as int + 2 + (attr + "="@).len())) == Some(value)
        }),
{
    reveal_strlit("<");
    reveal_strlit("=");
    let t = tag.len() as int;
    let a = attr.len() as int;
    let v = value.len() as int;
    let q = t + a + 3;
    let end = q + v + 2;
    let head = "<"@ + tag + seq![' '] + attr + "="@;
    let tail = "<"@ + tag + seq![' '] + attr + "="@ + seq![quote] + value + seq![quote] + seq!['>']
        + rest;
    lemma_head_of_a_tag(tag, attr);
    assert(tail =~= head + (seq![quote] + value + seq![quote, '>'] + rest));
    assert(head.len() == q);
    assert forall|k: int| 0 <= k < q implies #[trigger] tail[k] == head[k] by {}
    assert(tail[q] == quote);
    assert forall|k: int| q < k < q + v + 1 implies #[trigger] tail[k] == value[k - q - 1] by {}
    assert(tail[q + v + 1] == quote);
    assert(tail[end] == '>');
    assert(close_from(tail, 0) == Some(end)) by {
        lemma_no_quote_is_open(tail, q);
        lemma_the_quote_is_open(tail, q, q + v + 1);
        assert(open_quote(tail, end) is None);
        assert forall|k: int| 0 <= k < end implies #[trigger] tail[k] != '>' || open_quote(
            tail,
            k,
        ) is Some by {
            if q < k < q + v + 1 {
                lemma_the_quote_is_open(tail, q, k);
            }
        }
        lemma_close_from_is(tail, 0, end);
    }
    let needle = attr + "="@;
    let inside = tail.take(end);
    let p = t + 2;
    assert forall|k: int| 0 <= k < q implies #[trigger] inside[k] == head[k] by {
        assert(inside[k] == tail[k]);
    }
    assert(attr_from(inside, needle, 0) == Some(p)) by {
        assert(inside.subrange(p, p + needle.len()) =~= head.subrange(p, p + needle.len()));
        assert(head.subrange(p, p + needle.len()) =~= needle);
        assert(inside[p - 1] == head[p - 1]);
        lemma_no_quote_is_open(inside, p);
        assert(attr_at(inside, needle, p));
        assert forall|k: int| 0 <= k < p implies k == 0 || !text::is_white(
            #[trigger] inside[k - 1],
        ) by {
            if k > 0 {
                assert(inside[k - 1] == head[k - 1]);
            }
        }
        lemma_attr_from_is(inside, needle, 0, p);
    }
    let quoted = inside.skip(p + needle.len());
    assert(quoted =~= seq![quote] + value + seq![quote]);
    assert(quoted.skip(1) =~= value + seq![quote]);
    assert((value + seq![quote])[v] == quote);
    assert forall|k: int| 0 <= k < v implies #[trigger] (value + seq![quote])[k] != quote by {
        assert((value + seq![quote])[k] == value[k]);
    }
    text::lemma_find_char_is(value + seq![quote], quote, v);
    assert((value + seq![quote]).take(v) =~= value);
}

proof fn lemma_head_of_a_tag(tag: Seq<char>, attr: Seq<char>)
    requires
        is_name(tag),
        is_name(attr),
    ensures
        ({
            let head = "<"@ + tag + seq![' '] + attr + "="@;
            &&& head.len() == tag.len() + attr.len() + 3
            &&& forall|k: int|
                0 <= k < head.len() ==> #[trigger] head[k] != '\'' && head[k] != '"' && head[k]
                    != '>'
            &&& head[tag.len() as int + 1] == ' '
            &&& forall|k: int| 0 <= k <= tag.len() ==> !text::is_white(#[trigger] head[k])
        }),
{
    reveal_strlit("<");
    reveal_strlit("=");
    let head = "<"@ + tag + seq![' '] + attr + "="@;
    let t = tag.len() as int;
    let a = attr.len() as int;
    assert(head[0] == '<');
    assert forall|k: int| 1 <= k <= t implies #[trigger] head[k] == tag[k - 1] by {}
    assert(head[t + 1] == ' ');
    assert forall|k: int| t + 2 <= k < t + 2 + a implies #[trigger] head[k] == attr[k - t - 2] by {}
    assert(head[t + 2 + a] == '=');
    assert forall|k: int| 0 <= k < head.len() implies #[trigger] head[k] != '\'' && head[k] != '"'
        && head[k] != '>' by {
        if 1 <= k <= t {
            assert(head[k] == tag[k - 1]);
        } else if t + 2 <= k < t + 2 + a {
            assert(head[k] == attr[k - t - 2]);
        }
    }
    assert forall|k: int| 0 <= k <= t implies !text::is_white(#[trigger] head[k]) by {
        if 1 <= k {
            assert(head[k] == tag[k - 1]);
        }
    }
}

/// The first attribute of the first element with the tag is read, in either kind
/// of quotation marks, up to the mark that closes it.
pub proof fn law_attributes_are_read_between_their_quotes(
    before: Seq<char>,
    tag: Seq<char>,
    attr: Seq<char>,
    quote: char,
    value: Seq<char>,
    rest: Seq<char>,
)
    requires
        is_name(tag),
        is_name(attr),
        quote == '\'' || quote == '"',
        forall|i: int| 0 <= i < before.len() ==> #[trigger] before[i] != '<',
        forall|i: int| 0 <= i < value.len() ==> #[trigger] value[i] != quote,
    ensures
        attr_in(
            before + ("<"@ + tag + seq![' '] + attr + "="@ + seq![quote] + value + seq![quote]
                + seq!['>'] + rest),
            tag,
            attr,
        ) == Some(value),
        attr_in(before, tag, attr) is None,
{
    reveal_strlit("<");
    reveal_strlit("=");
    let open = "<"@ + tag;
    let tail = "<"@ + tag + seq![' '] + attr + "="@ + seq![quote] + value + seq![quote] + seq!['>']
        + rest;
    let xml = before + tail;
    let b = before.len() as int;
    assert(xml.subrange(b, b + open.len()) =~= open);
    assert(xml[b + open.len()] == ' ');
    assert(xml[b] == '<');
    assert(open[0] == '<');
    assert forall|k: int| 0 <= k < b implies #[trigger] xml[k] != '<' by {
        assert(xml[k] == before[k]);
    }
    assert(tag_at(xml, open, b));
    lemma_tag_from_is(xml, open, 0, b);
    assert(xml.skip(b) =~= tail);
    lemma_attribute_of_a_tag(tag, attr, quote, value, rest);
    lemma_no_tag(before, open, 0);
}

/// The content of the first element with the tag is what stands between its
/// start tag and its end tag.
pub proof fn law_elements_are_read_between_their_tags(
    before: Seq<char>,
    tag: Seq<char>,
    content: Seq<char>,
    rest: Seq<char>,
)
    requires
        is_name(tag),
        forall|i: int| 0 <= i < before.len() ==> #[trigger] before[i] != '<',
        forall|i: int| 0 <= i < content.len() ==> #[trigger] content[i] != '<',
    ensures
        element_in(
            before + ("<"@ + tag + ">"@ + (content + ("</"@ + tag + ">"@) + rest)),
            tag,
        ) == Some(content),
        element_in(before, tag) is None,
{
    reveal_strlit("<");
    reveal_strlit(">");
    reveal_strlit("</");
    let open = "<"@ + tag;
    let close = "</"@ + tag + ">"@;
    let behind = content + close + rest;
    let tail = "<"@ + tag + ">"@ + behind;
    let xml = before + tail;
    let b = before.len() as int;
    let t = tag.len() as int;
    assert(xml.subrange(b, b + open.len()) =~= open);
    assert(xml[b + open.len()] == '>');
    assert(xml[b] == '<');
    assert(open[0] == '<');
    assert forall|k: int| 0 <= k < b implies #[trigger] xml[k] != '<' by {
        assert(xml[k] == before[k]);
    }
    assert(tag_at(xml, open, b));
    lemma_tag_from_is(xml, open, 0, b);
    assert(xml.skip(b) =~= tail);
    assert forall|k: int| 0 <= k < t + 1 implies #[trigger] tail[k] != '\'' && tail[k] != '"'
        && tail[k] != '>' by {
        if k == 0 {
            assert(tail[k] == '<');
        } else {
            assert(tail[k] == tag[k - 1]);
        }
    }
    assert(tail[t + 1] == '>');
    lemma_no_quote_is_open(tail, t + 1);
    lemma_close_from_is(tail, 0, t + 1);
    assert(tail[t] == tag[t - 1]);
    assert(tail.skip(t + 2) =~= behind);
    lemma_end_tag_is_found(content, close, rest);
    lemma_no_tag(before, open, 0);
}

proof fn lemma_found_at(hay: Seq<char>, needle: Seq<char>, n: int)
    requires
        needle.len() > 0,
        text::stands_at(hay, needle, n),
        forall|k: int| 0 <= k < n ==> #[trigger] hay[k] != needle[0],
    ensures
        text::find(hay, needle) == Some(n),
{
    text::lemma_find_from(hay, needle, 0);
    let at = text::find(hay, needle)->0;
    if at < n {
        assert(hay.subrange(at, at + needle.len())[0] == hay[at]);
    }
}

proof fn lemma_end_tag_is_found(content: Seq<char>, close: Seq<char>, rest: Seq<char>)
    requires
        close.len() > 0,
        close[0] == '<',
        forall|i: int| 0 <= i < content.len() ==> #[trigger] content[i] != '<',
    ensures
        text::find(content + close + rest, close) == Some(content.len() as int),
        (content + close + rest).take(content.len() as int) == content,
        (content + close + rest).skip(content.len() as int + close.len()) == rest,
{
    let behind = content + close + rest;
    let n = content.len() as int;
    assert(behind.take(n) =~= content);
    assert(behind.skip(n + close.len()) =~= rest);
    assert(text::find(behind, close) == Some(n)) by {
        assert(behind.subrange(n, n + close.len()) =~= close);
        assert forall|k: int| 0 <= k < n implies #[trigger] behind[k] != close[0] by {
            assert(behind[k] == content[k]);
        }
        lemma_found_at(behind, close, n);
    }
}

/// Every data element is read, in order: the first with its text, unless it is
/// blank, and then those that follow. What its start tag says besides its name
/// does not matter.
pub proof fn law_every_data_element_is_read(
    before: Seq<char>,
    attrs: Seq<char>,
    value: Seq<char>,
    rest: Seq<char>,
)
    requires
        forall|i: int| 0 <= i < before.len() ==> #[trigger] before[i] != '<',
        forall|i: int| 0 <= i < value.len() ==> #[trigger] value[i] != '<',
        attrs.len() > 0 ==> text::is_white(attrs[0]) && attrs.last() != '/',
        open_quote(attrs, attrs.len() as int) is None,
        forall|i: int|
            0 <= i < attrs.len() ==> #[trigger] attrs[i] != '>' || open_quote(attrs, i) is Some,
    ensures
        ({
            let xml = before + ("<Data"@ + attrs + ">"@ + (value + "</Data>"@ + rest));
            &&& !text::is_blank(value) ==> data_elements(xml) == seq![value] + data_elements(rest)
            &&& text::is_blank(value) ==> data_elements(xml) == data_elements(rest)
        }),
        data_elements(before).len() == 0,
{
    reveal_strlit("<Data");
    reveal_strlit(">");
    reveal_strlit("</Data>");
    let open = "<Data"@;
    let close = "</Data>"@;
    let behind = value + close + rest;
    let tail = open + attrs + ">"@ + behind;
    let xml = before + tail;
    let b = before.len() as int;
    let n = attrs.len() as int;
    assert(open.len() == 5 && open[0] == '<' && open[1] == 'D' && open[2] == 'a' && open[3] == 't'
        && open[4] == 'a');
    assert(xml.subrange(b, b + 5) =~= open);
    assert(xml[b] == '<');
    if n > 0 {
        assert(xml[b + 5] == attrs[0]);
    } else {
        assert(xml[b + 5] == '>');
    }
    assert forall|k: int| 0 <= k < b implies #[trigger] xml[k] != '<' by {
        assert(xml[k] == before[k]);
    }
    assert(tag_at(xml, open, b));
    lemma_tag_from_is(xml, open, 0, b);
    assert(xml.skip(b) =~= tail);
    let gt = 5 + n;
    assert(tail[gt] == '>');
    assert(tail.take(5) =~= open);
    assert forall|k: int| 0 <= k <= n implies #[trigger] open_quote(tail, 5 + k) == open_quote(
        attrs,
        k,
    ) by {
        lemma_open_quote_behind_the_name(tail, attrs, k);
    }
    assert(open_quote(tail, 5 + n) is None);
    assert forall|k: int| 0 <= k < gt implies #[trigger] tail[k] != '>' || open_quote(
        tail,
        k,
    ) is Some by {
        if k < 5 {
            assert(tail[k] == open[k]);
        } else {
            assert(tail[k] == attrs[k - 5]);
            assert(open_quote(tail, 5 + (k - 5)) == open_quote(attrs, k - 5));
        }
    }
    lemma_close_from_is(tail, 0, gt);
    if n > 0 {
        assert(tail[gt - 1] == attrs[n - 1]);
    } else {
        assert(tail[gt - 1] == open[4]);
    }
    assert(tail.skip(gt + 1) =~= behind);
    assert(close[0] == '<' && close.len() == 7);
    lemma_end_tag_is_found(value, close, rest);
    assert(behind.skip(value.len() as int + 7) == rest);
    assert(data_elements(xml) == (if text::is_blank(value) {
        Seq::empty()
    } else {
        seq![value]
    }) + data_elements(rest));
    assert(Seq::<Seq<char>>::empty() + data_elements(rest) =~= data_elements(rest));
    lemma_no_tag(before, open, 0);
}

proof fn lemma_open_quote_behind_the_name(tail: Seq<char>, attrs: Seq<char>, k: int)
    requires
        0 <= k <= attrs.len(),
        tail.len() >= 5 + attrs.len(),
        tail.take(5) == "<Data"@,
        forall|i: int| 0 <= i < attrs.len() ==> #[trigger] tail[5 + i] == attrs[i],
    ensures
        open_quote(tail, 5 + k) == open_quote(attrs, k),
    decreases k,
{
    reveal_strlit("<Data");
    if k == 0 {
        assert forall|i: int| 0 <= i < 5 implies #[trigger] tail[i] != '\'' && tail[i] != '"' by {
            assert(tail[i] == tail.take(5)[i]);
        }
        lemma_no_quote_is_open(tail, 5);
    } else {
        lemma_open_quote_behind_the_name(tail, attrs, k - 1);
        assert(tail[5 + (k - 1)] == attrs[k - 1]);
    }
}

/// An event's data are those in its `EventData` element, where it has one.
pub proof fn law_data_stand_in_the_event_data(xml: Seq<char>)
    ensures
        element_in(xml, "EventData"@) matches Some(content) ==> data_in(xml) == data_elements(
            content,
        ),
        element_in(xml, "EventData"@) is None ==> data_in(xml) == data_elements(xml),
{
}

/// The digits of a text are kept in order, and nothing else is.
pub proof fn law_digits_are_kept(s: Seq<char>, c: char)
    ensures
        digits_of(Seq::empty()).len() == 0,
        '0' <= c <= '9' ==> digits_of(s.push(c)) == digits_of(s).push(c),
        !('0' <= c <= '9') ==> digits_of(s.push(c)) == digits_of(s),
{
    assert(s.push(c).drop_last() =~= s);
    assert(s.push(c).last() == c);
}

/// The levels have their display names, and a level that has none is its number.
pub proof fn law_levels_have_their_names(level: u8)
    ensures
        level_text(0) == "Information"@,
        level_text(1) == "Critical"@,
        level_text(2) == "Error"@,
        level_text(3) == "Warning"@,
        level_text(4) == "Information"@,
        level_text(5) == "Verbose"@,
        level > 5 ==> level_text(level) == number::dec(level as nat),
{
}

/// An event says what its XML says: its time and its provider by attributes, its
/// id and its level by elements. Without a message of the publisher, its message
/// is its data, with spaces between them.
pub proof fn law_an_event_says_what_its_xml_says(xml: Seq<char>, message: Option<Seq<char>>)
    ensures
        ({
            let e = event_in(xml, message);
            &&& e.time_created == attr_in(xml, "TimeCreated"@, "SystemTime"@)
            &&& e.provider == attr_in(xml, "Provider"@, "Name"@)
            &&& element_in(xml, "EventID"@) is None ==> e.id is None
            &&& element_in(xml, "EventID"@) matches Some(t) ==> match number::parse_int(
                digits_of(t),
            ) {
                Some(n) => e.id == Some(n as i64),
                None => e.id is None,
            }
            &&& element_in(xml, "Level"@) is None ==> e.level is None
            &&& element_in(xml, "Level"@) matches Some(t) ==> match number::parse_nat(
                text::trim(t),
                255,
            ) {
                Some(n) => e.level == Some(level_text(n as u8)),
                None => e.level is None,
            }
            &&& message is None ==> e.message == text::join(data_in(xml), " "@)
        }),
{
}

/// A log entry of an event carries its message as the line, and is labelled with
/// the channel, and with the provider, the level and the id as far as the event
/// says them; the extra labels stay under other names. Its time is its own, or
/// else the clock's.
pub proof fn law_events_are_labelled(
    e: WinEventView,
    channel: Seq<char>,
    extra: Map<Seq<char>, Seq<char>>,
    time_ms: Option<i64>,
    now: i64,
)
    ensures
        ({
            let l = log_of(e, channel, extra, time_ms, now);
            let own = |k: Seq<char>|
                k == "source"@ || k == "channel"@ || (k == "provider"@ && e.provider is Some) || (k
                    == "level"@ && e.level is Some) || (k == "event_id"@ && e.id is Some);
            &&& l.line == e.message
            &&& l.labels.contains_key("source"@) && l.labels["source"@] == "windows_event_log"@
            &&& l.labels.contains_key("channel"@) && l.labels["channel"@] == channel
            &&& e.provider matches Some(p) ==> l.labels.contains_key("provider"@)
                && l.labels["provider"@] == p
            &&& e.level matches Some(v) ==> l.labels.contains_key("level"@) && l.labels["level"@]
                == v
            &&& e.id matches Some(n) ==> l.labels.contains_key("event_id"@)
                && l.labels["event_id"@] == number::dec_int(n as int)
            &&& forall|k: Seq<char>|
                !own(k) ==> (#[trigger] l.labels.contains_key(k) <==> extra.contains_key(k))
            &&& forall|k: Seq<char>|
                !own(k) && extra.contains_key(k) ==> #[trigger] l.labels[k] == extra[k]
            &&& time_ms matches Some(ms) ==> l.timestamp_ns == (ms * 1_000_000) as i64
            &&& time_ms is None ==> l.timestamp_ns == now
        }),
        e.time_created is None ==> event_ms(e) is None,
        e.time_created matches Some(t) ==> event_ms(e) == clock::rfc3339_millis(t),
{
    reveal_strlit("source");
    reveal_strlit("channel");
    reveal_strlit("provider");
    reveal_strlit("level");
    reveal_strlit("event_id");
    assert("provider"@[0] == 'p' && "event_id"@[0] == 'e');
    assert("source"@.len() == 6 && "channel"@.len() == 7 && "provider"@.len() == 8);
    assert("level"@.len() == 5 && "event_id"@.len() == 8);
}

/// An event holds all of its parts, and its time is in range where its nanoseconds
/// fit into 64 bits.
pub proof fn law_events_hold_all_of_their_parts(e: WinEvent, ms: i64)
    ensures
        e.time_created matches Some(t) ==> e@.time_created == Some(t@),
        e.time_created is None ==> e@.time_created is None,
        e@.id == e.id,
        e.level matches Some(t) ==> e@.level == Some(t@),
        e.level is None ==> e@.level is None,
        e.provider matches Some(t) ==> e@.provider == Some(t@),
        e.provider is None ==> e@.provider is None,
        e@.message == e.message@,
        time_in_range(None),
        time_in_range(Some(ms)) <==> i64::MIN <= ms * 1_000_000 <= i64::MAX,
{
}

} // verus!
