//! The systemd journal, as `journalctl --output=json` prints it.

use vstd::prelude::*;

use crate::config::JournaldConfig;
use crate::json;
use crate::json::Json;
use crate::json::JsonView;
use crate::number;
use crate::signal;
use crate::signal::LogEntry;
use crate::signal::LogView;
use crate::strmap;
use crate::text;

verus! {

/// Tails the systemd journal by spawning `journalctl --follow --output=json`.
///
/// Shelling out to `journalctl` (rather than linking `libsystemd`) keeps the
/// agent a single, statically-linked musl binary that runs on any distro and
/// inside minimal containers, at the cost of requiring `journalctl` on PATH,
/// which is always present where a journal exists.
#[derive(Debug)]
pub struct JournaldSource {
    cfg: JournaldConfig,
}

/// The arguments that follow one unit each.
pub open spec fn unit_args(units: Seq<Seq<char>>) -> Seq<Seq<char>>
    decreases units.len(),
{
    if units.len() == 0 {
        Seq::empty()
    } else {
        unit_args(units.drop_last()).push("--unit"@).push(units.last())
    }
}

impl JournaldSource {
    /// The configuration.
    pub closed spec fn cfg(&self) -> JournaldConfig {
        self.cfg
    }

    pub fn new(cfg: JournaldConfig) -> (r: Self)
        ensures
            r.cfg() == cfg,
    {
        JournaldSource { cfg }
    }

    /// The configuration.
    pub fn config(&self) -> (r: &JournaldConfig)
        ensures
            *r == self.cfg(),
    {
        &self.cfg
    }

    /// The arguments of `journalctl`. `--since=now` skips historical backlog so
    /// that the pipeline is not flooded on startup.
    pub fn args(&self) -> (r: Vec<String>)
        ensures
            text::texts(r@) == seq![
                "--follow"@,
                "--output=json"@,
                "--since=now"@,
                "--no-pager"@,
            ] + unit_args(text::texts(self.cfg().units@)),
    {
        let mut out: Vec<String> = Vec::new();
        out.push("--follow".to_owned());
        out.push("--output=json".to_owned());
        out.push("--since=now".to_owned());
        out.push("--no-pager".to_owned());
        let units = &self.cfg.units;
        let ghost fixed = seq!["--follow"@, "--output=json"@, "--since=now"@, "--no-pager"@];
        let ghost all = text::texts(units@);
        let mut i: usize = 0;
        assert(text::texts(out@) =~= fixed + unit_args(all.take(0)));
        while i < units.len()
            invariant
                i <= units@.len(),
                all == text::texts(units@),
                text::texts(out@) == fixed + unit_args(all.take(i as int)),
            decreases units@.len() - i,
        {
            let ghost next = all.take(i + 1);
            let ghost before = text::texts(out@);
            assert(next.drop_last() =~= all.take(i as int));
            assert(next.last() == units@[i as int]@);
            out.push("--unit".to_owned());
            out.push(units[i].clone());
            assert(text::texts(out@) =~= before.push("--unit"@).push(units@[i as int]@));
            assert(text::texts(out@) =~= fixed + unit_args(next));
            i = i + 1;
        }
        assert(all.take(i as int) =~= all);
        out
    }
}

// ---------------------------------------------------------------------------
// Model
// ---------------------------------------------------------------------------

/// A field as text: that of a string, or that of a number.
pub open spec fn field_text(v: JsonView, key: Seq<char>) -> Option<Seq<char>> {
    match v.field(key) {
        Some(JsonView::Text(t)) => Some(t),
        Some(JsonView::Number(n)) => Some(n.text),
        _ => None,
    }
}

/// A row of numbers as characters, each by its lowest byte; what is no
/// unsigned number is passed over.
pub open spec fn byte_chars(items: Seq<JsonView>) -> Seq<char>
    decreases items.len(),
{
    if items.len() == 0 {
        Seq::empty()
    } else {
        match items.last() {
            JsonView::Number(n) => match n.unsigned {
                Some(b) => byte_chars(items.drop_last()).push((b as u8) as char),
                None => byte_chars(items.drop_last()),
            },
            _ => byte_chars(items.drop_last()),
        }
    }
}

/// The message of a journal entry: a string or, for binary payloads, an array
/// of bytes.
pub open spec fn message_of(v: JsonView) -> Option<Seq<char>> {
    match v.field("MESSAGE"@) {
        Some(JsonView::Text(t)) => Some(t),
        Some(JsonView::Array(items)) => Some(byte_chars(items)),
        _ => None,
    }
}

/// The priority of a journal entry.
pub open spec fn priority_of(v: JsonView) -> Option<u8> {
    match field_text(v, "PRIORITY"@) {
        Some(t) => match number::parse_nat(t, 255) {
            Some(n) => Some(n as u8),
            None => None,
        },
        None => None,
    }
}

/// The time of a journal entry in microseconds since the epoch.
pub open spec fn time_us(v: JsonView) -> Option<int> {
    match field_text(v, "__REALTIME_TIMESTAMP"@) {
        Some(t) => number::parse_int(t),
        None => None,
    }
}

/// The entry is kept: it has a message, and its priority, if it has one, is
/// not above the limit, if there is one.
pub open spec fn is_kept(v: JsonView, max_priority: Option<u8>) -> bool {
    &&& message_of(v) is Some
    &&& max_priority matches Some(max) ==> (priority_of(v) matches Some(p) ==> p <= max)
}

/// The time of a kept entry fits into 64 bits of nanoseconds.
pub open spec fn time_in_range(v: JsonView, max_priority: Option<u8>) -> bool {
    is_kept(v, max_priority) ==> (time_us(v) matches Some(us) ==> i64::MIN <= us * 1000
        <= i64::MAX)
}

/// The level name of a syslog priority.
pub open spec fn level_of(p: u8) -> Seq<char> {
    match p {
        0 => "emerg"@,
        1 => "alert"@,
        2 => "crit"@,
        3 => "error"@,
        4 => "warning"@,
        5 => "notice"@,
        6 => "info"@,
        _ => "debug"@,
    }
}

/// The labels of a journal entry.
pub open spec fn labels_of(
    v: JsonView,
    extra: Map<Seq<char>, Seq<char>>,
) -> Map<Seq<char>, Seq<char>> {
    let a = extra.insert("source"@, "journald"@);
    let b = strmap::with_label(a, "unit"@, field_text(v, "_SYSTEMD_UNIT"@));
    let c = strmap::with_label(b, "identifier"@, field_text(v, "SYSLOG_IDENTIFIER"@));
    let d = strmap::with_label(c, "host"@, field_text(v, "_HOSTNAME"@));
    match priority_of(v) {
        Some(p) => d.insert("priority"@, number::dec(p as nat)).insert("level"@, level_of(p)),
        None => d,
    }
}

/// A journal entry as a log entry, if it is kept; `now` is its time where it
/// carries none.
pub open spec fn entry_of(
    v: JsonView,
    max_priority: Option<u8>,
    extra: Map<Seq<char>, Seq<char>>,
    now: i64,
) -> Option<LogView> {
    if is_kept(v, max_priority) {
        Some(
            LogView {
                labels: labels_of(v, extra),
                line: message_of(v)->0,
                timestamp_ns: match time_us(v) {
                    Some(us) => (us * 1000) as i64,
                    None => now,
                },
            },
        )
    } else {
        None
    }
}

/// What a line of `journalctl` comes to.
pub open spec fn line_entry(line: Seq<char>, cfg: JournaldConfig, now: i64) -> Option<LogView> {
    match json::json_parse(line) {
        Some(v) => entry_of(v, cfg.max_priority, cfg.extra_labels@, now),
        None => None,
    }
}

/// The time of a line's entry fits into 64 bits of nanoseconds.
pub open spec fn line_in_range(line: Seq<char>, cfg: JournaldConfig) -> bool {
    json::json_parse(line) matches Some(v) ==> time_in_range(v, cfg.max_priority)
}

// ---------------------------------------------------------------------------
// Laws
// ---------------------------------------------------------------------------

/// The priority filter drops exactly what is less urgent than its limit.
pub proof fn law_priority_filter(
    v: JsonView,
    max: u8,
    p: u8,
    extra: Map<Seq<char>, Seq<char>>,
    now: i64,
)
    requires
        message_of(v) is Some,
        priority_of(v) == Some(p),
    ensures
        entry_of(v, Some(max), extra, now) is None <==> p > max,
        entry_of(v, None, extra, now) is Some,
{
}

// ---------------------------------------------------------------------------
// Parsing
// ---------------------------------------------------------------------------

/// Map a syslog priority (0-7) to a human-readable level name.
pub fn priority_to_level(p: u8) -> (r: String)
    ensures
        r@ == level_of(p),
{
    match p {
        0 => "emerg".to_owned(),
        1 => "alert".to_owned(),
        2 => "crit".to_owned(),
        3 => "error".to_owned(),
        4 => "warning".to_owned(),
        5 => "notice".to_owned(),
        6 => "info".to_owned(),
        _ => "debug".to_owned(),
    }
}

/// journalctl renders most fields as strings, but numeric fields are sometimes
/// emitted as JSON numbers: both are accepted.
pub fn field_str(v: &Json, key: &str) -> (r: Option<String>)
    ensures
        text::opt_text(r) == field_text(v@, key@),
{
    match v.get(key) {
        Some(Json::Text(t)) => Some(t.clone()),
        Some(Json::Number(n)) => Some(n.text().clone()),
        _ => None,
    }
}

fn read_bytes(items: &Vec<Json>) -> (r: String)
    ensures
        r@ == byte_chars(json::json_views(items@)),
{
    let ghost all = json::json_views(items@);
    let mut out = String::new();
    let mut i: usize = 0;
    while i < items.len()
        invariant
            i <= items@.len(),
            all == json::json_views(items@),
            out@ == byte_chars(all.take(i as int)),
        decreases items@.len() - i,
    {
        assert(all.take(i + 1).drop_last() =~= all.take(i as int));
        assert(all.take(i + 1).last() == items@[i as int]@);
        if let Json::Number(n) = &items[i] {
            if let Some(b) = n.as_u64() {
                out.push((b as u8) as char);
            }
        }
        i = i + 1;
    }
    assert(all.take(i as int) =~= all);
    out
}

fn read_message(v: &Json) -> (r: Option<String>)
    ensures
        text::opt_text(r) == message_of(v@),
{
    match v.get("MESSAGE") {
        Some(m) => {
            if let Some(t) = m.as_str() {
                return Some(t.clone());
            }
            if let Some(items) = m.as_array() {
                return Some(read_bytes(items));
            }
            None
        },
        None => None,
    }
}

fn read_priority(v: &Json) -> (r: Option<u8>)
    ensures
        r == priority_of(v@),
{
    match field_str(v, "PRIORITY") {
        Some(t) => {
            let chars = text::chars_of(t.as_str());
            match number::read_nat(chars.as_slice(), 255) {
                Some(n) => Some(n as u8),
                None => None,
            }
        },
        None => None,
    }
}

fn read_time(v: &Json) -> (r: Option<i64>)
    ensures
        match r {
            Some(us) => time_us(v@) == Some(us as int),
            None => time_us(v@) is None,
        },
{
    match field_str(v, "__REALTIME_TIMESTAMP") {
        Some(t) => {
            let chars = text::chars_of(t.as_str());
            number::read_int(chars.as_slice())
        },
        None => None,
    }
}

/// Whether the time of an entry, if it is kept, fits into 64 bits of
/// nanoseconds.
pub fn journal_time_fits(v: &Json, cfg: &JournaldConfig) -> (r: bool)
    ensures
        r == time_in_range(v@, cfg.max_priority),
{
    if read_message(v).is_none() {
        return true;
    }
    if let Some(max) = cfg.max_priority {
        if let Some(p) = read_priority(v) {
            if p > max {
                return true;
            }
        }
    }
    match read_time(v) {
        Some(us) => us <= 9_223_372_036_854_775 && us >= -9_223_372_036_854_775,
        None => true,
    }
}

/// A journal entry as a log entry, if it is kept; `now` is its time, in
/// nanoseconds, where it carries none.
pub fn journal_entry(v: &Json, cfg: &JournaldConfig, now: i64) -> (r: Option<LogEntry>)
    requires
        time_in_range(v@, cfg.max_priority),
    ensures
        match r {
            Some(e) => entry_of(v@, cfg.max_priority, cfg.extra_labels@, now) == Some(e@),
            None => entry_of(v@, cfg.max_priority, cfg.extra_labels@, now) is None,
        },
{
    let message = match read_message(v) {
        Some(m) => m,
        None => {
            return None;
        },
    };
    let priority: Option<u8> = read_priority(v);
    if let Some(max) = cfg.max_priority {
        if let Some(p) = priority {
            if p > max {
                return None;
            }
        }
    }
    let timestamp_ns: i64 = match read_time(v) {
        Some(us) => us * 1000,
        None => now,
    };
    let mut labels = cfg.extra_labels.clone();
    let _ = labels.insert("source".to_owned(), "journald".to_owned());
    if let Some(unit) = field_str(v, "_SYSTEMD_UNIT") {
        let _ = labels.insert("unit".to_owned(), unit);
    }
    if let Some(ident) = field_str(v, "SYSLOG_IDENTIFIER") {
        let _ = labels.insert("identifier".to_owned(), ident);
    }
    if let Some(host) = field_str(v, "_HOSTNAME") {
        let _ = labels.insert("host".to_owned(), host);
    }
    if let Some(p) = priority {
        let _ = labels.insert("priority".to_owned(), number::dec_u64(p as u64));
        let _ = labels.insert("level".to_owned(), priority_to_level(p));
    }
    Some(LogEntry { labels, line: message, timestamp_ns })
}

/// Parse one line of `journalctl --output=json` into a `LogEntry`.
///
/// Returns `None` when the line is unparseable or filtered out by priority. An
/// entry that carries no time gets the clock's.
pub fn parse_journal_json(line: &str, cfg: &JournaldConfig) -> (r: Option<LogEntry>)
    requires
        line_in_range(line@, *cfg),
    ensures
        exists|now: i64|
            (match r {
                Some(e) => Some(e@),
                None => None,
            }) == #[trigger] line_entry(line@, *cfg, now),
{
    let now: i64 = signal::now_ns();
    let r = match json::parse(line) {
        Some(v) => journal_entry(&v, cfg, now),
        None => None,
    };
    assert(line_entry(line@, *cfg, now) == (match r {
        Some(e) => Some(e@),
        None => None,
    }));
    r
}

/// A line of `journalctl` whose time does not fit into 64 bits of nanoseconds.
#[derive(Debug, Clone, Copy, PartialEq, Eq, Structural)]
pub struct TimeOutOfRange;

/// Parse one line of `journalctl --output=json`, whatever its time.
pub fn checked_parse_journal_json(line: &str, cfg: &JournaldConfig) -> (r: Result<
    Option<LogEntry>,
    TimeOutOfRange,
>)
    ensures
        match r {
            Ok(o) => line_in_range(line@, *cfg) && exists|now: i64|
                (match o {
                    Some(e) => Some(e@),
                    None => None,
                }) == #[trigger] line_entry(line@, *cfg, now),
            Err(_) => !line_in_range(line@, *cfg),
        },
{
    if let Some(v) = json::parse(line) {
        if !journal_time_fits(&v, cfg) {
            return Err(TimeOutOfRange);
        }
    }
    Ok(parse_journal_json(line, cfg))
}

/// Every unit that is configured is asked for, each by its own argument and in
/// order.
pub proof fn law_every_unit_is_asked_for(a: Seq<Seq<char>>, b: Seq<Seq<char>>, unit: Seq<char>)
    ensures
        unit_args(a + b) == unit_args(a) + unit_args(b),
        unit_args(seq![unit]) == seq!["--unit"@, unit],
        unit_args(Seq::empty()).len() == 0,
    decreases b.len(),
{
    if b.len() == 0 {
        assert(a + b =~= a);
        assert(unit_args(a) + unit_args(b) =~= unit_args(a));
    } else {
        assert((a + b).drop_last() =~= a + b.drop_last());
        assert((a + b).last() == b.last());
        law_every_unit_is_asked_for(a, b.drop_last(), unit);
        assert(unit_args(a + b) =~= unit_args(a) + unit_args(b));
    }
    let one = seq![unit];
    assert(one.drop_last() =~= Seq::empty());
    assert(one.last() == unit);
    assert(unit_args(one.drop_last()) =~= Seq::empty());
    assert(unit_args(one) =~= seq!["--unit"@, unit]);
}

/// A field is read whether it is a text or a number; the message may also be an
/// array of bytes, each of which is a character.
pub proof fn law_fields_are_read_as_text(v: JsonView, key: Seq<char>, items: Seq<JsonView>)
    ensures
        v.field(key) matches Some(JsonView::Text(t)) ==> field_text(v, key) == Some(t),
        v.field(key) matches Some(JsonView::Number(n)) ==> field_text(v, key) == Some(n.text),
        v.field(key) is None ==> field_text(v, key) is None,
        v.field("MESSAGE"@) matches Some(JsonView::Text(t)) ==> message_of(v) == Some(t),
        v.field("MESSAGE"@) matches Some(JsonView::Array(bytes)) ==> message_of(v) == Some(
            byte_chars(bytes),
        ),
        v.field("MESSAGE"@) is None ==> message_of(v) is None,
        byte_chars(Seq::empty()).len() == 0,
        forall|item: JsonView| #[trigger]
            byte_chars(items.push(item)) == (match item {
                JsonView::Number(n) => match n.unsigned {
                    Some(b) => byte_chars(items).push((b as u8) as char),
                    None => byte_chars(items),
                },
                _ => byte_chars(items),
            }),
{
    assert forall|item: JsonView| #[trigger]
        byte_chars(items.push(item)) == (match item {
            JsonView::Number(n) => match n.unsigned {
                Some(b) => byte_chars(items).push((b as u8) as char),
                None => byte_chars(items),
            },
            _ => byte_chars(items),
        }) by {
        assert(items.push(item).drop_last() =~= items);
        assert(items.push(item).last() == item);
    }
}

/// An entry with a message is kept unless its priority is above the limit; an
/// entry without a priority always is, and so is every entry where there is no
/// limit. One without a message is not.
pub proof fn law_entries_with_a_message_are_kept(
    v: JsonView,
    max_priority: Option<u8>,
    extra: Map<Seq<char>, Seq<char>>,
    now: i64,
)
    ensures
        message_of(v) is None ==> entry_of(v, max_priority, extra, now) is None,
        message_of(v) is Some && (max_priority is None || priority_of(v) is None) ==> entry_of(
            v,
            max_priority,
            extra,
            now,
        ) is Some,
        message_of(v) is Some && max_priority is Some && priority_of(v) is Some ==> (entry_of(
            v,
            max_priority,
            extra,
            now,
        ) is Some <==> priority_of(v)->0 <= max_priority->0),
        entry_of(v, max_priority, extra, now) matches Some(e) ==> {
            &&& e.line == message_of(v)->0
            &&& e.labels == labels_of(v, extra)
            &&& time_us(v) is None ==> e.timestamp_ns == now
            &&& time_us(v) matches Some(us) ==> e.timestamp_ns == (us * 1000) as i64
        },
        field_text(v, "PRIORITY"@) is None ==> priority_of(v) is None,
        field_text(v, "PRIORITY"@) matches Some(t) ==> match number::parse_nat(t, 255) {
            Some(n) => priority_of(v) == Some(n as u8),
            None => priority_of(v) is None,
        },
        field_text(v, "__REALTIME_TIMESTAMP"@) is None ==> time_us(v) is None,
        field_text(v, "__REALTIME_TIMESTAMP"@) matches Some(t) ==> time_us(v) == number::parse_int(
            t,
        ),
{
}

/// What a line of `journalctl` comes to is what its document does; one that is
/// no JSON comes to nothing.
pub proof fn law_a_line_is_its_document(line: Seq<char>, cfg: JournaldConfig, now: i64)
    ensures
        json::json_parse(line) is None ==> line_entry(line, cfg, now) is None,
        json::json_parse(line) matches Some(v) ==> line_entry(line, cfg, now) == entry_of(
            v,
            cfg.max_priority,
            cfg.extra_labels@,
            now,
        ),
{
}

/// An entry is labelled with its unit, its identifier, its host, its priority and
/// the level that stands for it, as far as it says them; the extra labels stay
/// under other names.
pub proof fn law_journal_entries_are_labelled(v: JsonView, extra: Map<Seq<char>, Seq<char>>)
    ensures
        ({
            let labels = labels_of(v, extra);
            let own = |k: Seq<char>|
                k == "source"@ || (k == "unit"@ && field_text(v, "_SYSTEMD_UNIT"@) is Some) || (k
                    == "identifier"@ && field_text(v, "SYSLOG_IDENTIFIER"@) is Some) || (k
                    == "host"@ && field_text(v, "_HOSTNAME"@) is Some) || ((k == "priority"@ || k
                    == "level"@) && priority_of(v) is Some);
            &&& labels.contains_key("source"@) && labels["source"@] == "journald"@
            &&& field_text(v, "_SYSTEMD_UNIT"@) matches Some(t) ==> labels.contains_key("unit"@)
                && labels["unit"@] == t
            &&& field_text(v, "SYSLOG_IDENTIFIER"@) matches Some(t) ==> labels.contains_key(
                "identifier"@,
            ) && labels["identifier"@] == t
            &&& field_text(v, "_HOSTNAME"@) matches Some(t) ==> labels.contains_key("host"@)
                && labels["host"@] == t
            &&& priority_of(v) matches Some(p) ==> labels.contains_key("priority"@)
                && labels["priority"@] == number::dec(p as nat) && labels.contains_key("level"@)
                && labels["level"@] == level_of(p)
            &&& forall|k: Seq<char>|
                !own(k) ==> (#[trigger] labels.contains_key(k) <==> extra.contains_key(k))
            &&& forall|k: Seq<char>|
                !own(k) && extra.contains_key(k) ==> #[trigger] labels[k] == extra[k]
        }),
{
    reveal_strlit("source");
    reveal_strlit("unit");
    reveal_strlit("identifier");
    reveal_strlit("host");
    reveal_strlit("priority");
    reveal_strlit("level");
    assert("unit"@[0] == 'u' && "host"@[0] == 'h');
    assert("source"@.len() == 6 && "unit"@.len() == 4 && "identifier"@.len() == 10);
    assert("host"@.len() == 4 && "priority"@.len() == 8 && "level"@.len() == 5);
}

/// The priorities of syslog have their names; what is above them counts as
/// debug.
pub proof fn law_priorities_have_their_names(p: u8)
    ensures
        level_of(0) == "emerg"@,
        level_of(1) == "alert"@,
        level_of(2) == "crit"@,
        level_of(3) == "error"@,
        level_of(4) == "warning"@,
        level_of(5) == "notice"@,
        level_of(6) == "info"@,
        p >= 7 ==> level_of(p) == "debug"@,
{
}

/// A time is in range unless the entry is kept and its nanoseconds do not fit into
/// 64 bits.
pub proof fn law_times_are_in_range_where_they_fit(
    v: JsonView,
    max_priority: Option<u8>,
    line: Seq<char>,
    cfg: JournaldConfig,
)
    ensures
        time_us(v) is None ==> time_in_range(v, max_priority),
        message_of(v) is None ==> time_in_range(v, max_priority),
        message_of(v) is Some && max_priority is None && time_us(v) is Some ==> (time_in_range(
            v,
            max_priority,
        ) <==> i64::MIN <= time_us(v)->0 * 1000 <= i64::MAX),
        json::json_parse(line) is None ==> line_in_range(line, cfg),
        json::json_parse(line) matches Some(doc) ==> line_in_range(line, cfg) == time_in_range(
            doc,
            cfg.max_priority,
        ),
{
}

} // verus!
