//! Kubernetes pod logs, from the files that the kubelet writes.

use vstd::prelude::*;

use crate::clock;
use crate::config::KubernetesPodsConfig;
use crate::path;
use crate::signal;
use crate::signal::LogEntry;
use crate::signal::LogView;
use crate::strmap::Labels;
use crate::text;
use vstd::slice::slice_subrange;

verus! {

/// Collects Kubernetes pod logs in DaemonSet mode by tailing the per-container
/// log files the kubelet writes under `/var/log/containers/`.
///
/// This needs no annotations and no Kubernetes API access: the standard CRI
/// on-disk layout encodes everything we need in the filename:
///   `<pod>_<namespace>_<container>-<container-id>.log`
/// and each line is `<rfc3339> <stream> <P|F> <message>`.
#[derive(Debug)]
pub struct KubernetesPodsSource {
    cfg: KubernetesPodsConfig,
}

// ---------------------------------------------------------------------------
// Model
// ---------------------------------------------------------------------------

/// What a file name says of the pod.
pub struct PodView {
    pub pod: Seq<char>,
    pub namespace: Seq<char>,
    pub container: Seq<char>,
}

/// The container's name: what stands before the last hyphen, if there is one.
pub open spec fn container_of(s: Seq<char>) -> Seq<char> {
    match text::rfind_char(s, '-') {
        Some(i) => s.take(i),
        None => s,
    }
}

/// What the stem of a file name says of the pod: the parts before the first
/// underscore, before the second, and after it, none of which is empty.
pub open spec fn pod_in_stem(stem: Seq<char>) -> Option<PodView> {
    match text::split_once(stem, '_') {
        None => None,
        Some((pod, rest)) => match text::split_once(rest, '_') {
            None => None,
            Some((namespace, last)) => if pod.len() == 0 || namespace.len() == 0 || last.len()
                == 0 {
                None
            } else {
                Some(PodView { pod, namespace, container: container_of(last) })
            },
        },
    }
}

/// What a path says of the pod.
pub open spec fn pod_in_path(p: Seq<char>) -> Option<PodView> {
    match path::file_name_of(p) {
        Some(name) => pod_in_stem(path::stem_of(name)),
        None => None,
    }
}

/// The parts of a text between blanks: the first, and what follows it.
pub open spec fn first_part(s: Seq<char>) -> Seq<char> {
    match text::split_once(s, ' ') {
        Some((a, _)) => a,
        None => s,
    }
}

/// What follows the first blank.
pub open spec fn later_parts(s: Option<Seq<char>>) -> Option<Seq<char>> {
    match s {
        Some(t) => match text::split_once(t, ' ') {
            Some((_, b)) => Some(b),
            None => None,
        },
        None => None,
    }
}

/// The stream of a CRI log line.
pub open spec fn cri_stream(line: Seq<char>) -> Seq<char> {
    match later_parts(Some(line)) {
        Some(rest) => first_part(rest),
        None => "stdout"@,
    }
}

/// The message of a CRI log line: what follows the third blank.
pub open spec fn cri_message(line: Seq<char>) -> Seq<char> {
    match later_parts(later_parts(later_parts(Some(line)))) {
        Some(m) => m,
        None => Seq::empty(),
    }
}

/// A CRI log line as a log entry; `now` is its time where it carries none.
pub open spec fn cri_entry(
    line: Seq<char>,
    pod: PodView,
    extra: Map<Seq<char>, Seq<char>>,
    time_ns: Option<i64>,
    now: i64,
) -> LogView {
    LogView {
        labels: extra.insert("source"@, "kubernetes"@).insert("namespace"@, pod.namespace).insert(
            "pod"@,
            pod.pod,
        ).insert("container"@, pod.container).insert("stream"@, cri_stream(line)),
        line: cri_message(line),
        timestamp_ns: match time_ns {
            Some(ns) => ns,
            None => now,
        },
    }
}

/// The pods of a namespace are collected: all are where none are listed.
pub open spec fn is_wanted(namespaces: Seq<Seq<char>>, namespace: Seq<char>) -> bool {
    namespaces.len() == 0 || namespaces.contains(namespace)
}

// ---------------------------------------------------------------------------
// Laws
// ---------------------------------------------------------------------------

/// The kubelet's layout is read back: of a file named after a pod, a namespace
/// and a container, with no underscore in the first two and no hyphen in the
/// id, the three come out.
pub proof fn law_kubelet_layout_is_read_back(
    pod: Seq<char>,
    namespace: Seq<char>,
    container: Seq<char>,
    id: Seq<char>,
)
    requires
        pod.len() > 0,
        namespace.len() > 0,
        forall|i: int| 0 <= i < pod.len() ==> #[trigger] pod[i] != '_',
        forall|i: int| 0 <= i < namespace.len() ==> #[trigger] namespace[i] != '_',
        forall|i: int| 0 <= i < id.len() ==> #[trigger] id[i] != '-',
    ensures
        pod_in_stem(pod + seq!['_'] + namespace + seq!['_'] + container + seq!['-'] + id) == Some(
            PodView { pod, namespace, container },
        ),
{
    let stem = pod + seq!['_'] + namespace + seq!['_'] + container + seq!['-'] + id;
    let rest = namespace + seq!['_'] + container + seq!['-'] + id;
    let last = container + seq!['-'] + id;
    text::lemma_find_char_is(stem, '_', pod.len() as int);
    assert(stem.take(pod.len() as int) =~= pod);
    assert(stem.skip(pod.len() as int + 1) =~= rest);
    text::lemma_find_char_is(rest, '_', namespace.len() as int);
    assert(rest.take(namespace.len() as int) =~= namespace);
    assert(rest.skip(namespace.len() as int + 1) =~= last);
    text::lemma_rfind_char_is(last, '-', container.len() as int);
    assert(last.take(container.len() as int) =~= container);
}

// ---------------------------------------------------------------------------
// Parsing
// ---------------------------------------------------------------------------

/// What a file name says of the pod.
#[derive(Debug)]
pub struct PodMeta {
    pub pod: String,
    pub namespace: String,
    pub container: String,
}

impl View for PodMeta {
    type V = PodView;

    open spec fn view(&self) -> PodView {
        PodView { pod: self.pod@, namespace: self.namespace@, container: self.container@ }
    }
}

/// Parse `<pod>_<namespace>_<container>-<id>.log` into its components.
pub fn parse_filename(p: &str) -> (r: Option<PodMeta>)
    ensures
        match r {
            Some(m) => pod_in_path(p@) == Some(m@),
            None => pod_in_path(p@) is None,
        },
{
    let chars = text::chars_of(p);
    let name = match path::file_name(chars.as_slice()) {
        Some(n) => n,
        None => {
            return None;
        },
    };
    let stem = path::stem(name);
    let (pod, rest) = match text::split_at_char(stem, '_') {
        Some(parts) => parts,
        None => {
            return None;
        },
    };
    let (namespace, last) = match text::split_at_char(rest, '_') {
        Some(parts) => parts,
        None => {
            return None;
        },
    };
    if pod.len() == 0 || namespace.len() == 0 || last.len() == 0 {
        return None;
    }
    proof {
        text::lemma_rfind_char_before(last@, '-', last@.len() as int);
    }
    let container = match text::rfind_char_at(last, '-') {
        Some(i) => {
            let part = slice_subrange(last, 0, i);
            assert(part@ =~= last@.take(i as int));
            part
        },
        None => last,
    };
    Some(
        PodMeta {
            pod: text::string_of(pod),
            namespace: text::string_of(namespace),
            container: text::string_of(container),
        },
    )
}

/// A CRI log line in its parts.
struct CriLine<'a> {
    time: &'a [char],
    stream: String,
    message: String,
}

fn cut_line<'a>(line: &'a [char]) -> (r: CriLine<'a>)
    ensures
        r.time@ == first_part(line@),
        r.stream@ == cri_stream(line@),
        r.message@ == cri_message(line@),
{
    let (time, after_time) = match text::split_at_char(line, ' ') {
        Some((a, b)) => (a, b),
        None => {
            return CriLine { time: line, stream: "stdout".to_owned(), message: String::new() };
        },
    };
    let (stream, after_stream) = match text::split_at_char(after_time, ' ') {
        Some((a, b)) => (a, b),
        None => {
            return CriLine {
                time,
                stream: text::string_of(after_time),
                message: String::new(),
            };
        },
    };
    let message = match text::split_at_char(after_stream, ' ') {
        Some((_, b)) => text::string_of(b),
        None => String::new(),
    };
    CriLine { time, stream: text::string_of(stream), message }
}

fn entry_of(cut: CriLine<'_>, meta: &PodMeta, extra: &Labels, time_ns: Option<i64>, now: i64) -> (r:
    LogEntry)
    ensures
        r.labels@ == extra@.insert("source"@, "kubernetes"@).insert(
            "namespace"@,
            meta.namespace@,
        ).insert("pod"@, meta.pod@).insert("container"@, meta.container@).insert(
            "stream"@,
            cut.stream@,
        ),
        r.line@ == cut.message@,
        r.timestamp_ns == (match time_ns {
            Some(ns) => ns,
            None => now,
        }),
{
    let mut labels = extra.clone();
    let _ = labels.insert("source".to_owned(), "kubernetes".to_owned());
    let _ = labels.insert("namespace".to_owned(), meta.namespace.clone());
    let _ = labels.insert("pod".to_owned(), meta.pod.clone());
    let _ = labels.insert("container".to_owned(), meta.container.clone());
    let _ = labels.insert("stream".to_owned(), cut.stream);
    let timestamp_ns: i64 = match time_ns {
        Some(ns) => ns,
        None => now,
    };
    LogEntry { labels, line: cut.message, timestamp_ns }
}

/// One CRI log line as a log entry, given its time if it carries one; `now` is
/// its time, in nanoseconds, where it does not.
pub fn parse_cri_line_at(
    line: &str,
    meta: &PodMeta,
    extra: &Labels,
    time_ns: Option<i64>,
    now: i64,
) -> (r: LogEntry)
    ensures
        r@ == cri_entry(line@, meta@, extra@, time_ns, now),
{
    let chars = text::chars_of(line);
    let cut = cut_line(chars.as_slice());
    entry_of(cut, meta, extra, time_ns, now)
}

/// Parse one CRI log line: `<rfc3339> <stream> <P|F> <message>`. A line without
/// a time gets the clock's.
pub fn parse_cri_line(line: &str, meta: &PodMeta, extra: &Labels) -> (r: Option<LogEntry>)
    ensures
        r is Some,
        exists|now: i64|
            r->0@ == #[trigger] cri_entry(
                line@,
                meta@,
                extra@,
                clock::rfc3339_nanos(first_part(line@)),
                now,
            ),
{
    let chars = text::chars_of(line);
    let cut = cut_line(chars.as_slice());
    let time = text::string_of(cut.time);
    let time_ns: Option<i64> = clock::parse_nanos(time.as_str());
    let now: i64 = signal::now_ns();
    let r = entry_of(cut, meta, extra, time_ns, now);
    assert(r@ == cri_entry(line@, meta@, extra@, time_ns, now));
    Some(r)
}

/// The lines that hold a log line, without their line ends; empty ones are
/// passed over.
pub open spec fn log_lines(lines: Seq<Seq<char>>) -> Seq<Seq<char>>
    decreases lines.len(),
{
    if lines.len() == 0 {
        Seq::empty()
    } else {
        let before = log_lines(lines.drop_last());
        let line = text::trim_line_ends(lines.last());
        if line.len() > 0 {
            before.push(line)
        } else {
            before
        }
    }
}

impl KubernetesPodsSource {
    /// The configuration.
    pub closed spec fn cfg(&self) -> KubernetesPodsConfig {
        self.cfg
    }

    pub fn new(cfg: KubernetesPodsConfig) -> (r: Self)
        ensures
            r.cfg() == cfg,
    {
        KubernetesPodsSource { cfg }
    }

    /// The configuration.
    pub fn config(&self) -> (r: &KubernetesPodsConfig)
        ensures
            *r == self.cfg(),
    {
        &self.cfg
    }

    /// Whether the pods of a namespace are collected.
    pub fn wants(&self, namespace: &str) -> (r: bool)
        ensures
            r == is_wanted(text::texts(self.cfg().namespaces@), namespace@),
    {
        let names = &self.cfg.namespaces;
        if names.len() == 0 {
            return true;
        }
        let mut i: usize = 0;
        while i < names.len()
            invariant
                i <= names@.len(),
                names@.len() > 0,
                names == self.cfg.namespaces,
                forall|j: int| 0 <= j < i ==> (#[trigger] text::texts(names@)[j]) != namespace@,
            decreases names@.len() - i,
        {
            assert(text::texts(names@)[i as int] == names@[i as int]@);
            if text::str_eq(names[i].as_str(), namespace) {
                return true;
            }
            i = i + 1;
        }
        false
    }

    /// `e` is the log entry of a log line, read at some time.
    pub open spec fn is_entry(&self, e: LogView, line: Seq<char>, meta: PodView) -> bool {
        exists|now: i64|
            e == #[trigger] cri_entry(
                line,
                meta,
                self.cfg().extra_labels@,
                clock::rfc3339_nanos(first_part(line)),
                now,
            )
    }

    /// The log entries of the new lines of a pod's file, which were read with
    /// their line ends.
    pub fn entries(&self, lines: &Vec<String>, meta: &PodMeta) -> (r: Vec<LogEntry>)
        ensures
            r@.len() == log_lines(text::texts(lines@)).len(),
            forall|i: int|
                0 <= i < r@.len() ==> self.is_entry(
                    (#[trigger] r@[i])@,
                    log_lines(text::texts(lines@))[i],
                    meta@,
                ),
    {
        let ghost all = text::texts(lines@);
        let mut out: Vec<LogEntry> = Vec::new();
        let mut i: usize = 0;
        while i < lines.len()
            invariant
                i <= lines@.len(),
                all == text::texts(lines@),
                out@.len() == log_lines(all.take(i as int)).len(),
                forall|j: int|
                    0 <= j < out@.len() ==> self.is_entry(
                        (#[trigger] out@[j])@,
                        log_lines(all.take(i as int))[j],
                        meta@,
                    ),
            decreases lines@.len() - i,
        {
            assert(all.take(i + 1).drop_last() =~= all.take(i as int));
            assert(all.take(i + 1).last() == lines@[i as int]@);
            if let Some(e) = self.read_line(lines[i].as_str(), meta) {
                out.push(e);
            }
            i = i + 1;
        }
        assert(all.take(i as int) =~= all);
        out
    }

    /// The log entry of a line as it was read, with its line end; none where
    /// the line is empty.
    pub fn read_line(&self, buf: &str, meta: &PodMeta) -> (r: Option<LogEntry>)
        ensures
            r is Some <==> text::trim_line_ends(buf@).len() > 0,
            r matches Some(e) ==> self.is_entry(e@, text::trim_line_ends(buf@), meta@),
    {
        let chars = text::chars_of(buf);
        let trimmed = text::trimmed_line_ends(chars.as_slice());
        if trimmed.len() == 0 {
            return None;
        }
        let line = text::string_of(trimmed);
        let r = parse_cri_line(line.as_str(), meta, &self.cfg.extra_labels);
        proof {
            let time_ns = clock::rfc3339_nanos(first_part(line@));
            let now = choose|now: i64|
                r->0@ == #[trigger] cri_entry(line@, meta@, self.cfg.extra_labels@, time_ns, now);
            assert(r->0@ == cri_entry(
                text::trim_line_ends(buf@),
                meta@,
                self.cfg().extra_labels@,
                time_ns,
                now,
            ));
        }
        r
    }
}

/// Whether a file in the log directory is a log: its extension is `log`.
pub fn is_log(p: &str) -> (r: bool)
    ensures
        r == (path::extension_of(p@) == Some("log"@)),
{
    let chars = text::chars_of(p);
    let log = text::chars_of("log");
    match path::extension(chars.as_slice()) {
        Some(e) => text::same_chars(e, log.as_slice()),
        None => false,
    }
}

/// Where namespaces are listed, each of them is wanted, wherever in the list it
/// stands, and no other is. Where none are listed, every namespace is wanted.
pub proof fn law_every_listed_namespace_is_wanted(
    namespaces: Seq<Seq<char>>,
    namespace: Seq<char>,
)
    ensures
        forall|i: int| 0 <= i < namespaces.len() ==> is_wanted(namespaces, #[trigger] namespaces[i]),
        namespaces.len() == 0 ==> is_wanted(namespaces, namespace),
        namespaces.len() > 0 && (forall|i: int|
            0 <= i < namespaces.len() ==> #[trigger] namespaces[i] != namespace) ==> !is_wanted(
            namespaces,
            namespace,
        ),
{
}

/// A file name with fewer than three parts, or with an empty one, names no pod.
pub proof fn law_incomplete_names_name_no_pod(a: Seq<char>, b: Seq<char>, c: Seq<char>)
    requires
        forall|i: int| 0 <= i < a.len() ==> #[trigger] a[i] != '_',
        forall|i: int| 0 <= i < b.len() ==> #[trigger] b[i] != '_',
    ensures
        pod_in_stem(a) is None,
        pod_in_stem(a + seq!['_'] + b) is None,
        a.len() == 0 || b.len() == 0 || c.len() == 0 ==> pod_in_stem(
            a + seq!['_'] + (b + seq!['_'] + c),
        ) is None,
{
    text::law_split_once_splits_at_the_first(a, '_', b);
    text::law_split_once_splits_at_the_first(a, '_', b + seq!['_'] + c);
    text::law_split_once_splits_at_the_first(b, '_', c);
}

/// The pod of a path is that of the file name in it, without its extension.
pub proof fn law_a_log_file_names_its_pod(
    dir: Seq<char>,
    pod: Seq<char>,
    namespace: Seq<char>,
    container: Seq<char>,
    id: Seq<char>,
)
    requires
        pod.len() > 0,
        namespace.len() > 0,
        forall|i: int| 0 <= i < pod.len() ==> #[trigger] pod[i] != '_' && pod[i] != '/',
        forall|i: int|
            0 <= i < namespace.len() ==> #[trigger] namespace[i] != '_' && namespace[i] != '/',
        forall|i: int| 0 <= i < container.len() ==> #[trigger] container[i] != '/',
        forall|i: int| 0 <= i < id.len() ==> #[trigger] id[i] != '-' && id[i] != '/',
    ensures
        pod_in_path(
            dir + seq!['/'] + (pod + seq!['_'] + namespace + seq!['_'] + container + seq!['-'] + id
                + ".log"@),
        ) == Some(PodView { pod, namespace, container }),
        path::extension_of(
            dir + seq!['/'] + (pod + seq!['_'] + namespace + seq!['_'] + container + seq!['-'] + id
                + ".log"@),
        ) == Some("log"@),
{
    reveal_strlit(".log");
    reveal_strlit("log");
    reveal_strlit(".");
    reveal_strlit("..");
    let stem = pod + seq!['_'] + namespace + seq!['_'] + container + seq!['-'] + id;
    let name = stem + ".log"@;
    assert(".log"@ =~= seq!['.'] + "log"@);
    assert(name =~= stem + seq!['.'] + "log"@);
    assert(name.len() > 4);
    assert forall|i: int| 0 <= i < name.len() implies #[trigger] name[i] != '/' by {
        let p = pod.len() as int;
        let q = p + 1 + namespace.len();
        let r = q + 1 + container.len();
        let t = r + 1 + id.len();
        if i < p {
            assert(name[i] == pod[i]);
        } else if i == p {
            assert(name[i] == '_');
        } else if i < q {
            assert(name[i] == namespace[i - p - 1]);
        } else if i == q {
            assert(name[i] == '_');
        } else if i < r {
            assert(name[i] == container[i - q - 1]);
        } else if i == r {
            assert(name[i] == '-');
        } else if i < t {
            assert(name[i] == id[i - r - 1]);
        } else {
            assert(name[i] == ".log"@[i - t]);
        }
    }
    path::law_file_name_stands_behind_the_last_slash(dir, name);
    path::law_a_name_is_parted_at_its_last_dot(stem, "log"@);
    law_kubelet_layout_is_read_back(pod, namespace, container, id);
}

/// A log line is its time, its stream, a tag and its message, parted by single
/// spaces; the message is taken as it is, with the spaces in it.
pub proof fn law_a_cri_line_is_read_by_its_parts(
    time: Seq<char>,
    stream: Seq<char>,
    tag: Seq<char>,
    message: Seq<char>,
)
    requires
        forall|i: int| 0 <= i < time.len() ==> #[trigger] time[i] != ' ',
        forall|i: int| 0 <= i < stream.len() ==> #[trigger] stream[i] != ' ',
        forall|i: int| 0 <= i < tag.len() ==> #[trigger] tag[i] != ' ',
    ensures
        ({
            let line = time + seq![' '] + (stream + seq![' '] + (tag + seq![' '] + message));
            &&& first_part(line) == time
            &&& cri_stream(line) == stream
            &&& cri_message(line) == message
        }),
        cri_stream(time) == "stdout"@,
        cri_message(time).len() == 0,
        cri_stream(time + seq![' '] + stream) == stream,
        cri_message(time + seq![' '] + stream).len() == 0,
        cri_message(time + seq![' '] + (stream + seq![' '] + tag)).len() == 0,
{
    let third = tag + seq![' '] + message;
    let second = stream + seq![' '] + third;
    text::law_split_once_splits_at_the_first(time, ' ', second);
    text::law_split_once_splits_at_the_first(stream, ' ', third);
    text::law_split_once_splits_at_the_first(tag, ' ', message);
    text::law_split_once_splits_at_the_first(time, ' ', stream);
    text::law_split_once_splits_at_the_first(stream, ' ', tag);
    text::law_split_once_splits_at_the_first(time, ' ', stream + seq![' '] + tag);
}

/// An entry carries the message of its line, and is labelled with the pod, its
/// namespace, the container and the stream; the extra labels stay under other
/// names. Its time is its own, or else the clock's.
pub proof fn law_pod_logs_are_labelled(
    line: Seq<char>,
    pod: PodView,
    extra: Map<Seq<char>, Seq<char>>,
    time_ns: Option<i64>,
    now: i64,
)
    ensures
        ({
            let e = cri_entry(line, pod, extra, time_ns, now);
            &&& e.line == cri_message(line)
            &&& e.labels.contains_key("source"@) && e.labels["source"@] == "kubernetes"@
            &&& e.labels.contains_key("namespace"@) && e.labels["namespace"@] == pod.namespace
            &&& e.labels.contains_key("pod"@) && e.labels["pod"@] == pod.pod
            &&& e.labels.contains_key("container"@) && e.labels["container"@] == pod.container
            &&& e.labels.contains_key("stream"@) && e.labels["stream"@] == cri_stream(line)
            &&& forall|k: Seq<char>|
                k != "source"@ && k != "namespace"@ && k != "pod"@ && k != "container"@ && k
                    != "stream"@ ==> (#[trigger] e.labels.contains_key(k) <==> extra.contains_key(
                    k,
                ))
            &&& forall|k: Seq<char>|
                k != "source"@ && k != "namespace"@ && k != "pod"@ && k != "container"@ && k
                    != "stream"@ && extra.contains_key(k) ==> #[trigger] e.labels[k] == extra[k]
            &&& time_ns matches Some(ns) ==> e.timestamp_ns == ns
            &&& time_ns is None ==> e.timestamp_ns == now
        }),
{
    reveal_strlit("source");
    reveal_strlit("namespace");
    reveal_strlit("pod");
    reveal_strlit("container");
    reveal_strlit("stream");
    assert("source"@[1] == 'o' && "stream"@[1] == 't');
    assert("namespace"@[0] == 'n' && "container"@[0] == 'c');
    assert("pod"@.len() == 3 && "source"@.len() == 6 && "stream"@.len() == 6);
    assert("namespace"@.len() == 9 && "container"@.len() == 9);
}

/// Every line with something in it makes an entry, in order; line ends are no
/// part of it.
pub proof fn law_every_pod_line_is_read(a: Seq<Seq<char>>, b: Seq<Seq<char>>, line: Seq<char>)
    ensures
        log_lines(a + b) == log_lines(a) + log_lines(b),
        text::trim_line_ends(line).len() > 0 ==> log_lines(seq![line]) == seq![
            text::trim_line_ends(line),
        ],
        text::trim_line_ends(line).len() == 0 ==> log_lines(seq![line]).len() == 0,
    decreases b.len(),
{
    if b.len() == 0 {
        assert(a + b =~= a);
        assert(log_lines(a) + log_lines(b) =~= log_lines(a));
    } else {
        assert((a + b).drop_last() =~= a + b.drop_last());
        assert((a + b).last() == b.last());
        law_every_pod_line_is_read(a, b.drop_last(), line);
        assert(log_lines(a + b) =~= log_lines(a) + log_lines(b));
    }
    let one = seq![line];
    assert(one.drop_last() =~= Seq::empty());
    assert(one.last() == line);
    assert(log_lines(one.drop_last()) =~= Seq::empty());
    if text::trim_line_ends(line).len() > 0 {
        assert(log_lines(one) =~= seq![text::trim_line_ends(line)]);
    }
}

/// A container's name goes up to the last hyphen, and is all there is where there
/// is none.
pub proof fn law_a_container_is_named_up_to_its_id(
    meta: PodMeta,
    container: Seq<char>,
    id: Seq<char>,
)
    requires
        forall|i: int| 0 <= i < id.len() ==> #[trigger] id[i] != '-',
    ensures
        container_of(container + seq!['-'] + id) == container,
        container_of(id) == id,
        meta@.pod == meta.pod@,
        meta@.namespace == meta.namespace@,
        meta@.container == meta.container@,
{
    let s = container + seq!['-'] + id;
    let n = container.len() as int;
    assert(s[n] == '-');
    assert forall|j: int| n < j < s.len() implies #[trigger] s[j] != '-' by {
        assert(s[j] == id[j - n - 1]);
    }
    text::lemma_rfind_char_is(s, '-', n);
    assert(s.take(n) =~= container);
    text::lemma_rfind_char_before(id, '-', id.len() as int);
}

/// Every entry that is read of a pod's line is labelled with the pod and carries
/// the line's message; its time is the line's, where it has one.
pub proof fn law_entries_are_those_of_their_lines(
    source: KubernetesPodsSource,
    e: LogView,
    line: Seq<char>,
    meta: PodView,
)
    requires
        source.is_entry(e, line, meta),
    ensures
        e.line == cri_message(line),
        e.labels == source.cfg().extra_labels@.insert("source"@, "kubernetes"@).insert(
            "namespace"@,
            meta.namespace,
        ).insert("pod"@, meta.pod).insert("container"@, meta.container).insert(
            "stream"@,
            cri_stream(line),
        ),
        clock::rfc3339_nanos(first_part(line)) matches Some(ns) ==> e.timestamp_ns == ns,
{
}

} // verus!
