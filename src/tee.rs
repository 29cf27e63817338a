//! The line copier: every input line goes to the console and to each file
//! destination, in that order.
//!
//! The library decides, the caller performs: arguments become an
//! [`InvocationConfig`], whose [`OpenMode`] says how each destination is
//! opened; then a [`Copier`] takes each thing that happened (a line was read,
//! the input ended, a write failed...) and answers with the next [`Action`].

use vstd::prelude::*;
use crate::text::{chars_of, same_chars, string_of};

verus! {

/// One destination of the copy: the console, or the file at an index of
/// the destination paths.
#[derive(PartialEq, Eq, Structural, Clone, Copy, Debug)]
pub enum Sink {
    Console,
    File(usize),
}

/// What an invocation asks for.
pub struct InvocationConfig {
    pub append: bool,
    pub destination_paths: Vec<String>,
}

/// The short append flag.
pub open spec fn dash_a() -> Seq<char> {
    seq!['-', 'a']
}

/// The long append flag.
pub open spec fn dash_dash_append() -> Seq<char> {
    seq!['-', '-', 'a', 'p', 'p', 'e', 'n', 'd']
}

/// The argument asks for append mode.
pub open spec fn is_flag(a: Seq<char>) -> bool {
    a == dash_a() || a == dash_dash_append()
}

/// The characters of each string.
pub open spec fn string_views(v: Seq<String>) -> Seq<Seq<char>> {
    v.map_values(|s: String| s@)
}

/// Some argument asks for append mode.
pub open spec fn has_flag(args: Seq<Seq<char>>) -> bool {
    exists|i: int| 0 <= i < args.len() && is_flag(#[trigger] args[i])
}

/// The arguments that are not flags, in order.
pub open spec fn paths_of(args: Seq<Seq<char>>) -> Seq<Seq<char>>
    decreases args.len(),
{
    if args.len() == 0 {
        seq![]
    } else if is_flag(args.last()) {
        paths_of(args.drop_last())
    } else {
        paths_of(args.drop_last()).push(args.last())
    }
}

/// Whether an argument is `-a` or `--append`.
pub fn is_append_flag(arg: &str) -> (r: bool)
    ensures
        r == is_flag(arg@),
{
    let v = chars_of(arg);
    let short = vec!['-', 'a'];
    let long = vec!['-', '-', 'a', 'p', 'p', 'e', 'n', 'd'];
    assert(short@ =~= dash_a());
    assert(long@ =~= dash_dash_append());
    same_chars(&v, &short) || same_chars(&v, &long)
}

/// Reads the arguments (without the program name): the flag may stand
/// anywhere, any number of times; every other argument is a path.
pub fn parse_args(args: &Vec<String>) -> (r: InvocationConfig)
    ensures
        r.append == has_flag(string_views(args@)),
        string_views(r.destination_paths@) == paths_of(string_views(args@)),
{
    let ghost a = string_views(args@);
    let mut append = false;
    let mut paths: Vec<String> = Vec::new();
    let mut i: usize = 0;
    assert(a.take(0) =~= seq![]);
    assert(string_views(paths@) =~= seq![]);
    while i < args.len()
        invariant
            i <= args@.len(),
            a == string_views(args@),
            append == has_flag(a.take(i as int)),
            string_views(paths@) == paths_of(a.take(i as int)),
        decreases args@.len() - i,
    {
        let ghost before = string_views(paths@);
        assert(a.take(i + 1).drop_last() =~= a.take(i as int));
        assert(a.take(i + 1).last() == args@[i as int]@);
        if is_append_flag(args[i].as_str()) {
            append = true;
            assert(a.take(i + 1)[i as int] == a[i as int]);
        } else {
            paths.push(args[i].clone());
            assert(string_views(paths@) =~= before.push(args@[i as int]@));
            assert(has_flag(a.take(i + 1)) ==> has_flag(a.take(i as int))) by {
                if has_flag(a.take(i + 1)) {
                    let j = choose|j: int| 0 <= j < i + 1 && is_flag(#[trigger] a.take(i + 1)[j]);
                    assert(a.take(i as int)[j] == a.take(i + 1)[j]);
                }
            }
        }
        assert(has_flag(a.take(i as int)) ==> has_flag(a.take(i + 1))) by {
            if has_flag(a.take(i as int)) {
                let j = choose|j: int| 0 <= j < i && is_flag(#[trigger] a.take(i as int)[j]);
                assert(a.take(i as int)[j] == a.take(i + 1)[j]);
            }
        }
        i = i + 1;
    }
    assert(a.take(i as int) =~= a);
    InvocationConfig { append, destination_paths: paths }
}

/// How each file destination is opened.
#[derive(PartialEq, Eq, Structural, Clone, Copy, Debug)]
pub struct OpenMode {
    pub create: bool,
    pub write: bool,
    pub append: bool,
    pub truncate: bool,
}

/// What a destination holds after a run that wrote `written` to it.
pub open spec fn file_after(existing: Seq<char>, append: bool, written: Seq<char>) -> Seq<char> {
    if append {
        existing + written
    } else {
        written
    }
}

impl InvocationConfig {
    /// Files are created when missing and written; in append mode the new
    /// lines follow the old content, otherwise the old content is discarded.
    pub fn open_mode(&self) -> (r: OpenMode)
        ensures
            r.create && r.write,
            r.append == self.append,
            r.truncate == !self.append,
    {
        OpenMode { create: true, write: true, append: self.append, truncate: !self.append }
    }
}

impl OpenMode {
    /// The content of a destination that held `existing` once `written` has
    /// been written to it under this mode.
    pub fn content_after(&self, existing: &str, written: &str) -> (r: String)
        requires
            self.append != self.truncate,
        ensures
            r@ == file_after(existing@, self.append, written@),
    {
        if self.append {
            let mut v = chars_of(existing);
            let w = chars_of(written);
            let mut i: usize = 0;
            let ghost e = v@;
            while i < w.len()
                invariant
                    i <= w@.len(),
                    v@ == e + w@.take(i as int),
                decreases w@.len() - i,
            {
                v.push(w[i]);
                i = i + 1;
                assert(v@ =~= e + w@.take(i as int));
            }
            assert(w@.take(i as int) =~= w@);
            string_of(&v)
        } else {
            string_of(&chars_of(written))
        }
    }
}

/// The raw lines of `s`, `cur` holding the line under way: each raw line
/// runs up to and including a `'\n'`; a last one without it runs to the end.
pub open spec fn raw_scan(s: Seq<char>, cur: Seq<char>) -> Seq<Seq<char>>
    decreases s.len(),
{
    if s.len() == 0 {
        if cur.len() == 0 {
            seq![]
        } else {
            seq![cur]
        }
    } else if s[0] == '\n' {
        seq![cur.push('\n')] + raw_scan(s.drop_first(), seq![])
    } else {
        raw_scan(s.drop_first(), cur.push(s[0]))
    }
}

/// The raw lines of an input, each with its `'\n'` where it has one.
pub open spec fn raw_lines(s: Seq<char>) -> Seq<Seq<char>> {
    raw_scan(s, seq![])
}

/// What a raw line holds: everything but its final `'\n'`.
pub open spec fn line_content(raw: Seq<char>) -> Seq<char> {
    if raw.len() > 0 && raw.last() == '\n' {
        raw.drop_last()
    } else {
        raw
    }
}

/// The lines of an input.
pub open spec fn lines_of(s: Seq<char>) -> Seq<Seq<char>> {
    raw_lines(s).map_values(|r: Seq<char>| line_content(r))
}

/// Each line followed by a `'\n'`.
pub open spec fn rendered(ls: Seq<Seq<char>>) -> Seq<char>
    decreases ls.len(),
{
    if ls.len() == 0 {
        seq![]
    } else {
        ls[0].push('\n') + rendered(ls.drop_first())
    }
}

/// What every destination receives for an input.
pub open spec fn tee_output(s: Seq<char>) -> Seq<char> {
    rendered(lines_of(s))
}

/// The console first, then each file in the order of its path.
pub open spec fn sink_order(n: nat) -> Seq<Sink> {
    seq![Sink::Console] + Seq::new(n, |i: int| Sink::File(i as usize))
}

/// The sinks in write and flush order: the console, then each file.
pub fn sinks_in_order(n_files: usize) -> (r: Vec<Sink>)
    ensures
        r@ == sink_order(n_files as nat),
{
    let mut r: Vec<Sink> = Vec::new();
    r.push(Sink::Console);
    let mut i: usize = 0;
    while i < n_files
        invariant
            i <= n_files,
            r@ == sink_order(i as nat),
        decreases n_files - i,
    {
        r.push(Sink::File(i));
        i = i + 1;
        assert(r@ =~= sink_order(i as nat));
    }
    r
}

/// The content of a raw line, as a string.
pub fn content_of_line(raw: &str) -> (r: String)
    ensures
        r@ == line_content(raw@),
{
    let mut v = chars_of(raw);
    let ghost full = v@;
    if v.len() > 0 && v[v.len() - 1] == '\n' {
        v.pop();
        assert(v@ =~= full.drop_last());
    }
    string_of(&v)
}

/// The failures that end an invocation.
#[derive(PartialEq, Eq, Structural, Clone, Copy, Debug)]
pub enum TeeError {
    /// The destination at this index of the paths could not be opened.
    DestinationOpen(usize),
    /// The input could not be read or decoded.
    InputRead,
    /// A write to, or a flush of, this sink failed.
    SinkWrite(Sink),
}

/// Whether setting up may go on, given which destinations opened so far
/// (in the order of their paths): it stops at the first one that did not
/// open, before any input is read.
pub fn setup_failure(opened: &Vec<bool>) -> (r: Option<TeeError>)
    ensures
        match r {
            None => forall|j: int| 0 <= j < opened@.len() ==> opened@[j],
            Some(e) => match e {
                TeeError::DestinationOpen(i) => i < opened@.len() && !opened@[i as int] && forall|
                    j: int,
                | 0 <= j < i ==> opened@[j],
                _ => false,
            },
        },
{
    let mut i: usize = 0;
    while i < opened.len()
        invariant
            i <= opened@.len(),
            forall|j: int| 0 <= j < i ==> opened@[j],
        decreases opened@.len() - i,
    {
        if !opened[i] {
            return Some(TeeError::DestinationOpen(i));
        }
        i = i + 1;
    }
    None
}

/// Where the copy stands.
#[derive(PartialEq, Eq, Structural, Clone, Copy, Debug)]
pub enum Phase {
    Reading,
    Draining,
    Done,
    Failed,
}

/// What happened since the last action.
pub enum Event {
    /// A raw line was read (with its `'\n'`, if it had one).
    Line(String),
    /// The input is exhausted.
    InputEnd,
    /// Reading the input failed.
    InputFailed,
    /// A write to this sink failed.
    WriteFailed(Sink),
    /// Every sink was flushed.
    Flushed,
    /// Flushing this sink failed.
    FlushFailed(Sink),
}

/// What to do next.
pub enum Action {
    /// Write `text` to each sink in order, stopping at the first failure;
    /// then read the next line.
    Write { sinks: Vec<Sink>, text: String },
    /// Flush each sink in order, stopping at the first failure.
    Flush { sinks: Vec<Sink> },
    /// Close the files and report success.
    Finish,
    /// Close the files that are open, best effort, and report this error.
    Abort(TeeError),
}

/// The content of an [`Event`].
pub ghost enum EventModel {
    Line(Seq<char>),
    InputEnd,
    InputFailed,
    WriteFailed(Sink),
    Flushed,
    FlushFailed(Sink),
}

/// The content of an [`Action`].
pub ghost enum ActionModel {
    Write(Seq<Sink>, Seq<char>),
    Flush(Seq<Sink>),
    Finish,
    Abort(TeeError),
}

impl View for Event {
    type V = EventModel;

    open spec fn view(&self) -> EventModel {
        match self {
            Event::Line(s) => EventModel::Line(s@),
            Event::InputEnd => EventModel::InputEnd,
            Event::InputFailed => EventModel::InputFailed,
            Event::WriteFailed(k) => EventModel::WriteFailed(*k),
            Event::Flushed => EventModel::Flushed,
            Event::FlushFailed(k) => EventModel::FlushFailed(*k),
        }
    }
}

impl View for Action {
    type V = ActionModel;

    open spec fn view(&self) -> ActionModel {
        match self {
            Action::Write { sinks, text } => ActionModel::Write(sinks@, text@),
            Action::Flush { sinks } => ActionModel::Flush(sinks@),
            Action::Finish => ActionModel::Finish,
            Action::Abort(e) => ActionModel::Abort(*e),
        }
    }
}

/// The events that a phase expects: lines, the end of the input and
/// failures while reading; flush outcomes while draining; none after.
pub open spec fn accepts(phase: Phase, e: EventModel) -> bool {
    match phase {
        Phase::Reading => e is Line || e is InputEnd || e is InputFailed || e is WriteFailed,
        Phase::Draining => e is Flushed || e is FlushFailed,
        _ => false,
    }
}

/// The next phase and action, for an event that the phase accepts.
pub open spec fn transition(phase: Phase, n: nat, e: EventModel) -> (Phase, ActionModel) {
    match e {
        EventModel::Line(raw) => (
            Phase::Reading,
            ActionModel::Write(sink_order(n), line_content(raw).push('\n')),
        ),
        EventModel::InputEnd => (Phase::Draining, ActionModel::Flush(sink_order(n))),
        EventModel::InputFailed => (Phase::Failed, ActionModel::Abort(TeeError::InputRead)),
        EventModel::WriteFailed(k) => (Phase::Failed, ActionModel::Abort(TeeError::SinkWrite(k))),
        EventModel::Flushed => (Phase::Done, ActionModel::Finish),
        EventModel::FlushFailed(k) => (Phase::Failed, ActionModel::Abort(TeeError::SinkWrite(k))),
    }
}

/// The copier's decisions, one event at a time.
pub struct Copier {
    pub n_files: usize,
    pub phase: Phase,
}

impl Copier {
    /// A copier for the console and `n_files` files, about to read.
    pub fn new(n_files: usize) -> (r: Copier)
        ensures
            r.n_files == n_files,
            r.phase == Phase::Reading,
    {
        Copier { n_files, phase: Phase::Reading }
    }

    /// Takes what happened and says what to do next: each line goes, with a
    /// `'\n'`, to the console and then to every file; the end of the input
    /// leads to flushing the same sinks; any failure ends the copy with its
    /// error.
    pub fn step(&mut self, ev: Event) -> (r: Action)
        requires
            accepts(old(self).phase, ev@),
        ensures
            final(self).n_files == old(self).n_files,
            (final(self).phase, r@) == transition(old(self).phase, old(self).n_files as nat, ev@),
    {
        match ev {
            Event::Line(raw) => {
                let mut v = chars_of(content_of_line(raw.as_str()).as_str());
                v.push('\n');
                self.phase = Phase::Reading;
                Action::Write { sinks: sinks_in_order(self.n_files), text: string_of(&v) }
            },
            Event::InputEnd => {
                self.phase = Phase::Draining;
                Action::Flush { sinks: sinks_in_order(self.n_files) }
            },
            Event::InputFailed => {
                self.phase = Phase::Failed;
                Action::Abort(TeeError::InputRead)
            },
            Event::WriteFailed(k) => {
                self.phase = Phase::Failed;
                Action::Abort(TeeError::SinkWrite(k))
            },
            Event::Flushed => {
                self.phase = Phase::Done;
                Action::Finish
            },
            Event::FlushFailed(k) => {
                self.phase = Phase::Failed;
                Action::Abort(TeeError::SinkWrite(k))
            },
        }
    }
}

} // verus!
