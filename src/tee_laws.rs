//! What holds of whole runs of the line copier and of the destinations it
//! writes.

use vstd::prelude::*;
use crate::tee::{
    accepts, file_after, line_content, lines_of, raw_lines, raw_scan, rendered, sink_order,
    tee_output, transition, ActionModel, EventModel, Phase, Sink,
};

verus! {

/// The phase reached and the actions taken over a sequence of events.
pub open spec fn run_from(phase: Phase, n: nat, evs: Seq<EventModel>) -> (Phase, Seq<ActionModel>)
    decreases evs.len(),
{
    if evs.len() == 0 {
        (phase, seq![])
    } else {
        let first = transition(phase, n, evs[0]);
        let rest = run_from(first.0, n, evs.drop_first());
        (rest.0, seq![first.1] + rest.1)
    }
}

/// Every event of the sequence is one that the copier expects at that point.
pub open spec fn accepted_all(phase: Phase, n: nat, evs: Seq<EventModel>) -> bool
    decreases evs.len(),
{
    evs.len() == 0 || (accepts(phase, evs[0]) && accepted_all(
        transition(phase, n, evs[0]).0,
        n,
        evs.drop_first(),
    ))
}

/// What one action writes to a sink.
pub open spec fn written_to(a: ActionModel, k: Sink) -> Seq<char> {
    match a {
        ActionModel::Write(sinks, text) => if sinks.contains(k) {
            text
        } else {
            seq![]
        },
        _ => seq![],
    }
}

/// Everything that a sequence of actions writes to a sink, in order.
pub open spec fn received(acts: Seq<ActionModel>, k: Sink) -> Seq<char>
    decreases acts.len(),
{
    if acts.len() == 0 {
        seq![]
    } else {
        written_to(acts[0], k) + received(acts.drop_first(), k)
    }
}

/// The events of a run without failures: each raw line of the input, the
/// end of the input, and a successful flush.
pub open spec fn clean_events(s: Seq<char>) -> Seq<EventModel> {
    raw_lines(s).map_values(|r: Seq<char>| EventModel::Line(r)) + seq![
        EventModel::InputEnd,
        EventModel::Flushed,
    ]
}

/// The number of `'\n'` in a text.
pub open spec fn count_nl(s: Seq<char>) -> nat
    decreases s.len(),
{
    if s.len() == 0 {
        0
    } else {
        (if s[0] == '\n' {
            1nat
        } else {
            0nat
        }) + count_nl(s.drop_first())
    }
}

/// The text holds no `'\n'`.
pub open spec fn no_nl(s: Seq<char>) -> bool {
    forall|i: int| 0 <= i < s.len() ==> s[i] != '\n'
}

/// A text whose last line ends with `'\n'`, or that has no line.
pub open spec fn is_plain(s: Seq<char>) -> bool {
    s.len() == 0 || s.last() == '\n'
}

proof fn lemma_lines_run(n: nat, raws: Seq<Seq<char>>, k: Sink)
    ensures
        ({
            let evs = raws.map_values(|r: Seq<char>| EventModel::Line(r)) + seq![
                EventModel::InputEnd,
                EventModel::Flushed,
            ];
            &&& accepted_all(Phase::Reading, n, evs)
            &&& run_from(Phase::Reading, n, evs).0 == Phase::Done
            &&& sink_order(n).contains(k) ==> received(run_from(Phase::Reading, n, evs).1, k)
                == rendered(raws.map_values(|r: Seq<char>| line_content(r)))
        }),
    decreases raws.len(),
{
    let f = |r: Seq<char>| EventModel::Line(r);
    let g = |r: Seq<char>| line_content(r);
    let tail = seq![EventModel::InputEnd, EventModel::Flushed];
    let evs = raws.map_values(f) + tail;
    if raws.len() == 0 {
        assert(evs =~= tail);
        let t1 = tail.drop_first();
        assert(t1 =~= seq![EventModel::Flushed]);
        assert(t1.drop_first() =~= Seq::<EventModel>::empty());
        let r2 = run_from(Phase::Done, n, t1.drop_first());
        let r1 = run_from(Phase::Draining, n, t1);
        let r0 = run_from(Phase::Reading, n, tail);
        assert(received(r2.1, k) =~= seq![]);
        assert(r1.1.drop_first() =~= r2.1);
        assert(received(r1.1, k) =~= seq![]);
        assert(r0.1.drop_first() =~= r1.1);
        assert(received(r0.1, k) =~= seq![]);
        assert(raws.map_values(g) =~= Seq::<Seq<char>>::empty());
        assert(rendered(raws.map_values(g)) =~= Seq::<char>::empty());
        assert(accepted_all(Phase::Done, n, t1.drop_first()));
        assert(accepted_all(Phase::Draining, n, t1));
        assert(accepted_all(Phase::Reading, n, evs));
        assert(run_from(Phase::Reading, n, evs).0 == Phase::Done);
    } else {
        lemma_lines_run(n, raws.drop_first(), k);
        assert(evs.drop_first() =~= raws.drop_first().map_values(f) + tail);
        assert(evs[0] == EventModel::Line(raws[0]));
        let r0 = run_from(Phase::Reading, n, evs);
        let r1 = run_from(Phase::Reading, n, evs.drop_first());
        assert(r0.1.drop_first() =~= r1.1);
        assert(raws.map_values(g).drop_first() =~= raws.drop_first().map_values(g));
        assert(raws.map_values(g)[0] == line_content(raws[0]));
        assert(r0.1[0] == ActionModel::Write(sink_order(n), line_content(raws[0]).push('\n')));
        assert(accepts(Phase::Reading, evs[0]));
        assert(accepted_all(Phase::Reading, n, evs));
        assert(run_from(Phase::Reading, n, evs).0 == Phase::Done);
        if sink_order(n).contains(k) {
            assert(received(r0.1, k) == line_content(raws[0]).push('\n') + received(r1.1, k));
        }
    }
}

/// A run without failures reaches its end, every event along the way is one
/// the copier expects, and the console and every file destination each
/// receive exactly the lines of the input, each followed by `'\n'`.
pub proof fn lemma_clean_run_delivers(n: nat, input: Seq<char>, k: Sink)
    requires
        sink_order(n).contains(k),
    ensures
        accepted_all(Phase::Reading, n, clean_events(input)),
        run_from(Phase::Reading, n, clean_events(input)).0 == Phase::Done,
        received(run_from(Phase::Reading, n, clean_events(input)).1, k) == tee_output(input),
{
    lemma_lines_run(n, raw_lines(input), k);
}

/// In a run without failures every file receives the same text as the console.
pub proof fn lemma_files_match_console(n: nat, input: Seq<char>, i: int)
    requires
        0 <= i < n,
    ensures
        received(run_from(Phase::Reading, n, clean_events(input)).1, Sink::File(i as usize))
            == received(run_from(Phase::Reading, n, clean_events(input)).1, Sink::Console),
{
    assert(sink_order(n)[0] == Sink::Console);
    assert(sink_order(n)[i + 1] == Sink::File(i as usize));
    lemma_clean_run_delivers(n, input, Sink::Console);
    lemma_clean_run_delivers(n, input, Sink::File(i as usize));
}

/// With no file destination the console is the only sink.
pub proof fn lemma_no_files_console_only()
    ensures
        sink_order(0) == seq![Sink::Console],
{
    assert(sink_order(0) =~= seq![Sink::Console]);
}

proof fn lemma_scan_lines_no_nl(s: Seq<char>, cur: Seq<char>)
    requires
        no_nl(cur),
    ensures
        forall|j: int|
            0 <= j < raw_scan(s, cur).len() ==> no_nl(line_content(#[trigger] raw_scan(s, cur)[j])),
    decreases s.len(),
{
    if s.len() == 0 {
        if cur.len() > 0 {
            assert(raw_scan(s, cur) == seq![cur]);
            assert(raw_scan(s, cur)[0] == cur);
            assert(cur.last() != '\n');
            assert(line_content(cur) == cur);
        } else {
            assert(raw_scan(s, cur).len() == 0);
        }
    } else if s[0] == '\n' {
        lemma_scan_lines_no_nl(s.drop_first(), seq![]);
        let c = cur.push('\n');
        assert(c.drop_last() =~= cur);
        assert(no_nl(line_content(c)));
        assert forall|j: int| 0 <= j < raw_scan(s, cur).len() implies no_nl(
            line_content(#[trigger] raw_scan(s, cur)[j]),
        ) by {
            if j > 0 {
                assert(raw_scan(s, cur)[j] == raw_scan(s.drop_first(), seq![])[j - 1]);
            }
        }
    } else {
        assert(no_nl(cur.push(s[0])));
        lemma_scan_lines_no_nl(s.drop_first(), cur.push(s[0]));
        assert(raw_scan(s, cur) == raw_scan(s.drop_first(), cur.push(s[0])));
    }
}

proof fn lemma_count_concat(a: Seq<char>, b: Seq<char>)
    ensures
        count_nl(a + b) == count_nl(a) + count_nl(b),
    decreases a.len(),
{
    if a.len() > 0 {
        lemma_count_concat(a.drop_first(), b);
        assert((a + b).drop_first() =~= a.drop_first() + b);
    } else {
        assert(a + b =~= b);
    }
}

proof fn lemma_count_no_nl(a: Seq<char>)
    requires
        no_nl(a),
    ensures
        count_nl(a) == 0,
    decreases a.len(),
{
    if a.len() > 0 {
        lemma_count_no_nl(a.drop_first());
    }
}

proof fn lemma_count_rendered(ls: Seq<Seq<char>>)
    requires
        forall|j: int| 0 <= j < ls.len() ==> no_nl(#[trigger] ls[j]),
    ensures
        count_nl(rendered(ls)) == ls.len(),
    decreases ls.len(),
{
    if ls.len() > 0 {
        lemma_count_rendered(ls.drop_first());
        let l = ls[0];
        lemma_count_no_nl(l);
        lemma_count_concat(l, seq!['\n']);
        assert(l + seq!['\n'] == l.push('\n'));
        assert(count_nl(seq!['\n']) == 1) by {
            assert(seq!['\n'].drop_first() =~= Seq::<char>::empty());
            assert(count_nl(Seq::<char>::empty()) == 0);
        }
        lemma_count_concat(l.push('\n'), rendered(ls.drop_first()));
    }
}

/// Each destination holds as many lines as the input has: one `'\n'` for
/// each input line, the last one included even without its own `'\n'`.
pub proof fn lemma_line_count(input: Seq<char>)
    ensures
        count_nl(tee_output(input)) == raw_lines(input).len(),
        lines_of(input).len() == raw_lines(input).len(),
{
    let raws = raw_lines(input);
    let ls = lines_of(input);
    lemma_scan_lines_no_nl(input, seq![]);
    assert forall|j: int| 0 <= j < ls.len() implies no_nl(#[trigger] ls[j]) by {
        assert(ls[j] == line_content(raws[j]));
    }
    lemma_count_rendered(ls);
}

proof fn lemma_rendered_concat(a: Seq<Seq<char>>, b: Seq<Seq<char>>)
    ensures
        rendered(a + b) == rendered(a) + rendered(b),
    decreases a.len(),
{
    if a.len() == 0 {
        assert(a + b =~= b);
        assert(rendered(a) + rendered(b) =~= rendered(b));
    } else {
        lemma_rendered_concat(a.drop_first(), b);
        assert((a + b).drop_first() =~= a.drop_first() + b);
        assert((a + b)[0] == a[0]);
        assert(rendered(a + b) =~= rendered(a) + rendered(b));
    }
}

proof fn lemma_scan_plain(s: Seq<char>, cur: Seq<char>)
    requires
        no_nl(cur),
        (s.len() == 0 && cur.len() == 0) || (s.len() > 0 && s.last() == '\n'),
    ensures
        rendered(raw_scan(s, cur).map_values(|r: Seq<char>| line_content(r))) == cur + s,
    decreases s.len(),
{
    let g = |r: Seq<char>| line_content(r);
    if s.len() == 0 {
        assert(raw_scan(s, cur).map_values(g) =~= Seq::<Seq<char>>::empty());
        assert(cur + s =~= Seq::<char>::empty());
    } else if s[0] == '\n' {
        let rest = s.drop_first();
        assert(rest.len() > 0 ==> rest.last() == s.last());
        lemma_scan_plain(rest, seq![]);
        let c = cur.push('\n');
        assert(c.drop_last() =~= cur);
        assert(line_content(c) == cur);
        let ms = raw_scan(s, cur).map_values(g);
        assert(ms[0] == cur);
        assert(ms.drop_first() =~= raw_scan(rest, seq![]).map_values(g));
        assert(seq![] + rest =~= rest);
        assert(cur.push('\n') + rest =~= cur + s);
    } else {
        let rest = s.drop_first();
        assert(rest.len() > 0);
        assert(rest.last() == s.last());
        lemma_scan_plain(rest, cur.push(s[0]));
        assert(cur.push(s[0]) + rest =~= cur + s);
    }
}

/// A text whose lines all end in `'\n'` reaches every
/// destination unchanged.
pub proof fn lemma_plain_passes_unchanged(s: Seq<char>)
    requires
        is_plain(s),
    ensures
        tee_output(s) == s,
{
    lemma_scan_plain(s, seq![]);
    assert(seq![] + s =~= s);
}

proof fn lemma_scan_concat(s: Seq<char>, t: Seq<char>, cur: Seq<char>)
    requires
        s.len() > 0,
        s.last() == '\n',
    ensures
        raw_scan(s + t, cur) == raw_scan(s, cur) + raw_scan(t, seq![]),
    decreases s.len(),
{
    let rest = s.drop_first();
    assert((s + t).drop_first() =~= rest + t);
    assert((s + t)[0] == s[0]);
    if s[0] == '\n' {
        if rest.len() == 0 {
            assert(rest + t =~= t);
            assert(raw_scan(rest, seq![]) =~= Seq::<Seq<char>>::empty());
            assert(raw_scan(s, cur) + raw_scan(t, seq![]) =~= seq![cur.push('\n')] + raw_scan(t, seq![]));
        } else {
            assert(rest.last() == s.last());
            lemma_scan_concat(rest, t, seq![]);
            assert(seq![cur.push('\n')] + (raw_scan(rest, seq![]) + raw_scan(t, seq![])) =~= (seq![
                cur.push('\n'),
            ] + raw_scan(rest, seq![])) + raw_scan(t, seq![]));
        }
    } else {
        assert(rest.len() > 0);
        assert(rest.last() == s.last());
        lemma_scan_concat(rest, t, cur.push(s[0]));
    }
}

proof fn lemma_scan_last(x: Seq<char>, cur: Seq<char>)
    requires
        no_nl(x),
        cur.len() + x.len() > 0,
    ensures
        raw_scan(x, cur) == seq![cur + x],
    decreases x.len(),
{
    if x.len() == 0 {
        assert(cur + x =~= cur);
    } else {
        lemma_scan_last(x.drop_first(), cur.push(x[0]));
        assert(cur.push(x[0]) + x.drop_first() =~= cur + x);
    }
}

/// A last line without `'\n'` still reaches every destination as a whole
/// line: after the lines before it, with a `'\n'` added.
pub proof fn lemma_unterminated_last_line(s: Seq<char>, x: Seq<char>)
    requires
        s.len() == 0 || s.last() == '\n',
        x.len() > 0,
        no_nl(x),
    ensures
        tee_output(s + x) == tee_output(s) + x.push('\n'),
{
    let g = |r: Seq<char>| line_content(r);
    lemma_scan_last(x, seq![]);
    assert(seq![] + x =~= x);
    let lx = raw_scan(x, seq![]);
    if s.len() == 0 {
        assert(s + x =~= x);
        assert(raw_scan(s, seq![]) =~= Seq::<Seq<char>>::empty());
    } else {
        lemma_scan_concat(s, x, seq![]);
    }
    assert(raw_lines(s + x) == raw_lines(s) + lx);
    assert(x.last() != '\n');
    assert(lines_of(s + x) =~= lines_of(s) + seq![x]);
    lemma_rendered_concat(lines_of(s), seq![x]);
    assert(seq![x].drop_first() =~= Seq::<Seq<char>>::empty());
    assert(rendered(Seq::<Seq<char>>::empty()) =~= Seq::<char>::empty());
    assert(rendered(seq![x]) =~= x.push('\n'));
}

/// Without the append flag a destination written twice holds what the
/// second run wrote, whatever it held before.
pub proof fn lemma_truncate_twice(existing: Seq<char>, in1: Seq<char>, in2: Seq<char>)
    ensures
        file_after(file_after(existing, false, tee_output(in1)), false, tee_output(in2))
            == tee_output(in2),
        is_plain(in2) ==> file_after(
            file_after(existing, false, tee_output(in1)),
            false,
            tee_output(in2),
        ) == in2,
{
    if is_plain(in2) {
        lemma_plain_passes_unchanged(in2);
    }
}

/// With the append flag a destination written twice holds its old content,
/// then what the first run wrote, then what the second wrote.
pub proof fn lemma_append_twice(existing: Seq<char>, in1: Seq<char>, in2: Seq<char>)
    ensures
        file_after(file_after(existing, true, tee_output(in1)), true, tee_output(in2)) == existing
            + tee_output(in1) + tee_output(in2),
        is_plain(in1) && is_plain(in2) ==> file_after(
            file_after(existing, true, tee_output(in1)),
            true,
            tee_output(in2),
        ) == existing + in1 + in2,
{
    if is_plain(in1) && is_plain(in2) {
        lemma_plain_passes_unchanged(in1);
        lemma_plain_passes_unchanged(in2);
    }
}

/// An empty input writes nothing, and a destination opened without the
/// append flag is left empty.
pub proof fn lemma_empty_input(existing: Seq<char>)
    ensures
        tee_output(seq![]) == Seq::<char>::empty(),
        file_after(existing, false, tee_output(seq![])) == Seq::<char>::empty(),
{
    assert(raw_lines(seq![]) =~= Seq::<Seq<char>>::empty());
    assert(lines_of(seq![]) =~= Seq::<Seq<char>>::empty());
}

} // verus!
