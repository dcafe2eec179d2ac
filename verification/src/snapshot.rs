//! The persisted snapshot: a textual rendering of the whole tracker
//! that parses back to exactly the tracker it was rendered from.
//!
//! Numbers are written in decimal and closed with `;`; text is
//! written as its length followed by its characters, so labels may
//! hold any character.  A snapshot is the project count followed by
//! each project: its name, its running tasks (count, then each
//! activity and start time), and its finished tasks (count, then
//! each activity, start, end and duration).
use vstd::prelude::*;

use crate::text::{dec_digits, dec_val, digit_char, is_digit, lemma_dec_digits_are_digits,
    lemma_dec_round_trip, u64_to_string};
use crate::tracker::{FinishedTask, FinishedView, Project, ProjectView, StartedTask, StartedView,
    TimeTracker, TrackerView};

verus! {

// ---------------------------------------------------------------
// Rendering
// ---------------------------------------------------------------

/// A number, in decimal, closed with `;`.
pub open spec fn enc_num(n: nat) -> Seq<char> {
    dec_digits(n) + seq![';']
}

/// Text: its length, then its characters.
pub open spec fn enc_str(s: Seq<char>) -> Seq<char> {
    enc_num(s.len()) + s
}

/// A running task: activity, then start time.
pub open spec fn enc_started(t: StartedView) -> Seq<char> {
    enc_str(t.activity) + enc_num(t.start as nat)
}

/// A finished task: activity, then start, end and duration.
pub open spec fn enc_finished(t: FinishedView) -> Seq<char> {
    enc_str(t.activity) + enc_num(t.start as nat) + enc_num(t.end as nat) + enc_num(
        t.duration as nat,
    )
}

/// The running tasks of a project, in order.
pub open spec fn enc_started_seq(s: Seq<StartedView>) -> Seq<char>
    decreases s.len(),
{
    if s.len() == 0 {
        Seq::empty()
    } else {
        enc_started(s[0]) + enc_started_seq(s.drop_first())
    }
}

/// The finished tasks of a project, in order.
pub open spec fn enc_finished_seq(s: Seq<FinishedView>) -> Seq<char>
    decreases s.len(),
{
    if s.len() == 0 {
        Seq::empty()
    } else {
        enc_finished(s[0]) + enc_finished_seq(s.drop_first())
    }
}

/// A project: name, running tasks, finished tasks.
pub open spec fn enc_project(p: ProjectView) -> Seq<char> {
    enc_str(p.name) + enc_num(p.started.len()) + enc_started_seq(p.started) + enc_num(
        p.finished.len(),
    ) + enc_finished_seq(p.finished)
}

/// The projects of the tracker, in order.
pub open spec fn enc_projects(ps: Seq<ProjectView>) -> Seq<char>
    decreases ps.len(),
{
    if ps.len() == 0 {
        Seq::empty()
    } else {
        enc_project(ps[0]) + enc_projects(ps.drop_first())
    }
}

/// The whole tracker: the project count, then each project.
pub open spec fn enc_tracker(t: TrackerView) -> Seq<char> {
    enc_num(t.projects.len()) + enc_projects(t.projects)
}

// ---------------------------------------------------------------
// Parsing
// ---------------------------------------------------------------

/// The position of the first non-digit character at or past `i`.
pub open spec fn digits_end(s: Seq<char>, i: int) -> int
    decreases s.len() - i,
{
    if i < 0 || i >= s.len() || !is_digit(s[i]) {
        i
    } else {
        digits_end(s, i + 1)
    }
}

/// Reads a `;`-closed decimal number at `i`; fails without at least
/// one digit and the closing `;`.
pub open spec fn parse_num(s: Seq<char>, i: int) -> Option<(nat, int)> {
    let e = digits_end(s, i);
    if e == i {
        None
    } else if e < s.len() && s[e] == ';' {
        Some((dec_val(s.subrange(i, e)), e + 1))
    } else {
        None
    }
}

/// Reads a number at `i` and requires it to fit in 64 bits.
pub open spec fn parse_u64(s: Seq<char>, i: int) -> Option<(u64, int)> {
    match parse_num(s, i) {
        None => None,
        Some((n, j)) => if n <= u64::MAX {
            Some((n as u64, j))
        } else {
            None
        },
    }
}

/// Reads length-prefixed text at `i`.
pub open spec fn parse_str(s: Seq<char>, i: int) -> Option<(Seq<char>, int)> {
    match parse_u64(s, i) {
        None => None,
        Some((n, j)) => if j + n <= s.len() {
            Some((s.subrange(j, j + n), j + n))
        } else {
            None
        },
    }
}

/// Reads a running task at `i`.
pub open spec fn parse_started(s: Seq<char>, i: int) -> Option<(StartedView, int)> {
    match parse_str(s, i) {
        None => None,
        Some((a, j)) => match parse_u64(s, j) {
            None => None,
            Some((st, k)) => Some((StartedView { activity: a, start: st }, k)),
        },
    }
}

/// Reads a finished task at `i`.
pub open spec fn parse_finished(s: Seq<char>, i: int) -> Option<(FinishedView, int)> {
    match parse_str(s, i) {
        None => None,
        Some((a, j)) => match parse_u64(s, j) {
            None => None,
            Some((st, k)) => match parse_u64(s, k) {
                None => None,
                Some((en, l)) => match parse_u64(s, l) {
                    None => None,
                    Some((du, m)) => Some(
                        (FinishedView { activity: a, start: st, end: en, duration: du }, m),
                    ),
                },
            },
        },
    }
}

/// Reads `count` running tasks at `i`.
pub open spec fn parse_started_seq(s: Seq<char>, i: int, count: nat) -> Option<
    (Seq<StartedView>, int),
>
    decreases count,
{
    if count == 0 {
        Some((Seq::empty(), i))
    } else {
        match parse_started(s, i) {
            None => None,
            Some((t, j)) => match parse_started_seq(s, j, (count - 1) as nat) {
                None => None,
                Some((ts, k)) => Some((seq![t] + ts, k)),
            },
        }
    }
}

/// Reads `count` finished tasks at `i`.
pub open spec fn parse_finished_seq(s: Seq<char>, i: int, count: nat) -> Option<
    (Seq<FinishedView>, int),
>
    decreases count,
{
    if count == 0 {
        Some((Seq::empty(), i))
    } else {
        match parse_finished(s, i) {
            None => None,
            Some((t, j)) => match parse_finished_seq(s, j, (count - 1) as nat) {
                None => None,
                Some((ts, k)) => Some((seq![t] + ts, k)),
            },
        }
    }
}

/// Reads a project at `i`.
pub open spec fn parse_project(s: Seq<char>, i: int) -> Option<(ProjectView, int)> {
    match parse_str(s, i) {
        None => None,
        Some((name, j)) => match parse_u64(s, j) {
            None => None,
            Some((ns, k)) => match parse_started_seq(s, k, ns as nat) {
                None => None,
                Some((sts, l)) => match parse_u64(s, l) {
                    None => None,
                    Some((nf, m)) => match parse_finished_seq(s, m, nf as nat) {
                        None => None,
                        Some((fts, e)) => Some(
                            (ProjectView { name, started: sts, finished: fts }, e),
                        ),
                    },
                },
            },
        },
    }
}

/// Reads `count` projects at `i`.
pub open spec fn parse_projects(s: Seq<char>, i: int, count: nat) -> Option<
    (Seq<ProjectView>, int),
>
    decreases count,
{
    if count == 0 {
        Some((Seq::empty(), i))
    } else {
        match parse_project(s, i) {
            None => None,
            Some((p, j)) => match parse_projects(s, j, (count - 1) as nat) {
                None => None,
                Some((ps, k)) => Some((seq![p] + ps, k)),
            },
        }
    }
}

/// Reads a whole tracker; the snapshot must be consumed exactly.
pub open spec fn parse_tracker(s: Seq<char>) -> Option<TrackerView> {
    match parse_u64(s, 0) {
        None => None,
        Some((n, i)) => match parse_projects(s, i, n as nat) {
            None => None,
            Some((ps, j)) => if j == s.len() {
                Some(TrackerView { projects: ps })
            } else {
                None
            },
        },
    }
}

/// What loading accepts: a tracker that parses and is well-formed.
pub open spec fn parse_snapshot(s: Seq<char>) -> Option<TrackerView> {
    match parse_tracker(s) {
        None => None,
        Some(t) => if t.wf() {
            Some(t)
        } else {
            None
        },
    }
}

// ---------------------------------------------------------------
// Size side conditions for the round trip
// ---------------------------------------------------------------

/// The label of a running task fits a 64-bit length.
pub open spec fn sv_fits(t: StartedView) -> bool {
    t.activity.len() <= u64::MAX
}

/// The label of a finished task fits a 64-bit length.
pub open spec fn fv_fits(t: FinishedView) -> bool {
    t.activity.len() <= u64::MAX
}

/// All lengths within a project fit 64 bits.
pub open spec fn pv_fits(p: ProjectView) -> bool {
    &&& p.name.len() <= u64::MAX
    &&& p.started.len() <= u64::MAX
    &&& p.finished.len() <= u64::MAX
    &&& forall|i: int| 0 <= i < p.started.len() ==> sv_fits(#[trigger] p.started[i])
    &&& forall|i: int| 0 <= i < p.finished.len() ==> fv_fits(#[trigger] p.finished[i])
}

/// All lengths within a tracker fit 64 bits.
pub open spec fn tv_fits(t: TrackerView) -> bool {
    &&& t.projects.len() <= u64::MAX
    &&& forall|i: int| 0 <= i < t.projects.len() ==> pv_fits(#[trigger] t.projects[i])
}

// ---------------------------------------------------------------
// The round trip
// ---------------------------------------------------------------

/// Splits a region known to hold a concatenation into its halves.
proof fn lemma_split_at(s: Seq<char>, i: int, a: Seq<char>, b: Seq<char>)
    requires
        0 <= i,
        i + a.len() + b.len() <= s.len(),
        s.subrange(i, i + a.len() + b.len()) == a + b,
    ensures
        s.subrange(i, i + a.len()) == a,
        s.subrange(i + a.len(), i + a.len() + b.len()) == b,
{
    let whole = s.subrange(i, i + a.len() + b.len());
    assert forall|k: int| 0 <= k < a.len() implies s.subrange(i, i + a.len())[k] == a[k] by {
        assert(whole[k] == (a + b)[k]);
    }
    assert(s.subrange(i, i + a.len()) =~= a);
    assert forall|k: int|
        0 <= k < b.len() implies s.subrange(i + a.len(), i + a.len() + b.len())[k] == b[k] by {
        assert(whole[a.len() + k] == (a + b)[a.len() + k]);
    }
    assert(s.subrange(i + a.len(), i + a.len() + b.len()) =~= b);
}

/// The first non-digit after a run of digits is where the digit
/// scan stops.
proof fn lemma_digits_end_is(s: Seq<char>, i: int, e: int)
    requires
        0 <= i <= e <= s.len(),
        forall|j: int| i <= j < e ==> is_digit(#[trigger] s[j]),
        e == s.len() || !is_digit(s[e]),
    ensures
        digits_end(s, i) == e,
    decreases e - i,
{
    if i < e {
        lemma_digits_end_is(s, i + 1, e);
    }
}

/// A rendered number at `i` reads back as itself.
proof fn lemma_parse_num_at(s: Seq<char>, i: int, n: nat)
    requires
        0 <= i,
        n <= u64::MAX,
        i + enc_num(n).len() <= s.len(),
        s.subrange(i, i + enc_num(n).len()) == enc_num(n),
    ensures
        parse_u64(s, i) == Some((n as u64, i + enc_num(n).len())),
{
    let d = dec_digits(n);
    let l = d.len() as int;
    lemma_dec_digits_are_digits(n);
    let region = s.subrange(i, i + l + 1);
    assert forall|j: int| i <= j < i + l implies is_digit(#[trigger] s[j]) by {
        assert(s[j] == region[j - i]);
        assert(region[j - i] == d[j - i]);
    }
    assert(s[i + l] == region[l]);
    assert(s[i + l] == ';');
    assert(!is_digit(';'));
    lemma_digits_end_is(s, i, i + l);
    assert(s.subrange(i, i + l) =~= d) by {
        assert forall|k: int| 0 <= k < l implies s.subrange(i, i + l)[k] == d[k] by {
            assert(s[i + k] == region[k]);
        }
    }
    lemma_dec_round_trip(n);
    assert(dec_val(s.subrange(i, i + l)) == n);
}

/// Rendered text at `i` reads back as itself.
proof fn lemma_parse_str_at(s: Seq<char>, i: int, t: Seq<char>)
    requires
        0 <= i,
        t.len() <= u64::MAX,
        i + enc_str(t).len() <= s.len(),
        s.subrange(i, i + enc_str(t).len()) == enc_str(t),
    ensures
        parse_str(s, i) == Some((t, i + enc_str(t).len())),
{
    let pre = enc_num(t.len());
    lemma_split_at(s, i, pre, t);
    lemma_parse_num_at(s, i, t.len());
    let j = i + pre.len();
    assert(s.subrange(j, j + t.len()) == t);
}

/// A rendered running task at `i` reads back as itself.
proof fn lemma_parse_started_at(s: Seq<char>, i: int, t: StartedView)
    requires
        0 <= i,
        sv_fits(t),
        i + enc_started(t).len() <= s.len(),
        s.subrange(i, i + enc_started(t).len()) == enc_started(t),
    ensures
        parse_started(s, i) == Some((t, i + enc_started(t).len())),
{
    let a = enc_str(t.activity);
    let b = enc_num(t.start as nat);
    lemma_split_at(s, i, a, b);
    lemma_parse_str_at(s, i, t.activity);
    lemma_parse_num_at(s, i + a.len(), t.start as nat);
}

/// A rendered finished task at `i` reads back as itself.
proof fn lemma_parse_finished_at(s: Seq<char>, i: int, t: FinishedView)
    requires
        0 <= i,
        fv_fits(t),
        i + enc_finished(t).len() <= s.len(),
        s.subrange(i, i + enc_finished(t).len()) == enc_finished(t),
    ensures
        parse_finished(s, i) == Some((t, i + enc_finished(t).len())),
{
    let a = enc_str(t.activity);
    let b = enc_num(t.start as nat);
    let c = enc_num(t.end as nat);
    let d = enc_num(t.duration as nat);
    assert(enc_finished(t) =~= a + (b + (c + d)));
    lemma_split_at(s, i, a, b + (c + d));
    lemma_parse_str_at(s, i, t.activity);
    let j = i + a.len();
    lemma_split_at(s, j, b, c + d);
    lemma_parse_num_at(s, j, t.start as nat);
    let k = j + b.len();
    lemma_split_at(s, k, c, d);
    lemma_parse_num_at(s, k, t.end as nat);
    let l = k + c.len();
    lemma_parse_num_at(s, l, t.duration as nat);
}

/// A rendered run of running tasks at `i` reads back as itself.
proof fn lemma_parse_started_seq_at(s: Seq<char>, i: int, ts: Seq<StartedView>)
    requires
        0 <= i,
        forall|k: int| 0 <= k < ts.len() ==> sv_fits(#[trigger] ts[k]),
        i + enc_started_seq(ts).len() <= s.len(),
        s.subrange(i, i + enc_started_seq(ts).len()) == enc_started_seq(ts),
    ensures
        parse_started_seq(s, i, ts.len()) == Some((ts, i + enc_started_seq(ts).len())),
    decreases ts.len(),
{
    if ts.len() == 0 {
    } else {
        let a = enc_started(ts[0]);
        let b = enc_started_seq(ts.drop_first());
        lemma_split_at(s, i, a, b);
        lemma_parse_started_at(s, i, ts[0]);
        lemma_parse_started_seq_at(s, i + a.len(), ts.drop_first());
        assert(seq![ts[0]] + ts.drop_first() =~= ts);
    }
}

/// A rendered run of finished tasks at `i` reads back as itself.
proof fn lemma_parse_finished_seq_at(s: Seq<char>, i: int, ts: Seq<FinishedView>)
    requires
        0 <= i,
        forall|k: int| 0 <= k < ts.len() ==> fv_fits(#[trigger] ts[k]),
        i + enc_finished_seq(ts).len() <= s.len(),
        s.subrange(i, i + enc_finished_seq(ts).len()) == enc_finished_seq(ts),
    ensures
        parse_finished_seq(s, i, ts.len()) == Some((ts, i + enc_finished_seq(ts).len())),
    decreases ts.len(),
{
    if ts.len() == 0 {
    } else {
        let a = enc_finished(ts[0]);
        let b = enc_finished_seq(ts.drop_first());
        lemma_split_at(s, i, a, b);
        lemma_parse_finished_at(s, i, ts[0]);
        lemma_parse_finished_seq_at(s, i + a.len(), ts.drop_first());
        assert(seq![ts[0]] + ts.drop_first() =~= ts);
    }
}

/// A rendered project at `i` reads back as itself.
proof fn lemma_parse_project_at(s: Seq<char>, i: int, p: ProjectView)
    requires
        0 <= i,
        pv_fits(p),
        i + enc_project(p).len() <= s.len(),
        s.subrange(i, i + enc_project(p).len()) == enc_project(p),
    ensures
        parse_project(s, i) == Some((p, i + enc_project(p).len())),
{
    let a = enc_str(p.name);
    let b = enc_num(p.started.len());
    let c = enc_started_seq(p.started);
    let d = enc_num(p.finished.len());
    let e = enc_finished_seq(p.finished);
    assert(enc_project(p) =~= a + (b + (c + (d + e))));
    lemma_split_at(s, i, a, b + (c + (d + e)));
    lemma_parse_str_at(s, i, p.name);
    let j1 = i + a.len();
    lemma_split_at(s, j1, b, c + (d + e));
    lemma_parse_num_at(s, j1, p.started.len());
    let j2 = j1 + b.len();
    lemma_split_at(s, j2, c, d + e);
    lemma_parse_started_seq_at(s, j2, p.started);
    let j3 = j2 + c.len();
    lemma_split_at(s, j3, d, e);
    lemma_parse_num_at(s, j3, p.finished.len());
    let j4 = j3 + d.len();
    lemma_parse_finished_seq_at(s, j4, p.finished);
}

/// A rendered run of projects at `i` reads back as itself.
proof fn lemma_parse_projects_at(s: Seq<char>, i: int, ps: Seq<ProjectView>)
    requires
        0 <= i,
        forall|k: int| 0 <= k < ps.len() ==> pv_fits(#[trigger] ps[k]),
        i + enc_projects(ps).len() <= s.len(),
        s.subrange(i, i + enc_projects(ps).len()) == enc_projects(ps),
    ensures
        parse_projects(s, i, ps.len()) == Some((ps, i + enc_projects(ps).len())),
    decreases ps.len(),
{
    if ps.len() == 0 {
    } else {
        let a = enc_project(ps[0]);
        let b = enc_projects(ps.drop_first());
        lemma_split_at(s, i, a, b);
        lemma_parse_project_at(s, i, ps[0]);
        lemma_parse_projects_at(s, i + a.len(), ps.drop_first());
        assert(seq![ps[0]] + ps.drop_first() =~= ps);
    }
}

/// Rendering one more running task extends the rendering of a run.
proof fn lemma_enc_started_seq_push(s: Seq<StartedView>, x: StartedView)
    ensures
        enc_started_seq(s.push(x)) == enc_started_seq(s) + enc_started(x),
    decreases s.len(),
{
    if s.len() == 0 {
        assert(s.push(x).drop_first() =~= Seq::<StartedView>::empty());
        assert(enc_started_seq(Seq::<StartedView>::empty()) == Seq::<char>::empty());
        assert(s.push(x)[0] == x);
        assert(enc_started_seq(s.push(x)) =~= enc_started_seq(s) + enc_started(x));
    } else {
        assert(s.push(x).drop_first() =~= s.drop_first().push(x));
        lemma_enc_started_seq_push(s.drop_first(), x);
        assert(enc_started_seq(s.push(x)) =~= enc_started_seq(s) + enc_started(x));
    }
}

/// Rendering one more finished task extends the rendering of a run.
proof fn lemma_enc_finished_seq_push(s: Seq<FinishedView>, x: FinishedView)
    ensures
        enc_finished_seq(s.push(x)) == enc_finished_seq(s) + enc_finished(x),
    decreases s.len(),
{
    if s.len() == 0 {
        assert(s.push(x).drop_first() =~= Seq::<FinishedView>::empty());
        assert(enc_finished_seq(Seq::<FinishedView>::empty()) == Seq::<char>::empty());
        assert(s.push(x)[0] == x);
        assert(enc_finished_seq(s.push(x)) =~= enc_finished_seq(s) + enc_finished(x));
    } else {
        assert(s.push(x).drop_first() =~= s.drop_first().push(x));
        lemma_enc_finished_seq_push(s.drop_first(), x);
        assert(enc_finished_seq(s.push(x)) =~= enc_finished_seq(s) + enc_finished(x));
    }
}

/// Rendering one more project extends the rendering of a run.
proof fn lemma_enc_projects_push(s: Seq<ProjectView>, x: ProjectView)
    ensures
        enc_projects(s.push(x)) == enc_projects(s) + enc_project(x),
    decreases s.len(),
{
    if s.len() == 0 {
        assert(s.push(x).drop_first() =~= Seq::<ProjectView>::empty());
        assert(enc_projects(Seq::<ProjectView>::empty()) == Seq::<char>::empty());
        assert(s.push(x)[0] == x);
        assert(enc_projects(s.push(x)) =~= enc_projects(s) + enc_project(x));
    } else {
        assert(s.push(x).drop_first() =~= s.drop_first().push(x));
        lemma_enc_projects_push(s.drop_first(), x);
        assert(enc_projects(s.push(x)) =~= enc_projects(s) + enc_project(x));
    }
}

/// Appends a rendered number.
fn push_num(out: &mut String, n: u64)
    ensures
        final(out)@ == old(out)@ + enc_num(n as nat),
{
    let d = u64_to_string(n);
    out.append(d.as_str());
    out.append(";");
    proof {
        reveal_strlit(";");
        assert(";"@ =~= seq![';']);
        assert(final(out)@ =~= old(out)@ + enc_num(n as nat));
    }
}

/// Appends rendered text.
fn push_text(out: &mut String, s: &str)
    ensures
        final(out)@ == old(out)@ + enc_str(s@),
{
    let n = s.unicode_len();
    push_num(out, n as u64);
    out.append(s);
    proof {
        assert(final(out)@ =~= old(out)@ + enc_str(s@));
    }
}

/// Appends a rendered running task.
fn push_started(out: &mut String, t: &StartedTask)
    ensures
        final(out)@ == old(out)@ + enc_started(t@),
{
    push_text(out, t.activity.as_str());
    push_num(out, t.start);
    proof {
        assert(final(out)@ =~= old(out)@ + enc_started(t@));
    }
}

/// Appends a rendered finished task.
fn push_finished(out: &mut String, t: &FinishedTask)
    ensures
        final(out)@ == old(out)@ + enc_finished(t@),
{
    push_text(out, t.activity.as_str());
    push_num(out, t.start);
    push_num(out, t.end);
    push_num(out, t.duration);
    proof {
        assert(final(out)@ =~= old(out)@ + enc_finished(t@));
    }
}

/// Appends a rendered project.
fn push_project(out: &mut String, p: &Project)
    ensures
        final(out)@ == old(out)@ + enc_project(p@),
{
    let ghost base = out@;
    push_text(out, p.name.as_str());
    push_num(out, p.started.len() as u64);
    let ghost mid = base + enc_str(p@.name) + enc_num(p@.started.len());
    assert(out@ == mid);
    let mut i: usize = 0;
    while i < p.started.len()
        invariant
            i <= p.started.len(),
            out@ == mid + enc_started_seq(p@.started.take(i as int)),
        decreases p.started.len() - i,
    {
        push_started(out, &p.started[i]);
        proof {
            lemma_enc_started_seq_push(p@.started.take(i as int), p@.started[i as int]);
            assert(p@.started.take(i as int).push(p@.started[i as int]) =~= p@.started.take(
                i as int + 1,
            ));
        }
        i += 1;
    }
    proof {
        assert(p@.started.take(p@.started.len() as int) =~= p@.started);
    }
    push_num(out, p.finished.len() as u64);
    let ghost mid2 = mid + enc_started_seq(p@.started) + enc_num(p@.finished.len());
    assert(out@ == mid2);
    let mut j: usize = 0;
    while j < p.finished.len()
        invariant
            j <= p.finished.len(),
            out@ == mid2 + enc_finished_seq(p@.finished.take(j as int)),
        decreases p.finished.len() - j,
    {
        push_finished(out, &p.finished[j]);
        proof {
            lemma_enc_finished_seq_push(p@.finished.take(j as int), p@.finished[j as int]);
            assert(p@.finished.take(j as int).push(p@.finished[j as int]) =~= p@.finished.take(
                j as int + 1,
            ));
        }
        j += 1;
    }
    proof {
        assert(p@.finished.take(p@.finished.len() as int) =~= p@.finished);
        assert(final(out)@ =~= old(out)@ + enc_project(p@));
    }
}

impl TimeTracker {
    /// Renders the whole tracker as its snapshot text.
    pub fn save(&self) -> (r: String)
        ensures
            r@ == enc_tracker(self@),
    {
        let mut out = String::new();
        push_num(&mut out, self.projects.len() as u64);
        let ghost base = enc_num(self@.projects.len());
        assert(out@ == base);
        let mut i: usize = 0;
        while i < self.projects.len()
            invariant
                i <= self.projects.len(),
                out@ == base + enc_projects(self@.projects.take(i as int)),
            decreases self.projects.len() - i,
        {
            push_project(&mut out, &self.projects[i]);
            proof {
                lemma_enc_projects_push(self@.projects.take(i as int), self@.projects[i as int]);
                assert(self@.projects.take(i as int).push(self@.projects[i as int])
                    =~= self@.projects.take(i as int + 1));
            }
            i += 1;
        }
        proof {
            assert(self@.projects.take(self@.projects.len() as int) =~= self@.projects);
            assert(out@ =~= enc_tracker(self@));
        }
        out
    }
}

/// Every character before the digit scan's stop is a digit.
proof fn lemma_digits_end_digits(s: Seq<char>, i: int)
    requires
        0 <= i <= s.len(),
    ensures
        i <= digits_end(s, i) <= s.len(),
        forall|k: int| i <= k < digits_end(s, i) ==> is_digit(#[trigger] s[k]),
    decreases s.len() - i,
{
    if i < s.len() && is_digit(s[i]) {
        lemma_digits_end_digits(s, i + 1);
    }
}

/// Finds the first non-digit character at or past `i`.
fn find_digits_end(s: &str, n: usize, i: usize) -> (e: usize)
    requires
        n == s@.len(),
        i <= n,
    ensures
        i <= e <= n,
        e as int == digits_end(s@, i as int),
{
    let mut j = i;
    loop
        invariant
            n == s@.len(),
            i <= j <= n,
            digits_end(s@, i as int) == digits_end(s@, j as int),
        ensures
            i <= j <= n,
            digits_end(s@, i as int) == j as int,
        decreases n - j,
    {
        if j >= n {
            break;
        }
        let c = s.get_char(j);
        if !digit_char(c) {
            break;
        }
        j += 1;
    }
    j
}

/// The numeric value of one digit character.
fn digit_value(c: char) -> (d: u64)
    requires
        is_digit(c),
    ensures
        d as nat == crate::text::digit_val(c),
        d < 10,
{
    ((c as u32) - ('0' as u32)) as u64
}

/// Reads a `;`-closed number, as [`parse_u64`] describes.
fn scan_u64(s: &str, n: usize, i: usize) -> (r: Option<(u64, usize)>)
    requires
        n == s@.len(),
        i <= n,
    ensures
        r is None ==> parse_u64(s@, i as int) is None,
        r matches Some(p) ==> parse_u64(s@, i as int) == Some((p.0, p.1 as int)) && i < p.1 <= n,
{
    let e = find_digits_end(s, n, i);
    if e == i {
        return None;
    }
    if e == n {
        return None;
    }
    let term = s.get_char(e);
    if term != ';' {
        return None;
    }
    proof {
        lemma_digits_end_digits(s@, i as int);
    }
    let mut acc: u64 = 0;
    let mut over = false;
    let mut j = i;
    while j < e
        invariant
            i <= j <= e <= n,
            n == s@.len(),
            e as int == digits_end(s@, i as int),
            forall|k: int| i <= k < e ==> is_digit(#[trigger] s@[k]),
            !over ==> acc as nat == dec_val(s@.subrange(i as int, j as int)),
            over ==> dec_val(s@.subrange(i as int, j as int)) > u64::MAX,
        decreases e - j,
    {
        let c = s.get_char(j);
        let d = digit_value(c);
        proof {
            assert(s@.subrange(i as int, j as int + 1).drop_last() =~= s@.subrange(
                i as int,
                j as int,
            ));
            assert(s@.subrange(i as int, j as int + 1).last() == s@[j as int]);
        }
        if !over {
            match acc.checked_mul(10) {
                Some(m) => match m.checked_add(d) {
                    Some(v) => {
                        acc = v;
                    },
                    None => {
                        over = true;
                    },
                },
                None => {
                    over = true;
                },
            }
        }
        j += 1;
    }
    if over {
        return None;
    }
    Some((acc, e + 1))
}

/// Reads length-prefixed text, as [`parse_str`] describes.
fn scan_text(s: &str, n: usize, i: usize) -> (r: Option<(String, usize)>)
    requires
        n == s@.len(),
        i <= n,
    ensures
        r is None ==> parse_str(s@, i as int) is None,
        r matches Some(p) ==> parse_str(s@, i as int) matches Some(q) && q.0 == p.0@ && q.1
            == p.1 as int && i < p.1 <= n,
{
    match scan_u64(s, n, i) {
        None => None,
        Some((len, j)) => {
            if len > (n - j) as u64 {
                return None;
            }
            let l = len as usize;
            let sub = s.substring_char(j, j + l);
            Some((String::from_str(sub), j + l))
        },
    }
}

/// Reads a running task, as [`parse_started`] describes.
fn scan_started(s: &str, n: usize, i: usize) -> (r: Option<(StartedTask, usize)>)
    requires
        n == s@.len(),
        i <= n,
    ensures
        r is None ==> parse_started(s@, i as int) is None,
        r matches Some(p) ==> parse_started(s@, i as int) matches Some(q) && q.0 == p.0@ && q.1
            == p.1 as int && i < p.1 <= n,
{
    match scan_text(s, n, i) {
        None => None,
        Some((a, j)) => match scan_u64(s, n, j) {
            None => None,
            Some((st, k)) => Some((StartedTask { activity: a, start: st }, k)),
        },
    }
}

/// Reads a finished task, as [`parse_finished`] describes.
fn scan_finished(s: &str, n: usize, i: usize) -> (r: Option<(FinishedTask, usize)>)
    requires
        n == s@.len(),
        i <= n,
    ensures
        r is None ==> parse_finished(s@, i as int) is None,
        r matches Some(p) ==> parse_finished(s@, i as int) matches Some(q) && q.0 == p.0@ && q.1
            == p.1 as int && i < p.1 <= n,
{
    match scan_text(s, n, i) {
        None => None,
        Some((a, j)) => match scan_u64(s, n, j) {
            None => None,
            Some((st, k)) => match scan_u64(s, n, k) {
                None => None,
                Some((en, l)) => match scan_u64(s, n, l) {
                    None => None,
                    Some((du, m)) => Some(
                        (FinishedTask { activity: a, start: st, end: en, duration: du }, m),
                    ),
                },
            },
        },
    }
}

/// Reads a counted run of running tasks, as [`parse_started_seq`]
/// describes.
fn scan_started_list(s: &str, n: usize, i: usize, count: u64) -> (r: Option<
    (Vec<StartedTask>, usize),
>)
    requires
        n == s@.len(),
        i <= n,
    ensures
        r is None ==> parse_started_seq(s@, i as int, count as nat) is None,
        r matches Some(p) ==> parse_started_seq(s@, i as int, count as nat) matches Some(q) && q.0
            == p.0@.map_values(|t: StartedTask| t@) && q.1 == p.1 as int && i <= p.1 <= n,
{
    let mut v: Vec<StartedTask> = Vec::new();
    let mut j = i;
    let mut c: u64 = 0;
    while c < count
        invariant
            c <= count,
            i <= j <= n,
            n == s@.len(),
            ({
                let rest = parse_started_seq(s@, j as int, (count - c) as nat);
                let whole = parse_started_seq(s@, i as int, count as nat);
                match rest {
                    None => whole is None,
                    Some(q) => whole matches Some(w) && w.0 == v@.map_values(|t: StartedTask| t@)
                        + q.0 && w.1 == q.1,
                }
            }),
        decreases count - c,
    {
        let ghost pre = v@.map_values(|t: StartedTask| t@);
        match scan_started(s, n, j) {
            None => {
                return None;
            },
            Some((t, k)) => {
                proof {
                    let tv = t@;
                    let rest2 = parse_started_seq(s@, k as int, (count - c - 1) as nat);
                    match rest2 {
                        None => {},
                        Some(q2) => {
                            assert(pre + (seq![tv] + q2.0) =~= (pre.push(tv)) + q2.0);
                        },
                    }
                }
                v.push(t);
                proof {
                    assert(v@.map_values(|t: StartedTask| t@) =~= pre.push(t@));
                }
                j = k;
                c += 1;
            },
        }
    }
    proof {
        assert(v@.map_values(|t: StartedTask| t@) + Seq::<StartedView>::empty() =~= v@.map_values(
            |t: StartedTask| t@,
        ));
    }
    Some((v, j))
}

/// Reads a counted run of finished tasks, as [`parse_finished_seq`]
/// describes.
fn scan_finished_list(s: &str, n: usize, i: usize, count: u64) -> (r: Option<
    (Vec<FinishedTask>, usize),
>)
    requires
        n == s@.len(),
        i <= n,
    ensures
        r is None ==> parse_finished_seq(s@, i as int, count as nat) is None,
        r matches Some(p) ==> parse_finished_seq(s@, i as int, count as nat) matches Some(q) && q.0
            == p.0@.map_values(|t: FinishedTask| t@) && q.1 == p.1 as int && i <= p.1 <= n,
{
    let mut v: Vec<FinishedTask> = Vec::new();
    let mut j = i;
    let mut c: u64 = 0;
    while c < count
        invariant
            c <= count,
            i <= j <= n,
            n == s@.len(),
            ({
                let rest = parse_finished_seq(s@, j as int, (count - c) as nat);
                let whole = parse_finished_seq(s@, i as int, count as nat);
                match rest {
                    None => whole is None,
                    Some(q) => whole matches Some(w) && w.0 == v@.map_values(|t: FinishedTask| t@)
                        + q.0 && w.1 == q.1,
                }
            }),
        decreases count - c,
    {
        let ghost pre = v@.map_values(|t: FinishedTask| t@);
        match scan_finished(s, n, j) {
            None => {
                return None;
            },
            Some((t, k)) => {
                proof {
                    let tv = t@;
                    let rest2 = parse_finished_seq(s@, k as int, (count - c - 1) as nat);
                    match rest2 {
                        None => {},
                        Some(q2) => {
                            assert(pre + (seq![tv] + q2.0) =~= (pre.push(tv)) + q2.0);
                        },
                    }
                }
                v.push(t);
                proof {
                    assert(v@.map_values(|t: FinishedTask| t@) =~= pre.push(t@));
                }
                j = k;
                c += 1;
            },
        }
    }
    proof {
        assert(v@.map_values(|t: FinishedTask| t@) + Seq::<FinishedView>::empty() =~= v@.map_values(
            |t: FinishedTask| t@,
        ));
    }
    Some((v, j))
}

/// Reads a project, as [`parse_project`] describes.
fn scan_project(s: &str, n: usize, i: usize) -> (r: Option<(Project, usize)>)
    requires
        n == s@.len(),
        i <= n,
    ensures
        r is None ==> parse_project(s@, i as int) is None,
        r matches Some(p) ==> parse_project(s@, i as int) matches Some(q) && q.0 == p.0@ && q.1
            == p.1 as int && i < p.1 <= n,
{
    match scan_text(s, n, i) {
        None => None,
        Some((name, j)) => match scan_u64(s, n, j) {
            None => None,
            Some((ns, k)) => match scan_started_list(s, n, k, ns) {
                None => None,
                Some((sts, l)) => match scan_u64(s, n, l) {
                    None => None,
                    Some((nf, m)) => match scan_finished_list(s, n, m, nf) {
                        None => None,
                        Some((fts, e)) => Some(
                            (Project { name, started: sts, finished: fts }, e),
                        ),
                    },
                },
            },
        },
    }
}

/// Reads a counted run of projects, as [`parse_projects`]
/// describes.
fn scan_projects(s: &str, n: usize, i: usize, count: u64) -> (r: Option<(Vec<Project>, usize)>)
    requires
        n == s@.len(),
        i <= n,
    ensures
        r is None ==> parse_projects(s@, i as int, count as nat) is None,
        r matches Some(p) ==> parse_projects(s@, i as int, count as nat) matches Some(q) && q.0
            == p.0@.map_values(|t: Project| t@) && q.1 == p.1 as int && i <= p.1 <= n,
{
    let mut v: Vec<Project> = Vec::new();
    let mut j = i;
    let mut c: u64 = 0;
    while c < count
        invariant
            c <= count,
            i <= j <= n,
            n == s@.len(),
            ({
                let rest = parse_projects(s@, j as int, (count - c) as nat);
                let whole = parse_projects(s@, i as int, count as nat);
                match rest {
                    None => whole is None,
                    Some(q) => whole matches Some(w) && w.0 == v@.map_values(|t: Project| t@) + q.0
                        && w.1 == q.1,
                }
            }),
        decreases count - c,
    {
        let ghost pre = v@.map_values(|t: Project| t@);
        match scan_project(s, n, j) {
            None => {
                return None;
            },
            Some((t, k)) => {
                proof {
                    let tv = t@;
                    let rest2 = parse_projects(s@, k as int, (count - c - 1) as nat);
                    match rest2 {
                        None => {},
                        Some(q2) => {
                            assert(pre + (seq![tv] + q2.0) =~= (pre.push(tv)) + q2.0);
                        },
                    }
                }
                v.push(t);
                proof {
                    assert(v@.map_values(|t: Project| t@) =~= pre.push(t@));
                }
                j = k;
                c += 1;
            },
        }
    }
    proof {
        assert(v@.map_values(|t: Project| t@) + Seq::<ProjectView>::empty() =~= v@.map_values(
            |t: Project| t@,
        ));
    }
    Some((v, j))
}

impl TimeTracker {
    /// Reads a snapshot back into a tracker.
    ///
    /// Loading succeeds exactly on text that parses as a snapshot of
    /// a well-formed tracker; anything else is rejected with an
    /// error.
    pub fn load(snapshot: &str) -> (r: Result<TimeTracker, String>)
        ensures
            match parse_snapshot(snapshot@) {
                Some(tv) => r matches Ok(t) && t@ == tv && tv.wf(),
                None => r matches Err(m) && m@ == "invalid snapshot"@,
            },
    {
        let n = snapshot.unicode_len();
        match scan_u64(snapshot, n, 0) {
            None => Err(String::from_str("invalid snapshot")),
            Some((count, i)) => match scan_projects(snapshot, n, i, count) {
                None => Err(String::from_str("invalid snapshot")),
                Some((ps, j)) => {
                    if j != n {
                        return Err(String::from_str("invalid snapshot"));
                    }
                    let t = TimeTracker { projects: ps };
                    proof {
                        assert(t@ =~= (TrackerView {
                            projects: ps@.map_values(|p: Project| p@),
                        }));
                    }
                    if t.wf_check() {
                        Ok(t)
                    } else {
                        Err(String::from_str("invalid snapshot"))
                    }
                },
            },
        }
    }
}

/// The snapshot round trip: rendering a well-formed tracker and
/// reading the rendering back yields exactly the same tracker —
/// same project names, same task activities, same lifecycle states,
/// same times and durations.
pub proof fn lemma_snapshot_round_trip(t: TrackerView)
    requires
        t.wf(),
        tv_fits(t),
    ensures
        parse_snapshot(enc_tracker(t)) == Some(t),
{
    let s = enc_tracker(t);
    let a = enc_num(t.projects.len());
    let b = enc_projects(t.projects);
    assert(s.subrange(0, (a.len() + b.len()) as int) =~= a + b);
    lemma_split_at(s, 0, a, b);
    lemma_parse_num_at(s, 0, t.projects.len());
    lemma_parse_projects_at(s, a.len() as int, t.projects);
    assert(TrackerView { projects: t.projects } =~= t);
}

} // verus!
