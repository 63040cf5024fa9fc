//! The laws of the engine, stated over [`crate::model::spec_step`], the
//! transition function every call of [`crate::HappyEyeballs::process`] is
//! proved to follow.

use vstd::prelude::*;

use crate::events::InputView;
use crate::events::OutputView;
use crate::model::CONNECTION_ATTEMPT_DELAY;
use crate::model::EngineView;
use crate::model::Terminal;
use crate::model::apply_input;
use crate::model::attempt_pending;
use crate::model::first_in_progress;
use crate::model::first_in_progress_from;
use crate::model::has_succeeded;
use crate::model::spec_step;
use crate::model::terminal_output;
use crate::model::times_le;
use crate::model::wf;

verus! {

/// Law: a call never emits both kinds of terminal report, and once one is
/// emitted the engine is terminal: every later call leaves the state
/// unchanged and re-emits the same report. Hence over any sequence of
/// calls at most one of `Succeeded` and `Failed` is ever reported, and
/// after the first terminal report only that same report follows.
pub proof fn lemma_single_terminal(s: EngineView, input: Option<InputView>, now: u64)
    ensures
        ({
            let (s2, out) = spec_step(s, input, now);
            &&& (s.terminal matches Some(t) ==> s2 == s && out == Some(terminal_output(t)))
            &&& (out == Some(OutputView::Succeeded) ==> s2.terminal == Some(Terminal::Succeeded))
            &&& (out == Some(OutputView::Failed) ==> s2.terminal == Some(Terminal::Failed))
            &&& (s2.terminal != s.terminal ==> s.terminal is None)
            &&& (s.terminal is None && out != Some(OutputView::Succeeded) && out != Some(
                OutputView::Failed,
            ) ==> s2.terminal is None)
        }),
{
}

/// Law: whenever a `SendDnsQuery` with some identifier is emitted, the
/// resulting state holds exactly one DNS ledger entry with that
/// identifier: the query just issued.
pub proof fn lemma_send_query_registered(s: EngineView, input: Option<InputView>, now: u64)
    requires
        wf(s),
        times_le(s, now),
    ensures
        ({
            let (s2, out) = spec_step(s, input, now);
            out matches Some(OutputView::SendDnsQuery { id, hostname, record_type }) ==> {
                &&& s2.queries.len() >= 1
                &&& s2.queries.last().id == id
                &&& s2.queries.last().target_name == hostname
                &&& s2.queries.last().record_type == record_type
                &&& forall|i: int|
                    0 <= i < s2.queries.len() && (#[trigger] s2.queries[i]).id == id ==> i
                        == s2.queries.len() - 1
            }
        }),
{
    crate::model::lemma_step_preserves(s, input, now);
    let (s2, out) = spec_step(s, input, now);
    match out {
        Some(OutputView::SendDnsQuery { id, .. }) => {
            let n = s2.queries.len() as int;
            assert forall|i: int| 0 <= i < n && (#[trigger] s2.queries[i]).id == id implies i == n
                - 1 by {
                if i < n - 1 {
                    assert(s2.queries[i].id != s2.queries[n - 1].id);
                }
            }
        },
        _ => {},
    }
}

/// Law: whenever an `AttemptConnection` with some identifier is emitted,
/// the resulting state holds exactly one attempt ledger entry with that
/// identifier — the attempt just issued — and no other attempt with an
/// equal endpoint.
pub proof fn lemma_attempt_registered(s: EngineView, input: Option<InputView>, now: u64)
    requires
        wf(s),
        times_le(s, now),
    ensures
        ({
            let (s2, out) = spec_step(s, input, now);
            out matches Some(OutputView::AttemptConnection { id, endpoint }) ==> {
                &&& s2.attempts.len() >= 1
                &&& s2.attempts.last().id == id
                &&& s2.attempts.last().endpoint == endpoint
                &&& s2.attempts.last().started == now
                &&& s2.attempts.last().status is InProgress
                &&& forall|i: int|
                    0 <= i < s2.attempts.len() && (#[trigger] s2.attempts[i]).id == id ==> i
                        == s2.attempts.len() - 1
                &&& forall|i: int|
                    0 <= i < s2.attempts.len() && (#[trigger] s2.attempts[i]).endpoint == endpoint
                        ==> i == s2.attempts.len() - 1
                &&& !has_succeeded(s2)
                &&& s2.terminal is None
            }
        }),
{
    crate::model::lemma_step_preserves(s, input, now);
    let (s2, out) = spec_step(s, input, now);
    match out {
        Some(OutputView::AttemptConnection { id, endpoint }) => {
            let s1 = apply_input(s, input, now);
            if has_succeeded(s2) {
                let w = choose|w: int|
                    0 <= w < s2.attempts.len() && (#[trigger] s2.attempts[w]).status is Succeeded;
                if w < s1.attempts.len() {
                    assert(s1.attempts[w].status is Succeeded);
                }
            }
            let n = s2.attempts.len() as int;
            assert forall|i: int| 0 <= i < n && (#[trigger] s2.attempts[i]).id == id implies i == n
                - 1 by {
                if i < n - 1 {
                    assert(s2.attempts[i].id != s2.attempts[n - 1].id);
                }
            }
            assert forall|i: int|
                0 <= i < n && (#[trigger] s2.attempts[i]).endpoint == endpoint implies i == n
                - 1 by {
                if i < n - 1 {
                    assert(s2.attempts[i].endpoint != s2.attempts[n - 1].endpoint);
                }
            }
        },
        _ => {},
    }
}

/// Law: in every well-formed state, the DNS ledger entries for any one
/// target name carry strictly increasing record-type ranks, so the record
/// types queried for a name — in order of emission, which is ledger
/// order — form a subsequence of HTTPS, AAAA, A.
pub proof fn lemma_query_order(s: EngineView, nm: Seq<char>)
    requires
        wf(s),
    ensures
        forall|i: int, j: int|
            0 <= i < j < s.queries.len() && (#[trigger] s.queries[i]).target_name == nm && (
            #[trigger] s.queries[j]).target_name == nm ==> crate::model::rt_rank(
                s.queries[i].record_type,
            ) < crate::model::rt_rank(s.queries[j].record_type),
{
}

/// Law: in every well-formed state, the DNS ledger holds at most one
/// query per (target name, record type) pair, and every identifier is
/// carried by at most one ledger entry across both ledgers.
pub proof fn lemma_ledger_entries_unique(s: EngineView)
    requires
        wf(s),
    ensures
        forall|i: int, j: int|
            0 <= i < j < s.queries.len() ==> !((#[trigger] s.queries[i]).target_name == (
            #[trigger] s.queries[j]).target_name && s.queries[i].record_type
                == s.queries[j].record_type),
        forall|i: int, j: int|
            0 <= i < j < s.attempts.len() ==> (#[trigger] s.attempts[i]).id != (
            #[trigger] s.attempts[j]).id,
        forall|i: int, j: int|
            0 <= i < s.queries.len() && 0 <= j < s.attempts.len() ==> (
            #[trigger] s.queries[i]).id != (#[trigger] s.attempts[j]).id,
{
}

/// Law: a call never rewrites the ledger: existing entries keep their
/// identifier, name and record type, and a `SendDnsQuery` output appends
/// exactly one entry, so ledger order is emission order.
pub proof fn lemma_ledger_append_only(s: EngineView, input: Option<InputView>, now: u64)
    requires
        wf(s),
    ensures
        ({
            let (s2, out) = spec_step(s, input, now);
            &&& s2.queries.len() >= s.queries.len()
            &&& s2.queries.len() <= s.queries.len() + 1
            &&& (forall|i: int|
                0 <= i < s.queries.len() ==> (#[trigger] s2.queries[i]).id == s.queries[i].id
                    && s2.queries[i].target_name == s.queries[i].target_name
                    && s2.queries[i].record_type == s.queries[i].record_type)
            &&& ((out matches Some(OutputView::SendDnsQuery { .. })) <==> s2.queries.len()
                == s.queries.len() + 1)
        }),
{
}

/// Law: an `AttemptConnection` is only ever emitted while every attempt
/// still in progress is at least the Connection Attempt Delay old; since
/// an emitted attempt starts at the `now` of its call and stays in
/// progress until a `ConnectionResult` arrives for it, two successive
/// `AttemptConnection` emissions without an intervening
/// `ConnectionResult` are at least the Connection Attempt Delay apart.
pub proof fn lemma_attempt_stagger(s: EngineView, input: Option<InputView>, now: u64)
    requires
        wf(s),
        !(input matches Some(InputView::ConnectionResult { .. })),
    ensures
        ({
            let (s2, out) = spec_step(s, input, now);
            out matches Some(OutputView::AttemptConnection { .. }) ==> forall|i: int|
                0 <= i < s.attempts.len() && (#[trigger] s.attempts[i]).status is InProgress
                    ==> now >= s.attempts[i].started + CONNECTION_ATTEMPT_DELAY
        }),
{
    let s1 = apply_input(s, input, now);
    assert(s1.attempts =~= s.attempts);
    let (s2, out) = spec_step(s, input, now);
    match out {
        Some(OutputView::AttemptConnection { .. }) => {
            assert(crate::model::stagger_clear(s1, now));
            assert forall|i: int|
                0 <= i < s.attempts.len() && (#[trigger] s.attempts[i]).status is InProgress implies now
                >= s.attempts[i].started + CONNECTION_ATTEMPT_DELAY by {
                assert(!crate::model::in_cad_window(s1.attempts[i], now));
            }
        },
        _ => {},
    }
}

/// Law: while no attempt has succeeded, a call that carries no
/// `ConnectionResult` leaves every attempt entry unchanged (new ones may
/// be appended); in particular an in-progress attempt stays in progress
/// and no success appears on its own.
pub proof fn lemma_no_result_keeps_attempts(s: EngineView, input: Option<InputView>, now: u64)
    requires
        wf(s),
        !(input matches Some(InputView::ConnectionResult { .. })),
        !has_succeeded(s),
        s.terminal is None,
    ensures
        ({
            let (s2, out) = spec_step(s, input, now);
            &&& s2.attempts.len() >= s.attempts.len()
            &&& (forall|i: int|
                0 <= i < s.attempts.len() ==> (#[trigger] s2.attempts[i]) == s.attempts[i])
            &&& !has_succeeded(s2)
            &&& (attempt_pending(s) ==> s2.terminal is None)
        }),
{
    let s1 = apply_input(s, input, now);
    assert(s1.attempts =~= s.attempts);
    assert(!has_succeeded(s1));
    if attempt_pending(s) {
        let w = choose|w: int|
            0 <= w < s.attempts.len() && (#[trigger] s.attempts[w]).status is InProgress;
        assert(s1.attempts[w].status is InProgress);
        assert(attempt_pending(s1));
    }
    let (s2, out) = spec_step(s, input, now);
    if has_succeeded(s2) {
        let i = choose|i: int|
            0 <= i < s2.attempts.len() && (#[trigger] s2.attempts[i]).status is Succeeded;
        if i < s1.attempts.len() {
            assert(s1.attempts[i].status is Succeeded);
        }
    }
}

/// The number of attempts still in progress.
pub open spec fn in_progress_count(ats: Seq<crate::ledger::AttemptView>) -> int
    decreases ats.len(),
{
    if ats.len() == 0 {
        0
    } else {
        in_progress_count(ats.drop_last()) + if ats.last().status is InProgress {
            1int
        } else {
            0int
        }
    }
}

/// Replacing one entry changes the count by the difference the entry
/// makes.
pub proof fn lemma_count_update(ats: Seq<crate::ledger::AttemptView>, i: int, a: crate::ledger::AttemptView)
    requires
        0 <= i < ats.len(),
    ensures
        in_progress_count(ats.update(i, a)) == in_progress_count(ats) - (
        if ats[i].status is InProgress {
            1int
        } else {
            0int
        }) + (if a.status is InProgress {
            1int
        } else {
            0int
        }),
    decreases ats.len(),
{
    if i == ats.len() - 1 {
        assert(ats.update(i, a).drop_last() =~= ats.drop_last());
    } else {
        assert(ats.update(i, a).drop_last() =~= ats.drop_last().update(i, a));
        lemma_count_update(ats.drop_last(), i, a);
    }
}

/// A zero count means no attempt is in progress, and conversely.
pub proof fn lemma_count_zero(ats: Seq<crate::ledger::AttemptView>)
    ensures
        (in_progress_count(ats) == 0) <==> (forall|i: int|
            0 <= i < ats.len() ==> !((#[trigger] ats[i]).status is InProgress)),
        in_progress_count(ats) >= 0,
    decreases ats.len(),
{
    if ats.len() > 0 {
        lemma_count_zero(ats.drop_last());
        if in_progress_count(ats) == 0 {
            assert forall|i: int|
                0 <= i < ats.len() implies !((#[trigger] ats[i]).status is InProgress) by {
                if i < ats.len() - 1 {
                    assert(ats.drop_last()[i] == ats[i]);
                }
            }
        } else if forall|i: int| 0 <= i < ats.len() ==> !((#[trigger] ats[i]).status is InProgress) {
            assert forall|i: int|
                0 <= i < ats.drop_last().len() implies !((
            #[trigger] ats.drop_last()[i]).status is InProgress) by {
                assert(ats.drop_last()[i] == ats[i]);
            }
        }
    }
}

/// Law: once an attempt has succeeded, each call cancels one remaining
/// in-progress attempt — emitting `CancelConnection` with its address,
/// marking the attempt and lowering the in-progress count by exactly
/// one — until none remains, and only then is `Succeeded` reported. So
/// every in-progress attempt receives a cancellation before the terminal
/// success report.
pub proof fn lemma_success_cancels_before_terminal(
    s: EngineView,
    input: Option<InputView>,
    now: u64,
)
    requires
        wf(s),
        s.terminal is None,
    ensures
        ({
            let s1 = apply_input(s, input, now);
            let (s2, out) = spec_step(s, input, now);
            &&& (has_succeeded(s1) ==> (first_in_progress(s1) matches Some(i) ==> out == Some(
                OutputView::CancelConnection(s1.attempts[i].endpoint.address),
            ) && s2.attempts[i].status is Failed && in_progress_count(s2.attempts)
                == in_progress_count(s1.attempts) - 1 && !(out matches Some(
                OutputView::Succeeded,
            ))))
            &&& (has_succeeded(s1) && first_in_progress(s1) is None ==> out == Some(
                OutputView::Succeeded,
            ))
            &&& (out == Some(OutputView::Succeeded) ==> !attempt_pending(s1)
                && in_progress_count(s1.attempts) == 0)
        }),
{
    let s1 = apply_input(s, input, now);
    crate::model::lemma_first_in_progress_bounds(s1, 0);
    if has_succeeded(s1) {
        match first_in_progress(s1) {
            Some(i) => {
                let (s2, _) = spec_step(s, input, now);
                lemma_count_update(s1.attempts, i, s2.attempts[i]);
            },
            None => {
                lemma_first_in_progress_none(s1, 0);
                lemma_count_zero(s1.attempts);
            },
        }
    }
}

// ---------------------------------------------------------------------
// Whole runs: a sequence of calls from one starting state
// ---------------------------------------------------------------------
/// The state after the first `k` calls of a run; each call is an optional
/// input with its timestamp.
pub open spec fn state_after(
    s0: EngineView,
    calls: Seq<(Option<InputView>, u64)>,
    k: int,
) -> EngineView
    decreases k,
{
    if k <= 0 {
        s0
    } else {
        spec_step(state_after(s0, calls, k - 1), calls[k - 1].0, calls[k - 1].1).0
    }
}

/// The output of call `k` of a run.
pub open spec fn output_at(s0: EngineView, calls: Seq<(Option<InputView>, u64)>, k: int) -> Option<
    OutputView,
> {
    spec_step(state_after(s0, calls, k), calls[k].0, calls[k].1).1
}

/// The timestamps of a run never go backwards.
pub open spec fn nows_monotone(calls: Seq<(Option<InputView>, u64)>) -> bool {
    forall|a: int, b: int|
        0 <= a <= b < calls.len() ==> (#[trigger] calls[a]).1 <= (#[trigger] calls[b]).1
}

/// Along a run with monotone timestamps, every reached state is
/// well-formed and carries only past timestamps.
pub proof fn lemma_trace_wf(s0: EngineView, calls: Seq<(Option<InputView>, u64)>, k: int)
    requires
        wf(s0),
        calls.len() > 0 ==> times_le(s0, calls[0].1),
        nows_monotone(calls),
        0 <= k <= calls.len(),
    ensures
        wf(state_after(s0, calls, k)),
        k < calls.len() ==> times_le(state_after(s0, calls, k), calls[k].1),
    decreases k,
{
    if k > 0 {
        lemma_trace_wf(s0, calls, k - 1);
        crate::model::lemma_step_preserves(
            state_after(s0, calls, k - 1),
            calls[k - 1].0,
            calls[k - 1].1,
        );
        if k < calls.len() {
            crate::model::lemma_times_le_mono(
                state_after(s0, calls, k),
                calls[k - 1].1,
                calls[k].1,
            );
        }
    }
}

/// A terminal report, once present, stays unchanged along a run.
pub proof fn lemma_trace_terminal_persists(
    s0: EngineView,
    calls: Seq<(Option<InputView>, u64)>,
    j: int,
    k: int,
    t: Terminal,
)
    requires
        0 <= j <= k <= calls.len(),
        state_after(s0, calls, j).terminal == Some(t),
    ensures
        state_after(s0, calls, k).terminal == Some(t),
    decreases k - j,
{
    if j < k {
        lemma_trace_terminal_persists(s0, calls, j, k - 1, t);
    }
}

/// Law (over whole runs): once a call reports one terminal outcome, every
/// later call reports exactly that outcome again. So at most one
/// `Succeeded` and at most one `Failed` can ever be reported before the
/// run becomes a constant repetition of the first terminal report, and
/// the two never both occur.
pub proof fn lemma_trace_single_terminal(
    s0: EngineView,
    calls: Seq<(Option<InputView>, u64)>,
    j: int,
    t: Terminal,
)
    requires
        0 <= j < calls.len(),
        output_at(s0, calls, j) == Some(terminal_output(t)),
    ensures
        forall|m: int|
            j < m < calls.len() ==> output_at(s0, calls, m) == Some(terminal_output(t)),
{
    let sj = state_after(s0, calls, j);
    lemma_single_terminal(sj, calls[j].0, calls[j].1);
    assert(state_after(s0, calls, j + 1).terminal == Some(t));
    assert forall|m: int| j < m < calls.len() implies output_at(s0, calls, m) == Some(
        terminal_output(t),
    ) by {
        lemma_trace_terminal_persists(s0, calls, j + 1, m, t);
    }
}

/// While no `ConnectionResult` is delivered, an attempt issued earlier in
/// the run stays exactly as issued, no success appears, and the engine
/// stays non-terminal.
pub proof fn lemma_trace_no_result_stable(
    s0: EngineView,
    calls: Seq<(Option<InputView>, u64)>,
    j1: int,
    m: int,
    idx: int,
)
    requires
        wf(s0),
        calls.len() > 0 ==> times_le(s0, calls[0].1),
        nows_monotone(calls),
        0 <= j1 <= m <= calls.len(),
        !has_succeeded(state_after(s0, calls, j1)),
        state_after(s0, calls, j1).terminal is None,
        0 <= idx < state_after(s0, calls, j1).attempts.len(),
        state_after(s0, calls, j1).attempts[idx].status is InProgress,
        forall|n: int|
            j1 <= n < m ==> !((#[trigger] calls[n]).0 matches Some(
                InputView::ConnectionResult { .. },
            )),
    ensures
        ({
            let sm = state_after(s0, calls, m);
            &&& idx < sm.attempts.len()
            &&& sm.attempts[idx] == state_after(s0, calls, j1).attempts[idx]
            &&& !has_succeeded(sm)
            &&& sm.terminal is None
        }),
    decreases m - j1,
{
    if m > j1 {
        lemma_trace_no_result_stable(s0, calls, j1, m - 1, idx);
        let prev = state_after(s0, calls, m - 1);
        lemma_trace_wf(s0, calls, m - 1);
        assert(attempt_pending(prev)) by {
            assert(prev.attempts[idx].status is InProgress);
        }
        lemma_no_result_keeps_attempts(prev, calls[m - 1].0, calls[m - 1].1);
    }
}

/// Law (over whole runs): two `AttemptConnection` emissions with no
/// `ConnectionResult` delivered in between are at least the Connection
/// Attempt Delay apart in their timestamps.
pub proof fn lemma_trace_attempt_gap(
    s0: EngineView,
    calls: Seq<(Option<InputView>, u64)>,
    j: int,
    k: int,
)
    requires
        wf(s0),
        times_le(s0, calls[0].1),
        nows_monotone(calls),
        0 <= j < k < calls.len(),
        output_at(s0, calls, j) matches Some(OutputView::AttemptConnection { .. }),
        output_at(s0, calls, k) matches Some(OutputView::AttemptConnection { .. }),
        forall|n: int|
            j < n <= k ==> !((#[trigger] calls[n]).0 matches Some(
                InputView::ConnectionResult { .. },
            )),
    ensures
        calls[k].1 >= calls[j].1 + CONNECTION_ATTEMPT_DELAY,
{
    let sj = state_after(s0, calls, j);
    lemma_trace_wf(s0, calls, j);
    lemma_attempt_registered(sj, calls[j].0, calls[j].1);
    let sj1 = state_after(s0, calls, j + 1);
    let idx = sj1.attempts.len() - 1;
    assert(sj1.attempts[idx].status is InProgress && sj1.attempts[idx].started == calls[j].1);
    lemma_trace_no_result_stable(s0, calls, j + 1, k, idx);
    let sk = state_after(s0, calls, k);
    lemma_trace_wf(s0, calls, k);
    lemma_attempt_stagger(sk, calls[k].0, calls[k].1);
    assert(sk.attempts[idx].status is InProgress);
}

/// When the scan finds no in-progress attempt, none exists from that
/// point on.
pub proof fn lemma_first_in_progress_none(s: EngineView, j: int)
    requires
        j >= 0,
        first_in_progress_from(s, j) is None,
    ensures
        forall|i: int|
            j <= i < s.attempts.len() ==> !((#[trigger] s.attempts[i]).status is InProgress),
    decreases s.attempts.len() - j,
{
    if 0 <= j < s.attempts.len() {
        lemma_first_in_progress_none(s, j + 1);
    }
}

} // verus!
