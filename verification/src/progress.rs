//! The progress channel's message set and the ordering rules a solver run
//! obeys.
//!
//! A run emits an ordered list of messages.  Progress fractions are carried
//! in permille (`0 ..= PROGRESS_FULL`) and never decrease; the run ends with
//! exactly one terminal message (`Done`, `Cancelled` or `Error`), after
//! which nothing follows.

use vstd::prelude::*;

verus! {

/// A progress fraction of 1.0, in permille.
pub const PROGRESS_FULL: u32 = 1000;

/// One message from the solver to the job owner.
#[derive(Clone, Debug)]
pub enum ProgressMsg {
    /// Fraction of the work done so far, in permille.
    Progress(u32),
    /// A work-in-progress preview image: row-major RGB bytes.
    UpdatePreview { width: u32, height: u32, data: Vec<u8> },
    /// A snapshot of the current best assignment.
    UpdateAssignments(Vec<usize>),
    /// The final assignment; emitted exactly once, at the end.
    Done(Vec<usize>),
    /// The run stopped on request; nothing follows.
    Cancelled,
    /// The run failed; nothing follows.
    Error(String),
}

/// Terminal messages end a run.
pub open spec fn is_terminal(m: ProgressMsg) -> bool {
    m is Done || m is Cancelled || m is Error
}

/// A terminal message can only stand at the very end.
pub open spec fn terminal_only_last(log: Seq<ProgressMsg>) -> bool {
    forall|i: int| 0 <= i < log.len() && is_terminal(#[trigger] log[i]) ==> i == log.len() - 1
}

/// The permille values of the `Progress` messages, in emission order.
pub open spec fn progress_values(log: Seq<ProgressMsg>) -> Seq<int>
    decreases log.len(),
{
    if log.len() == 0 {
        Seq::empty()
    } else {
        let rest = progress_values(log.drop_last());
        match log.last() {
            ProgressMsg::Progress(p) => rest.push(p as int),
            _ => rest,
        }
    }
}

/// A sequence that never steps down.
pub open spec fn nondecreasing(s: Seq<int>) -> bool {
    forall|i: int, j: int| 0 <= i <= j < s.len() ==> s[i] <= s[j]
}

/// Every `Progress` value of `log` lies in `[lo, hi]`.
pub open spec fn progress_in_range(log: Seq<ProgressMsg>, lo: int, hi: int) -> bool {
    forall|i: int|
        0 <= i < log.len() ==> ((#[trigger] log[i]) matches ProgressMsg::Progress(p) ==> lo <= p
            <= hi)
}

/// Appending a `Progress` message appends its value.
pub proof fn lemma_progress_values_push_progress(s: Seq<ProgressMsg>, p: u32)
    ensures
        progress_values(s.push(ProgressMsg::Progress(p))) == progress_values(s).push(p as int),
{
    assert(s.push(ProgressMsg::Progress(p)).drop_last() =~= s);
}

/// Appending any other message leaves the values alone.
pub proof fn lemma_progress_values_push_other(s: Seq<ProgressMsg>, m: ProgressMsg)
    requires
        !(m is Progress),
    ensures
        progress_values(s.push(m)) == progress_values(s),
{
    assert(s.push(m).drop_last() =~= s);
}

/// Bounded `Progress` messages give bounded values.
pub proof fn lemma_progress_values_in_range(log: Seq<ProgressMsg>, lo: int, hi: int)
    requires
        progress_in_range(log, lo, hi),
    ensures
        forall|k: int| 0 <= k < progress_values(log).len() ==> lo
            <= #[trigger] progress_values(log)[k] <= hi,
    decreases log.len(),
{
    if log.len() > 0 {
        let rest = log.drop_last();
        assert(progress_in_range(rest, lo, hi)) by {
            assert forall|i: int| 0 <= i < rest.len() implies ((#[trigger] rest[i]) matches
                ProgressMsg::Progress(p) ==> lo <= p <= hi) by {
                assert(rest[i] == log[i]);
            }
        }
        lemma_progress_values_in_range(rest, lo, hi);
        assert(log.last() == log[log.len() - 1]);
        assert forall|k: int| 0 <= k < progress_values(log).len() implies lo
            <= #[trigger] progress_values(log)[k] <= hi by {
            match log.last() {
                ProgressMsg::Progress(p) => {
                    assert(progress_values(log) == progress_values(rest).push(p as int));
                    if k < progress_values(rest).len() {
                        assert(progress_values(log)[k] == progress_values(rest)[k]);
                    } else {
                        assert(progress_values(log)[k] == p as int);
                    }
                },
                _ => {
                    assert(progress_values(log) == progress_values(rest));
                },
            }
        }
    }
}

/// `progress_values` distributes over concatenation.
pub proof fn lemma_progress_values_add(s: Seq<ProgressMsg>, t: Seq<ProgressMsg>)
    ensures
        progress_values(s + t) == progress_values(s) + progress_values(t),
    decreases t.len(),
{
    if t.len() == 0 {
        assert(s + t =~= s);
        assert(progress_values(s) + progress_values(t) =~= progress_values(s));
    } else {
        lemma_progress_values_add(s, t.drop_last());
        assert((s + t).drop_last() =~= s + t.drop_last());
        assert((s + t).last() == t.last());
        match t.last() {
            ProgressMsg::Progress(p) => {
                assert(progress_values(s) + progress_values(t) =~= (progress_values(s)
                    + progress_values(t.drop_last())).push(p as int));
            },
            _ => {
                assert(progress_values(t) == progress_values(t.drop_last()));
            },
        }
    }
}

/// The values of a concatenation stay nondecreasing when the first part is
/// nondecreasing and capped by `mid`, and the second part is nondecreasing
/// and starts at or above `mid`.
pub proof fn lemma_nondecreasing_join(s: Seq<int>, t: Seq<int>, mid: int)
    requires
        nondecreasing(s),
        nondecreasing(t),
        forall|i: int| 0 <= i < s.len() ==> s[i] <= mid,
        forall|j: int| 0 <= j < t.len() ==> t[j] >= mid,
    ensures
        nondecreasing(s + t),
{
    assert forall|i: int, j: int| 0 <= i <= j < (s + t).len() implies (s + t)[i] <= (s + t)[j] by {
        if j < s.len() {
        } else if i >= s.len() {
        } else {
            assert((s + t)[i] == s[i] && (s + t)[j] == t[j - s.len()]);
        }
    }
}

/// Number of `Cancelled` messages in a log.
pub open spec fn cancelled_count(log: Seq<ProgressMsg>) -> int
    decreases log.len(),
{
    if log.len() == 0 {
        0
    } else {
        cancelled_count(log.drop_last()) + if log.last() is Cancelled {
            1int
        } else {
            0int
        }
    }
}

/// A log whose messages are all non-terminal holds no `Cancelled`.
pub proof fn lemma_no_terminal_no_cancelled(log: Seq<ProgressMsg>)
    requires
        forall|i: int| 0 <= i < log.len() ==> !is_terminal(#[trigger] log[i]),
    ensures
        cancelled_count(log) == 0,
    decreases log.len(),
{
    if log.len() > 0 {
        lemma_no_terminal_no_cancelled(log.drop_last());
    }
}

/// A run that ends in `Cancelled`, with terminal messages only at the end,
/// holds exactly one `Cancelled` message.
pub proof fn lemma_cancelled_exactly_once(log: Seq<ProgressMsg>)
    requires
        log.len() > 0,
        log.last() is Cancelled,
        terminal_only_last(log),
    ensures
        cancelled_count(log) == 1,
{
    assert forall|i: int| 0 <= i < log.drop_last().len() implies !is_terminal(
        #[trigger] log.drop_last()[i],
    ) by {
        assert(log.drop_last()[i] == log[i]);
    }
    lemma_no_terminal_no_cancelled(log.drop_last());
}

} // verus!
