use vstd::prelude::*;

verus! {

/// What a layer does next while it offers an input event to its children, which it
/// asks one after another in their drawing order.
#[derive(Clone, Copy, PartialEq, Eq, Debug)]
pub enum Dispatch {
    /// Offer the event to the child at this index.
    Offer(usize),
    /// A child took the event; the layer reports it handled.
    Handled,
    /// No child took the event; the layer reports it unhandled.
    Unhandled,
}

/// The first step for a layer with `child_count` children.
pub open spec fn spec_dispatch_start(child_count: nat) -> Dispatch {
    if child_count == 0 {
        Dispatch::Unhandled
    } else {
        Dispatch::Offer(0)
    }
}

/// The step after child `idx` answered whether it took the event.
pub open spec fn spec_dispatch_next(child_count: nat, idx: nat, handled: bool) -> Dispatch {
    if handled {
        Dispatch::Handled
    } else if idx + 1 < child_count {
        Dispatch::Offer((idx + 1) as usize)
    } else {
        Dispatch::Unhandled
    }
}

/// Where a layer ends when its children would answer `answers`, starting from `step`.
pub open spec fn dispatch_outcome(answers: Seq<bool>, step: Dispatch) -> Dispatch
    decreases answers.len() - (match step {
        Dispatch::Offer(i) => i as int,
        _ => answers.len() as int,
    }),
{
    match step {
        Dispatch::Offer(i) => if i < answers.len() && answers.len() <= usize::MAX {
            dispatch_outcome(answers, spec_dispatch_next(answers.len(), i as nat, answers[i as int]))
        } else {
            step
        },
        _ => step,
    }
}

/// The first step of dispatching an event among `child_count` children.
pub fn dispatch_start(child_count: usize) -> (step: Dispatch)
    ensures
        step == spec_dispatch_start(child_count as nat),
{
    if child_count == 0 {
        Dispatch::Unhandled
    } else {
        Dispatch::Offer(0)
    }
}

/// The next step once child `idx` of `child_count` has answered: a child that takes the
/// event ends the dispatch, otherwise the next child is asked, and after the last one
/// the event is unhandled.
pub fn dispatch_next(child_count: usize, idx: usize, handled: bool) -> (step: Dispatch)
    requires
        idx < child_count,
    ensures
        step == spec_dispatch_next(child_count as nat, idx as nat, handled),
{
    if handled {
        Dispatch::Handled
    } else if idx + 1 < child_count {
        Dispatch::Offer(idx + 1)
    } else {
        Dispatch::Unhandled
    }
}

/// From child `i` on, the dispatch ends handled exactly when a child from `i` on
/// takes the event.
proof fn lemma_outcome_from(answers: Seq<bool>, i: nat)
    requires
        i < answers.len(),
        answers.len() <= usize::MAX,
    ensures
        (dispatch_outcome(answers, Dispatch::Offer(i as usize)) == Dispatch::Handled) <==> (exists|
            j: int,
        | i <= j < answers.len() && answers[j]),
        dispatch_outcome(answers, Dispatch::Offer(i as usize)) != Dispatch::Handled
            ==> dispatch_outcome(answers, Dispatch::Offer(i as usize)) == Dispatch::Unhandled,
    decreases answers.len() - i,
{
    let next = spec_dispatch_next(answers.len(), i, answers[i as int]);
    assert((i as usize) as nat == i);
    assert(dispatch_outcome(answers, Dispatch::Offer(i as usize)) == dispatch_outcome(answers, next));
    if answers[i as int] {
        assert(dispatch_outcome(answers, next) == Dispatch::Handled);
    } else if i + 1 < answers.len() {
        assert(next == Dispatch::Offer((i + 1) as usize));
        lemma_outcome_from(answers, i + 1);
        if exists|j: int| i <= j < answers.len() && answers[j] {
            let j = choose|j: int| i <= j < answers.len() && answers[j];
            assert(i + 1 <= j);
        }
    } else {
        assert(dispatch_outcome(answers, next) == Dispatch::Unhandled);
        assert forall|j: int| i <= j < answers.len() implies !answers[j] by {
            assert(j == i);
        }
    }
}

/// A layer reports an event handled exactly when one of its children takes it, and
/// otherwise reports it unhandled; a layer with no children never handles an event.
pub proof fn lemma_dispatch_handled_iff_some_child(answers: Seq<bool>)
    requires
        answers.len() <= usize::MAX,
    ensures
        (dispatch_outcome(answers, spec_dispatch_start(answers.len())) == Dispatch::Handled) <==> (
        exists|j: int| 0 <= j < answers.len() && answers[j]),
        dispatch_outcome(answers, spec_dispatch_start(answers.len())) == Dispatch::Handled
            || dispatch_outcome(answers, spec_dispatch_start(answers.len())) == Dispatch::Unhandled,
{
    if answers.len() > 0 {
        lemma_outcome_from(answers, 0);
    }
}

} // verus!
