use darkfi::layer::{dispatch_next, dispatch_start, Dispatch};

fn run(answers: &[bool]) -> (Dispatch, Vec<usize>) {
    let mut asked = vec![];
    let mut step = dispatch_start(answers.len());
    while let Dispatch::Offer(i) = step {
        asked.push(i);
        step = dispatch_next(answers.len(), i, answers[i]);
    }
    (step, asked)
}

#[test]
fn no_children_leaves_event_unhandled() {
    assert_eq!(dispatch_start(0), Dispatch::Unhandled);
    assert_eq!(run(&[]), (Dispatch::Unhandled, vec![]));
}

#[test]
fn first_child_that_takes_event_stops_dispatch() {
    assert_eq!(run(&[false, true, true]), (Dispatch::Handled, vec![0, 1]));
    assert_eq!(run(&[true, false]), (Dispatch::Handled, vec![0]));
}

#[test]
fn all_children_asked_when_none_takes_event() {
    assert_eq!(run(&[false, false, false]), (Dispatch::Unhandled, vec![0, 1, 2]));
    assert_eq!(dispatch_next(3, 1, false), Dispatch::Offer(2));
    assert_eq!(dispatch_next(3, 2, false), Dispatch::Unhandled);
}
