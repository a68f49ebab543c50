use turing_machine::{tm_bar, tm_foo, HeadDirection, Runner, RunnerState, TMBuilder, TransferFnItem, TM};

fn item(from: &str, read: char, to: &str, write: Option<char>, dir: HeadDirection) -> TransferFnItem {
    TransferFnItem::new().from(from, read).to(to, write, dir)
}

fn multiply() -> TM {
    let r = HeadDirection::Right;
    let l = HeadDirection::Left;
    TMBuilder::new()
        .start_state("q0")
        .accept_state("q12")
        .states(vec!["q1", "q2", "q3", "q4", "q5", "q6", "q7", "q8", "q9", "q10", "q10", "q11"])
        .syms(vec!['0', '1'])
        .tape_sym('X')
        .empty_sym('B')
        .transfer_fns(vec![
            item("q0", '0', "q6", Some('B'), r),
            item("q6", '0', "q6", None, r),
            item("q6", '1', "q1", None, r),
            item("q1", '0', "q2", Some('X'), r),
            item("q2", '1', "q2", None, r),
            item("q2", '0', "q2", None, r),
            item("q2", 'B', "q3", Some('0'), l),
            item("q3", '1', "q3", None, l),
            item("q3", '0', "q3", None, l),
            item("q3", 'X', "q1", None, r),
            item("q1", '1', "q4", None, l),
            item("q4", 'X', "q4", Some('0'), l),
            item("q4", '1', "q5", None, r),
            item("q5", '0', "q7", None, l),
            item("q7", '1', "q8", None, l),
            item("q8", '0', "q9", None, l),
            item("q8", 'B', "q10", None, r),
            item("q9", '0', "q9", None, l),
            item("q9", 'B', "q0", None, r),
            item("q10", '1', "q11", Some('B'), r),
            item("q11", '0', "q11", Some('B'), r),
            item("q11", '1', "q12", Some('B'), r),
        ])
        .build()
        .unwrap()
}

fn run_to_end(runner: &mut Runner) -> (RunnerState, usize) {
    let mut steps = 0;
    loop {
        let s = runner.step();
        steps += 1;
        if s != RunnerState::Running {
            return (s, steps);
        }
    }
}

#[test]
fn a_star_accepts_after_seven_steps() {
    let tm = tm_foo();
    let mut runner = Runner::with_tm(&tm);
    runner.feed_str("aaaaaa");
    let (status, steps) = run_to_end(&mut runner);
    assert_eq!(status, RunnerState::Accept);
    assert_eq!(steps, 7);
    assert_eq!(runner.ir().tape_str(), "BaaaaaaB");
    assert_eq!(runner.ir().trimmed_tape_str(), "aaaaaa");
}

#[test]
fn a_star_rejects_other_symbol() {
    let tm = tm_foo();
    let mut runner = Runner::with_tm(&tm);
    runner.feed_str("aab");
    let (status, steps) = run_to_end(&mut runner);
    assert_eq!(status, RunnerState::Reject);
    assert_eq!(steps, 3);
}

#[test]
fn a_n_b_n_accepts_equal_counts() {
    let tm = tm_bar();
    let mut runner = Runner::with_tm(&tm);
    runner.feed_str("aaaaaabbbbbb");
    assert_eq!(run_to_end(&mut runner).0, RunnerState::Accept);
}

#[test]
fn a_n_b_n_rejects_unequal_counts() {
    let tm = tm_bar();
    let mut runner = Runner::with_tm(&tm);
    runner.feed_str("aaabbbbb");
    assert_eq!(run_to_end(&mut runner).0, RunnerState::Reject);
}

#[test]
fn multiply_leaves_the_product() {
    let tm = multiply();
    for (n1, n2) in [(2usize, 3usize), (3, 4), (1, 5)] {
        let input = format!("{}1{}1", "0".repeat(n1), "0".repeat(n2));
        let mut runner = Runner::with_tm(&tm);
        runner.feed_str(&input);
        assert_eq!(run_to_end(&mut runner).0, RunnerState::Accept);
        assert_eq!(runner.ir().trimmed_tape_str().chars().count(), n1 * n2);
    }
}

#[test]
fn build_without_start_state_fails() {
    let r = TMBuilder::new()
        .state("q0")
        .accept_state("q0")
        .sym('a')
        .build();
    match r {
        Err(e) => {
            assert_eq!(e, "No start state specified");
            assert!(e.contains("start state"));
        }
        Ok(_) => panic!("a builder without a start state built a machine"),
    }
}

#[test]
fn build_with_undeclared_transition_state_fails() {
    let r = TMBuilder::new()
        .start_state("q0")
        .accept_state("q1")
        .transfer_fn(item("q0", 'a', "q9", None, HeadDirection::Right))
        .build();
    assert_eq!(r.err().unwrap(), "Transition state not in states set");
}

#[test]
fn build_with_incomplete_item_fails() {
    let r = TMBuilder::new()
        .start_state("q0")
        .transfer_fn(TransferFnItem::new().from("q0", 'a'))
        .build();
    assert_eq!(r.err().unwrap(), "Transition item lacks a source or a target");
}

#[test]
fn later_item_for_same_key_wins() {
    let tm = TMBuilder::new()
        .start_state("q0")
        .states(vec!["q1", "q2"])
        .transfer_fns(vec![
            item("q0", 'a', "q1", None, HeadDirection::Right),
            item("q0", 'a', "q2", Some('z'), HeadDirection::Left),
        ])
        .build()
        .unwrap();
    let q0 = tm.state_id("q0").unwrap();
    let q2 = tm.state_id("q2").unwrap();
    assert_eq!(tm.transfer(q0, 'a'), Some((q2, Some('z'), HeadDirection::Left)));
    assert_eq!(tm.transfer(q0, 'b'), None);
}

#[test]
fn machine_queries() {
    let tm = tm_foo();
    assert_eq!(tm.state_count(), 2);
    let q0 = tm.start_state();
    assert_eq!(tm.state_name(q0), "q0");
    let q1 = tm.state_id("q1").unwrap();
    assert!(tm.accept(q1));
    assert!(!tm.accept(q0));
    assert!(!tm.accept(99));
    assert_eq!(tm.state_id("q7"), None);
    assert_eq!(tm.empty_sym(), 'B');
    assert_eq!(tm.transfer(q0, 'a'), Some((q0, None, HeadDirection::Right)));
}

#[test]
fn declared_empty_symbol_is_used() {
    let tm = TMBuilder::new()
        .start_state("s")
        .accept_state("t")
        .empty_sym('_')
        .transfer_fn(item("s", '_', "t", Some('x'), HeadDirection::Stop))
        .build()
        .unwrap();
    assert_eq!(tm.empty_sym(), '_');
    let mut runner = Runner::with_tm(&tm);
    runner.feed_str("");
    assert_eq!(runner.step(), RunnerState::Accept);
    assert_eq!(runner.ir().tape_str(), "_x");
}
