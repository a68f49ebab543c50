use turing_machine::{HeadDirection, Runner, RunnerState, TMBuilder, TransferFnItem, TM};

fn item(from: &str, read: char, to: &str, write: Option<char>, dir: HeadDirection) -> TransferFnItem {
    TransferFnItem::new().from(from, read).to(to, write, dir)
}

fn a_star() -> TM {
    TMBuilder::new()
        .start_state("q0")
        .accept_state("q1")
        .sym('a')
        .transfer_fns(vec![
            item("q0", 'a', "q0", None, HeadDirection::Right),
            item("q0", 'B', "q1", None, HeadDirection::Left),
        ])
        .build()
        .unwrap()
}

fn leftward() -> TM {
    TMBuilder::new()
        .start_state("q0")
        .states(vec!["q1", "q2"])
        .accept_state("q3")
        .sym('a')
        .transfer_fns(vec![
            item("q0", 'a', "q1", None, HeadDirection::Left),
            item("q1", 'B', "q2", Some('x'), HeadDirection::Left),
            item("q2", 'B', "q3", Some('y'), HeadDirection::Right),
        ])
        .build()
        .unwrap()
}

fn finish(runner: &mut Runner) -> RunnerState {
    loop {
        let s = runner.step();
        if s != RunnerState::Running {
            return s;
        }
    }
}

#[test]
fn fresh_runner_is_hungry() {
    let tm = a_star();
    let mut runner = Runner::with_tm(&tm);
    assert_eq!(runner.ir().runner_state(), RunnerState::Hungry);
    assert_eq!(runner.step(), RunnerState::Hungry);
    assert_eq!(runner.ir().render(), "Hungry\nB<q0>B");
    assert_eq!(runner.ir().tape_str(), "B");
}

#[test]
fn snapshot_twice_is_the_same() {
    let tm = a_star();
    let mut runner = Runner::with_tm(&tm);
    runner.feed_str("aa");
    runner.step();
    let first = runner.ir().render();
    let second = runner.ir().render();
    assert_eq!(first, second);
    assert_eq!(runner.ir().tape_str(), runner.ir().tape_str());
    assert_eq!(first, "Running\nBa<q0>aB");
}

#[test]
fn render_after_feed() {
    let tm = a_star();
    let mut runner = Runner::with_tm(&tm);
    runner.feed_str("aa");
    assert_eq!(runner.ir().render(), "Running\nB<q0>aaB");
    assert_eq!(runner.ir().state_name(), "q0");
}

#[test]
fn refeed_after_halt_is_fresh() {
    let tm = a_star();
    let mut used = Runner::with_tm(&tm);
    used.feed_str("ab");
    assert_eq!(finish(&mut used), RunnerState::Reject);
    used.feed_str("aaa");
    let mut fresh = Runner::with_tm(&tm);
    fresh.feed_str("aaa");
    assert_eq!(used.ir().render(), fresh.ir().render());
    loop {
        let a = used.step();
        let b = fresh.step();
        assert_eq!(a, b);
        assert_eq!(used.ir().render(), fresh.ir().render());
        if a != RunnerState::Running {
            break;
        }
    }
    assert_eq!(used.ir().runner_state(), RunnerState::Accept);
}

#[test]
fn halted_runner_does_not_move() {
    let tm = a_star();
    let mut runner = Runner::with_tm(&tm);
    runner.feed_str("a");
    assert_eq!(finish(&mut runner), RunnerState::Accept);
    let before = runner.ir().render();
    assert_eq!(runner.step(), RunnerState::Accept);
    assert_eq!(runner.ir().render(), before);
}

#[test]
fn tape_grows_left_of_origin() {
    let tm = leftward();
    let mut runner = Runner::with_tm(&tm);
    runner.feed_str("a");
    assert_eq!(finish(&mut runner), RunnerState::Accept);
    let ir = runner.ir();
    assert_eq!(ir.tape_str(), "yxaB");
    assert_eq!(ir.render(), "Accept\ny<q3>xaB");
    assert_eq!(ir.trimmed_tape_str(), "yxa");
    assert_eq!(ir.current_state(), tm.state_id("q3").unwrap());
}

#[test]
fn trimmed_tape_of_blank_tape_is_empty() {
    let tm = a_star();
    let mut runner = Runner::with_tm(&tm);
    runner.feed_str("");
    assert_eq!(finish(&mut runner), RunnerState::Accept);
    assert_eq!(runner.ir().trimmed_tape_str(), "");
    assert_eq!(runner.ir().render(), "Accept\nB<q1>BB");
}
