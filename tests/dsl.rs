use turing_machine::{parse, Error, HeadDirection, Runner, RunnerState, TMBuilder, TransferFnItem};

const A_STAR: &str = "SymbolSet={a}; FnSet={(q0,a)->(q0,a,R),(q0,B)->(q1,B,L)}; FinalSet={q1};";

fn run(text: &str, input: &str) -> RunnerState {
    let tm = parse(text).unwrap();
    let mut runner = Runner::with_tm(&tm);
    runner.feed_str(input);
    loop {
        let s = runner.step();
        if s != RunnerState::Running {
            return s;
        }
    }
}

#[test]
fn parsed_a_star_accepts() {
    assert_eq!(run(A_STAR, "aaaaaa"), RunnerState::Accept);
}

#[test]
fn parsed_with_comments_and_layout() {
    let text = "
    // StateSet={q0, q1}; ignore state set
    SymbolSet = {a};
    FnSet = {
        (q0, a) -> (q0, a, R),
        (q0, B) -> (q1, B, L)
    };
    // Start = q0;
    FinalSet = {q1};
    // Empty = B;
    ";
    assert_eq!(run(text, "aaaaaa"), RunnerState::Accept);
    assert_eq!(run(text, "aaba"), RunnerState::Reject);
}

#[test]
fn parsed_start_and_empty_blocks() {
    let text = "StateSet={p,h}; SymbolSet={a}; TapeSymbolSet={a,_}; \
                FnSet={(p,a)->(p,a,R),(p,_)->(h,_,S)}; Start=p; FinalSet={h}; Empty=_;";
    let tm = parse(text).unwrap();
    assert_eq!(tm.state_name(tm.start_state()), "p");
    assert_eq!(tm.empty_sym(), '_');
    assert_eq!(run(text, "aa"), RunnerState::Accept);
}

#[test]
fn parsed_start_defaults_to_first_rule() {
    let text = "SymbolSet={a}; FnSet={(s1,a)->(s2,a,R)}; FinalSet={s2};";
    let tm = parse(text).unwrap();
    assert_eq!(tm.state_name(tm.start_state()), "s1");
    assert_eq!(tm.empty_sym(), 'B');
    assert_eq!(tm.state_count(), 2);
}

#[test]
fn parsed_matches_built() {
    let parsed = parse(A_STAR).unwrap();
    let built = TMBuilder::new()
        .start_state("q0")
        .accept_state("q1")
        .sym('a')
        .transfer_fns(vec![
            TransferFnItem::new().from("q0", 'a').to("q0", Some('a'), HeadDirection::Right),
            TransferFnItem::new().from("q0", 'B').to("q1", Some('B'), HeadDirection::Left),
        ])
        .build()
        .unwrap();
    for name in ["q0", "q1"] {
        let s1 = parsed.state_id(name).unwrap();
        let s2 = built.state_id(name).unwrap();
        assert_eq!(parsed.accept(s1), built.accept(s2));
        for c in ['a', 'B', 'x'] {
            let t1 = parsed.transfer(s1, c).map(|(n, w, d)| (parsed.state_name(n).to_string(), w, d));
            let t2 = built.transfer(s2, c).map(|(n, w, d)| (built.state_name(n).to_string(), w, d));
            assert_eq!(t1, t2);
        }
    }
    assert_eq!(parsed.state_name(parsed.start_state()), built.state_name(built.start_state()));
}

#[test]
fn grammar_error_has_location() {
    match parse("SymbolSet = {a}\nFnSet = {};\nFinalSet = {};") {
        Err(Error::Parse(e)) => {
            assert_eq!(e.pos, 16);
            assert_eq!(e.line, 1);
            assert_eq!(e.column, 0);
        }
        _ => panic!("expected a grammar error"),
    }
}

#[test]
fn missing_required_block_is_grammar_error() {
    match parse("SymbolSet={a}; FinalSet={q0};") {
        Err(Error::Parse(e)) => assert_eq!(e.pos, 15),
        _ => panic!("expected a grammar error"),
    }
}

#[test]
fn trailing_text_is_grammar_error() {
    let text = format!("{} extra", A_STAR);
    match parse(&text) {
        Err(Error::Parse(e)) => assert_eq!(e.pos, A_STAR.len() + 1),
        _ => panic!("expected a grammar error"),
    }
}

#[test]
fn invalid_direction_is_semantic_error() {
    match parse("SymbolSet={a}; FnSet={(q0,a)->(q0,a,R),(q0,B)->(q1,B,X)}; FinalSet={q1};") {
        Err(Error::Semantic(m)) => assert_eq!(m, "invalid head direction: X"),
        _ => panic!("expected a semantic error"),
    }
}

#[test]
fn undeclared_state_with_state_set_is_semantic_error() {
    match parse("StateSet={q0}; SymbolSet={a}; FnSet={(q0,a)->(q5,a,R)}; FinalSet={q0};") {
        Err(Error::Semantic(m)) => assert_eq!(m, "Transition state not in states set"),
        _ => panic!("expected a semantic error"),
    }
}

#[test]
fn empty_rule_set_starts_at_q0() {
    let tm = parse("SymbolSet={}; FnSet={}; FinalSet={q0};").unwrap();
    assert_eq!(tm.state_name(tm.start_state()), "q0");
    assert!(tm.accept(tm.start_state()));
}
