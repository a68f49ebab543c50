use crate::tm::{BuilderModel, HeadDirection, ItemModel, TMBuilder, TransferFnItem, TM};
use vstd::prelude::*;

verus! {

/// A transition item that writes nothing.
pub open spec fn moving(from: Seq<char>, read: char, to: Seq<char>, dir: HeadDirection) -> ItemModel {
    ItemModel { from: Some((from, read)), to: Some((to, None, dir)) }
}

/// The definition of a machine that accepts the words of `a`s: it moves
/// right over them and accepts at the first empty cell.
pub open spec fn a_star_def() -> BuilderModel {
    BuilderModel {
        states: seq!["q0"@, "q1"@],
        start: Some("q0"@),
        accept: seq!["q1"@],
        syms: seq!['a'],
        tape_syms: seq!['a'],
        empty: None,
        items: seq![
            moving("q0"@, 'a', "q0"@, HeadDirection::Right),
            moving("q0"@, 'B', "q1"@, HeadDirection::Left),
        ],
    }
}

/// The machine of `a_star_def`.
pub fn tm_foo() -> (r: TM)
    ensures
        r@.built_from(a_star_def()),
{
    let items = vec![
        TransferFnItem::new().from("q0", 'a').to("q0", None, HeadDirection::Right),
        TransferFnItem::new().from("q0", 'B').to("q1", None, HeadDirection::Left),
    ];
    let b = TMBuilder::new().start_state("q0").accept_state("q1").sym('a').transfer_fns(items);
    proof {
        let d = a_star_def();
        assert(b@.states =~= d.states);
        assert(b@.accept =~= d.accept);
        assert(b@.syms =~= d.syms);
        assert(b@.tape_syms =~= d.tape_syms);
        assert(b@.items =~= d.items);
        assert(b@ == d);
        assert(d.states[0] == "q0"@);
        assert(d.states[1] == "q1"@);
        assert(d.build_error() is None);
    }
    match b.build() {
        Ok(m) => m,
        Err(_) => unreached(),
    }
}

/// The definition of a machine that accepts the words `a`^n `b`^n: it marks
/// the leftmost `a` with `x` and the leftmost `b` with `y`, and accepts when
/// only marks are left.
pub open spec fn a_n_b_n_def() -> BuilderModel {
    BuilderModel {
        states: seq!["q0"@, "q1"@, "q2"@, "q3"@, "q4"@, "q4"@],
        start: Some("q0"@),
        accept: seq!["q4"@],
        syms: seq!['a', 'b'],
        tape_syms: seq!['a', 'b', 'B', 'x', 'y'],
        empty: Some('B'),
        items: seq![
            ItemModel { from: Some(("q0"@, 'a')), to: Some(("q1"@, Some('x'), HeadDirection::Right)) },
            moving("q0"@, 'y', "q3"@, HeadDirection::Right),
            moving("q1"@, 'a', "q1"@, HeadDirection::Right),
            moving("q1"@, 'y', "q1"@, HeadDirection::Right),
            ItemModel { from: Some(("q1"@, 'b')), to: Some(("q2"@, Some('y'), HeadDirection::Left)) },
            moving("q2"@, 'a', "q2"@, HeadDirection::Left),
            moving("q2"@, 'y', "q2"@, HeadDirection::Left),
            moving("q2"@, 'x', "q0"@, HeadDirection::Right),
            moving("q3"@, 'y', "q3"@, HeadDirection::Right),
            moving("q3"@, 'B', "q4"@, HeadDirection::Left),
        ],
    }
}

/// The machine of `a_n_b_n_def`.
#[verifier::rlimit(40)]
pub fn tm_bar() -> (r: TM)
    ensures
        r@.built_from(a_n_b_n_def()),
{
    let items = vec![
        TransferFnItem::new().from("q0", 'a').to("q1", Some('x'), HeadDirection::Right),
        TransferFnItem::new().from("q0", 'y').to("q3", None, HeadDirection::Right),
        TransferFnItem::new().from("q1", 'a').to("q1", None, HeadDirection::Right),
        TransferFnItem::new().from("q1", 'y').to("q1", None, HeadDirection::Right),
        TransferFnItem::new().from("q1", 'b').to("q2", Some('y'), HeadDirection::Left),
        TransferFnItem::new().from("q2", 'a').to("q2", None, HeadDirection::Left),
        TransferFnItem::new().from("q2", 'y').to("q2", None, HeadDirection::Left),
        TransferFnItem::new().from("q2", 'x').to("q0", None, HeadDirection::Right),
        TransferFnItem::new().from("q3", 'y').to("q3", None, HeadDirection::Right),
        TransferFnItem::new().from("q3", 'B').to("q4", None, HeadDirection::Left),
    ];
    let b = TMBuilder::new()
        .start_state("q0")
        .states(vec!["q1", "q2", "q3", "q4"])
        .accept_state("q4")
        .syms(vec!['a', 'b'])
        .empty_sym('B')
        .tape_syms(vec!['x', 'y'])
        .transfer_fns(items);
    proof {
        let d = a_n_b_n_def();
        assert(b@.states =~= d.states);
        assert(b@.accept =~= d.accept);
        assert(b@.syms =~= d.syms);
        assert(b@.tape_syms =~= d.tape_syms);
        assert(b@.items =~= d.items);
        assert(b@ == d);
        assert(d.states[0] == "q0"@);
        assert(d.states[1] == "q1"@);
        assert(d.states[2] == "q2"@);
        assert(d.states[3] == "q3"@);
        assert(d.states[4] == "q4"@);
        assert(d.build_error() is None);
    }
    match b.build() {
        Ok(m) => m,
        Err(_) => unreached(),
    }
}

} // verus!
