use std::collections::HashMap;
use vstd::prelude::*;
use vstd::string::StringExecFns;

verus! {

/// A state, as a handle into the machine's table of state names.
pub type State = usize;

/// A tape symbol.
pub type Symbol = char;

/// Moving direction of the tape head.
#[derive(Debug, PartialEq, Eq, Clone, Copy, Structural)]
pub enum HeadDirection {
    Left,
    Right,
    Stop,
}

/// The source of a transition: state name and symbol read.
pub type SourceModel = (Seq<char>, char);

/// The target of a transition: state name, symbol written (if any), head move.
pub type TargetModel = (Seq<char>, Option<char>, HeadDirection);

/// What a transition item holds, with state names as character sequences.
pub struct ItemModel {
    pub from: Option<SourceModel>,
    pub to: Option<TargetModel>,
}

impl ItemModel {
    pub open spec fn complete(self) -> bool {
        self.from is Some && self.to is Some
    }
}

/// One transition as declared by a user, before state names are resolved.
pub struct TransferFnItem {
    from: Option<(String, Symbol)>,
    to: Option<(String, Option<Symbol>, HeadDirection)>,
}

impl View for TransferFnItem {
    type V = ItemModel;

    closed spec fn view(&self) -> ItemModel {
        ItemModel {
            from: match self.from {
                Some((s, c)) => Some((s@, c)),
                None => None,
            },
            to: match self.to {
                Some((s, w, d)) => Some((s@, w, d)),
                None => None,
            },
        }
    }
}

impl TransferFnItem {
    /// An item with neither source nor target.
    pub fn new() -> (r: Self)
        ensures
            r@.from is None,
            r@.to is None,
    {
        TransferFnItem { from: None, to: None }
    }

    /// Sets the state and the symbol that the transition starts from.
    pub fn from(self, s: &str, sym: Symbol) -> (r: Self)
        ensures
            r@.from == Some((s@, sym)),
            r@.to == self@.to,
    {
        TransferFnItem { from: Some((s.to_owned(), sym)), to: self.to }
    }

    /// Sets the state to go to, the symbol to write (none leaves the cell as it
    /// is) and the head move.
    pub fn to(self, s: &str, sym: Option<Symbol>, dir: HeadDirection) -> (r: Self)
        ensures
            r@.from == self@.from,
            r@.to == Some((s@, sym, dir)),
    {
        TransferFnItem { from: self.from, to: Some((s.to_owned(), sym, dir)) }
    }
}


/// The state names held by a vector of strings, in order.
pub open spec fn names(v: Seq<String>) -> Seq<Seq<char>> {
    v.map_values(|s: String| s@)
}

/// The state names held by a vector of string slices, in order.
pub open spec fn str_names(v: Seq<&str>) -> Seq<Seq<char>> {
    v.map_values(|s: &str| s@)
}

/// What a builder has accumulated, in the order of the calls that declared it.
pub struct BuilderModel {
    pub states: Seq<Seq<char>>,
    pub start: Option<Seq<char>>,
    pub accept: Seq<Seq<char>>,
    pub syms: Seq<char>,
    pub tape_syms: Seq<char>,
    pub empty: Option<char>,
    pub items: Seq<ItemModel>,
}

/// The empty symbol used when none is declared.
pub const DEFAULT_EMPTY: char = 'B';

impl BuilderModel {
    /// The empty symbol of the machine: the declared one, else the default.
    pub open spec fn empty_sym(self) -> char {
        match self.empty {
            Some(c) => c,
            None => DEFAULT_EMPTY,
        }
    }

    /// Whether an item's source and target states are both declared states.
    pub open spec fn item_resolves(self, it: ItemModel) -> bool {
        self.states.contains((it.from->0).0) && self.states.contains((it.to->0).0)
    }

    /// The message of the first check that the definition fails, if any.
    pub open spec fn build_error(self) -> Option<Seq<char>> {
        if self.start is None {
            Some("No start state specified"@)
        } else if !self.states.contains(self.start->0) {
            Some("Start state not in states set"@)
        } else if exists|i: int| 0 <= i < self.accept.len() && !self.states.contains(#[trigger] self.accept[i]) {
            Some("Accept state not on states set"@)
        } else if exists|i: int| 0 <= i < self.items.len() && !(#[trigger] self.items[i]).complete() {
            Some("Transition item lacks a source or a target"@)
        } else if exists|i: int| 0 <= i < self.items.len() && !self.item_resolves(#[trigger] self.items[i]) {
            Some("Transition state not in states set"@)
        } else {
            None
        }
    }
}

/// The transition table that a sequence of items describes, by state name: a
/// later item for the same state and symbol replaces an earlier one.
pub open spec fn table(items: Seq<ItemModel>) -> Map<SourceModel, TargetModel>
    decreases items.len(),
{
    if items.len() == 0 {
        Map::empty()
    } else {
        let last = items.last();
        let rest = table(items.drop_last());
        if last.complete() {
            rest.insert(last.from->0, last.to->0)
        } else {
            rest
        }
    }
}

/// Whether `delta`, read through `names`, has for state `s` and symbol `c`
/// the entry of `t` (both absent, or both present and equal).
pub open spec fn delta_agrees(
    names: Seq<Seq<char>>,
    delta: Map<(State, char), (State, Option<char>, HeadDirection)>,
    t: Map<SourceModel, TargetModel>,
    s: State,
    c: char,
) -> bool {
    let key = (names[s as int], c);
    &&& delta.contains_key((s, c)) <==> t.contains_key(key)
    &&& delta.contains_key((s, c)) ==> {
        let (n, w, d) = delta[(s, c)];
        t[key] == (names[n as int], w, d)
    }
}

/// A machine: state names by handle, start state, accept states, input and
/// tape alphabets, empty symbol and transition function over handles.
pub struct MachineModel {
    pub names: Seq<Seq<char>>,
    pub start: State,
    pub accept: Set<State>,
    pub syms: Set<char>,
    pub tape_syms: Set<char>,
    pub empty: char,
    pub delta: Map<(State, char), (State, Option<char>, HeadDirection)>,
}

impl MachineModel {
    /// The machine's invariants: distinct names, and every state mentioned is
    /// a handle of the table of names.
    pub open spec fn wf(self) -> bool {
        &&& self.names.no_duplicates()
        &&& self.start < self.names.len()
        &&& forall|s: State| #[trigger] self.accept.contains(s) ==> s < self.names.len()
        &&& self.tape_syms.contains(self.empty)
        &&& forall|k: (State, char)| #[trigger]
            self.delta.contains_key(k) ==> k.0 < self.names.len() && self.delta[k].0
                < self.names.len()
    }

    /// Whether the transition for state `s` on symbol `c`, read by state names,
    /// is the entry of `t` (both absent, or both present and equal).
    pub open spec fn agrees_with(self, t: Map<SourceModel, TargetModel>, s: State, c: char) -> bool {
        delta_agrees(self.names, self.delta, t, s, c)
    }

    /// Whether this machine is the one that a definition describes.
    pub open spec fn built_from(self, b: BuilderModel) -> bool {
        &&& self.wf()
        &&& self.names.to_set() == b.states.to_set()
        &&& self.names[self.start as int] == b.start->0
        &&& forall|s: State| s < self.names.len() ==> (#[trigger] self.accept.contains(s) <==> b.accept.contains(self.names[s as int]))
        &&& self.syms == b.syms.to_set()
        &&& self.empty == b.empty_sym()
        &&& self.tape_syms == b.tape_syms.to_set().insert(self.empty)
        &&& forall|s: State, c: char| s < self.names.len() ==> #[trigger] self.agrees_with(table(b.items), s, c)
    }
}

/// The hash key of a state handle and a symbol.
pub open spec fn key_of(s: State, c: char) -> u128 {
    ((s as u128) * 0x1_0000_0000u128 + (c as u32) as u128) as u128
}

proof fn lemma_key_injective(s1: State, c1: char, s2: State, c2: char)
    ensures
        key_of(s1, c1) == key_of(s2, c2) ==> s1 == s2 && c1 == c2,
{
}

fn key(s: State, c: Symbol) -> (k: u128)
    ensures
        k == key_of(s, c),
{
    (s as u128) * 0x1_0000_0000u128 + (c as u32) as u128
}

/// Transition function of a machine, keyed by state handle and symbol.
pub struct TransferFn(HashMap<u128, (State, Option<Symbol>, HeadDirection)>);

impl View for TransferFn {
    type V = Map<(State, char), (State, Option<char>, HeadDirection)>;

    closed spec fn view(&self) -> Self::V {
        Map::new(
            |k: (State, char)| self.0@.contains_key(key_of(k.0, k.1)),
            |k: (State, char)| self.0@[key_of(k.0, k.1)],
        )
    }
}

impl TransferFn {
    fn empty() -> (r: Self)
        ensures
            r@ == Map::<(State, char), (State, Option<char>, HeadDirection)>::empty(),
    {
        let r = TransferFn(HashMap::new());
        assert(r@ =~= Map::empty());
        r
    }

    /// The transition for state `s` reading `sym`, if there is one.
    pub fn transfer(&self, s: State, sym: Symbol) -> (r: Option<(State, Option<Symbol>, HeadDirection)>)
        ensures
            r == (if self@.contains_key((s, sym)) { Some(self@[(s, sym)]) } else { None }),
    {
        broadcast use vstd::std_specs::hash::group_hash_axioms;
        match self.0.get(&key(s, sym)) {
            Some(v) => Some(*v),
            None => None,
        }
    }

    /// The transition for state `s` reading `sym`, which must exist.
    pub fn tranfer_uncheck(&self, s: State, sym: Symbol) -> (r: (State, Option<Symbol>, HeadDirection))
        requires
            self@.contains_key((s, sym)),
        ensures
            r == self@[(s, sym)],
    {
        match self.transfer(s, sym) {
            Some(v) => v,
            None => unreached(),
        }
    }

    fn add_item(&mut self, s: State, sym: Symbol, v: (State, Option<Symbol>, HeadDirection))
        ensures
            final(self)@ == old(self)@.insert((s, sym), v),
    {
        broadcast use vstd::std_specs::hash::group_hash_axioms;
        self.0.insert(key(s, sym), v);
        assert forall|k: (State, char)| #[trigger] final(self)@.contains_key(k) == old(self)@.insert((s, sym), v).contains_key(k) by {
            lemma_key_injective(k.0, k.1, s, sym);
        }
        assert forall|k: (State, char)| #[trigger] final(self)@.contains_key(k) implies final(self)@[k] == old(self)@.insert((s, sym), v)[k] by {
            lemma_key_injective(k.0, k.1, s, sym);
        }
        assert(final(self)@ =~= old(self)@.insert((s, sym), v));
    }
}


/// Definition of a Turing machine. Immutable once built.
pub struct TM {
    states: Vec<String>,
    start_state: State,
    accept_states: Vec<bool>,
    syms: Vec<Symbol>,
    tape_syms: Vec<Symbol>,
    empty_sym: Symbol,
    transfer_fn: TransferFn,
}

impl View for TM {
    type V = MachineModel;

    closed spec fn view(&self) -> MachineModel {
        MachineModel {
            names: names(self.states@),
            start: self.start_state,
            accept: Set::new(
                |s: State| s < self.accept_states.len() && self.accept_states@[s as int],
            ),
            syms: self.syms@.to_set(),
            tape_syms: self.tape_syms@.to_set(),
            empty: self.empty_sym,
            delta: self.transfer_fn@,
        }
    }
}

impl TM {
    #[verifier::type_invariant]
    closed spec fn inv(self) -> bool {
        &&& self@.wf()
        &&& self.accept_states.len() == self.states.len()
    }

    /// The transition for state `s` reading `sym`, if there is one.
    pub fn transfer(&self, s: State, sym: Symbol) -> (r: Option<(State, Option<Symbol>, HeadDirection)>)
        ensures
            r == (if self@.delta.contains_key((s, sym)) { Some(self@.delta[(s, sym)]) } else { None }),
    {
        self.transfer_fn.transfer(s, sym)
    }

    /// Whether `s` is an accept state.
    pub fn accept(&self, s: State) -> (r: bool)
        ensures
            r == self@.accept.contains(s),
    {
        s < self.accept_states.len() && self.accept_states[s]
    }

    /// The start state. Every machine meets the invariants of its model.
    pub fn start_state(&self) -> (r: State)
        ensures
            r == self@.start,
            self@.wf(),
    {
        proof {
            use_type_invariant(self);
        }
        self.start_state
    }

    /// The symbol of a cell never written.
    pub fn empty_sym(&self) -> (r: Symbol)
        ensures
            r == self@.empty,
    {
        self.empty_sym
    }

    /// The number of states; handles run from zero up to it.
    pub fn state_count(&self) -> (r: usize)
        ensures
            r == self@.names.len(),
    {
        self.states.len()
    }

    /// The name of state `s`.
    pub fn state_name(&self, s: State) -> (r: &str)
        requires
            s < self@.names.len(),
        ensures
            r@ == self@.names[s as int],
    {
        self.states[s].as_str()
    }

    /// The handle of the state named `name`, if the machine has one.
    pub fn state_id(&self, name: &str) -> (r: Option<State>)
        ensures
            match r {
                Some(s) => s < self@.names.len() && self@.names[s as int] == name@,
                None => !self@.names.contains(name@),
            },
    {
        find_state(&self.states, &name.to_owned())
    }
}

/// The position of `name` in `arena`, if it is there.
fn find_state(arena: &Vec<String>, name: &String) -> (r: Option<State>)
    ensures
        match r {
            Some(h) => h < arena.len() && names(arena@)[h as int] == name@,
            None => !names(arena@).contains(name@),
        },
{
    let mut i: usize = 0;
    while i < arena.len()
        invariant
            i <= arena.len(),
            forall|j: int| 0 <= j < i ==> names(arena@)[j] != name@,
        decreases arena.len() - i,
    {
        if arena[i] == *name {
            return Some(i);
        }
        i = i + 1;
    }
    None
}


/// Accumulates the definition of a machine; `build` checks it and makes the
/// machine.
pub struct TMBuilder {
    states: Vec<String>,
    start_state: Option<String>,
    accept_states: Vec<String>,
    syms: Vec<Symbol>,
    tape_syms: Vec<Symbol>,
    empty_sym: Option<Symbol>,
    transfer_fn_items: Vec<TransferFnItem>,
}

/// The models of a sequence of transition items.
pub open spec fn item_models(v: Seq<TransferFnItem>) -> Seq<ItemModel> {
    v.map_values(|i: TransferFnItem| i@)
}

impl View for TMBuilder {
    type V = BuilderModel;

    closed spec fn view(&self) -> BuilderModel {
        BuilderModel {
            states: names(self.states@),
            start: match self.start_state {
                Some(s) => Some(s@),
                None => None,
            },
            accept: names(self.accept_states@),
            syms: self.syms@,
            tape_syms: self.tape_syms@,
            empty: self.empty_sym,
            items: item_models(self.transfer_fn_items@),
        }
    }
}

pub proof fn lemma_names_push(v: Seq<String>, x: String)
    ensures
        names(v.push(x)) == names(v).push(x@),
{
    assert(names(v.push(x)) =~= names(v).push(x@));
}

proof fn lemma_str_names_take(v: Seq<&str>, i: int)
    requires
        0 <= i < v.len(),
    ensures
        str_names(v.take(i + 1)) == str_names(v.take(i)).push(v[i]@),
{
    assert(str_names(v.take(i + 1)) =~= str_names(v.take(i)).push(v[i]@));
}

impl TMBuilder {
    /// A builder with nothing declared.
    pub fn new() -> (r: Self)
        ensures
            r@ == (BuilderModel {
                states: seq![],
                start: None,
                accept: seq![],
                syms: seq![],
                tape_syms: seq![],
                empty: None,
                items: seq![],
            }),
    {
        let r = TMBuilder {
            states: Vec::new(),
            start_state: None,
            accept_states: Vec::new(),
            syms: Vec::new(),
            tape_syms: Vec::new(),
            empty_sym: None,
            transfer_fn_items: Vec::new(),
        };
        assert(names(r.states@) =~= seq![]);
        assert(names(r.accept_states@) =~= seq![]);
        assert(item_models(r.transfer_fn_items@) =~= seq![]);
        r
    }

    /// Declares a state.
    pub fn state(self, s: &str) -> (r: Self)
        ensures
            r@ == (BuilderModel { states: self@.states.push(s@), ..self@ }),
    {
        let mut r = self;
        let n = s.to_owned();
        proof { lemma_names_push(r.states@, n); }
        r.states.push(n);
        r
    }

    /// Declares states.
    pub fn states(self, s: Vec<&str>) -> (r: Self)
        ensures
            r@ == (BuilderModel { states: self@.states + str_names(s@), ..self@ }),
    {
        let mut r = self;
        let mut i: usize = 0;
        while i < s.len()
            invariant
                i <= s.len(),
                r@ == (BuilderModel { states: self@.states + str_names(s@.take(i as int)), ..self@ }),
            decreases s.len() - i,
        {
            proof {
                lemma_str_names_take(s@, i as int);
                assert(self@.states + str_names(s@.take(i + 1)) =~= (self@.states + str_names(s@.take(i as int))).push(s@[i as int]@));
            }
            r = r.state(s[i]);
            i = i + 1;
        }
        assert(s@.take(s.len() as int) =~= s@);
        r
    }

    /// Declares the start state, which is also declared a state.
    pub fn start_state(self, s: &str) -> (r: Self)
        ensures
            r@ == (BuilderModel { states: self@.states.push(s@), start: Some(s@), ..self@ }),
    {
        let mut r = self.state(s);
        r.start_state = Some(s.to_owned());
        r
    }

    /// Declares an accept state, which is also declared a state.
    pub fn accept_state(self, s: &str) -> (r: Self)
        ensures
            r@ == (BuilderModel {
                states: self@.states.push(s@),
                accept: self@.accept.push(s@),
                ..self@
            }),
    {
        let mut r = self.state(s);
        let n = s.to_owned();
        proof { lemma_names_push(r.accept_states@, n); }
        r.accept_states.push(n);
        r
    }

    /// Declares accept states, which are also declared states.
    pub fn accept_states(self, s: Vec<&str>) -> (r: Self)
        ensures
            r@ == (BuilderModel {
                states: self@.states + str_names(s@),
                accept: self@.accept + str_names(s@),
                ..self@
            }),
    {
        let mut r = self;
        let mut i: usize = 0;
        while i < s.len()
            invariant
                i <= s.len(),
                r@ == (BuilderModel {
                    states: self@.states + str_names(s@.take(i as int)),
                    accept: self@.accept + str_names(s@.take(i as int)),
                    ..self@
                }),
            decreases s.len() - i,
        {
            proof {
                lemma_str_names_take(s@, i as int);
                assert(self@.states + str_names(s@.take(i + 1)) =~= (self@.states + str_names(s@.take(i as int))).push(s@[i as int]@));
                assert(self@.accept + str_names(s@.take(i + 1)) =~= (self@.accept + str_names(s@.take(i as int))).push(s@[i as int]@));
            }
            r = r.accept_state(s[i]);
            i = i + 1;
        }
        assert(s@.take(s.len() as int) =~= s@);
        r
    }

    /// Declares an input symbol, which is also declared a tape symbol.
    pub fn sym(self, s: Symbol) -> (r: Self)
        ensures
            r@ == (BuilderModel {
                syms: self@.syms.push(s),
                tape_syms: self@.tape_syms.push(s),
                ..self@
            }),
    {
        let mut r = self;
        r.syms.push(s);
        r.tape_syms.push(s);
        r
    }

    /// Declares input symbols, which are also declared tape symbols.
    pub fn syms(self, s: Vec<Symbol>) -> (r: Self)
        ensures
            r@ == (BuilderModel {
                syms: self@.syms + s@,
                tape_syms: self@.tape_syms + s@,
                ..self@
            }),
    {
        let mut r = self;
        let mut i: usize = 0;
        while i < s.len()
            invariant
                i <= s.len(),
                r@ == (BuilderModel {
                    syms: self@.syms + s@.take(i as int),
                    tape_syms: self@.tape_syms + s@.take(i as int),
                    ..self@
                }),
            decreases s.len() - i,
        {
            assert(self@.syms + s@.take(i + 1) =~= (self@.syms + s@.take(i as int)).push(s@[i as int]));
            assert(self@.tape_syms + s@.take(i + 1) =~= (self@.tape_syms + s@.take(i as int)).push(s@[i as int]));
            r = r.sym(s[i]);
            i = i + 1;
        }
        assert(s@.take(s.len() as int) =~= s@);
        r
    }

    /// Declares a tape symbol.
    pub fn tape_sym(self, s: Symbol) -> (r: Self)
        ensures
            r@ == (BuilderModel { tape_syms: self@.tape_syms.push(s), ..self@ }),
    {
        let mut r = self;
        r.tape_syms.push(s);
        r
    }

    /// Declares tape symbols.
    pub fn tape_syms(self, s: Vec<Symbol>) -> (r: Self)
        ensures
            r@ == (BuilderModel { tape_syms: self@.tape_syms + s@, ..self@ }),
    {
        let mut r = self;
        let mut i: usize = 0;
        while i < s.len()
            invariant
                i <= s.len(),
                r@ == (BuilderModel { tape_syms: self@.tape_syms + s@.take(i as int), ..self@ }),
            decreases s.len() - i,
        {
            assert(self@.tape_syms + s@.take(i + 1) =~= (self@.tape_syms + s@.take(i as int)).push(s@[i as int]));
            r = r.tape_sym(s[i]);
            i = i + 1;
        }
        assert(s@.take(s.len() as int) =~= s@);
        r
    }

    /// Declares the empty symbol, which is also declared a tape symbol.
    pub fn empty_sym(self, s: Symbol) -> (r: Self)
        ensures
            r@ == (BuilderModel { empty: Some(s), tape_syms: self@.tape_syms.push(s), ..self@ }),
    {
        let mut r = self;
        r.empty_sym = Some(s);
        r.tape_syms.push(s);
        r
    }

    /// Appends a transition item.
    pub fn transfer_fn(self, f: TransferFnItem) -> (r: Self)
        ensures
            r@ == (BuilderModel { items: self@.items.push(f@), ..self@ }),
    {
        let mut r = self;
        let ghost old_items = r.transfer_fn_items@;
        r.transfer_fn_items.push(f);
        assert(item_models(r.transfer_fn_items@) =~= item_models(old_items).push(f@));
        r
    }

    /// Appends transition items, in order.
    pub fn transfer_fns(self, fs: Vec<TransferFnItem>) -> (r: Self)
        ensures
            r@ == (BuilderModel { items: self@.items + item_models(fs@), ..self@ }),
    {
        let mut r = self;
        let mut fs = fs;
        let ghost old_items = r.transfer_fn_items@;
        let ghost all = fs@;
        r.transfer_fn_items.append(&mut fs);
        assert(item_models(r.transfer_fn_items@) =~= item_models(old_items) + item_models(all));
        r
    }

    /// Checks the definition and makes the machine. State names are resolved
    /// to handles; a later transition item for the same state and symbol
    /// replaces an earlier one. On failure the message names the first check
    /// that failed, and no machine is made.
    #[verifier::loop_isolation(false)]
    pub fn build(self) -> (r: Result<TM, String>)
        ensures
            match r {
                Ok(m) => self@.build_error() is None && m@.built_from(self@),
                Err(e) => self@.build_error() == Some(e@),
            },
    {
        broadcast use vstd::seq_lib::lemma_seq_contains_after_push;

        let ghost b = self@;
        let TMBuilder {
            states,
            start_state,
            accept_states,
            syms,
            tape_syms,
            empty_sym,
            transfer_fn_items,
        } = self;
        let start_name = match start_state {
            Some(s) => s,
            None => {
                return Err(String::from_str("No start state specified"));
            },
        };
        // The table of state names, each name once.
        let mut arena: Vec<String> = Vec::new();
        let mut i: usize = 0;
        while i < states.len()
            invariant
                i <= states.len(),
                b.states == names(states@),
                names(arena@).no_duplicates(),
                forall|x: Seq<char>|
                    names(arena@).contains(x) <==> #[trigger] names(states@).take(i as int).contains(x),
            decreases states.len() - i,
        {
            let ghost prev = names(arena@);
            match find_state(&arena, &states[i]) {
                Some(h) => {
                    assert(names(arena@)[h as int] == states@[i as int]@);
                },
                None => {
                    let n = states[i].clone();
                    proof {
                        lemma_names_push(arena@, n);
                    }
                    arena.push(n);
                    assert forall|x: Seq<char>| names(arena@).contains(x) <==> (prev.contains(x) || x == states@[i as int]@) by {
                        if x == states@[i as int]@ {
                            assert(names(arena@)[prev.len() as int] == x);
                        }
                        if prev.contains(x) {
                            let j = choose|j: int| 0 <= j < prev.len() && prev[j] == x;
                            assert(names(arena@)[j] == x);
                        }
                    }
                },
            }
            proof {
                assert(names(states@).take(i + 1) =~= names(states@).take(i as int).push(states@[i as int]@));
                assert(names(states@)[i as int] == states@[i as int]@);
            }
            i = i + 1;
        }
        assert(names(states@).take(states.len() as int) =~= names(states@));
        let start = match find_state(&arena, &start_name) {
            Some(h) => h,
            None => {
                assert(!b.states.contains(start_name@));
                return Err(String::from_str("Start state not in states set"));
            },
        };
        assert(names(arena@).contains(start_name@)) by {
            assert(names(arena@)[start as int] == start_name@);
        }
        assert(b.states.contains(start_name@));
        let n = arena.len();
        let mut flags: Vec<bool> = Vec::new();
        while flags.len() < n
            invariant
                flags.len() <= n,
                forall|h: int| 0 <= h < flags.len() ==> !flags@[h],
            decreases n - flags.len(),
        {
            flags.push(false);
        }
        let mut i: usize = 0;
        while i < accept_states.len()
            invariant
                i <= accept_states.len(),
                flags.len() == n == arena.len(),
                b.accept == names(accept_states@),
                names(arena@).no_duplicates(),
                forall|x: Seq<char>| names(arena@).contains(x) <==> #[trigger] b.states.contains(x),
                forall|h: int|
                    0 <= h < n ==> (#[trigger] flags@[h] <==> names(accept_states@).take(i as int).contains(names(arena@)[h])),
                forall|j: int| 0 <= j < i ==> b.states.contains(#[trigger] b.accept[j]),
            decreases accept_states.len() - i,
        {
            match find_state(&arena, &accept_states[i]) {
                Some(h) => {
                    let ghost prev = flags@;
                    flags.set(h, true);
                    let ghost acc = names(accept_states@);
                    assert(acc.take(i + 1) =~= acc.take(i as int).push(acc[i as int]));
                    assert forall|g: int| 0 <= g < n implies (#[trigger] flags@[g] <==> acc.take(i + 1).contains(names(arena@)[g])) by {
                        if acc.take(i as int).contains(names(arena@)[g]) {
                            let j = choose|j: int| 0 <= j < i && #[trigger] acc.take(i as int)[j] == names(arena@)[g];
                            assert(acc.take(i + 1)[j] == names(arena@)[g]);
                        }
                        if g == h {
                            assert(acc.take(i + 1)[i as int] == names(arena@)[g]);
                        }
                        if acc.take(i + 1).contains(names(arena@)[g]) {
                            let j = choose|j: int| 0 <= j < i + 1 && #[trigger] acc.take(i + 1)[j] == names(arena@)[g];
                            if j < i {
                                assert(acc.take(i as int)[j] == names(arena@)[g]);
                            } else {
                                assert(names(arena@)[g] == names(arena@)[h as int]);
                            }
                        }
                    }
                    assert(names(arena@).contains(names(arena@)[h as int]));
                },
                None => {
                    assert(b.accept[i as int] == accept_states@[i as int]@);
                    assert(!b.states.contains(b.accept[i as int]));
                    return Err(String::from_str("Accept state not on states set"));
                },
            }
            i = i + 1;
        }
        assert(names(accept_states@).take(accept_states.len() as int) =~= names(accept_states@));
        let mut i: usize = 0;
        while i < transfer_fn_items.len()
            invariant
                i <= transfer_fn_items.len(),
                b.items == item_models(transfer_fn_items@),
                forall|j: int| 0 <= j < i ==> (#[trigger] b.items[j]).complete(),
            decreases transfer_fn_items.len() - i,
        {
            let it = &transfer_fn_items[i];
            if it.from.is_none() || it.to.is_none() {
                assert(!b.items[i as int].complete());
                return Err(String::from_str("Transition item lacks a source or a target"));
            }
            i = i + 1;
        }
        let mut tf = TransferFn::empty();
        let mut i: usize = 0;
        while i < transfer_fn_items.len()
            invariant
                i <= transfer_fn_items.len(),
                n == arena.len(),
                b.items == item_models(transfer_fn_items@),
                forall|j: int| 0 <= j < b.items.len() ==> (#[trigger] b.items[j]).complete(),
                names(arena@).no_duplicates(),
                forall|x: Seq<char>| names(arena@).contains(x) <==> #[trigger] b.states.contains(x),
                forall|j: int| 0 <= j < i ==> b.item_resolves(#[trigger] b.items[j]),
                forall|k: (State, char)| #[trigger] tf@.contains_key(k) ==> k.0 < n && tf@[k].0 < n,
                forall|s: State, c: char|
                    s < n ==> #[trigger] delta_agrees(names(arena@), tf@, table(b.items.take(i as int)), s, c),
            decreases transfer_fn_items.len() - i,
        {
            let it = &transfer_fn_items[i];
            assert(b.items[i as int] == it@);
            let (s0, c0) = match &it.from {
                Some(f) => (&f.0, f.1),
                None => {
                    return Err(String::from_str("Transition item lacks a source or a target"));
                },
            };
            let (s1, w, d) = match &it.to {
                Some(t) => (&t.0, t.1, t.2),
                None => {
                    return Err(String::from_str("Transition item lacks a source or a target"));
                },
            };
            let h0 = match find_state(&arena, s0) {
                Some(h) => h,
                None => {
                    assert(!b.item_resolves(b.items[i as int]));
                    return Err(String::from_str("Transition state not in states set"));
                },
            };
            let h1 = match find_state(&arena, s1) {
                Some(h) => h,
                None => {
                    assert(!b.item_resolves(b.items[i as int]));
                    return Err(String::from_str("Transition state not in states set"));
                },
            };
            assert(names(arena@).contains(names(arena@)[h0 as int]));
            assert(names(arena@).contains(names(arena@)[h1 as int]));
            let ghost old_tf = tf@;
            let ghost t_old = table(b.items.take(i as int));
            tf.add_item(h0, c0, (h1, w, d));
            proof {
                let items_next = b.items.take(i + 1);
                assert(items_next.drop_last() =~= b.items.take(i as int));
                assert(items_next.last() == b.items[i as int]);
                let t_new = table(items_next);
                assert(t_new == t_old.insert((s0@, c0), (s1@, w, d)));
                assert forall|s: State, c: char| s < n implies #[trigger] delta_agrees(names(arena@), tf@, t_new, s, c) by {
                    assert(delta_agrees(names(arena@), old_tf, t_old, s, c));
                    if names(arena@)[s as int] == names(arena@)[h0 as int] {
                        assert(s == h0);
                    }
                }
            }
            i = i + 1;
        }
        assert(b.items.take(transfer_fn_items.len() as int) =~= b.items);
        let empty = match empty_sym {
            Some(c) => c,
            None => DEFAULT_EMPTY,
        };
        let mut tape = tape_syms;
        let ghost declared_tape = tape@;
        tape.push(empty);
        proof {
            declared_tape.lemma_push_to_set_commute(empty);
            assert(names(arena@).to_set() =~= b.states.to_set());
        }
        let m = TM {
            states: arena,
            start_state: start,
            accept_states: flags,
            syms,
            tape_syms: tape,
            empty_sym: empty,
            transfer_fn: tf,
        };
        Ok(m)
    }
}

/// Whether two definitions declare the same: the same sets of states,
/// accept states, input and tape symbols, the same start state and empty
/// symbol, and the same transition table.
pub open spec fn same_declarations(b1: BuilderModel, b2: BuilderModel) -> bool {
    &&& b1.states.to_set() == b2.states.to_set()
    &&& b1.start == b2.start
    &&& b1.accept.to_set() == b2.accept.to_set()
    &&& b1.syms.to_set() == b2.syms.to_set()
    &&& b1.tape_syms.to_set().insert(b1.empty_sym()) == b2.tape_syms.to_set().insert(b2.empty_sym())
    &&& b1.empty_sym() == b2.empty_sym()
    &&& table(b1.items) == table(b2.items)
}

/// Whether two machines behave alike, states read by name: the same states,
/// start state, empty symbol and accept states, and for each state and
/// symbol the same transition or none in both.
pub open spec fn same_behavior(m1: MachineModel, m2: MachineModel) -> bool {
    &&& m1.names.to_set() == m2.names.to_set()
    &&& m1.names[m1.start as int] == m2.names[m2.start as int]
    &&& m1.empty == m2.empty
    &&& forall|s1: State, s2: State|
        s1 < m1.names.len() && s2 < m2.names.len() && #[trigger] m1.names[s1 as int]
            == #[trigger] m2.names[s2 as int] ==> {
            &&& (m1.accept.contains(s1) <==> m2.accept.contains(s2))
            &&& forall|c: char|
                (#[trigger] m1.delta.contains_key((s1, c)) <==> #[trigger] m2.delta.contains_key((s2, c)))
            &&& forall|c: char|
                #[trigger] m1.delta.contains_key((s1, c)) ==> {
                    let (n1, w1, d1) = m1.delta[(s1, c)];
                    let (n2, w2, d2) = m2.delta[(s2, c)];
                    m1.names[n1 as int] == m2.names[n2 as int] && w1 == w2 && d1 == d2
                }
        }
}

/// Two machines made from definitions that declare the same behave alike.
pub proof fn lemma_same_declarations_same_behavior(
    b1: BuilderModel,
    b2: BuilderModel,
    m1: MachineModel,
    m2: MachineModel,
)
    requires
        same_declarations(b1, b2),
        m1.built_from(b1),
        m2.built_from(b2),
    ensures
        same_behavior(m1, m2),
{
    assert forall|s1: State, s2: State|
        s1 < m1.names.len() && s2 < m2.names.len() && #[trigger] m1.names[s1 as int]
            == #[trigger] m2.names[s2 as int] implies {
            &&& (m1.accept.contains(s1) <==> m2.accept.contains(s2))
            &&& forall|c: char|
                (#[trigger] m1.delta.contains_key((s1, c)) <==> #[trigger] m2.delta.contains_key((s2, c)))
            &&& forall|c: char|
                #[trigger] m1.delta.contains_key((s1, c)) ==> {
                    let (n1, w1, d1) = m1.delta[(s1, c)];
                    let (n2, w2, d2) = m2.delta[(s2, c)];
                    m1.names[n1 as int] == m2.names[n2 as int] && w1 == w2 && d1 == d2
                }
        } by {
        assert(b1.accept.contains(m1.names[s1 as int]) == b1.accept.to_set().contains(m1.names[s1 as int]));
        assert(b2.accept.contains(m2.names[s2 as int]) == b2.accept.to_set().contains(m2.names[s2 as int]));
        assert forall|c: char| #[trigger] m1.delta.contains_key((s1, c)) <==> #[trigger] m2.delta.contains_key((s2, c)) by {
            assert(m1.agrees_with(table(b1.items), s1, c));
            assert(m2.agrees_with(table(b2.items), s2, c));
        }
        assert forall|c: char| #[trigger] m1.delta.contains_key((s1, c)) implies {
            let (n1, w1, d1) = m1.delta[(s1, c)];
            let (n2, w2, d2) = m2.delta[(s2, c)];
            m1.names[n1 as int] == m2.names[n2 as int] && w1 == w2 && d1 == d2
        } by {
            assert(m1.agrees_with(table(b1.items), s1, c));
            assert(m2.agrees_with(table(b2.items), s2, c));
        }
    }
}

} // verus!
