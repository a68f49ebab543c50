use crate::text::{chars_to_string, push_slice, push_str, str_chars};
use crate::tm::{HeadDirection, MachineModel, State, Symbol, TM};
use vstd::seq_lib::*;
use vstd::prelude::*;

verus! {

/// Status of a run.
#[derive(Debug, PartialEq, Eq, Clone, Copy, Structural)]
pub enum RunnerState {
    Hungry,
    Running,
    Accept,
    Reject,
}

/// Where the head is: an offset into the cells left of the origin (nearest
/// first), or into the cells from the origin rightwards.
#[derive(Debug, PartialEq, Eq, Clone, Copy, Structural)]
pub enum HeadPosition {
    Left(usize),
    Right(usize),
}

impl Default for HeadPosition {
    /// The first cell right of the origin.
    fn default() -> (r: Self)
        ensures
            r == HeadPosition::Right(0),
    {
        HeadPosition::Right(0)
    }
}

/// A run: the two halves of the tape, the head, the current state and the
/// status.
pub struct RunnerModel {
    pub left: Seq<char>,
    pub right: Seq<char>,
    pub head: HeadPosition,
    pub state: State,
    pub status: RunnerState,
}

impl RunnerModel {
    /// A run that has not been fed.
    pub open spec fn fresh(m: MachineModel) -> Self {
        RunnerModel {
            left: seq![m.empty],
            right: seq![],
            head: HeadPosition::Right(0),
            state: m.start,
            status: RunnerState::Hungry,
        }
    }

    /// A run just fed `input`: the input and one empty cell right of the
    /// origin, one empty cell left of it, the head on the first input cell.
    pub open spec fn fed(m: MachineModel, input: Seq<char>) -> Self {
        RunnerModel {
            left: seq![m.empty],
            right: input.push(m.empty),
            head: HeadPosition::Right(0),
            state: m.start,
            status: RunnerState::Running,
        }
    }

    /// The half of the tape that the head is on.
    pub open spec fn side(self) -> Seq<char> {
        match self.head {
            HeadPosition::Left(_) => self.left,
            HeadPosition::Right(_) => self.right,
        }
    }

    /// The head's offset into its half.
    pub open spec fn offset(self) -> usize {
        match self.head {
            HeadPosition::Left(p) => p,
            HeadPosition::Right(p) => p,
        }
    }

    /// This run with the half that the head is on replaced by `t`.
    pub open spec fn with_side(self, t: Seq<char>) -> Self {
        match self.head {
            HeadPosition::Left(_) => RunnerModel { left: t, ..self },
            HeadPosition::Right(_) => RunnerModel { right: t, ..self },
        }
    }

    /// This run with the cell under the head present: a cell never visited
    /// is added, holding `e`.
    pub open spec fn touched(self, e: char) -> Self {
        if self.offset() == self.side().len() {
            self.with_side(self.side().push(e))
        } else {
            self
        }
    }

    /// The symbol under the head.
    pub open spec fn cell(self) -> char {
        self.side()[self.offset() as int]
    }

    /// This run with `c` written under the head.
    pub open spec fn written(self, c: char) -> Self {
        self.with_side(self.side().update(self.offset() as int, c))
    }

    /// This run with the head moved one cell in direction `d`, or kept.
    pub open spec fn moved(self, d: HeadDirection) -> Self {
        let head = match (self.head, d) {
            (HeadPosition::Left(p), HeadDirection::Left) => HeadPosition::Left((p + 1) as usize),
            (HeadPosition::Left(p), HeadDirection::Right) => if p == 0 {
                HeadPosition::Right(0)
            } else {
                HeadPosition::Left((p - 1) as usize)
            },
            (HeadPosition::Right(p), HeadDirection::Right) => HeadPosition::Right((p + 1) as usize),
            (HeadPosition::Right(p), HeadDirection::Left) => if p == 0 {
                HeadPosition::Left(0)
            } else {
                HeadPosition::Right((p - 1) as usize)
            },
            (h, HeadDirection::Stop) => h,
        };
        RunnerModel { head, ..self }
    }

    /// One step of machine `m`: nothing unless the run is running; else the
    /// symbol under the head is read, and with no transition for it the run
    /// rejects; with one, the state changes, the symbol is written if the
    /// transition has one, the head moves, and the run accepts if the new
    /// state is an accept state.
    pub open spec fn step(self, m: MachineModel) -> Self {
        if self.status != RunnerState::Running {
            self
        } else {
            let t = self.touched(m.empty);
            let c = t.cell();
            if m.delta.contains_key((t.state, c)) {
                let (next, w, d) = m.delta[(t.state, c)];
                let t1 = match w {
                    Some(x) => t.written(x),
                    None => t,
                };
                let t2 = RunnerModel { state: next, ..t1.moved(d) };
                if m.accept.contains(next) {
                    RunnerModel { status: RunnerState::Accept, ..t2 }
                } else {
                    t2
                }
            } else {
                RunnerModel { status: RunnerState::Reject, ..t }
            }
        }
    }

    /// The run after `n` steps of machine `m`.
    pub open spec fn run(self, m: MachineModel, n: nat) -> Self
        decreases n,
    {
        if n == 0 {
            self
        } else {
            self.step(m).run(m, (n - 1) as nat)
        }
    }

    /// Whether the run has ended.
    pub open spec fn halted(self) -> bool {
        self.status == RunnerState::Accept || self.status == RunnerState::Reject
    }

    /// The invariants of a run of machine `m`.
    pub open spec fn wf(self, m: MachineModel) -> bool {
        &&& self.offset() <= self.side().len()
        &&& self.state < m.names.len()
        &&& self.status == RunnerState::Hungry ==> self == RunnerModel::fresh(m)
    }

    /// The tape in left-to-right order.
    pub open spec fn tape(self) -> Seq<char> {
        self.left.reverse() + self.right
    }
}

/// Runs a machine over a tape that grows on demand in both directions.
pub struct Runner<'a> {
    left_tape: Vec<Symbol>,
    right_tape: Vec<Symbol>,
    head: HeadPosition,
    current_state: State,
    tm: &'a TM,
    runner_state: RunnerState,
}

impl<'a> View for Runner<'a> {
    type V = RunnerModel;

    closed spec fn view(&self) -> RunnerModel {
        RunnerModel {
            left: self.left_tape@,
            right: self.right_tape@,
            head: self.head,
            state: self.current_state,
            status: self.runner_state,
        }
    }
}

impl<'a> Runner<'a> {
    /// The machine that this runner runs.
    pub closed spec fn machine(&self) -> MachineModel {
        self.tm@
    }

    /// The invariants of a runner.
    pub closed spec fn wf(&self) -> bool {
        self.tm@.wf() && self@.wf(self.tm@)
    }

    /// A runner of `tm` that has not been fed.
    pub fn with_tm(tm: &'a TM) -> (r: Self)
        ensures
            r.wf(),
            r.machine() == tm@,
            r@ == RunnerModel::fresh(tm@),
    {
        let start = tm.start_state();
        let left = vec![tm.empty_sym()];
        assert(left@ =~= seq![tm@.empty]);
        Runner {
            left_tape: left,
            right_tape: Vec::new(),
            head: HeadPosition::default(),
            current_state: start,
            tm,
            runner_state: RunnerState::Hungry,
        }
    }

    fn reset(&mut self)
        requires
            old(self).wf(),
        ensures
            final(self).wf(),
            final(self).machine() == old(self).machine(),
            final(self)@ == RunnerModel::fresh(old(self).machine()),
    {
        *self = Self::with_tm(self.tm);
    }

    /// Puts `input` on the tape and starts the run. A runner that was fed
    /// before starts over as a new one would.
    pub fn feed_str(&mut self, input: &str)
        requires
            old(self).wf(),
        ensures
            final(self).wf(),
            final(self).machine() == old(self).machine(),
            final(self)@ == RunnerModel::fed(old(self).machine(), input@),
    {
        if self.runner_state != RunnerState::Hungry {
            self.reset();
        }
        let mut right = str_chars(input);
        right.push(self.tm.empty_sym());
        self.right_tape = right;
        self.runner_state = RunnerState::Running;
    }

    /// Makes one step and returns the status after it.
    pub fn step(&mut self) -> (r: RunnerState)
        requires
            old(self).wf(),
        ensures
            final(self).wf(),
            final(self).machine() == old(self).machine(),
            final(self)@ == old(self)@.step(old(self).machine()),
            r == final(self)@.status,
    {
        match self.runner_state {
            RunnerState::Running => self.do_transfer(),
            _ => self.runner_state,
        }
    }

    /// Adds the cell under the head if it was never visited.
    fn touch_cell(&mut self)
        requires
            old(self).wf(),
            old(self)@.status == RunnerState::Running,
        ensures
            final(self).wf(),
            final(self).machine() == old(self).machine(),
            final(self)@ == old(self)@.touched(old(self).machine().empty),
            final(self)@.status == RunnerState::Running,
            final(self)@.offset() < final(self)@.side().len(),
    {
        let e = self.tm.empty_sym();
        match self.head {
            HeadPosition::Left(pos) => {
                if pos == self.left_tape.len() {
                    self.left_tape.push(e);
                }
            },
            HeadPosition::Right(pos) => {
                if pos == self.right_tape.len() {
                    self.right_tape.push(e);
                }
            },
        }
    }

    fn get_sym(&self) -> (r: Symbol)
        requires
            self@.offset() < self@.side().len(),
        ensures
            r == self@.cell(),
    {
        match self.head {
            HeadPosition::Left(pos) => self.left_tape[pos],
            HeadPosition::Right(pos) => self.right_tape[pos],
        }
    }

    fn write_sym(&mut self, sym: Symbol)
        requires
            old(self).wf(),
            old(self)@.status == RunnerState::Running,
            old(self)@.offset() < old(self)@.side().len(),
        ensures
            final(self).wf(),
            final(self).machine() == old(self).machine(),
            final(self)@ == old(self)@.written(sym),
            final(self)@.status == RunnerState::Running,
            final(self)@.offset() < final(self)@.side().len(),
    {
        match self.head {
            HeadPosition::Left(pos) => self.left_tape.set(pos, sym),
            HeadPosition::Right(pos) => self.right_tape.set(pos, sym),
        }
    }

    fn mv_head(&mut self, dir: HeadDirection)
        requires
            old(self).wf(),
            old(self)@.status == RunnerState::Running,
            old(self)@.offset() < old(self)@.side().len(),
        ensures
            final(self).wf(),
            final(self).machine() == old(self).machine(),
            final(self)@ == old(self)@.moved(dir),
    {
        let left_len = self.left_tape.len();
        let right_len = self.right_tape.len();
        self.head = match self.head {
            HeadPosition::Left(pos) => match dir {
                HeadDirection::Left => HeadPosition::Left(pos + 1),
                HeadDirection::Right => if pos == 0 {
                    HeadPosition::Right(0)
                } else {
                    HeadPosition::Left(pos - 1)
                },
                HeadDirection::Stop => HeadPosition::Left(pos),
            },
            HeadPosition::Right(pos) => match dir {
                HeadDirection::Right => HeadPosition::Right(pos + 1),
                HeadDirection::Left => if pos == 0 {
                    HeadPosition::Left(0)
                } else {
                    HeadPosition::Right(pos - 1)
                },
                HeadDirection::Stop => HeadPosition::Right(pos),
            },
        };
    }

    fn do_transfer(&mut self) -> (r: RunnerState)
        requires
            old(self).wf(),
            old(self)@.status == RunnerState::Running,
        ensures
            final(self).wf(),
            final(self).machine() == old(self).machine(),
            final(self)@ == old(self)@.step(old(self).machine()),
            r == final(self)@.status,
    {
        self.touch_cell();
        let tape_sym = self.get_sym();
        match self.tm.transfer(self.current_state, tape_sym) {
            Some((next_state, next_sym, mv_dir)) => {
                assert(self.tm@.delta.contains_key((self@.state, tape_sym)));
                self.current_state = next_state;
                match next_sym {
                    Some(sym) => self.write_sym(sym),
                    None => {},
                }
                self.mv_head(mv_dir);
                if self.tm.accept(self.current_state) {
                    self.runner_state = RunnerState::Accept;
                }
            },
            None => {
                self.runner_state = RunnerState::Reject;
            },
        }
        self.runner_state
    }
}


/// `s` without its leading cells that hold `e`.
pub open spec fn trim_front(s: Seq<char>, e: char) -> Seq<char>
    decreases s.len(),
{
    if s.len() > 0 && s[0] == e {
        trim_front(s.drop_first(), e)
    } else {
        s
    }
}

/// `s` without its trailing cells that hold `e`.
pub open spec fn trim_back(s: Seq<char>, e: char) -> Seq<char>
    decreases s.len(),
{
    if s.len() > 0 && s.last() == e {
        trim_back(s.drop_last(), e)
    } else {
        s
    }
}

proof fn lemma_trim_front(s: Seq<char>, e: char, lo: int)
    requires
        0 <= lo <= s.len(),
        forall|i: int| 0 <= i < lo ==> s[i] == e,
        lo == s.len() || s[lo] != e,
    ensures
        trim_front(s, e) == s.subrange(lo, s.len() as int),
    decreases lo,
{
    if lo == 0 {
        assert(s.subrange(0, s.len() as int) =~= s);
    } else {
        lemma_trim_front(s.drop_first(), e, lo - 1);
        assert(s.drop_first().subrange(lo - 1, s.len() - 1) =~= s.subrange(lo, s.len() as int));
    }
}

proof fn lemma_trim_back(s: Seq<char>, e: char, hi: int)
    requires
        0 <= hi <= s.len(),
        forall|i: int| hi <= i < s.len() ==> s[i] == e,
        hi == 0 || s[hi - 1] != e,
    ensures
        trim_back(s, e) == s.subrange(0, hi),
    decreases s.len() - hi,
{
    if hi == s.len() {
        assert(s.subrange(0, hi) =~= s);
    } else {
        lemma_trim_back(s.drop_last(), e, hi);
        assert(s.drop_last().subrange(0, hi) =~= s.subrange(0, hi));
    }
}

/// The name by which a status is shown.
pub open spec fn status_text(s: RunnerState) -> Seq<char> {
    match s {
        RunnerState::Hungry => "Hungry"@,
        RunnerState::Running => "Running"@,
        RunnerState::Accept => "Accept"@,
        RunnerState::Reject => "Reject"@,
    }
}

fn status_str(s: RunnerState) -> (r: &'static str)
    ensures
        r@ == status_text(s),
{
    match s {
        RunnerState::Hungry => "Hungry",
        RunnerState::Running => "Running",
        RunnerState::Accept => "Accept",
        RunnerState::Reject => "Reject",
    }
}

/// What a snapshot shows: the two halves of the tape, the head, the current
/// state and its name, the empty symbol and the status.
pub struct SnapshotModel {
    pub left: Seq<char>,
    pub right: Seq<char>,
    pub head: HeadPosition,
    pub state: State,
    pub state_name: Seq<char>,
    pub empty: char,
    pub status: RunnerState,
}

/// The snapshot of run `r` of machine `m`.
pub open spec fn snapshot(r: RunnerModel, m: MachineModel) -> SnapshotModel {
    SnapshotModel {
        left: r.left,
        right: r.right,
        head: r.head,
        state: r.state,
        state_name: m.names[r.state as int],
        empty: m.empty,
        status: r.status,
    }
}

impl SnapshotModel {
    /// The tape in left-to-right order.
    pub open spec fn tape(self) -> Seq<char> {
        self.left.reverse() + self.right
    }

    /// The tape without its leading and trailing empty cells.
    pub open spec fn trimmed(self) -> Seq<char> {
        trim_back(trim_front(self.tape(), self.empty), self.empty)
    }

    /// Where the head is shown: its index in the tape; a cell left of all
    /// the tape is shown at index zero.
    pub open spec fn head_index(self) -> int {
        match self.head {
            HeadPosition::Left(p) => if p < self.left.len() {
                self.left.len() - 1 - p
            } else {
                0
            },
            HeadPosition::Right(p) => self.left.len() + p,
        }
    }

    /// The text of the snapshot: the status on a line of its own, then the
    /// tape with `<name>` of the current state before the head's cell; at
    /// the left end an empty symbol comes first, and past the right end the
    /// marker is followed by an empty symbol.
    pub open spec fn rendering(self) -> Seq<char> {
        let t = self.tape();
        let k = self.head_index();
        let marker = "<"@ + self.state_name + ">"@;
        status_text(self.status) + seq!['\n'] + if k < t.len() {
            t.take(k) + (if k == 0 { seq![self.empty] } else { seq![] }) + marker + t.skip(k)
        } else if k == t.len() {
            t + marker + seq![self.empty]
        } else {
            t
        }
    }
}

/// A snapshot of a run.
pub struct IR<'a> {
    head: HeadPosition,
    left_tape: &'a [Symbol],
    right_tape: &'a [Symbol],
    current_state: State,
    state_name: &'a str,
    empty_sym: Symbol,
    runner_state: RunnerState,
}

impl<'a> View for IR<'a> {
    type V = SnapshotModel;

    closed spec fn view(&self) -> SnapshotModel {
        SnapshotModel {
            left: self.left_tape@,
            right: self.right_tape@,
            head: self.head,
            state: self.current_state,
            state_name: self.state_name@,
            empty: self.empty_sym,
            status: self.runner_state,
        }
    }
}

impl<'a> Runner<'a> {
    /// A snapshot of the run as it stands.
    pub fn ir(&self) -> (r: IR<'_>)
        requires
            self.wf(),
        ensures
            r@ == snapshot(self@, self.machine()),
    {
        IR {
            head: self.head,
            left_tape: self.left_tape.as_slice(),
            right_tape: self.right_tape.as_slice(),
            current_state: self.current_state,
            state_name: self.tm.state_name(self.current_state),
            empty_sym: self.tm.empty_sym(),
            runner_state: self.runner_state,
        }
    }
}

impl<'a> IR<'a> {
    /// The status of the run.
    pub fn runner_state(&self) -> (r: RunnerState)
        ensures
            r == self@.status,
    {
        self.runner_state
    }

    /// The current state.
    pub fn current_state(&self) -> (r: State)
        ensures
            r == self@.state,
    {
        self.current_state
    }

    /// The name of the current state.
    pub fn state_name(&self) -> (r: &str)
        ensures
            r@ == self@.state_name,
    {
        self.state_name
    }

    /// The tape in left-to-right order, as characters.
    fn tape_chars(&self) -> (r: Vec<char>)
        ensures
            r@ == self@.tape(),
    {
        let mut v: Vec<char> = Vec::new();
        let n = self.left_tape.len();
        let mut i: usize = 0;
        while i < n
            invariant
                i <= n == self.left_tape@.len(),
                v@ == self.left_tape@.reverse().take(i as int),
            decreases n - i,
        {
            assert(self.left_tape@.reverse().take(i + 1) =~= self.left_tape@.reverse().take(i as int).push(self.left_tape@[n - 1 - i]));
            v.push(self.left_tape[n - 1 - i]);
            i = i + 1;
        }
        assert(self.left_tape@.reverse().take(n as int) =~= self.left_tape@.reverse());
        let m = self.right_tape.len();
        push_slice(&mut v, self.right_tape, 0, m);
        assert(self.right_tape@.subrange(0, m as int) =~= self.right_tape@);
        assert(v@ =~= self@.tape());
        v
    }

    /// The tape in left-to-right order.
    pub fn tape_str(&self) -> (r: String)
        ensures
            r@ == self@.tape(),
    {
        let v = self.tape_chars();
        chars_to_string(v.as_slice())
    }

    /// The tape without its leading and trailing empty cells: what a machine
    /// that halted has computed.
    pub fn trimmed_tape_str(&self) -> (r: String)
        ensures
            r@ == self@.trimmed(),
    {
        let t = self.tape_chars();
        let e = self.empty_sym;
        let n = t.len();
        let mut lo: usize = 0;
        while lo < n && t[lo] == e
            invariant
                lo <= n == t@.len(),
                forall|i: int| 0 <= i < lo ==> t@[i] == e,
            decreases n - lo,
        {
            lo = lo + 1;
        }
        proof {
            lemma_trim_front(t@, e, lo as int);
        }
        let ghost front = t@.subrange(lo as int, n as int);
        let mut hi: usize = n;
        while hi > lo && t[hi - 1] == e
            invariant
                lo <= hi <= n == t@.len(),
                forall|i: int| hi <= i < n ==> t@[i] == e,
            decreases hi,
        {
            hi = hi - 1;
        }
        proof {
            lemma_trim_back(front, e, hi - lo);
            assert(front.subrange(0, hi - lo) =~= t@.subrange(lo as int, hi as int));
        }
        let mut v: Vec<char> = Vec::new();
        push_slice(&mut v, t.as_slice(), lo, hi);
        chars_to_string(v.as_slice())
    }

    /// The snapshot as text: the status on a line of its own, then the tape
    /// with `<name>` of the current state before the head's cell.
    pub fn render(&self) -> (r: String)
        ensures
            r@ == self@.rendering(),
    {
        let t = self.tape_chars();
        let ln = self.left_tape.len();
        let n = t.len();
        let mut v: Vec<char> = Vec::new();
        push_str(&mut v, status_str(self.runner_state));
        v.push('\n');
        let ghost head_start = v@;
        proof {
            reveal_strlit("<");
            reveal_strlit(">");
            assert(head_start =~= status_text(self@.status) + seq!['\n']);
        }
        // The head's index, or none where it lies past the right end.
        let k: Option<usize> = match self.head {
            HeadPosition::Left(p) => if p < ln {
                Some(ln - 1 - p)
            } else {
                Some(0)
            },
            HeadPosition::Right(p) => if p <= n - ln {
                Some(ln + p)
            } else {
                None
            },
        };
        match k {
            Some(k) => {
                if k < n {
                    push_slice(&mut v, t.as_slice(), 0, k);
                    if k == 0 {
                        v.push(self.empty_sym);
                    }
                    v.push('<');
                    push_str(&mut v, self.state_name);
                    v.push('>');
                    push_slice(&mut v, t.as_slice(), k, n);
                    assert(t@.subrange(0, k as int) =~= t@.take(k as int));
                    assert(t@.subrange(k as int, n as int) =~= t@.skip(k as int));
                    assert(v@ =~= self@.rendering());
                } else {
                    push_slice(&mut v, t.as_slice(), 0, n);
                    v.push('<');
                    push_str(&mut v, self.state_name);
                    v.push('>');
                    v.push(self.empty_sym);
                    assert(t@.subrange(0, n as int) =~= t@);
                    assert(v@ =~= self@.rendering());
                }
            },
            None => {
                push_slice(&mut v, t.as_slice(), 0, n);
                assert(t@.subrange(0, n as int) =~= t@);
                assert(v@ =~= self@.rendering());
            },
        }
        chars_to_string(v.as_slice())
    }
}

/// Running `n` steps and then `k` more is running `n + k` steps.
pub proof fn lemma_run_split(r: RunnerModel, m: MachineModel, n: nat, k: nat)
    ensures
        r.run(m, n + k) == r.run(m, n).run(m, k),
    decreases n,
{
    if n > 0 {
        lemma_run_split(r.step(m), m, (n - 1) as nat, k);
        assert((n + k - 1) as nat == (n - 1) as nat + k);
    }
}

/// A run that has accepted or rejected does not change when stepped.
pub proof fn lemma_halted_fixed(r: RunnerModel, m: MachineModel, k: nat)
    requires
        r.halted(),
    ensures
        r.run(m, k) == r,
    decreases k,
{
    if k > 0 {
        lemma_halted_fixed(r.step(m), m, (k - 1) as nat);
    }
}

/// A run that was fed stays out of the waiting status, whatever the steps.
pub proof fn lemma_fed_stays_fed(r: RunnerModel, m: MachineModel, n: nat)
    requires
        r.status != RunnerState::Hungry,
    ensures
        r.run(m, n).status != RunnerState::Hungry,
    decreases n,
{
    if n > 0 {
        lemma_fed_stays_fed(r.step(m), m, (n - 1) as nat);
    }
}

/// Stepping a freshly fed run, the status is running until it becomes
/// accept or reject, and once it is either, further steps change nothing:
/// the run ends in one of the two, or runs forever.
pub proof fn lemma_run_ends_or_continues(m: MachineModel, input: Seq<char>, n: nat, k: nat)
    ensures
        RunnerModel::fed(m, input).run(m, n).status != RunnerState::Hungry,
        RunnerModel::fed(m, input).run(m, n).halted() ==> RunnerModel::fed(m, input).run(m, n + k)
            == RunnerModel::fed(m, input).run(m, n),
{
    let r = RunnerModel::fed(m, input);
    lemma_fed_stays_fed(r, m, n);
    lemma_run_split(r, m, n, k);
    if r.run(m, n).halted() {
        lemma_halted_fixed(r.run(m, n), m, k);
    }
}

} // verus!
