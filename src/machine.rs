use vstd::prelude::*;
use crate::node::{Node, Instr, view_seq, lemma_view_seq_len, lemma_view_seq_index};

verus! {

broadcast use vstd::std_specs::vec::group_vec_axioms, vstd::seq::group_seq_axioms;

/// Why evaluation stopped.
#[derive(Debug, Clone, Copy, PartialEq, Eq)]
pub enum EvalError {
    /// A `Read` found the input exhausted.
    ReadInput,
    /// The current cell has no backing entry: a state that evaluation from
    /// `State::new` never reaches.
    InvariantViolation,
    /// A loop needed more passes than allowed, the step counter is at its
    /// largest value, or the pointer would leave the range of `isize`.
    LimitExceeded,
}

/// The machine: a step counter, a signed pointer and the two halves of the
/// tape. Cell `p >= 0` is `data_right[p]`; cell `p < 0` is `data_left[-p]`,
/// so `data_left[0]` backs no cell.
#[derive(Debug)]
pub struct State {
    pub counter: usize,
    pub pointer: isize,
    pub data_right: Vec<u8>,
    pub data_left: Vec<u8>,
}

/// The byte streams of a run: the whole input, how much of it has been read,
/// and what has been written.
#[derive(Debug)]
pub struct Streams {
    pub input: Vec<u8>,
    pub consumed: usize,
    pub output: Vec<u8>,
}

/// The model of a machine.
pub ghost struct Tape {
    pub counter: int,
    pub pointer: int,
    pub right: Seq<u8>,
    pub left: Seq<u8>,
}

/// The model of the streams.
pub ghost struct Channel {
    pub input: Seq<u8>,
    pub consumed: int,
    pub output: Seq<u8>,
}

/// The model of a machine together with its streams.
pub ghost struct Conf {
    pub tape: Tape,
    pub io: Channel,
}

impl View for State {
    type V = Tape;

    open spec fn view(&self) -> Tape {
        Tape {
            counter: self.counter as int,
            pointer: self.pointer as int,
            right: self.data_right@,
            left: self.data_left@,
        }
    }
}

impl View for Streams {
    type V = Channel;

    open spec fn view(&self) -> Channel {
        Channel { input: self.input@, consumed: self.consumed as int, output: self.output@ }
    }
}

/// The model of a machine and its streams taken together.
pub open spec fn conf(s: State, io: Streams) -> Conf {
    Conf { tape: s@, io: io@ }
}

/// The value of the current cell, if it has a backing entry.
pub open spec fn cell(t: Tape) -> Option<u8> {
    if t.pointer >= 0 {
        if t.pointer < t.right.len() {
            Some(t.right[t.pointer])
        } else {
            None
        }
    } else if -t.pointer < t.left.len() {
        Some(t.left[-t.pointer])
    } else {
        None
    }
}

/// `t` with the current cell set to `v`.
pub open spec fn set_cell(t: Tape, v: u8) -> Tape {
    if t.pointer >= 0 {
        Tape { right: t.right.update(t.pointer, v), ..t }
    } else {
        Tape { left: t.left.update(-t.pointer, v), ..t }
    }
}

/// A byte plus a signed adjustment, modulo 256.
pub open spec fn wrap_add(b: u8, n: int) -> u8 {
    ((b as int + n) % 256) as u8
}

/// `s` extended with zero bytes until it has an entry at index `k`.
pub open spec fn grow(s: Seq<u8>, k: int) -> Seq<u8> {
    if k < s.len() {
        s
    } else {
        s + Seq::new((k + 1 - s.len()) as nat, |_i: int| 0u8)
    }
}

/// Counts one step, unless the counter is at its largest value.
pub open spec fn tick(t: Tape) -> Result<Tape, EvalError> {
    if t.counter >= usize::MAX {
        Err(EvalError::LimitExceeded)
    } else {
        Ok(Tape { counter: t.counter + 1, ..t })
    }
}

/// The pointer moved by `n`, with the half it lands in grown to back it.
pub open spec fn move_to(t: Tape, n: int) -> Result<Tape, EvalError> {
    let q = t.pointer + n;
    if q <= isize::MIN || q > isize::MAX {
        Err(EvalError::LimitExceeded)
    } else if q >= 0 {
        Ok(Tape { pointer: q, right: grow(t.right, q), ..t })
    } else {
        Ok(Tape { pointer: q, left: grow(t.left, -q), ..t })
    }
}

/// The effect of evaluating one instruction. A loop may run its body at most
/// `limit` times each time it is entered.
pub open spec fn run_node(i: Instr, c: Conf, limit: nat) -> Result<Conf, EvalError>
    decreases i, 0nat,
{
    match i {
        Instr::Comment(_) => Ok(c),
        Instr::Delta(n) => match tick(c.tape) {
            Err(e) => Err(e),
            Ok(t) => match cell(t) {
                None => Err(EvalError::InvariantViolation),
                Some(b) => Ok(Conf { tape: set_cell(t, wrap_add(b, n)), ..c }),
            },
        },
        Instr::Move(n) => match tick(c.tape) {
            Err(e) => Err(e),
            Ok(t) => match move_to(t, n) {
                Err(e) => Err(e),
                Ok(t2) => Ok(Conf { tape: t2, ..c }),
            },
        },
        Instr::Read => match tick(c.tape) {
            Err(e) => Err(e),
            Ok(t) => match cell(t) {
                None => Err(EvalError::InvariantViolation),
                Some(_) => if c.io.consumed < c.io.input.len() {
                    Ok(
                        Conf {
                            tape: set_cell(t, c.io.input[c.io.consumed]),
                            io: Channel { consumed: c.io.consumed + 1, ..c.io },
                        },
                    )
                } else {
                    Err(EvalError::ReadInput)
                },
            },
        },
        Instr::Write => match tick(c.tape) {
            Err(e) => Err(e),
            Ok(t) => match cell(t) {
                None => Err(EvalError::InvariantViolation),
                Some(b) => Ok(
                    Conf { tape: t, io: Channel { output: c.io.output.push(b), ..c.io } },
                ),
            },
        },
        Instr::Loop(body) => match tick(c.tape) {
            Err(e) => Err(e),
            Ok(t) => run_loop(body, Conf { tape: t, ..c }, limit, limit),
        },
    }
}

/// A loop with body `body` that may make `k` more passes: it stops when the
/// current cell is zero.
pub open spec fn run_loop(body: Seq<Instr>, c: Conf, limit: nat, k: nat) -> Result<Conf, EvalError>
    decreases body, k + 1,
{
    match cell(c.tape) {
        None => Err(EvalError::InvariantViolation),
        Some(b) => if b == 0 {
            Ok(c)
        } else if k == 0 {
            Err(EvalError::LimitExceeded)
        } else {
            match run_seq(body, c, limit) {
                Ok(c2) => run_loop(body, c2, limit, (k - 1) as nat),
                Err(e) => Err(e),
            }
        },
    }
}

/// Evaluates the instructions of `s` in order, stopping at the first error.
pub open spec fn run_seq(s: Seq<Instr>, c: Conf, limit: nat) -> Result<Conf, EvalError>
    decreases s, 0nat,
{
    if s.len() == 0 {
        Ok(c)
    } else {
        match run_seq(s.drop_last(), c, limit) {
            Ok(c1) => run_node(s.last(), c1, limit),
            Err(e) => Err(e),
        }
    }
}

/// The model of a fresh machine.
pub open spec fn fresh_tape() -> Tape {
    Tape { counter: 0, pointer: 0, right: seq![0u8], left: seq![0u8] }
}

impl State {
    /// A fresh machine: counter 0, pointer 0, each half holding one zero cell.
    pub fn new() -> (s: State)
        ensures
            s@ == fresh_tape(),
    {
        let mut data_right: Vec<u8> = Vec::new();
        data_right.push(0u8);
        let mut data_left: Vec<u8> = Vec::new();
        data_left.push(0u8);
        State { counter: 0, pointer: 0, data_right, data_left }
    }

    /// The value of the current cell, if it has a backing entry.
    pub fn current(&self) -> (r: Option<u8>)
        ensures
            r == cell(self@),
    {
        if self.pointer >= 0 {
            let p = self.pointer as usize;
            if p < self.data_right.len() {
                Some(self.data_right[p])
            } else {
                None
            }
        } else {
            let m = (-(self.pointer as i128)) as usize;
            if m < self.data_left.len() {
                Some(self.data_left[m])
            } else {
                None
            }
        }
    }

    fn store(&mut self, v: u8)
        requires
            cell(old(self)@) is Some,
        ensures
            final(self)@ == set_cell(old(self)@, v),
    {
        if self.pointer >= 0 {
            let p = self.pointer as usize;
            self.data_right.set(p, v);
        } else {
            let m = (-(self.pointer as i128)) as usize;
            self.data_left.set(m, v);
        }
    }

    fn count_step(&mut self) -> (r: Result<(), EvalError>)
        ensures
            match tick(old(self)@) {
                Ok(t) => r is Ok && final(self)@ == t,
                Err(e) => r == Err::<(), EvalError>(e),
            },
    {
        if self.counter == usize::MAX {
            Err(EvalError::LimitExceeded)
        } else {
            self.counter = self.counter + 1;
            Ok(())
        }
    }

    fn shift(&mut self, n: i128) -> (r: Result<(), EvalError>)
        ensures
            match move_to(old(self)@, n as int) {
                Ok(t) => r is Ok && final(self)@ == t,
                Err(e) => r == Err::<(), EvalError>(e),
            },
    {
        let p = self.pointer as i128;
        if n > 0x1_0000_0000_0000_0000 || n < -0x1_0000_0000_0000_0000 {
            return Err(EvalError::LimitExceeded);
        }
        let q = p + n;
        if q <= isize::MIN as i128 || q > isize::MAX as i128 {
            return Err(EvalError::LimitExceeded);
        }
        self.pointer = q as isize;
        if q >= 0 {
            grow_to(&mut self.data_right, q as usize);
        } else {
            grow_to(&mut self.data_left, (-q) as usize);
        }
        Ok(())
    }
}

impl Streams {
    /// Streams over the given input, with nothing read or written yet.
    pub fn new(input: Vec<u8>) -> (io: Streams)
        ensures
            io@ == (Channel { input: input@, consumed: 0, output: Seq::empty() }),
    {
        Streams { input, consumed: 0, output: Vec::new() }
    }
}

/// Pushes zero bytes onto `v` until it has an entry at index `k`.
fn grow_to(v: &mut Vec<u8>, k: usize)
    ensures
        final(v)@ == grow(old(v)@, k as int),
{
    if v.len() > k {
        return;
    }
    let ghost s0 = v@;
    while v.len() <= k
        invariant
            s0.len() <= v.len() <= k + 1,
            s0.len() <= k,
            v@ == s0 + Seq::new((v.len() - s0.len()) as nat, |_i: int| 0u8),
        decreases k + 1 - v.len(),
    {
        v.push(0u8);
        proof {
            assert(v@ == s0 + Seq::new((v.len() - s0.len()) as nat, |_i: int| 0u8));
        }
    }
}

/// Adds a signed adjustment to a byte, modulo 256.
fn add_wrapping(b: u8, n: i128) -> (r: u8)
    ensures
        r == wrap_add(b, n as int),
{
    let m: i128 = if n >= 0 {
        n % 256
    } else {
        255 - ((-(n + 1)) % 256)
    };
    let v: u16 = b as u16 + m as u16;
    proof {
        assert(((b as int + n) % 256) == ((b as int + m) % 256)) by (nonlinear_arith)
            requires
                0 <= m < 256,
                n >= 0 ==> m == n % 256,
                n < 0 ==> m == 255 - ((-(n + 1)) % 256),
        ;
    }
    (v % 256) as u8
}

/// Moving the pointer keeps every cell that already has a backing entry,
/// backs every cell it adds with zero, and leaves the new current cell backed.
/// It fails only where the pointer would leave the range of `isize`.
pub proof fn move_zero_fills(t: Tape, n: int)
    ensures
        match move_to(t, n) {
            Ok(t2) => {
                &&& t2.pointer == t.pointer + n
                &&& t2.counter == t.counter
                &&& cell(t2) is Some
                &&& t.right.len() <= t2.right.len()
                &&& t2.right.take(t.right.len() as int) == t.right
                &&& forall|j: int| t.right.len() <= j < t2.right.len() ==> #[trigger] t2.right[j] == 0
                &&& t.left.len() <= t2.left.len()
                &&& t2.left.take(t.left.len() as int) == t.left
                &&& forall|j: int| t.left.len() <= j < t2.left.len() ==> #[trigger] t2.left[j] == 0
            },
            Err(e) => e == EvalError::LimitExceeded,
        },
{
    assert(t.right.take(t.right.len() as int) == t.right);
    assert(t.left.take(t.left.len() as int) == t.left);
    let q = t.pointer + n;
    if q >= 0 && q >= t.right.len() {
        let z = Seq::new((q + 1 - t.right.len()) as nat, |_i: int| 0u8);
        assert((t.right + z).take(t.right.len() as int) == t.right);
    }
    if q < 0 && -q >= t.left.len() {
        let z = Seq::new((-q + 1 - t.left.len()) as nat, |_i: int| 0u8);
        assert((t.left + z).take(t.left.len() as int) == t.left);
    }
}

/// From a machine whose current cell is backed, evaluating an instruction
/// never meets a missing cell, and leaves the current cell backed.
pub proof fn run_node_keeps_cell_backed(i: Instr, c: Conf, limit: nat)
    requires
        cell(c.tape) is Some,
    ensures
        run_node(i, c, limit) != Err::<Conf, EvalError>(EvalError::InvariantViolation),
        run_node(i, c, limit) is Ok ==> cell(run_node(i, c, limit)->Ok_0.tape) is Some,
    decreases i, 0nat,
{
    match i {
        Instr::Move(n) => {
            if let Ok(t) = tick(c.tape) {
                move_zero_fills(t, n);
            }
        },
        Instr::Loop(body) => {
            if let Ok(t) = tick(c.tape) {
                run_loop_keeps_cell_backed(body, Conf { tape: t, ..c }, limit, limit);
            }
        },
        _ => {},
    }
}

/// The loop counterpart of `run_node_keeps_cell_backed`.
pub proof fn run_loop_keeps_cell_backed(body: Seq<Instr>, c: Conf, limit: nat, k: nat)
    requires
        cell(c.tape) is Some,
    ensures
        run_loop(body, c, limit, k) != Err::<Conf, EvalError>(EvalError::InvariantViolation),
        run_loop(body, c, limit, k) is Ok ==> cell(run_loop(body, c, limit, k)->Ok_0.tape) is Some,
    decreases body, k + 1,
{
    if cell(c.tape) != Some(0u8) && k > 0 {
        run_seq_keeps_cell_backed(body, c, limit);
        if let Ok(c2) = run_seq(body, c, limit) {
            run_loop_keeps_cell_backed(body, c2, limit, (k - 1) as nat);
        }
    }
}

/// The sequence counterpart of `run_node_keeps_cell_backed`.
pub proof fn run_seq_keeps_cell_backed(s: Seq<Instr>, c: Conf, limit: nat)
    requires
        cell(c.tape) is Some,
    ensures
        run_seq(s, c, limit) != Err::<Conf, EvalError>(EvalError::InvariantViolation),
        run_seq(s, c, limit) is Ok ==> cell(run_seq(s, c, limit)->Ok_0.tape) is Some,
    decreases s, 0nat,
{
    if s.len() > 0 {
        run_seq_keeps_cell_backed(s.drop_last(), c, limit);
        if let Ok(c1) = run_seq(s.drop_last(), c, limit) {
            run_node_keeps_cell_backed(s.last(), c1, limit);
        }
    }
}

proof fn lemma_run_seq_err(s: Seq<Instr>, i: int, c: Conf, limit: nat)
    requires
        0 <= i <= s.len(),
        run_seq(s.take(i), c, limit) is Err,
    ensures
        run_seq(s, c, limit) == run_seq(s.take(i), c, limit),
    decreases s.len(),
{
    if i < s.len() {
        assert(s.drop_last().take(i) == s.take(i));
        lemma_run_seq_err(s.drop_last(), i, c, limit);
    } else {
        assert(s.take(i) == s);
    }
}

/// Evaluates one node against the machine and its streams. Each loop entered
/// may run its body at most `limit` times.
pub fn eval(node: &Node, state: &mut State, io: &mut Streams, limit: u64) -> (r: Result<
    (),
    EvalError,
>)
    ensures
        match run_node(node@, conf(*old(state), *old(io)), limit as nat) {
            Ok(c) => r is Ok && conf(*final(state), *final(io)) == c,
            Err(e) => r == Err::<(), EvalError>(e),
        },
    decreases node, 0nat,
{
    match node {
        Node::Comment(_) => Ok(()),
        Node::Delta(n) => {
            if let Err(e) = state.count_step() {
                return Err(e);
            }
            match state.current() {
                None => Err(EvalError::InvariantViolation),
                Some(b) => {
                    state.store(add_wrapping(b, *n));
                    Ok(())
                },
            }
        },
        Node::Move(n) => {
            if let Err(e) = state.count_step() {
                return Err(e);
            }
            state.shift(*n)
        },
        Node::Read => {
            if let Err(e) = state.count_step() {
                return Err(e);
            }
            match state.current() {
                None => Err(EvalError::InvariantViolation),
                Some(_) => {
                    if io.consumed < io.input.len() {
                        let b = io.input[io.consumed];
                        state.store(b);
                        io.consumed = io.consumed + 1;
                        Ok(())
                    } else {
                        Err(EvalError::ReadInput)
                    }
                },
            }
        },
        Node::Write => {
            if let Err(e) = state.count_step() {
                return Err(e);
            }
            match state.current() {
                None => Err(EvalError::InvariantViolation),
                Some(b) => {
                    io.output.push(b);
                    Ok(())
                },
            }
        },
        Node::Block(body) => {
            if let Err(e) = state.count_step() {
                return Err(e);
            }
            eval_loop(body, state, io, limit)
        },
    }
}

fn eval_loop(body: &Vec<Node>, state: &mut State, io: &mut Streams, limit: u64) -> (r: Result<
    (),
    EvalError,
>)
    ensures
        match run_loop(view_seq(body@), conf(*old(state), *old(io)), limit as nat, limit as nat) {
            Ok(c) => r is Ok && conf(*final(state), *final(io)) == c,
            Err(e) => r == Err::<(), EvalError>(e),
        },
    decreases body, 1nat,
{
    let ghost c0 = conf(*state, *io);
    let mut k: u64 = limit;
    loop
        invariant
            c0 == conf(*old(state), *old(io)),
            run_loop(view_seq(body@), conf(*state, *io), limit as nat, k as nat) == run_loop(
                view_seq(body@),
                c0,
                limit as nat,
                limit as nat,
            ),
        decreases k,
    {
        match state.current() {
            None => {
                return Err(EvalError::InvariantViolation);
            },
            Some(b) => {
                if b == 0 {
                    return Ok(());
                }
                if k == 0 {
                    return Err(EvalError::LimitExceeded);
                }
                if let Err(e) = eval_nodes(body, state, io, limit) {
                    return Err(e);
                }
                k = k - 1;
            },
        }
    }
}

/// Evaluates the nodes in order, stopping at the first error. Each loop
/// entered may run its body at most `limit` times.
pub fn eval_nodes(nodes: &Vec<Node>, state: &mut State, io: &mut Streams, limit: u64) -> (r:
    Result<(), EvalError>)
    ensures
        match run_seq(view_seq(nodes@), conf(*old(state), *old(io)), limit as nat) {
            Ok(c) => r is Ok && conf(*final(state), *final(io)) == c,
            Err(e) => r == Err::<(), EvalError>(e),
        },
    decreases nodes, 0nat,
{
    let ghost c0 = conf(*state, *io);
    let ghost s = view_seq(nodes@);
    proof {
        lemma_view_seq_len(nodes@);
        assert(s.take(0) == Seq::<Instr>::empty());
    }
    let mut i: usize = 0;
    while i < nodes.len()
        invariant
            i <= nodes.len(),
            c0 == conf(*old(state), *old(io)),
            s == view_seq(nodes@),
            s.len() == nodes.len(),
            run_seq(s.take(i as int), c0, limit as nat) == Ok::<Conf, EvalError>(conf(*state, *io)),
        decreases nodes.len() - i,
    {
        proof {
            lemma_view_seq_index(nodes@, i as int);
            assert(s.take(i + 1).drop_last() == s.take(i as int));
        }
        if let Err(e) = eval(&nodes[i], state, io, limit) {
            proof {
                lemma_run_seq_err(s, i + 1, c0, limit as nat);
            }
            return Err(e);
        }
        i = i + 1;
    }
    proof {
        assert(s.take(i as int) == s);
    }
    Ok(())
}

} // verus!
