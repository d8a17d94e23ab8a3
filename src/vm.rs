use vstd::prelude::*;
use crate::chunk::{Chunk, OpCode};
use crate::value::{Value, negate_number, negated};

verus! {

/// A binary arithmetic operation on two numbers.
#[derive(Debug, Clone, Copy, PartialEq, Eq, Structural)]
pub enum Arithmetic {
    Add,
    Subtract,
    Multiply,
    Divide,
}

/// Why execution stopped early. The first three are errors in the program
/// run; the last three mean that the chunk was not one the compiler makes.
#[derive(Debug, Clone, PartialEq)]
pub enum RuntimeError {
    /// Negation of a value that is not a number.
    OperandMustBeNumber,
    /// Arithmetic on a value that is not a number.
    OperandsMustBeNumbers,
    /// A read of a global variable that was never defined.
    UndefinedVariable(String),
    /// An instruction found too few values on the stack.
    StackUnderflow,
    /// An instruction referred past the end of the constant pool.
    MissingConstant,
    /// A global variable instruction whose constant is not a name.
    NotAnIdentifier,
}

/// How a run ended: with the value left on top of the stack, if any, or
/// with an error.
#[derive(Debug, Clone, PartialEq)]
pub enum InterpretResult {
    Completed(Option<Value>),
    Failed(RuntimeError),
}

/// What the machine asks of its driver when it stops.
#[derive(Debug, Clone, PartialEq)]
pub enum Action {
    /// Both operands, numbers given by their bits, have been popped: compute
    /// `left op right` and resume with the bits of the result.
    Compute(Arithmetic, u64, u64),
    /// The value has been popped: print it, then resume with nothing.
    Print(Value),
    /// The run is over.
    Finished(InterpretResult),
}

/// The global variables: each name bound at most once.
pub struct Globals {
    entries: Vec<(String, Value)>,
}

pub open spec fn has_name(entries: Seq<(String, Value)>, k: Seq<char>) -> bool {
    exists|i: int| 0 <= i < entries.len() && #[trigger] entries[i].0@ == k
}

pub open spec fn names_unique(entries: Seq<(String, Value)>) -> bool {
    forall|i: int, j: int|
        0 <= i < entries.len() && 0 <= j < entries.len() && i != j ==> #[trigger] entries[i].0@
            != #[trigger] entries[j].0@
}

pub open spec fn table_of(entries: Seq<(String, Value)>) -> Map<Seq<char>, Value> {
    Map::new(
        |k: Seq<char>| has_name(entries, k),
        |k: Seq<char>| entries[choose|i: int| 0 <= i < entries.len() && #[trigger] entries[i].0@ == k].1,
    )
}

proof fn lemma_table_at(entries: Seq<(String, Value)>, i: int)
    requires
        names_unique(entries),
        0 <= i < entries.len(),
    ensures
        table_of(entries).contains_key(entries[i].0@),
        table_of(entries)[entries[i].0@] == entries[i].1,
{
    let k = entries[i].0@;
    assert(has_name(entries, k));
    let j = choose|j: int| 0 <= j < entries.len() && #[trigger] entries[j].0@ == k;
    assert(entries[j].0@ == k);
    assert(j == i);
}

impl View for Globals {
    type V = Map<Seq<char>, Value>;

    closed spec fn view(&self) -> Map<Seq<char>, Value> {
        table_of(self.entries@)
    }
}

impl Globals {
    pub closed spec fn well_formed(&self) -> bool {
        names_unique(self.entries@)
    }

    /// A table with no variables.
    pub fn new() -> (g: Globals)
        ensures
            g.well_formed(),
            g@ == Map::<Seq<char>, Value>::empty(),
    {
        let g = Globals { entries: Vec::new() };
        assert(g@ =~= Map::<Seq<char>, Value>::empty());
        g
    }

    /// The value bound to `name`, if any.
    pub fn get(&self, name: &String) -> (r: Option<Value>)
        requires
            self.well_formed(),
        ensures
            r == (if self@.contains_key(name@) {
                Some(self@[name@])
            } else {
                None
            }),
    {
        let mut i: usize = 0;
        while i < self.entries.len()
            invariant
                names_unique(self.entries@),
                0 <= i <= self.entries@.len(),
                forall|j: int| 0 <= j < i ==> #[trigger] self.entries@[j].0@ != name@,
            decreases self.entries@.len() - i,
        {
            if self.entries[i].0.eq(name) {
                proof {
                    lemma_table_at(self.entries@, i as int);
                }
                return Some(self.entries[i].1.duplicate());
            }
            i = i + 1;
        }
        assert(!has_name(self.entries@, name@));
        None
    }

    /// Binds `name` to `value`, replacing any earlier binding.
    pub fn set(&mut self, name: String, value: Value)
        requires
            old(self).well_formed(),
        ensures
            final(self).well_formed(),
            final(self)@ == old(self)@.insert(name@, value),
    {
        let ghost old_entries = self.entries@;
        let ghost k = name@;
        let mut i: usize = 0;
        while i < self.entries.len()
            invariant
                self.entries@ == old_entries,
                old(self).entries@ == old_entries,
                names_unique(old_entries),
                k == name@,
                0 <= i <= self.entries@.len(),
                forall|j: int| 0 <= j < i ==> #[trigger] self.entries@[j].0@ != k,
            decreases self.entries@.len() - i,
        {
            if self.entries[i].0.eq(&name) {
                let ghost at = i as int;
                self.entries.set(i, (name, value));
                proof {
                    let e = self.entries@;
                    assert(names_unique(e)) by {
                        assert forall|a: int, b: int|
                            0 <= a < e.len() && 0 <= b < e.len() && a != b implies #[trigger] e[a].0@
                            != #[trigger] e[b].0@ by {
                            assert(old_entries[a].0@ != old_entries[b].0@);
                        }
                    }
                    assert forall|key: Seq<char>| #[trigger]
                        table_of(e).contains_key(key) == table_of(old_entries).insert(k, value).contains_key(
                        key,
                    ) by {
                        if key != k && has_name(old_entries, key) {
                            let j = choose|j: int|
                                0 <= j < old_entries.len() && #[trigger] old_entries[j].0@ == key;
                            assert(e[j].0@ == key);
                        }
                        if key == k {
                            assert(e[at].0@ == k);
                        }
                    }
                    assert forall|key: Seq<char>| #[trigger] table_of(e).contains_key(key) implies table_of(e)[key]
                        == table_of(old_entries).insert(k, value)[key] by {
                        if key == k {
                            lemma_table_at(e, at);
                        } else {
                            let j = choose|j: int| 0 <= j < e.len() && #[trigger] e[j].0@ == key;
                            lemma_table_at(e, j);
                            lemma_table_at(old_entries, j);
                        }
                    }
                    assert(table_of(e) =~= table_of(old_entries).insert(k, value));
                }
                return;
            }
            i = i + 1;
        }
        self.entries.push((name, value));
        proof {
            let e = self.entries@;
            let n = old_entries.len() as int;
            assert(e[n].0@ == k);
            assert(names_unique(e)) by {
                assert forall|a: int, b: int|
                    0 <= a < e.len() && 0 <= b < e.len() && a != b implies #[trigger] e[a].0@
                    != #[trigger] e[b].0@ by {
                    if a < n && b < n {
                        assert(old_entries[a].0@ != old_entries[b].0@);
                    } else if a < n {
                        assert(old_entries[a].0@ != k);
                    } else {
                        assert(old_entries[b].0@ != k);
                    }
                }
            }
            assert forall|key: Seq<char>| #[trigger]
                table_of(e).contains_key(key) == table_of(old_entries).insert(k, value).contains_key(key) by {
                if key != k && has_name(old_entries, key) {
                    let j = choose|j: int| 0 <= j < old_entries.len() && #[trigger] old_entries[j].0@ == key;
                    assert(e[j].0@ == key);
                }
                if has_name(e, key) && key != k {
                    let j = choose|j: int| 0 <= j < e.len() && #[trigger] e[j].0@ == key;
                    assert(j < n);
                    assert(old_entries[j].0@ == key);
                }
            }
            assert forall|key: Seq<char>| #[trigger] table_of(e).contains_key(key) implies table_of(e)[key]
                == table_of(old_entries).insert(k, value)[key] by {
                if key == k {
                    lemma_table_at(e, n);
                } else {
                    let j = choose|j: int| 0 <= j < e.len() && #[trigger] e[j].0@ == key;
                    assert(j < n);
                    lemma_table_at(e, j);
                    lemma_table_at(old_entries, j);
                }
            }
            assert(table_of(e) =~= table_of(old_entries).insert(k, value));
        }
    }
}

/// The machine's state: the index of the next instruction, the evaluation
/// stack (top last), and the global variables.
pub struct VmState {
    pub ip: int,
    pub stack: Seq<Value>,
    pub globals: Map<Seq<char>, Value>,
}

/// The outcome of one instruction: go on from a state, or stop in a state
/// and ask for an action.
pub enum Step {
    Next(VmState),
    Stop(VmState, Action),
}

pub open spec fn with_stack(s: VmState, stack: Seq<Value>) -> VmState {
    VmState { ip: s.ip, stack, globals: s.globals }
}

pub open spec fn top(stack: Seq<Value>) -> Option<Value> {
    if stack.len() == 0 {
        None
    } else {
        Some(stack.last())
    }
}

pub open spec fn popped(stack: Seq<Value>) -> Seq<Value> {
    if stack.len() == 0 {
        stack
    } else {
        stack.drop_last()
    }
}

pub open spec fn fail(s: VmState, e: RuntimeError) -> Step {
    Step::Stop(s, Action::Finished(InterpretResult::Failed(e)))
}

pub open spec fn arithmetic_of(op: OpCode) -> Option<Arithmetic> {
    match op {
        OpCode::Add => Some(Arithmetic::Add),
        OpCode::Subtract => Some(Arithmetic::Subtract),
        OpCode::Multiply => Some(Arithmetic::Multiply),
        OpCode::Divide => Some(Arithmetic::Divide),
        _ => None,
    }
}

/// Executes instruction `code[s.ip]`.
pub open spec fn step(code: Seq<OpCode>, constants: Seq<Value>, s: VmState) -> Step {
    let n = VmState { ip: s.ip + 1, stack: s.stack, globals: s.globals };
    let stack = s.stack;
    match code[s.ip] {
        OpCode::Return => Step::Stop(
            with_stack(n, popped(stack)),
            Action::Finished(InterpretResult::Completed(top(stack))),
        ),
        OpCode::Constant(i) => if i < constants.len() {
            Step::Next(with_stack(n, stack.push(constants[i as int])))
        } else {
            fail(n, RuntimeError::MissingConstant)
        },
        OpCode::Negate => if stack.len() == 0 {
            fail(n, RuntimeError::StackUnderflow)
        } else {
            match stack.last() {
                Value::Number(b) => Step::Next(
                    with_stack(n, stack.drop_last().push(Value::Number(negated(b)))),
                ),
                _ => fail(with_stack(n, stack.drop_last()), RuntimeError::OperandMustBeNumber),
            }
        },
        OpCode::Add | OpCode::Subtract | OpCode::Multiply | OpCode::Divide => if stack.len() < 2 {
            fail(n, RuntimeError::StackUnderflow)
        } else {
            let rest = with_stack(n, stack.subrange(0, stack.len() - 2));
            match (stack[stack.len() - 2], stack.last()) {
                (Value::Number(a), Value::Number(b)) => Step::Stop(
                    rest,
                    Action::Compute(arithmetic_of(code[s.ip])->0, a, b),
                ),
                _ => fail(rest, RuntimeError::OperandsMustBeNumbers),
            }
        },
        OpCode::Nil => Step::Next(with_stack(n, stack.push(Value::Nil))),
        OpCode::Boolean(b) => Step::Next(with_stack(n, stack.push(Value::Boolean(b)))),
        OpCode::Print => if stack.len() == 0 {
            fail(n, RuntimeError::StackUnderflow)
        } else {
            Step::Stop(with_stack(n, stack.drop_last()), Action::Print(stack.last()))
        },
        OpCode::Pop => Step::Next(with_stack(n, popped(stack))),
        OpCode::DefineGlobal(i) => if i >= constants.len() {
            fail(n, RuntimeError::MissingConstant)
        } else {
            match constants[i as int] {
                Value::Identifier(name) => if stack.len() == 0 {
                    fail(n, RuntimeError::StackUnderflow)
                } else {
                    Step::Next(
                        VmState {
                            ip: n.ip,
                            stack: stack.drop_last(),
                            globals: s.globals.insert(name@, stack.last()),
                        },
                    )
                },
                _ => fail(n, RuntimeError::NotAnIdentifier),
            }
        },
        OpCode::AccessGlobal(i) => if i >= constants.len() {
            fail(n, RuntimeError::MissingConstant)
        } else {
            match constants[i as int] {
                Value::Identifier(name) => if s.globals.contains_key(name@) {
                    Step::Next(with_stack(n, stack.push(s.globals[name@])))
                } else {
                    fail(n, RuntimeError::UndefinedVariable(name))
                },
                _ => fail(n, RuntimeError::NotAnIdentifier),
            }
        },
    }
}

/// Runs from state `s` until the machine needs an action: past the last
/// instruction the run finishes with the top of the stack, which is popped.
pub open spec fn execute(code: Seq<OpCode>, constants: Seq<Value>, s: VmState) -> (VmState, Action)
    decreases code.len() - s.ip,
{
    if s.ip < 0 || s.ip >= code.len() {
        (with_stack(s, popped(s.stack)), Action::Finished(InterpretResult::Completed(top(s.stack))))
    } else {
        match step(code, constants, s) {
            Step::Next(s2) => if s2.ip > s.ip {
                execute(code, constants, s2)
            } else {
                (s2, Action::Finished(InterpretResult::Completed(None)))
            },
            Step::Stop(s2, a) => (s2, a),
        }
    }
}

/// The state in which a run resumes: with the computed number pushed, if
/// one is given.
pub open spec fn resumed(s: VmState, computed: Option<u64>) -> VmState {
    match computed {
        Some(bits) => with_stack(s, s.stack.push(Value::Number(bits))),
        None => s,
    }
}

/// Arithmetic never coerces: when an add, subtract, multiply or divide
/// instruction finds an operand that is not a number, the run stops with a
/// type error.
pub proof fn arithmetic_rejects_non_numbers(code: Seq<OpCode>, constants: Seq<Value>, s: VmState)
    requires
        0 <= s.ip < code.len(),
        arithmetic_of(code[s.ip]) is Some,
        s.stack.len() >= 2,
        !(s.stack[s.stack.len() - 2] is Number && s.stack.last() is Number),
    ensures
        execute(code, constants, s).1 == Action::Finished(
            InterpretResult::Failed(RuntimeError::OperandsMustBeNumbers),
        ),
{
}

/// Negation never coerces: a negate instruction that finds a value other
/// than a number on top of the stack stops the run with a type error.
pub proof fn negation_rejects_non_numbers(code: Seq<OpCode>, constants: Seq<Value>, s: VmState)
    requires
        0 <= s.ip < code.len(),
        code[s.ip] == OpCode::Negate,
        s.stack.len() >= 1,
        !(s.stack.last() is Number),
    ensures
        execute(code, constants, s).1 == Action::Finished(
            InterpretResult::Failed(RuntimeError::OperandMustBeNumber),
        ),
{
}

/// The stack machine: instruction pointer, evaluation stack and global
/// variables. The stack and the globals persist from one run to the next.
pub struct Vm {
    ip: usize,
    stack: Vec<Value>,
    globals: Globals,
}

impl Vm {
    pub closed spec fn state(&self) -> VmState {
        VmState { ip: self.ip as int, stack: self.stack@, globals: self.globals@ }
    }

    pub closed spec fn well_formed(&self) -> bool {
        self.globals.well_formed()
    }

    /// A machine with an empty stack and no globals.
    pub fn new() -> (vm: Vm)
        ensures
            vm.well_formed(),
            vm.state().ip == 0,
            vm.state().stack == Seq::<Value>::empty(),
            vm.state().globals == Map::<Seq<char>, Value>::empty(),
    {
        Vm { ip: 0, stack: Vec::new(), globals: Globals::new() }
    }

    /// Starts running `chunk` from its first instruction, and runs until an
    /// action is needed.
    pub fn run(&mut self, chunk: &Chunk) -> (a: Action)
        requires
            old(self).well_formed(),
        ensures
            final(self).well_formed(),
            (final(self).state(), a) == execute(
                chunk.code@,
                chunk.constants@,
                VmState { ip: 0, stack: old(self).state().stack, globals: old(self).state().globals },
            ),
    {
        self.ip = 0;
        self.resume(chunk, None)
    }

    /// Resumes running `chunk` after an action: `computed` holds the bits of
    /// the result that a `Compute` action asked for, and is `None` after any
    /// other action.
    pub fn resume(&mut self, chunk: &Chunk, computed: Option<u64>) -> (a: Action)
        requires
            old(self).well_formed(),
        ensures
            final(self).well_formed(),
            (final(self).state(), a) == execute(
                chunk.code@,
                chunk.constants@,
                resumed(old(self).state(), computed),
            ),
    {
        if let Some(bits) = computed {
            self.stack.push(Value::Number(bits));
        }
        assert(self.state() == resumed(old(self).state(), computed));
        let ghost target = execute(chunk.code@, chunk.constants@, self.state());
        loop
            invariant
                self.well_formed(),
                execute(chunk.code@, chunk.constants@, self.state()) == target,
                target == execute(chunk.code@, chunk.constants@, resumed(old(self).state(), computed)),
            decreases chunk.code@.len() - self.ip,
        {
            if self.ip >= chunk.code.len() {
                let ghost before = self.stack@;
                let result = self.stack.pop();
                assert(self.stack@ =~= popped(before));
                return Action::Finished(InterpretResult::Completed(result));
            }
            let instruction = chunk.code[self.ip];
            let ghost s = self.state();
            self.ip = self.ip + 1;
            match instruction {
                OpCode::Return => {
                    let result = self.stack.pop();
                    assert(self.stack@ =~= popped(s.stack));
                    return Action::Finished(InterpretResult::Completed(result));
                },
                OpCode::Constant(index) => {
                    if index >= chunk.constants.len() {
                        return Action::Finished(InterpretResult::Failed(RuntimeError::MissingConstant));
                    }
                    self.stack.push(chunk.constants[index].duplicate());
                },
                OpCode::Negate => {
                    match self.stack.pop() {
                        None => {
                            return Action::Finished(InterpretResult::Failed(RuntimeError::StackUnderflow));
                        },
                        Some(Value::Number(bits)) => {
                            self.stack.push(Value::Number(negate_number(bits)));
                        },
                        Some(_) => {
                            return Action::Finished(
                                InterpretResult::Failed(RuntimeError::OperandMustBeNumber),
                            );
                        },
                    }
                },
                OpCode::Add | OpCode::Subtract | OpCode::Multiply | OpCode::Divide => {
                    if self.stack.len() < 2 {
                        return Action::Finished(InterpretResult::Failed(RuntimeError::StackUnderflow));
                    }
                    let right = self.stack.pop().unwrap();
                    let left = self.stack.pop().unwrap();
                    proof {
                        assert(self.stack@ =~= s.stack.subrange(0, s.stack.len() - 2));
                    }
                    let op = match instruction {
                        OpCode::Add => Arithmetic::Add,
                        OpCode::Subtract => Arithmetic::Subtract,
                        OpCode::Multiply => Arithmetic::Multiply,
                        _ => Arithmetic::Divide,
                    };
                    match (left, right) {
                        (Value::Number(a), Value::Number(b)) => {
                            return Action::Compute(op, a, b);
                        },
                        _ => {
                            return Action::Finished(
                                InterpretResult::Failed(RuntimeError::OperandsMustBeNumbers),
                            );
                        },
                    }
                },
                OpCode::Nil => {
                    self.stack.push(Value::Nil);
                },
                OpCode::Boolean(b) => {
                    self.stack.push(Value::Boolean(b));
                },
                OpCode::Print => {
                    match self.stack.pop() {
                        None => {
                            return Action::Finished(InterpretResult::Failed(RuntimeError::StackUnderflow));
                        },
                        Some(v) => {
                            return Action::Print(v);
                        },
                    }
                },
                OpCode::Pop => {
                    self.stack.pop();
                },
                OpCode::DefineGlobal(index) => {
                    if index >= chunk.constants.len() {
                        return Action::Finished(InterpretResult::Failed(RuntimeError::MissingConstant));
                    }
                    match &chunk.constants[index] {
                        Value::Identifier(name) => {
                            match self.stack.pop() {
                                None => {
                                    return Action::Finished(
                                        InterpretResult::Failed(RuntimeError::StackUnderflow),
                                    );
                                },
                                Some(v) => {
                                    self.globals.set(name.clone(), v);
                                },
                            }
                        },
                        _ => {
                            return Action::Finished(InterpretResult::Failed(RuntimeError::NotAnIdentifier));
                        },
                    }
                },
                OpCode::AccessGlobal(index) => {
                    if index >= chunk.constants.len() {
                        return Action::Finished(InterpretResult::Failed(RuntimeError::MissingConstant));
                    }
                    match &chunk.constants[index] {
                        Value::Identifier(name) => {
                            match self.globals.get(name) {
                                None => {
                                    return Action::Finished(
                                        InterpretResult::Failed(
                                            RuntimeError::UndefinedVariable(name.clone()),
                                        ),
                                    );
                                },
                                Some(v) => {
                                    self.stack.push(v);
                                },
                            }
                        },
                        _ => {
                            return Action::Finished(InterpretResult::Failed(RuntimeError::NotAnIdentifier));
                        },
                    }
                },
            }
        }
    }

    /// The value bound to the global variable `name`, if any.
    pub fn global(&self, name: &String) -> (r: Option<Value>)
        requires
            self.well_formed(),
        ensures
            r == (if self.state().globals.contains_key(name@) {
                Some(self.state().globals[name@])
            } else {
                None
            }),
    {
        self.globals.get(name)
    }
}

} // verus!
