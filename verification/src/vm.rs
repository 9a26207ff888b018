//! The stack machine: an operand stack of 32-bit integers driven by a flat list of
//! instructions.

use vstd::prelude::*;

verus! {

/// One step of the machine.
#[derive(Debug, Clone, Copy, PartialEq, Eq)]
pub enum Instruction {
    /// Push a constant on top of the stack.
    Push(i32),
    /// Replace the two topmost values by their sum.
    Add,
    /// Emit the whole stack, leaving it as it is.
    Print,
}

/// The machine's only state: the operand stack, bottom first.
pub struct VM {
    pub stack: Vec<i32>,
}

/// Two's-complement sum of two 32-bit integers.
pub open spec fn wrapping_sum(a: i32, b: i32) -> i32 {
    vstd::wrapping::i32_specs::wrapping_add(a, b)
}

/// The stack after one `Add`: the two topmost values give way to their sum; a stack
/// of fewer than two values stays as it is.
pub open spec fn add_stack(stack: Seq<i32>) -> Seq<i32> {
    if stack.len() >= 2 {
        let n = stack.len();
        stack.subrange(0, n - 2).push(wrapping_sum(stack[n - 2], stack[n - 1]))
    } else {
        stack
    }
}

/// The stack after one instruction.
pub open spec fn step_stack(stack: Seq<i32>, instr: Instruction) -> Seq<i32> {
    match instr {
        Instruction::Push(v) => stack.push(v),
        Instruction::Add => add_stack(stack),
        Instruction::Print => stack,
    }
}

/// The stack after running `instrs` in order, starting from `stack`.
pub open spec fn run_stack(stack: Seq<i32>, instrs: Seq<Instruction>) -> Seq<i32>
    decreases instrs.len(),
{
    if instrs.len() == 0 {
        stack
    } else {
        step_stack(run_stack(stack, instrs.drop_last()), instrs.last())
    }
}

/// What running `instrs` from `stack` emits: one snapshot of the whole stack for each
/// `Print`, in the order in which they are reached.
pub open spec fn run_output(stack: Seq<i32>, instrs: Seq<Instruction>) -> Seq<Seq<i32>>
    decreases instrs.len(),
{
    if instrs.len() == 0 {
        Seq::empty()
    } else {
        let before = run_output(stack, instrs.drop_last());
        match instrs.last() {
            Instruction::Print => before.push(run_stack(stack, instrs.drop_last())),
            _ => before,
        }
    }
}

/// The contents of each emitted snapshot.
pub open spec fn snapshot_views(printed: Seq<Vec<i32>>) -> Seq<Seq<i32>> {
    printed.map_values(|snapshot: Vec<i32>| snapshot@)
}

impl VM {
    /// A machine with an empty stack.
    pub fn new() -> (vm: Self)
        ensures
            vm.stack@ == Seq::<i32>::empty(),
    {
        VM { stack: Vec::new() }
    }

    /// Pushes `value` on top of the stack.
    pub fn push(&mut self, value: i32)
        ensures
            final(self).stack@ == old(self).stack@.push(value),
    {
        self.stack.push(value);
    }

    /// Takes the topmost value off the stack, if there is one.
    pub fn pop(&mut self) -> (top: Option<i32>)
        ensures
            old(self).stack@.len() == 0 ==> top.is_none() && final(self).stack@ == old(self).stack@,
            old(self).stack@.len() > 0 ==> top == Some(old(self).stack@.last())
                && final(self).stack@ == old(self).stack@.drop_last(),
    {
        self.stack.pop()
    }

    /// Replaces the two topmost values by their two's-complement sum. With fewer than
    /// two values on the stack nothing happens.
    pub fn add(&mut self)
        ensures
            final(self).stack@ == add_stack(old(self).stack@),
            old(self).stack@.len() < 2 ==> final(self).stack@ == old(self).stack@,
    {
        if self.stack.len() >= 2 {
            let b = self.stack.pop().unwrap();
            let a = self.stack.pop().unwrap();
            self.stack.push(a.wrapping_add(b));
        }
    }

    /// Runs `instructions` in order and returns what they emit: for each `Print` the
    /// stack as it stood at that moment.
    pub fn run(&mut self, instructions: &[Instruction]) -> (printed: Vec<Vec<i32>>)
        ensures
            final(self).stack@ == run_stack(old(self).stack@, instructions@),
            snapshot_views(printed@) == run_output(old(self).stack@, instructions@),
    {
        let mut printed: Vec<Vec<i32>> = Vec::new();
        let mut i: usize = 0;
        while i < instructions.len()
            invariant
                i <= instructions.len(),
                self.stack@ == run_stack(old(self).stack@, instructions@.take(i as int)),
                snapshot_views(printed@) == run_output(
                    old(self).stack@,
                    instructions@.take(i as int),
                ),
            decreases instructions.len() - i,
        {
            proof {
                assert(instructions@.take(i + 1).drop_last() =~= instructions@.take(i as int));
            }
            match instructions[i] {
                Instruction::Push(val) => self.push(val),
                Instruction::Add => self.add(),
                Instruction::Print => {
                    printed.push(self.stack.clone());
                },
            }
            i += 1;
        }
        proof {
            assert(instructions@.take(i as int) =~= instructions@);
        }
        printed
    }
}

} // verus!
