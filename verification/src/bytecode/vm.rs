use vstd::prelude::*;
use std::sync::Arc;
use crate::bytecode::{Code, Instruction, Module};

verus! {

/// Why the machine stopped.
#[derive(Clone, Copy, Debug, PartialEq, Eq, Structural)]
pub enum VMError {
    NotImplemented,
}

/// The result of a step of the machine.
pub type VMResult<T> = Result<T, VMError>;

/// What a register holds.
#[derive(Clone, Copy, Debug, PartialEq, Eq, Structural)]
pub enum RegisterValue {
    UnsignedInteger(u64),
    SignedInteger(i64),
    Empty,
}

/// The registers of a stack frame.
#[derive(Clone, Copy)]
pub struct Registers(pub [RegisterValue; 64]);

impl Registers {
    /// Sixty-four empty registers.
    pub fn new() -> (r: Registers)
        ensures
            r.0@.len() == 64,
            forall|i: int| 0 <= i < 64 ==> r.0@[i] == RegisterValue::Empty,
    {
        Registers([RegisterValue::Empty; 64])
    }
}

/// A frame of the call stack: the function it runs (an index into the code table),
/// the frame that called it (an index into the stack), the next instruction, its
/// registers, and the value the last call returned to it.
#[derive(Clone, Copy)]
pub struct StackFrame {
    pub parent: Option<usize>,
    pub function: usize,
    pub ip: u32,
    pub registers: Registers,
    pub return_value: Option<RegisterValue>,
}

impl StackFrame {
    /// A frame for `function`, called from `parent`, at its first instruction, with
    /// empty registers.
    pub fn new(parent: Option<usize>, function: usize) -> (r: StackFrame)
        ensures
            r.parent == parent,
            r.function == function,
            r.ip == 0,
            r.return_value is None,
            forall|i: int| 0 <= i < 64 ==> r.registers.0@[i] == RegisterValue::Empty,
    {
        StackFrame { parent, function, ip: 0, registers: Registers::new(), return_value: None }
    }
}

/// The stack after the top frame returns `value` to its caller: the top frame is gone
/// and the caller holds `value` as the returned value.
pub open spec fn returned(frames: Seq<StackFrame>, value: Option<RegisterValue>) -> Seq<StackFrame> {
    let rest = frames.drop_last();
    rest.update(rest.len() - 1, StackFrame { return_value: value, ..rest.last() })
}

/// What a `Return` of `register` in frame `top` hands back.
pub open spec fn return_value_of(top: StackFrame, register: Option<crate::bytecode::Register>) -> Option<RegisterValue> {
    match register {
        Some(r) => Some(top.registers.0@[r.spec_value() as int]),
        None => None,
    }
}

/// The instruction at the top frame's position, if there is one.
pub open spec fn next_instruction(frames: Seq<StackFrame>, code: Seq<Code>) -> Option<Instruction> {
    let top = frames.last();
    let instructions = code[top.function as int].instructions@;
    if top.ip < instructions.len() {
        Some(instructions[top.ip as int])
    } else {
        None
    }
}

/// Running from `frames` ends without failing: until the top frame has no instruction
/// left, each instruction met is a `Return` from a frame that has a caller (every other
/// instruction, and a return from the outermost frame, is not carried out).
pub open spec fn runs_clean(frames: Seq<StackFrame>, code: Seq<Code>) -> bool
    decreases frames.len(),
{
    if frames.len() == 0 {
        false
    } else {
        match next_instruction(frames, code) {
            None => true,
            Some(Instruction::Return(register)) => frames.len() >= 2 && frames.last().ip < u32::MAX
                && runs_clean(returned(frames, return_value_of(frames.last(), register)), code),
            Some(_) => false,
        }
    }
}

/// The stack once running from `frames` has ended (see `runs_clean`).
pub open spec fn run_result(frames: Seq<StackFrame>, code: Seq<Code>) -> Seq<StackFrame>
    decreases frames.len(),
{
    if frames.len() < 2 {
        frames
    } else {
        match next_instruction(frames, code) {
            Some(Instruction::Return(register)) => run_result(
                returned(frames, return_value_of(frames.last(), register)),
                code,
            ),
            _ => frames,
        }
    }
}

/// Why running from a stack would fail.
#[derive(Clone, Copy, Debug, PartialEq, Eq, Structural)]
pub enum Fault {
    /// The outermost frame returns, with no caller to return to.
    NoCaller,
    /// An instruction other than `Return` is met; the machine does not carry it out yet.
    Unimplemented(Instruction),
    /// A frame's position cannot move past the instruction it stands at.
    Overflow,
}

/// Where running from the frames `0..=j` (the top one being `j`) fails first, and why;
/// `None` where it runs through. Only where each frame stands counts: returning drops
/// the top frame and leaves the others where they stand.
pub open spec fn fault_from(frames: Seq<StackFrame>, code: Seq<Code>, j: int) -> Option<Fault>
    decreases (if j >= 0 {
        j + 1
    } else {
        0
    }),
{
    if j < 0 {
        Some(Fault::NoCaller)
    } else {
        let f = frames[j];
        let ins = code[f.function as int].instructions@;
        if f.ip >= ins.len() {
            None
        } else if f.ip == u32::MAX {
            Some(Fault::Overflow)
        } else {
            match ins[f.ip as int] {
                Instruction::Return(_) => if j >= 1 {
                    fault_from(frames, code, j - 1)
                } else {
                    Some(Fault::NoCaller)
                },
                other => Some(Fault::Unimplemented(other)),
            }
        }
    }
}

/// A stack runs through exactly where no fault is found in it.
pub proof fn lemma_fault(frames2: Seq<StackFrame>, frames: Seq<StackFrame>, code: Seq<Code>, j: int)
    requires
        0 <= j,
        frames2.len() == j + 1,
        j < frames.len(),
        forall|i: int|
            0 <= i <= j ==> (#[trigger] frames2[i]).function == frames[i].function && frames2[i].ip
                == frames[i].ip,
    ensures
        runs_clean(frames2, code) == (fault_from(frames, code, j) is None),
    decreases j,
{
    assert(frames2.last() == frames2[j]);
    match next_instruction(frames2, code) {
        Some(Instruction::Return(register)) => {
            if j >= 1 && frames2.last().ip < u32::MAX {
                let r = returned(frames2, return_value_of(frames2.last(), register));
                assert forall|i: int| 0 <= i <= j - 1 implies (#[trigger] r[i]).function
                    == frames[i].function && r[i].ip == frames[i].ip by {
                    assert(frames2[i].function == frames[i].function);
                }
                lemma_fault(r, frames, code, j - 1);
            }
        },
        _ => {},
    }
}

/// The virtual machine: a module and a call stack.
pub struct Interpreter {
    pub module: Arc<Module>,
    pub frames: Vec<StackFrame>,
}

impl Interpreter {
    /// At least one frame; each runs a function of the module; each frame's caller is
    /// the frame below it.
    pub open spec fn wf(&self) -> bool {
        &&& self.frames@.len() >= 1
        &&& forall|i: int|
            0 <= i < self.frames@.len() ==> (#[trigger] self.frames@[i]).function
                < self.module.code_table@.len()
        &&& forall|i: int|
            0 <= i < self.frames@.len() ==> (#[trigger] self.frames@[i]).parent == (if i == 0 {
                None
            } else {
                Some((i - 1) as usize)
            })
    }

    /// A machine that runs the module's first function.
    pub fn new(module: Arc<Module>) -> (r: Interpreter)
        requires
            module.code_table@.len() > 0,
        ensures
            r.wf(),
            r.module == module,
            r.frames@.len() == 1,
            r.frames@[0].function == 0,
            r.frames@[0].ip == 0,
            r.frames@[0].return_value is None,
    {
        let mut frames = Vec::new();
        frames.push(StackFrame::new(None, 0));
        Interpreter { module, frames }
    }

    /// Carries out a `Return`: the top frame hands the register's value (or nothing) to
    /// its caller and is dropped.
    fn run_instruction(&mut self, instruction: &Instruction) -> (r: VMResult<()>)
        requires
            old(self).wf(),
            old(self).frames@.len() >= 2,
            instruction is Return,
        ensures
            final(self).wf(),
            final(self).module == old(self).module,
            r == Ok::<(), VMError>(()),
            final(self).frames@ == returned(
                old(self).frames@,
                return_value_of(old(self).frames@.last(), instruction->Return_0),
            ),
    {
        let top = self.frames.len() - 1;
        let value = match instruction {
            Instruction::Return(Some(register)) => Some(
                self.frames[top].registers.0[register.value() as usize],
            ),
            _ => None,
        };
        let _ = self.frames.pop();
        let mut parent = match self.frames.pop() {
            Some(p) => p,
            None => {
                proof {
                    assert(false);
                }
                StackFrame::new(None, 0)
            },
        };
        parent.return_value = value;
        self.frames.push(parent);
        proof {
            assert(self.frames@ =~= returned(
                old(self).frames@,
                return_value_of(old(self).frames@.last(), instruction->Return_0),
            ));
        }
        Ok(())
    }
    /// Where running would fail, and why (see `fault_from`); `None` where it runs
    /// through, which is what `run` needs.
    pub fn fault(&self) -> (r: Option<Fault>)
        requires
            self.wf(),
        ensures
            r == fault_from(self.frames@, self.module.code_table@, self.frames@.len() - 1),
            r is None <==> runs_clean(self.frames@, self.module.code_table@),
    {
        let ghost fr = self.frames@;
        let ghost code = self.module.code_table@;
        proof {
            lemma_fault(fr, fr, code, fr.len() - 1);
        }
        let mut j = self.frames.len() - 1;
        loop
            invariant
                j < fr.len(),
                fr == self.frames@,
                code == self.module.code_table@,
                self.wf(),
                fault_from(fr, code, fr.len() - 1) == fault_from(fr, code, j as int),
                runs_clean(fr, code) == (fault_from(fr, code, fr.len() - 1) is None),
            decreases j,
        {
            let f = &self.frames[j];
            let ins = &self.module.code_table[f.function].instructions;
            if f.ip as usize >= ins.len() {
                return None;
            }
            if f.ip == u32::MAX {
                return Some(Fault::Overflow);
            }
            match ins[f.ip as usize] {
                Instruction::Return(_) => {
                    if j == 0 {
                        return Some(Fault::NoCaller);
                    }
                    j -= 1;
                },
                other => {
                    return Some(Fault::Unimplemented(other));
                },
            }
        }
    }


    /// Runs instructions of the top frame until it has none left (see `runs_clean`
    /// for what must hold, and `run_result` for the stack afterwards).
    pub fn run(&mut self) -> (r: VMResult<()>)
        requires
            old(self).wf(),
            runs_clean(old(self).frames@, old(self).module.code_table@),
        ensures
            final(self).wf(),
            final(self).module == old(self).module,
            r == Ok::<(), VMError>(()),
            final(self).frames@ == run_result(old(self).frames@, old(self).module.code_table@),
    {
        loop
            invariant
                self.wf(),
                self.module == old(self).module,
                runs_clean(self.frames@, self.module.code_table@),
                run_result(self.frames@, self.module.code_table@) == run_result(
                    old(self).frames@,
                    old(self).module.code_table@,
                ),
            ensures
                self.wf(),
                self.module == old(self).module,
                self.frames@ == run_result(old(self).frames@, old(self).module.code_table@),
            decreases self.frames@.len(),
        {
            let top = self.frames.len() - 1;
            let function = self.frames[top].function;
            let ip = self.frames[top].ip;
            if ip as usize >= self.module.code_table[function].instructions.len() {
                break;
            }
            let instruction = self.module.code_table[function].instructions[ip as usize];
            let ghost pre = self.frames@;
            proof {
                assert(next_instruction(pre, self.module.code_table@) == Some(instruction));
            }
            let mut frame = self.frames[top];
            frame.ip = ip + 1;
            self.frames.set(top, frame);
            self.run_instruction(&instruction)?;
            proof {
                let v = return_value_of(pre.last(), instruction->Return_0);
                assert(self.frames@ =~= returned(pre, v));
            }
        }
        Ok(())
    }
}

} // verus!
