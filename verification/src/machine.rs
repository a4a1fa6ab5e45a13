//! The control core of the stack machine: its value stack, call frames and
//! handler blocks, which instruction runs next, and the instructions that
//! only move values, jumps, frames and blocks.
//!
//! The machine is generic in its values `V`: the instructions that look
//! inside a value (arithmetic, comparisons, containers, calls of native
//! functions) are carried out by the caller, which then reports the step's
//! outcome back with [`Machine::finish_step`].
use vstd::prelude::*;

use crate::blocks::{pop_block, setup_block, unwind, Block, BlockKind};
use crate::bytecode::{code_view, copy_code, ByteCode, Instruction};
use crate::text::{decimal_text, push_decimal};
use crate::value::{raised, ExceptionType, ExceptionValue, Raised};

verus! {

/// A call frame: the function's locals, the position of its next
/// instruction, its code, and the stack depth at the call.
pub struct Frame<V> {
    pub locals: Vec<V>,
    pub ip: usize,
    pub code: ByteCode,
    pub stack_base: usize,
}

/// The machine's state that control flow works on.
pub struct Machine<V> {
    pub stack: Vec<V>,
    pub frames: Vec<Frame<V>>,
    pub blocks: Vec<Block>,
}

/// The frames left once the finished ones on top (whose position has run
/// past their code) are dropped.
pub open spec fn live_frames<V>(frames: Seq<Frame<V>>) -> Seq<Frame<V>>
    decreases frames.len(),
{
    if frames.len() == 0 {
        frames
    } else if frames.last().ip >= frames.last().code@.len() {
        live_frames(frames.drop_last())
    } else {
        frames
    }
}

/// The frames with the top one's position set to `ip`.
pub open spec fn at_ip<V>(frames: Seq<Frame<V>>, ip: usize) -> Seq<Frame<V>> {
    if frames.len() == 0 {
        frames
    } else {
        frames.update(
            frames.len() - 1,
            Frame { locals: frames.last().locals, ip, code: frames.last().code, stack_base: frames.last().stack_base },
        )
    }
}

/// What a control instruction does.
pub enum Control {
    /// It ran; the machine goes on at this position of the same frame, or,
    /// with `None`, wherever the frames now say.
    Next(Option<usize>),
    /// It raised this exception.
    Raise(ExceptionValue),
    /// It is not a control instruction: the caller carries it out.
    Other,
}

/// The error of an instruction that needs a value the stack does not have.
pub open spec fn underflow() -> Raised {
    (ExceptionType::RuntimeError, "Stack underflow"@)
}

/// The error of reading a local the frame does not have.
pub open spec fn missing_local(index: usize) -> Raised {
    (ExceptionType::RuntimeError, "local variable "@ + decimal_text(index as nat) + " not found"@)
}

/// The error of a stray `break` or `continue` in the code.
pub open spec fn stray_jump(is_break: bool) -> Raised {
    (ExceptionType::RuntimeError, if is_break {
        "'break' outside loop"@
    } else {
        "'continue' outside loop"@
    })
}

fn error(t: ExceptionType, m: &str) -> (res: ExceptionValue)
    ensures
        raised(res) == (t, m@),
        res.traceback is None,
{
    ExceptionValue::new(t, String::from_str(m))
}

impl<V> Machine<V> {
    /// A machine with nothing on its stack, no frame and no block.
    pub fn new() -> (res: Machine<V>)
        ensures
            res.stack@.len() == 0,
            res.frames@.len() == 0,
            res.blocks@.len() == 0,
    {
        Machine { stack: Vec::new(), frames: Vec::new(), blocks: Vec::new() }
    }

    /// Starts running `code` in a fresh frame with no locals.
    pub fn start(&mut self, code: ByteCode)
        ensures
            final(self).stack == old(self).stack,
            final(self).blocks == old(self).blocks,
            final(self).frames@.len() == old(self).frames@.len() + 1,
            final(self).frames@.drop_last() == old(self).frames@,
            final(self).frames@.last().locals@.len() == 0,
            final(self).frames@.last().ip == 0,
            final(self).frames@.last().code == code,
            final(self).frames@.last().stack_base == 0,
    {
        let f = Frame { locals: Vec::new(), ip: 0, code, stack_base: 0 };
        self.frames.push(f);
        assert(self.frames@.drop_last() =~= old(self).frames@);
    }

    /// Which instruction runs next: finished frames on top are dropped, and
    /// the position of the next instruction of the top frame is returned;
    /// `None` when no frame is left.
    pub fn fetch(&mut self) -> (res: Option<usize>)
        ensures
            final(self).stack == old(self).stack,
            final(self).blocks == old(self).blocks,
            final(self).frames@ == live_frames(old(self).frames@),
            final(self).frames@.len() == 0 ==> res is None,
            final(self).frames@.len() > 0 ==> res == Some(final(self).frames@.last().ip)
                && final(self).frames@.last().ip < final(self).frames@.last().code@.len(),
    {
        loop
            invariant
                self.stack == old(self).stack,
                self.blocks == old(self).blocks,
                live_frames(self.frames@) == live_frames(old(self).frames@),
            decreases self.frames@.len(),
        {
            let n = self.frames.len();
            if n == 0 {
                return None;
            }
            let top = &self.frames[n - 1];
            if top.ip < top.code.len() {
                let ip = top.ip;
                return Some(ip);
            }
            self.frames.pop();
        }
    }

    /// Ends a step: the top frame goes on at `next` (unless the step moved
    /// to another frame, `None`). When the step raised, the innermost handler
    /// block takes the exception and the frame goes on at its handler; with
    /// no block entered the exception is handed back.
    pub fn finish_step(&mut self, next: Option<usize>, result: Result<(), V>) -> (res: Result<(), V>)
        ensures
            ({
                let fs = match next {
                    Some(ip) => at_ip(old(self).frames@, ip),
                    None => old(self).frames@,
                };
                match result {
                    Ok(_) => {
                        &&& res is Ok
                        &&& final(self).frames@ == fs
                        &&& final(self).stack@ == old(self).stack@
                        &&& final(self).blocks@ == old(self).blocks@
                    },
                    Err(e) => if old(self).blocks@.len() == 0 {
                        &&& res == Err::<(), V>(e)
                        &&& final(self).frames@ == fs
                        &&& final(self).stack@ == old(self).stack@
                        &&& final(self).blocks@ == old(self).blocks@
                    } else {
                        let b = old(self).blocks@.last();
                        &&& res is Ok
                        &&& final(self).frames@ == at_ip(fs, b.handler)
                        &&& final(self).blocks@ == old(self).blocks@.drop_last()
                        &&& final(self).stack@ == crate::blocks::cut(old(self).stack@, b.stack_size as nat).push(e)
                    },
                }
            }),
    {
        match next {
            Some(ip) => self.set_ip(ip),
            None => {},
        }
        match result {
            Ok(_) => Ok(()),
            Err(e) => match unwind(&mut self.stack, &mut self.blocks, e) {
                Ok(handler) => {
                    self.set_ip(handler);
                    Ok(())
                },
                Err(e) => Err(e),
            },
        }
    }

    /// Sets the top frame's position.
    fn set_ip(&mut self, ip: usize)
        ensures
            final(self).frames@ == at_ip(old(self).frames@, ip),
            final(self).stack == old(self).stack,
            final(self).blocks == old(self).blocks,
    {
        let n = self.frames.len();
        if n > 0 {
            let mut f = self.frames.pop().unwrap();
            f.ip = ip;
            self.frames.push(f);
            assert(self.frames@ =~= at_ip(old(self).frames@, ip));
        }
    }

    /// Calls a function: the caller goes on at `return_ip` when it returns,
    /// and a frame for the function, with the arguments as its locals, is
    /// entered at its first instruction.
    pub fn enter_function(&mut self, return_ip: usize, args: Vec<V>, code: ByteCode)
        ensures
            final(self).stack == old(self).stack,
            final(self).blocks == old(self).blocks,
            final(self).frames@ == at_ip(old(self).frames@, return_ip).push(
                Frame { locals: args, ip: 0, code, stack_base: old(self).stack@.len() as usize },
            ),
    {
        self.set_ip(return_ip);
        let base = self.stack.len();
        self.frames.push(Frame { locals: args, ip: 0, code, stack_base: base });
    }
}

/// The two states hold the same stack, frames and blocks.
pub open spec fn same<V>(a: Machine<V>, b: Machine<V>) -> bool {
    &&& a.stack@ == b.stack@
    &&& a.frames@ == b.frames@
    &&& a.blocks@ == b.blocks@
}

/// `b` is `a` with only the stack changed, to `stack`.
pub open spec fn with_stack<V>(a: Machine<V>, b: Machine<V>, stack: Seq<V>) -> bool {
    &&& b.stack@ == stack
    &&& b.frames@ == a.frames@
    &&& b.blocks@ == a.blocks@
}

/// `b` is `a` with only the blocks changed, to `blocks`.
pub open spec fn with_blocks<V>(a: Machine<V>, b: Machine<V>, blocks: Seq<Block>) -> bool {
    &&& b.stack@ == a.stack@
    &&& b.frames@ == a.frames@
    &&& b.blocks@ == blocks
}

/// `res` raised `r` and the state is unchanged.
pub open spec fn raised_unchanged<V>(a: Machine<V>, b: Machine<V>, res: Control, r: Raised) -> bool {
    &&& res matches Control::Raise(e) && raised(e) == r && e.traceback is None
    &&& same(a, b)
}

/// The innermost block popped, if there is one.
pub open spec fn popped_block(blocks: Seq<Block>) -> Seq<Block> {
    if blocks.len() == 0 {
        blocks
    } else {
        blocks.drop_last()
    }
}

impl<V: Clone> Machine<V> {
    /// Runs a control instruction found at position `ip` of the top frame:
    /// `Pop`, `Dup`, `GetLocal`, `Jump`, the entering and leaving of `try`
    /// and `finally` blocks, `Return`, and a stray `Break` or `Continue`,
    /// which raises. Any other instruction is left to the caller.
    pub fn control(&mut self, instr: &Instruction, ip: usize) -> (res: Control)
        requires
            ip < usize::MAX,
        ensures
            match *instr {
                Instruction::Pop => if old(self).stack@.len() == 0 {
                    raised_unchanged(*old(self), *final(self), res, underflow())
                } else {
                    res == Control::Next(Some((ip + 1) as usize)) && with_stack(
                        *old(self),
                        *final(self),
                        old(self).stack@.drop_last(),
                    )
                },
                Instruction::Dup => if old(self).stack@.len() == 0 {
                    raised_unchanged(*old(self), *final(self), res, underflow())
                } else {
                    &&& res == Control::Next(Some((ip + 1) as usize))
                    &&& final(self).stack@.len() == old(self).stack@.len() + 1
                    &&& with_stack(*old(self), *final(self), old(self).stack@.push(final(self).stack@.last()))
                    &&& cloned::<V>(old(self).stack@.last(), final(self).stack@.last())
                },
                Instruction::GetLocal(i) => if old(self).frames@.len() == 0 {
                    raised_unchanged(*old(self), *final(self), res, (ExceptionType::RuntimeError, "no active frame"@))
                } else if i >= old(self).frames@.last().locals@.len() {
                    raised_unchanged(*old(self), *final(self), res, missing_local(i))
                } else {
                    &&& res == Control::Next(Some((ip + 1) as usize))
                    &&& final(self).stack@.len() == old(self).stack@.len() + 1
                    &&& with_stack(*old(self), *final(self), old(self).stack@.push(final(self).stack@.last()))
                    &&& cloned::<V>(old(self).frames@.last().locals@[i as int], final(self).stack@.last())
                },
                Instruction::Jump(t) => res == Control::Next(Some(t)) && same(*old(self), *final(self)),
                Instruction::SetupTry(h) => res == Control::Next(Some((ip + 1) as usize)) && with_blocks(
                    *old(self),
                    *final(self),
                    old(self).blocks@.push(Block { kind: BlockKind::Try, handler: h, stack_size: old(self).stack@.len() as usize }),
                ),
                Instruction::SetupFinally(h) => res == Control::Next(Some((ip + 1) as usize)) && with_blocks(
                    *old(self),
                    *final(self),
                    old(self).blocks@.push(Block { kind: BlockKind::Finally, handler: h, stack_size: old(self).stack@.len() as usize }),
                ),
                Instruction::PopTry | Instruction::PopFinally => res == Control::Next(Some((ip + 1) as usize))
                    && with_blocks(*old(self), *final(self), popped_block(old(self).blocks@)),
                Instruction::Return => {
                    &&& res == Control::Next(None)
                    &&& final(self).stack@ == old(self).stack@
                    &&& final(self).blocks@ == old(self).blocks@
                    &&& final(self).frames@ == (if old(self).frames@.len() == 0 {
                        old(self).frames@
                    } else {
                        old(self).frames@.drop_last()
                    })
                },
                Instruction::Break => raised_unchanged(*old(self), *final(self), res, stray_jump(true)),
                Instruction::Continue => raised_unchanged(*old(self), *final(self), res, stray_jump(false)),
                _ => res is Other && same(*old(self), *final(self)),
            },
    {
        match instr {
            Instruction::Pop => {
                match self.stack.pop() {
                    Some(_) => Control::Next(Some(ip + 1)),
                    None => Control::Raise(error(ExceptionType::RuntimeError, "Stack underflow")),
                }
            },
            Instruction::Dup => {
                let n = self.stack.len();
                if n == 0 {
                    return Control::Raise(error(ExceptionType::RuntimeError, "Stack underflow"));
                }
                let v = self.stack[n - 1].clone();
                self.stack.push(v);
                Control::Next(Some(ip + 1))
            },
            Instruction::GetLocal(i) => {
                let n = self.frames.len();
                if n == 0 {
                    return Control::Raise(error(ExceptionType::RuntimeError, "no active frame"));
                }
                if *i >= self.frames[n - 1].locals.len() {
                    let mut m = String::from_str("local variable ");
                    push_decimal(&mut m, *i as u64);
                    m.append(" not found");
                    return Control::Raise(ExceptionValue::new(ExceptionType::RuntimeError, m));
                }
                let v = self.frames[n - 1].locals[*i].clone();
                self.stack.push(v);
                Control::Next(Some(ip + 1))
            },
            Instruction::Jump(t) => Control::Next(Some(*t)),
            Instruction::SetupTry(h) => {
                let depth = self.stack.len();
                setup_block(&mut self.blocks, BlockKind::Try, *h, depth);
                Control::Next(Some(ip + 1))
            },
            Instruction::SetupFinally(h) => {
                let depth = self.stack.len();
                setup_block(&mut self.blocks, BlockKind::Finally, *h, depth);
                Control::Next(Some(ip + 1))
            },
            Instruction::PopTry | Instruction::PopFinally => {
                pop_block(&mut self.blocks);
                Control::Next(Some(ip + 1))
            },
            Instruction::Return => {
                self.frames.pop();
                Control::Next(None)
            },
            Instruction::Break => Control::Raise(error(ExceptionType::RuntimeError, "'break' outside loop")),
            Instruction::Continue => Control::Raise(error(ExceptionType::RuntimeError, "'continue' outside loop")),
            _ => Control::Other,
        }
    }
}

impl<V: Clone> Machine<V> {
    /// `SetLocal(index)`: the value on top of the stack, which stays there,
    /// is copied into local `index` of the top frame; a frame with fewer
    /// locals is first filled up to `index` with copies of `none`.
    pub fn set_local(&mut self, index: usize, none: &V) -> (res: Result<(), ExceptionValue>)
        requires
            index < usize::MAX,
        ensures
            old(self).stack@.len() == 0 ==> (res matches Err(e) && raised(e) == underflow()
                && e.traceback is None && same(*old(self), *final(self))),
            old(self).stack@.len() > 0 && old(self).frames@.len() == 0 ==> (res matches Err(e)
                && raised(e) == (ExceptionType::RuntimeError, "no active frame"@) && e.traceback is None
                && same(*old(self), *final(self))),
            old(self).stack@.len() > 0 && old(self).frames@.len() > 0 ==> {
                let f = old(self).frames@.last();
                let g = final(self).frames@.last();
                &&& res is Ok
                &&& final(self).stack@ == old(self).stack@
                &&& final(self).blocks@ == old(self).blocks@
                &&& final(self).frames@.len() == old(self).frames@.len()
                &&& final(self).frames@.drop_last() == old(self).frames@.drop_last()
                &&& g.ip == f.ip && g.code == f.code && g.stack_base == f.stack_base
                &&& g.locals@.len() == (if index < f.locals@.len() { f.locals@.len() as int } else { index + 1 })
                &&& cloned::<V>(old(self).stack@.last(), g.locals@[index as int])
                &&& forall|j: int| 0 <= j < g.locals@.len() && j != index ==> {
                    if j < f.locals@.len() {
                        g.locals@[j] == f.locals@[j]
                    } else {
                        cloned::<V>(*none, #[trigger] g.locals@[j])
                    }
                }
            },
    {
        let n = self.stack.len();
        if n == 0 {
            return Err(error(ExceptionType::RuntimeError, "Stack underflow"));
        }
        if self.frames.len() == 0 {
            return Err(error(ExceptionType::RuntimeError, "no active frame"));
        }
        let v = self.stack[n - 1].clone();
        let mut f = self.frames.pop().unwrap();
        let ghost f0 = f;
        while f.locals.len() <= index
            invariant
                index < usize::MAX,
                f0.locals@.len() <= f.locals@.len(),
                f.locals@.len() <= (if index < f0.locals@.len() { f0.locals@.len() as int } else { index + 1 }),
                f.ip == f0.ip,
                f.code == f0.code,
                f.stack_base == f0.stack_base,
                forall|j: int| 0 <= j < f0.locals@.len() ==> f.locals@[j] == f0.locals@[j],
                forall|j: int| f0.locals@.len() <= j < f.locals@.len() ==> cloned::<V>(*none, #[trigger] f.locals@[j]),
            decreases index + 1 - f.locals@.len(),
        {
            let c = none.clone();
            f.locals.push(c);
        }
        f.locals.set(index, v);
        self.frames.push(f);
        assert(self.frames@.drop_last() =~= old(self).frames@.drop_last());
        Ok(())
    }
}

/// Where a conditional jump goes, given whether the value on top of the
/// stack is true, and whether that value is popped.
pub open spec fn branch_spec(instr: Instruction, ip: usize, truthy: bool) -> Option<(usize, bool)> {
    match instr {
        Instruction::JumpIfFalse(t) => Some((if truthy { (ip + 1) as usize } else { t }, true)),
        Instruction::JumpIfFalseOrPop(t) => Some(if truthy { ((ip + 1) as usize, true) } else { (t, false) }),
        Instruction::JumpIfTrueOrPop(t) => Some(if truthy { (t, false) } else { ((ip + 1) as usize, true) }),
        _ => None,
    }
}

impl<V> Machine<V> {
    /// A conditional jump found at position `ip`, given whether the value on
    /// top of the stack is true: `JumpIfFalse` pops it and jumps when it is
    /// false; `JumpIfFalseOrPop` (`and`) keeps it and jumps when it is false,
    /// else pops it; `JumpIfTrueOrPop` (`or`) keeps it and jumps when it is
    /// true, else pops it. The next position is returned; `None`, with
    /// nothing changed, for any other instruction.
    pub fn branch(&mut self, instr: &Instruction, ip: usize, truthy: bool) -> (res: Option<usize>)
        requires
            old(self).stack@.len() > 0,
            ip < usize::MAX,
        ensures
            match branch_spec(*instr, ip, truthy) {
                Some((next, pops)) => res == Some(next) && with_stack(
                    *old(self),
                    *final(self),
                    if pops { old(self).stack@.drop_last() } else { old(self).stack@ },
                ),
                None => res is None && same(*old(self), *final(self)),
            },
    {
        let (next, pops) = match instr {
            Instruction::JumpIfFalse(t) => (if truthy { ip + 1 } else { *t }, true),
            Instruction::JumpIfFalseOrPop(t) => if truthy { (ip + 1, true) } else { (*t, false) },
            Instruction::JumpIfTrueOrPop(t) => if truthy { (*t, false) } else { (ip + 1, true) },
            _ => { return None; },
        };
        if pops {
            self.stack.pop();
        }
        Some(next)
    }
}

impl<V> Machine<V> {
    /// The body of the function that `MakeFunction { code_len, .. }` at
    /// position `ip` of the top frame defines: the `code_len` instructions
    /// after it. The frame goes on right after the body, at the position
    /// returned with it.
    pub fn function_body(&self, ip: usize, code_len: usize) -> (res: Result<(ByteCode, usize), ExceptionValue>)
        requires
            self.frames@.len() > 0 ==> ip + 1 + code_len <= self.frames@.last().code@.len(),
        ensures
            self.frames@.len() == 0 ==> (res matches Err(e) && raised(e) == (
                ExceptionType::RuntimeError,
                "no active frame"@,
            ) && e.traceback is None),
            self.frames@.len() > 0 ==> (res matches Ok((body, next)) && next == ip + 1 + code_len
                && code_view(body@) == code_view(self.frames@.last().code@).subrange(
                ip + 1,
                ip + 1 + code_len,
            )),
    {
        let n = self.frames.len();
        if n == 0 {
            return Err(error(ExceptionType::RuntimeError, "no active frame"));
        }
        let code = &self.frames[n - 1].code;
        let len = code.len();
        assert(self.frames@.last() == self.frames@[n - 1]);
        assert(ip + 1 + code_len <= len);
        let end = ip + 1 + code_len;
        let body = copy_code(code, ip + 1, end);
        Ok((body, end))
    }
}

impl<V> Machine<V> {
    /// `ForIter(target)` at position `ip`, once the iterator on top of the
    /// stack has been stepped: a next value is pushed above the iterator and
    /// the loop body runs; with none, the machine jumps to `target`, the
    /// iterator left for the `Pop` there. The next position is returned.
    pub fn for_iter_step(&mut self, ip: usize, target: usize, next: Option<V>) -> (res: usize)
        requires
            ip < usize::MAX,
        ensures
            match next {
                Some(v) => res == ip + 1 && with_stack(*old(self), *final(self), old(self).stack@.push(v)),
                None => res == target && same(*old(self), *final(self)),
            },
    {
        match next {
            Some(v) => {
                self.stack.push(v);
                ip + 1
            },
            None => target,
        }
    }
}

} // verus!
