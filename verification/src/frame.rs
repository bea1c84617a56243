//! One routine activation: resume address, optional store target, locals,
//! evaluation stack, and the call's argument count.

use crate::ZmachineError;
use vstd::prelude::*;

verus! {

pub struct Frame {
    /// Byte address of the instruction to resume at after this routine returns.
    pub resume: usize,
    /// Variable index the routine's result is stored to, if the call stores.
    pub store: Option<u8>,
    /// Local variables, at most 15 of them.
    pub locals: Vec<u16>,
    /// Evaluation stack; grows unbounded.
    pub stack: Vec<u16>,
    /// How many arguments the routine was called with.
    pub arg_count: u8,
}

impl Frame {
    /// A frame is well-formed when its locals fit the 4-bit local count
    /// carried by the save format and its argument count fits a mask byte.
    pub open spec fn wf(&self) -> bool {
        &&& self.locals@.len() <= 15
        &&& self.arg_count <= 8
    }

    /// The sentinel frame installed at boot, so that global writes from the
    /// initial program counter are well-defined.
    pub fn empty() -> (r: Frame)
        ensures
            r.wf(),
            r.resume == 0usize,
            r.store is None,
            r.locals@ == Seq::<u16>::empty(),
            r.stack@ == Seq::<u16>::empty(),
            r.arg_count == 0u8,
    {
        Frame { resume: 0, store: None, locals: Vec::new(), stack: Vec::new(), arg_count: 0 }
    }

    /// A frame for a routine call: the first arguments overwrite the matching
    /// locals, and the evaluation stack starts empty.
    pub fn new(resume: usize, store: Option<u8>, locals: Vec<u16>, args: &[u16]) -> (r: Frame)
        requires
            locals@.len() <= 15,
            args@.len() <= 8,
        ensures
            r.wf(),
            r.resume == resume,
            r.store == store,
            r.stack@ == Seq::<u16>::empty(),
            r.arg_count == args@.len(),
            r.locals@.len() == locals@.len(),
            forall|i: int|
                0 <= i < locals@.len() && i < args@.len() ==> r.locals@[i] == args@[i],
            forall|i: int|
                args@.len() <= i < locals@.len() ==> r.locals@[i] == locals@[i],
    {
        let ghost locals0 = locals@;
        let mut locals = locals;
        let mut i: usize = 0;
        let n = locals.len();
        while i < args.len() && i < n
            invariant
                n == locals@.len(),
                n == locals0.len(),
                i <= args@.len(),
                i <= n,
                forall|j: int| 0 <= j < i ==> locals@[j] == args@[j],
                forall|j: int| i <= j < n ==> locals@[j] == locals0[j],
            decreases args@.len() - i,
        {
            let v = args[i];
            locals.set(i, v);
            i = i + 1;
        }
        Frame {
            resume,
            store,
            locals,
            stack: Vec::new(),
            arg_count: args.len() as u8,
        }
    }

    pub fn read_local(&self, index: u8) -> (r: Result<u16, ZmachineError>)
        ensures
            index < self.locals@.len() ==> r == Ok::<u16, ZmachineError>(
                self.locals@[index as int],
            ),
            index >= self.locals@.len() ==> r == Err::<u16, ZmachineError>(
                ZmachineError::BadAddress,
            ),
    {
        if (index as usize) < self.locals.len() {
            Ok(self.locals[index as usize])
        } else {
            Err(ZmachineError::BadAddress)
        }
    }

    pub fn write_local(&mut self, index: u8, value: u16) -> (r: Result<(), ZmachineError>)
        ensures
            final(self).resume == old(self).resume,
            final(self).store == old(self).store,
            final(self).stack == old(self).stack,
            final(self).arg_count == old(self).arg_count,
            index < old(self).locals@.len() ==> {
                &&& r == Ok::<(), ZmachineError>(())
                &&& final(self).locals@ == old(self).locals@.update(index as int, value)
            },
            index >= old(self).locals@.len() ==> {
                &&& r == Err::<(), ZmachineError>(ZmachineError::BadAddress)
                &&& final(self).locals == old(self).locals
            },
    {
        if (index as usize) < self.locals.len() {
            self.locals.set(index as usize, value);
            Ok(())
        } else {
            Err(ZmachineError::BadAddress)
        }
    }

    pub fn stack_push(&mut self, value: u16)
        ensures
            final(self).resume == old(self).resume,
            final(self).store == old(self).store,
            final(self).locals == old(self).locals,
            final(self).arg_count == old(self).arg_count,
            final(self).stack@ == old(self).stack@.push(value),
    {
        self.stack.push(value);
    }

    pub fn stack_pop(&mut self) -> (r: Result<u16, ZmachineError>)
        ensures
            final(self).resume == old(self).resume,
            final(self).store == old(self).store,
            final(self).locals == old(self).locals,
            final(self).arg_count == old(self).arg_count,
            old(self).stack@.len() > 0 ==> {
                &&& r == Ok::<u16, ZmachineError>(old(self).stack@.last())
                &&& final(self).stack@ == old(self).stack@.drop_last()
            },
            old(self).stack@.len() == 0 ==> {
                &&& r == Err::<u16, ZmachineError>(ZmachineError::StackUnderflow)
                &&& final(self).stack == old(self).stack
            },
    {
        if self.stack.len() > 0 {
            match self.stack.pop() {
                Some(v) => Ok(v),
                None => Err(ZmachineError::StackUnderflow),
            }
        } else {
            Err(ZmachineError::StackUnderflow)
        }
    }

    pub fn stack_peek(&self) -> (r: Result<u16, ZmachineError>)
        ensures
            self.stack@.len() > 0 ==> r == Ok::<u16, ZmachineError>(self.stack@.last()),
            self.stack@.len() == 0 ==> r == Err::<u16, ZmachineError>(
                ZmachineError::StackUnderflow,
            ),
    {
        if self.stack.len() > 0 {
            Ok(self.stack[self.stack.len() - 1])
        } else {
            Err(ZmachineError::StackUnderflow)
        }
    }
}

} // verus!
