//! The runtime: memory regions, the frame stack, the instruction decoder and
//! dispatcher, the object table, the dictionary and tokeniser, save and
//! restore, and the cooperative step loop that yields to the host for I/O.

use crate::buffer::{word_at, BufReader, Buffer};
use crate::frame::Frame;
use crate::instruction::{Branch, Instruction, Opcode, Operand, OperandType};
use crate::options::Options;
use crate::quetzal::{spec_frame_fits, QuetzalSave};
use crate::rng::{entropy_u32, xorshift_from_seed, xorshift_next, xorshift_reseed};
use crate::traits::{TextStyle, Window, UI};
use crate::zscii::{lower_char, ZChar, DEFAULT_UNICODE_TABLE};
use crate::zstring::{chars_of_str, decode_zstring, Alphabet};
use crate::ZmachineError;
use std::collections::VecDeque;
use vstd::prelude::*;

verus! {

/// What a step of the machine paused for: the game ended, a save or restore
/// is wanted, or the player must type a line or a character.
#[derive(Eq, PartialEq, Clone, Debug)]
pub enum Step {
    Done,
    Save(Vec<u8>),
    Restore,
    ReadChar,
    ReadLine,
}

/// A node of the object tree as the debugging accessors report it.
#[derive(Debug)]
pub struct Object {
    pub number: u16,
    pub name: Vec<char>,
    pub children: Vec<Object>,
}

pub struct Zmachine<ZUI> {
    pub ui: ZUI,
    pub options: Options,
    version: u8,
    memory: Buffer,
    /// The story image as booted, for stating that static and high memory
    /// never change.
    story: Ghost<Seq<u8>>,
    original_dynamic: Vec<u8>,
    static_start: usize,
    routine_offset: usize,
    string_offset: usize,
    alphabet: Alphabet,
    unicode_table: Option<Vec<char>>,
    abbrev_table: usize,
    separators: Vec<char>,
    dictionary: Vec<(Vec<char>, usize)>,
    frames: Vec<Frame>,
    initial_pc: usize,
    pc: usize,
    globals_addr: usize,
    prop_defaults: usize,
    obj_table_addr: usize,
    obj_size: usize,
    attr_width: usize,
    paused_instr: Option<Instruction>,
    undos: VecDeque<Vec<u8>>,
    rng: rand::XorShiftRng,
    disable_output: bool,
    memory_output: Vec<(usize, usize)>,
    current_style: TextStyle,
}

impl<ZUI> Zmachine<ZUI> {
    /// The invariant every operation preserves. In particular: static and
    /// high memory are bitwise identical to the booted story, and the frame
    /// stack is never empty.
    pub closed spec fn wf(&self) -> bool {
        &&& 3 <= self.version <= 8
        &&& self.memory@.len() == self.story@.len()
        &&& 64 <= self.static_start <= self.memory@.len()
        &&& self.memory@.len() <= 0x7FFFFF
        &&& forall|i: int|
            self.static_start <= i < self.memory@.len() ==> self.memory@[i] == self.story@[i]
        &&& self.original_dynamic@.len() == self.static_start
        &&& self.frames@.len() >= 1
        &&& forall|i: int| 0 <= i < self.frames@.len() ==> (#[trigger] self.frames@[i]).wf()
        &&& self.globals_addr + 480 <= self.static_start
        &&& self.obj_table_addr <= 0x10100
        &&& self.prop_defaults <= 0x10100
        &&& self.alphabet.wf()
        &&& self.attr_width == (if self.version <= 3 {
            4int
        } else {
            6int
        })
        &&& self.obj_size == (if self.version <= 3 {
            9int
        } else {
            14int
        })
    }

    /// The output-stream bookkeeping, the paused instruction and the undo
    /// ring, unchanged by plain memory and variable operations.
    pub closed spec fn same_streams(a: &Self, b: &Self) -> bool {
        &&& a.memory_output@ == b.memory_output@
        &&& a.disable_output == b.disable_output
        &&& a.current_style == b.current_style
        &&& a.paused_instr == b.paused_instr
        &&& a.undos@ == b.undos@
    }

    /// The fields fixed at boot, unchanged by execution.
    pub closed spec fn same_layout(a: &Self, b: &Self) -> bool {
        &&& a.version == b.version
        &&& a.story == b.story
        &&& a.static_start == b.static_start
        &&& a.original_dynamic@ == b.original_dynamic@
        &&& a.globals_addr == b.globals_addr
        &&& a.initial_pc == b.initial_pc
        &&& a.routine_offset == b.routine_offset
        &&& a.string_offset == b.string_offset
        &&& a.abbrev_table == b.abbrev_table
        &&& a.prop_defaults == b.prop_defaults
        &&& a.obj_table_addr == b.obj_table_addr
        &&& a.obj_size == b.obj_size
        &&& a.attr_width == b.attr_width
        &&& a.alphabet.a0@ == b.alphabet.a0@
        &&& a.alphabet.a1@ == b.alphabet.a1@
        &&& a.alphabet.a2@ == b.alphabet.a2@
    }

    pub closed spec fn spec_version(&self) -> u8 {
        self.version
    }

    pub closed spec fn spec_pc(&self) -> usize {
        self.pc
    }

    pub closed spec fn spec_memory(&self) -> Seq<u8> {
        self.memory@
    }

    pub closed spec fn spec_static_start(&self) -> usize {
        self.static_start
    }

    pub closed spec fn spec_frames(&self) -> Seq<Frame> {
        self.frames@
    }

    pub closed spec fn spec_story(&self) -> Seq<u8> {
        self.story@
    }

    /// The dynamic region as snapshotted at boot.
    pub closed spec fn spec_original_dynamic(&self) -> Seq<u8> {
        self.original_dynamic@
    }

    /// The instruction a pause left waiting for the host.
    pub closed spec fn spec_paused(&self) -> Option<Instruction> {
        self.paused_instr
    }

    /// Whether screen output is switched off (stream 1 deselected).
    pub closed spec fn spec_output_disabled(&self) -> bool {
        self.disable_output
    }

    /// The stack of open in-memory output streams, each a start address
    /// and a write cursor.
    pub closed spec fn spec_streams(&self) -> Seq<(int, int)> {
        Seq::new(
            self.memory_output@.len(),
            |i: int| (self.memory_output@[i].0 as int, self.memory_output@[i].1 as int),
        )
    }

    pub closed spec fn spec_globals_addr(&self) -> usize {
        self.globals_addr
    }

    pub closed spec fn spec_prop_defaults(&self) -> int {
        self.prop_defaults as int
    }

    pub closed spec fn spec_routine_offset(&self) -> int {
        self.routine_offset as int
    }

    pub closed spec fn spec_string_offset(&self) -> int {
        self.string_offset as int
    }

    pub closed spec fn spec_initial_pc(&self) -> usize {
        self.initial_pc
    }

    /// A packed address expanded by the version's multiplier.
    pub open spec fn spec_unpack(&self, addr: u16) -> int {
        if self.spec_version() <= 3 {
            addr * 2
        } else if self.spec_version() <= 7 {
            addr * 4
        } else {
            addr * 8
        }
    }

    /// The word value of global variable `g`.
    pub open spec fn spec_global(&self, g: int) -> u16 {
        word_at(self.spec_memory(), self.spec_globals_addr() + 2 * g)
    }

    /// The top frame, whose locals and evaluation stack the variable
    /// namespace addresses.
    pub open spec fn spec_top_frame(&self) -> Frame {
        self.spec_frames().last()
    }

    /// What well-formedness guarantees, stated for callers: after every
    /// operation the frame stack still has at least the sentinel frame,
    /// and static and high memory are bitwise identical to the booted
    /// story image.
    pub proof fn lemma_wf_invariants(&self)
        requires
            self.wf(),
        ensures
            self.spec_frames().len() >= 1,
            self.spec_memory().len() == self.spec_story().len(),
            forall|i: int|
                self.spec_static_start() <= i < self.spec_memory().len()
                    ==> self.spec_memory()[i] == self.spec_story()[i],
    {
    }

    /// What `same_layout` guarantees, stated for callers: the fields fixed
    /// at boot — the story image, the static-memory boundary, the snapshot
    /// of dynamic memory, the version and the header-derived addresses —
    /// survive every operation whose contract relates two states by it.
    /// With `lemma_wf_invariants` on each side this gives that static and
    /// high memory are bitwise identical across the operation.
    pub proof fn lemma_layout_preserved(a: &Self, b: &Self)
        requires
            Self::same_layout(a, b),
        ensures
            a.spec_version() == b.spec_version(),
            a.spec_story() == b.spec_story(),
            a.spec_static_start() == b.spec_static_start(),
            a.spec_original_dynamic() == b.spec_original_dynamic(),
            a.spec_initial_pc() == b.spec_initial_pc(),
            a.spec_globals_addr() == b.spec_globals_addr(),
            a.spec_obj_table_addr() == b.spec_obj_table_addr(),
            a.spec_obj_size() == b.spec_obj_size(),
            a.spec_attr_width() == b.spec_attr_width(),
            a.spec_prop_defaults() == b.spec_prop_defaults(),
            a.spec_routine_offset() == b.spec_routine_offset(),
            a.spec_string_offset() == b.spec_string_offset(),
    {
    }

    /// Static and high memory survive any operation whose contract gives
    /// well-formedness of both states and `same_layout` between them: both
    /// agree with the same story image from the static boundary up, so
    /// they agree with each other byte for byte.
    pub proof fn lemma_static_memory_preserved(a: &Self, b: &Self)
        requires
            a.wf(),
            b.wf(),
            Self::same_layout(a, b),
        ensures
            b.spec_static_start() == a.spec_static_start(),
            b.spec_memory().len() == a.spec_memory().len(),
            forall|i: int|
                a.spec_static_start() <= i < a.spec_memory().len() ==> b.spec_memory()[i]
                    == a.spec_memory()[i],
    {
        assert forall|i: int|
            a.spec_static_start() <= i < a.spec_memory().len() implies b.spec_memory()[i]
            == a.spec_memory()[i] by {
            assert(a.spec_memory()[i] == a.spec_story()[i]);
            assert(b.spec_memory()[i] == b.spec_story()[i]);
        }
    }

    /// Read the byte at `addr`.
    fn mem_read_byte(&self, addr: usize) -> (r: Result<u8, ZmachineError>)
        ensures
            addr < self.spec_memory().len() ==> r == Ok::<u8, ZmachineError>(
                self.spec_memory()[addr as int],
            ),
            addr >= self.spec_memory().len() ==> r is Err,
    {
        self.memory.read_byte(addr)
    }

    /// Read the big-endian word at `addr`.
    fn mem_read_word(&self, addr: usize) -> (r: Result<u16, ZmachineError>)
        ensures
            addr + 2 <= self.spec_memory().len() ==> r == Ok::<u16, ZmachineError>(
                word_at(self.spec_memory(), addr as int),
            ),
            addr + 2 > self.spec_memory().len() ==> r is Err,
    {
        self.memory.read_word(addr)
    }

    /// Write a byte; only dynamic memory may be written.
    fn mem_write_byte(&mut self, addr: usize, value: u8) -> (r: Result<(), ZmachineError>)
        requires
            old(self).wf(),
        ensures
            final(self).wf(),
            Self::same_layout(old(self), final(self)),
            Self::same_streams(old(self), final(self)),
            final(self).spec_frames() == old(self).spec_frames(),
            final(self).spec_pc() == old(self).spec_pc(),
            addr < old(self).spec_static_start() ==> {
                &&& r is Ok
                &&& final(self).spec_memory() == old(self).spec_memory().update(
                    addr as int,
                    value,
                )
            },
            addr >= old(self).spec_static_start() ==> {
                &&& r == Err::<(), ZmachineError>(ZmachineError::BadAddress)
                &&& final(self).spec_memory() == old(self).spec_memory()
            },
    {
        if addr < self.static_start {
            let res = self.memory.write_byte(addr, value);
            proof {
                assert(res is Ok);
            }
            Ok(())
        } else {
            Err(ZmachineError::BadAddress)
        }
    }

    /// Write a big-endian word; only dynamic memory may be written.
    fn mem_write_word(&mut self, addr: usize, value: u16) -> (r: Result<(), ZmachineError>)
        requires
            old(self).wf(),
        ensures
            final(self).wf(),
            Self::same_layout(old(self), final(self)),
            Self::same_streams(old(self), final(self)),
            final(self).spec_frames() == old(self).spec_frames(),
            final(self).spec_pc() == old(self).spec_pc(),
            addr + 2 <= old(self).spec_static_start() ==> {
                &&& r is Ok
                &&& final(self).spec_memory() == old(self).spec_memory().update(
                    addr as int,
                    crate::buffer::word_hi(value),
                ).update(addr + 1, crate::buffer::word_lo(value))
                &&& word_at(final(self).spec_memory(), addr as int) == value
            },
            addr + 2 > old(self).spec_static_start() ==> {
                &&& r == Err::<(), ZmachineError>(ZmachineError::BadAddress)
                &&& final(self).spec_memory() == old(self).spec_memory()
            },
    {
        if addr < self.static_start && self.static_start - addr >= 2 {
            let res = self.memory.write_word(addr, value);
            proof {
                assert(res is Ok);
            }
            Ok(())
        } else {
            Err(ZmachineError::BadAddress)
        }
    }

    /// Read a global variable (index 0 to 239).
    fn read_global(&self, index: u8) -> (r: Result<u16, ZmachineError>)
        requires
            self.wf(),
            index < 240,
        ensures
            r == Ok::<u16, ZmachineError>(self.spec_global(index as int)),
    {
        let addr = self.globals_addr + (index as usize) * 2;
        self.mem_read_word(addr)
    }

    /// Write a global variable (index 0 to 239).
    fn write_global(&mut self, index: u8, value: u16) -> (r: Result<(), ZmachineError>)
        requires
            old(self).wf(),
            index < 240,
        ensures
            final(self).wf(),
            Self::same_layout(old(self), final(self)),
            Self::same_streams(old(self), final(self)),
            final(self).spec_frames() == old(self).spec_frames(),
            final(self).spec_pc() == old(self).spec_pc(),
            r is Ok,
            word_at(final(self).spec_memory(), old(self).spec_globals_addr() + 2 * index)
                == value,
            final(self).spec_global(index as int) == value,
            final(self).spec_memory() == old(self).spec_memory().update(
                old(self).spec_globals_addr() + 2 * index,
                crate::buffer::word_hi(value),
            ).update(old(self).spec_globals_addr() + 2 * index + 1, crate::buffer::word_lo(value)),
    {
        let addr = self.globals_addr + (index as usize) * 2;
        self.mem_write_word(addr, value)
    }

    /// Read a local of the current frame (index 0 to 14).
    fn read_local(&self, index: u8) -> (r: Result<u16, ZmachineError>)
        requires
            self.wf(),
        ensures
            index < self.spec_top_frame().locals@.len() ==> r == Ok::<u16, ZmachineError>(
                self.spec_top_frame().locals@[index as int],
            ),
            index >= self.spec_top_frame().locals@.len() ==> r == Err::<u16, ZmachineError>(
                ZmachineError::BadAddress,
            ),
    {
        let n = self.frames.len();
        self.frames[n - 1].read_local(index)
    }

    /// Write a local of the current frame.
    fn write_local(&mut self, index: u8, value: u16) -> (r: Result<(), ZmachineError>)
        requires
            old(self).wf(),
        ensures
            final(self).wf(),
            Self::same_layout(old(self), final(self)),
            Self::same_streams(old(self), final(self)),
            final(self).spec_memory() == old(self).spec_memory(),
            final(self).pc == old(self).pc,
            final(self).spec_frames().len() == old(self).spec_frames().len(),
            forall|i: int|
                0 <= i < old(self).spec_frames().len() - 1 ==> final(self).spec_frames()[i]
                    == old(self).spec_frames()[i],
            index < old(self).spec_top_frame().locals@.len() ==> {
                &&& r is Ok
                &&& final(self).spec_top_frame().locals@ == old(self).spec_top_frame().locals@.update(index as int, value)
                &&& final(self).spec_top_frame().stack == old(self).spec_top_frame().stack
                &&& final(self).spec_top_frame().resume == old(self).spec_top_frame().resume
                &&& final(self).spec_top_frame().store == old(self).spec_top_frame().store
                &&& final(self).spec_top_frame().arg_count == old(self).spec_top_frame().arg_count
            },
            index >= old(self).spec_top_frame().locals@.len() ==> {
                &&& r is Err
                &&& final(self).spec_frames() == old(self).spec_frames()
            },
    {
        let n = self.frames.len();
        let mut f = self.frames.remove(n - 1);
        let res = f.write_local(index, value);
        self.frames.push(f);
        proof {
            if index < old(self).spec_top_frame().locals@.len() {
                assert(final(self).spec_frames() =~= old(self).spec_frames().update(
                    n - 1,
                    final(self).spec_frames().last(),
                ));
            } else {
                assert(final(self).spec_frames() =~= old(self).spec_frames());
            }
        }
        match res {
            Ok(_) => Ok(()),
            Err(e) => Err(e),
        }
    }

    /// Push onto the current frame's evaluation stack.
    fn stack_push(&mut self, value: u16)
        requires
            old(self).wf(),
        ensures
            final(self).wf(),
            Self::same_layout(old(self), final(self)),
            Self::same_streams(old(self), final(self)),
            final(self).spec_memory() == old(self).spec_memory(),
            final(self).pc == old(self).pc,
            final(self).spec_frames().len() == old(self).spec_frames().len(),
            forall|i: int|
                0 <= i < old(self).spec_frames().len() - 1 ==> final(self).spec_frames()[i]
                    == old(self).spec_frames()[i],
            final(self).spec_top_frame().stack@ == old(self).spec_top_frame().stack@.push(value),
            final(self).spec_top_frame().locals == old(self).spec_top_frame().locals,
            final(self).spec_top_frame().resume == old(self).spec_top_frame().resume,
            final(self).spec_top_frame().store == old(self).spec_top_frame().store,
            final(self).spec_top_frame().arg_count == old(self).spec_top_frame().arg_count,
    {
        let n = self.frames.len();
        let mut f = self.frames.remove(n - 1);
        f.stack_push(value);
        self.frames.push(f);
        proof {
            assert(final(self).spec_frames() =~= old(self).spec_frames().update(
                n - 1,
                final(self).spec_frames().last(),
            ));
        }
    }

    /// Pop the current frame's evaluation stack; an empty stack is a fatal
    /// underflow.
    fn stack_pop(&mut self) -> (r: Result<u16, ZmachineError>)
        requires
            old(self).wf(),
        ensures
            final(self).wf(),
            Self::same_layout(old(self), final(self)),
            Self::same_streams(old(self), final(self)),
            final(self).spec_memory() == old(self).spec_memory(),
            final(self).pc == old(self).pc,
            final(self).spec_frames().len() == old(self).spec_frames().len(),
            forall|i: int|
                0 <= i < old(self).spec_frames().len() - 1 ==> final(self).spec_frames()[i]
                    == old(self).spec_frames()[i],
            old(self).spec_top_frame().stack@.len() > 0 ==> {
                &&& r == Ok::<u16, ZmachineError>(old(self).spec_top_frame().stack@.last())
                &&& final(self).spec_top_frame().stack@ == old(self).spec_top_frame().stack@.drop_last()
                &&& final(self).spec_top_frame().locals == old(self).spec_top_frame().locals
                &&& final(self).spec_top_frame().resume == old(self).spec_top_frame().resume
                &&& final(self).spec_top_frame().store == old(self).spec_top_frame().store
                &&& final(self).spec_top_frame().arg_count == old(self).spec_top_frame().arg_count
            },
            old(self).spec_top_frame().stack@.len() == 0 ==> {
                &&& r == Err::<u16, ZmachineError>(ZmachineError::StackUnderflow)
                &&& final(self).spec_frames() == old(self).spec_frames()
            },
    {
        let n = self.frames.len();
        let mut f = self.frames.remove(n - 1);
        let res = f.stack_pop();
        self.frames.push(f);
        proof {
            if old(self).spec_top_frame().stack@.len() > 0 {
                assert(final(self).spec_frames() =~= old(self).spec_frames().update(
                    n - 1,
                    final(self).spec_frames().last(),
                ));
            } else {
                assert(final(self).spec_frames() =~= old(self).spec_frames());
            }
        }
        res
    }

    /// Peek at the current frame's evaluation stack without popping.
    fn stack_peek(&self) -> (r: Result<u16, ZmachineError>)
        requires
            self.wf(),
        ensures
            self.spec_top_frame().stack@.len() > 0 ==> r == Ok::<u16, ZmachineError>(
                self.spec_top_frame().stack@.last(),
            ),
            self.spec_top_frame().stack@.len() == 0 ==> r == Err::<u16, ZmachineError>(
                ZmachineError::StackUnderflow,
            ),
    {
        let n = self.frames.len();
        self.frames[n - 1].stack_peek()
    }
}


impl<ZUI> Zmachine<ZUI> {
    /// Read a variable: 0 pops the evaluation stack, 1 to 15 read locals,
    /// 16 to 255 read globals.
    fn read_variable(&mut self, index: u8) -> (r: Result<u16, ZmachineError>)
        requires
            old(self).wf(),
        ensures
            final(self).wf(),
            Self::same_layout(old(self), final(self)),
            Self::same_streams(old(self), final(self)),
            final(self).spec_memory() == old(self).spec_memory(),
            final(self).pc == old(self).pc,
            final(self).spec_frames().len() == old(self).spec_frames().len(),
            index != 0 ==> final(self).spec_frames() == old(self).spec_frames(),
            final(self).spec_top_frame().locals == old(self).spec_top_frame().locals,
            final(self).spec_top_frame().resume == old(self).spec_top_frame().resume,
            final(self).spec_top_frame().store == old(self).spec_top_frame().store,
            final(self).spec_top_frame().arg_count == old(self).spec_top_frame().arg_count,
            index == 0 && old(self).spec_top_frame().stack@.len() > 0 ==> {
                &&& r == Ok::<u16, ZmachineError>(old(self).spec_top_frame().stack@.last())
                &&& final(self).spec_top_frame().stack@ == old(self).spec_top_frame().stack@.drop_last()
            },
            index == 0 && old(self).spec_top_frame().stack@.len() == 0 ==> r == Err::<
                u16,
                ZmachineError,
            >(ZmachineError::StackUnderflow),
            1 <= index <= 15 ==> r == (if index - 1 < old(self).spec_top_frame().locals@.len() {
                Ok::<u16, ZmachineError>(old(self).spec_top_frame().locals@[index - 1])
            } else {
                Err::<u16, ZmachineError>(ZmachineError::BadAddress)
            }),
            index >= 16 ==> r == Ok::<u16, ZmachineError>(old(self).spec_global(index - 16)),
    {
        if index == 0 {
            self.stack_pop()
        } else if index <= 15 {
            self.read_local(index - 1)
        } else {
            self.read_global(index - 16)
        }
    }

    /// Read a variable without popping: 0 peeks the evaluation stack.
    fn read_indirect_variable(&mut self, index: u8) -> (r: Result<u16, ZmachineError>)
        requires
            old(self).wf(),
        ensures
            final(self).wf(),
            Self::same_layout(old(self), final(self)),
            Self::same_streams(old(self), final(self)),
            final(self).spec_memory() == old(self).spec_memory(),
            final(self).pc == old(self).pc,
            final(self).spec_frames() == old(self).spec_frames(),
            index == 0 ==> r == (if old(self).spec_top_frame().stack@.len() > 0 {
                Ok::<u16, ZmachineError>(old(self).spec_top_frame().stack@.last())
            } else {
                Err::<u16, ZmachineError>(ZmachineError::StackUnderflow)
            }),
            1 <= index <= 15 ==> r == (if index - 1 < old(self).spec_top_frame().locals@.len() {
                Ok::<u16, ZmachineError>(old(self).spec_top_frame().locals@[index - 1])
            } else {
                Err::<u16, ZmachineError>(ZmachineError::BadAddress)
            }),
            index >= 16 ==> r == Ok::<u16, ZmachineError>(old(self).spec_global(index - 16)),
    {
        if index == 0 {
            self.stack_peek()
        } else if index <= 15 {
            self.read_local(index - 1)
        } else {
            self.read_global(index - 16)
        }
    }

    /// Write a variable: 0 pushes the evaluation stack.
    fn write_variable(&mut self, index: u8, value: u16) -> (r: Result<(), ZmachineError>)
        requires
            old(self).wf(),
        ensures
            final(self).wf(),
            Self::same_layout(old(self), final(self)),
            Self::same_streams(old(self), final(self)),
            final(self).pc == old(self).pc,
            final(self).spec_frames().len() == old(self).spec_frames().len(),
            forall|i: int|
                0 <= i < old(self).spec_frames().len() - 1 ==> final(self).spec_frames()[i]
                    == old(self).spec_frames()[i],
            index == 0 ==> {
                &&& r is Ok
                &&& final(self).spec_memory() == old(self).spec_memory()
                &&& final(self).spec_top_frame().stack@ == old(self).spec_top_frame().stack@.push(value)
                &&& final(self).spec_top_frame().locals == old(self).spec_top_frame().locals
                &&& final(self).spec_top_frame().resume == old(self).spec_top_frame().resume
                &&& final(self).spec_top_frame().store == old(self).spec_top_frame().store
                &&& final(self).spec_top_frame().arg_count == old(self).spec_top_frame().arg_count
            },
            1 <= index <= 15 ==> {
                &&& final(self).spec_memory() == old(self).spec_memory()
                &&& (r is Ok <==> index - 1 < old(self).spec_top_frame().locals@.len())
                &&& (r is Ok ==> final(self).spec_top_frame().locals@ == old(self).spec_top_frame().locals@.update(index - 1, value))
                &&& final(self).spec_top_frame().stack == old(self).spec_top_frame().stack
                &&& final(self).spec_top_frame().resume == old(self).spec_top_frame().resume
                &&& final(self).spec_top_frame().store == old(self).spec_top_frame().store
                &&& final(self).spec_top_frame().arg_count == old(self).spec_top_frame().arg_count
                &&& (r is Err ==> final(self).spec_frames() == old(self).spec_frames())
            },
            index >= 16 ==> {
                &&& r is Ok
                &&& final(self).spec_frames() == old(self).spec_frames()
                &&& final(self).spec_global(index - 16) == value
                &&& final(self).spec_memory() == Self::spec_global_written(
                    old(self),
                    value,
                    index - 16,
                )
            },
    {
        if index == 0 {
            self.stack_push(value);
            Ok(())
        } else if index <= 15 {
            self.write_local(index - 1, value)
        } else {
            self.write_global(index - 16, value)
        }
    }

    /// Write a variable in place: 0 replaces the top of the evaluation
    /// stack instead of pushing.
    fn write_indirect_variable(&mut self, index: u8, value: u16) -> (r: Result<
        (),
        ZmachineError,
    >)
        requires
            old(self).wf(),
        ensures
            final(self).wf(),
            Self::same_layout(old(self), final(self)),
            Self::same_streams(old(self), final(self)),
            final(self).pc == old(self).pc,
            final(self).spec_frames().len() == old(self).spec_frames().len(),
            // Frames below the current one are never touched.
            forall|i: int|
                0 <= i < old(self).spec_frames().len() - 1 ==> final(self).spec_frames()[i]
                    == old(self).spec_frames()[i],
            index == 0 ==> {
                &&& final(self).spec_memory() == old(self).spec_memory()
                &&& (r is Ok <==> old(self).spec_top_frame().stack@.len() > 0)
                &&& (r is Ok ==> final(self).spec_top_frame().stack@ == old(self).spec_top_frame().stack@.update(
                    old(self).spec_top_frame().stack@.len() - 1,
                    value,
                ))
                // Replacing the top of the stack leaves the locals alone.
                &&& final(self).spec_top_frame().locals == old(self).spec_top_frame().locals
                &&& final(self).spec_top_frame().resume == old(self).spec_top_frame().resume
                &&& final(self).spec_top_frame().store == old(self).spec_top_frame().store
                &&& final(self).spec_top_frame().arg_count == old(self).spec_top_frame().arg_count
                &&& (r is Err ==> final(self).spec_frames() == old(self).spec_frames())
            },
            1 <= index <= 15 ==> {
                &&& final(self).spec_memory() == old(self).spec_memory()
                &&& (r is Ok <==> index - 1 < old(self).spec_top_frame().locals@.len())
                &&& (r is Ok ==> final(self).spec_top_frame().locals@ == old(self).spec_top_frame().locals@.update(index - 1, value))
                // Writing a local leaves the evaluation stack alone.
                &&& final(self).spec_top_frame().stack == old(self).spec_top_frame().stack
                &&& final(self).spec_top_frame().resume == old(self).spec_top_frame().resume
                &&& final(self).spec_top_frame().store == old(self).spec_top_frame().store
                &&& final(self).spec_top_frame().arg_count == old(self).spec_top_frame().arg_count
                &&& (r is Err ==> final(self).spec_frames() == old(self).spec_frames())
            },
            index >= 16 ==> {
                &&& r is Ok
                &&& final(self).spec_frames() == old(self).spec_frames()
                &&& final(self).spec_global(index - 16) == value
                &&& final(self).spec_memory() == Self::spec_global_written(
                    old(self),
                    value,
                    index - 16,
                )
            },
    {
        if index == 0 {
            let popped = self.stack_pop();
            match popped {
                Ok(_) => {
                    self.stack_push(value);
                    proof {
                        assert(final(self).spec_top_frame().stack@ =~= old(self).spec_top_frame().stack@.update(
                            old(self).spec_top_frame().stack@.len() - 1,
                            value,
                        ));
                    }
                    Ok(())
                },
                Err(e) => Err(e),
            }
        } else if index <= 15 {
            self.write_local(index - 1, value)
        } else {
            self.write_global(index - 16, value)
        }
    }
}

impl<ZUI> Zmachine<ZUI> {
    /// Write the interpreter's identity into the header: capability bits in
    /// flags1, screen dimensions (v4+), cleared feature bits in flags2, and
    /// standard revision 1.0. Only header bytes (below 0x40) change.
    fn set_dynamic_headers(&mut self) -> (r: Result<(), ZmachineError>)
        requires
            old(self).wf(),
        ensures
            final(self).wf(),
            Self::same_layout(old(self), final(self)),
            Self::same_streams(old(self), final(self)),
            final(self).spec_frames() == old(self).spec_frames(),
            final(self).spec_pc() == old(self).spec_pc(),
            r is Ok,
            final(self).spec_memory().len() == old(self).spec_memory().len(),
            forall|i: int|
                0x40 <= i < old(self).spec_memory().len() ==> final(self).spec_memory()[i]
                    == old(self).spec_memory()[i],
            final(self).spec_memory()[0x32] == 1 && final(self).spec_memory()[0x33] == 0,
            word_at(final(self).spec_memory(), 0x10) == word_at(old(self).spec_memory(), 0x10)
                & 0xFE57,
            old(self).spec_version() <= 3 ==> final(self).spec_memory()[0x01] == old(self).spec_memory()[0x01] | 0x60,
            old(self).spec_version() >= 4 ==> {
                &&& final(self).spec_memory()[0x01] == old(self).spec_memory()[0x01] | 0x1C
                &&& final(self).spec_memory()[0x20] == old(self).options.dimensions.1 as u8
                &&& final(self).spec_memory()[0x21] == old(self).options.dimensions.0 as u8
                &&& word_at(final(self).spec_memory(), 0x22) == old(self).options.dimensions.0
                &&& word_at(final(self).spec_memory(), 0x24) == old(self).options.dimensions.1
                &&& final(self).spec_memory()[0x26] == 1
                &&& final(self).spec_memory()[0x27] == 1
            },
            // Header bytes this routine does not own are left alone, so
            // nothing outside the named fields changes.
            forall|i: int|
                0 <= i < 0x40 && i != 0x01 && !(0x10 <= i <= 0x11) && !(0x20 <= i <= 0x27) && !(
                0x32 <= i <= 0x33) ==> final(self).spec_memory()[i] == old(self).spec_memory()[i],
            old(self).spec_version() <= 3 ==> forall|i: int|
                0x20 <= i <= 0x27 ==> final(self).spec_memory()[i] == old(self).spec_memory()[i],
    {
        if self.version <= 3 {
            let flags1 = match self.mem_read_byte(0x01) {
                Ok(b) => b,
                Err(_) => 0,
            };
            self.mem_write_byte(0x01, flags1 | 0x60)?;
        } else {
            let (width, height) = self.options.dimensions;
            // The byte fields take the two dimensions in the opposite order
            // to the word fields.
            self.mem_write_byte(0x20, height as u8)?;
            self.mem_write_byte(0x21, width as u8)?;
            self.mem_write_word(0x22, width)?;
            self.mem_write_word(0x24, height)?;
            self.mem_write_byte(0x26, 1)?;
            self.mem_write_byte(0x27, 1)?;
            let flags1 = match self.mem_read_byte(0x01) {
                Ok(b) => b,
                Err(_) => 0,
            };
            self.mem_write_byte(0x01, flags1 | 0x1C)?;
        }
        // Pictures, mouse, sound and menus are not supported.
        let flags2 = match self.mem_read_word(0x10) {
            Ok(w) => w,
            Err(_) => 0,
        };
        self.mem_write_word(0x10, flags2 & 0xFE57)?;
        self.mem_write_byte(0x32, 1)?;
        self.mem_write_byte(0x33, 0)?;
        Ok(())
    }

    /// The active ZSCII-to-Unicode table: the story's own v5+ table when it
    /// has one, the default table otherwise.
    pub fn unicode_table(&self) -> (r: &[char])
        ensures
            r@ == self.spec_unicode_table(),
    {
        match &self.unicode_table {
            None => vstd::array::array_as_slice(&DEFAULT_UNICODE_TABLE),
            Some(v) => v.as_slice(),
        }
    }

    pub closed spec fn spec_unicode_table(&self) -> Seq<char> {
        match self.unicode_table {
            None => DEFAULT_UNICODE_TABLE@,
            Some(v) => v@,
        }
    }

    /// The characters a run of ZSCII bytes denotes.
    fn bytes_to_string(&self, bytes: &Vec<u8>) -> (r: Vec<char>)
        ensures
            r@.len() == bytes@.len(),
            forall|i: int|
                0 <= i < bytes@.len() ==> r@[i] == crate::zscii::spec_to_char(
                    #[trigger] bytes@[i],
                    self.spec_unicode_table(),
                ),
    {
        let table = self.unicode_table();
        let mut out: Vec<char> = Vec::new();
        let n = bytes.len();
        let mut i: usize = 0;
        while i < n
            invariant
                n == bytes@.len(),
                i <= n,
                table@ == self.spec_unicode_table(),
                out@.len() == i,
                forall|j: int|
                    0 <= j < i ==> out@[j] == crate::zscii::spec_to_char(
                        #[trigger] bytes@[j],
                        self.spec_unicode_table(),
                    ),
            decreases n - i,
        {
            out.push(ZChar(bytes[i]).to_char(table));
            i = i + 1;
        }
        out
    }

    /// Decode the Z-string at `addr` with the machine's alphabet,
    /// abbreviation table and Unicode table: on an abbreviation-free
    /// string, exactly its decoded characters and the address after its
    /// last word.
    fn read_zstring(&self, addr: usize) -> (r: Result<(Vec<char>, usize), ZmachineError>)
        requires
            self.wf(),
        ensures
            match crate::zstring::spec_collect(self.spec_memory(), addr as int) {
                None => r is Err,
                Some((zs, end)) => {
                    &&& (r is Ok ==> r->Ok_0.1 == end)
                    &&& (crate::zstring::spec_no_abbrevs(zs) ==> r is Ok && r->Ok_0.0@
                        == crate::zstring::spec_decode_zchars(
                        zs,
                        crate::zstring::DecState::Alpha(0),
                        &self.alphabet,
                        self.spec_unicode_table(),
                    ))
                },
            },
    {
        decode_zstring(&self.memory, addr, &self.alphabet, self.abbrev_table, self.unicode_table())
    }

    /// The word separators the story declares, as loaded at boot.
    pub closed spec fn spec_separators(&self) -> Seq<char> {
        self.separators@
    }

    /// Load the word separators and dictionary entries the story declares:
    /// the separator characters come byte for byte from the table's head,
    /// and each dictionary entry is decoded at its declared stride.
    fn populate_dictionary(&mut self) -> (r: Result<(), ZmachineError>)
        requires
            old(self).wf(),
        ensures
            final(self).wf(),
            Self::same_layout(old(self), final(self)),
            Self::same_streams(old(self), final(self)),
            final(self).spec_memory() == old(self).spec_memory(),
            final(self).spec_frames() == old(self).spec_frames(),
            final(self).spec_pc() == old(self).spec_pc(),
            r is Ok ==> ({
                let ds = word_at(old(self).spec_memory(), 0x08) as int;
                let nsep = old(self).spec_memory()[ds] as int;
                let el = old(self).spec_memory()[ds + 1 + nsep] as int;
                let ec = word_at(old(self).spec_memory(), ds + 2 + nsep) as int;
                &&& ds + 4 + nsep <= old(self).spec_memory().len()
                &&& final(self).spec_separators().len() == nsep
                &&& forall|j: int|
                    0 <= j < nsep ==> final(self).spec_separators()[j] == old(
                        self,
                    ).spec_memory()[ds + 1 + j] as char
                &&& final(self).spec_dictionary().len() == ec
                &&& forall|e: int|
                    0 <= e < ec ==> (#[trigger] final(self).spec_dictionary()[e]).1 == ds + 4
                        + nsep + e * el
            }),
    {
        let dict_start = self.mem_read_word(0x08)? as usize;
        let mut read = BufReader::new(dict_start);
        let sep_count = read.byte(&self.memory)?;
        let mut seps: Vec<char> = Vec::new();
        let mut i: usize = 0;
        while i < sep_count as usize
            invariant
                self.wf(),
                *self == *old(self),
                i <= sep_count as usize,
                dict_start + 1 <= self.spec_memory().len(),
                dict_start == word_at(old(self).spec_memory(), 0x08),
                sep_count == old(self).spec_memory()[dict_start as int],
                read.pos == dict_start + 1 + i,
                seps@.len() == i,
                forall|j: int|
                    0 <= j < i ==> seps@[j] == old(self).spec_memory()[dict_start + 1 + j] as char,
            decreases sep_count as usize - i,
        {
            let b = read.byte(&self.memory)?;
            seps.push(b as char);
            i = i + 1;
        }
        let entry_length = read.byte(&self.memory)? as usize;
        let entry_count = read.word(&self.memory)? as usize;
        let entry_start = read.position();
        if entry_length == 0 {
            return Err(ZmachineError::MalformedImage);
        }
        if entry_length > 255 {
            return Err(ZmachineError::MalformedImage);
        }
        let mut dict: Vec<(Vec<char>, usize)> = Vec::new();
        let mut n: usize = 0;
        let mut addr = entry_start;
        while n < entry_count
            invariant
                self.wf(),
                *self == *old(self),
                1 <= entry_length <= 255,
                n <= entry_count,
                addr <= 0x7FFFFF + 256,
                addr == entry_start + n * entry_length,
                dict@.len() == n,
                forall|e: int|
                    0 <= e < n ==> (#[trigger] dict@[e]).1 == entry_start + e * entry_length,
            decreases entry_count - n,
        {
            if addr >= self.memory.len() {
                return Err(ZmachineError::MalformedImage);
            }
            let (word, _) = self.read_zstring(addr)?;
            dict.push((word, addr));
            proof {
                assert((n + 1) * entry_length == n * entry_length + entry_length)
                    by (nonlinear_arith);
            }
            addr = addr + entry_length;
            n = n + 1;
        }
        proof {
            let ds = word_at(old(self).spec_memory(), 0x08) as int;
            let nsep = old(self).spec_memory()[ds] as int;
            assert(entry_start == ds + 4 + nsep);
        }
        self.separators = seps;
        self.dictionary = dict;
        Ok(())
    }
}


/// The decimal digits of `n`, most significant first.
pub open spec fn spec_decimal(n: int) -> Seq<char>
    decreases n,
{
    if n <= 0 {
        Seq::empty()
    } else {
        spec_decimal(n / 10).push((48 + n % 10) as u8 as char)
    }
}

/// The decimal rendering of an unsigned 16-bit number.
pub fn u16_to_chars(n: u16) -> (r: Vec<char>)
    ensures
        n == 0 ==> r@ == seq!['0'],
        n > 0 ==> r@ == spec_decimal(n as int),
{
    if n == 0 {
        let mut out: Vec<char> = Vec::new();
        out.push('0');
        proof {
            assert(out@ =~= seq!['0']);
        }
        return out;
    }
    let mut digits: Vec<char> = Vec::new();
    let mut m = n;
    while m > 0
        invariant
            m <= n,
            spec_decimal(n as int) == spec_decimal(m as int) + digits@.reverse(),
        decreases m,
    {
        let d: u8 = (m % 10) as u8;
        digits.push((48 + d) as char);
        m = m / 10;
        proof {
            assert(digits@.reverse() =~= seq![(48 + d) as char] + digits@.drop_last().reverse());
            assert(spec_decimal((m * 10 + d) as int) == spec_decimal(m as int).push(
                (48 + d) as u8 as char,
            ));
            assert(spec_decimal(m as int).push((48 + d) as u8 as char) + digits@.drop_last().reverse()
                =~= spec_decimal(m as int) + digits@.reverse());
        }
    }
    let mut out: Vec<char> = Vec::new();
    let mut i = digits.len();
    while i > 0
        invariant
            i <= digits@.len(),
            out@ == digits@.skip(i as int).reverse(),
        decreases i,
    {
        i = i - 1;
        out.push(digits[i]);
        proof {
            assert(out@ =~= digits@.skip(i as int).reverse());
        }
    }
    proof {
        assert(digits@.skip(0) =~= digits@);
        assert(spec_decimal(0) + digits@.reverse() =~= digits@.reverse());
    }
    out
}

/// The decimal rendering of a signed 16-bit number.
pub fn i16_to_chars(n: i16) -> (r: Vec<char>)
    ensures
        n == 0 ==> r@ == seq!['0'],
        n > 0 ==> r@ == spec_decimal(n as int),
        n < 0 ==> r@ == seq!['-'] + spec_decimal(-(n as int)),
{
    if n >= 0 {
        u16_to_chars(n as u16)
    } else {
        let mag: u16 = if n == i16::MIN {
            32768u16
        } else {
            (-n) as u16
        };
        let digits = u16_to_chars(mag);
        let mut out: Vec<char> = Vec::new();
        out.push('-');
        let mut i: usize = 0;
        let dn = digits.len();
        while i < dn
            invariant
                dn == digits@.len(),
                i <= dn,
                out@ == seq!['-'] + digits@.take(i as int),
            decreases dn - i,
        {
            out.push(digits[i]);
            i = i + 1;
            proof {
                assert(out@ =~= seq!['-'] + digits@.take(i as int));
            }
        }
        proof {
            assert(digits@.take(dn as int) =~= digits@);
            assert(out@ =~= seq!['-'] + digits@);
        }
        out
    }
}

impl<ZUI> Zmachine<ZUI> {
    /// Boot a story image: validate the header, load the alphabet, Unicode
    /// and dictionary tables, snapshot dynamic memory, seed the generator,
    /// and write the interpreter header bits. Versions 0 and above 8 fail
    /// with `UnsupportedVersion`; an image whose header regions do not fit
    /// fails with `MalformedImage`.
    pub fn new(data: Vec<u8>, ui: ZUI, options: Options) -> (r: Result<
        Zmachine<ZUI>,
        ZmachineError,
    >)
        ensures
            data@.len() < 64 ==> r == Err::<Zmachine<ZUI>, ZmachineError>(
                ZmachineError::MalformedImage,
            ),
            data@.len() >= 64 && !(3 <= data@[0] <= 8) ==> r == Err::<
                Zmachine<ZUI>,
                ZmachineError,
            >(ZmachineError::UnsupportedVersion),
            r is Ok ==> {
                &&& r->Ok_0.wf()
                &&& r->Ok_0.spec_version() == data@[0]
                &&& r->Ok_0.spec_memory().len() == data@.len()
                &&& r->Ok_0.spec_static_start() == word_at(data@, 0x0E)
                &&& forall|i: int|
                    word_at(data@, 0x0E) <= i < data@.len() ==> r->Ok_0.spec_memory()[i]
                        == data@[i]
                &&& r->Ok_0.spec_pc() == word_at(data@, 0x06)
                &&& r->Ok_0.spec_frames().len() == 1
                &&& r->Ok_0.spec_top_frame().resume == 0
                &&& r->Ok_0.spec_top_frame().store is None
                &&& r->Ok_0.spec_top_frame().locals@ == Seq::<u16>::empty()
                &&& r->Ok_0.spec_top_frame().stack@ == Seq::<u16>::empty()
                &&& r->Ok_0.spec_top_frame().arg_count == 0
                &&& r->Ok_0.spec_initial_pc() == word_at(data@, 0x06)
                &&& r->Ok_0.spec_original_dynamic().len() == word_at(data@, 0x0E)
                // The boot snapshot is the image's dynamic region, byte for
                // byte, taken before the header is stamped.
                &&& r->Ok_0.spec_story() == data@
                &&& r->Ok_0.spec_original_dynamic() == data@.subrange(
                    0,
                    word_at(data@, 0x0E) as int,
                )
                // The interpreter header bits are applied; everything from
                // 0x40 up still equals the image.
                &&& forall|i: int|
                    0x40 <= i < data@.len() ==> r->Ok_0.spec_memory()[i] == data@[i]
                &&& r->Ok_0.spec_memory()[0x32] == 1 && r->Ok_0.spec_memory()[0x33] == 0
                &&& word_at(r->Ok_0.spec_memory(), 0x10) == word_at(data@, 0x10) & 0xFE57
                &&& (data@[0] <= 3 ==> r->Ok_0.spec_memory()[0x01] == (data@[0x01] | 0x60))
                &&& (data@[0] >= 4 ==> r->Ok_0.spec_memory()[0x01] == (data@[0x01] | 0x1C))
                // The word separators and the dictionary entry addresses
                // come from the header's dictionary block.
                &&& ({
                    let ds = word_at(data@, 0x08) as int;
                    let nsep = data@[ds] as int;
                    let el = data@[ds + 1 + nsep] as int;
                    let ec = word_at(data@, ds + 2 + nsep) as int;
                    ds >= 0x40 ==> {
                        &&& r->Ok_0.spec_separators().len() == nsep
                        &&& forall|j: int|
                            0 <= j < nsep ==> r->Ok_0.spec_separators()[j] == data@[ds + 1
                                + j] as char
                        &&& r->Ok_0.spec_dictionary().len() == ec
                        &&& forall|e: int|
                            0 <= e < ec ==> (#[trigger] r->Ok_0.spec_dictionary()[e]).1 == ds
                                + 4 + nsep + e * el
                    }
                })
            },
    {
        let memory = Buffer::new(data);
        if memory.len() < 64 {
            return Err(ZmachineError::MalformedImage);
        }
        let version = match memory.read_byte(0) {
            Ok(b) => b,
            Err(_) => {
                return Err(ZmachineError::MalformedImage);
            },
        };
        if version < 3 || version > 8 {
            return Err(ZmachineError::UnsupportedVersion);
        }
        if memory.len() > 0x7FFFFF {
            return Err(ZmachineError::MalformedImage);
        }
        let initial_pc = match memory.read_word(0x06) {
            Ok(w) => w as usize,
            Err(_) => {
                return Err(ZmachineError::MalformedImage);
            },
        };
        let prop_defaults = match memory.read_word(0x0A) {
            Ok(w) => w as usize,
            Err(_) => {
                return Err(ZmachineError::MalformedImage);
            },
        };
        let static_start = match memory.read_word(0x0E) {
            Ok(w) => w as usize,
            Err(_) => {
                return Err(ZmachineError::MalformedImage);
            },
        };
        if static_start < 64 || static_start > memory.len() {
            return Err(ZmachineError::MalformedImage);
        }
        let globals_addr = match memory.read_word(0x0C) {
            Ok(w) => w as usize,
            Err(_) => {
                return Err(ZmachineError::MalformedImage);
            },
        };
        if globals_addr + 480 > static_start {
            return Err(ZmachineError::MalformedImage);
        }
        let routine_offset = match memory.read_word(0x28) {
            Ok(w) => w as usize,
            Err(_) => {
                return Err(ZmachineError::MalformedImage);
            },
        };
        let string_offset = match memory.read_word(0x2A) {
            Ok(w) => w as usize,
            Err(_) => {
                return Err(ZmachineError::MalformedImage);
            },
        };
        let abbrev_table = match memory.read_word(0x18) {
            Ok(w) => w as usize,
            Err(_) => {
                return Err(ZmachineError::MalformedImage);
            },
        };
        let alpha_addr = match memory.read_word(0x34) {
            Ok(w) => w as usize,
            Err(_) => {
                return Err(ZmachineError::MalformedImage);
            },
        };
        let alphabet = if version >= 5 && alpha_addr != 0 {
            match Alphabet::from_memory(&memory, alpha_addr) {
                Ok(a) => a,
                Err(_) => {
                    return Err(ZmachineError::MalformedImage);
                },
            }
        } else {
            Alphabet::default()
        };
        // The v5+ table of extra header words may carry a custom
        // ZSCII-to-Unicode translation as its third entry.
        let unicode_table = if version >= 5 {
            match Self::load_unicode_table(&memory, alpha_addr) {
                Ok(t) => t,
                Err(_) => {
                    return Err(ZmachineError::MalformedImage);
                },
            }
        } else {
            None
        };
        let original_dynamic = match memory.slice(0, static_start) {
            Ok(v) => v,
            Err(_) => {
                return Err(ZmachineError::MalformedImage);
            },
        };
        let seed = options.rand_seed;
        let seed = if seed[0] == 0 && seed[1] == 0 && seed[2] == 0 && seed[3] == 0 {
            [90u32, 111u32, 114u32, 107u32]
        } else {
            seed
        };
        let rng = xorshift_from_seed(seed);
        let mut frames: Vec<Frame> = Vec::new();
        frames.push(Frame::empty());
        let obj_table_addr = prop_defaults + (if version <= 3 {
            62
        } else {
            126
        });
        let ghost story = memory@;
        let mut zvm = Zmachine {
            ui,
            version,
            memory,
            story: Ghost(story),
            original_dynamic,
            static_start,
            routine_offset,
            string_offset,
            alphabet,
            unicode_table,
            abbrev_table,
            separators: Vec::new(),
            dictionary: Vec::new(),
            frames,
            initial_pc,
            pc: initial_pc,
            globals_addr,
            prop_defaults,
            obj_table_addr,
            obj_size: if version <= 3 {
                9
            } else {
                14
            },
            attr_width: if version <= 3 {
                4
            } else {
                6
            },
            paused_instr: None,
            undos: VecDeque::new(),
            rng,
            options,
            disable_output: false,
            memory_output: Vec::new(),
            current_style: TextStyle::new(0),
        };
        if zvm.initial_pc >= zvm.memory.len() {
            return Err(ZmachineError::MalformedImage);
        }
        let ghost s0 = zvm;
        zvm.set_dynamic_headers()?;
        let ghost sh = zvm;
        zvm.populate_dictionary()?;
        proof {
            assert(s0.spec_memory() == data@);
            assert(word_at(sh.spec_memory(), 0x08) == word_at(data@, 0x08));
            let ds = word_at(data@, 0x08) as int;
            if ds >= 0x40 && ds + 1 <= data@.len() {
                assert(sh.spec_memory()[ds] == data@[ds]);
                let nsep = data@[ds] as int;
                if ds + 4 + nsep <= data@.len() {
                    assert(sh.spec_memory()[ds + 1 + nsep] == data@[ds + 1 + nsep]);
                    assert(word_at(sh.spec_memory(), ds + 2 + nsep) == word_at(
                        data@,
                        ds + 2 + nsep,
                    ));
                    assert forall|i: int| ds + 1 <= i < ds + 1 + nsep implies sh.spec_memory()[i]
                        == data@[i] by {
                        assert(0x40 <= i < data@.len());
                    }
                }
            }
            assert(zvm.spec_original_dynamic() =~= data@.subrange(0, word_at(data@, 0x0E) as int));
        }
        Ok(zvm)
    }

    /// Read the optional v5+ ZSCII-to-Unicode override out of the extra
    /// header words.
    fn load_unicode_table(memory: &Buffer, ext_addr: usize) -> (r: Result<
        Option<Vec<char>>,
        ZmachineError,
    >) {
        if ext_addr == 0 {
            return Ok(None);
        }
        let size = match memory.read_word(ext_addr) {
            Ok(w) => w as usize,
            Err(_) => {
                return Ok(None);
            },
        };
        if size < 4 || ext_addr > usize::MAX - 8 {
            return Ok(None);
        }
        let table_addr = match memory.read_word(ext_addr + 8) {
            Ok(w) => w as usize,
            Err(_) => {
                return Ok(None);
            },
        };
        if table_addr == 0 {
            return Ok(None);
        }
        let mut rd = BufReader::new(table_addr);
        let count = rd.word(memory)? as usize;
        let mut chars: Vec<char> = Vec::new();
        let mut i: usize = 0;
        while i < count
            invariant
                i <= count,
            decreases count - i,
        {
            let w = rd.word(memory)?;
            let c: char = match char::from_u32(w as u32) {
                Some(c) => c,
                None => '?',
            };
            chars.push(c);
            i = i + 1;
        }
        Ok(Some(chars))
    }

    /// A packed address expanded to a byte address: doubled for v1-3,
    /// quadrupled for v4-7, multiplied by eight for v8.
    fn unpack(&self, addr: u16) -> (r: usize)
        requires
            self.wf(),
        ensures
            r == self.spec_unpack(addr),
    {
        if self.version <= 3 {
            (addr as usize) * 2
        } else if self.version <= 7 {
            (addr as usize) * 4
        } else {
            (addr as usize) * 8
        }
    }

    /// A packed routine address; v6 and v7 add the routine-offset header
    /// field (an eight-byte unit count).
    fn unpack_routine_addr(&self, addr: u16) -> (r: Result<usize, ZmachineError>)
        requires
            self.wf(),
        ensures
            r is Ok ==> r->Ok_0 == self.spec_unpack(addr) + (if self.spec_version() == 6
                || self.spec_version() == 7 {
                self.spec_routine_offset() * 8
            } else {
                0int
            }),
            r is Err ==> self.spec_routine_offset() > 0xFFFF,
    {
        let base = self.unpack(addr);
        if self.version == 6 || self.version == 7 {
            if self.routine_offset > 0xFFFF {
                return Err(ZmachineError::BadAddress);
            }
            Ok(base + self.routine_offset * 8)
        } else {
            Ok(base)
        }
    }

    /// A packed string address; v6 and v7 add the string-offset header
    /// field.
    fn unpack_print_paddr(&self, addr: u16) -> (r: Result<usize, ZmachineError>)
        requires
            self.wf(),
        ensures
            r is Ok ==> r->Ok_0 == self.spec_unpack(addr) + (if self.spec_version() == 6
                || self.spec_version() == 7 {
                self.spec_string_offset() * 8
            } else {
                0int
            }),
            r is Err ==> self.spec_string_offset() > 0xFFFF,
    {
        let base = self.unpack(addr);
        if self.version == 6 || self.version == 7 {
            if self.string_offset > 0xFFFF {
                return Err(ZmachineError::BadAddress);
            }
            Ok(base + self.string_offset * 8)
        } else {
            Ok(base)
        }
    }
}


/// Object records at `base`, `size` bytes each, do not overlap.
pub proof fn lemma_obj_records_disjoint(base: int, size: int, o1: int, o2: int)
    requires
        size >= 1,
        1 <= o1,
        1 <= o2,
        o1 != o2,
    ensures
        base + (o1 - 1) * size + size <= base + (o2 - 1) * size || base + (o2 - 1) * size + size
            <= base + (o1 - 1) * size,
{
    if o1 < o2 {
        assert((o1 - 1) * size + size <= (o2 - 1) * size) by (nonlinear_arith)
            requires
                size >= 1,
                o1 + 1 <= o2,
        ;
    } else {
        assert((o2 - 1) * size + size <= (o1 - 1) * size) by (nonlinear_arith)
            requires
                size >= 1,
                o2 + 1 <= o1,
        ;
    }
}

impl<ZUI> Zmachine<ZUI> {
    /// The byte address of an object's record.
    pub open spec fn spec_obj_addr(&self, obj: u16) -> int {
        self.spec_obj_table_addr() + (obj - 1) * self.spec_obj_size()
    }

    pub closed spec fn spec_obj_table_addr(&self) -> int {
        self.obj_table_addr as int
    }

    pub closed spec fn spec_obj_size(&self) -> int {
        self.obj_size as int
    }

    pub closed spec fn spec_attr_width(&self) -> int {
        self.attr_width as int
    }

    /// Offset of the parent link inside a record.
    pub open spec fn spec_parent_off(&self) -> int {
        self.spec_attr_width()
    }

    /// Offset of the sibling link inside a record.
    pub open spec fn spec_sibling_off(&self) -> int {
        self.spec_attr_width() + (if self.spec_version() <= 3 {
            1int
        } else {
            2int
        })
    }

    /// Offset of the child link inside a record.
    pub open spec fn spec_child_off(&self) -> int {
        self.spec_attr_width() + (if self.spec_version() <= 3 {
            2int
        } else {
            4int
        })
    }

    /// One of an object's three tree links, as stored in memory: a byte in
    /// v3, a word in v4 and later. Object 0 has no record; its links read 0.
    pub open spec fn spec_link(&self, obj: u16, off: int) -> u16 {
        if obj == 0 {
            0u16
        } else if self.spec_version() <= 3 {
            self.spec_memory()[self.spec_obj_addr(obj) + off] as u16
        } else {
            word_at(self.spec_memory(), self.spec_obj_addr(obj) + off)
        }
    }

    pub open spec fn spec_parent(&self, obj: u16) -> u16 {
        self.spec_link(obj, self.spec_parent_off())
    }

    pub open spec fn spec_sibling(&self, obj: u16) -> u16 {
        self.spec_link(obj, self.spec_sibling_off())
    }

    pub open spec fn spec_child(&self, obj: u16) -> u16 {
        self.spec_link(obj, self.spec_child_off())
    }

    /// An object's record lies in writable dynamic memory.
    pub open spec fn spec_obj_in_bounds(&self, obj: u16) -> bool {
        1 <= obj && self.spec_obj_addr(obj) + self.spec_obj_size()
            <= self.spec_static_start()
    }

    /// The record address of a nonzero object number.
    fn get_object_addr(&self, object: u16) -> (r: Result<usize, ZmachineError>)
        requires
            self.wf(),
            object >= 1,
        ensures
            match r {
                Ok(a) => a == self.spec_obj_addr(object) && self.spec_obj_in_bounds(object),
                Err(_) => !self.spec_obj_in_bounds(object),
            },
    {
        proof {
            assert((object - 1) * self.obj_size <= 65534 * 14) by (nonlinear_arith)
                requires
                    0 <= object - 1 <= 65534,
                    0 <= self.obj_size <= 14,
            ;
        }
        let off = (object as usize - 1) * self.obj_size;
        let addr = self.obj_table_addr + off;
        if addr + self.obj_size <= self.static_start {
            Ok(addr)
        } else {
            Err(ZmachineError::BadAddress)
        }
    }

    /// Read one tree link.
    fn read_link(&self, object: u16, off: usize) -> (r: Result<u16, ZmachineError>)
        requires
            self.wf(),
            off == self.spec_parent_off() || off == self.spec_sibling_off() || off
                == self.spec_child_off(),
        ensures
            object == 0 ==> r == Ok::<u16, ZmachineError>(0u16),
            object >= 1 && self.spec_obj_in_bounds(object) ==> r == Ok::<u16, ZmachineError>(
                self.spec_link(object, off as int),
            ),
            object >= 1 && !self.spec_obj_in_bounds(object) ==> r is Err,
    {
        if object == 0 {
            return Ok(0);
        }
        let addr = self.get_object_addr(object)?;
        if self.version <= 3 {
            let b = self.mem_read_byte(addr + off)?;
            Ok(b as u16)
        } else {
            self.mem_read_word(addr + off)
        }
    }

    /// Write one tree link; writing to object 0 is a well-defined no-op.
    fn write_link(&mut self, object: u16, off: usize, value: u16) -> (r: Result<
        (),
        ZmachineError,
    >)
        requires
            old(self).wf(),
            off == old(self).spec_parent_off() || off == old(self).spec_sibling_off() || off
                == old(self).spec_child_off(),
        ensures
            final(self).wf(),
            Self::same_layout(old(self), final(self)),
            Self::same_streams(old(self), final(self)),
            final(self).spec_frames() == old(self).spec_frames(),
            final(self).spec_pc() == old(self).spec_pc(),
            object == 0 ==> r is Ok && final(self).spec_memory() == old(self).spec_memory(),
            object >= 1 && old(self).spec_obj_in_bounds(object) ==> {
                &&& r is Ok
                &&& (old(self).spec_version() <= 3 ==> final(self).spec_memory() == old(self).spec_memory().update(old(self).spec_obj_addr(object) + off, value as u8))
                &&& (old(self).spec_version() > 3 ==> final(self).spec_memory() == old(self).spec_memory().update(
                    old(self).spec_obj_addr(object) + off,
                    crate::buffer::word_hi(value),
                ).update(old(self).spec_obj_addr(object) + off + 1, crate::buffer::word_lo(value)))
                &&& (old(self).spec_version() <= 3 ==> final(self).spec_link(object, off as int)
                    == value % 256)
                &&& (old(self).spec_version() > 3 ==> final(self).spec_link(object, off as int)
                    == value)
            },
            object >= 1 && !old(self).spec_obj_in_bounds(object) ==> r is Err && final(self).spec_memory() == old(self).spec_memory(),
    {
        if object == 0 {
            return Ok(());
        }
        let addr = self.get_object_addr(object)?;
        if self.version <= 3 {
            let res = self.mem_write_byte(addr + off, value as u8);
            proof {
                assert(res is Ok);
                assert(self.spec_memory() == old(self).spec_memory().update(
                    old(self).spec_obj_addr(object) + off,
                    value as u8,
                ));
                assert((value as u8) as u16 == value % 256) by (bit_vector);
                assert(self.spec_link(object, off as int) == value % 256);
            }
            Ok(())
        } else {
            let res = self.mem_write_word(addr + off, value);
            proof {
                assert(res is Ok);
                assert(self.spec_memory() == old(self).spec_memory().update(
                    old(self).spec_obj_addr(object) + off,
                    crate::buffer::word_hi(value),
                ).update(old(self).spec_obj_addr(object) + off + 1, crate::buffer::word_lo(value)));
                assert(self.spec_link(object, off as int) == value);
            }
            Ok(())
        }
    }

    /// The parent of an object; object 0 has none.
    pub fn get_parent(&self, object: u16) -> (r: Result<u16, ZmachineError>)
        requires
            self.wf(),
        ensures
            object == 0 ==> r == Ok::<u16, ZmachineError>(0u16),
            object >= 1 && self.spec_obj_in_bounds(object) ==> r == Ok::<u16, ZmachineError>(
                self.spec_parent(object),
            ),
            object >= 1 && !self.spec_obj_in_bounds(object) ==> r is Err,
    {
        let off = self.attr_width;
        self.read_link(object, off)
    }

    pub fn get_sibling(&self, object: u16) -> (r: Result<u16, ZmachineError>)
        requires
            self.wf(),
        ensures
            object == 0 ==> r == Ok::<u16, ZmachineError>(0u16),
            object >= 1 && self.spec_obj_in_bounds(object) ==> r == Ok::<u16, ZmachineError>(
                self.spec_sibling(object),
            ),
            object >= 1 && !self.spec_obj_in_bounds(object) ==> r is Err,
    {
        let off = self.attr_width + (if self.version <= 3 {
            1
        } else {
            2
        });
        self.read_link(object, off)
    }

    pub fn get_child(&self, object: u16) -> (r: Result<u16, ZmachineError>)
        requires
            self.wf(),
        ensures
            object == 0 ==> r == Ok::<u16, ZmachineError>(0u16),
            object >= 1 && self.spec_obj_in_bounds(object) ==> r == Ok::<u16, ZmachineError>(
                self.spec_child(object),
            ),
            object >= 1 && !self.spec_obj_in_bounds(object) ==> r is Err,
    {
        let off = self.attr_width + (if self.version <= 3 {
            2
        } else {
            4
        });
        self.read_link(object, off)
    }

    fn set_parent(&mut self, object: u16, parent: u16) -> (r: Result<(), ZmachineError>)
        requires
            old(self).wf(),
        ensures
            final(self).wf(),
            Self::same_layout(old(self), final(self)),
            Self::same_streams(old(self), final(self)),
            final(self).spec_frames() == old(self).spec_frames(),
            final(self).spec_pc() == old(self).spec_pc(),
            object == 0 ==> r is Ok && final(self).spec_memory() == old(self).spec_memory(),
            object >= 1 && old(self).spec_obj_in_bounds(object) ==> {
                &&& r is Ok
                &&& final(self).spec_parent(object) == (if old(self).spec_version() <= 3 {
                    (parent % 256) as u16
                } else {
                    parent
                })
                &&& final(self).spec_sibling(object) == old(self).spec_sibling(object)
                &&& final(self).spec_child(object) == old(self).spec_child(object)
                &&& Self::links_preserved_except(old(self), final(self), object,
                old(self).spec_parent_off())
            },
            object >= 1 && !old(self).spec_obj_in_bounds(object) ==> r is Err && final(self).spec_memory() == old(self).spec_memory(),
    {
        let off = self.attr_width;
        let r = self.write_link(object, off, parent);
        proof {
            if object >= 1 && old(self).spec_obj_in_bounds(object) {
                Self::lemma_link_write_frame(old(self), final(self), object, off as int);
            }
        }
        r
    }

    fn set_sibling(&mut self, object: u16, sibling: u16) -> (r: Result<(), ZmachineError>)
        requires
            old(self).wf(),
        ensures
            final(self).wf(),
            Self::same_layout(old(self), final(self)),
            Self::same_streams(old(self), final(self)),
            final(self).spec_frames() == old(self).spec_frames(),
            final(self).spec_pc() == old(self).spec_pc(),
            object == 0 ==> r is Ok && final(self).spec_memory() == old(self).spec_memory(),
            object >= 1 && old(self).spec_obj_in_bounds(object) ==> {
                &&& r is Ok
                &&& final(self).spec_sibling(object) == (if old(self).spec_version() <= 3 {
                    (sibling % 256) as u16
                } else {
                    sibling
                })
                &&& final(self).spec_parent(object) == old(self).spec_parent(object)
                &&& final(self).spec_child(object) == old(self).spec_child(object)
                &&& Self::links_preserved_except(old(self), final(self), object,
                old(self).spec_sibling_off())
            },
            object >= 1 && !old(self).spec_obj_in_bounds(object) ==> r is Err && final(self).spec_memory() == old(self).spec_memory(),
    {
        let off = self.attr_width + (if self.version <= 3 {
            1
        } else {
            2
        });
        let r = self.write_link(object, off, sibling);
        proof {
            if object >= 1 && old(self).spec_obj_in_bounds(object) {
                Self::lemma_link_write_frame(old(self), final(self), object, off as int);
            }
        }
        r
    }

    fn set_child(&mut self, object: u16, child: u16) -> (r: Result<(), ZmachineError>)
        requires
            old(self).wf(),
        ensures
            final(self).wf(),
            Self::same_layout(old(self), final(self)),
            Self::same_streams(old(self), final(self)),
            final(self).spec_frames() == old(self).spec_frames(),
            final(self).spec_pc() == old(self).spec_pc(),
            object == 0 ==> r is Ok && final(self).spec_memory() == old(self).spec_memory(),
            object >= 1 && old(self).spec_obj_in_bounds(object) ==> {
                &&& r is Ok
                &&& final(self).spec_child(object) == (if old(self).spec_version() <= 3 {
                    (child % 256) as u16
                } else {
                    child
                })
                &&& final(self).spec_parent(object) == old(self).spec_parent(object)
                &&& final(self).spec_sibling(object) == old(self).spec_sibling(object)
                &&& Self::links_preserved_except(old(self), final(self), object,
                old(self).spec_child_off())
            },
            object >= 1 && !old(self).spec_obj_in_bounds(object) ==> r is Err && final(self).spec_memory() == old(self).spec_memory(),
    {
        let off = self.attr_width + (if self.version <= 3 {
            2
        } else {
            4
        });
        let r = self.write_link(object, off, child);
        proof {
            if object >= 1 && old(self).spec_obj_in_bounds(object) {
                Self::lemma_link_write_frame(old(self), final(self), object, off as int);
            }
        }
        r
    }

    /// Every link of every other object, and the other links of this
    /// object, are unchanged: only the link at (`object`, `off`) was
    /// written.
    pub open spec fn links_preserved_except(a: &Self, b: &Self, object: u16, off: int) -> bool {
        forall|o2: u16, off2: int|
            (off2 == a.spec_parent_off() || off2 == a.spec_sibling_off() || off2
                == a.spec_child_off()) && !(o2 == object && off2 == off) && a.spec_obj_in_bounds(
                o2,
            ) ==> #[trigger] b.spec_link(o2, off2) == a.spec_link(o2, off2)
    }

    /// A link write touches no other link.
    proof fn lemma_link_write_frame(a: &Self, b: &Self, object: u16, off: int)
        requires
            a.wf(),
            b.wf(),
            Self::same_layout(a, b),
            object >= 1,
            a.spec_obj_in_bounds(object),
            off == a.spec_parent_off() || off == a.spec_sibling_off() || off
                == a.spec_child_off(),
            a.spec_version() <= 3 ==> b.spec_memory() =~= a.spec_memory().update(
                a.spec_obj_addr(object) + off,
                b.spec_memory()[a.spec_obj_addr(object) + off],
            ),
            a.spec_version() > 3 ==> b.spec_memory() =~= a.spec_memory().update(
                a.spec_obj_addr(object) + off,
                b.spec_memory()[a.spec_obj_addr(object) + off],
            ).update(
                a.spec_obj_addr(object) + off + 1,
                b.spec_memory()[a.spec_obj_addr(object) + off + 1],
            ),
        ensures
            Self::links_preserved_except(a, b, object, off),
    {
        let width: int = if a.spec_version() <= 3 {
            1
        } else {
            2
        };
        assert forall|o2: u16, off2: int|
            (off2 == a.spec_parent_off() || off2 == a.spec_sibling_off() || off2
                == a.spec_child_off()) && !(o2 == object && off2 == off) && a.spec_obj_in_bounds(
                o2,
            ) implies #[trigger] b.spec_link(o2, off2) == a.spec_link(o2, off2) by {
            if o2 != 0 {
                if o2 != object {
                    lemma_obj_records_disjoint(
                        a.spec_obj_table_addr(),
                        a.spec_obj_size(),
                        o2 as int,
                        object as int,
                    );
                }
            }
        }
    }
}


impl<ZUI> Zmachine<ZUI> {
    /// Whether attribute `attr` of `object` is set in memory.
    pub open spec fn spec_test_attr(&self, object: u16, attr: u16) -> bool {
        let byte = self.spec_memory()[self.spec_obj_addr(object) + attr / 8];
        byte & (0x80u8 >> (attr % 8) as u8) != 0
    }

    /// Test an attribute: 1 if set, 0 if clear. An attribute number outside
    /// the version's bit width fails with `AttributeRange`.
    pub fn test_attr(&self, object: u16, attr: u16) -> (r: Result<u16, ZmachineError>)
        requires
            self.wf(),
        ensures
            attr >= self.spec_attr_width() * 8 ==> r == Err::<u16, ZmachineError>(
                ZmachineError::AttributeRange,
            ),
            attr < self.spec_attr_width() * 8 && object >= 1 && self.spec_obj_in_bounds(object)
                ==> r == Ok::<u16, ZmachineError>(
                if self.spec_test_attr(object, attr) {
                    1u16
                } else {
                    0u16
                },
            ),
            attr < self.spec_attr_width() * 8 && object == 0 ==> r == Ok::<u16, ZmachineError>(
                0u16,
            ),
    {
        if attr as usize >= self.attr_width * 8 {
            return Err(ZmachineError::AttributeRange);
        }
        if object == 0 {
            return Ok(0);
        }
        let addr = self.get_object_addr(object)?;
        let byte = self.mem_read_byte(addr + (attr as usize) / 8)?;
        let bit: u8 = 0x80u8 >> ((attr % 8) as u8);
        if byte & bit != 0 {
            Ok(1)
        } else {
            Ok(0)
        }
    }

    /// Set an attribute bit; a no-op on object 0.
    pub fn set_attr(&mut self, object: u16, attr: u16) -> (r: Result<(), ZmachineError>)
        requires
            old(self).wf(),
        ensures
            final(self).wf(),
            Self::same_layout(old(self), final(self)),
            Self::same_streams(old(self), final(self)),
            final(self).spec_frames() == old(self).spec_frames(),
            final(self).spec_pc() == old(self).spec_pc(),
            attr >= old(self).spec_attr_width() * 8 ==> r == Err::<(), ZmachineError>(
                ZmachineError::AttributeRange,
            ) && final(self).spec_memory() == old(self).spec_memory(),
            attr < old(self).spec_attr_width() * 8 && object >= 1 && old(self).spec_obj_in_bounds(object) ==> {
                &&& r is Ok
                &&& final(self).spec_test_attr(object, attr)
                // Only the one attribute byte is written.
                &&& final(self).spec_memory() == old(self).spec_memory().update(
                    old(self).spec_obj_addr(object) + attr / 8,
                    (old(self).spec_memory()[old(self).spec_obj_addr(object) + attr / 8] | (
                    0x80u8 >> (attr % 8) as u8)),
                )
            },
            object == 0 && attr < old(self).spec_attr_width() * 8 ==> r is Ok && final(self).spec_memory() == old(self).spec_memory(),
    {
        if attr as usize >= self.attr_width * 8 {
            return Err(ZmachineError::AttributeRange);
        }
        if object == 0 {
            return Ok(());
        }
        let addr = self.get_object_addr(object)?;
        let byte = self.mem_read_byte(addr + (attr as usize) / 8)?;
        let bit: u8 = 0x80u8 >> ((attr % 8) as u8);
        let res = self.mem_write_byte(addr + (attr as usize) / 8, byte | bit);
        proof {
            assert(res is Ok);
            let sh = (attr % 8) as u8;
            assert(sh < 8 ==> ((byte | (0x80u8 >> sh)) & (0x80u8 >> sh) == (0x80u8 >> sh) && (
            0x80u8 >> sh) != 0)) by (bit_vector);
        }
        Ok(())
    }

    /// Clear an attribute bit; a no-op on object 0.
    pub fn clear_attr(&mut self, object: u16, attr: u16) -> (r: Result<(), ZmachineError>)
        requires
            old(self).wf(),
        ensures
            final(self).wf(),
            Self::same_layout(old(self), final(self)),
            Self::same_streams(old(self), final(self)),
            final(self).spec_frames() == old(self).spec_frames(),
            final(self).spec_pc() == old(self).spec_pc(),
            attr >= old(self).spec_attr_width() * 8 ==> r == Err::<(), ZmachineError>(
                ZmachineError::AttributeRange,
            ) && final(self).spec_memory() == old(self).spec_memory(),
            attr < old(self).spec_attr_width() * 8 && object >= 1 && old(self).spec_obj_in_bounds(object) ==> {
                &&& r is Ok
                &&& !final(self).spec_test_attr(object, attr)
                // Only the one attribute byte is written.
                &&& final(self).spec_memory() == old(self).spec_memory().update(
                    old(self).spec_obj_addr(object) + attr / 8,
                    (old(self).spec_memory()[old(self).spec_obj_addr(object) + attr / 8] & !(
                    0x80u8 >> (attr % 8) as u8)),
                )
            },
            object == 0 && attr < old(self).spec_attr_width() * 8 ==> r is Ok && final(self).spec_memory() == old(self).spec_memory(),
    {
        if attr as usize >= self.attr_width * 8 {
            return Err(ZmachineError::AttributeRange);
        }
        if object == 0 {
            return Ok(());
        }
        let addr = self.get_object_addr(object)?;
        let byte = self.mem_read_byte(addr + (attr as usize) / 8)?;
        let bit: u8 = 0x80u8 >> ((attr % 8) as u8);
        let res = self.mem_write_byte(addr + (attr as usize) / 8, byte & !bit);
        proof {
            assert(res is Ok);
            let sh = (attr % 8) as u8;
            assert(sh < 8 ==> ((byte & !(0x80u8 >> sh)) & (0x80u8 >> sh) == 0)) by (bit_vector);
        }
        Ok(())
    }

    /// Unlink an object from its parent: the parent's child link or the
    /// sibling chain is spliced around it, and its own parent and sibling
    /// links are cleared. An object with no parent is left untouched.
    pub fn remove_obj(&mut self, object: u16) -> (r: Result<(), ZmachineError>)
        requires
            old(self).wf(),
        ensures
            final(self).wf(),
            Self::same_layout(old(self), final(self)),
            Self::same_streams(old(self), final(self)),
            final(self).spec_frames() == old(self).spec_frames(),
            final(self).spec_pc() == old(self).spec_pc(),
            object == 0 ==> r is Ok && final(self).spec_memory() == old(self).spec_memory(),
            object >= 1 && old(self).spec_obj_in_bounds(object) && old(self).spec_parent(object)
                == 0 ==> r is Ok && final(self).spec_memory() == old(self).spec_memory(),
            object >= 1 && old(self).spec_obj_in_bounds(object) && old(self).spec_parent(object)
                != 0 && r is Ok ==> {
                &&& final(self).spec_parent(object) == 0
                &&& final(self).spec_sibling(object) == 0
            },
            // The splice itself: the removed object's younger sibling takes
            // its place, either as the parent's first child or behind the
            // elder sibling that pointed at it.
            object >= 1 && old(self).spec_obj_in_bounds(object) && old(self).spec_parent(object)
                != 0 && r is Ok ==> ({
                let par = old(self).spec_parent(object);
                let younger = old(self).spec_sibling(object);
                &&& (old(self).spec_child(par) == object ==> final(self).spec_child(par) == (if
                old(self).spec_version() <= 3 {
                    (younger % 256) as u16
                } else {
                    younger
                }))
                &&& (old(self).spec_child(par) != object ==> exists|p: u16|
                    {
                        &&& p != object
                        &&& #[trigger] old(self).spec_obj_in_bounds(p)
                        &&& old(self).spec_sibling(p) == object
                        &&& final(self).spec_sibling(p) == (if old(self).spec_version() <= 3 {
                            (younger % 256) as u16
                        } else {
                            younger
                        })
                    })
            }),
            // Siblings of objects that did not point at the removed object
            // are untouched.
            r is Ok ==> forall|d: u16|
                d != object && old(self).spec_obj_in_bounds(d) && old(self).spec_sibling(d)
                    != object ==> final(self).spec_sibling(d) == old(self).spec_sibling(d),
            r is Ok ==> forall|d: u16|
                d != object && old(self).spec_obj_in_bounds(d) && old(self).spec_child(d)
                    != object ==> final(self).spec_child(d) == old(self).spec_child(d),
            r is Ok ==> forall|d: u16|
                d != object && old(self).spec_obj_in_bounds(d) ==> final(self).spec_parent(d)
                    == old(self).spec_parent(d),
            // Success is owed whenever the object leads its parent's child
            // list (unlinking it then touches no sibling chain).
            object >= 1 && old(self).spec_obj_in_bounds(object) && old(self).spec_parent(object)
                != 0 && old(self).spec_obj_in_bounds(old(self).spec_parent(object)) && old(
                self,
            ).spec_child(old(self).spec_parent(object)) == object ==> r is Ok,
    {
        if object == 0 {
            return Ok(());
        }
        let parent = self.get_parent(object)?;
        if parent == 0 {
            return Ok(());
        }
        let parents_first_child = self.get_child(parent)?;
        let younger = self.get_sibling(object)?;
        let ghost s0 = *self;
        let ghost mut elder: u16 = 0;
        if parents_first_child == object {
            // The object led its parent's child list; its sibling takes
            // over.
            self.set_child(parent, younger)?;
        } else {
            // Splice the chain: find the elder sibling pointing at the
            // object. The fuel bounds the walk against a corrupt, cyclic
            // sibling chain, which surfaces as a malformed image.
            let mut prev = parents_first_child;
            let mut fuel: u32 = 0xFFFF;
            loop
                invariant
                    self.wf(),
                    *self == *old(self),
                    s0 == *old(self),
                    object >= 1,
                    prev != object,
                    old(self).spec_obj_in_bounds(object) ==> old(self).spec_parent(object) != 0,
                    // The removed object does not lead its parent's child
                    // list, or this chain walk would not have started.
                    old(self).spec_obj_in_bounds(object) && old(self).spec_parent(object) != 0
                        && old(self).spec_obj_in_bounds(old(self).spec_parent(object)) ==> old(
                        self,
                    ).spec_child(old(self).spec_parent(object)) != object,
                ensures
                    *self == s0,
                    prev != object,
                    prev >= 1,
                    s0.spec_obj_in_bounds(prev),
                    s0.spec_sibling(prev) == object,
                decreases fuel,
            {
                if fuel == 0 {
                    return Err(ZmachineError::MalformedImage);
                }
                let next = self.get_sibling(prev)?;
                if next == object {
                    break ;
                }
                if next == 0 {
                    return Err(ZmachineError::MalformedImage);
                }
                prev = next;
                fuel = fuel - 1;
            }
            self.set_sibling(prev, younger)?;
            proof {
                elder = prev;
            }
        }
        let ghost s1 = *self;
        self.set_parent(object, 0)?;
        let ghost s2 = *self;
        self.set_sibling(object, 0)?;
        proof {
            assert forall|d: u16|
                d != object && old(self).spec_obj_in_bounds(d) && old(self).spec_child(d)
                    != object implies final(self).spec_child(d) == old(self).spec_child(d) by {
                if parents_first_child == object {
                    assert(d != parent);
                }
                assert(s1.spec_child(d) == s0.spec_child(d));
                assert(s2.spec_child(d) == s1.spec_child(d));
                assert(final(self).spec_child(d) == s2.spec_child(d));
            }
            assert forall|d: u16|
                d != object && old(self).spec_obj_in_bounds(d) implies final(self).spec_parent(d)
                    == old(self).spec_parent(d) by {
                assert(s1.spec_parent(d) == s0.spec_parent(d));
                assert(s2.spec_parent(d) == s1.spec_parent(d));
                assert(final(self).spec_parent(d) == s2.spec_parent(d));
            }
            assert forall|d: u16|
                d != object && old(self).spec_obj_in_bounds(d) && old(self).spec_sibling(d)
                    != object implies final(self).spec_sibling(d) == old(self).spec_sibling(
                d,
            ) by {
                if parents_first_child != object {
                    assert(d != elder);
                }
                assert(s1.spec_sibling(d) == s0.spec_sibling(d));
                assert(s2.spec_sibling(d) == s1.spec_sibling(d));
                assert(final(self).spec_sibling(d) == s2.spec_sibling(d));
            }
            if old(self).spec_child(old(self).spec_parent(object)) == object {
                let par = old(self).spec_parent(object);
                assert(parents_first_child == object);
                assert(s2.spec_child(par) == s1.spec_child(par));
                assert(final(self).spec_child(par) == s2.spec_child(par));
            } else {
                assert(parents_first_child != object);
                assert(s2.spec_sibling(elder) == s1.spec_sibling(elder));
                assert(final(self).spec_sibling(elder) == s2.spec_sibling(elder));
                assert(old(self).spec_obj_in_bounds(elder) && elder != object
                    && old(self).spec_sibling(elder) == object);
            }
        }
        Ok(())
    }

    /// Move an object: it is unlinked from wherever it is and becomes the
    /// destination's new first child, the previous first child becoming its
    /// sibling. If it already is the first child, nothing changes.
    pub fn insert_obj(&mut self, object: u16, destination: u16) -> (r: Result<(), ZmachineError>)
        requires
            old(self).wf(),
        ensures
            final(self).wf(),
            Self::same_layout(old(self), final(self)),
            Self::same_streams(old(self), final(self)),
            final(self).spec_frames() == old(self).spec_frames(),
            final(self).spec_pc() == old(self).spec_pc(),
            object == 0 ==> r is Ok && final(self).spec_memory() == old(self).spec_memory(),
            r is Ok && object >= 1 && old(self).spec_obj_in_bounds(object) && old(self).spec_child(destination) != object && destination != object ==> {
                &&& final(self).spec_parent(object) == (if old(self).spec_version() <= 3 {
                    (destination % 256) as u16
                } else {
                    destination
                })
                &&& final(self).spec_sibling(object) == (if old(self).spec_version() <= 3 {
                    (old(self).spec_child(destination) % 256) as u16
                } else {
                    old(self).spec_child(destination)
                })
                &&& (destination >= 1 && old(self).spec_obj_in_bounds(destination) ==> final(self).spec_child(destination) == (if old(self).spec_version() <= 3 {
                    (object % 256) as u16
                } else {
                    object
                }))
            },
            r is Ok ==> forall|d: u16|
                d != object && old(self).spec_obj_in_bounds(d) ==> final(self).spec_parent(d)
                    == old(self).spec_parent(d),
            // Child links of objects other than the destination survive,
            // provided they did not point at the moved object.
            r is Ok ==> forall|d: u16|
                d != object && d != destination && old(self).spec_obj_in_bounds(d) && old(
                    self,
                ).spec_child(d) != object ==> final(self).spec_child(d) == old(self).spec_child(
                    d,
                ),
            // Success is owed for a parentless object: no sibling chain
            // needs splicing, so only the three link writes remain.
            object >= 1 && old(self).spec_obj_in_bounds(object) && old(self).spec_parent(object)
                == 0 && (destination == 0 || old(self).spec_obj_in_bounds(destination)) ==> r
                is Ok,
    {
        if object == 0 {
            return Ok(());
        }
        let parents_first_child = self.get_child(destination)?;
        if parents_first_child == object {
            return Ok(());
        }
        let ghost s0 = *self;
        self.remove_obj(object)?;
        let ghost s1 = *self;
        self.set_parent(object, destination)?;
        let ghost s2 = *self;
        self.set_child(destination, object)?;
        let ghost s3 = *self;
        self.set_sibling(object, parents_first_child)?;
        proof {
            if object >= 1 && old(self).spec_obj_in_bounds(object) && destination != object {
                // The removal did not disturb the destination's child link.
                assert(s1.spec_child(destination) == s0.spec_child(destination));
                // The parent write then survives the child and sibling
                // writes.
                assert(s3.spec_parent(object) == s2.spec_parent(object));
                assert(final(self).spec_parent(object) == s3.spec_parent(object));
                if destination >= 1 && old(self).spec_obj_in_bounds(destination) {
                    assert(final(self).spec_child(destination) == s3.spec_child(destination));
                }
            }
            assert forall|d: u16|
                d != object && old(self).spec_obj_in_bounds(d) implies final(self).spec_parent(d)
                    == old(self).spec_parent(d) by {
                assert(s1.spec_parent(d) == s0.spec_parent(d));
                assert(s2.spec_parent(d) == s1.spec_parent(d));
                assert(s3.spec_parent(d) == s2.spec_parent(d));
                assert(final(self).spec_parent(d) == s3.spec_parent(d));
            }
            assert forall|d: u16|
                d != object && d != destination && old(self).spec_obj_in_bounds(d) && old(
                    self,
                ).spec_child(d) != object implies final(self).spec_child(d) == old(
                self,
            ).spec_child(d) by {
                assert(s1.spec_child(d) == s0.spec_child(d));
                assert(s2.spec_child(d) == s1.spec_child(d));
                assert(s3.spec_child(d) == s2.spec_child(d));
                assert(final(self).spec_child(d) == s3.spec_child(d));
            }
        }
        Ok(())
    }
}


/// One property of an object: its number, payload length, payload address,
/// and the address of the next property header.
struct ObjectProperty {
    num: u8,
    len: u8,
    addr: usize,
    next: usize,
    /// Where this property's first header byte sits.
    header: usize,
}

impl ObjectProperty {
    fn zero() -> (r: ObjectProperty)
        ensures
            r.num == 0 && r.len == 0 && r.addr == 0 && r.next == 0,
    {
        ObjectProperty { num: 0, addr: 0, len: 0, next: 0, header: 0 }
    }
}

impl<ZUI> Zmachine<ZUI> {
    /// Address of an object's property table (stored after the attribute
    /// bytes and tree links of its record).
    fn get_object_prop_table_addr(&self, object: u16) -> (r: Result<usize, ZmachineError>)
        requires
            self.wf(),
            object >= 1,
        ensures
            r is Ok ==> r->Ok_0 <= 0xFFFF,
            r is Ok ==> self.spec_obj_in_bounds(object),
            self.spec_obj_in_bounds(object) ==> r is Ok && r->Ok_0 == word_at(
                self.spec_memory(),
                self.spec_obj_addr(object) + self.spec_attr_width() + (if self.spec_version()
                    <= 3 {
                    3int
                } else {
                    6int
                }),
            ),
    {
        let addr = self.get_object_addr(object)?;
        let off = self.attr_width + (if self.version <= 3 {
            3
        } else {
            6
        });
        let w = self.mem_read_word(addr + off)?;
        Ok(w as usize)
    }

    /// The story's alphabet rows, for stating what decoded text means.
    pub closed spec fn spec_alphabet(&self) -> Alphabet {
        self.alphabet
    }

    /// An object's short name, decoded from the head of its property table;
    /// empty when the table declares a zero-length name.
    pub fn get_object_name(&self, object: u16) -> (r: Result<Vec<char>, ZmachineError>)
        requires
            self.wf(),
        ensures
            object == 0 ==> r is Ok && r->Ok_0@ == Seq::<char>::empty(),
            // The name is the Z-string just after the property table's
            // length byte, or empty when that byte is zero.
            r is Ok && object >= 1 && self.spec_obj_in_bounds(object) ==> ({
                let ta = word_at(
                    self.spec_memory(),
                    self.spec_obj_addr(object) + self.spec_attr_width() + (
                    if self.spec_version() <= 3 {
                        3int
                    } else {
                        6int
                    }),
                ) as int;
                &&& (self.spec_memory()[ta] == 0 ==> r->Ok_0@ == Seq::<char>::empty())
                &&& (self.spec_memory()[ta] != 0 ==> match crate::zstring::spec_collect(
                    self.spec_memory(),
                    ta + 1,
                ) {
                    None => true,
                    Some((zs, e2)) => crate::zstring::spec_no_abbrevs(zs) ==> r->Ok_0@
                        == crate::zstring::spec_decode_zchars(
                        zs,
                        crate::zstring::DecState::Alpha(0),
                        &self.spec_alphabet(),
                        self.spec_unicode_table(),
                    ),
                })
            }),
    {
        if object == 0 {
            return Ok(Vec::new());
        }
        let addr = self.get_object_prop_table_addr(object)?;
        let text_length = self.mem_read_byte(addr)?;
        if text_length > 0 {
            let (name, _) = self.read_zstring(addr + 1)?;
            Ok(name)
        } else {
            Ok(Vec::new())
        }
    }

    /// Decode one property header: 1 byte in v3 (`len = top 3 bits + 1`,
    /// `num = bottom 5`), 1 or 2 bytes in v4+ (bit 7 selects the two-byte
    /// form whose second byte carries a 6-bit length, 0 meaning 64).
    fn read_object_prop(&self, addr: usize) -> (r: Result<ObjectProperty, ZmachineError>)
        requires
            self.wf(),
        ensures
            r is Ok ==> r->Ok_0.next > addr && r->Ok_0.next <= addr + 66 && r->Ok_0.len >= 1
                && addr < self.spec_memory().len(),
            r is Ok ==> ({
                let p = r->Ok_0;
                let decl = spec_prop_header(self.spec_memory(), self.spec_version(), addr as int);
                &&& p.header == addr
                &&& p.num == decl.0
                &&& p.len == decl.1
                &&& p.addr == decl.2
                &&& p.next == p.addr + p.len
            }),
    {
        let header = self.mem_read_byte(addr)?;
        if self.version <= 3 {
            let num = header % 32;
            let len = header / 32 + 1;
            Ok(ObjectProperty { num, len, addr: addr + 1, next: addr + 1 + len as usize, header: addr })
        } else {
            let num = header & 0x3F;
            if header & 0x80 != 0 {
                let b1 = self.mem_read_byte(addr + 1)?;
                let len0 = b1 & 0x3F;
                proof {
                    assert(b1 & 0x3F <= 63) by (bit_vector);
                }
                let len: u8 = if len0 == 0 {
                    64
                } else {
                    len0
                };
                Ok(ObjectProperty { num, len, addr: addr + 2, next: addr + 2 + len as usize, header: addr })
            } else {
                let len: u8 = if header & 0x40 != 0 {
                    2
                } else {
                    1
                };
                Ok(ObjectProperty { num, len, addr: addr + 1, next: addr + 1 + len as usize, header: addr })
            }
        }
    }

    /// Address of the first property header in an object's table: past
    /// the stored table address and the short name it begins with.
    pub open spec fn spec_prop_first(&self, object: u16) -> int {
        let ta = word_at(
            self.spec_memory(),
            self.spec_obj_addr(object) + self.spec_attr_width() + (if self.spec_version() <= 3 {
                3int
            } else {
                6int
            }),
        ) as int;
        ta + 2 * self.spec_memory()[ta] + 1
    }

    /// Find a property of an object by number; the zero property when it is
    /// absent. Properties are stored in strictly decreasing number order.
    fn find_prop(&self, object: u16, property_number: u16) -> (r: Result<
        ObjectProperty,
        ZmachineError,
    >)
        requires
            self.wf(),
            object >= 1,
        ensures
            r is Ok && r->Ok_0.num != 0 ==> ({
                let p = r->Ok_0;
                let decl = spec_prop_header(
                    self.spec_memory(),
                    self.spec_version(),
                    p.header as int,
                );
                &&& p.header < self.spec_memory().len()
                &&& p.num == decl.0 && p.len == decl.1 && p.addr == decl.2
                &&& p.num as u16 == property_number
                // The header was found inside this object's own table.
                &&& self.spec_obj_in_bounds(object)
                &&& p.header >= self.spec_prop_first(object)
            }),
    {
        if property_number == 0 {
            return Ok(ObjectProperty::zero());
        }
        let addr = self.get_object_prop_table_addr(object)?;
        let str_length = self.mem_read_byte(addr)? as usize * 2;
        let first_addr = addr + str_length + 1;
        let pnum = if property_number > 255 {
            255u8
        } else {
            property_number as u8
        };
        let mut prop = self.read_object_prop(first_addr)?;
        let memlen = self.memory.len();
        proof {
            assert(first_addr == self.spec_prop_first(object));
        }
        while prop.num != 0 && prop.num != pnum
            invariant
                self.wf(),
                memlen == self.spec_memory().len(),
                prop.next > 0,
                prop.next < memlen + 66,
                object >= 1,
                self.spec_obj_in_bounds(object),
                prop.header >= self.spec_prop_first(object),
                prop.next > prop.header,
                pnum == (if property_number > 255 {
                    255u8
                } else {
                    property_number as u8
                }),
                prop.num != 0 ==> {
                    &&& prop.header < memlen
                    &&& prop.num == spec_prop_header(
                        self.spec_memory(),
                        self.spec_version(),
                        prop.header as int,
                    ).0
                    &&& prop.len == spec_prop_header(
                        self.spec_memory(),
                        self.spec_version(),
                        prop.header as int,
                    ).1
                    &&& prop.addr == spec_prop_header(
                        self.spec_memory(),
                        self.spec_version(),
                        prop.header as int,
                    ).2
                },
            decreases memlen + 66 - prop.next,
        {
            if property_number > 255 {
                return Ok(ObjectProperty::zero());
            }
            if pnum > prop.num {
                return Ok(ObjectProperty::zero());
            }
            let ghost before = prop.next;
            let next_prop = self.read_object_prop(prop.next)?;
            proof {
                assert(next_prop.next > before);
            }
            prop = next_prop;
        }
        if property_number > 255 {
            return Ok(ObjectProperty::zero());
        }
        Ok(prop)
    }

    /// A property's value: its payload when present (one byte or one word),
    /// the version-dependent default otherwise.
    pub fn get_prop_value(&self, object: u16, property_number: u16) -> (r: Result<
        u16,
        ZmachineError,
    >)
        requires
            self.wf(),
            object >= 1,
        ensures
            // Either a header with this number supplies the payload, or
            // the defaults table supplies the word.
            r is Ok && property_number >= 1 ==> ((exists|h: int|
                {
                    let decl = #[trigger] spec_prop_header(
                        self.spec_memory(),
                        self.spec_version(),
                        h,
                    );
                    &&& 0 <= h < self.spec_memory().len()
                    &&& decl.0 as u16 == property_number
                    &&& r->Ok_0 == (if decl.1 == 1 {
                        self.spec_memory()[decl.2] as u16
                    } else {
                        word_at(self.spec_memory(), decl.2)
                    })
                }) || r->Ok_0 == word_at(
                self.spec_memory(),
                self.spec_prop_defaults() + 2 * (property_number - 1),
            )),
    {
        let prop = self.find_prop(object, property_number)?;
        if prop.num == 0 {
            self.get_default_prop(property_number)
        } else if prop.len == 1 {
            let b = self.mem_read_byte(prop.addr)?;
            Ok(b as u16)
        } else {
            self.mem_read_word(prop.addr)
        }
    }

    /// The default value of a property, from the table before the object
    /// records.
    fn get_default_prop(&self, property_number: u16) -> (r: Result<u16, ZmachineError>)
        requires
            self.wf(),
        ensures
            r is Ok ==> 1 <= property_number <= 63 && r->Ok_0 == word_at(
                self.spec_memory(),
                self.spec_prop_defaults() + 2 * (property_number - 1),
            ),
    {
        if property_number == 0 {
            return Err(ZmachineError::BadAddress);
        }
        let word_index = (property_number - 1) as usize;
        if word_index >= 63 {
            return Err(ZmachineError::BadAddress);
        }
        self.mem_read_word(self.prop_defaults + word_index * 2)
    }

    /// The address of a property's payload, or 0 when absent.
    pub fn get_prop_addr(&self, object: u16, property_number: u16) -> (r: Result<
        u16,
        ZmachineError,
    >)
        requires
            self.wf(),
            object >= 1,
        ensures
            r is Ok && r->Ok_0 != 0 ==> self.spec_obj_in_bounds(object) && exists|h: int|
                {
                    &&& self.spec_prop_first(object) <= h < self.spec_memory().len()
                    &&& (#[trigger] spec_prop_header(self.spec_memory(), self.spec_version(), h)).0 as u16 == property_number
                    &&& r->Ok_0 == spec_prop_header(self.spec_memory(), self.spec_version(), h).2
                },
    {
        let prop = self.find_prop(object, property_number)?;
        if prop.num != 0 {
            if prop.addr > 0xFFFF {
                return Err(ZmachineError::BadAddress);
            }
            Ok(prop.addr as u16)
        } else {
            Ok(0)
        }
    }

    /// The payload length of the property whose payload starts at `addr`
    /// (the header sits just before it); 0 for the null address.
    pub fn get_prop_len(&self, prop_data_addr: usize) -> (r: Result<u8, ZmachineError>)
        requires
            self.wf(),
        ensures
            prop_data_addr == 0 ==> r == Ok::<u8, ZmachineError>(0u8),
            1 <= prop_data_addr <= self.spec_memory().len() ==> r == Ok::<u8, ZmachineError>(
                spec_prop_len_of(
                    self.spec_version(),
                    self.spec_memory()[prop_data_addr - 1],
                ),
            ),
            prop_data_addr > self.spec_memory().len() ==> r is Err,
    {
        if prop_data_addr == 0 {
            return Ok(0);
        }
        let header = self.mem_read_byte(prop_data_addr - 1)?;
        if self.version <= 3 {
            Ok(header / 32 + 1)
        } else if header & 0x80 != 0 {
            let len = header & 0x3F;
            if len == 0 {
                Ok(64)
            } else {
                Ok(len)
            }
        } else if header & 0x40 != 0 {
            Ok(2)
        } else {
            Ok(1)
        }
    }

    /// The number of the property after `property_number`, or of the first
    /// property when 0 is asked for; 0 at the end of the list.
    pub fn get_next_prop(&self, object: u16, property_number: u16) -> (r: Result<
        u16,
        ZmachineError,
    >)
        requires
            self.wf(),
            object >= 1,
        ensures
            // A nonzero answer is a declared property number, read from a
            // header in memory.
            r is Ok && r->Ok_0 != 0 ==> exists|h: int|
                {
                    &&& 0 <= h < self.spec_memory().len()
                    &&& (#[trigger] spec_prop_header(
                        self.spec_memory(),
                        self.spec_version(),
                        h,
                    )).0 as u16 == r->Ok_0
                },
    {
        if property_number == 0 {
            let addr = self.get_object_prop_table_addr(object)?;
            let str_length = self.mem_read_byte(addr)? as usize * 2;
            let first_prop = addr + str_length + 1;
            let prop = self.read_object_prop(first_prop)?;
            Ok(prop.num as u16)
        } else {
            let prop = self.find_prop(object, property_number)?;
            if prop.num == 0 {
                return Ok(0);
            }
            let next = self.read_object_prop(prop.next)?;
            Ok(next.num as u16)
        }
    }

    /// Write a property's payload (one byte or one word); a missing
    /// property is a fatal addressing error.
    pub fn put_prop(&mut self, object: u16, property_number: u16, value: u16) -> (r: Result<
        (),
        ZmachineError,
    >)
        requires
            old(self).wf(),
            object >= 1,
        ensures
            final(self).wf(),
            Self::same_layout(old(self), final(self)),
            Self::same_streams(old(self), final(self)),
            final(self).spec_frames() == old(self).spec_frames(),
            final(self).spec_pc() == old(self).spec_pc(),
            r is Ok ==> exists|h: int|
                {
                    &&& 0 <= h < old(self).spec_memory().len()
                    &&& (#[trigger] spec_prop_header(old(self).spec_memory(), old(self).spec_version(), h)).0 as u16 == property_number
                    &&& (spec_prop_header(old(self).spec_memory(), old(self).spec_version(), h).1 == 1 ==> final(self).spec_memory() == old(self).spec_memory().update(spec_prop_header(old(self).spec_memory(), old(self).spec_version(), h).2, (value % 256) as u8))
                    &&& (spec_prop_header(old(self).spec_memory(), old(self).spec_version(), h).1 != 1 ==> final(self).spec_memory() == old(self).spec_memory().update(spec_prop_header(old(self).spec_memory(), old(self).spec_version(), h).2, crate::buffer::word_hi(value)).update(spec_prop_header(old(self).spec_memory(), old(self).spec_version(), h).2 + 1, crate::buffer::word_lo(value)))
                },
    {
        let prop = self.find_prop(object, property_number)?;
        if prop.num == 0 {
            return Err(ZmachineError::BadAddress);
        }
        let ghost h = prop.header as int;
        if prop.len == 1 {
            let res = self.mem_write_byte(prop.addr, value as u8);
            proof {
                if res is Ok {
                    assert((value as u8) as u16 == value % 256) by (bit_vector);
                }
            }
            res
        } else {
            self.mem_write_word(prop.addr, value)
        }
    }

    /// The total number of objects, inferred from the convention that the
    /// first object's property table follows the last object record.
    fn get_total_object_count(&self) -> (r: Result<u16, ZmachineError>)
        requires
            self.wf(),
    {
        let table_end = self.get_object_prop_table_addr(1)?;
        if table_end <= self.obj_table_addr {
            return Ok(0);
        }
        let count = (table_end - self.obj_table_addr) / self.obj_size;
        if count > 65535 {
            Ok(65535)
        } else {
            Ok(count as u16)
        }
    }
}


/// Relies on `String::push`: appends exactly one character.
#[verifier::external_body]
fn push_char(s: &mut String, c: char)
    ensures
        final(s)@ == old(s)@.push(c),
{
    s.push(c);
}

/// A `String` holding exactly the given characters.
pub fn chars_to_string(v: &[char]) -> (r: String)
    ensures
        r@ == v@,
{
    let mut out = String::new();
    let n = v.len();
    let mut i: usize = 0;
    while i < n
        invariant
            n == v@.len(),
            i <= n,
            out@ == v@.take(i as int),
        decreases n - i,
    {
        push_char(&mut out, v[i]);
        proof {
            assert(out@ =~= v@.take(i + 1));
        }
        i = i + 1;
    }
    proof {
        assert(out@ =~= v@);
    }
    out
}

/// The ZSCII bytes a text stores as: one byte per character through the
/// encoding table, unmappable characters and NUL dropped.
pub open spec fn spec_zscii_bytes(text: Seq<char>, table: Seq<char>) -> Seq<u8>
    decreases text.len(),
{
    if text.len() == 0 {
        Seq::empty()
    } else {
        let rest = spec_zscii_bytes(text.skip(1), table);
        if text[0] as u32 == 0 {
            rest
        } else {
            match crate::zscii::spec_from_char(text[0], table) {
                Some(z) => seq![z] + rest,
                None => rest,
            }
        }
    }
}

impl<ZUI: UI> Zmachine<ZUI> {
    /// Route text: into the topmost in-memory output stream when one is
    /// open (as ZSCII bytes), to the display sink otherwise, unless screen
    /// output is switched off.
    fn print_text(&mut self, text: &Vec<char>) -> (r: Result<(), ZmachineError>)
        requires
            old(self).wf(),
        ensures
            final(self).wf(),
            Self::same_layout(old(self), final(self)),
            final(self).spec_frames() == old(self).spec_frames(),
            final(self).spec_pc() == old(self).spec_pc(),
            old(self).spec_streams().len() == 0 ==> r is Ok && final(self).spec_memory() == old(self).spec_memory() && final(self).spec_streams() == old(self).spec_streams(),
            old(self).spec_streams().len() > 0 && r is Ok ==> ({
                let st = old(self).spec_streams().last().0;
                let e = old(self).spec_streams().last().1;
                let bytes = spec_zscii_bytes(text@, old(self).spec_unicode_table());
                &&& final(self).spec_streams() == old(self).spec_streams().update(
                    old(self).spec_streams().len() - 1,
                    (st, e + bytes.len()),
                )
                &&& forall|q: int|
                    0 <= q < bytes.len() ==> final(self).spec_memory()[e + q] == bytes[q]
                &&& forall|i: int|
                    0 <= i < old(self).spec_memory().len() && !(e <= i < e + bytes.len())
                        ==> final(self).spec_memory()[i] == old(self).spec_memory()[i]
            }),
    {
        if self.memory_output.len() == 0 {
            if !self.disable_output {
                let s = chars_to_string(text.as_slice());
                let style = self.current_style;
                self.ui.print(s.as_str(), style);
            }
            return Ok(());
        }
        let k = self.memory_output.len() - 1;
        let (start, end0) = self.memory_output[k];
        let mut end = end0;
        let n = text.len();
        let mut i: usize = 0;
        let table = match &self.unicode_table {
            None => None,
            Some(v) => Some(v.clone()),
        };
        let ghost full = spec_zscii_bytes(text@, old(self).spec_unicode_table());
        proof {
            assert(text@.skip(0) =~= text@);
            assert(Seq::<u8>::empty() + spec_zscii_bytes(text@, old(self).spec_unicode_table())
                =~= full);
            assert(old(self).spec_streams().last().1 == end0 as int);
            assert(full.take(0) =~= Seq::<u8>::empty());
        }
        while i < n
            invariant
                self.wf(),
                n == text@.len(),
                i <= n,
                self.spec_frames() == old(self).spec_frames(),
                self.spec_pc() == old(self).spec_pc(),
                Self::same_layout(old(self), self),
                self.memory_output@ == old(self).memory_output@,
                self.spec_memory().len() == old(self).spec_memory().len(),
                match table {
                    None => old(self).spec_unicode_table() == DEFAULT_UNICODE_TABLE@,
                    Some(t) => old(self).spec_unicode_table() == t@,
                },
                k == old(self).spec_streams().len() - 1,
                end0 == old(self).spec_streams().last().1,
                full == spec_zscii_bytes(text@, old(self).spec_unicode_table()),
                end - end0 == full.len() - spec_zscii_bytes(
                    text@.skip(i as int),
                    old(self).spec_unicode_table(),
                ).len(),
                end >= end0,
                end > end0 ==> end <= self.spec_static_start(),
                full =~= full.take(end - end0) + spec_zscii_bytes(
                    text@.skip(i as int),
                    old(self).spec_unicode_table(),
                ),
                forall|q: int|
                    0 <= q < end - end0 ==> self.spec_memory()[end0 + q] == full[q],
                forall|j: int|
                    0 <= j < old(self).spec_memory().len() && !(end0 <= j < end)
                        ==> self.spec_memory()[j] == old(self).spec_memory()[j],
            decreases n - i,
        {
            let c = text[i];
            let ghost tail = spec_zscii_bytes(
                text@.skip(i as int),
                old(self).spec_unicode_table(),
            );
            proof {
                assert(text@.skip(i as int)[0] == text@[i as int]);
                assert(text@.skip(i as int).skip(1) =~= text@.skip(i + 1));
            }
            if c as u32 != 0 {
                let zch = match &table {
                    None => ZChar::from_char(c, vstd::array::array_as_slice(
                        &DEFAULT_UNICODE_TABLE,
                    )),
                    Some(t) => ZChar::from_char(c, t.as_slice()),
                };
                match zch {
                    Some(z) => {
                        if end >= self.static_start {
                            return Err(ZmachineError::BadAddress);
                        }
                        let ghost pre_mem = self.spec_memory();
                        self.mem_write_byte(end, z.0)?;
                        end = end + 1;
                        proof {
                            assert(full.take(end - end0) =~= full.take(end - 1 - end0).push(
                                z.0,
                            ));
                            assert(pre_mem.len() == old(self).spec_memory().len());
                            assert(self.spec_memory() == pre_mem.update(end - 1, z.0));
                            assert forall|j: int|
                                0 <= j < old(self).spec_memory().len() && !(end0 <= j < end)
                                    implies self.spec_memory()[j] == old(self).spec_memory()[
                                j] by {
                                assert(j != end - 1);
                                assert(self.spec_memory()[j] == pre_mem[j]);
                            }
                        }
                    },
                    None => (),
                }
            }
            i = i + 1;
        }
        proof {
            assert(text@.skip(n as int) =~= Seq::<char>::empty());
            assert(full.take(end - end0) =~= full);
        }
        self.memory_output.set(k, (start, end));
        proof {
            assert(self.spec_streams() =~= old(self).spec_streams().update(
                old(self).spec_streams().len() - 1,
                (old(self).spec_streams().last().0, end0 + full.len()),
            ));
        }
        Ok(())
    }
}

/// The byte address of the first entry at or after `k` whose key equals
/// `w`, or 0 when none does.
pub open spec fn spec_lookup_from(d: Seq<(Seq<char>, int)>, w: Seq<char>, k: int) -> int
    decreases d.len() - k,
{
    if k < 0 || k >= d.len() {
        0
    } else if d[k].0 == w {
        d[k].1
    } else {
        spec_lookup_from(d, w, k + 1)
    }
}

impl<ZUI> Zmachine<ZUI> {
    /// Character-vector equality.
    fn chars_eq(a: &Vec<char>, b: &Vec<char>) -> (r: bool)
        ensures
            r <==> a@ == b@,
    {
        if a.len() != b.len() {
            proof {
                assert(a@.len() != b@.len());
            }
            return false;
        }
        let n = a.len();
        let mut i: usize = 0;
        while i < n
            invariant
                n == a@.len(),
                n == b@.len(),
                i <= n,
                forall|j: int| 0 <= j < i ==> a@[j] == b@[j],
            decreases n - i,
        {
            if a[i] != b[i] {
                return false;
            }
            i = i + 1;
        }
        proof {
            assert(a@ =~= b@);
        }
        true
    }

    /// The loaded dictionary as the lookup sees it: each entry's decoded
    /// word with its byte address, in table order.
    pub closed spec fn spec_dictionary(&self) -> Seq<(Seq<char>, int)> {
        Seq::new(
            self.dictionary@.len(),
            |i: int| (self.dictionary@[i].0@, self.dictionary@[i].1 as int),
        )
    }

    /// The lookup key a word reduces to: the word truncated to the
    /// version's key length, 6 characters to v3 and 9 from v4.
    pub open spec fn spec_dict_key(&self, w: Seq<char>) -> Seq<char> {
        let kl: int = if self.spec_version() <= 3 {
            6
        } else {
            9
        };
        if w.len() <= kl {
            w
        } else {
            w.take(kl)
        }
    }

    /// What looking a word up returns: the byte address of the first
    /// dictionary entry equal to the truncated key, or 0 when none is.
    pub open spec fn spec_dict_lookup(&self, w: Seq<char>) -> int {
        spec_lookup_from(self.spec_dictionary(), self.spec_dict_key(w), 0)
    }

    /// Look a word up in the dictionary after truncating it to the
    /// version's key length (6 characters to v3, 9 from v4): the entry's
    /// byte address, or 0 when absent.
    fn check_dict(&self, word: &Vec<char>) -> (r: usize)
        requires
            self.wf(),
        ensures
            r as int == self.spec_dict_lookup(word@),
    {
        let key_len: usize = if self.version <= 3 {
            6
        } else {
            9
        };
        let mut short: Vec<char> = Vec::new();
        let n = word.len();
        let mut i: usize = 0;
        proof {
            assert(short@ =~= word@.take(0));
        }
        while i < n && i < key_len
            invariant
                n == word@.len(),
                i <= n,
                i <= key_len,
                short@ == word@.take(i as int),
            decreases n - i,
        {
            short.push(word[i]);
            proof {
                assert(short@ =~= word@.take(i + 1));
            }
            i = i + 1;
        }
        proof {
            if n <= key_len {
                assert(short@ =~= word@);
            }
            assert(short@ == self.spec_dict_key(word@));
        }
        let dn = self.dictionary.len();
        let mut k: usize = 0;
        while k < dn
            invariant
                self.wf(),
                dn == self.dictionary@.len(),
                k <= dn,
                short@ == self.spec_dict_key(word@),
                spec_lookup_from(self.spec_dictionary(), short@, 0) == spec_lookup_from(
                    self.spec_dictionary(),
                    short@,
                    k as int,
                ),
            decreases dn - k,
        {
            if Self::chars_eq(&self.dictionary[k].0, &short) {
                proof {
                    assert(self.spec_dictionary()[k as int].0 == short@);
                    assert(spec_lookup_from(self.spec_dictionary(), short@, k as int)
                        == self.spec_dictionary()[k as int].1);
                }
                return self.dictionary[k].1;
            }
            proof {
                assert(self.spec_dictionary()[k as int].0 != short@);
            }
            k = k + 1;
        }
        0
    }

    /// Whether a character is one of the story's word separators.
    pub closed spec fn spec_is_sep(&self, c: char) -> bool {
        exists|k: int| 0 <= k < self.separators@.len() && self.separators@[k] == c
    }

    fn is_separator(&self, c: char) -> (r: bool)
        ensures
            r == self.spec_is_sep(c),
    {
        let n = self.separators.len();
        let mut i: usize = 0;
        while i < n
            invariant
                n == self.separators@.len(),
                i <= n,
                forall|j: int| 0 <= j < i ==> self.separators@[j] != c,
            decreases n - i,
        {
            if self.separators[i] == c {
                return true;
            }
            i = i + 1;
        }
        false
    }

    /// The first position at or after `i` that ends a word: a blank, a
    /// separator, or the end of the text.
    pub open spec fn spec_word_end(&self, text: Seq<char>, i: int) -> int
        decreases text.len() - i,
    {
        if i < 0 || i >= text.len() {
            text.len() as int
        } else if text[i] == ' ' || text[i] == '\n' || self.spec_is_sep(text[i]) {
            i
        } else {
            self.spec_word_end(text, i + 1)
        }
    }

    pub proof fn lemma_word_end_bounds(&self, text: Seq<char>, i: int)
        requires
            0 <= i <= text.len(),
        ensures
            i <= self.spec_word_end(text, i) <= text.len(),
        decreases text.len() - i,
    {
        if i < text.len() && !(text[i] == ' ' || text[i] == '\n' || self.spec_is_sep(
            text[i],
        )) {
            self.lemma_word_end_bounds(text, i + 1);
        }
    }

    /// A forward scan that saw no word end in `[i, j)` and one at `j`
    /// found exactly the word end.
    pub proof fn lemma_word_end_hit(&self, text: Seq<char>, i: int, j: int)
        requires
            0 <= i <= j <= text.len(),
            forall|k: int|
                i <= k < j ==> !(text[k] == ' ' || text[k] == '\n' || self.spec_is_sep(
                    #[trigger] text[k],
                )),
            j < text.len() ==> (text[j] == ' ' || text[j] == '\n' || self.spec_is_sep(text[j])),
        ensures
            self.spec_word_end(text, i) == j,
        decreases j - i,
    {
        if i < j {
            self.lemma_word_end_hit(text, i + 1, j);
        }
    }

    /// The tokens of an input line: each separator is its own token, and
    /// everything between blanks and separators is one token, given as
    /// (start index, length) pairs in text order.
    pub open spec fn spec_tokens(&self, text: Seq<char>, i: int) -> Seq<(int, int)>
        decreases text.len() - i,
        via Self::spec_tokens_decreases
    {
        if i < 0 || i >= text.len() {
            Seq::empty()
        } else if text[i] == ' ' || text[i] == '\n' {
            self.spec_tokens(text, i + 1)
        } else if self.spec_is_sep(text[i]) {
            seq![(i, 1int)] + self.spec_tokens(text, i + 1)
        } else {
            let j = self.spec_word_end(text, i + 1);
            seq![(i, j - i)] + self.spec_tokens(text, j)
        }
    }

    #[via_fn]
    proof fn spec_tokens_decreases(&self, text: Seq<char>, i: int) {
        if 0 <= i < text.len() && !(text[i] == ' ' || text[i] == '\n') && !self.spec_is_sep(
            text[i],
        ) {
            self.lemma_word_end_bounds(text, i + 1);
        }
    }

    /// The (start, length) pairs of an executable token list.
    pub open spec fn spec_tok_pairs(toks: Seq<(usize, usize, usize)>) -> Seq<(int, int)> {
        Seq::new(toks.len(), |k: int| (toks[k].2 as int, toks[k].1 as int))
    }

    /// Split the (already lowercased) input into words and separators,
    /// look each up, and fill the parse buffer: the token count at
    /// `parse_addr + 1`, then per token the dictionary word, the length
    /// and the text-buffer offset (start index plus the version's base of
    /// 1 to v4 or 2 from v5), as `spec_tokens` lists them. The count
    /// honours the buffer's declared capacity.
    fn tokenise(&mut self, text: &Vec<char>, parse_addr: usize) -> (r: Result<
        (),
        ZmachineError,
    >)
        requires
            old(self).wf(),
        ensures
            final(self).wf(),
            Self::same_layout(old(self), final(self)),
            Self::same_streams(old(self), final(self)),
            final(self).spec_frames() == old(self).spec_frames(),
            final(self).spec_pc() == old(self).spec_pc(),
            r is Ok ==> ({
                let toks = old(self).spec_tokens(text@, 0);
                let base: int = if old(self).spec_version() <= 4 {
                    1
                } else {
                    2
                };
                let cap = old(self).spec_memory()[parse_addr as int] as int;
                let count: int = if toks.len() <= cap {
                    toks.len() as int
                } else {
                    cap
                };
                &&& final(self).spec_memory()[parse_addr + 1] == count
                &&& forall|k: int|
                    0 <= k < count ==> final(self).spec_memory()[parse_addr + 2 + 4 * k + 2] == (
                    (#[trigger] toks[k]).1 % 256) as u8 && final(self).spec_memory()[parse_addr
                    + 2 + 4 * k + 3] == ((toks[k].0 + base) % 256) as u8
                // Each parse entry's first word is the dictionary address
                // of that token's text, looked up under the version's key
                // truncation.
                &&& forall|k: int|
                    0 <= k < count ==> word_at(final(self).spec_memory(), parse_addr + 2 + 4 * k)
                        as int == old(self).spec_dict_lookup(
                        text@.subrange((#[trigger] toks[k]).0, toks[k].0 + toks[k].1),
                    ) % 0x10000
                // Nothing outside the parse buffer changes.
                &&& forall|j: int|
                    0 <= j < old(self).spec_memory().len() && !(parse_addr + 1 <= j < parse_addr
                        + 2 + 4 * count) ==> final(self).spec_memory()[j] == old(
                        self,
                    ).spec_memory()[j]
            }),
            // Success is owed whenever the parse buffer lies in dynamic
            // memory with room for its count byte and entries.
            ({
                let toks = old(self).spec_tokens(text@, 0);
                let cap = old(self).spec_memory()[parse_addr as int] as int;
                let count: int = if toks.len() <= cap {
                    toks.len() as int
                } else {
                    cap
                };
                (text@.len() <= 0xFFFF && parse_addr + 2 + 4 * count <= old(
                    self,
                ).spec_static_start()) ==> r is Ok
            }),
    {
        let n = text.len();
        if n > 0xFFFF {
            return Err(ZmachineError::BadAddress);
        }
        let start_base: usize = if self.version <= 4 {
            1
        } else {
            2
        };
        let ghost toks = self.spec_tokens(text@, 0);
        let mut tokens: Vec<(usize, usize, usize)> = Vec::new();
        let mut i: usize = 0;
        proof {
            assert(Self::spec_tok_pairs(tokens@) =~= Seq::<(int, int)>::empty());
            assert(toks =~= Self::spec_tok_pairs(tokens@) + self.spec_tokens(text@, 0));
        }
        while i < n
            invariant
                self.wf(),
                *self == *old(self),
                n == text@.len(),
                n <= 0xFFFF,
                i <= n,
                start_base <= 2,
                toks == self.spec_tokens(text@, 0),
                toks == Self::spec_tok_pairs(tokens@) + self.spec_tokens(text@, i as int),
                forall|q: int| 0 <= q < tokens@.len() ==> (#[trigger] tokens@[q]).2 <= 0xFFFF
                    && tokens@[q].1 <= 0xFFFF,
                forall|q: int|
                    0 <= q < tokens@.len() ==> (#[trigger] tokens@[q]).0 as int == old(
                        self,
                    ).spec_dict_lookup(
                        text@.subrange(
                            tokens@[q].2 as int,
                            tokens@[q].2 + tokens@[q].1,
                        ),
                    ),
            decreases n - i,
        {
            let ghost pre = tokens@;
            let c = text[i];
            if c == ' ' || c == '\n' {
                proof {
                    assert(self.spec_tokens(text@, i as int) == self.spec_tokens(
                        text@,
                        i + 1,
                    ));
                }
                i = i + 1;
            } else if self.is_separator(c) {
                // Each separator is its own token.
                let mut single: Vec<char> = Vec::new();
                single.push(c);
                proof {
                    assert(single@ =~= text@.subrange(i as int, i + 1));
                }
                let dict_addr = self.check_dict(&single);
                tokens.push((dict_addr, 1, i));
                proof {
                    assert(self.spec_tokens(text@, i as int) == seq![(i as int, 1int)]
                        + self.spec_tokens(text@, i + 1));
                    assert(Self::spec_tok_pairs(tokens@) =~= Self::spec_tok_pairs(pre) + seq![
                        (i as int, 1int),
                    ]);
                    assert((Self::spec_tok_pairs(pre) + seq![(i as int, 1int)])
                        + self.spec_tokens(text@, i + 1) =~= Self::spec_tok_pairs(pre) + (seq![
                        (i as int, 1int),
                    ] + self.spec_tokens(text@, i + 1)));
                }
                i = i + 1;
            } else {
                let word_start = i;
                let mut word: Vec<char> = Vec::new();
                word.push(c);
                proof {
                    assert(word@ =~= text@.subrange(word_start as int, word_start + 1));
                }
                let mut j = i + 1;
                while j < n && text[j] != ' ' && text[j] != '\n' && !self.is_separator(text[j])
                    invariant
                        self.wf(),
                        *self == *old(self),
                        n == text@.len(),
                        word_start < j <= n,
                        word@.len() == j - word_start,
                        word@ == text@.subrange(word_start as int, j as int),
                        forall|k: int|
                            word_start + 1 <= k < j ==> !(text@[k] == ' ' || text@[k] == '\n'
                                || self.spec_is_sep(#[trigger] text@[k])),
                    decreases n - j,
                {
                    word.push(text[j]);
                    proof {
                        assert(word@ =~= text@.subrange(word_start as int, j + 1));
                    }
                    j = j + 1;
                }
                proof {
                    self.lemma_word_end_hit(text@, word_start + 1, j as int);
                }
                let dict_addr = self.check_dict(&word);
                tokens.push((dict_addr, j - word_start, word_start));
                proof {
                    assert(self.spec_tokens(text@, word_start as int) == seq![
                        (word_start as int, j - word_start),
                    ] + self.spec_tokens(text@, j as int));
                    assert(Self::spec_tok_pairs(tokens@) =~= Self::spec_tok_pairs(pre) + seq![
                        (word_start as int, j - word_start),
                    ]);
                    assert((Self::spec_tok_pairs(pre) + seq![(word_start as int, j - word_start)])
                        + self.spec_tokens(text@, j as int) =~= Self::spec_tok_pairs(pre) + (seq![
                        (word_start as int, j - word_start),
                    ] + self.spec_tokens(text@, j as int)));
                }
                i = j;
            }
        }
        proof {
            assert(self.spec_tokens(text@, n as int) =~= Seq::<(int, int)>::empty());
            assert(Self::spec_tok_pairs(tokens@) + self.spec_tokens(text@, n as int)
                =~= Self::spec_tok_pairs(tokens@));
            assert(toks =~= Self::spec_tok_pairs(tokens@));
        }
        // Write the parse buffer, honouring its declared capacity.
        let max_entries = self.mem_read_byte(parse_addr)? as usize;
        let count = if tokens.len() > max_entries {
            max_entries
        } else {
            tokens.len()
        };
        if parse_addr > usize::MAX - 2 {
            return Err(ZmachineError::BadAddress);
        }
        self.mem_write_byte(parse_addr + 1, count as u8)?;
        let mut k: usize = 0;
        let mut w = parse_addr + 2;
        while k < count
            invariant
                self.wf(),
                Self::same_layout(old(self), self),
                Self::same_streams(old(self), self),
                self.spec_frames() == old(self).spec_frames(),
                self.spec_pc() == old(self).spec_pc(),
                k <= count,
                count <= tokens@.len(),
                count <= 255,
                count == (if toks.len() <= old(self).spec_memory()[parse_addr as int] {
                    toks.len() as int
                } else {
                    old(self).spec_memory()[parse_addr as int] as int
                }),
                toks == Self::spec_tok_pairs(tokens@),
                toks == old(self).spec_tokens(text@, 0),
                start_base as int == (if old(self).spec_version() <= 4 {
                    1int
                } else {
                    2int
                }),
                n <= 0xFFFF,
                forall|q: int| 0 <= q < tokens@.len() ==> (#[trigger] tokens@[q]).2 <= 0xFFFF
                    && tokens@[q].1 <= 0xFFFF,
                w == parse_addr + 2 + 4 * k,
                parse_addr + 2 <= usize::MAX - 1,
                self.spec_memory().len() == old(self).spec_memory().len(),
                self.spec_memory()[parse_addr + 1] == count as u8,
                forall|q: int|
                    0 <= q < k ==> self.spec_memory()[parse_addr + 2 + 4 * q + 2] == ((
                    #[trigger] toks[q]).1 % 256) as u8 && self.spec_memory()[parse_addr + 2 + 4
                    * q + 3] == ((toks[q].0 + start_base) % 256) as u8,
                forall|q: int|
                    0 <= q < tokens@.len() ==> (#[trigger] tokens@[q]).0 as int == old(
                        self,
                    ).spec_dict_lookup(
                        text@.subrange(
                            tokens@[q].2 as int,
                            tokens@[q].2 + tokens@[q].1,
                        ),
                    ),
                forall|q: int|
                    0 <= q < k ==> word_at(self.spec_memory(), parse_addr + 2 + 4 * q) as int
                        == old(self).spec_dict_lookup(
                        text@.subrange((#[trigger] toks[q]).0, toks[q].0 + toks[q].1),
                    ) % 0x10000,
                forall|j: int|
                    0 <= j < old(self).spec_memory().len() && !(parse_addr + 1 <= j < parse_addr
                        + 2 + 4 * k) ==> self.spec_memory()[j] == old(self).spec_memory()[j],
            decreases count - k,
        {
            if w > self.static_start || self.static_start - w < 4 {
                proof {
                    assert(w + 4 > old(self).spec_static_start());
                    assert(parse_addr + 2 + 4 * (count as int) >= w + 4);
                }
                return Err(ZmachineError::BadAddress);
            }
            let (dict_addr, tlen, tstart) = tokens[k];
            let ghost m1 = self.spec_memory();
            self.mem_write_word(w, (dict_addr % 0x10000) as u16)?;
            self.mem_write_byte(w + 2, (tlen % 256) as u8)?;
            self.mem_write_byte(w + 3, ((tstart + start_base) % 256) as u8)?;
            proof {
                assert forall|j: int|
                    0 <= j < old(self).spec_memory().len() && !(parse_addr + 1 <= j < parse_addr
                        + 2 + 4 * (k + 1)) implies self.spec_memory()[j] == old(
                    self,
                ).spec_memory()[j] by {
                    assert(m1.len() == old(self).spec_memory().len());
                    assert(w + 4 <= m1.len());
                    assert(j < w || j >= w + 4);
                    assert(self.spec_memory()[j] == m1[j]);
                }
            }
            w = w + 4;
            k = k + 1;
        }
        Ok(())
    }
}


/// How many of the first `i` operands read the stack (variable 0): each
/// pops once, in source order.
pub open spec fn spec_var0_before(ops: Seq<Operand>, i: int) -> int
    decreases i,
{
    if i <= 0 {
        0
    } else {
        spec_var0_before(ops, i - 1) + (if ops[i - 1] == Operand::Variable(0u8) {
            1int
        } else {
            0int
        })
    }
}

pub proof fn lemma_var0_before_mono(ops: Seq<Operand>, i: int, j: int)
    requires
        0 <= i <= j,
    ensures
        spec_var0_before(ops, i) <= spec_var0_before(ops, j),
    decreases j,
{
    if j > i {
        lemma_var0_before_mono(ops, i, j - 1);
    }
}

pub proof fn lemma_var0_before_bound(ops: Seq<Operand>, i: int)
    requires
        0 <= i <= ops.len(),
    ensures
        0 <= spec_var0_before(ops, i) <= i,
    decreases i,
{
    if i > 0 {
        lemma_var0_before_bound(ops, i - 1);
    }
}

impl<ZUI> Zmachine<ZUI> {
    /// All operands are resolvable: enough stacked values for the
    /// variable-0 reads and a live local for every local read.
    pub open spec fn spec_args_ok(&self, ops: Seq<Operand>) -> bool {
        &&& spec_var0_before(ops, ops.len() as int) <= self.spec_top_frame().stack@.len()
        &&& forall|i: int|
            0 <= i < ops.len() ==> match #[trigger] ops[i] {
                Operand::Variable(v) => 1 <= v <= 15 ==> v - 1 < self.spec_top_frame().locals@.len(),
                _ => true,
            }
    }

    /// The value the `i`-th operand resolves to, stack pops counted in
    /// source order from the left.
    pub open spec fn spec_arg_value(&self, ops: Seq<Operand>, i: int) -> u16 {
        match ops[i] {
            Operand::Small(v) => v as u16,
            Operand::Large(v) => v,
            Operand::Variable(v) => if v == 0 {
                self.spec_top_frame().stack@[self.spec_top_frame().stack@.len() - 1
                    - spec_var0_before(ops, i)]
            } else if v <= 15 {
                self.spec_top_frame().locals@[v - 1]
            } else {
                self.spec_global(v - 16)
            },
        }
    }

    /// Resolve the operand list left to right; variable-0 operands pop the
    /// evaluation stack in source order, so resolution order is
    /// observable and pinned.
    fn get_arguments(&mut self, operands: &Vec<Operand>) -> (r: Result<Vec<u16>, ZmachineError>)
        requires
            old(self).wf(),
        ensures
            final(self).wf(),
            Self::same_layout(old(self), final(self)),
            Self::same_streams(old(self), final(self)),
            final(self).spec_memory() == old(self).spec_memory(),
            final(self).pc == old(self).pc,
            final(self).spec_frames().len() == old(self).spec_frames().len(),
            old(self).spec_args_ok(operands@) ==> {
                &&& r is Ok
                &&& r->Ok_0@.len() == operands@.len()
                &&& forall|i: int|
                    0 <= i < operands@.len() ==> r->Ok_0@[i] == old(self).spec_arg_value(
                        operands@,
                        i,
                    )
                &&& final(self).spec_top_frame().stack@ == old(self).spec_top_frame().stack@.take(
                    old(self).spec_top_frame().stack@.len() - spec_var0_before(
                        operands@,
                        operands@.len() as int,
                    ),
                )
                &&& final(self).spec_top_frame().locals == old(self).spec_top_frame().locals
                &&& final(self).spec_top_frame().resume == old(self).spec_top_frame().resume
                &&& final(self).spec_top_frame().store == old(self).spec_top_frame().store
                &&& final(self).spec_top_frame().arg_count == old(self).spec_top_frame().arg_count
            },
    {
        let ghost ops = operands@;
        let mut out: Vec<u16> = Vec::new();
        let n = operands.len();
        let mut i: usize = 0;
        proof {
            lemma_var0_before_bound(ops, ops.len() as int);
        }
        while i < n
            invariant
                self.wf(),
                Self::same_layout(old(self), self),
                Self::same_streams(old(self), self),
                self.spec_memory() == old(self).spec_memory(),
                self.pc == old(self).pc,
                self.spec_frames().len() == old(self).spec_frames().len(),
                n == ops.len(),
                operands@ == ops,
                i <= n,
                out@.len() == i,
                old(self).spec_args_ok(ops) ==> spec_var0_before(ops, i as int) <= old(self).spec_top_frame().stack@.len(),
                old(self).spec_args_ok(ops) ==> self.spec_top_frame().stack@ == old(self).spec_top_frame().stack@.take(
                    old(self).spec_top_frame().stack@.len() - spec_var0_before(ops, i as int),
                ),
                old(self).spec_args_ok(ops) ==> self.spec_top_frame().locals == old(self).spec_top_frame().locals,
                old(self).spec_args_ok(ops) ==> self.spec_top_frame().resume == old(self).spec_top_frame().resume && self.spec_top_frame().store == old(self).spec_top_frame().store && self.spec_top_frame().arg_count == old(self).spec_top_frame().arg_count,
                old(self).spec_args_ok(ops) ==> forall|j: int|
                    0 <= j < i ==> out@[j] == old(self).spec_arg_value(ops, j),
            decreases n - i,
        {
            proof {
                lemma_var0_before_bound(ops, i as int);
                lemma_var0_before_bound(ops, i + 1);
            }
            let v = match operands[i] {
                Operand::Small(val) => {
                    proof {
                        assert(spec_var0_before(ops, i + 1) == spec_var0_before(ops, i as int));
                    }
                    val as u16
                },
                Operand::Large(val) => {
                    proof {
                        assert(spec_var0_before(ops, i + 1) == spec_var0_before(ops, i as int));
                    }
                    val
                },
                Operand::Variable(var) => {
                    proof {
                        if var != 0 {
                            assert(spec_var0_before(ops, i + 1) == spec_var0_before(
                                ops,
                                i as int,
                            ));
                        } else {
                            assert(spec_var0_before(ops, i + 1) == spec_var0_before(
                                ops,
                                i as int,
                            ) + 1);
                            lemma_var0_before_mono(ops, i + 1, ops.len() as int);
                        }
                    }
                    let got = self.read_variable(var)?;
                    got
                },
            };
            out.push(v);
            i = i + 1;
            proof {
                if old(self).spec_args_ok(ops) {
                    let stk = old(self).spec_top_frame().stack@;
                    let l = stk.len() as int;
                    lemma_var0_before_mono(ops, i as int, ops.len() as int);
                    if ops[i - 1] == Operand::Variable(0u8) {
                        assert(stk.take(l - spec_var0_before(ops, i - 1)).drop_last() =~= stk.take(
                            l - spec_var0_before(ops, i as int),
                        ));
                        assert(stk.take(l - spec_var0_before(ops, i - 1)).last() == stk[l - 1
                            - spec_var0_before(ops, i - 1)]);
                    }
                    assert(self.spec_top_frame().stack@ =~= stk.take(
                        l - spec_var0_before(ops, i as int),
                    ));
                }
            }
        }
        Ok(out)
    }

    /// Whether a routine return with `value` can complete: always, except
    /// when the popped frame stores to a local the caller's frame lacks.
    pub open spec fn spec_return_ok(pre: &Self, value: u16) -> bool {
        match pre.spec_top_frame().store {
            None => true,
            Some(idx) => 1 <= idx <= 15 ==> idx - 1 < pre.spec_frames()[pre.spec_frames().len()
                - 2].locals@.len(),
        }
    }

    /// The state after returning `value` from the current routine: the top
    /// frame is popped, execution resumes at its return address, and when
    /// it carries a store target the value is written there — pushed onto
    /// the caller's stack for variable 0, into the caller's local or the
    /// global cell otherwise.
    pub open spec fn spec_return_effect(pre: &Self, post: &Self, value: u16) -> bool {
        let popped = pre.spec_top_frame();
        let below = pre.spec_frames()[pre.spec_frames().len() - 2];
        &&& post.spec_frames().len() == pre.spec_frames().len() - 1
        &&& post.spec_pc() == popped.resume
        &&& forall|i: int|
            0 <= i < pre.spec_frames().len() - 2 ==> post.spec_frames()[i]
                == pre.spec_frames()[i]
        &&& match popped.store {
            None => post.spec_memory() == pre.spec_memory() && post.spec_frames()
                == pre.spec_frames().drop_last(),
            Some(idx) => {
                &&& (idx == 0 ==> post.spec_memory() == pre.spec_memory()
                    && post.spec_top_frame().stack@ == below.stack@.push(value)
                    && post.spec_top_frame().locals == below.locals
                    && post.spec_top_frame().resume == below.resume
                    && post.spec_top_frame().store == below.store
                    && post.spec_top_frame().arg_count == below.arg_count)
                &&& (1 <= idx <= 15 ==> post.spec_memory() == pre.spec_memory()
                    && post.spec_top_frame().stack == below.stack
                    && post.spec_top_frame().locals@ == below.locals@.update(idx - 1, value)
                    && post.spec_top_frame().resume == below.resume
                    && post.spec_top_frame().store == below.store
                    && post.spec_top_frame().arg_count == below.arg_count)
                &&& (idx >= 16 ==> post.spec_frames() == pre.spec_frames().drop_last()
                    && post.spec_global(idx - 16) == value && post.spec_memory()
                    == Self::spec_global_written(pre, value, idx - 16))
            },
        }
    }

    /// Pop the current frame and resume at its return address, storing the
    /// value if the call asked for one. Returning past the sentinel frame
    /// is a fatal underflow.
    fn return_from_routine(&mut self, value: u16) -> (r: Result<(), ZmachineError>)
        requires
            old(self).wf(),
        ensures
            final(self).wf(),
            Self::same_layout(old(self), final(self)),
            Self::same_streams(old(self), final(self)),
            old(self).spec_frames().len() == 1 ==> r == Err::<(), ZmachineError>(
                ZmachineError::StackUnderflow,
            ),
            old(self).spec_frames().len() > 1 ==> {
                &&& final(self).spec_frames().len() == old(self).spec_frames().len() - 1
                &&& (r is Ok ==> final(self).spec_pc() == old(self).spec_top_frame().resume)
                &&& (r is Ok <==> Self::spec_return_ok(old(self), value))
                &&& (r is Ok ==> Self::spec_return_effect(old(self), final(self), value))
                &&& (old(self).spec_top_frame().store is None ==> r is Ok && final(self).spec_memory() == old(self).spec_memory() && final(self).spec_frames() == old(self).spec_frames().drop_last())
            },
    {
        if self.frames.len() <= 1 {
            return Err(ZmachineError::StackUnderflow);
        }
        let n = self.frames.len();
        let frame = self.frames.remove(n - 1);
        self.pc = frame.resume;
        let ghost popped_state = *self;
        proof {
            assert(popped_state.spec_frames() =~= old(self).spec_frames().drop_last());
            assert(popped_state.spec_top_frame() == old(self).spec_frames()[old(
                self,
            ).spec_frames().len() - 2]);
        }
        match frame.store {
            Some(index) => {
                let res = self.write_variable(index, value);
                proof {
                    if res is Ok {
                        if index >= 16 {
                            assert(final(self).spec_frames() =~= old(
                                self,
                            ).spec_frames().drop_last());
                        }
                    }
                }
                match res {
                    Ok(_) => Ok(()),
                    Err(e) => Err(e),
                }
            },
            None => Ok(()),
        }
    }

    /// Memory after writing `value` into global `g`: exactly its two-byte
    /// cell changes.
    pub open spec fn spec_global_written(pre: &Self, value: u16, g: int) -> Seq<u8> {
        pre.spec_memory().update(
            pre.spec_globals_addr() + 2 * g,
            crate::buffer::word_hi(value),
        ).update(pre.spec_globals_addr() + 2 * g + 1, crate::buffer::word_lo(value))
    }

    /// The state after storing `value` into variable `index`, relative to
    /// a state whose operands were already popped: variable 0 pushes, a
    /// local is updated in place, a global cell changes; nothing else.
    pub open spec fn spec_var_store_effect(pre: &Self, post: &Self, index: u8, value: u16) -> bool {
        &&& post.spec_frames().len() == pre.spec_frames().len()
        &&& (index == 0 ==> post.spec_memory() == pre.spec_memory()
            && post.spec_top_frame().stack@ == pre.spec_top_frame().stack@.push(value)
            && post.spec_top_frame().locals == pre.spec_top_frame().locals)
        &&& (1 <= index <= 15 ==> post.spec_memory() == pre.spec_memory()
            && post.spec_top_frame().stack == pre.spec_top_frame().stack
            && post.spec_top_frame().locals@ == pre.spec_top_frame().locals@.update(
            index - 1,
            value,
        ))
        &&& (index >= 16 ==> post.spec_frames() == pre.spec_frames() && post.spec_global(
            index - 16,
        ) == value && post.spec_memory() == Self::spec_global_written(pre, value, index - 16))
    }

    /// The state after resolving `ops` (popping the stack for each
    /// variable-0 operand, in source order) and then storing `value` into
    /// variable `index`.
    pub open spec fn spec_stored_after_args(
        pre: &Self,
        post: &Self,
        ops: Seq<Operand>,
        index: u8,
        value: u16,
    ) -> bool {
        let popped = pre.spec_top_frame().stack@.take(
            pre.spec_top_frame().stack@.len() - spec_var0_before(ops, ops.len() as int),
        );
        &&& post.spec_frames().len() == pre.spec_frames().len()
        &&& (index == 0 ==> post.spec_memory() == pre.spec_memory()
            && post.spec_top_frame().stack@ == popped.push(value)
            && post.spec_top_frame().locals == pre.spec_top_frame().locals)
        &&& (1 <= index <= 15 ==> post.spec_memory() == pre.spec_memory()
            && post.spec_top_frame().stack@ == popped && post.spec_top_frame().locals@
            == pre.spec_top_frame().locals@.update(index - 1, value))
        &&& (index >= 16 ==> post.spec_top_frame().stack@ == popped
            && post.spec_top_frame().locals == pre.spec_top_frame().locals && post.spec_global(
            index - 16,
        ) == value && post.spec_memory() == Self::spec_global_written(pre, value, index - 16))
    }

    /// The value a pure two-operand opcode computes; `None` when the
    /// opcode is not one of them or the division is undefined.
    pub open spec fn spec_pure2_value(op: Opcode, a: u16, b: u16) -> Option<u16> {
        if op == Opcode::OP2_8 {
            Some(a | b)
        } else if op == Opcode::OP2_9 {
            Some(a & b)
        } else if op == Opcode::OP2_20 {
            Some(spec_wrap16(spec_signed(a) + spec_signed(b)))
        } else if op == Opcode::OP2_21 {
            Some(spec_wrap16(spec_signed(a) - spec_signed(b)))
        } else if op == Opcode::OP2_22 {
            Some(spec_wrap16(spec_signed(a) * spec_signed(b)))
        } else if op == Opcode::OP2_23 {
            if spec_signed(b) == 0 {
                None
            } else {
                Some(spec_wrap16(spec_idiv(spec_signed(a), spec_signed(b))))
            }
        } else if op == Opcode::OP2_24 {
            if spec_signed(b) == 0 {
                None
            } else {
                Some(spec_wrap16(spec_imod(spec_signed(a), spec_signed(b))))
            }
        } else {
            None
        }
    }

    /// Whether one of the plain comparison opcodes holds of its resolved
    /// operands; `None` for any other opcode or arity.
    pub open spec fn spec_branch_test(&self, op: Opcode, ops: Seq<Operand>) -> Option<bool> {
        if op == Opcode::OP2_1 && 1 <= ops.len() <= 8 {
            Some(
                exists|i: int|
                    1 <= i < ops.len() && #[trigger] self.spec_arg_value(ops, i)
                        == self.spec_arg_value(ops, 0),
            )
        } else if op == Opcode::OP2_2 && ops.len() == 2 {
            Some(spec_lt(self.spec_arg_value(ops, 0), self.spec_arg_value(ops, 1)))
        } else if op == Opcode::OP2_3 && ops.len() == 2 {
            Some(spec_lt(self.spec_arg_value(ops, 1), self.spec_arg_value(ops, 0)))
        } else if op == Opcode::OP1_128 && ops.len() == 1 {
            Some(self.spec_arg_value(ops, 0) == 0)
        } else {
            None
        }
    }

    /// Act on a branch descriptor: compare the result (nonzero reads as 1)
    /// with the branch polarity; on a match either jump to the target or,
    /// for the special offsets, return 0 or 1 from the routine; on a miss
    /// fall through.
    fn process_branch(&mut self, branch: &Branch, next: usize, result: u16) -> (r: Result<
        (),
        ZmachineError,
    >)
        requires
            old(self).wf(),
        ensures
            final(self).wf(),
            Self::same_layout(old(self), final(self)),
            Self::same_streams(old(self), final(self)),
            ({
                let bit: u16 = if result >= 1 {
                    1u16
                } else {
                    0u16
                };
                let taken = bit == branch.condition as u16;
                &&& (branch.address is Some && taken && branch.returns is None ==> r is Ok
                    && final(self).spec_pc() == branch.address->Some_0 && final(self).spec_frames()
                    == old(self).spec_frames() && final(self).spec_memory() == old(self).spec_memory())
                &&& (branch.address is Some && !taken && branch.returns is None ==> r is Ok
                    && final(self).spec_pc() == next && final(self).spec_frames() == old(self).spec_frames() && final(self).spec_memory() == old(self).spec_memory())
                &&& (branch.returns is Some && !taken ==> r is Ok && final(self).spec_pc() == next
                    && final(self).spec_frames() == old(self).spec_frames() && final(self).spec_memory() == old(self).spec_memory())
                &&& (branch.returns is Some && taken && old(self).spec_frames().len() > 1 && old(self).spec_top_frame().store is None ==> r is Ok && final(self).spec_pc() == old(self).spec_top_frame().resume && final(self).spec_frames() == old(self).spec_frames().drop_last())
                // A taken return-branch is a routine return with the
                // descriptor's 0 or 1: the popped frame's store target,
                // when it has one, receives that value.
                &&& (branch.returns is Some && taken && old(self).spec_frames().len() > 1 ==> {
                    &&& (r is Ok <==> Self::spec_return_ok(old(self), branch.returns->Some_0))
                    &&& (r is Ok ==> Self::spec_return_effect(
                        old(self),
                        final(self),
                        branch.returns->Some_0,
                    ))
                })
                &&& (branch.returns is Some && taken && old(self).spec_frames().len() == 1 ==> r
                    is Err)
            }),
    {
        let bit: u16 = if result >= 1 {
            1
        } else {
            0
        };
        let taken = bit == branch.condition as u16;
        match branch.returns {
            Some(value) => {
                if taken {
                    self.return_from_routine(value)
                } else {
                    self.pc = next;
                    Ok(())
                }
            },
            None => {
                match branch.address {
                    Some(target) => {
                        if taken {
                            self.pc = target;
                        } else {
                            self.pc = next;
                        }
                        Ok(())
                    },
                    None => {
                        self.pc = next;
                        Ok(())
                    },
                }
            },
        }
    }

    /// Store the result if the instruction stores; branch if it branches;
    /// otherwise fall through to the next instruction.
    fn process_result(&mut self, instr: &Instruction, value: u16) -> (r: Result<
        (),
        ZmachineError,
    >)
        requires
            old(self).wf(),
        ensures
            final(self).wf(),
            Self::same_layout(old(self), final(self)),
            Self::same_streams(old(self), final(self)),
            instr.store is None && instr.branch is None ==> r is Ok && final(self).spec_memory()
                == old(self).spec_memory() && final(self).spec_frames() == old(self).spec_frames()
                && final(self).spec_pc() == instr.next,
            instr.store is Some && instr.branch is None ==> {
                &&& (r is Ok <==> (1 <= instr.store->Some_0 <= 15 ==> instr.store->Some_0 - 1
                    < old(self).spec_top_frame().locals@.len()))
                &&& (r is Ok ==> Self::spec_var_store_effect(
                    old(self),
                    final(self),
                    instr.store->Some_0,
                    value,
                ) && final(self).spec_pc() == instr.next)
            },
            instr.store is None && instr.branch is Some ==> ({
                let b = instr.branch->Some_0;
                let bit: u16 = if value >= 1 {
                    1u16
                } else {
                    0u16
                };
                let taken = bit == b.condition as u16;
                &&& (b.address is Some && taken && b.returns is None ==> r is Ok && final(self).spec_pc() == b.address->Some_0 && final(self).spec_frames() == old(self).spec_frames() && final(self).spec_memory() == old(self).spec_memory())
                &&& (b.address is Some && !taken && b.returns is None ==> r is Ok && final(self).spec_pc() == instr.next && final(self).spec_frames() == old(self).spec_frames() && final(self).spec_memory() == old(self).spec_memory())
                &&& (b.returns is Some && !taken ==> r is Ok && final(self).spec_pc() == instr.next && final(self).spec_frames() == old(self).spec_frames() && final(self).spec_memory() == old(self).spec_memory())
                &&& (b.returns is Some && taken && old(self).spec_frames().len() > 1 && old(self).spec_top_frame().store is None ==> r is Ok && final(self).spec_pc() == old(self).spec_top_frame().resume && final(self).spec_frames() == old(self).spec_frames().drop_last())
                &&& (b.returns is Some && taken && old(self).spec_frames().len() > 1 ==> {
                    &&& (r is Ok <==> Self::spec_return_ok(old(self), b.returns->Some_0))
                    &&& (r is Ok ==> Self::spec_return_effect(
                        old(self),
                        final(self),
                        b.returns->Some_0,
                    ))
                })
                &&& (b.returns is Some && taken && old(self).spec_frames().len() == 1 ==> r is Err)
            }),
    {
        match instr.store {
            Some(index) => {
                self.write_variable(index, value)?;
            },
            None => (),
        }
        match &instr.branch {
            Some(branch) => self.process_branch(branch, instr.next, value),
            None => {
                self.pc = instr.next;
                Ok(())
            },
        }
    }

    /// Call a routine: read its local count (and initial values to v4),
    /// push a frame whose first locals take the arguments, and continue at
    /// its first instruction. Address 0 calls nothing and stores 0.
    #[verifier::loop_isolation(false)]
    fn do_call(&mut self, instr: &Instruction, addr: u16, args: &[u16]) -> (r: Result<
        (),
        ZmachineError,
    >)
        requires
            old(self).wf(),
            args@.len() <= 8,
        ensures
            final(self).wf(),
            Self::same_layout(old(self), final(self)),
            Self::same_streams(old(self), final(self)),
            // Address 0 calls nothing: the instruction completes with 0.
            addr == 0 && instr.store is None && instr.branch is None ==> r is Ok
                && final(self).spec_memory() == old(self).spec_memory()
                && final(self).spec_frames() == old(self).spec_frames()
                && final(self).spec_pc() == instr.next,
            addr == 0 && instr.store is Some && instr.branch is None ==> {
                &&& (r is Ok <==> (1 <= instr.store->Some_0 <= 15 ==> instr.store->Some_0 - 1
                    < old(self).spec_top_frame().locals@.len()))
                &&& (r is Ok ==> Self::spec_var_store_effect(
                    old(self),
                    final(self),
                    instr.store->Some_0,
                    0,
                ) && final(self).spec_pc() == instr.next)
            },
            // A real call pushes one frame: resume and store from the
            // instruction, the first locals from the arguments, the rest
            // from the routine header to v4 and zero from v5, an empty
            // stack, and execution continues at the routine's first
            // instruction.
            addr != 0 && r is Ok ==> ({
                let raddr = old(self).spec_unpack(addr) + (if old(self).spec_version() == 6
                    || old(self).spec_version() == 7 {
                    old(self).spec_routine_offset() * 8
                } else {
                    0int
                });
                let count = old(self).spec_memory()[raddr] as int;
                &&& count <= 15
                &&& final(self).spec_memory() == old(self).spec_memory()
                &&& final(self).spec_frames().len() == old(self).spec_frames().len() + 1
                &&& forall|i: int|
                    0 <= i < old(self).spec_frames().len() ==> final(self).spec_frames()[i]
                        == old(self).spec_frames()[i]
                &&& final(self).spec_top_frame().resume == instr.next
                &&& final(self).spec_top_frame().store == instr.store
                &&& final(self).spec_top_frame().stack@ == Seq::<u16>::empty()
                &&& final(self).spec_top_frame().arg_count == args@.len()
                &&& final(self).spec_top_frame().locals@.len() == count
                &&& forall|j: int|
                    0 <= j < count && j < args@.len() ==> final(self).spec_top_frame().locals@[j]
                        == args@[j]
                &&& (old(self).spec_version() >= 5 ==> forall|j: int|
                    args@.len() <= j < count ==> final(self).spec_top_frame().locals@[j] == 0)
                &&& (old(self).spec_version() <= 4 ==> forall|j: int|
                    args@.len() <= j < count ==> final(self).spec_top_frame().locals@[j]
                        == word_at(old(self).spec_memory(), raddr + 1 + 2 * j))
                &&& final(self).spec_pc() == raddr + 1 + (if old(self).spec_version() <= 4 {
                    2 * count
                } else {
                    0int
                })
            }),
    {
        if addr == 0 {
            return self.process_result(instr, 0);
        }
        let routine_addr = self.unpack_routine_addr(addr)?;
        let mut read = BufReader::new(routine_addr);
        let count = read.byte(&self.memory)?;
        if count > 15 {
            return Err(ZmachineError::MalformedImage);
        }
        let mut locals: Vec<u16> = Vec::new();
        let mut k: u8 = 0;
        while k < count
            invariant
                self.wf(),
                *self == *old(self),
                k <= count,
                count <= 15,
                locals@.len() == k,
                read.pos == routine_addr + 1 + (if old(self).spec_version() <= 4 {
                    2 * (k as int)
                } else {
                    0int
                }),
                old(self).spec_version() <= 4 ==> forall|j: int|
                    0 <= j < k ==> locals@[j] == word_at(
                        old(self).spec_memory(),
                        routine_addr + 1 + 2 * j,
                    ),
                old(self).spec_version() >= 5 ==> forall|j: int| 0 <= j < k ==> locals@[j] == 0,
            decreases count - k,
        {
            if self.version <= 4 {
                let w = read.word(&self.memory)?;
                locals.push(w);
            } else {
                locals.push(0);
            }
            k = k + 1;
        }
        let first_instr = read.position();
        let ghost locals0 = locals@;
        let frame = Frame::new(instr.next, instr.store, locals, args);
        self.pc = first_instr;
        let ghost frame0 = frame;
        self.frames.push(frame);
        proof {
            assert(final(self).spec_top_frame() == frame0);
            assert(final(self).spec_top_frame().stack@ =~= Seq::<u16>::empty());
            assert(locals0.len() == count as int);
            if old(self).spec_version() <= 4 {
                assert forall|j: int|
                    args@.len() <= j < count as int implies final(self).spec_top_frame().locals@[
                j] == word_at(old(self).spec_memory(), routine_addr + 1 + 2 * j) by {
                    assert(frame0.locals@[j] == locals0[j]);
                    assert(locals0[j] == word_at(
                        old(self).spec_memory(),
                        routine_addr + 1 + 2 * j,
                    ));
                }
            } else {
                assert forall|j: int|
                    args@.len() <= j < count as int implies final(self).spec_top_frame().locals@[
                j] == 0 by {
                    assert(frame0.locals@[j] == locals0[j]);
                    assert(locals0[j] == 0);
                }
            }
        }
        Ok(())
    }
}


/// Truncating signed division (toward zero), as the Z-machine demands.
pub open spec fn spec_idiv(x: int, y: int) -> int {
    let ax = if x < 0 {
        -x
    } else {
        x
    };
    let ay = if y < 0 {
        -y
    } else {
        y
    };
    if (x < 0) == (y < 0) {
        ax / ay
    } else {
        -(ax / ay)
    }
}

/// Truncating signed remainder: `x - y * (x / y)` with truncating division.
pub open spec fn spec_imod(x: int, y: int) -> int {
    x - y * spec_idiv(x, y)
}

/// A signed 16-bit quantity reduced to its unsigned two's-complement form.
pub open spec fn spec_wrap16(x: int) -> u16 {
    (((x % 0x10000) + 0x10000) % 0x10000) as u16
}

/// `spec_wrap16` respects congruence modulo 2^16.
pub proof fn lemma_wrap16_congruent(x: int, k: int)
    ensures
        spec_wrap16(x + 0x10000 * k) == spec_wrap16(x),
{
    vstd::arithmetic::div_mod::lemma_mod_multiples_vanish(k, x, 0x10000);
    vstd::arithmetic::div_mod::lemma_mod_multiples_vanish(
        1,
        (x + 0x10000 * k) % 0x10000,
        0x10000,
    );
    vstd::arithmetic::div_mod::lemma_mod_multiples_vanish(1, x % 0x10000, 0x10000);
}

/// The signed reading of an unsigned 16-bit word.
pub open spec fn spec_signed(a: u16) -> int {
    if a < 0x8000 {
        a as int
    } else {
        a as int - 0x10000
    }
}

/// `add`: 16-bit wrapping signed addition.
pub fn op_add(a: u16, b: u16) -> (r: u16)
    ensures
        r == spec_wrap16(spec_signed(a) + spec_signed(b)),
{
    let r = (((a as u32) + (b as u32)) % 0x10000) as u16;
    proof {
        let sa = spec_signed(a);
        let sb = spec_signed(b);
        let ka: int = if a >= 0x8000 {
            1
        } else {
            0
        };
        let kb: int = if b >= 0x8000 {
            1
        } else {
            0
        };
        assert(a as int == sa + 0x10000 * ka);
        assert(b as int == sb + 0x10000 * kb);
        lemma_wrap16_congruent(sa + sb, ka + kb);
        assert(spec_wrap16(a as int + b as int) == spec_wrap16(sa + sb));
        assert(r == spec_wrap16(a as int + b as int));
    }
    r
}

/// `sub`: 16-bit wrapping signed subtraction.
pub fn op_sub(a: u16, b: u16) -> (r: u16)
    ensures
        r == spec_wrap16(spec_signed(a) - spec_signed(b)),
{
    let r = (((a as u32) + 0x10000 - (b as u32)) % 0x10000) as u16;
    proof {
        let sa = spec_signed(a);
        let sb = spec_signed(b);
        let ka: int = if a >= 0x8000 {
            1
        } else {
            0
        };
        let kb: int = if b >= 0x8000 {
            1
        } else {
            0
        };
        assert(a as int == sa + 0x10000 * ka);
        assert(b as int == sb + 0x10000 * kb);
        lemma_wrap16_congruent(sa - sb, 1 + ka - kb);
        assert(a as int + 0x10000 - b as int == sa - sb + 0x10000 * (1 + ka - kb));
        assert(r == spec_wrap16(a as int + 0x10000 - b as int));
    }
    r
}

/// `mul`: 16-bit wrapping signed multiplication.
pub fn op_mul(a: u16, b: u16) -> (r: u16)
    ensures
        r == spec_wrap16(spec_signed(a) * spec_signed(b)),
{
    proof {
        assert(a as int * b as int <= 65535 * 65535) by (nonlinear_arith)
            requires
                a <= 65535,
                b <= 65535,
        ;
    }
    let r = (((a as u64) * (b as u64)) % 0x10000) as u16;
    proof {
        let sa = spec_signed(a);
        let sb = spec_signed(b);
        let ka: int = if a >= 0x8000 {
            1
        } else {
            0
        };
        let kb: int = if b >= 0x8000 {
            1
        } else {
            0
        };
        assert(a as int == sa + 0x10000 * ka);
        assert(b as int == sb + 0x10000 * kb);
        assert((sa + 0x10000 * ka) * (sb + 0x10000 * kb) == sa * sb + 0x10000 * (sa * kb + sb
            * ka + 0x10000 * ka * kb)) by (nonlinear_arith);
        lemma_wrap16_congruent(sa * sb, sa * kb + sb * ka + 0x10000 * ka * kb);
        assert(a as int * b as int == (sa + 0x10000 * ka) * (sb + 0x10000 * kb));
        assert(r == spec_wrap16(a as int * b as int));
    }
    r
}

/// The magnitude of a signed 16-bit word, as unsigned.
fn mag16(a: u16) -> (r: u32)
    ensures
        r == (if spec_signed(a) < 0 {
            -spec_signed(a)
        } else {
            spec_signed(a)
        }),
{
    if a < 0x8000 {
        a as u32
    } else {
        0x10000u32 - (a as u32)
    }
}

/// `div`: signed 16-bit division, truncating toward zero. Division by
/// zero is a fatal error.
pub fn op_div(a: u16, b: u16) -> (r: Result<u16, ZmachineError>)
    ensures
        spec_signed(b) == 0 ==> r == Err::<u16, ZmachineError>(ZmachineError::BadAddress),
        spec_signed(b) != 0 ==> r == Ok::<u16, ZmachineError>(
            spec_wrap16(spec_idiv(spec_signed(a), spec_signed(b))),
        ),
{
    if b == 0 {
        return Err(ZmachineError::BadAddress);
    }
    let na = mag16(a);
    let nb = mag16(b);
    let q = na / nb;
    let sa_neg = a >= 0x8000;
    let sb_neg = b >= 0x8000;
    if sa_neg == sb_neg {
        proof {
            assert(q < 0x10000);
        }
        Ok((q % 0x10000) as u16)
    } else {
        Ok(((0x10000u32 - (q % 0x10000)) % 0x10000) as u16)
    }
}

/// `mod`: signed 16-bit remainder with the sign of the dividend.
pub fn op_mod(a: u16, b: u16) -> (r: Result<u16, ZmachineError>)
    ensures
        spec_signed(b) == 0 ==> r == Err::<u16, ZmachineError>(ZmachineError::BadAddress),
        spec_signed(b) != 0 ==> r == Ok::<u16, ZmachineError>(
            spec_wrap16(spec_imod(spec_signed(a), spec_signed(b))),
        ),
{
    if b == 0 {
        return Err(ZmachineError::BadAddress);
    }
    let na = mag16(a);
    let nb = mag16(b);
    let m = na % nb;
    let sa_neg = a >= 0x8000;
    let sb_neg = b >= 0x8000;
    let ghost sa = spec_signed(a);
    let ghost sb = spec_signed(b);
    proof {
        let aa: int = if sa < 0 {
            -sa
        } else {
            sa
        };
        let ab: int = if sb < 0 {
            -sb
        } else {
            sb
        };
        assert(aa == aa / ab * ab + aa % ab) by (nonlinear_arith)
            requires
                ab > 0,
                aa >= 0,
        ;
        assert(spec_imod(sa, sb) == (if sa < 0 {
            -(aa % ab)
        } else {
            aa % ab
        })) by (nonlinear_arith)
            requires
                ab > 0,
                aa >= 0,
                sa == (if sa < 0 {
                    -aa
                } else {
                    aa
                }),
                sb == (if sb < 0 {
                    -ab
                } else {
                    ab
                }),
                spec_idiv(sa, sb) == (if (sa < 0) == (sb < 0) {
                    aa / ab
                } else {
                    -(aa / ab)
                }),
                spec_imod(sa, sb) == sa - sb * spec_idiv(sa, sb),
                aa == aa / ab * ab + aa % ab,
        ;
    }
    if sa_neg {
        Ok(((0x10000u32 - (m % 0x10000)) % 0x10000) as u16)
    } else {
        proof {
            assert(m < 0x8000);
        }
        Ok(m as u16)
    }
}

/// The payload length a property header byte declares: the top three bits
/// plus one in v3; in v4+ a set bit 7 makes the byte the second header
/// byte carrying a 6-bit length (0 meaning 64), else bit 6 selects one or
/// two bytes.
pub open spec fn spec_prop_len_of(version: u8, header: u8) -> u8 {
    if version <= 3 {
        (header / 32 + 1) as u8
    } else if header & 0x80 != 0 {
        if header & 0x3F == 0 {
            64u8
        } else {
            header & 0x3F
        }
    } else if header & 0x40 != 0 {
        2u8
    } else {
        1u8
    }
}

/// The property a header at `h` declares: its number, payload length and
/// payload address, by the version's header layout.
pub open spec fn spec_prop_header(mem: Seq<u8>, version: u8, h: int) -> (u8, u8, int) {
    let b0 = mem[h];
    if version <= 3 {
        ((b0 % 32) as u8, (b0 / 32 + 1) as u8, h + 1)
    } else if b0 & 0x80 != 0 {
        (
            b0 & 0x3F,
            if mem[h + 1] & 0x3F == 0 {
                64u8
            } else {
                mem[h + 1] & 0x3F
            },
            h + 2,
        )
    } else {
        (b0 & 0x3F, if b0 & 0x40 != 0 {
            2u8
        } else {
            1u8
        }, h + 1)
    }
}

/// The opcode the bytes at `addr` select: the encoding form from the
/// first byte, the extended table from the second when the first is 0xBE
/// (v5+).
pub open spec fn spec_opcode_of(mem: Seq<u8>, addr: int, version: u8) -> Option<Opcode> {
    let first = mem[addr];
    if first == 0xBE && version >= 5 {
        Opcode::spec_from_u16((mem[addr + 1] as int + 1000) as u16)
    } else if first <= 0x7F {
        Opcode::spec_from_u16((first & 0x1F) as u16)
    } else if first <= 0xAF {
        Opcode::spec_from_u16(((first & 0x0F) as int + 128) as u16)
    } else if first <= 0xBF {
        Opcode::spec_from_u16(((first & 0x0F) as int + 176) as u16)
    } else if first <= 0xDF {
        Opcode::spec_from_u16((first & 0x1F) as u16)
    } else {
        Opcode::spec_from_u16(((first & 0x1F) as int + 224) as u16)
    }
}

/// The branch descriptor at `p` in memory decodes to `b`: bit 7 of the
/// first byte is the polarity; bit 6 selects a 6-bit unsigned offset or a
/// 14-bit signed one (wrapping at 16384) whose second byte follows.
/// Offsets 0 and 1 yield a routine return instead of a target; any other
/// offset yields the target `address_after_branch + offset - 2`.
pub open spec fn spec_branch_decoded(mem: Seq<u8>, p: int, b: Branch) -> bool {
    let b0 = mem[p];
    &&& b.condition == (if b0 & 0x80 != 0 {
        1u8
    } else {
        0u8
    })
    &&& (b0 & 0x40 != 0 ==> {
        let off = (b0 & 0x3F) as int;
        &&& (off == 0 ==> b.returns == Some(0u16) && b.address is None)
        &&& (off == 1 ==> b.returns == Some(1u16) && b.address is None)
        &&& (off > 1 ==> b.returns is None && b.address is Some && b.address->Some_0 == p + 1
            + off - 2)
    })
    &&& (b0 & 0x40 == 0 ==> {
        let raw = (b0 & 0x3F) * 256 + mem[p + 1];
        let off: int = if raw > 8192 {
            raw - 16384
        } else {
            raw as int
        };
        &&& (off == 0 ==> b.returns == Some(0u16) && b.address is None)
        &&& (off == 1 ==> b.returns == Some(1u16) && b.address is None)
        &&& (off != 0 && off != 1 ==> b.returns is None && b.address is Some
            && b.address->Some_0 == p + 2 + off - 2)
    })
}

impl<ZUI> Zmachine<ZUI> {
    /// Decode the instruction at `addr`: classify the form from the first
    /// byte, read the operands, and any store byte, branch descriptor and
    /// inline text the opcode calls for.
    pub fn decode_instruction(&self, addr: usize) -> (r: Result<Instruction, ZmachineError>)
        requires
            self.wf(),
        ensures
            r is Ok ==> {
                &&& r->Ok_0.addr == addr
                &&& addr < self.spec_memory().len()
                &&& r->Ok_0.next > addr
                &&& r->Ok_0.next <= self.spec_memory().len()
                &&& r->Ok_0.operands@.len() <= 8
                &&& spec_opcode_of(self.spec_memory(), addr as int, self.spec_version())
                    == Some(r->Ok_0.opcode)
                &&& (r->Ok_0.store is Some <==> r->Ok_0.opcode.spec_does_store(
                    self.spec_version(),
                ))
                &&& (r->Ok_0.branch is Some <==> r->Ok_0.opcode.spec_does_branch(
                    self.spec_version(),
                ))
                &&& match (r->Ok_0.branch, r->Ok_0.branch_pos) {
                    (None, None) => true,
                    (Some(b), Some(p)) => {
                        &&& b.condition <= 1
                        &&& (b.returns is Some ==> b.address is None && (b.returns
                            == Some(0u16) || b.returns == Some(1u16)))
                        &&& (b.returns is None ==> b.address is Some
                            && b.address->Some_0 < self.spec_memory().len())
                        &&& addr < p && p + 1 <= self.spec_memory().len()
                        &&& spec_branch_decoded(self.spec_memory(), p as int, b)
                    },
                    _ => false,
                }
            },
    {
        let memlen = self.memory.len();
        let mut read = BufReader::new(addr);
        let first = read.byte(&self.memory)?;
        let mut optypes: Vec<OperandType> = Vec::new();
        let opcode: Opcode;
        if first == 0xBE && self.version >= 5 {
            let ext = read.byte(&self.memory)?;
            opcode = match Opcode::from_u16(ext as u16 + 1000) {
                Some(op) => op,
                None => {
                    return Err(ZmachineError::UnknownOpcode);
                },
            };
            let tb = read.byte(&self.memory)?;
            Self::push_types(&mut optypes, tb);
        } else if first <= 0x7F {
            opcode = match Opcode::from_u16((first & 0x1F) as u16) {
                Some(op) => op,
                None => {
                    return Err(ZmachineError::UnknownOpcode);
                },
            };
            if first & 0x40 != 0 {
                optypes.push(OperandType::Variable);
            } else {
                optypes.push(OperandType::Small);
            }
            if first & 0x20 != 0 {
                optypes.push(OperandType::Variable);
            } else {
                optypes.push(OperandType::Small);
            }
        } else if first <= 0xAF {
            opcode = match Opcode::from_u16((first & 0x0F) as u16 + 128) {
                Some(op) => op,
                None => {
                    return Err(ZmachineError::UnknownOpcode);
                },
            };
            if first <= 0x8F {
                optypes.push(OperandType::Large);
            } else if first <= 0x9F {
                optypes.push(OperandType::Small);
            } else {
                optypes.push(OperandType::Variable);
            }
        } else if first <= 0xBF {
            // 0xBE (extended) was handled above for v5+.
            opcode = match Opcode::from_u16((first & 0x0F) as u16 + 176) {
                Some(op) => op,
                None => {
                    return Err(ZmachineError::UnknownOpcode);
                },
            };
        } else if first <= 0xDF {
            opcode = match Opcode::from_u16((first & 0x1F) as u16) {
                Some(op) => op,
                None => {
                    return Err(ZmachineError::UnknownOpcode);
                },
            };
            let tb = read.byte(&self.memory)?;
            Self::push_types(&mut optypes, tb);
        } else {
            opcode = match Opcode::from_u16((first & 0x1F) as u16 + 224) {
                Some(op) => op,
                None => {
                    return Err(ZmachineError::UnknownOpcode);
                },
            };
            if matches!(opcode, Opcode::VAR_236) || matches!(opcode, Opcode::VAR_250) {
                let tb1 = read.byte(&self.memory)?;
                let tb2 = read.byte(&self.memory)?;
                Self::push_types(&mut optypes, tb1);
                if optypes.len() == 4 {
                    Self::push_types(&mut optypes, tb2);
                }
            } else {
                let tb = read.byte(&self.memory)?;
                Self::push_types(&mut optypes, tb);
            }
        }
        let mut operands: Vec<Operand> = Vec::new();
        let tn = optypes.len();
        let mut t: usize = 0;
        while t < tn
            invariant
                self.wf(),
                tn == optypes@.len(),
                tn <= 8,
                t <= tn,
                operands@.len() == t,
                memlen == self.spec_memory().len(),
                read.pos <= memlen,
                read.pos > addr,
            decreases tn - t,
        {
            match optypes[t] {
                OperandType::Small => {
                    let b = read.byte(&self.memory)?;
                    operands.push(Operand::Small(b));
                },
                OperandType::Large => {
                    let w = read.word(&self.memory)?;
                    operands.push(Operand::Large(w));
                },
                OperandType::Variable => {
                    let b = read.byte(&self.memory)?;
                    operands.push(Operand::Variable(b));
                },
                OperandType::Omitted => {
                    operands.push(Operand::Small(0));
                },
            }
            t = t + 1;
        }
        let store: Option<u8> = if opcode.does_store(self.version) {
            Some(read.byte(&self.memory)?)
        } else {
            None
        };
        let branch_pos: Option<usize> = if opcode.does_branch(self.version) {
            Some(read.position())
        } else {
            None
        };
        let branch: Option<Branch> = if opcode.does_branch(self.version) {
            let byte = read.byte(&self.memory)?;
            let condition: u8 = if byte & 0x80 != 0 {
                1
            } else {
                0
            };
            let offset: i32 = if byte & 0x40 != 0 {
                (byte & 0x3F) as i32
            } else {
                let second = read.byte(&self.memory)?;
                let raw: u32 = ((byte & 0x3F) as u32) * 256 + (second as u32);
                if raw > 8192 {
                    raw as i32 - 16384
                } else {
                    raw as i32
                }
            };
            if offset == 0 {
                Some(Branch { condition, address: None, returns: Some(0) })
            } else if offset == 1 {
                Some(Branch { condition, address: None, returns: Some(1) })
            } else {
                let base = read.position() as i32;
                proof {
                    assert(read.pos <= 0x7FFFFF);
                }
                let target = base + offset - 2;
                if target < 0 || target as usize >= memlen {
                    return Err(ZmachineError::BadAddress);
                }
                Some(Branch { condition, address: Some(target as usize), returns: None })
            }
        } else {
            None
        };
        let (text, next) = if opcode.does_text() {
            let (chars, end) = self.read_zstring(read.position())?;
            if end <= addr || end > memlen {
                return Err(ZmachineError::BadAddress);
            }
            (Some(chars), end)
        } else {
            if read.position() <= addr || read.position() > memlen {
                return Err(ZmachineError::BadAddress);
            }
            (None, read.position())
        };
        Ok(Instruction { addr, opcode, operands, store, branch, branch_pos, text, next })
    }

    /// Append the operand kinds one type byte selects, stopping at the
    /// first omitted slot.
    fn push_types(optypes: &mut Vec<OperandType>, tb: u8)
        requires
            old(optypes)@.len() <= 4,
        ensures
            final(optypes)@.len() <= old(optypes)@.len() + 4,
            final(optypes)@.len() >= old(optypes)@.len(),
    {
        let t0 = OperandType::from_bits(tb >> 6);
        let t1 = OperandType::from_bits(tb >> 4);
        let t2 = OperandType::from_bits(tb >> 2);
        let t3 = OperandType::from_bits(tb);
        if matches!(t0, OperandType::Omitted) {
            return ;
        }
        optypes.push(t0);
        if matches!(t1, OperandType::Omitted) {
            return ;
        }
        optypes.push(t1);
        if matches!(t2, OperandType::Omitted) {
            return ;
        }
        optypes.push(t2);
        if matches!(t3, OperandType::Omitted) {
            return ;
        }
        optypes.push(t3);
    }
}


/// A copy of the elements from `from` on.
fn tail_of(v: &Vec<u16>, from: usize) -> (r: Vec<u16>)
    ensures
        from <= v@.len() ==> r@ == v@.skip(from as int),
        from > v@.len() ==> r@ == Seq::<u16>::empty(),
{
    let mut out: Vec<u16> = Vec::new();
    let n = v.len();
    if from >= n {
        proof {
            if from <= v@.len() {
                assert(v@.skip(from as int) =~= Seq::<u16>::empty());
            }
        }
        return out;
    }
    let mut i = from;
    while i < n
        invariant
            from <= i <= n,
            n == v@.len(),
            out@ == v@.subrange(from as int, i as int),
        decreases n - i,
    {
        out.push(v[i]);
        proof {
            assert(out@ =~= v@.subrange(from as int, i + 1));
        }
        i = i + 1;
    }
    proof {
        assert(out@ =~= v@.skip(from as int));
    }
    out
}

impl<ZUI: UI> Zmachine<ZUI> {
    /// `je`: 1 when the first argument equals any other, else 0.
    fn do_je(&self, a: u16, values: &Vec<u16>) -> (r: u16)
        ensures
            (r == 1 <==> exists|i: int| 1 <= i < values@.len() && values@[i] == a),
            r == 1 || r == 0,
    {
        let n = values.len();
        let mut i: usize = 1;
        while i < n
            invariant
                1 <= i <= n || (n == 0 && i == 1),
                n == values@.len(),
                forall|j: int| 1 <= j < i ==> values@[j] != a,
            decreases n - i,
        {
            if values[i] == a {
                return 1;
            }
            i = i + 1;
        }
        0
    }

    /// `scan_table`: linear scan for `x`, returning the address of the
    /// first match (not its index), or 0 when nothing matches. The form
    /// byte selects byte or word fields and the stride.
    fn do_scan_table(&self, x: u16, table: u16, len: u16, form: Option<u16>) -> (r: Result<
        u16,
        ZmachineError,
    >)
        requires
            self.wf(),
        ensures
            r is Ok ==> ({
                let words = match form {
                    None => true,
                    Some(f) => f & 0x80 != 0,
                };
                let stride = match form {
                    None => 2int,
                    Some(f) => (f & 0x7F) as int,
                };
                match self.spec_scan_first(x, table as int, stride, words, len as int, 0) {
                    None => r->Ok_0 == 0,
                    Some(i) => r->Ok_0 == table as int + stride * i,
                }
            }),
    {
        let (match_words, stride): (bool, usize) = match form {
            None => (true, 2),
            Some(f) => (f & 0x80 != 0, (f & 0x7F) as usize),
        };
        let mut addr: usize = table as usize;
        let mut i: usize = 0;
        proof {
            match form {
                Some(f) => {
                    assert((f & 0x7F) < 0x80) by (bit_vector);
                },
                None => {},
            }
        }
        while i < len as usize
            invariant
                self.wf(),
                i <= len,
                stride <= 0x80,
                match_words == (match form {
                    None => true,
                    Some(f) => f & 0x80 != 0,
                }),
                stride as int == (match form {
                    None => 2int,
                    Some(f) => (f & 0x7F) as int,
                }),
                addr == table + stride * i,
                addr <= table + 0x80 * i,
                self.spec_scan_first(x, table as int, stride as int, match_words, len as int, 0)
                    == self.spec_scan_first(
                    x,
                    table as int,
                    stride as int,
                    match_words,
                    len as int,
                    i as int,
                ),
            decreases len - i,
        {
            let field: u16 = if match_words {
                self.mem_read_word(addr)?
            } else {
                let b = self.mem_read_byte(addr)?;
                b as u16
            };
            if field == x {
                if addr > 0xFFFF || addr == 0 {
                    return Err(ZmachineError::BadAddress);
                }
                proof {
                    assert(self.spec_scan_field(table as int + stride * (i as int), match_words)
                        == x);
                    assert(self.spec_scan_first(
                        x,
                        table as int,
                        stride as int,
                        match_words,
                        len as int,
                        i as int,
                    ) == Some(i as int));
                }
                return Ok(addr as u16);
            }
            proof {
                assert(self.spec_scan_field(table as int + stride * (i as int), match_words)
                    != x);
                assert(self.spec_scan_first(
                    x,
                    table as int,
                    stride as int,
                    match_words,
                    len as int,
                    i as int,
                ) == self.spec_scan_first(
                    x,
                    table as int,
                    stride as int,
                    match_words,
                    len as int,
                    i + 1,
                ));
                assert(stride * (i + 1) == stride * i + stride) by (nonlinear_arith);
                assert(0x80 * (i + 1) == 0x80 * i + 0x80) by (nonlinear_arith);
                assert(0x80 * i >= 0 && stride * i >= 0) by (nonlinear_arith)
                    requires
                        i >= 0,
                        stride >= 0,
                ;
            }
            addr = addr + stride;
            i = i + 1;
        }
        Ok(0)
    }

    /// The index of the first matching field of a table scan, if any.
    pub open spec fn spec_scan_first(
        &self,
        x: u16,
        table: int,
        stride: int,
        words: bool,
        len: int,
        i: int,
    ) -> Option<int>
        decreases len - i,
    {
        if i >= len || i < 0 {
            None
        } else if self.spec_scan_field(table + stride * i, words) == x {
            Some(i)
        } else {
            self.spec_scan_first(x, table, stride, words, len, i + 1)
        }
    }

    /// The field a table scan compares at `addr`: a word or a byte.
    pub open spec fn spec_scan_field(&self, addr: int, words: bool) -> u16 {
        if words {
            word_at(self.spec_memory(), addr)
        } else {
            self.spec_memory()[addr] as u16
        }
    }

    /// `random`: a positive range draws a value in `1..=range`; zero or a
    /// negative range reseeds (negative from the operand, zero from an
    /// entropy source) and returns 0.
    fn do_random(&mut self, range: u16) -> (r: u16)
        requires
            old(self).wf(),
        ensures
            final(self).wf(),
            Self::same_layout(old(self), final(self)),
            Self::same_streams(old(self), final(self)),
            final(self).spec_memory() == old(self).spec_memory(),
            final(self).spec_frames() == old(self).spec_frames(),
            final(self).pc == old(self).pc,
            spec_signed(range) > 0 ==> 1 <= r <= range,
            spec_signed(range) <= 0 ==> r == 0,
    {
        if range == 0 {
            let a = entropy_u32();
            let b = entropy_u32();
            let c = entropy_u32();
            let d = entropy_u32();
            let seed: [u32; 4] = if a == 0 && b == 0 && c == 0 && d == 0 {
                [90, 111, 114, 107]
            } else {
                [a, b, c, d]
            };
            xorshift_reseed(&mut self.rng, seed);
            0
        } else if range >= 0x8000 {
            xorshift_reseed(&mut self.rng, [range as u32, 0, 0, 0]);
            0
        } else if range == 1 {
            // A range of one draws nothing: the generator state is
            // untouched and the only possible value comes back.
            1
        } else {
            let x = xorshift_next(&mut self.rng);
            let v: u16 = 1 + ((x % (range as u32)) as u16);
            v
        }
    }

    /// `copy_table`: with a null second table, zero `|size|` bytes at the
    /// first; otherwise copy `|size|` bytes, forwards when the size is
    /// negative or the regions make it safe, backwards otherwise.
    #[verifier::loop_isolation(false)]
    fn do_copy_table(&mut self, first: u16, second: u16, size: u16) -> (r: Result<
        (),
        ZmachineError,
    >)
        requires
            old(self).wf(),
        ensures
            final(self).wf(),
            Self::same_layout(old(self), final(self)),
            Self::same_streams(old(self), final(self)),
            final(self).spec_frames() == old(self).spec_frames(),
            final(self).spec_pc() == old(self).spec_pc(),
            ({
                let count = if spec_signed(size) < 0 {
                    -spec_signed(size)
                } else {
                    spec_signed(size)
                };
                // A null second table zeroes the first.
                &&& (second == 0 && (count == 0 || first + count <= old(self).spec_static_start())
                    ==> r is Ok)
                &&& (second == 0 && r is Ok ==> (forall|j: int|
                    first <= j < first + count ==> final(self).spec_memory()[j] == 0) && (forall|
                    j: int,
                |
                    0 <= j < old(self).spec_memory().len() && !(first <= j < first + count)
                        ==> final(self).spec_memory()[j] == old(self).spec_memory()[j]))
                // Otherwise the bytes are copied; a negative size forces a
                // forward copy, which clobbers its own source only when the
                // regions overlap that way.
                &&& (second != 0 && (count == 0 || (first + count <= old(self).spec_memory().len()
                    && second + count <= old(self).spec_static_start())) ==> r is Ok)
                &&& (second != 0 && r is Ok && !(size >= 0x8000 && first < second && second
                    < first + count) ==> (forall|j: int|
                    second <= j < second + count ==> final(self).spec_memory()[j] == old(
                        self,
                    ).spec_memory()[j - second + first]) && (forall|j: int|
                    0 <= j < old(self).spec_memory().len() && !(second <= j < second + count)
                        ==> final(self).spec_memory()[j] == old(self).spec_memory()[j]))
            }),
    {
        let count: usize = mag16(size) as usize;
        let force_forward = size >= 0x8000;
        let first = first as usize;
        let second = second as usize;
        let ghost safe = !(size >= 0x8000 && first < second && second < first + count);
        if second == 0 {
            let mut i: usize = 0;
            while i < count
                invariant
                    self.wf(),
                    Self::same_layout(old(self), self),
                    Self::same_streams(old(self), self),
                    self.spec_frames() == old(self).spec_frames(),
                    self.spec_pc() == old(self).spec_pc(),
                    i <= count,
                    forall|j: int| first <= j < first + i ==> self.spec_memory()[j] == 0,
                    forall|j: int|
                        0 <= j < old(self).spec_memory().len() && !(first <= j < first + i)
                            ==> self.spec_memory()[j] == old(self).spec_memory()[j],
                decreases count - i,
            {
                self.mem_write_byte(first + i, 0)?;
                i = i + 1;
            }
            return Ok(());
        }
        let forward = if force_forward {
            true
        } else {
            first > second
        };
        if forward {
            let mut i: usize = 0;
            while i < count
                invariant
                    self.wf(),
                    Self::same_layout(old(self), self),
                    Self::same_streams(old(self), self),
                    self.spec_frames() == old(self).spec_frames(),
                    self.spec_pc() == old(self).spec_pc(),
                    i <= count,
                    safe ==> forall|j: int|
                        second <= j < second + i ==> self.spec_memory()[j] == old(
                            self,
                        ).spec_memory()[j - second + first],
                    forall|j: int|
                        0 <= j < old(self).spec_memory().len() && !(second <= j < second + i)
                            ==> self.spec_memory()[j] == old(self).spec_memory()[j],
                decreases count - i,
            {
                let b = self.mem_read_byte(first + i)?;
                proof {
                    if safe {
                        // Forward is chosen when the source sits above the
                        // destination or the regions do not overlap, so the
                        // byte about to be read is still the original.
                        assert(!(second <= first + i < second + i));
                    }
                }
                self.mem_write_byte(second + i, b)?;
                i = i + 1;
            }
        } else {
            let mut i: usize = count;
            while i > 0
                invariant
                    self.wf(),
                    Self::same_layout(old(self), self),
                    Self::same_streams(old(self), self),
                    self.spec_frames() == old(self).spec_frames(),
                    self.spec_pc() == old(self).spec_pc(),
                    i <= count,
                    i < count ==> second + count <= old(self).spec_static_start(),
                    forall|j: int|
                        second + i <= j < second + count ==> self.spec_memory()[j] == old(
                            self,
                        ).spec_memory()[j - second + first],
                    forall|j: int|
                        0 <= j < old(self).spec_memory().len() && !(second + i <= j < second
                            + count) ==> self.spec_memory()[j] == old(self).spec_memory()[j],
                decreases i,
            {
                i = i - 1;
                let ghost m0 = self.spec_memory();
                let b = self.mem_read_byte(first + i)?;
                proof {
                    // The backward copy reads below everything it has
                    // written, so the byte is still the original.
                    assert(!(second + i + 1 <= first + i < second + count));
                    assert(b == old(self).spec_memory()[first + i]);
                }
                self.mem_write_byte(second + i, b)?;
                proof {
                    assert forall|j: int|
                        second + i <= j < second + count implies self.spec_memory()[j] == old(
                        self,
                    ).spec_memory()[j - second + first] by {
                        if j != second + i {
                            assert(0 <= j < m0.len());
                            assert(self.spec_memory()[j] == m0[j]);
                        }
                    }
                }
            }
        }
        Ok(())
    }

    /// `print_table`: print `height` rows of `width` ZSCII bytes, stepping
    /// `width + skip` bytes per row.
    fn do_print_table(&mut self, zstring: u16, width: u16, height: Option<u16>, skip: Option<
        u16,
    >) -> (r: Result<(), ZmachineError>)
        requires
            old(self).wf(),
        ensures
            final(self).wf(),
            Self::same_layout(old(self), final(self)),
            final(self).spec_frames() == old(self).spec_frames(),
            final(self).spec_pc() == old(self).spec_pc(),
    {
        let mut rows = match height {
            None => 1u16,
            Some(h) => h,
        };
        let stride: u16 = match skip {
            None => width,
            Some(sk) => if width as u32 + sk as u32 > 0xFFFF {
                0xFFFFu16
            } else {
                width + sk
            },
        };
        let mut addr = zstring;
        while rows > 0
            invariant
                self.wf(),
                Self::same_layout(old(self), self),
                self.spec_frames() == old(self).spec_frames(),
                self.spec_pc() == old(self).spec_pc(),
            decreases rows,
        {
            let data = match self.memory.read(addr as usize, width as usize) {
                Ok(d) => d,
                Err(e) => {
                    return Err(e);
                },
            };
            let text = self.bytes_to_string(&data);
            self.print_text(&text)?;
            if rows > 1 {
                let mut nl: Vec<char> = Vec::new();
                nl.push('\n');
                self.print_text(&nl)?;
            }
            rows = rows - 1;
            addr = ((addr as u32 + stride as u32) % 0x10000) as u16;
        }
        Ok(())
    }

    /// `output_stream`: positive selects a stream, negative deselects it.
    /// Stream 1 is the screen; stream 3 pushes an in-memory buffer whose
    /// first word receives the byte count when it is popped; the
    /// transcript streams are accepted and ignored.
    fn do_output_stream(&mut self, number: u16, args: &Vec<u16>) -> (r: Result<
        (),
        ZmachineError,
    >)
        requires
            old(self).wf(),
        ensures
            final(self).wf(),
            Self::same_layout(old(self), final(self)),
            final(self).spec_frames() == old(self).spec_frames(),
            final(self).spec_pc() == old(self).spec_pc(),
            // Selecting no stream, or a transcript stream, is accepted and
            // changes nothing.
            number == 0 ==> r is Ok && final(self).spec_memory() == old(self).spec_memory()
                && final(self).spec_streams() == old(self).spec_streams() && final(self).spec_output_disabled() == old(self).spec_output_disabled(),
            (number == 2 || number == 4 || spec_signed(number) == -2 || spec_signed(number) == -4)
                ==> r is Ok && final(self).spec_memory() == old(self).spec_memory()
                && final(self).spec_streams() == old(self).spec_streams() && final(self).spec_output_disabled() == old(self).spec_output_disabled(),
            number == 1 ==> r is Ok && !final(self).spec_output_disabled() && final(self).spec_memory() == old(self).spec_memory() && final(self).spec_streams() == old(self).spec_streams(),
            spec_signed(number) == -1 ==> r is Ok && final(self).spec_output_disabled() && final(self).spec_memory() == old(self).spec_memory() && final(self).spec_streams() == old(self).spec_streams(),
            number == 3 && args@.len() >= 1 ==> r is Ok && final(self).spec_memory() == old(self).spec_memory() && final(self).spec_streams() == old(self).spec_streams().push((args@[0] as int, args@[0] + 2)),
            spec_signed(number) == -3 && old(self).spec_streams().len() >= 1 ==> ({
                let (start, end) = old(self).spec_streams().last();
                &&& (r is Ok ==> final(self).spec_streams() == old(self).spec_streams().drop_last())
                &&& (start + 2 <= old(self).spec_static_start() && start <= end ==> r is Ok
                    && word_at(final(self).spec_memory(), start) == (if end >= start + 2 {
                    ((end - start - 2) % 0x10000) as u16
                } else {
                    0u16
                }))
            }),
    {
        if number == 0 {
            return Ok(());
        }
        let enabled = number < 0x8000;
        let stream: u16 = if enabled {
            number
        } else {
            (mag16(number) % 0x10000) as u16
        };
        if stream == 1 {
            self.disable_output = !enabled;
            Ok(())
        } else if stream == 2 || stream == 4 {
            Ok(())
        } else if stream == 3 {
            if enabled {
                if args.len() < 1 {
                    return Err(ZmachineError::BadAddress);
                }
                let table_addr = args[0] as usize;
                if table_addr > usize::MAX - 2 {
                    return Err(ZmachineError::BadAddress);
                }
                self.memory_output.push((table_addr, table_addr + 2));
                Ok(())
            } else {
                match self.memory_output.pop() {
                    Some((start, end)) => {
                        let count: u16 = if end >= start && end - start >= 2 {
                            ((end - start - 2) % 0x10000) as u16
                        } else {
                            0
                        };
                        self.mem_write_word(start, count)?;
                        Ok(())
                    },
                    None => Ok(()),
                }
            }
        } else {
            Err(ZmachineError::UnknownOpcode)
        }
    }

    /// `log_shift`: logical (zero-fill) shift, left for positive places,
    /// right for negative.
    fn do_log_shift(&self, number: u16, places: u16) -> (r: u16)
        ensures
            spec_signed(places) == 0 ==> r == number,
            0 < spec_signed(places) < 16 ==> r == number << (spec_signed(places) as u16),
            -16 < spec_signed(places) < 0 ==> r == number >> ((-spec_signed(places)) as u16),
            spec_signed(places) >= 16 || spec_signed(places) <= -16 ==> r == 0,
    {
        if places == 0 {
            number
        } else if places < 0x8000 {
            if places >= 16 {
                0
            } else {
                number << places
            }
        } else {
            let amount = mag16(places);
            if amount >= 16 {
                0
            } else {
                number >> (amount as u16)
            }
        }
    }

    /// `art_shift`: arithmetic shift, sign-preserving on right shifts.
    fn do_art_shift(&self, number: u16, places: u16) -> (r: u16)
        ensures
            spec_signed(places) == 0 ==> r == number,
            0 < spec_signed(places) < 16 ==> r == number << (spec_signed(places) as u16),
            spec_signed(places) >= 16 ==> r == 0,
            spec_signed(places) <= -16 ==> r == (if number >= 0x8000 {
                0xFFFFu16
            } else {
                0u16
            }),
            -16 < spec_signed(places) < 0 ==> r == (if number >= 0x8000 {
                (number >> ((-spec_signed(places)) as u16)) | !(0xFFFFu16 >> ((-spec_signed(
                    places,
                )) as u16))
            } else {
                number >> ((-spec_signed(places)) as u16)
            }),
    {
        if places == 0 {
            number
        } else if places < 0x8000 {
            if places >= 16 {
                0
            } else {
                number << places
            }
        } else {
            let amount = mag16(places);
            let neg = number >= 0x8000;
            if amount >= 16 {
                if neg {
                    0xFFFF
                } else {
                    0
                }
            } else {
                let sh = amount as u16;
                if neg {
                    let fill: u16 = !(0xFFFFu16 >> sh);
                    (number >> sh) | fill
                } else {
                    number >> sh
                }
            }
        }
    }

    /// `check_arg_count`: 1 when the routine was called with at least
    /// `num` arguments.
    fn do_check_arg_count(&self, num: u16) -> (r: u16)
        requires
            self.wf(),
        ensures
            r == (if self.spec_top_frame().arg_count as u16 >= num {
                1u16
            } else {
                0u16
            }),
    {
        let n = self.frames.len();
        let count = self.frames[n - 1].arg_count as u16;
        if count >= num {
            1
        } else {
            0
        }
    }
}


impl<ZUI: UI> Zmachine<ZUI> {
    /// Serialise the current state as a Quetzal blob, against the boot
    /// snapshot, with `pc` as the recorded resume point.
    fn make_save_state(&self, pc: usize) -> (r: Result<Vec<u8>, ZmachineError>)
        requires
            self.wf(),
        ensures
            r is Ok ==> r->Ok_0@ == crate::quetzal::spec_save_bytes(
                pc as int,
                self.spec_memory().take(self.spec_static_start() as int),
                self.spec_original_dynamic(),
                self.spec_frames(),
                word_at(self.spec_memory(), 0x1C),
                word_at(self.spec_memory(), 0x02),
                self.spec_memory().subrange(0x12, 0x18),
            ),
    {
        if pc >= 0x1000000 {
            return Err(ZmachineError::SaveMismatch);
        }
        let nf = self.frames.len();
        let mut k: usize = 0;
        while k < nf
            invariant
                self.wf(),
                nf == self.spec_frames().len(),
                k <= nf,
                forall|j: int| 0 <= j < k ==> spec_frame_fits(#[trigger] self.spec_frames()[j]),
            decreases nf - k,
        {
            let f = &self.frames[k];
            if f.resume >= 0x1000000 || f.stack.len() > 0xFFFF {
                return Err(ZmachineError::SaveMismatch);
            }
            k = k + 1;
        }
        let dynamic = self.memory.slice(0, self.static_start)?;
        let chksum = self.mem_read_word(0x1C)?;
        let release = self.mem_read_word(0x02)?;
        let serial = self.memory.read(0x12, 6)?;
        proof {
            assert(dynamic@ =~= self.spec_memory().take(self.spec_static_start() as int));
        }
        QuetzalSave::make(
            pc,
            dynamic.as_slice(),
            self.original_dynamic.as_slice(),
            &self.frames,
            chksum,
            release,
            serial.as_slice(),
        )
    }

    /// The Quetzal round trip: for any reachable state, the blob
    /// `make_save_state(pc0)` produces reads back — through the canonical
    /// parse that `restore_state` and `load_savestate` are specified
    /// against — to exactly the recorded program counter, the current
    /// dynamic memory, and the current frames.
    pub proof fn lemma_save_state_round_trip(&self, pc0: int)
        requires
            self.wf(),
            0 <= pc0 < 0x1000000,
            forall|i: int|
                0 <= i < self.spec_frames().len() ==> spec_frame_fits(
                    #[trigger] self.spec_frames()[i],
                ),
            crate::quetzal::spec_rle(
                crate::quetzal::spec_xor(
                    self.spec_memory().take(self.spec_static_start() as int),
                    self.spec_original_dynamic(),
                ),
            ).len() < 0xFFFFFF,
            crate::quetzal::spec_frames_bytes(self.spec_frames()).len() < 0xFFFFFF,
        ensures
            crate::quetzal::spec_parse_save(
                crate::quetzal::spec_save_bytes(
                    pc0,
                    self.spec_memory().take(self.spec_static_start() as int),
                    self.spec_original_dynamic(),
                    self.spec_frames(),
                    word_at(self.spec_memory(), 0x1C),
                    word_at(self.spec_memory(), 0x02),
                    self.spec_memory().subrange(0x12, 0x18),
                ),
                self.spec_original_dynamic(),
            ) == Some(
                (
                    pc0,
                    self.spec_memory().take(self.spec_static_start() as int),
                    crate::quetzal::spec_frame_tuples(self.spec_frames()),
                    word_at(self.spec_memory(), 0x1C),
                    word_at(self.spec_memory(), 0x02),
                    self.spec_memory().subrange(0x12, 0x18),
                ),
            ),
    {
        crate::quetzal::lemma_save_round_trip(
            pc0,
            self.spec_memory().take(self.spec_static_start() as int),
            self.spec_original_dynamic(),
            self.spec_frames(),
            word_at(self.spec_memory(), 0x1C),
            word_at(self.spec_memory(), 0x02),
            self.spec_memory().subrange(0x12, 0x18),
        );
    }

    /// Replace program counter, frames and dynamic memory from a save,
    /// after checking it belongs to this story: the exact inverse of a
    /// state serialised against the same boot snapshot.
    fn restore_state(&mut self, data: &[u8]) -> (r: Result<(), ZmachineError>)
        requires
            old(self).wf(),
        ensures
            final(self).wf(),
            Self::same_layout(old(self), final(self)),
            Self::same_streams(old(self), final(self)),
            r is Err ==> final(self).spec_memory() == old(self).spec_memory() && final(self).spec_frames() == old(self).spec_frames() && final(self).pc == old(self).pc,
            match crate::quetzal::spec_parse_save(data@, old(self).spec_original_dynamic()) {
                None => r is Err,
                Some((pc2, mem2, ftuples, chk2, rel2, ser2)) => {
                    &&& (chk2 != word_at(old(self).spec_memory(), 0x1C) ==> r is Err)
                    &&& (ftuples.len() == 0 ==> r is Err)
                    &&& (chk2 == word_at(old(self).spec_memory(), 0x1C) && ftuples.len() >= 1
                        ==> {
                        &&& r is Ok
                        &&& final(self).spec_pc() == pc2
                        &&& final(self).spec_memory() == mem2 + old(self).spec_memory().skip(
                            old(self).spec_static_start() as int,
                        )
                        &&& crate::quetzal::spec_frame_tuples(final(self).spec_frames())
                            == ftuples
                    })
                },
            },
    {
        let save = match QuetzalSave::from_bytes(data, self.original_dynamic.as_slice()) {
            Ok(s) => s,
            Err(e) => {
                return Err(e);
            },
        };
        let chksum = self.mem_read_word(0x1C)?;
        if save.chksum != chksum {
            return Err(ZmachineError::SaveMismatch);
        }
        if save.frames.len() == 0 {
            return Err(ZmachineError::SaveMismatch);
        }
        if save.memory.len() != self.static_start {
            return Err(ZmachineError::SaveMismatch);
        }
        let res = self.memory.write(0, save.memory.as_slice());
        proof {
            assert(res is Ok);
        }
        self.pc = save.pc;
        self.frames = save.frames;
        proof {
            match crate::quetzal::spec_parse_save(data@, old(self).spec_original_dynamic()) {
                None => {},
                Some((pc2, mem2, ftuples, chk2, rel2, ser2)) => {
                    assert(self.spec_memory() =~= mem2 + old(self).spec_memory().skip(
                        old(self).spec_static_start() as int,
                    ));
                },
            }
        }
        Ok(())
    }

    /// The `restart` opcode: reset the display and output state, drop all
    /// frames for a fresh sentinel, restore dynamic memory from the boot
    /// snapshot, and re-apply the interpreter header bits.
    fn do_restart(&mut self) -> (r: Result<(), ZmachineError>)
        requires
            old(self).wf(),
        ensures
            final(self).wf(),
            Self::same_layout(old(self), final(self)),
            r is Ok ==> {
                &&& final(self).spec_frames().len() == 1
                &&& final(self).spec_top_frame().resume == 0
                &&& final(self).spec_top_frame().store is None
                &&& final(self).spec_top_frame().locals@ == Seq::<u16>::empty()
                &&& final(self).spec_top_frame().stack@ == Seq::<u16>::empty()
                &&& final(self).spec_pc() == old(self).spec_initial_pc()
                &&& forall|i: int|
                    0x40 <= i < old(self).spec_static_start() ==> final(self).spec_memory()[i]
                        == old(self).spec_original_dynamic()[i]
            },
    {
        self.ui.split_window(0);
        self.ui.erase_window(Window::Lower);
        self.ui.set_cursor(1, 1);
        self.current_style = TextStyle::new(0);
        self.disable_output = false;
        self.memory_output = Vec::new();
        self.pc = self.initial_pc;
        let mut frames: Vec<Frame> = Vec::new();
        frames.push(Frame::empty());
        self.frames = frames;
        let res = self.memory.write(0, self.original_dynamic.as_slice());
        proof {
            assert(res is Ok);
        }
        self.set_dynamic_headers()?;
        Ok(())
    }

    /// The undo ring, most recent save last.
    pub closed spec fn spec_undos(&self) -> Seq<Vec<u8>> {
        self.undos@
    }

    /// `save_undo`: push a save blob onto the bounded undo ring, evicting
    /// the oldest; stores -1 when undo is disabled.
    #[verifier::loop_isolation(false)]
    fn do_save_undo(&mut self, instr: &Instruction) -> (r: Result<u16, ZmachineError>)
        requires
            old(self).wf(),
        ensures
            final(self).wf(),
            Self::same_layout(old(self), final(self)),
            final(self).spec_memory() == old(self).spec_memory(),
            final(self).spec_frames() == old(self).spec_frames(),
            final(self).spec_pc() == old(self).spec_pc(),
            // Undo disabled: -1 comes back and the ring is untouched.
            old(self).options.undo_limit == 0 ==> r == Ok::<u16, ZmachineError>(0xFFFFu16)
                && final(self).spec_undos() == old(self).spec_undos(),
            // Otherwise the serialised state is appended, the oldest
            // entries leaving first so the ring keeps within its bound.
            old(self).options.undo_limit >= 1 && r is Ok ==> ({
                let blob = crate::quetzal::spec_save_bytes(
                    instr.next - 1,
                    old(self).spec_memory().take(old(self).spec_static_start() as int),
                    old(self).spec_original_dynamic(),
                    old(self).spec_frames(),
                    word_at(old(self).spec_memory(), 0x1C),
                    word_at(old(self).spec_memory(), 0x02),
                    old(self).spec_memory().subrange(0x12, 0x18),
                );
                let evicted: int = if old(self).spec_undos().len() >= old(
                    self,
                ).options.undo_limit {
                    old(self).spec_undos().len() - old(self).options.undo_limit + 1
                } else {
                    0
                };
                &&& r->Ok_0 == 1
                &&& instr.next >= 1
                &&& (old(self).spec_undos().len() <= 0xFFFF ==> {
                    &&& final(self).spec_undos().len() >= 1
                    &&& final(self).spec_undos().last()@ == blob
                    &&& final(self).spec_undos().drop_last() == old(self).spec_undos().skip(
                        evicted,
                    )
                })
            }),
    {
        if self.options.undo_limit == 0 {
            return Ok(0xFFFF);
        }
        if instr.next == 0 {
            return Err(ZmachineError::BadAddress);
        }
        let state = self.make_save_state(instr.next - 1)?;
        let limit = self.options.undo_limit;
        let mut guard: usize = 0;
        while self.undos.len() >= limit && guard < 0x10000
            invariant
                self.wf(),
                Self::same_layout(old(self), self),
                self.spec_memory() == old(self).spec_memory(),
                self.spec_frames() == old(self).spec_frames(),
                self.spec_pc() == old(self).spec_pc(),
                limit >= 1,
                guard <= old(self).spec_undos().len(),
                guard > 0 ==> old(self).undos@.len() - guard >= limit - 1,
                self.undos@ == old(self).undos@.skip(guard as int),
            decreases 0x10000 - guard,
        {
            let _ = self.undos.pop_front();
            proof {
                assert(self.undos@ =~= old(self).undos@.skip(guard + 1));
            }
            guard = guard + 1;
        }
        self.undos.push_back(state);
        proof {
            assert(final(self).spec_undos().drop_last() =~= old(self).spec_undos().skip(
                guard as int,
            ));
        }
        Ok(1)
    }

    /// `restore_undo`: pop the most recent undo blob and restore it;
    /// stores -1 when undo is disabled and 0 when nothing is saved.
    fn do_restore_undo(&mut self) -> (r: Result<(), ZmachineError>)
        requires
            old(self).wf(),
        ensures
            final(self).wf(),
            Self::same_layout(old(self), final(self)),
            // Undo disabled: the ring is untouched and the instruction
            // completes with -1.
            old(self).options.undo_limit == 0 ==> final(self).spec_undos()
                == old(self).spec_undos() && (old(self).spec_pc() < old(self).spec_memory().len() && r is Ok
                ==> Self::spec_var_store_effect(
                old(self),
                final(self),
                old(self).spec_memory()[old(self).spec_pc() as int],
                0xFFFF,
            ) && final(self).spec_pc() == old(self).spec_pc() + 1),
            // Nothing saved: the instruction completes with 0.
            old(self).options.undo_limit >= 1 && old(self).spec_undos().len() == 0
                ==> final(self).spec_undos() == old(self).spec_undos() && (old(self).spec_pc()
                < old(self).spec_memory().len() && r is Ok ==> Self::spec_var_store_effect(
                old(self),
                final(self),
                old(self).spec_memory()[old(self).spec_pc() as int],
                0,
            ) && final(self).spec_pc() == old(self).spec_pc() + 1),
            // Otherwise the most recent blob is popped and restored.
            old(self).options.undo_limit >= 1 && old(self).spec_undos().len() >= 1
                ==> final(self).spec_undos() == old(self).spec_undos().drop_last(),
    {
        if self.options.undo_limit == 0 {
            let b = self.mem_read_byte(self.pc)?;
            self.write_variable(b, 0xFFFF)?;
            if self.pc >= usize::MAX {
                return Err(ZmachineError::BadAddress);
            }
            self.pc = self.pc + 1;
            return Ok(());
        }
        match self.undos.pop_back() {
            Some(blob) => {
                self.restore_state(blob.as_slice())?;
                self.process_restore_result()
            },
            None => {
                let b = self.mem_read_byte(self.pc)?;
                self.write_variable(b, 0)?;
                if self.pc >= usize::MAX {
                    return Err(ZmachineError::BadAddress);
                }
                self.pc = self.pc + 1;
                Ok(())
            },
        }
    }

    /// After a successful restore, the save/restore instruction finishes
    /// with the value 2 ("just restored"): a branch to v4, a store from
    /// v5 (whose store byte sits at the restored program counter).
    fn process_restore_result(&mut self) -> (r: Result<(), ZmachineError>)
        requires
            old(self).wf(),
        ensures
            final(self).wf(),
            Self::same_layout(old(self), final(self)),
            final(self).spec_undos() == old(self).spec_undos(),
            old(self).spec_version() >= 5 && old(self).spec_pc() < old(
                self,
            ).spec_memory().len() && r is Ok ==> Self::spec_var_store_effect(
                old(self),
                final(self),
                old(self).spec_memory()[old(self).spec_pc() as int],
                2,
            ) && final(self).spec_pc() == old(self).spec_pc() + 1,
            old(self).spec_version() >= 5 && old(self).spec_pc() < old(
                self,
            ).spec_memory().len() && (old(self).spec_memory()[old(self).spec_pc() as int] == 0
                || old(self).spec_memory()[old(self).spec_pc() as int] >= 16) ==> r is Ok,
    {
        if self.version <= 4 {
            if self.pc == 0 {
                return Err(ZmachineError::BadAddress);
            }
            let instr = self.decode_instruction(self.pc - 1)?;
            self.process_result(&instr, 2)
        } else {
            let b = self.mem_read_byte(self.pc)?;
            self.write_variable(b, 2)?;
            if self.pc >= usize::MAX {
                return Err(ZmachineError::BadAddress);
            }
            self.pc = self.pc + 1;
            Ok(())
        }
    }

    /// The status line: the current room's name on the left; on the right
    /// either score/turns or a 12-hour clock, as flags1 bit 1 selects.
    pub fn get_status(&self) -> (r: Result<(Vec<char>, Vec<char>), ZmachineError>)
        requires
            self.wf(),
    {
        let room = self.read_global(0)?;
        let left = if room >= 1 {
            self.get_object_name(room)?
        } else {
            Vec::new()
        };
        let flags1 = self.mem_read_byte(0x01)?;
        let mut right: Vec<char> = Vec::new();
        if flags1 & 0x02 == 0 {
            let score = self.read_global(1)?;
            let turns = self.read_global(2)?;
            let sc = i16_to_chars(score as i16);
            let mut k: usize = 0;
            let n = sc.len();
            while k < n
                invariant
                    k <= n,
                    n == sc@.len(),
                decreases n - k,
            {
                right.push(sc[k]);
                k = k + 1;
            }
            right.push('/');
            let tu = u16_to_chars(turns);
            let mut k: usize = 0;
            let n = tu.len();
            while k < n
                invariant
                    k <= n,
                    n == tu@.len(),
                decreases n - k,
            {
                right.push(tu[k]);
                k = k + 1;
            }
        } else {
            let mut hours = self.read_global(1)?;
            let minutes = self.read_global(2)?;
            let pm = hours >= 12;
            if hours > 12 {
                hours = hours - 12;
            }
            if hours < 10 {
                right.push('0');
            }
            let hc = u16_to_chars(hours);
            let mut k: usize = 0;
            let n = hc.len();
            while k < n
                invariant
                    k <= n,
                    n == hc@.len(),
                decreases n - k,
            {
                right.push(hc[k]);
                k = k + 1;
            }
            right.push(':');
            if minutes < 10 {
                right.push('0');
            }
            let mc = u16_to_chars(minutes);
            let mut k: usize = 0;
            let n = mc.len();
            while k < n
                invariant
                    k <= n,
                    n == mc@.len(),
                decreases n - k,
            {
                right.push(mc[k]);
                k = k + 1;
            }
            right.push(' ');
            if pm {
                right.push('P');
            } else {
                right.push('A');
            }
            right.push('M');
        }
        Ok((left, right))
    }

    /// Push the v1-3 status line to the display sink; later versions draw
    /// their own.
    pub fn update_status_bar(&mut self) -> (r: Result<(), ZmachineError>)
        requires
            old(self).wf(),
        ensures
            final(self).wf(),
            Self::same_layout(old(self), final(self)),
            final(self).spec_memory() == old(self).spec_memory(),
            final(self).spec_frames() == old(self).spec_frames(),
            final(self).spec_pc() == old(self).spec_pc(),
    {
        if self.version > 3 {
            return Ok(());
        }
        let (left, right) = self.get_status()?;
        let l = chars_to_string(left.as_slice());
        let p = chars_to_string(right.as_slice());
        self.ui.set_status_bar(l.as_str(), p.as_str());
        Ok(())
    }
}


impl<ZUI: UI> Zmachine<ZUI> {
    /// Execute one decoded instruction: resolve its operands (popping the
    /// stack in source order), apply the opcode's semantics, then store,
    /// branch or fall through as the instruction prescribes.
    #[verifier::rlimit(100)]
    #[verifier::spinoff_prover]
    pub fn handle_instruction(&mut self, instr: &Instruction) -> (r: Result<(), ZmachineError>)
        requires
            old(self).wf(),
        ensures
            final(self).wf(),
            Self::same_layout(old(self), final(self)),
            // Every runtime write lands in dynamic memory: static and high
            // memory stay bitwise identical to the booted story image, on
            // success and on failure alike (`lemma_static_memory_preserved`
            // turns this pair of clauses into the pointwise statement).
            final(self).spec_static_start() == old(self).spec_static_start(),
            final(self).spec_memory().len() == old(self).spec_memory().len(),
            // A comparison opcode whose branch descriptor names a target
            // always executes: its operands resolve, the test is total,
            // and moving the program counter cannot fail.
            (old(self).spec_args_ok(instr.operands@) && instr.store is None && instr.branch
                is Some && instr.branch->Some_0.returns is None
                && instr.branch->Some_0.address is Some && old(self).spec_branch_test(
                instr.opcode,
                instr.operands@,
            ) is Some) ==> r is Ok,
            ({
                // A pure two-operand opcode that stores and does not
                // branch writes exactly its result and falls through.
                let ops = instr.operands@;
                (r is Ok && old(self).spec_args_ok(ops) && ops.len() == 2 && instr.branch
                    is None && instr.store is Some) ==> match Self::spec_pure2_value(
                    instr.opcode,
                    old(self).spec_arg_value(ops, 0),
                    old(self).spec_arg_value(ops, 1),
                ) {
                    None => true,
                    Some(v) => Self::spec_stored_after_args(
                        old(self),
                        final(self),
                        ops,
                        instr.store->Some_0,
                        v,
                    ) && final(self).spec_pc() == instr.next,
                }
            }),
            ({
                // A plain comparison that branches to a target moves the
                // program counter to the target exactly when the
                // comparison agrees with the branch polarity.
                let ops = instr.operands@;
                (r is Ok && old(self).spec_args_ok(ops) && instr.store is None && instr.branch
                    is Some && instr.branch->Some_0.returns is None
                    && instr.branch->Some_0.address is Some) ==> match old(
                    self,
                ).spec_branch_test(instr.opcode, ops) {
                    None => true,
                    Some(t) => {
                        let b = instr.branch->Some_0;
                        let taken = (if t {
                            1u16
                        } else {
                            0u16
                        }) == b.condition as u16;
                        &&& final(self).spec_pc() == (if taken {
                            b.address->Some_0
                        } else {
                            instr.next
                        })
                        &&& final(self).spec_memory() == old(self).spec_memory()
                        &&& final(self).spec_frames().len() == old(self).spec_frames().len()
                        &&& final(self).spec_top_frame().stack@ == old(
                            self,
                        ).spec_top_frame().stack@.take(
                            old(self).spec_top_frame().stack@.len() - spec_var0_before(
                                ops,
                                ops.len() as int,
                            ),
                        )
                        &&& final(self).spec_top_frame().locals == old(
                            self,
                        ).spec_top_frame().locals
                    },
                }
            }),
    {
        let args = self.get_arguments(&instr.operands)?;
        let argc = args.len();
        // Opcodes that produce a value to store or branch on.
        let result: Option<u16> = match instr.opcode {
            Opcode::OP2_1 => {
                if argc < 1 {
                    return Err(ZmachineError::UnknownOpcode);
                }
                Some(self.do_je(args[0], &args))
            },
            Opcode::OP2_2 => {
                if argc != 2 {
                    return Err(ZmachineError::UnknownOpcode);
                }
                Some(if lt16(args[0], args[1]) {
                    1
                } else {
                    0
                })
            },
            Opcode::OP2_3 => {
                if argc != 2 {
                    return Err(ZmachineError::UnknownOpcode);
                }
                Some(if lt16(args[1], args[0]) {
                    1
                } else {
                    0
                })
            },
            Opcode::OP2_4 => {
                if argc != 2 {
                    return Err(ZmachineError::UnknownOpcode);
                }
                Some(self.do_dec_chk(args[0], args[1])?)
            },
            Opcode::OP2_5 => {
                if argc != 2 {
                    return Err(ZmachineError::UnknownOpcode);
                }
                Some(self.do_inc_chk(args[0], args[1])?)
            },
            Opcode::OP2_6 => {
                if argc != 2 {
                    return Err(ZmachineError::UnknownOpcode);
                }
                let p = self.get_parent(args[0])?;
                Some(if p == args[1] {
                    1
                } else {
                    0
                })
            },
            Opcode::OP2_7 => {
                if argc != 2 {
                    return Err(ZmachineError::UnknownOpcode);
                }
                Some(if args[0] & args[1] == args[1] {
                    1
                } else {
                    0
                })
            },
            Opcode::OP2_8 => {
                if argc != 2 {
                    return Err(ZmachineError::UnknownOpcode);
                }
                Some(args[0] | args[1])
            },
            Opcode::OP2_9 => {
                if argc != 2 {
                    return Err(ZmachineError::UnknownOpcode);
                }
                Some(args[0] & args[1])
            },
            Opcode::OP2_10 => {
                if argc != 2 {
                    return Err(ZmachineError::UnknownOpcode);
                }
                Some(self.test_attr(args[0], args[1])?)
            },
            Opcode::OP2_15 => {
                if argc != 2 {
                    return Err(ZmachineError::UnknownOpcode);
                }
                let addr = (args[0] as u32 + 2 * (args[1] as u32)) % 0x10000;
                Some(self.mem_read_word(addr as usize)?)
            },
            Opcode::OP2_16 => {
                if argc != 2 {
                    return Err(ZmachineError::UnknownOpcode);
                }
                let addr = (args[0] as u32 + args[1] as u32) % 0x10000;
                let b = self.mem_read_byte(addr as usize)?;
                Some(b as u16)
            },
            Opcode::OP2_17 => {
                if argc != 2 {
                    return Err(ZmachineError::UnknownOpcode);
                }
                if args[0] == 0 {
                    // Object 0 is the null object: a well-defined no-op
                    // returning 0.
                    Some(0)
                } else {
                    Some(self.get_prop_value(args[0], args[1])?)
                }
            },
            Opcode::OP2_18 => {
                if argc != 2 {
                    return Err(ZmachineError::UnknownOpcode);
                }
                if args[0] == 0 {
                    Some(0)
                } else {
                    Some(self.get_prop_addr(args[0], args[1])?)
                }
            },
            Opcode::OP2_19 => {
                if argc != 2 {
                    return Err(ZmachineError::UnknownOpcode);
                }
                if args[0] == 0 {
                    Some(0)
                } else {
                    Some(self.get_next_prop(args[0], args[1])?)
                }
            },
            Opcode::OP2_20 => {
                if argc != 2 {
                    return Err(ZmachineError::UnknownOpcode);
                }
                Some(op_add(args[0], args[1]))
            },
            Opcode::OP2_21 => {
                if argc != 2 {
                    return Err(ZmachineError::UnknownOpcode);
                }
                Some(op_sub(args[0], args[1]))
            },
            Opcode::OP2_22 => {
                if argc != 2 {
                    return Err(ZmachineError::UnknownOpcode);
                }
                Some(op_mul(args[0], args[1]))
            },
            Opcode::OP2_23 => {
                if argc != 2 {
                    return Err(ZmachineError::UnknownOpcode);
                }
                Some(op_div(args[0], args[1])?)
            },
            Opcode::OP2_24 => {
                if argc != 2 {
                    return Err(ZmachineError::UnknownOpcode);
                }
                Some(op_mod(args[0], args[1])?)
            },
            Opcode::OP1_128 => {
                if argc != 1 {
                    return Err(ZmachineError::UnknownOpcode);
                }
                Some(if args[0] == 0 {
                    1
                } else {
                    0
                })
            },
            Opcode::OP1_129 => {
                if argc != 1 {
                    return Err(ZmachineError::UnknownOpcode);
                }
                Some(self.get_sibling(args[0])?)
            },
            Opcode::OP1_130 => {
                if argc != 1 {
                    return Err(ZmachineError::UnknownOpcode);
                }
                Some(self.get_child(args[0])?)
            },
            Opcode::OP1_131 => {
                if argc != 1 {
                    return Err(ZmachineError::UnknownOpcode);
                }
                Some(self.get_parent(args[0])?)
            },
            Opcode::OP1_132 => {
                if argc != 1 {
                    return Err(ZmachineError::UnknownOpcode);
                }
                let l = self.get_prop_len(args[0] as usize)?;
                Some(l as u16)
            },
            Opcode::OP1_142 => {
                if argc != 1 {
                    return Err(ZmachineError::UnknownOpcode);
                }
                Some(self.do_load_indirect(args[0])?)
            },
            Opcode::OP1_143 => {
                if self.version <= 4 {
                    if argc != 1 {
                        return Err(ZmachineError::UnknownOpcode);
                    }
                    Some(!args[0])
                } else {
                    None
                }
            },
            Opcode::OP0_185 => {
                if self.version >= 5 {
                    let n = self.frames.len();
                    Some(if n > 0xFFFF {
                        0xFFFF
                    } else {
                        n as u16
                    })
                } else {
                    None
                }
            },
            Opcode::OP0_189 => Some(1),
            Opcode::OP0_191 => Some(1),
            Opcode::VAR_231 => {
                if argc != 1 {
                    return Err(ZmachineError::UnknownOpcode);
                }
                Some(self.do_random(args[0]))
            },
            Opcode::VAR_233 => {
                if self.version == 6 {
                    if argc != 1 {
                        return Err(ZmachineError::UnknownOpcode);
                    }
                    Some(self.do_pull(args[0])?)
                } else {
                    None
                }
            },
            Opcode::VAR_247 => {
                if argc < 3 {
                    return Err(ZmachineError::UnknownOpcode);
                }
                let form = if argc >= 4 {
                    Some(args[3])
                } else {
                    None
                };
                Some(self.do_scan_table(args[0], args[1], args[2], form)?)
            },
            Opcode::VAR_248 => {
                if argc != 1 {
                    return Err(ZmachineError::UnknownOpcode);
                }
                Some(!args[0])
            },
            Opcode::VAR_255 => {
                if argc != 1 {
                    return Err(ZmachineError::UnknownOpcode);
                }
                Some(self.do_check_arg_count(args[0]))
            },
            Opcode::EXT_1002 => {
                if argc != 2 {
                    return Err(ZmachineError::UnknownOpcode);
                }
                Some(self.do_log_shift(args[0], args[1]))
            },
            Opcode::EXT_1003 => {
                if argc != 2 {
                    return Err(ZmachineError::UnknownOpcode);
                }
                Some(self.do_art_shift(args[0], args[1]))
            },
            Opcode::EXT_1004 => {
                if argc != 1 {
                    return Err(ZmachineError::UnknownOpcode);
                }
                // Only font 1 exists here: 0 and 1 report it, the rest are
                // unavailable.
                Some(
                    match args[0] {
                        0 => 1,
                        1 => 1,
                        _ => 0,
                    },
                )
            },
            Opcode::EXT_1009 => Some(self.do_save_undo(instr)?),
            _ => None,
        };
        if let Some(value) = result {
            let ghost mid = *self;
            let res = self.process_result(instr, value);
            proof {
                let ops = instr.operands@;
                if res is Ok && old(self).spec_args_ok(ops) {
                    if ops.len() == 2 && instr.branch is None && instr.store is Some {
                        match Self::spec_pure2_value(
                            instr.opcode,
                            old(self).spec_arg_value(ops, 0),
                            old(self).spec_arg_value(ops, 1),
                        ) {
                            None => {},
                            Some(v) => {
                                assert(value == v);
                                assert(Self::spec_var_store_effect(
                                    &mid,
                                    self,
                                    instr.store->Some_0,
                                    v,
                                ));
                                assert(Self::spec_stored_after_args(
                                    old(self),
                                    self,
                                    ops,
                                    instr.store->Some_0,
                                    v,
                                ));
                            },
                        }
                    }
                    if instr.store is None && instr.branch is Some
                        && instr.branch->Some_0.returns is None
                        && instr.branch->Some_0.address is Some {
                        match old(self).spec_branch_test(instr.opcode, ops) {
                            None => {},
                            Some(t) => {
                                if instr.opcode == Opcode::OP2_1 {
                                    if t {
                                        let w = choose|i: int|
                                            1 <= i < ops.len() && #[trigger] old(
                                                self,
                                            ).spec_arg_value(ops, i) == old(self).spec_arg_value(
                                                ops,
                                                0,
                                            );
                                        assert(1 <= w < args@.len() && args@[w] == args@[0]);
                                    } else {
                                        assert forall|i: int|
                                            1 <= i < args@.len() implies #[trigger] args@[i]
                                            != args@[0] by {
                                            assert(args@[i] == old(self).spec_arg_value(ops, i));
                                            assert(args@[0] == old(self).spec_arg_value(ops, 0));
                                        }
                                    }
                                }
                                assert(value == (if t {
                                    1u16
                                } else {
                                    0u16
                                }));
                            },
                        }
                    }
                }
            }
            return res;
        }
        // Opcodes with only a side effect.
        match instr.opcode {
            Opcode::OP2_11 => {
                if argc != 2 {
                    return Err(ZmachineError::UnknownOpcode);
                }
                self.set_attr(args[0], args[1])?;
            },
            Opcode::OP2_12 => {
                if argc != 2 {
                    return Err(ZmachineError::UnknownOpcode);
                }
                self.clear_attr(args[0], args[1])?;
            },
            Opcode::OP2_13 => {
                if argc != 2 {
                    return Err(ZmachineError::UnknownOpcode);
                }
                if args[0] > 255 {
                    return Err(ZmachineError::BadAddress);
                }
                self.write_indirect_variable(args[0] as u8, args[1])?;
            },
            Opcode::OP2_14 => {
                if argc != 2 {
                    return Err(ZmachineError::UnknownOpcode);
                }
                self.insert_obj(args[0], args[1])?;
            },
            Opcode::OP2_25 | Opcode::OP2_26 => {
                if argc != 2 {
                    return Err(ZmachineError::UnknownOpcode);
                }
                let tail = tail_of(&args, 1);
                self.do_call(instr, args[0], tail.as_slice())?;
                return Ok(());
            },
            Opcode::OP2_27 => {},
            Opcode::OP2_28 => {
                if argc != 2 {
                    return Err(ZmachineError::UnknownOpcode);
                }
                self.do_throw(args[0], args[1])?;
                return Ok(());
            },
            Opcode::OP1_133 => {
                if argc != 1 {
                    return Err(ZmachineError::UnknownOpcode);
                }
                self.do_inc(args[0])?;
            },
            Opcode::OP1_134 => {
                if argc != 1 {
                    return Err(ZmachineError::UnknownOpcode);
                }
                self.do_dec(args[0])?;
            },
            Opcode::OP1_135 => {
                if argc != 1 {
                    return Err(ZmachineError::UnknownOpcode);
                }
                let (text, _) = self.read_zstring(args[0] as usize)?;
                self.print_text(&text)?;
            },
            Opcode::OP1_136 => {
                if argc != 1 {
                    return Err(ZmachineError::UnknownOpcode);
                }
                let empty: Vec<u16> = Vec::new();
                self.do_call(instr, args[0], empty.as_slice())?;
                return Ok(());
            },
            Opcode::OP1_137 => {
                if argc != 1 {
                    return Err(ZmachineError::UnknownOpcode);
                }
                self.remove_obj(args[0])?;
            },
            Opcode::OP1_138 => {
                if argc != 1 {
                    return Err(ZmachineError::UnknownOpcode);
                }
                let name = self.get_object_name(args[0])?;
                self.print_text(&name)?;
            },
            Opcode::OP1_139 => {
                if argc != 1 {
                    return Err(ZmachineError::UnknownOpcode);
                }
                self.return_from_routine(args[0])?;
                return Ok(());
            },
            Opcode::OP1_140 => {
                if argc != 1 {
                    return Err(ZmachineError::UnknownOpcode);
                }
                self.do_jump(args[0], instr)?;
                return Ok(());
            },
            Opcode::OP1_141 => {
                if argc != 1 {
                    return Err(ZmachineError::UnknownOpcode);
                }
                let paddr = self.unpack_print_paddr(args[0])?;
                let (text, _) = self.read_zstring(paddr)?;
                self.print_text(&text)?;
            },
            Opcode::OP1_143 => {
                // From v5, opcode 143 is call_1n.
                if argc != 1 {
                    return Err(ZmachineError::UnknownOpcode);
                }
                let empty: Vec<u16> = Vec::new();
                self.do_call(instr, args[0], empty.as_slice())?;
                return Ok(());
            },
            Opcode::OP0_176 => {
                self.return_from_routine(1)?;
                return Ok(());
            },
            Opcode::OP0_177 => {
                self.return_from_routine(0)?;
                return Ok(());
            },
            Opcode::OP0_178 => {
                match &instr.text {
                    Some(text) => {
                        let t = text.clone();
                        self.print_text(&t)?;
                    },
                    None => {
                        return Err(ZmachineError::UnknownOpcode);
                    },
                }
            },
            Opcode::OP0_179 => {
                match &instr.text {
                    Some(text) => {
                        let t = text.clone();
                        self.print_text(&t)?;
                        let mut nl: Vec<char> = Vec::new();
                        nl.push('\n');
                        self.print_text(&nl)?;
                        self.return_from_routine(1)?;
                        return Ok(());
                    },
                    None => {
                        return Err(ZmachineError::UnknownOpcode);
                    },
                }
            },
            Opcode::OP0_180 => {},
            Opcode::OP0_183 => {
                self.do_restart()?;
                return Ok(());
            },
            Opcode::OP0_184 => {
                let value = self.stack_pop()?;
                self.return_from_routine(value)?;
                return Ok(());
            },
            Opcode::OP0_185 => {
                // Below v5 this is `pop`.
                let _ = self.stack_pop()?;
            },
            Opcode::OP0_187 => {
                let mut nl: Vec<char> = Vec::new();
                nl.push('\n');
                self.print_text(&nl)?;
            },
            Opcode::OP0_188 => {
                self.update_status_bar()?;
            },
            Opcode::VAR_224 | Opcode::VAR_236 | Opcode::VAR_249 | Opcode::VAR_250 => {
                if argc < 1 {
                    return Err(ZmachineError::UnknownOpcode);
                }
                if argc > 8 {
                    return Err(ZmachineError::UnknownOpcode);
                }
                let tail = tail_of(&args, 1);
                self.do_call(instr, args[0], tail.as_slice())?;
                return Ok(());
            },
            Opcode::VAR_225 => {
                if argc != 3 {
                    return Err(ZmachineError::UnknownOpcode);
                }
                let addr = (args[0] as u32 + 2 * (args[1] as u32)) % 0x10000;
                self.mem_write_word(addr as usize, args[2])?;
            },
            Opcode::VAR_226 => {
                if argc != 3 {
                    return Err(ZmachineError::UnknownOpcode);
                }
                let addr = (args[0] as u32 + args[1] as u32) % 0x10000;
                self.mem_write_byte(addr as usize, args[2] as u8)?;
            },
            Opcode::VAR_227 => {
                if argc != 3 {
                    return Err(ZmachineError::UnknownOpcode);
                }
                if args[0] != 0 {
                    // Writing a property of the null object is a no-op.
                    self.put_prop(args[0], args[1], args[2])?;
                }
            },
            Opcode::VAR_229 => {
                if argc != 1 {
                    return Err(ZmachineError::UnknownOpcode);
                }
                self.do_print_char(args[0])?;
            },
            Opcode::VAR_230 => {
                if argc != 1 {
                    return Err(ZmachineError::UnknownOpcode);
                }
                let text = i16_to_chars(args[0] as i16);
                self.print_text(&text)?;
            },
            Opcode::VAR_232 => {
                if argc != 1 {
                    return Err(ZmachineError::UnknownOpcode);
                }
                self.stack_push(args[0]);
            },
            Opcode::VAR_233 => {
                if argc != 1 {
                    return Err(ZmachineError::UnknownOpcode);
                }
                let _ = self.do_pull(args[0])?;
            },
            Opcode::VAR_234 => {
                if argc != 1 {
                    return Err(ZmachineError::UnknownOpcode);
                }
                self.ui.split_window(args[0]);
            },
            Opcode::VAR_235 => {
                if argc != 1 {
                    return Err(ZmachineError::UnknownOpcode);
                }
                let w = match args[0] {
                    0 => Window::Lower,
                    1 => Window::Upper,
                    _ => {
                        return Err(ZmachineError::UnknownOpcode);
                    },
                };
                self.ui.set_window(w);
            },
            Opcode::VAR_237 => {
                if argc != 1 {
                    return Err(ZmachineError::UnknownOpcode);
                }
                self.do_erase_window(args[0])?;
            },
            Opcode::VAR_239 => {
                if argc == 1 {
                    self.ui.set_cursor(args[0], 1);
                } else if argc == 2 {
                    self.ui.set_cursor(args[0], args[1]);
                } else {
                    return Err(ZmachineError::UnknownOpcode);
                }
            },
            Opcode::VAR_241 => {
                if argc != 1 {
                    return Err(ZmachineError::UnknownOpcode);
                }
                self.current_style = TextStyle::new(args[0]);
            },
            Opcode::VAR_242 => {},
            Opcode::VAR_243 => {
                if argc < 1 {
                    return Err(ZmachineError::UnknownOpcode);
                }
                let rest = tail_of(&args, 1);
                self.do_output_stream(args[0], &rest)?;
            },
            Opcode::VAR_244 => {
                // Input-stream redirection is accepted and ignored.
            },
            Opcode::VAR_245 => {
                // Sound effects are accepted and ignored.
            },
            Opcode::VAR_251 => {
                if argc != 2 {
                    return Err(ZmachineError::UnknownOpcode);
                }
                self.do_tokenise_op(args[0], args[1])?;
            },
            Opcode::VAR_253 => {
                if argc != 3 {
                    return Err(ZmachineError::UnknownOpcode);
                }
                self.do_copy_table(args[0], args[1], args[2])?;
            },
            Opcode::VAR_254 => {
                if argc < 2 {
                    return Err(ZmachineError::UnknownOpcode);
                }
                let h = if argc >= 3 {
                    Some(args[2])
                } else {
                    None
                };
                let sk = if argc >= 4 {
                    Some(args[3])
                } else {
                    None
                };
                self.do_print_table(args[0], args[1], h, sk)?;
            },
            Opcode::EXT_1010 => {
                self.do_restore_undo()?;
                return Ok(());
            },
            Opcode::EXT_1011 => {
                if argc != 1 {
                    return Err(ZmachineError::UnknownOpcode);
                }
                match char::from_u32(args[0] as u32) {
                    Some(c) => {
                        let mut t: Vec<char> = Vec::new();
                        t.push(c);
                        self.print_text(&t)?;
                    },
                    None => {},
                }
            },
            _ => {
                return Err(ZmachineError::UnknownOpcode);
            },
        }
        // Fall through to the next instruction unless the opcode manages
        // the program counter itself.
        if instr.advances() && instr.should_advance(self.version) {
            self.pc = instr.next;
        }
        Ok(())
    }

    /// `dec_chk`: decrement a variable in place, branching when it drops
    /// below the comparison value.
    fn do_dec_chk(&mut self, var: u16, value: u16) -> (r: Result<u16, ZmachineError>)
        requires
            old(self).wf(),
        ensures
            final(self).wf(),
            Self::same_layout(old(self), final(self)),
    {
        if var > 255 {
            return Err(ZmachineError::BadAddress);
        }
        let before = self.read_indirect_variable(var as u8)?;
        let after = op_sub(before, 1);
        self.write_indirect_variable(var as u8, after)?;
        Ok(
            if lt16(after, value) {
                1
            } else {
                0
            },
        )
    }

    /// `inc_chk`: increment a variable in place, branching when it rises
    /// above the comparison value.
    fn do_inc_chk(&mut self, var: u16, value: u16) -> (r: Result<u16, ZmachineError>)
        requires
            old(self).wf(),
        ensures
            final(self).wf(),
            Self::same_layout(old(self), final(self)),
    {
        if var > 255 {
            return Err(ZmachineError::BadAddress);
        }
        let before = self.read_indirect_variable(var as u8)?;
        let after = op_add(before, 1);
        self.write_indirect_variable(var as u8, after)?;
        Ok(
            if lt16(value, after) {
                1
            } else {
                0
            },
        )
    }

    /// `inc` / `dec` without the branch.
    fn do_inc(&mut self, var: u16) -> (r: Result<(), ZmachineError>)
        requires
            old(self).wf(),
        ensures
            final(self).wf(),
            Self::same_layout(old(self), final(self)),
    {
        if var > 255 {
            return Err(ZmachineError::BadAddress);
        }
        let v = self.read_indirect_variable(var as u8)?;
        self.write_indirect_variable(var as u8, op_add(v, 1))?;
        Ok(())
    }

    fn do_dec(&mut self, var: u16) -> (r: Result<(), ZmachineError>)
        requires
            old(self).wf(),
        ensures
            final(self).wf(),
            Self::same_layout(old(self), final(self)),
    {
        if var > 255 {
            return Err(ZmachineError::BadAddress);
        }
        let v = self.read_indirect_variable(var as u8)?;
        self.write_indirect_variable(var as u8, op_sub(v, 1))?;
        Ok(())
    }

    /// `load`: read a variable without popping.
    fn do_load_indirect(&mut self, var: u16) -> (r: Result<u16, ZmachineError>)
        requires
            old(self).wf(),
        ensures
            final(self).wf(),
            Self::same_layout(old(self), final(self)),
    {
        if var > 255 {
            return Err(ZmachineError::BadAddress);
        }
        self.read_indirect_variable(var as u8)
    }

    /// `pull`: pop the stack into a variable (in place for variable 0).
    fn do_pull(&mut self, var: u16) -> (r: Result<u16, ZmachineError>)
        requires
            old(self).wf(),
        ensures
            final(self).wf(),
            Self::same_layout(old(self), final(self)),
    {
        if var > 255 {
            return Err(ZmachineError::BadAddress);
        }
        let value = self.stack_pop()?;
        self.write_indirect_variable(var as u8, value)?;
        Ok(value)
    }

    /// `throw`: unwind the frame stack to the caught depth, then return.
    fn do_throw(&mut self, value: u16, frame_count: u16) -> (r: Result<(), ZmachineError>)
        requires
            old(self).wf(),
        ensures
            final(self).wf(),
            Self::same_layout(old(self), final(self)),
    {
        if frame_count == 0 || (frame_count as usize) > self.frames.len() {
            return Err(ZmachineError::StackUnderflow);
        }
        self.frames.truncate(frame_count as usize);
        proof {
            assert(self.frames@ == old(self).frames@.take(frame_count as int));
        }
        self.return_from_routine(value)
    }

    /// `jump`: an unconditional signed relative jump.
    fn do_jump(&mut self, offset: u16, instr: &Instruction) -> (r: Result<(), ZmachineError>)
        requires
            old(self).wf(),
        ensures
            final(self).wf(),
            Self::same_layout(old(self), final(self)),
            r is Ok ==> final(self).spec_pc() == instr.next + spec_signed(offset) - 2,
    {
        if instr.next > 0x7FFFFF {
            return Err(ZmachineError::BadAddress);
        }
        let s = spec_signed_exec(offset);
        let target: i64 = instr.next as i64 + s as i64 - 2;
        if target < 0 || target > 0x7FFFFF {
            return Err(ZmachineError::BadAddress);
        }
        self.pc = target as usize;
        Ok(())
    }

    /// `print_char`: one ZSCII code to the current stream.
    fn do_print_char(&mut self, chr: u16) -> (r: Result<(), ZmachineError>)
        requires
            old(self).wf(),
        ensures
            final(self).wf(),
            Self::same_layout(old(self), final(self)),
    {
        let table = self.unicode_table();
        let c = ZChar((chr % 256) as u8).to_char(table);
        let mut t: Vec<char> = Vec::new();
        t.push(c);
        self.print_text(&t)
    }

    /// `erase_window`, including the -1 and -2 whole-screen forms.
    fn do_erase_window(&mut self, window: u16) -> (r: Result<(), ZmachineError>)
        requires
            old(self).wf(),
        ensures
            final(self).wf(),
            Self::same_layout(old(self), final(self)),
    {
        if window == 0 {
            self.ui.erase_window(Window::Lower);
            Ok(())
        } else if window == 1 {
            self.ui.erase_window(Window::Upper);
            Ok(())
        } else if window == 0xFFFF {
            self.ui.split_window(0);
            self.ui.erase_window(Window::Lower);
            Ok(())
        } else if window == 0xFFFE {
            self.ui.erase_window(Window::Lower);
            self.ui.erase_window(Window::Upper);
            Ok(())
        } else {
            Err(ZmachineError::UnknownOpcode)
        }
    }

    /// `tokenise`: re-tokenise a text buffer into a parse buffer.
    fn do_tokenise_op(&mut self, text_addr: u16, parse_addr: u16) -> (r: Result<
        (),
        ZmachineError,
    >)
        requires
            old(self).wf(),
        ensures
            final(self).wf(),
            Self::same_layout(old(self), final(self)),
    {
        let max_chars = self.mem_read_byte(text_addr as usize)?;
        let num_chars = self.mem_read_byte(text_addr as usize + 1)?;
        if num_chars > max_chars {
            return Err(ZmachineError::BadAddress);
        }
        let bytes = match self.memory.read(text_addr as usize + 2, num_chars as usize) {
            Ok(b) => b,
            Err(e) => {
                return Err(e);
            },
        };
        let text = self.bytes_to_string(&bytes);
        if parse_addr != 0 {
            self.tokenise(&text, parse_addr as usize)?;
        }
        Ok(())
    }
}

/// Signed order on 16-bit words, as `jl`/`jg` compare them.
pub open spec fn spec_lt(a: u16, b: u16) -> bool {
    spec_signed(a) < spec_signed(b)
}

/// Signed 16-bit comparison.
fn lt16(a: u16, b: u16) -> (r: bool)
    ensures
        r == spec_lt(a, b),
{
    let sa = spec_signed_exec(a);
    let sb = spec_signed_exec(b);
    sa < sb
}

/// The executable signed reading of a word.
fn spec_signed_exec(a: u16) -> (r: i32)
    ensures
        r == spec_signed(a),
{
    if a < 0x8000 {
        a as i32
    } else {
        (a as i32) - 0x10000
    }
}


impl<ZUI: UI> Zmachine<ZUI> {
    /// Drive decode and dispatch until an instruction needs the host: a
    /// save or restore, a line or character of input, or the end of the
    /// game. An instruction budget guards against a story that never
    /// pauses.
    pub fn step(&mut self) -> (r: Result<Step, ZmachineError>)
        requires
            old(self).wf(),
        ensures
            final(self).wf(),
            Self::same_layout(old(self), final(self)),
            r is Ok ==> match r->Ok_0 {
                Step::Done => spec_opcode_of(
                    final(self).spec_memory(),
                    final(self).spec_pc() as int,
                    final(self).spec_version(),
                ) == Some(Opcode::OP0_186),
                Step::Save(blob) => ({
                    let paused = final(self).spec_paused();
                    &&& paused is Some
                    &&& (paused->Some_0.opcode == Opcode::OP0_181 || paused->Some_0.opcode
                        == Opcode::EXT_1000)
                    &&& paused->Some_0.addr == final(self).spec_pc()
                    &&& paused->Some_0.next >= 1
                    &&& blob@ == crate::quetzal::spec_save_bytes(
                        paused->Some_0.next - 1,
                        final(self).spec_memory().take(final(self).spec_static_start() as int),
                        final(self).spec_original_dynamic(),
                        final(self).spec_frames(),
                        word_at(final(self).spec_memory(), 0x1C),
                        word_at(final(self).spec_memory(), 0x02),
                        final(self).spec_memory().subrange(0x12, 0x18),
                    )
                }),
                Step::Restore => ({
                    let paused = final(self).spec_paused();
                    &&& paused is Some
                    &&& (paused->Some_0.opcode == Opcode::OP0_182 || paused->Some_0.opcode
                        == Opcode::EXT_1001)
                    &&& paused->Some_0.addr == final(self).spec_pc()
                }),
                Step::ReadLine => ({
                    let paused = final(self).spec_paused();
                    &&& paused is Some
                    &&& paused->Some_0.opcode == Opcode::VAR_228
                    &&& paused->Some_0.addr == final(self).spec_pc()
                }),
                Step::ReadChar => ({
                    let paused = final(self).spec_paused();
                    &&& paused is Some
                    &&& paused->Some_0.opcode == Opcode::VAR_246
                    &&& paused->Some_0.addr == final(self).spec_pc()
                }),
            },
    {
        // The budget only bounds the loop for the termination checker; a
        // story that runs this many instructions without pausing is stuck,
        // and exhausting the budget surfaces as a fatal addressing error.
        let mut budget: u64 = 0x1000000000;
        loop
            invariant
                self.wf(),
                Self::same_layout(old(self), self),
            decreases budget,
        {
            if budget == 0 {
                return Err(ZmachineError::BadAddress);
            }
            budget = budget - 1;
            let instr = self.decode_instruction(self.pc)?;
            match instr.opcode {
                Opcode::OP0_181 | Opcode::EXT_1000 => {
                    if instr.next == 0 {
                        return Err(ZmachineError::BadAddress);
                    }
                    let pc = instr.next - 1;
                    let state = self.make_save_state(pc)?;
                    self.paused_instr = Some(instr);
                    return Ok(Step::Save(state));
                },
                Opcode::OP0_182 | Opcode::EXT_1001 => {
                    self.paused_instr = Some(instr);
                    return Ok(Step::Restore);
                },
                Opcode::OP0_186 => {
                    return Ok(Step::Done);
                },
                Opcode::VAR_228 => {
                    self.update_status_bar()?;
                    self.paused_instr = Some(instr);
                    return Ok(Step::ReadLine);
                },
                Opcode::VAR_246 => {
                    self.paused_instr = Some(instr);
                    return Ok(Step::ReadChar);
                },
                _ => {
                    self.handle_instruction(&instr)?;
                },
            }
        }
    }

    /// Run without pausing, until `quit`; for hosts that drive input
    /// through the display sink alone.
    pub fn run(&mut self) -> (r: Result<(), ZmachineError>)
        requires
            old(self).wf(),
        ensures
            final(self).wf(),
            r is Ok ==> spec_opcode_of(
                final(self).spec_memory(),
                final(self).spec_pc() as int,
                final(self).spec_version(),
            ) == Some(Opcode::OP0_186),
    {
        // Bounded for the termination checker, as in `step`.
        let mut budget: u64 = 0x1000000000;
        loop
            invariant
                self.wf(),
            decreases budget,
        {
            if budget == 0 {
                return Err(ZmachineError::BadAddress);
            }
            budget = budget - 1;
            let instr = self.decode_instruction(self.pc)?;
            if matches!(instr.opcode, Opcode::OP0_186) {
                return Ok(());
            }
            self.handle_instruction(&instr)?;
        }
    }

    /// Store the player's line into the text buffer of the paused read
    /// instruction, tokenise it, and resume at the following instruction.
    pub fn handle_input(&mut self, input: Vec<char>) -> (r: Result<(), ZmachineError>)
        requires
            old(self).wf(),
        ensures
            final(self).wf(),
            Self::same_layout(old(self), final(self)),
            final(self).spec_paused() is None,
            old(self).spec_paused() is None ==> r is Err,
            r is Ok ==> old(self).spec_paused() is Some && final(self).spec_pc() == old(self).spec_paused()->Some_0.next,
    {
        let mut taken: Option<Instruction> = None;
        core::mem::swap(&mut taken, &mut self.paused_instr);
        let instr = match taken {
            Some(i) => i,
            None => {
                return Err(ZmachineError::BadAddress);
            },
        };
        let args = self.get_arguments(&instr.operands)?;
        if args.len() < 2 {
            return Err(ZmachineError::UnknownOpcode);
        }
        self.do_sread_second(args[0], args[1], input)?;
        self.pc = instr.next;
        Ok(())
    }

    /// The typed line as stored: lowercased, truncated to the buffer's
    /// declared capacity.
    pub open spec fn spec_sread_input(raw: Seq<char>, max_len: int) -> Seq<char> {
        Seq::new(
            (if raw.len() <= max_len {
                raw.len() as int
            } else {
                max_len
            }) as nat,
            |i: int| crate::zscii::lower_char_of(raw[i]),
        )
    }

    /// The ZSCII bytes the stored line becomes: one code per character,
    /// unmappable characters dropped.
    pub open spec fn spec_sread_bytes(text: Seq<char>, table: Seq<char>) -> Seq<u8>
        decreases text.len(),
    {
        if text.len() == 0 {
            Seq::empty()
        } else {
            let rest = Self::spec_sread_bytes(text.skip(1), table);
            match crate::zscii::spec_from_char(text[0], table) {
                Some(z) => seq![z] + rest,
                None => rest,
            }
        }
    }

    /// Write the typed line: lowercased, truncated to the buffer's
    /// capacity, stored with the version's length conventions (a
    /// terminating zero to v4, a count byte from v5), then tokenised
    /// unless the parse address is zero.
    #[verifier::loop_isolation(false)]
    #[verifier::rlimit(100)]
    #[verifier::spinoff_prover]
    fn do_sread_second(&mut self, text_addr: u16, parse_addr: u16, raw: Vec<char>) -> (r: Result<
        (),
        ZmachineError,
    >)
        requires
            old(self).wf(),
        ensures
            final(self).wf(),
            Self::same_layout(old(self), final(self)),
            Self::same_streams(old(self), final(self)),
            // The stored line, provided the parse buffer cannot overlap
            // the text buffer (their maximal extents are 1023 and 258
            // bytes).
            r is Ok && (parse_addr == 0 || parse_addr >= text_addr + 259 || parse_addr + 1023
                <= text_addr) ==> ({
                let maxl: int = if old(self).spec_version() <= 4 {
                    old(self).spec_memory()[text_addr as int] - 1
                } else {
                    old(self).spec_memory()[text_addr as int] as int
                };
                let line = Self::spec_sread_input(raw@, maxl);
                let bytes = Self::spec_sread_bytes(line, old(self).spec_unicode_table());
                &&& (old(self).spec_version() <= 4 ==> (forall|j: int|
                    text_addr + 1 <= j < text_addr + 1 + bytes.len()
                        ==> final(self).spec_memory()[j] == bytes[j - text_addr - 1])
                    && final(self).spec_memory()[text_addr + 1 + bytes.len()] == 0)
                &&& (old(self).spec_version() >= 5 ==> final(self).spec_memory()[text_addr + 1]
                    == bytes.len() && (forall|j: int|
                    text_addr + 2 <= j < text_addr + 2 + bytes.len()
                        ==> final(self).spec_memory()[j] == bytes[j - text_addr - 2]))
            }),
    {
        let text_addr = text_addr as usize;
        let mut max_length = self.mem_read_byte(text_addr)? as usize;
        if self.version <= 4 {
            if max_length == 0 {
                return Err(ZmachineError::BadAddress);
            }
            max_length = max_length - 1;
        }
        // Lowercase and truncate.
        let mut input: Vec<char> = Vec::new();
        let n = raw.len();
        let mut i: usize = 0;
        while i < n
            invariant
                i <= n,
                n == raw@.len(),
                max_length <= 255,
                input@.len() == (if i <= max_length {
                    i as int
                } else {
                    max_length as int
                }),
                forall|j: int|
                    0 <= j < input@.len() ==> input@[j] == crate::zscii::lower_char_of(raw@[j]),
            decreases n - i,
        {
            if input.len() < max_length {
                input.push(lower_char(raw[i]));
            }
            i = i + 1;
        }
        proof {
            assert(input@ =~= Self::spec_sread_input(raw@, max_length as int));
        }
        // Store as ZSCII bytes; unmappable characters are dropped.
        let table = match &self.unicode_table {
            None => None,
            Some(v) => Some(v.clone()),
        };
        let mut bytes: Vec<u8> = Vec::new();
        let n = input.len();
        let mut i: usize = 0;
        let ghost line0 = input@;
        proof {
            assert(line0.skip(0) =~= line0);
            assert(Seq::<u8>::empty() + Self::spec_sread_bytes(
                line0,
                old(self).spec_unicode_table(),
            ) =~= Self::spec_sread_bytes(line0, old(self).spec_unicode_table()));
        }
        while i < n
            invariant
                i <= n,
                n == input@.len(),
                input@ == line0,
                n <= 255,
                bytes@.len() <= i,
                match table {
                    None => old(self).spec_unicode_table() == DEFAULT_UNICODE_TABLE@,
                    Some(t) => old(self).spec_unicode_table() == t@,
                },
                Self::spec_sread_bytes(line0, old(self).spec_unicode_table()) == bytes@
                    + Self::spec_sread_bytes(
                    line0.skip(i as int),
                    old(self).spec_unicode_table(),
                ),
            decreases n - i,
        {
            let ghost pre = bytes@;
            let zch = match &table {
                None => ZChar::from_char(input[i], vstd::array::array_as_slice(
                    &DEFAULT_UNICODE_TABLE,
                )),
                Some(t) => ZChar::from_char(input[i], t.as_slice()),
            };
            match zch {
                Some(z) => {
                    bytes.push(z.0);
                },
                None => (),
            }
            proof {
                let tbl = old(self).spec_unicode_table();
                assert(line0.skip(i as int)[0] == line0[i as int]);
                assert(line0.skip(i as int).skip(1) =~= line0.skip(i + 1));
                let tail = Self::spec_sread_bytes(line0.skip(i + 1), tbl);
                match crate::zscii::spec_from_char(line0[i as int], tbl) {
                    Some(z) => {
                        assert(Self::spec_sread_bytes(line0.skip(i as int), tbl) == seq![z]
                            + tail);
                        assert(bytes@ =~= pre + seq![z]);
                        assert((pre + seq![z]) + tail =~= pre + (seq![z] + tail));
                    },
                    None => {
                        assert(Self::spec_sread_bytes(line0.skip(i as int), tbl) == tail);
                    },
                }
            }
            i = i + 1;
        }
        proof {
            assert(line0.skip(n as int) =~= Seq::<char>::empty());
            assert(bytes@ =~= Self::spec_sread_bytes(line0, old(self).spec_unicode_table()));
        }
        let len = bytes.len();
        if self.version <= 4 {
            let mut w: usize = text_addr + 1;
            let mut i: usize = 0;
            while i < len
                invariant
                    self.wf(),
                    Self::same_layout(old(self), self),
                    Self::same_streams(old(self), self),
                    i <= len,
                    len == bytes@.len(),
                    w == text_addr + 1 + i,
                    text_addr + 2 + len <= usize::MAX,
                    forall|j: int|
                        text_addr + 1 <= j < text_addr + 1 + i ==> self.spec_memory()[j]
                            == bytes@[j - text_addr - 1],
                decreases len - i,
            {
                self.mem_write_byte(w, bytes[i])?;
                w = w + 1;
                i = i + 1;
            }
            self.mem_write_byte(w, 0)?;
        } else {
            if len > 255 {
                return Err(ZmachineError::BadAddress);
            }
            self.mem_write_byte(text_addr + 1, len as u8)?;
            let mut w: usize = text_addr + 2;
            let mut i: usize = 0;
            while i < len
                invariant
                    self.wf(),
                    Self::same_layout(old(self), self),
                    Self::same_streams(old(self), self),
                    i <= len,
                    len == bytes@.len(),
                    w == text_addr + 2 + i,
                    text_addr + 2 + len <= usize::MAX,
                    self.spec_memory()[text_addr + 1] == len as u8,
                    i > 0 ==> text_addr + 2 + i <= old(self).spec_static_start(),
                    forall|j: int|
                        text_addr + 2 <= j < text_addr + 2 + i ==> self.spec_memory()[j]
                            == bytes@[j - text_addr - 2],
                decreases len - i,
            {
                self.mem_write_byte(w, bytes[i])?;
                w = w + 1;
                i = i + 1;
            }
        }
        let ghost m_txt = self.spec_memory();
        if parse_addr != 0 {
            self.tokenise(&input, parse_addr as usize)?;
            proof {
                if parse_addr >= text_addr as u16 + 259 || parse_addr + 1023 <= text_addr as u16 {
                    assert forall|j: int|
                        text_addr <= j < text_addr + 258 && 0 <= j < m_txt.len() implies self.spec_memory()[
                    j] == m_txt[j] by {}
                }
            }
        }
        Ok(())
    }

    /// Resume a paused `read_char` with the typed character: the paused
    /// instruction completes with the character's ZSCII code.
    pub fn handle_read_char(&mut self, input: ZChar) -> (r: Result<(), ZmachineError>)
        requires
            old(self).wf(),
        ensures
            final(self).wf(),
            Self::same_layout(old(self), final(self)),
            final(self).spec_paused() is None,
            old(self).spec_paused() is None ==> r is Err && final(self).spec_memory() == old(self).spec_memory() && final(self).spec_frames() == old(self).spec_frames() && final(self).spec_pc() == old(self).spec_pc(),
            r is Ok ==> old(self).spec_paused() is Some,
            ({
                let pi = old(self).spec_paused();
                pi is Some ==> ({
                    let i = pi->Some_0;
                    let value: u16 = input.0 as u16;
                    &&& (i.store is None && i.branch is None ==> r is Ok && final(self).spec_memory() == old(self).spec_memory() && final(self).spec_frames() == old(self).spec_frames() && final(self).spec_pc() == i.next)
                    &&& (i.store is Some && i.branch is None ==> (r is Ok <==> (1 <= i.store->Some_0 <= 15 ==> i.store->Some_0 - 1 < old(self).spec_top_frame().locals@.len())) && (r is Ok ==> Self::spec_var_store_effect(old(self), final(self), i.store->Some_0, value) && final(self).spec_pc() == i.next))
                    &&& (i.store is None && i.branch is Some ==> ({
                        let b = i.branch->Some_0;
                        let bit: u16 = if value >= 1 {
                            1u16
                        } else {
                            0u16
                        };
                        let taken = bit == b.condition as u16;
                        &&& (b.address is Some && taken && b.returns is None ==> r is Ok && final(self).spec_pc() == b.address->Some_0 && final(self).spec_frames() == old(self).spec_frames() && final(self).spec_memory() == old(self).spec_memory())
                        &&& (b.address is Some && !taken && b.returns is None ==> r is Ok && final(self).spec_pc() == i.next && final(self).spec_frames() == old(self).spec_frames() && final(self).spec_memory() == old(self).spec_memory())
                        &&& (b.returns is Some && !taken ==> r is Ok && final(self).spec_pc() == i.next && final(self).spec_frames() == old(self).spec_frames() && final(self).spec_memory() == old(self).spec_memory())
                        &&& (b.returns is Some && taken && old(self).spec_frames().len() > 1 ==> (r is Ok <==> Self::spec_return_ok(old(self), b.returns->Some_0)) && (r is Ok ==> Self::spec_return_effect(old(self), final(self), b.returns->Some_0)))
                        &&& (b.returns is Some && taken && old(self).spec_frames().len() > 1 && old(self).spec_top_frame().store is None ==> r is Ok && final(self).spec_pc() == old(self).spec_top_frame().resume && final(self).spec_frames() == old(self).spec_frames().drop_last())
                    }))
                })
            }),
    {
        let mut taken: Option<Instruction> = None;
        core::mem::swap(&mut taken, &mut self.paused_instr);
        let instr = match taken {
            Some(i) => i,
            None => {
                return Err(ZmachineError::BadAddress);
            },
        };
        self.process_result(&instr, input.0 as u16)
    }

    /// Resume a paused `save` with the host's success flag: the paused
    /// instruction completes with 1 for success, 0 for failure.
    pub fn handle_save_result(&mut self, successful: bool) -> (r: Result<(), ZmachineError>)
        requires
            old(self).wf(),
        ensures
            final(self).wf(),
            Self::same_layout(old(self), final(self)),
            final(self).spec_paused() is None,
            old(self).spec_paused() is None ==> r is Err && final(self).spec_memory() == old(self).spec_memory() && final(self).spec_frames() == old(self).spec_frames() && final(self).spec_pc() == old(self).spec_pc(),
            r is Ok ==> old(self).spec_paused() is Some,
            ({
                let pi = old(self).spec_paused();
                pi is Some ==> ({
                    let i = pi->Some_0;
                    let value: u16 = if successful {
                        1u16
                    } else {
                        0u16
                    };
                    &&& (i.store is None && i.branch is None ==> r is Ok && final(self).spec_memory() == old(self).spec_memory() && final(self).spec_frames() == old(self).spec_frames() && final(self).spec_pc() == i.next)
                    &&& (i.store is Some && i.branch is None ==> (r is Ok <==> (1 <= i.store->Some_0 <= 15 ==> i.store->Some_0 - 1 < old(self).spec_top_frame().locals@.len())) && (r is Ok ==> Self::spec_var_store_effect(old(self), final(self), i.store->Some_0, value) && final(self).spec_pc() == i.next))
                    &&& (i.store is None && i.branch is Some ==> ({
                        let b = i.branch->Some_0;
                        let bit: u16 = if value >= 1 {
                            1u16
                        } else {
                            0u16
                        };
                        let taken = bit == b.condition as u16;
                        &&& (b.address is Some && taken && b.returns is None ==> r is Ok && final(self).spec_pc() == b.address->Some_0 && final(self).spec_frames() == old(self).spec_frames() && final(self).spec_memory() == old(self).spec_memory())
                        &&& (b.address is Some && !taken && b.returns is None ==> r is Ok && final(self).spec_pc() == i.next && final(self).spec_frames() == old(self).spec_frames() && final(self).spec_memory() == old(self).spec_memory())
                        &&& (b.returns is Some && !taken ==> r is Ok && final(self).spec_pc() == i.next && final(self).spec_frames() == old(self).spec_frames() && final(self).spec_memory() == old(self).spec_memory())
                        &&& (b.returns is Some && taken && old(self).spec_frames().len() > 1 ==> (r is Ok <==> Self::spec_return_ok(old(self), b.returns->Some_0)) && (r is Ok ==> Self::spec_return_effect(old(self), final(self), b.returns->Some_0)))
                        &&& (b.returns is Some && taken && old(self).spec_frames().len() > 1 && old(self).spec_top_frame().store is None ==> r is Ok && final(self).spec_pc() == old(self).spec_top_frame().resume && final(self).spec_frames() == old(self).spec_frames().drop_last())
                    }))
                })
            }),
    {
        let mut taken: Option<Instruction> = None;
        core::mem::swap(&mut taken, &mut self.paused_instr);
        let instr = match taken {
            Some(i) => i,
            None => {
                return Err(ZmachineError::BadAddress);
            },
        };
        self.process_result(
            &instr,
            if successful {
                1
            } else {
                0
            },
        )
    }

    /// Resume a paused `restore` after the host could not supply a blob:
    /// the paused instruction fails with 0 and execution continues with
    /// the pre-restore state intact.
    pub fn handle_restore_result(&mut self) -> (r: Result<(), ZmachineError>)
        requires
            old(self).wf(),
        ensures
            final(self).wf(),
            Self::same_layout(old(self), final(self)),
            final(self).spec_paused() is None,
            old(self).spec_paused() is None ==> r is Err && final(self).spec_memory() == old(self).spec_memory() && final(self).spec_frames() == old(self).spec_frames() && final(self).spec_pc() == old(self).spec_pc(),
            r is Ok ==> old(self).spec_paused() is Some,
            ({
                let pi = old(self).spec_paused();
                pi is Some ==> ({
                    let i = pi->Some_0;
                    let value: u16 = 0u16;
                    &&& (i.store is None && i.branch is None ==> r is Ok && final(self).spec_memory() == old(self).spec_memory() && final(self).spec_frames() == old(self).spec_frames() && final(self).spec_pc() == i.next)
                    &&& (i.store is Some && i.branch is None ==> (r is Ok <==> (1 <= i.store->Some_0 <= 15 ==> i.store->Some_0 - 1 < old(self).spec_top_frame().locals@.len())) && (r is Ok ==> Self::spec_var_store_effect(old(self), final(self), i.store->Some_0, value) && final(self).spec_pc() == i.next))
                    &&& (i.store is None && i.branch is Some ==> ({
                        let b = i.branch->Some_0;
                        let bit: u16 = if value >= 1 {
                            1u16
                        } else {
                            0u16
                        };
                        let taken = bit == b.condition as u16;
                        &&& (b.address is Some && taken && b.returns is None ==> r is Ok && final(self).spec_pc() == b.address->Some_0 && final(self).spec_frames() == old(self).spec_frames() && final(self).spec_memory() == old(self).spec_memory())
                        &&& (b.address is Some && !taken && b.returns is None ==> r is Ok && final(self).spec_pc() == i.next && final(self).spec_frames() == old(self).spec_frames() && final(self).spec_memory() == old(self).spec_memory())
                        &&& (b.returns is Some && !taken ==> r is Ok && final(self).spec_pc() == i.next && final(self).spec_frames() == old(self).spec_frames() && final(self).spec_memory() == old(self).spec_memory())
                        &&& (b.returns is Some && taken && old(self).spec_frames().len() > 1 ==> (r is Ok <==> Self::spec_return_ok(old(self), b.returns->Some_0)) && (r is Ok ==> Self::spec_return_effect(old(self), final(self), b.returns->Some_0)))
                        &&& (b.returns is Some && taken && old(self).spec_frames().len() > 1 && old(self).spec_top_frame().store is None ==> r is Ok && final(self).spec_pc() == old(self).spec_top_frame().resume && final(self).spec_frames() == old(self).spec_frames().drop_last())
                    }))
                })
            }),
    {
        let mut taken: Option<Instruction> = None;
        core::mem::swap(&mut taken, &mut self.paused_instr);
        let instr = match taken {
            Some(i) => i,
            None => {
                return Err(ZmachineError::BadAddress);
            },
        };
        self.process_result(&instr, 0)
    }

    /// Restore from a save blob supplied by the host, re-applying the
    /// interpreter header bits and finishing the paused restore
    /// instruction: on a blob serialised from this story, the program
    /// counter, frames and dynamic memory come back exactly as saved (the
    /// re-stamped header fields and the completing store's cell aside),
    /// and from v5 the resumed instruction stores the value 2.
    pub fn restore(&mut self, data: &[u8]) -> (r: Result<(), ZmachineError>)
        requires
            old(self).wf(),
        ensures
            final(self).wf(),
            Self::same_layout(old(self), final(self)),
            match crate::quetzal::spec_parse_save(data@, old(self).spec_original_dynamic()) {
                None => r is Err,
                Some((pc2, mem2, ftuples, chk2, rel2, ser2)) => {
                    let smem = mem2 + old(self).spec_memory().skip(
                        old(self).spec_static_start() as int,
                    );
                    &&& (chk2 != word_at(old(self).spec_memory(), 0x1C) ==> r is Err)
                    &&& (ftuples.len() == 0 ==> r is Err)
                    &&& (chk2 == word_at(old(self).spec_memory(), 0x1C) && ftuples.len() >= 1
                        && r is Ok ==> {
                        &&& final(self).spec_memory().len() == old(self).spec_memory().len()
                        &&& (old(self).spec_version() >= 5 && 0x40 <= pc2 < smem.len() ==> {
                            let b = smem[pc2];
                            // Dynamic memory reverts to the snapshot outside
                            // the header and the globals table (which the
                            // completing store may touch).
                            &&& forall|i: int|
                                0x40 <= i < old(self).spec_static_start() && !(old(
                                    self,
                                ).spec_globals_addr() <= i < old(self).spec_globals_addr() + 480)
                                    ==> final(self).spec_memory()[i] == smem[i]
                            &&& final(self).spec_pc() == pc2 + 1
                            &&& (b >= 16 ==> crate::quetzal::spec_frame_tuples(
                                final(self).spec_frames(),
                            ) == ftuples && final(self).spec_global(b - 16) == 2)
                        })
                    })
                    // Success is owed from v5 on a matching save whose
                    // completing store names the stack or a global.
                    &&& (chk2 == word_at(old(self).spec_memory(), 0x1C) && ftuples.len() >= 1
                        && old(self).spec_version() >= 5 && 0x40 <= pc2 < smem.len() && (
                    smem[pc2] == 0 || smem[pc2] >= 16) ==> r is Ok)
                },
            },
    {
        let ghost parsed = crate::quetzal::spec_parse_save(
            data@,
            old(self).spec_original_dynamic(),
        );
        self.restore_state(data)?;
        let ghost s_r = *self;
        self.set_dynamic_headers()?;
        let ghost s_h = *self;
        let res = self.process_restore_result();
        proof {
            match parsed {
                None => {},
                Some((pc2, mem2, ftuples, chk2, rel2, ser2)) => {
                    let smem = mem2 + old(self).spec_memory().skip(
                        old(self).spec_static_start() as int,
                    );
                    if chk2 == word_at(old(self).spec_memory(), 0x1C) && ftuples.len() >= 1 {
                        assert(s_r.spec_memory() == smem);
                        assert(s_r.spec_pc() == pc2);
                        assert(mem2.len() == old(self).spec_static_start());
                        assert(s_h.spec_memory().len() == smem.len());
                        assert(forall|i: int|
                            0x40 <= i < smem.len() ==> s_h.spec_memory()[i] == smem[i]);
                        assert(s_h.spec_pc() == pc2);
                        assert(s_h.spec_frames() == s_r.spec_frames());
                        if old(self).spec_version() >= 5 && 0x40 <= pc2 < smem.len() {
                            assert(s_h.spec_memory()[pc2 as int] == smem[pc2]);
                            let b = smem[pc2];
                            if b == 0 || b >= 16 {
                                assert(res is Ok);
                            }
                            if res is Ok {
                                assert(Self::spec_var_store_effect(&s_h, final(self), b, 2));
                                assert(final(self).spec_pc() == pc2 + 1);
                                assert forall|i: int|
                                    0x40 <= i < old(self).spec_static_start() && !(old(
                                        self,
                                    ).spec_globals_addr() <= i < old(self).spec_globals_addr()
                                        + 480) implies final(self).spec_memory()[i] == smem[
                                i] by {
                                    if b >= 16 {
                                        assert(final(self).spec_memory()
                                            == Self::spec_global_written(&s_h, 2, b - 16));
                                        assert(s_h.spec_globals_addr() == old(
                                            self,
                                        ).spec_globals_addr());
                                        assert(final(self).spec_memory()[i]
                                            == s_h.spec_memory()[i]);
                                    } else {
                                        assert(final(self).spec_memory() == s_h.spec_memory());
                                    }
                                }
                                if b >= 16 {
                                    assert(final(self).spec_frames() == s_h.spec_frames());
                                    assert(crate::quetzal::spec_frame_tuples(
                                        final(self).spec_frames(),
                                    ) == ftuples);
                                    assert(final(self).spec_global(b - 16) == 2);
                                }
                            }
                        }
                    }
                },
            }
        }
        res
    }

    /// Load a save blob without completing a paused restore instruction,
    /// for hosts that restore outside the step loop: on a blob serialised
    /// from this story, the program counter, frames and dynamic memory
    /// come back exactly as saved; the failure cases leave the state
    /// untouched.
    pub fn load_savestate(&mut self, state: &[u8]) -> (r: Result<(), ZmachineError>)
        requires
            old(self).wf(),
        ensures
            final(self).wf(),
            Self::same_layout(old(self), final(self)),
            r is Err ==> final(self).spec_memory() == old(self).spec_memory() && final(self).spec_frames() == old(self).spec_frames() && final(self).spec_pc() == old(self).spec_pc(),
            match crate::quetzal::spec_parse_save(state@, old(self).spec_original_dynamic()) {
                None => r is Err,
                Some((pc2, mem2, ftuples, chk2, rel2, ser2)) => {
                    &&& (chk2 != word_at(old(self).spec_memory(), 0x1C) ==> r is Err)
                    &&& (ftuples.len() == 0 ==> r is Err)
                    &&& (chk2 == word_at(old(self).spec_memory(), 0x1C) && ftuples.len() >= 1
                        ==> {
                        &&& r is Ok
                        &&& final(self).spec_pc() == pc2
                        &&& final(self).spec_memory() == mem2 + old(self).spec_memory().skip(
                            old(self).spec_static_start() as int,
                        )
                        &&& crate::quetzal::spec_frame_tuples(final(self).spec_frames())
                            == ftuples
                    })
                },
            },
    {
        self.restore_state(state)
    }
}

impl<ZUI> Zmachine<ZUI> {
    /// The story version byte.
    pub fn version(&self) -> (r: u8)
        ensures
            r == self.spec_version(),
    {
        self.version
    }

    /// The current program counter.
    pub fn current_pc(&self) -> (r: usize)
        ensures
            r == self.spec_pc(),
    {
        self.pc
    }

    /// How deep the frame stack is; at least 1 on a well-formed machine.
    pub fn frame_depth(&self) -> (r: usize)
        ensures
            r == self.spec_frames().len(),
    {
        self.frames.len()
    }

    /// A global variable's current word, for hosts and tests.
    pub fn global_word(&self, index: u8) -> (r: Result<u16, ZmachineError>)
        requires
            self.wf(),
            index < 240,
        ensures
            r == Ok::<u16, ZmachineError>(self.spec_global(index as int)),
    {
        self.read_global(index)
    }

    /// A byte of memory, for hosts and tests.
    pub fn peek_byte(&self, addr: usize) -> (r: Result<u8, ZmachineError>)
        ensures
            addr < self.spec_memory().len() ==> r == Ok::<u8, ZmachineError>(
                self.spec_memory()[addr as int],
            ),
            addr >= self.spec_memory().len() ==> r is Err,
    {
        self.mem_read_byte(addr)
    }

    /// A word of memory, for hosts and tests.
    pub fn peek_word(&self, addr: usize) -> (r: Result<u16, ZmachineError>)
        ensures
            addr + 2 <= self.spec_memory().len() ==> r == Ok::<u16, ZmachineError>(
                word_at(self.spec_memory(), addr as int),
            ),
            addr + 2 > self.spec_memory().len() ==> r is Err,
    {
        self.mem_read_word(addr)
    }

    /// The decoded dictionary words, in table order (Z-machine
    /// dictionaries are stored sorted).
    pub fn get_dictionary(&self) -> (r: Vec<Vec<char>>) {
        let mut out: Vec<Vec<char>> = Vec::new();
        let n = self.dictionary.len();
        let mut i: usize = 0;
        while i < n
            invariant
                n == self.dictionary@.len(),
                i <= n,
            decreases n - i,
        {
            out.push(self.dictionary[i].0.clone());
            i = i + 1;
        }
        out
    }

    /// The object that stands for the player, looked up by its customary
    /// names.
    pub fn find_yourself(&self) -> (r: Result<Option<u16>, ZmachineError>)
        requires
            self.wf(),
    {
        let a = self.find_object_named("cretin")?;
        if matches!(a, Some(_)) {
            return Ok(a);
        }
        let b = self.find_object_named("you")?;
        if matches!(b, Some(_)) {
            return Ok(b);
        }
        self.find_object_named("yourself")
    }

    /// The first object whose (lowercased) short name equals the given
    /// one.
    fn find_object_named(&self, name: &str) -> (r: Result<Option<u16>, ZmachineError>)
        requires
            self.wf(),
    {
        let want = chars_of_str(name);
        let total = self.get_total_object_count()?;
        let mut i: u16 = 1;
        while i <= total && i < 0xFFFF
            invariant
                self.wf(),
            decreases 0xFFFF - i,
        {
            let objname = self.get_object_name(i)?;
            let mut lowered: Vec<char> = Vec::new();
            let mut k: usize = 0;
            let n = objname.len();
            while k < n
                invariant
                    k <= n,
                    n == objname@.len(),
                decreases n - k,
            {
                lowered.push(lower_char(objname[k]));
                k = k + 1;
            }
            if Self::chars_eq(&lowered, &want) {
                return Ok(Some(i));
            }
            i = i + 1;
        }
        Ok(None)
    }

    /// The current room: the object in global 0 and its name.
    pub fn get_current_room(&self) -> (r: Result<(u16, Vec<char>), ZmachineError>)
        requires
            self.wf(),
    {
        let num = self.read_global(0)?;
        let name = self.get_object_name(num)?;
        Ok((num, name))
    }

    /// The whole object tree under the null object, as the debugging
    /// accessors report it: each root object with its children, walked
    /// through the sibling chains with a traversal budget against corrupt
    /// links.
    pub fn get_object_tree(&self) -> (r: Result<Object, ZmachineError>)
        requires
            self.wf(),
    {
        let total = self.get_total_object_count()?;
        let mut roots: Vec<Object> = Vec::new();
        let mut i: u16 = 1;
        while i <= total && i < 0xFFFF
            invariant
                self.wf(),
            decreases 0xFFFF - i,
        {
            let p = self.get_parent(i)?;
            if p == 0 {
                let node = self.build_object_node(i, 16)?;
                roots.push(node);
            }
            i = i + 1;
        }
        Ok(Object { number: 0, name: Vec::new(), children: roots })
    }

    /// One object with its children, to a bounded depth.
    fn build_object_node(&self, number: u16, depth: u8) -> (r: Result<Object, ZmachineError>)
        requires
            self.wf(),
        decreases depth,
    {
        let name = self.get_object_name(number)?;
        let mut children: Vec<Object> = Vec::new();
        if depth > 0 {
            let mut next = self.get_child(number)?;
            let mut fuel: u32 = 0xFFFF;
            while next > 0 && fuel > 0
                invariant
                    self.wf(),
                    depth > 0,
                decreases fuel,
            {
                let node = self.build_object_node(next, depth - 1)?;
                children.push(node);
                next = self.get_sibling(next)?;
                fuel = fuel - 1;
            }
        }
        Ok(Object { number, name, children })
    }
}

impl Object {
    /// A plain-text rendering of the tree, each object as
    /// `name (number)` with box-drawing connectors.
    pub fn to_string(&self) -> (r: String)
    {
        self.print_tree(0, 18)
    }

    fn print_tree(&self, indent: usize, depth: u8) -> (r: String)
        decreases depth,
    {
        let mut out = String::new();
        let mut k: usize = 0;
        let cap = if indent > 40 {
            40
        } else {
            indent
        };
        while k < cap
            invariant
                k <= cap,
                cap <= 40,
            decreases cap - k,
        {
            push_char(&mut out, ' ');
            k = k + 1;
        }
        if indent > 0 {
            push_char(&mut out, '-');
            push_char(&mut out, ' ');
        }
        let name = chars_to_string(self.name.as_slice());
        out.append(name.as_str());
        push_char(&mut out, ' ');
        push_char(&mut out, '(');
        let num = u16_to_chars(self.number);
        let ns = chars_to_string(num.as_slice());
        out.append(ns.as_str());
        push_char(&mut out, ')');
        push_char(&mut out, '\n');
        if depth > 0 {
            let n = self.children.len();
            let mut i: usize = 0;
            while i < n
                invariant
                    i <= n,
                    n == self.children@.len(),
                    depth > 0,
                decreases n - i,
            {
                let next_indent = if indent > 0x1000 {
                    indent
                } else {
                    indent + 2
                };
                let sub = self.children[i].print_tree(next_indent, depth - 1);
                out.append(sub.as_str());
                i = i + 1;
            }
        }
        out
    }
}

} // verus!
