use crate::trace::optimised::error::IdentifierSpaceExhausted;
use crate::trace::optimised::interning::admits;
use crate::trace::optimised::interning::identifier;
use crate::trace::optimised::interning::interned;
use crate::trace::optimised::interning::lemma_interned_contains;
use crate::trace::optimised::interning::lemma_interned_identifier;
use crate::trace::optimised::interning::lemma_interned_keeps_identifiers;
use crate::trace::optimised::interning::lemma_interned_no_duplicates;
use crate::trace::shared::instruction_pointer::InstructionPointer;
use std::collections::HashMap;
use vstd::prelude::*;

verus! {

/// The stable identity of an interned stack frame.
///
/// Identifiers are given out from 1 upwards, in the order in which the frames
/// were first seen.
#[derive(Debug, Clone, Copy, PartialEq, Eq, Hash, Structural)]
pub struct StackFrameID(pub u64);

/// One interned entry of a call stack.
#[derive(Debug, Clone, Copy, PartialEq, Eq, Hash, Structural)]
pub struct StackFrame {
    pub id: StackFrameID,
    pub instruction_pointer: InstructionPointer,
}

/// The stack frames that a table of instruction pointers stands for: the
/// pointer at position `i` is the frame with identifier `i + 1`.
pub open spec fn stack_frames_of(table: Seq<InstructionPointer>) -> Seq<StackFrame> {
    Seq::new(
        table.len(),
        |i: int|
            StackFrame { id: StackFrameID((i + 1) as u64), instruction_pointer: table[i] },
    )
}

/// Gives each distinct instruction pointer one stack frame with a stable
/// identifier, in first-seen order.
///
/// The instruction pointer alone is the lookup key; the identifier is what
/// the table stores for it.
pub struct StackFrameInterner {
    frames: Vec<StackFrame>,
    ids: HashMap<u64, u64>,
    next_id: StackFrameID,
}

impl View for StackFrameInterner {
    type V = Seq<InstructionPointer>;

    /// The instruction pointers interned so far, in first-seen order.
    closed spec fn view(&self) -> Seq<InstructionPointer> {
        self.frames@.map_values(|frame: StackFrame| frame.instruction_pointer)
    }
}

impl StackFrameInterner {
    /// The frames are numbered by position, the lookup table knows exactly the
    /// interned pointers and maps each to its identifier, and the counter is
    /// the next free identifier.
    pub closed spec fn wf(&self) -> bool {
        &&& self.next_id.0 == self.frames@.len() + 1
        &&& self.frames@ == stack_frames_of(self@)
        &&& self@.no_duplicates()
        &&& forall|ip: u64| #[trigger]
            self.ids@.contains_key(ip) <==> self@.contains(InstructionPointer(ip))
        &&& forall|ip: u64| #[trigger]
            self.ids@.contains_key(ip) ==> self.ids@[ip] == identifier(
                self@,
                InstructionPointer(ip),
            )
    }

    /// A well-formed interner repeats no instruction pointer and has given
    /// out fewer identifiers than there are 64-bit values above zero.
    pub proof fn lemma_wf(&self)
        requires
            self.wf(),
        ensures
            self@.no_duplicates(),
            self@.len() < u64::MAX,
    {
    }

    /// An interner that has seen nothing; its first identifier will be 1.
    pub fn new() -> (interner: StackFrameInterner)
        ensures
            interner.wf(),
            interner@ == Seq::<InstructionPointer>::empty(),
    {
        let interner = StackFrameInterner {
            frames: Vec::new(),
            ids: HashMap::new(),
            next_id: StackFrameID(1),
        };
        assert(interner@ =~= Seq::<InstructionPointer>::empty());
        assert(interner.frames@ =~= stack_frames_of(interner@));
        interner
    }

    /// Returns the identifier of the frame for `instruction_pointer`,
    /// creating the frame if the pointer was never seen before.
    ///
    /// A known pointer gets the identifier it got the first time, and nothing
    /// changes. A new pointer gets the next identifier, and the counter
    /// advances by one. Where the counter cannot advance, the call fails and
    /// leaves the interner as it was.
    pub fn intern(&mut self, instruction_pointer: InstructionPointer) -> (result: Result<
        StackFrameID,
        IdentifierSpaceExhausted,
    >)
        requires
            old(self).wf(),
        ensures
            final(self).wf(),
            result is Ok <==> admits(old(self)@, instruction_pointer),
            result is Ok ==> final(self)@ == interned(old(self)@, instruction_pointer),
            result is Ok ==> result->Ok_0.0 == identifier(final(self)@, instruction_pointer),
            result is Err ==> final(self)@ == old(self)@,
            result is Err ==> result->Err_0 == IdentifierSpaceExhausted::StackFrames,
    {
        let ghost table = self@;
        match self.ids.get(&instruction_pointer.0) {
            Some(id) => {
                return Ok(StackFrameID(*id));
            },
            None => {},
        }
        assert(!table.contains(instruction_pointer));
        let id: u64 = self.next_id.0;
        match id.checked_add(1) {
            None => Err(IdentifierSpaceExhausted::StackFrames),
            Some(next) => {
                self.frames.push(StackFrame { id: StackFrameID(id), instruction_pointer });
                self.ids.insert(instruction_pointer.0, id);
                self.next_id = StackFrameID(next);
                proof {
                    let grown = table.push(instruction_pointer);
                    assert(self@ =~= grown);
                    assert(self.frames@ =~= stack_frames_of(grown));
                    lemma_interned_no_duplicates(table, instruction_pointer);
                    lemma_interned_identifier(table, instruction_pointer);
                    assert forall|ip: u64| #[trigger]
                        self.ids@.contains_key(ip) <==> grown.contains(
                            InstructionPointer(ip),
                        ) by {
                        lemma_interned_contains(
                            table,
                            instruction_pointer,
                            InstructionPointer(ip),
                        );
                    }
                    assert forall|ip: u64| #[trigger] self.ids@.contains_key(ip) implies self.ids@[ip]
                        == identifier(grown, InstructionPointer(ip)) by {
                        if ip != instruction_pointer.0 {
                            lemma_interned_keeps_identifiers(
                                table,
                                instruction_pointer,
                                InstructionPointer(ip),
                            );
                        }
                    }
                }
                Ok(StackFrameID(id))
            },
        }
    }

    /// Hands out the interned frames, in first-seen order.
    pub fn into_stack_frames(self) -> (frames: Vec<StackFrame>)
        requires
            self.wf(),
        ensures
            frames@ == stack_frames_of(self@),
    {
        self.frames
    }
}

} // verus!
