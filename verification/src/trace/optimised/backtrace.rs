use crate::trace::optimised::error::IdentifierSpaceExhausted;
use crate::trace::optimised::interning::admits;
use crate::trace::optimised::interning::identifier;
use crate::trace::optimised::interning::interned;
use crate::trace::optimised::interning::lemma_identifier_at;
use crate::trace::optimised::interning::lemma_identifiers_differ;
use crate::trace::optimised::interning::lemma_interned_contains;
use crate::trace::optimised::interning::lemma_interned_identifier;
use crate::trace::optimised::interning::lemma_interned_no_duplicates;
use crate::trace::optimised::stack_frame::StackFrameID;
use std::collections::HashMap;
use vstd::prelude::*;

verus! {

/// The stable identity of an interned backtrace.
///
/// Identifiers are given out from 1 upwards, in the order in which the
/// backtraces were first seen, by a counter of their own.
#[derive(Debug, Clone, Copy, PartialEq, Eq, Hash, Structural)]
pub struct BacktraceID(pub u64);

/// One interned call stack: its frames by identifier, top of stack first.
#[derive(Debug, Clone, PartialEq, Eq, Hash)]
pub struct Backtrace {
    pub id: BacktraceID,
    pub stack_frames: Vec<StackFrameID>,
}

/// What an interned backtrace holds, as mathematical values.
pub struct BacktraceView {
    pub id: BacktraceID,
    pub stack_frames: Seq<StackFrameID>,
}

impl View for Backtrace {
    type V = BacktraceView;

    open spec fn view(&self) -> BacktraceView {
        BacktraceView { id: self.id, stack_frames: self.stack_frames@ }
    }
}

/// The backtraces that a table of frame sequences stands for: the sequence at
/// position `i` is the backtrace with identifier `i + 1`.
pub open spec fn backtraces_of(table: Seq<Seq<StackFrameID>>) -> Seq<BacktraceView> {
    Seq::new(
        table.len(),
        |i: int| BacktraceView { id: BacktraceID((i + 1) as u64), stack_frames: table[i] },
    )
}

/// The number under which the lookup table files a frame sequence. Equal
/// sequences have equal digests; nothing else is asked of it.
spec fn digest(frames: Seq<StackFrameID>) -> u64
    decreases frames.len(),
{
    if frames.len() == 0 {
        0xcbf2_9ce4_8422_2325
    } else {
        (digest(frames.drop_last()) ^ frames.last().0).wrapping_mul(0x0000_0100_0000_01b3)
    }
}

fn digest_of(frames: &Vec<StackFrameID>) -> (d: u64)
    ensures
        d == digest(frames@),
{
    let mut d: u64 = 0xcbf2_9ce4_8422_2325;
    let mut i: usize = 0;
    while i < frames.len()
        invariant
            i <= frames.len(),
            d == digest(frames@.take(i as int)),
        decreases frames.len() - i,
    {
        proof {
            assert(frames@.take(i + 1).drop_last() =~= frames@.take(i as int));
        }
        d = (d ^ frames[i].0).wrapping_mul(0x0000_0100_0000_01b3);
        i = i + 1;
    }
    proof {
        assert(frames@.take(i as int) =~= frames@);
    }
    d
}

fn same_frames(a: &Vec<StackFrameID>, b: &Vec<StackFrameID>) -> (same: bool)
    ensures
        same <==> a@ == b@,
{
    if a.len() != b.len() {
        return false;
    }
    let mut i: usize = 0;
    while i < a.len()
        invariant
            i <= a.len(),
            a.len() == b.len(),
            forall|j: int| 0 <= j < i ==> a@[j] == b@[j],
        decreases a.len() - i,
    {
        if a[i].0 != b[i].0 {
            return false;
        }
        i = i + 1;
    }
    proof {
        assert(a@ =~= b@);
    }
    true
}

/// Gives each distinct sequence of stack frame identifiers one backtrace with
/// a stable identifier, in first-seen order.
///
/// The whole sequence is the lookup key: its length and each member at its
/// place. Two sequences with the same members in another order are two
/// backtraces.
pub struct BacktraceInterner {
    backtraces: Vec<Backtrace>,
    buckets: HashMap<u64, Vec<usize>>,
    next_id: BacktraceID,
}

impl View for BacktraceInterner {
    type V = Seq<Seq<StackFrameID>>;

    /// The frame sequences interned so far, in first-seen order.
    closed spec fn view(&self) -> Seq<Seq<StackFrameID>> {
        self.backtraces@.map_values(|backtrace: Backtrace| backtrace.stack_frames@)
    }
}

impl BacktraceInterner {
    /// The backtraces are numbered by position and repeat no sequence, every
    /// bucket of the lookup table holds positions of backtraces, every
    /// backtrace is filed in the bucket of its digest, and the counter is the
    /// next free identifier.
    pub closed spec fn wf(&self) -> bool {
        &&& self.next_id.0 == self.backtraces@.len() + 1
        &&& forall|i: int|
            0 <= i < self.backtraces@.len() ==> (#[trigger] self.backtraces@[i]).id.0 == i + 1
        &&& self@.no_duplicates()
        &&& forall|d: u64, k: int| #![trigger self.buckets@[d]@[k]]
            self.buckets@.contains_key(d) && 0 <= k < self.buckets@[d]@.len()
                ==> self.buckets@[d]@[k] < self@.len()
        &&& forall|position: usize| #![trigger self@[position as int]]
            position < self@.len() ==> self.buckets@.contains_key(digest(self@[position as int]))
                && self.buckets@[digest(self@[position as int])]@.contains(position)
    }

    /// A well-formed interner repeats no sequence and has given out fewer
    /// identifiers than there are 64-bit values above zero.
    pub proof fn lemma_wf(&self)
        requires
            self.wf(),
        ensures
            self@.no_duplicates(),
            self@.len() < u64::MAX,
    {
    }

    /// An interner that has seen nothing; its first identifier will be 1.
    pub fn new() -> (interner: BacktraceInterner)
        ensures
            interner.wf(),
            interner@ == Seq::<Seq<StackFrameID>>::empty(),
    {
        let interner = BacktraceInterner {
            backtraces: Vec::new(),
            buckets: HashMap::new(),
            next_id: BacktraceID(1),
        };
        assert(interner@ =~= Seq::<Seq<StackFrameID>>::empty());
        interner
    }

    /// The position of the backtrace with the frames `stack_frames`, if one
    /// was interned.
    fn find(&self, stack_frames: &Vec<StackFrameID>, d: u64) -> (found: Option<usize>)
        requires
            self.wf(),
            d == digest(stack_frames@),
        ensures
            found is Some <==> self@.contains(stack_frames@),
            found is Some ==> found->Some_0 < self@.len() && self@[found->Some_0 as int]
                == stack_frames@,
    {
        match self.buckets.get(&d) {
            None => {
                proof {
                    if self@.contains(stack_frames@) {
                        let i = choose|i: int| 0 <= i < self@.len() && self@[i] == stack_frames@;
                        assert(self@.len() == self.backtraces.len());
                        let position = i as usize;
                        assert(self.buckets@.contains_key(digest(self@[position as int])));
                    }
                }
                None
            },
            Some(bucket) => {
                let mut k: usize = 0;
                while k < bucket.len()
                    invariant
                        self.wf(),
                        k <= bucket.len(),
                        self.buckets@.contains_key(d),
                        *bucket == self.buckets@[d],
                        forall|j: int|
                            0 <= j < k ==> self@[(#[trigger] bucket@[j]) as int] != stack_frames@,
                    decreases bucket.len() - k,
                {
                    let position: usize = bucket[k];
                    assert(self.buckets@[d]@[k as int] < self@.len());
                    if same_frames(&self.backtraces[position].stack_frames, stack_frames) {
                        assert(self@[position as int] == stack_frames@);
                        return Some(position);
                    }
                    k = k + 1;
                }
                proof {
                    if self@.contains(stack_frames@) {
                        let i = choose|i: int| 0 <= i < self@.len() && self@[i] == stack_frames@;
                        assert(self@.len() == self.backtraces.len());
                        let position = i as usize;
                        assert(self.buckets@[digest(self@[position as int])]@.contains(position));
                        let j = choose|j: int| 0 <= j < bucket@.len() && bucket@[j] == position;
                        assert(self@[bucket@[j] as int] != stack_frames@);
                    }
                }
                None
            },
        }
    }

    /// Returns the identifier of the backtrace with the frames
    /// `stack_frames`, creating the backtrace if the sequence was never seen
    /// before.
    ///
    /// A known sequence gets the identifier it got the first time, and
    /// nothing changes. A new sequence gets the next identifier, and the
    /// counter advances by one. Where the counter cannot advance, the call
    /// fails and leaves the interner as it was.
    pub fn intern(&mut self, stack_frames: Vec<StackFrameID>) -> (result: Result<
        BacktraceID,
        IdentifierSpaceExhausted,
    >)
        requires
            old(self).wf(),
        ensures
            final(self).wf(),
            result is Ok <==> admits(old(self)@, stack_frames@),
            result is Ok ==> final(self)@ == interned(old(self)@, stack_frames@),
            result is Ok ==> result->Ok_0.0 == identifier(final(self)@, stack_frames@),
            result is Err ==> final(self)@ == old(self)@,
            result is Err ==> result->Err_0 == IdentifierSpaceExhausted::Backtraces,
    {
        let ghost table = self@;
        let ghost key = stack_frames@;
        let d = digest_of(&stack_frames);
        match self.find(&stack_frames, d) {
            Some(position) => {
                proof {
                    lemma_identifier_at(table, position as int);
                }
                return Ok(BacktraceID(self.backtraces[position].id.0));
            },
            None => {},
        }
        let id: u64 = self.next_id.0;
        match id.checked_add(1) {
            None => Err(IdentifierSpaceExhausted::Backtraces),
            Some(next) => {
                let position: usize = self.backtraces.len();
                self.backtraces.push(Backtrace { id: BacktraceID(id), stack_frames });
                let mut bucket = match self.buckets.remove(&d) {
                    Some(bucket) => bucket,
                    None => Vec::new(),
                };
                let ghost filed = bucket@;
                bucket.push(position);
                self.buckets.insert(d, bucket);
                self.next_id = BacktraceID(next);
                proof {
                    let grown = table.push(key);
                    assert(self@ =~= grown);
                    assert forall|i: int| 0 <= i < self.backtraces@.len() implies (
                    #[trigger] self.backtraces@[i]).id.0 == i + 1 by {
                        if i < table.len() {
                            assert(self.backtraces@[i] == old(self).backtraces@[i]);
                        }
                    }
                    lemma_interned_no_duplicates(table, key);
                    lemma_interned_identifier(table, key);
                    assert forall|e: u64, k: int| #![trigger self.buckets@[e]@[k]]
                        self.buckets@.contains_key(e) && 0 <= k < self.buckets@[e]@.len()
                        implies self.buckets@[e]@[k] < grown.len() by {
                        if e == d {
                            if k < filed.len() {
                                assert(old(self).buckets@[d]@[k] < table.len());
                            }
                        } else {
                            assert(old(self).buckets@[e]@[k] < table.len());
                        }
                    }
                    assert forall|p: usize| #![trigger grown[p as int]] p < grown.len() implies
                        self.buckets@.contains_key(digest(grown[p as int])) && self.buckets@[digest(
                        grown[p as int],
                    )]@.contains(p) by {
                        if p < table.len() {
                            assert(grown[p as int] == table[p as int]);
                            let e = digest(table[p as int]);
                            assert(old(self).buckets@[e]@.contains(p));
                            if e == d {
                                let k = choose|k: int| 0 <= k < filed.len() && filed[k] == p;
                                assert(filed.push(position)[k] == p);
                            }
                        } else {
                            assert(filed.push(position)[filed.len() as int] == p);
                        }
                    }
                }
                Ok(BacktraceID(id))
            },
        }
    }

    /// Hands out the interned backtraces, in first-seen order.
    pub fn into_backtraces(self) -> (backtraces: Vec<Backtrace>)
        requires
            self.wf(),
        ensures
            backtraces@.map_values(|backtrace: Backtrace| backtrace@) == backtraces_of(self@),
    {
        assert(self.backtraces@.map_values(|backtrace: Backtrace| backtrace@) =~= backtraces_of(
            self@,
        ));
        self.backtraces
    }
}

/// The order of the frames matters: for two different stack frames `x` and
/// `y`, the sequences `[x, y]` and `[y, x]`, interned one after the other
/// into any table, get two different identifiers.
pub proof fn lemma_order_matters(table: Seq<Seq<StackFrameID>>, x: StackFrameID, y: StackFrameID)
    requires
        table.no_duplicates(),
        x != y,
    ensures
        ({
            let after = interned(interned(table, seq![x, y]), seq![y, x]);
            identifier(after, seq![x, y]) != identifier(after, seq![y, x])
        }),
{
    let forward = seq![x, y];
    let backward = seq![y, x];
    assert(forward[0] != backward[0]);
    let first = interned(table, forward);
    let after = interned(first, backward);
    lemma_interned_contains(table, forward, forward);
    lemma_interned_contains(first, backward, forward);
    lemma_interned_contains(first, backward, backward);
    lemma_identifiers_differ(after, forward, backward);
}

} // verus!
