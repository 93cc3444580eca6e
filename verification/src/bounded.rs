//! Fixed-capacity sequences that live on the stack.
//!
//! The cells are `stack_vec` vectors. This module states what the vector
//! operations it relies on do, and builds on them the checked interface that
//! the rest of the crate uses: `push` reports `Overflow`, `pop` reports
//! `Underflow`, and neither changes anything when it fails.

use stack_vec::{StackVec512, StackVec64};
use vstd::prelude::*;
use vstd::slice::slice_subrange;

verus! {

/// Number of bytes a [`LineBuf`] can hold.
pub const LINE_CAPACITY: usize = 512;

/// Number of words an [`ArgVec`] can hold.
pub const ARG_CAPACITY: usize = 64;

/// A `push` found the sequence full.
#[derive(Debug, Clone, Copy, PartialEq, Eq, Structural)]
pub struct Overflow;

/// A `pop` found the sequence empty.
#[derive(Debug, Clone, Copy, PartialEq, Eq, Structural)]
pub struct Underflow;

/// One operation on a bounded sequence.
pub enum Op<T> {
    Push(T),
    Pop,
}

/// Whether a sequence kept within `cap` items can take one more.
pub open spec fn has_room<T>(s: Seq<T>, cap: nat) -> bool {
    s.len() < cap
}

/// What a sequence kept within `cap` items holds after an attempt to append
/// `item`: the item is added at the end if there is room, and nothing
/// changes if there is none.
pub open spec fn after_push<T>(s: Seq<T>, cap: nat, item: T) -> Seq<T> {
    if has_room(s, cap) {
        s.push(item)
    } else {
        s
    }
}

/// What a sequence holds after an attempt to remove its last item.
pub open spec fn after_pop<T>(s: Seq<T>) -> Seq<T> {
    if s.len() > 0 {
        s.drop_last()
    } else {
        s
    }
}

/// The effect of one operation.
pub open spec fn apply<T>(s: Seq<T>, cap: nat, op: Op<T>) -> Seq<T> {
    match op {
        Op::Push(item) => after_push(s, cap, item),
        Op::Pop => after_pop(s),
    }
}

/// The effect of a run of operations, first to last.
pub open spec fn apply_all<T>(s: Seq<T>, cap: nat, ops: Seq<Op<T>>) -> Seq<T>
    decreases ops.len(),
{
    if ops.len() == 0 {
        s
    } else {
        apply(apply_all(s, cap, ops.drop_last()), cap, ops.last())
    }
}

/// No run of pushes and pops takes a sequence past its capacity.
pub proof fn lemma_capacity_kept<T>(s: Seq<T>, cap: nat, ops: Seq<Op<T>>)
    requires
        s.len() <= cap,
    ensures
        apply_all(s, cap, ops).len() <= cap,
    decreases ops.len(),
{
    if ops.len() > 0 {
        lemma_capacity_kept(s, cap, ops.drop_last());
    }
}

/// A push onto a full sequence changes neither its length nor its items.
pub proof fn lemma_full_push_keeps<T>(s: Seq<T>, cap: nat, item: T)
    requires
        s.len() >= cap,
    ensures
        !has_room(s, cap),
        after_push(s, cap, item) == s,
{
}

/// A push with room left followed by a pop gives back the sequence.
pub proof fn lemma_push_then_pop<T>(s: Seq<T>, cap: nat, item: T)
    requires
        s.len() < cap,
    ensures
        after_pop(after_push(s, cap, item)) == s,
        after_push(s, cap, item).last() == item,
{
    assert(s.push(item).drop_last() =~= s);
}

/// Room for 512 bytes on the stack, kept in a `stack_vec::StackVec512`.
#[verifier::external_body]
pub struct ByteCells {
    cells: StackVec512<u8>,
}

/// The bytes that the cells hold, oldest first.
pub uninterp spec fn bytes_of(v: ByteCells) -> Seq<u8>;

/// `StackVec512::new`: cells that hold nothing.
#[verifier::external_body]
fn bytes_new() -> (v: ByteCells)
    ensures
        bytes_of(v) == Seq::<u8>::empty(),
{
    ByteCells { cells: StackVec512::new() }
}

/// `StackVec512::try_push`: appends the byte while fewer than 512 are held;
/// when 512 are held it hands the byte back and leaves the cells as they were.
#[verifier::external_body]
fn bytes_try_push(v: &mut ByteCells, byte: u8) -> (r: Result<(), u8>)
    ensures
        bytes_of(*final(v)) == after_push(bytes_of(*old(v)), 512, byte),
        r is Ok == has_room(bytes_of(*old(v)), 512),
    no_unwind
{
    v.cells.try_push(byte)
}

/// `StackVec512::as_slice`: the bytes held, oldest first.
#[verifier::external_body]
fn bytes_as_slice(v: &ByteCells) -> (r: &[u8])
    ensures
        r@ == bytes_of(*v),
{
    v.cells.as_slice()
}

/// `StackVec512::extend_from_slice_copy`, called only where all of `src`
/// fits: appends the bytes of `src` in order and returns how many they are.
#[verifier::external_body]
fn bytes_extend(v: &mut ByteCells, src: &[u8]) -> (n: usize)
    requires
        bytes_of(*old(v)).len() + src@.len() <= 512,
    ensures
        bytes_of(*final(v)) == bytes_of(*old(v)) + src@,
        n == src@.len(),
{
    v.cells.extend_from_slice_copy(src)
}

/// A sequence of at most 512 bytes: the line that is being typed.
pub struct LineBuf {
    cells: ByteCells,
}

impl View for LineBuf {
    type V = Seq<u8>;

    closed spec fn view(&self) -> Seq<u8> {
        bytes_of(self.cells)
    }
}

impl LineBuf {
    #[verifier::type_invariant]
    spec fn within_capacity(&self) -> bool {
        bytes_of(self.cells).len() <= LINE_CAPACITY
    }

    /// An empty buffer.
    pub fn new() -> (b: LineBuf)
        ensures
            b@ == Seq::<u8>::empty(),
    {
        LineBuf { cells: bytes_new() }
    }

    /// The bytes held, in the order in which they were pushed.
    pub fn as_slice(&self) -> (s: &[u8])
        ensures
            s@ == self@,
            s@.len() <= LINE_CAPACITY,
    {
        proof {
            use_type_invariant(self);
        }
        bytes_as_slice(&self.cells)
    }

    /// Number of bytes held; never more than the capacity.
    pub fn len(&self) -> (n: usize)
        ensures
            n == self@.len(),
            n <= LINE_CAPACITY,
    {
        self.as_slice().len()
    }

    /// Whether no byte is held.
    pub fn is_empty(&self) -> (e: bool)
        ensures
            e == (self@.len() == 0),
    {
        self.as_slice().len() == 0
    }

    /// Appends `byte`, or reports `Overflow` and changes nothing when 512
    /// bytes are held already.
    pub fn push(&mut self, byte: u8) -> (r: Result<(), Overflow>)
        ensures
            final(self)@ == after_push(old(self)@, LINE_CAPACITY as nat, byte),
            r is Ok <==> has_room(old(self)@, LINE_CAPACITY as nat),
    {
        proof {
            use_type_invariant(&*self);
        }
        match bytes_try_push(&mut self.cells, byte) {
            Ok(()) => Ok(()),
            Err(_) => Err(Overflow),
        }
    }

    /// Removes the byte pushed last and returns it, or reports `Underflow`
    /// and changes nothing when no byte is held.
    ///
    /// The cells cannot shrink, so the bytes that stay are copied into fresh
    /// cells: the cost grows with the length of the line.
    pub fn pop(&mut self) -> (r: Result<u8, Underflow>)
        ensures
            final(self)@ == after_pop(old(self)@),
            r is Ok <==> old(self)@.len() > 0,
            r matches Ok(byte) ==> byte == old(self)@.last(),
    {
        proof {
            use_type_invariant(&*self);
        }
        let held = bytes_as_slice(&self.cells);
        let n = held.len();
        if n == 0 {
            return Err(Underflow);
        }
        let last = held[n - 1];
        let mut shorter = bytes_new();
        let kept = bytes_extend(&mut shorter, slice_subrange(held, 0, n - 1));
        assert(bytes_of(shorter) =~= old(self)@.drop_last());
        self.cells = shorter;
        Ok(last)
    }
}

/// Room for 64 string slices on the stack, kept in a `stack_vec::StackVec64`.
#[verifier::external_body]
pub struct WordCells<'a> {
    cells: StackVec64<&'a str>,
}

/// The text of each string slice that the cells hold, oldest first.
pub uninterp spec fn words_of(v: WordCells) -> Seq<Seq<char>>;

/// `StackVec64::new`: cells that hold nothing.
#[verifier::external_body]
fn words_new<'a>() -> (v: WordCells<'a>)
    ensures
        words_of(v) == Seq::<Seq<char>>::empty(),
{
    WordCells { cells: StackVec64::new() }
}

/// `StackVec64::try_push`: appends the slice while fewer than 64 are held;
/// when 64 are held it hands the slice back and leaves the cells as they were.
#[verifier::external_body]
fn words_try_push<'a>(v: &mut WordCells<'a>, word: &'a str) -> (r: Result<(), &'a str>)
    ensures
        words_of(*final(v)) == after_push(words_of(*old(v)), 64, word@),
        r is Ok == has_room(words_of(*old(v)), 64),
    no_unwind
{
    v.cells.try_push(word)
}

/// `StackVec64::as_slice`: the slices held, oldest first.
#[verifier::external_body]
fn words_as_slice<'a, 'b>(v: &'b WordCells<'a>) -> (r: &'b [&'a str])
    ensures
        r@.len() == words_of(*v).len(),
        forall|i: int| 0 <= i < r@.len() ==> (#[trigger] r@[i])@ == words_of(*v)[i],
{
    v.cells.as_slice()
}

/// A sequence of at most 64 words, each a slice of one line of text.
pub struct ArgVec<'a> {
    cells: WordCells<'a>,
}

impl<'a> View for ArgVec<'a> {
    type V = Seq<Seq<char>>;

    closed spec fn view(&self) -> Seq<Seq<char>> {
        words_of(self.cells)
    }
}

impl<'a> ArgVec<'a> {
    #[verifier::type_invariant]
    spec fn within_capacity(&self) -> bool {
        words_of(self.cells).len() <= ARG_CAPACITY
    }

    /// An empty sequence.
    pub fn new() -> (v: ArgVec<'a>)
        ensures
            v@ == Seq::<Seq<char>>::empty(),
    {
        ArgVec { cells: words_new() }
    }

    /// The words held, in the order in which they were pushed.
    pub fn as_slice(&self) -> (s: &[&'a str])
        ensures
            s@.len() == self@.len(),
            s@.len() <= ARG_CAPACITY,
            forall|i: int| 0 <= i < s@.len() ==> (#[trigger] s@[i])@ == self@[i],
    {
        proof {
            use_type_invariant(self);
        }
        words_as_slice(&self.cells)
    }

    /// Number of words held; never more than the capacity.
    pub fn len(&self) -> (n: usize)
        ensures
            n == self@.len(),
            n <= ARG_CAPACITY,
    {
        self.as_slice().len()
    }

    /// Whether no word is held.
    pub fn is_empty(&self) -> (e: bool)
        ensures
            e == (self@.len() == 0),
    {
        self.as_slice().len() == 0
    }

    /// Appends `word`, or reports `Overflow` and changes nothing when 64
    /// words are held already.
    pub fn push(&mut self, word: &'a str) -> (r: Result<(), Overflow>)
        ensures
            final(self)@ == after_push(old(self)@, ARG_CAPACITY as nat, word@),
            r is Ok <==> has_room(old(self)@, ARG_CAPACITY as nat),
    {
        proof {
            use_type_invariant(&*self);
        }
        match words_try_push(&mut self.cells, word) {
            Ok(()) => Ok(()),
            Err(_) => Err(Overflow),
        }
    }
}

} // verus!
