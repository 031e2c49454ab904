use vstd::prelude::*;

use crate::value::{views_of, AbsValue, ValueType};

verus! {

/// The model of a chunk: the instruction bytes, one source line per byte,
/// and the models of the constant pool entries.
pub struct ChunkView {
    pub code: Seq<u8>,
    pub lines: Seq<usize>,
    pub constants: Seq<AbsValue>,
}

impl ChunkView {
    /// Structural invariant: the line table runs exactly parallel to the
    /// instruction bytes.
    pub open spec fn wf(self) -> bool {
        self.code.len() == self.lines.len()
    }
}

/// The line table stays exactly parallel to the code across every emit: a
/// write appends one byte and one line together, so a chunk that was
/// well-formed stays well-formed, with one line per code byte.
pub proof fn lemma_lines_parallel(cv: ChunkView, byte: u8, line: usize)
    requires
        cv.wf(),
    ensures
        (ChunkView { code: cv.code.push(byte), lines: cv.lines.push(line), ..cv }).wf(),
        cv.code.len() == cv.lines.len(),
{
}

/// A unit of compiled code: instruction bytes interleaved with inline
/// operands, a per-byte source line table for diagnostics, and the constant
/// pool the operands index.
#[derive(Debug)]
pub struct Chunk {
    op_codes: Vec<u8>,
    lines: Vec<usize>,
    constants: Vec<ValueType>,
}

impl View for Chunk {
    type V = ChunkView;

    closed spec fn view(&self) -> ChunkView {
        ChunkView { code: self.op_codes@, lines: self.lines@, constants: views_of(self.constants@) }
    }
}

impl Chunk {
    pub fn new() -> (r: Self)
        ensures
            r@.code == Seq::<u8>::empty(),
            r@.lines == Seq::<usize>::empty(),
            r@.constants == Seq::<AbsValue>::empty(),
            r@.wf(),
    {
        let r = Chunk { op_codes: Vec::new(), lines: Vec::new(), constants: Vec::new() };
        proof {
            assert(r@.constants =~= Seq::<AbsValue>::empty());
        }
        r
    }

    pub fn op_codes(&self) -> (r: &Vec<u8>)
        ensures
            r@ == self@.code,
    {
        &self.op_codes
    }

    pub fn op_codes_len(&self) -> (r: usize)
        ensures
            r == self@.code.len(),
    {
        self.op_codes.len()
    }

    pub fn op_codes_at(&self, offset: usize) -> (r: u8)
        requires
            offset < self@.code.len(),
        ensures
            r == self@.code[offset as int],
    {
        self.op_codes[offset]
    }

    /// Overwrite one already-written instruction byte (used to patch the
    /// placeholder operands of a jump once its target is known).
    pub fn patch(&mut self, offset: usize, byte: u8)
        requires
            offset < old(self)@.code.len(),
        ensures
            final(self)@.code == old(self)@.code.update(offset as int, byte),
            final(self)@.lines == old(self)@.lines,
            final(self)@.constants == old(self)@.constants,
    {
        self.op_codes[offset] = byte;
    }

    pub fn line_from_offset(&self, offset: usize) -> (r: usize)
        requires
            offset < self@.lines.len(),
        ensures
            r == self@.lines[offset as int],
    {
        self.lines[offset]
    }

    pub fn constants_len(&self) -> (r: usize)
        ensures
            r == self@.constants.len(),
    {
        self.constants.len()
    }

    /// A copy of the constant at the given index; its model is the pool
    /// entry's model.
    pub fn get_constant(&self, idx: usize) -> (r: ValueType)
        requires
            idx < self@.constants.len(),
        ensures
            r@ == self@.constants[idx as int],
    {
        self.constants[idx].clone_value()
    }

    /// Append one byte of code together with the source line it came from.
    pub fn write(&mut self, byte: u8, line: usize)
        ensures
            final(self)@.code == old(self)@.code.push(byte),
            final(self)@.lines == old(self)@.lines.push(line),
            final(self)@.constants == old(self)@.constants,
            old(self)@.wf() ==> final(self)@.wf(),
    {
        self.op_codes.push(byte);
        self.lines.push(line);
    }

    /// Append a value to the constant pool and return its index.
    pub fn add_constant(&mut self, value: ValueType) -> (r: usize)
        ensures
            final(self)@.constants == old(self)@.constants.push(value@),
            final(self)@.code == old(self)@.code,
            final(self)@.lines == old(self)@.lines,
            r == old(self)@.constants.len(),
    {
        let ghost old_view = views_of(self.constants@);
        let idx = self.constants.len();
        self.constants.push(value);
        proof {
            assert(views_of(self.constants@) =~= old_view.push(value@));
        }
        idx
    }
}

} // verus!
