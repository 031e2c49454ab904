use vstd::prelude::*;

use crate::chunk::{Chunk, ChunkView};
use crate::diag::{DiagWhere, Diagnostic};
use crate::number::is_number_text;
use crate::opcode::OpCode;
use crate::scanner::{spec_next_token, Scanner};
use crate::token::{Token, TokenType};
use crate::value::{AbsValue, ValueType};
use crate::vm::spec_jump_operand;

verus! {

// ---------------------------------------------------------------------------
// Well-formed bytecode: the code splits into whole instructions, every
// constant operand indexes the pool, and every jump operand is either still
// an unpatched placeholder or lands inside the code.
// ---------------------------------------------------------------------------
/// The opcode at position `s` (meaningful where the byte decodes).
pub open spec fn op_at(code: Seq<u8>, s: int) -> OpCode {
    OpCode::spec_decode(code[s])->Ok_0
}

/// The instruction starting at `s` is whole and its operands are sound.
/// `pending` holds the operand offsets of jumps not yet patched.
pub open spec fn instr_ok(cv: ChunkView, s: int, pending: Set<int>) -> bool {
    &&& 0 <= s < cv.code.len()
    &&& OpCode::spec_decode(cv.code[s]) is Ok
    &&& s + 1 + op_at(cv.code, s).spec_operand_count() <= cv.code.len()
    &&& (op_at(cv.code, s).spec_uses_constant() ==> cv.code[s + 1] < cv.constants.len())
    &&& !(op_at(cv.code, s) matches OpCode::LOOP)
    &&& ((op_at(cv.code, s) matches OpCode::JUMP || op_at(cv.code, s)
        matches OpCode::JumpIfFalse) ==> (pending.contains(s + 1) || s + 3 + spec_jump_operand(
        cv.code,
        s,
    ) <= cv.code.len()))
}

/// `starts` are the instruction boundaries: position 0, then one step per
/// whole instruction, ending exactly at the end of the code.
pub open spec fn boundaries_ok(cv: ChunkView, starts: Seq<int>, pending: Set<int>) -> bool {
    &&& starts.len() >= 1
    &&& starts[0] == 0
    &&& starts.last() == cv.code.len()
    &&& forall|k: int|
        #![trigger starts[k]]
        0 <= k < starts.len() - 1 ==> starts[k + 1] == starts[k] + 1 + op_at(
            cv.code,
            starts[k],
        ).spec_operand_count() && instr_ok(cv, starts[k], pending)
}

/// Every pending offset is the operand position of some jump instruction.
pub open spec fn pending_ok(cv: ChunkView, starts: Seq<int>, pending: Set<int>) -> bool {
    forall|o: int| #[trigger]
        pending.contains(o) ==> exists|k: int|
            0 <= k < starts.len() - 1 && #[trigger] starts[k] == o - 1 && (op_at(cv.code, o - 1)
                matches OpCode::JUMP || op_at(cv.code, o - 1) matches OpCode::JumpIfFalse)
}

/// The net effect on the stack height of instructions `k1 .. k2`.
pub open spec fn delta_sum(code: Seq<u8>, starts: Seq<int>, k1: int, k2: int) -> int
    decreases k2 - k1,
{
    if k1 >= k2 {
        0
    } else {
        op_at(code, starts[k1]).spec_stack_delta() + delta_sum(code, starts, k1 + 1, k2)
    }
}

/// `starts2` extends `starts1` without disturbing it.
pub open spec fn starts_extend(starts1: Seq<int>, starts2: Seq<int>) -> bool {
    &&& starts1.len() <= starts2.len()
    &&& forall|k: int| 0 <= k < starts1.len() ==> starts2[k] == #[trigger] starts1[k]
}

/// The opcodes of the instructions bounded by `starts1` read the same in
/// `code2` as in `code1`.
pub open spec fn ops_stable(code1: Seq<u8>, starts1: Seq<int>, code2: Seq<u8>) -> bool {
    forall|k: int|
        0 <= k < starts1.len() - 1 ==> op_at(code2, #[trigger] starts1[k]) == op_at(
            code1,
            starts1[k],
        )
}

proof fn lemma_starts_gaps(cv: ChunkView, starts: Seq<int>, pending: Set<int>, i: int, j: int)
    requires
        boundaries_ok(cv, starts, pending),
        0 <= i <= j < starts.len(),
    ensures
        starts[i] + (j - i) <= starts[j],
    decreases j - i,
{
    if i < j {
        lemma_starts_gaps(cv, starts, pending, i, j - 1);
        assert(starts[j] == starts[j - 1] + 1 + op_at(cv.code, starts[j - 1]).spec_operand_count());
    }
}

proof fn lemma_delta_sum_concat(code: Seq<u8>, starts: Seq<int>, k1: int, k2: int, k3: int)
    requires
        k1 <= k2 <= k3,
    ensures
        delta_sum(code, starts, k1, k3) == delta_sum(code, starts, k1, k2) + delta_sum(
            code,
            starts,
            k2,
            k3,
        ),
    decreases k2 - k1,
{
    if k1 < k2 {
        lemma_delta_sum_concat(code, starts, k1 + 1, k2, k3);
    }
}

proof fn lemma_delta_sum_stable(
    code1: Seq<u8>,
    starts1: Seq<int>,
    code2: Seq<u8>,
    starts2: Seq<int>,
    k1: int,
    k2: int,
)
    requires
        ops_stable(code1, starts1, code2),
        starts_extend(starts1, starts2),
        0 <= k1 <= k2 <= starts1.len() - 1,
    ensures
        delta_sum(code2, starts2, k1, k2) == delta_sum(code1, starts1, k1, k2),
    decreases k2 - k1,
{
    if k1 < k2 {
        lemma_delta_sum_stable(code1, starts1, code2, starts2, k1 + 1, k2);
        assert(starts2[k1] == starts1[k1]);
    }
}

/// Extending the code and pool, without touching what is already written,
/// keeps every earlier instruction sound.
proof fn lemma_instr_ok_extend(
    cv1: ChunkView,
    cv2: ChunkView,
    s: int,
    pending1: Set<int>,
    pending2: Set<int>,
)
    requires
        instr_ok(cv1, s, pending1),
        cv1.code.len() <= cv2.code.len(),
        forall|i: int| 0 <= i < cv1.code.len() ==> cv2.code[i] == cv1.code[i],
        cv1.constants.len() <= cv2.constants.len(),
        forall|o: int| pending1.contains(o) ==> pending2.contains(o),
    ensures
        instr_ok(cv2, s, pending2),
{
    assert(cv2.code[s] == cv1.code[s]);
    let op = op_at(cv1.code, s);
    if op.spec_operand_count() >= 1 {
        assert(cv2.code[s + 1] == cv1.code[s + 1]);
    }
    if op.spec_operand_count() >= 2 {
        assert(cv2.code[s + 2] == cv1.code[s + 2]);
    }
}

/// As `lemma_instr_ok_extend`, lifted to all boundaries.
proof fn lemma_boundaries_extend(
    cv1: ChunkView,
    cv2: ChunkView,
    starts: Seq<int>,
    pending1: Set<int>,
    pending2: Set<int>,
)
    requires
        boundaries_ok(cv1, starts, pending1),
        cv1.code.len() <= cv2.code.len(),
        forall|i: int| 0 <= i < cv1.code.len() ==> cv2.code[i] == cv1.code[i],
        cv1.constants.len() <= cv2.constants.len(),
        forall|o: int| pending1.contains(o) ==> pending2.contains(o),
    ensures
        forall|k: int|
            #![trigger starts[k]]
            0 <= k < starts.len() - 1 ==> starts[k + 1] == starts[k] + 1 + op_at(
                cv2.code,
                starts[k],
            ).spec_operand_count() && instr_ok(cv2, starts[k], pending2),
        ops_stable(cv1.code, starts, cv2.code),
{
    assert forall|k: int| 0 <= k < starts.len() - 1 implies #[trigger] starts[k + 1] == starts[k]
        + 1 + op_at(cv2.code, starts[k]).spec_operand_count() && instr_ok(
        cv2,
        starts[k],
        pending2,
    ) by {
        assert(instr_ok(cv1, starts[k], pending1));
        lemma_instr_ok_extend(cv1, cv2, starts[k], pending1, pending2);
        assert(cv2.code[starts[k]] == cv1.code[starts[k]]);
    }
    assert forall|k: int| 0 <= k < starts.len() - 1 implies op_at(
        cv2.code,
        #[trigger] starts[k],
    ) == op_at(cv1.code, starts[k]) by {
        assert(instr_ok(cv1, starts[k], pending1));
        assert(cv2.code[starts[k]] == cv1.code[starts[k]]);
    }
}

// ---------------------------------------------------------------------------
// The code generator: a chunk together with the ghost instruction
// boundaries and the set of jumps awaiting their target.
// ---------------------------------------------------------------------------
pub struct CodeGen {
    chunk: Chunk,
    starts: Ghost<Seq<int>>,
    pending: Ghost<Set<int>>,
}

impl CodeGen {
    pub closed spec fn cv(&self) -> ChunkView {
        self.chunk@
    }

    pub closed spec fn starts(&self) -> Seq<int> {
        self.starts@
    }

    pub closed spec fn pending(&self) -> Set<int> {
        self.pending@
    }

    /// The number of whole instructions written so far.
    pub open spec fn instr_count(&self) -> int {
        self.starts().len() - 1
    }

    pub open spec fn wf(&self) -> bool {
        &&& self.cv().wf()
        &&& boundaries_ok(self.cv(), self.starts(), self.pending())
        &&& pending_ok(self.cv(), self.starts(), self.pending())
    }

    /// What every write to the generator preserves: instructions already
    /// written stay, their opcodes stay, the pool only grows.
    pub open spec fn extends(pre: CodeGen, post: CodeGen) -> bool {
        &&& starts_extend(pre.starts(), post.starts())
        &&& ops_stable(pre.cv().code, pre.starts(), post.cv().code)
        &&& pre.cv().code.len() <= post.cv().code.len()
        &&& pre.cv().constants.len() <= post.cv().constants.len()
        &&& forall|i: int|
            0 <= i < pre.cv().constants.len() ==> post.cv().constants[i] == pre.cv().constants[i]
    }

    pub fn new() -> (r: Self)
        ensures
            r.wf(),
            r.cv().code.len() == 0,
            r.cv().constants.len() == 0,
            r.instr_count() == 0,
            r.pending() == Set::<int>::empty(),
    {
        let r = CodeGen {
            chunk: Chunk::new(),
            starts: Ghost(Seq::<int>::empty().push(0int)),
            pending: Ghost(Set::empty()),
        };
        proof {
            assert(r.starts@ =~= seq![0int]);
        }
        proof {
            assert(boundaries_ok(r.chunk@, r.starts@, r.pending@));
            assert(pending_ok(r.chunk@, r.starts@, r.pending@));
        }
        r
    }

    pub fn code_len(&self) -> (r: usize)
        ensures
            r == self.cv().code.len(),
    {
        self.chunk.op_codes_len()
    }

    pub fn constants_len(&self) -> (r: usize)
        ensures
            r == self.cv().constants.len(),
    {
        self.chunk.constants_len()
    }

    /// Hand the finished chunk over.
    pub fn into_chunk(self) -> (r: Chunk)
        ensures
            r@ == self.cv(),
    {
        self.chunk
    }

    /// Append a value to the constant pool.
    pub fn add_const(&mut self, value: ValueType) -> (r: usize)
        requires
            old(self).wf(),
        ensures
            final(self).wf(),
            CodeGen::extends(*old(self), *final(self)),
            final(self).cv().constants == old(self).cv().constants.push(value@),
            final(self).cv().code == old(self).cv().code,
            final(self).cv().lines == old(self).cv().lines,
            final(self).starts() == old(self).starts(),
            final(self).pending() == old(self).pending(),
            r == old(self).cv().constants.len(),
    {
        let idx = self.chunk.add_constant(value);
        proof {
            lemma_boundaries_extend(
                old(self).cv(),
                self.cv(),
                self.starts@,
                self.pending@,
                self.pending@,
            );
        }
        idx
    }

    /// Emit one instruction that has no operand.
    #[verifier::rlimit(100)]
    #[verifier::spinoff_prover]
    pub fn emit_op(&mut self, op: OpCode, line: usize)
        requires
            old(self).wf(),
            op.spec_operand_count() == 0,
            !(op matches OpCode::LOOP),
        ensures
            final(self).wf(),
            CodeGen::extends(*old(self), *final(self)),
            final(self).cv().code == old(self).cv().code.push(op.spec_byte()),
            final(self).cv().lines == old(self).cv().lines.push(line),
            final(self).cv().constants == old(self).cv().constants,
            final(self).instr_count() == old(self).instr_count() + 1,
            final(self).pending() == old(self).pending(),
            op_at(final(self).cv().code, old(self).cv().code.len() as int) == op,
            delta_sum(
                final(self).cv().code,
                final(self).starts(),
                old(self).instr_count(),
                final(self).instr_count(),
            ) == op.spec_stack_delta(),
    {
        let ghost s = self.chunk@.code.len() as int;
        self.chunk.write(op.as_byte(), line);
        proof {
            lemma_boundaries_extend(
                old(self).cv(),
                self.cv(),
                self.starts@,
                self.pending@,
                self.pending@,
            );
            crate::opcode::lemma_opcode_round_trip(op);
        }
        self.starts = Ghost(self.starts@.push(s + 1));
        proof {
            let cv = self.cv();
            let st = self.starts@;
            assert(st.last() == cv.code.len());
            assert(st[0] == 0);
            assert(instr_ok(cv, s, self.pending@));
            assert forall|k: int| 0 <= k < st.len() - 1 implies #[trigger] st[k + 1] == st[k] + 1
                + op_at(cv.code, st[k]).spec_operand_count() && instr_ok(
                cv,
                st[k],
                self.pending@,
            ) by {
                if k < st.len() - 2 {
                    assert(st[k] == old(self).starts()[k]);
                    assert(st[k + 1] == old(self).starts()[k + 1]);
                } else {
                    assert(st[k] == s);
                }
            }
            assert(boundaries_ok(cv, st, self.pending@));
            assert(pending_ok(cv, st, self.pending@)) by {
                assert forall|o: int| #[trigger] self.pending@.contains(o) implies exists|k: int|
                    0 <= k < st.len() - 1 && #[trigger] st[k] == o - 1 && (op_at(cv.code, o - 1)
                        matches OpCode::JUMP || op_at(cv.code, o - 1)
                        matches OpCode::JumpIfFalse) by {
                    let k = choose|k: int|
                        0 <= k < old(self).starts().len() - 1 && #[trigger] old(self).starts()[k]
                            == o - 1 && (op_at(old(self).cv().code, o - 1) matches OpCode::JUMP
                            || op_at(old(self).cv().code, o - 1) matches OpCode::JumpIfFalse);
                    assert(st[k] == o - 1);
                    assert(cv.code[o - 1] == old(self).cv().code[o - 1]) by {
                        lemma_starts_gaps(
                            old(self).cv(),
                            old(self).starts(),
                            old(self).pending(),
                            k,
                            old(self).starts().len() - 1,
                        );
                    }
                }
            }
            assert(delta_sum(cv.code, st, old(self).instr_count(), self.instr_count())
                == op.spec_stack_delta()) by {
                assert(st[old(self).instr_count()] == s);
                assert(delta_sum(cv.code, st, old(self).instr_count() + 1, self.instr_count())
                    == 0);
            }
        }
    }

    /// Emit one instruction with a one-byte operand. A constant-family
    /// opcode must carry an index into the pool.
    #[verifier::rlimit(100)]
    #[verifier::spinoff_prover]
    pub fn emit_op_u8(&mut self, op: OpCode, operand: u8, line: usize)
        requires
            old(self).wf(),
            op.spec_operand_count() == 1,
            op.spec_uses_constant() ==> operand < old(self).cv().constants.len(),
        ensures
            final(self).wf(),
            CodeGen::extends(*old(self), *final(self)),
            final(self).cv().code == old(self).cv().code.push(op.spec_byte()).push(operand),
            final(self).cv().lines == old(self).cv().lines.push(line).push(line),
            final(self).cv().constants == old(self).cv().constants,
            final(self).instr_count() == old(self).instr_count() + 1,
            final(self).pending() == old(self).pending(),
            delta_sum(
                final(self).cv().code,
                final(self).starts(),
                old(self).instr_count(),
                final(self).instr_count(),
            ) == op.spec_stack_delta(),
    {
        let ghost s = self.chunk@.code.len() as int;
        self.chunk.write(op.as_byte(), line);
        self.chunk.write(operand, line);
        proof {
            lemma_boundaries_extend(
                old(self).cv(),
                self.cv(),
                self.starts@,
                self.pending@,
                self.pending@,
            );
            crate::opcode::lemma_opcode_round_trip(op);
        }
        self.starts = Ghost(self.starts@.push(s + 2));
        proof {
            let cv = self.cv();
            let st = self.starts@;
            assert(cv.code[s] == op.spec_byte());
            assert(cv.code[s + 1] == operand);
            assert(instr_ok(cv, s, self.pending@));
            assert forall|k: int| 0 <= k < st.len() - 1 implies #[trigger] st[k + 1] == st[k] + 1
                + op_at(cv.code, st[k]).spec_operand_count() && instr_ok(
                cv,
                st[k],
                self.pending@,
            ) by {
                if k < st.len() - 2 {
                    assert(st[k] == old(self).starts()[k]);
                    assert(st[k + 1] == old(self).starts()[k + 1]);
                } else {
                    assert(st[k] == s);
                }
            }
            assert(boundaries_ok(cv, st, self.pending@));
            assert(pending_ok(cv, st, self.pending@)) by {
                assert forall|o: int| #[trigger] self.pending@.contains(o) implies exists|k: int|
                    0 <= k < st.len() - 1 && #[trigger] st[k] == o - 1 && (op_at(cv.code, o - 1)
                        matches OpCode::JUMP || op_at(cv.code, o - 1)
                        matches OpCode::JumpIfFalse) by {
                    let k = choose|k: int|
                        0 <= k < old(self).starts().len() - 1 && #[trigger] old(self).starts()[k]
                            == o - 1 && (op_at(old(self).cv().code, o - 1) matches OpCode::JUMP
                            || op_at(old(self).cv().code, o - 1) matches OpCode::JumpIfFalse);
                    assert(st[k] == o - 1);
                    assert(cv.code[o - 1] == old(self).cv().code[o - 1]) by {
                        lemma_starts_gaps(
                            old(self).cv(),
                            old(self).starts(),
                            old(self).pending(),
                            k,
                            old(self).starts().len() - 1,
                        );
                    }
                }
            }
            assert(delta_sum(cv.code, st, old(self).instr_count(), self.instr_count())
                == op.spec_stack_delta()) by {
                assert(st[old(self).instr_count()] == s);
                assert(delta_sum(cv.code, st, old(self).instr_count() + 1, self.instr_count())
                    == 0);
            }
        }
    }

    /// Emit a jump with a placeholder operand; the returned offset is where
    /// `patch_jump_at` later writes the target.
    #[verifier::rlimit(100)]
    #[verifier::spinoff_prover]
    pub fn emit_jump_op(&mut self, op: OpCode, line: usize) -> (offset: usize)
        requires
            old(self).wf(),
            op matches OpCode::JUMP || op matches OpCode::JumpIfFalse,
            old(self).cv().code.len() + 3 <= usize::MAX,
        ensures
            final(self).wf(),
            CodeGen::extends(*old(self), *final(self)),
            final(self).cv().code == old(self).cv().code.push(op.spec_byte()).push(255u8).push(
                255u8,
            ),
            final(self).cv().lines == old(self).cv().lines.push(line).push(line).push(line),
            final(self).cv().constants == old(self).cv().constants,
            final(self).instr_count() == old(self).instr_count() + 1,
            offset == old(self).cv().code.len() + 1,
            final(self).pending() == old(self).pending().insert(offset as int),
            !old(self).pending().contains(offset as int),
            delta_sum(
                final(self).cv().code,
                final(self).starts(),
                old(self).instr_count(),
                final(self).instr_count(),
            ) == op.spec_stack_delta(),
    {
        let ghost s = self.chunk@.code.len() as int;
        let offset = self.chunk.op_codes_len() + 1;
        self.chunk.write(op.as_byte(), line);
        self.chunk.write(255, line);
        self.chunk.write(255, line);
        proof {
            // A pending offset is an operand position of an existing jump,
            // which lies strictly inside the old code; the new one is past
            // its end.
            assert(!old(self).pending().contains(s + 1)) by {
                if old(self).pending().contains(s + 1) {
                    let k = choose|k: int|
                        0 <= k < old(self).starts().len() - 1 && #[trigger] old(self).starts()[k]
                            == s && (op_at(old(self).cv().code, s) matches OpCode::JUMP || op_at(
                            old(self).cv().code,
                            s,
                        ) matches OpCode::JumpIfFalse);
                    lemma_starts_gaps(
                        old(self).cv(),
                        old(self).starts(),
                        old(self).pending(),
                        k,
                        old(self).starts().len() - 1,
                    );
                }
            }
            lemma_boundaries_extend(
                old(self).cv(),
                self.cv(),
                self.starts@,
                self.pending@,
                self.pending@.insert(s + 1),
            );
            crate::opcode::lemma_opcode_round_trip(op);
        }
        self.starts = Ghost(self.starts@.push(s + 3));
        self.pending = Ghost(self.pending@.insert(s + 1));
        proof {
            let cv = self.cv();
            let st = self.starts@;
            assert(cv.code[s] == op.spec_byte());
            assert(instr_ok(cv, s, self.pending@)) by {
                assert(self.pending@.contains(s + 1));
            }
            assert forall|k: int| 0 <= k < st.len() - 1 implies #[trigger] st[k + 1] == st[k] + 1
                + op_at(cv.code, st[k]).spec_operand_count() && instr_ok(
                cv,
                st[k],
                self.pending@,
            ) by {
                if k < st.len() - 2 {
                    assert(st[k] == old(self).starts()[k]);
                    assert(st[k + 1] == old(self).starts()[k + 1]);
                } else {
                    assert(st[k] == s);
                }
            }
            assert(boundaries_ok(cv, st, self.pending@));
            assert(pending_ok(cv, st, self.pending@)) by {
                assert forall|o: int| #[trigger] self.pending@.contains(o) implies exists|k: int|
                    0 <= k < st.len() - 1 && #[trigger] st[k] == o - 1 && (op_at(cv.code, o - 1)
                        matches OpCode::JUMP || op_at(cv.code, o - 1)
                        matches OpCode::JumpIfFalse) by {
                    if o == s + 1 {
                        assert(st[st.len() - 2] == s);
                    } else {
                        let k = choose|k: int|
                            0 <= k < old(self).starts().len() - 1 && #[trigger] old(
                                self,
                            ).starts()[k] == o - 1 && (op_at(old(self).cv().code, o - 1)
                                matches OpCode::JUMP || op_at(old(self).cv().code, o - 1)
                                matches OpCode::JumpIfFalse);
                        assert(st[k] == o - 1);
                        assert(cv.code[o - 1] == old(self).cv().code[o - 1]) by {
                            lemma_starts_gaps(
                                old(self).cv(),
                                old(self).starts(),
                                old(self).pending(),
                                k,
                                old(self).starts().len() - 1,
                            );
                        }
                    }
                }
            }
            assert(delta_sum(cv.code, st, old(self).instr_count(), self.instr_count())
                == op.spec_stack_delta()) by {
                assert(st[old(self).instr_count()] == s);
                assert(delta_sum(cv.code, st, old(self).instr_count() + 1, self.instr_count())
                    == 0);
            }
        }
        offset
    }

    /// Write the distance from the byte after the operand to the present
    /// end of the code into a pending jump operand, big-endian. Returns
    /// false when the distance does not fit in sixteen bits; the truncated
    /// operand is still written, and still lands inside the code.
    #[verifier::rlimit(100)]
    #[verifier::spinoff_prover]
    pub fn patch_jump_at(&mut self, offset: usize) -> (fits: bool)
        requires
            old(self).wf(),
            old(self).pending().contains(offset as int),
        ensures
            final(self).wf(),
            CodeGen::extends(*old(self), *final(self)),
            final(self).cv().constants == old(self).cv().constants,
            final(self).cv().lines == old(self).cv().lines,
            final(self).cv().code.len() == old(self).cv().code.len(),
            final(self).starts() == old(self).starts(),
            final(self).instr_count() == old(self).instr_count(),
            final(self).pending() == old(self).pending().remove(offset as int),
            fits == (old(self).cv().code.len() - offset - 2 <= 65535),
            fits ==> spec_jump_operand(final(self).cv().code, offset - 1)
                == old(self).cv().code.len() - offset - 2,
            forall|i: int|
                0 <= i < old(self).cv().code.len() && i != offset && i != offset + 1
                    ==> final(self).cv().code[i] == old(self).cv().code[i],
    {
        let ghost pend0 = self.pending@;
        let ghost cv0 = self.cv();
        let ghost st = self.starts@;
        let ghost k = choose|k: int|
            0 <= k < st.len() - 1 && #[trigger] st[k] == offset - 1 && (op_at(cv0.code, offset - 1)
                matches OpCode::JUMP || op_at(cv0.code, offset - 1) matches OpCode::JumpIfFalse);
        proof {
            assert(instr_ok(cv0, offset - 1, pend0));
            lemma_starts_gaps(cv0, st, pend0, k, st.len() - 1);
        }
        let code_len = self.chunk.op_codes_len();
        let jump = code_len - offset - 2;
        let fits = jump <= 65535;
        let hi: u8 = ((jump >> 8) & 0xff) as u8;
        let lo: u8 = (jump & 0xff) as u8;
        self.chunk.patch(offset, hi);
        self.chunk.patch(offset + 1, lo);
        self.pending = Ghost(self.pending@.remove(offset as int));
        proof {
            let cv = self.cv();
            let pend = self.pending@;
            assert(cv.code =~= cv0.code.update(offset as int, hi).update(offset as int + 1, lo));
            // The patched target always lands inside the code.
            assert(hi * 256 + lo <= jump) by (bit_vector)
                requires
                    hi == ((jump >> 8) & 0xff) as u8,
                    lo == (jump & 0xff) as u8,
            ;
            assert(fits ==> hi * 256 + lo == jump) by (bit_vector)
                requires
                    hi == ((jump >> 8) & 0xff) as u8,
                    lo == (jump & 0xff) as u8,
                    fits == (jump <= 65535),
            ;
            assert(spec_jump_operand(cv.code, offset - 1) == hi * 256 + lo);
            // Only the segment of the patched jump changed.
            assert forall|k2: int| 0 <= k2 < st.len() - 1 implies #[trigger] st[k2 + 1] == st[k2]
                + 1 + op_at(cv.code, st[k2]).spec_operand_count() && instr_ok(cv, st[k2], pend) by {
                lemma_starts_gaps(cv0, st, pend0, if k2 <= k {
                    k2
                } else {
                    k
                }, if k2 <= k {
                    k
                } else {
                    k2
                });
                if k2 < k {
                    lemma_starts_gaps(cv0, st, pend0, k2, k);
                    assert(st[k2 + 1] <= st[k]) by {
                        lemma_starts_gaps(cv0, st, pend0, k2 + 1, k);
                    }
                    assert(cv.code[st[k2]] == cv0.code[st[k2]]);
                    lemma_instr_ok_extend_patch(cv0, cv, st[k2], pend0, pend, offset as int);
                } else if k2 == k {
                    assert(cv.code[st[k]] == cv0.code[st[k]]);
                    assert(instr_ok(cv, st[k], pend));
                } else {
                    assert(st[k2] >= st[k + 1]) by {
                        lemma_starts_gaps(cv0, st, pend0, k + 1, k2);
                    }
                    assert(cv.code[st[k2]] == cv0.code[st[k2]]);
                    lemma_instr_ok_extend_patch(cv0, cv, st[k2], pend0, pend, offset as int);
                }
            }
            assert(boundaries_ok(cv, st, pend));
            assert(pending_ok(cv, st, pend)) by {
                assert forall|o: int| #[trigger] pend.contains(o) implies exists|k2: int|
                    0 <= k2 < st.len() - 1 && #[trigger] st[k2] == o - 1 && (op_at(cv.code, o - 1)
                        matches OpCode::JUMP || op_at(cv.code, o - 1)
                        matches OpCode::JumpIfFalse) by {
                    let k2 = choose|k2: int|
                        0 <= k2 < st.len() - 1 && #[trigger] st[k2] == o - 1 && (op_at(
                            cv0.code,
                            o - 1,
                        ) matches OpCode::JUMP || op_at(cv0.code, o - 1)
                            matches OpCode::JumpIfFalse);
                    assert(o != offset as int);
                    if k2 != k {
                        if k2 < k {
                            lemma_starts_gaps(cv0, st, pend0, k2 + 1, k);
                            lemma_starts_gaps(cv0, st, pend0, k2, k2 + 1);
                        } else {
                            lemma_starts_gaps(cv0, st, pend0, k + 1, k2);
                        }
                        assert(cv.code[o - 1] == cv0.code[o - 1]);
                    } else {
                        assert(cv.code[o - 1] == cv0.code[o - 1]);
                    }
                }
            }
            assert(ops_stable(cv0.code, st, cv.code)) by {
                assert forall|k2: int| 0 <= k2 < st.len() - 1 implies op_at(
                    cv.code,
                    #[trigger] st[k2],
                ) == op_at(cv0.code, st[k2]) by {
                    if k2 < k {
                        lemma_starts_gaps(cv0, st, pend0, k2 + 1, k);
                        lemma_starts_gaps(cv0, st, pend0, k2, k2 + 1);
                    } else if k2 > k {
                        lemma_starts_gaps(cv0, st, pend0, k + 1, k2);
                    }
                    assert(cv.code[st[k2]] == cv0.code[st[k2]]);
                }
            }
        }
        fits
    }
}

/// A patch to a jump's operand bytes leaves any instruction that does not
/// contain those bytes sound.
proof fn lemma_instr_ok_extend_patch(
    cv1: ChunkView,
    cv2: ChunkView,
    s: int,
    pending1: Set<int>,
    pending2: Set<int>,
    o: int,
)
    requires
        instr_ok(cv1, s, pending1),
        cv2.code.len() == cv1.code.len(),
        cv2.constants == cv1.constants,
        forall|i: int| 0 <= i < cv1.code.len() && i != o && i != o + 1 ==> cv2.code[i] == cv1.code[i],
        s + 1 + op_at(cv1.code, s).spec_operand_count() <= o || s > o + 1,
        forall|p: int| pending1.contains(p) && p != o ==> pending2.contains(p),
        !(pending1.contains(s + 1) && s + 1 == o),
    ensures
        instr_ok(cv2, s, pending2),
{
    assert(cv2.code[s] == cv1.code[s]);
    let op = op_at(cv1.code, s);
    if op.spec_operand_count() >= 1 {
        assert(cv2.code[s + 1] == cv1.code[s + 1]);
    }
    if op.spec_operand_count() >= 2 {
        assert(cv2.code[s + 2] == cv1.code[s + 2]);
    }
}


// ---------------------------------------------------------------------------
// Precedence and the Pratt rule table
// ---------------------------------------------------------------------------
/// The precedence ladder, low to high.
#[derive(Debug, Clone, Copy, PartialEq, Eq, Structural)]
#[allow(non_camel_case_types)]
pub enum Precedence {
    NONE,
    ASSIGNMENT,
    OR,
    AND,
    EQUALITY,
    COMPARISON,
    TERM,
    FACTOR,
    UNARY,
    CALL,
    PRIMARY,
}

impl Precedence {
    /// The rung of this precedence on the ladder.
    pub open spec fn spec_level(self) -> int {
        match self {
            Precedence::NONE => 0,
            Precedence::ASSIGNMENT => 1,
            Precedence::OR => 2,
            Precedence::AND => 3,
            Precedence::EQUALITY => 4,
            Precedence::COMPARISON => 5,
            Precedence::TERM => 6,
            Precedence::FACTOR => 7,
            Precedence::UNARY => 8,
            Precedence::CALL => 9,
            Precedence::PRIMARY => 10,
        }
    }

    pub fn level(self) -> (r: u8)
        ensures
            r == self.spec_level(),
    {
        match self {
            Precedence::NONE => 0,
            Precedence::ASSIGNMENT => 1,
            Precedence::OR => 2,
            Precedence::AND => 3,
            Precedence::EQUALITY => 4,
            Precedence::COMPARISON => 5,
            Precedence::TERM => 6,
            Precedence::FACTOR => 7,
            Precedence::UNARY => 8,
            Precedence::CALL => 9,
            Precedence::PRIMARY => 10,
        }
    }

    pub open spec fn spec_from_level(v: int) -> Precedence {
        if v == 1 {
            Precedence::ASSIGNMENT
        } else if v == 2 {
            Precedence::OR
        } else if v == 3 {
            Precedence::AND
        } else if v == 4 {
            Precedence::EQUALITY
        } else if v == 5 {
            Precedence::COMPARISON
        } else if v == 6 {
            Precedence::TERM
        } else if v == 7 {
            Precedence::FACTOR
        } else if v == 8 {
            Precedence::UNARY
        } else if v == 9 {
            Precedence::CALL
        } else if v == 10 {
            Precedence::PRIMARY
        } else {
            Precedence::NONE
        }
    }

    pub fn from_level(v: u8) -> (r: Precedence)
        ensures
            r == Precedence::spec_from_level(v as int),
    {
        match v {
            1 => Precedence::ASSIGNMENT,
            2 => Precedence::OR,
            3 => Precedence::AND,
            4 => Precedence::EQUALITY,
            5 => Precedence::COMPARISON,
            6 => Precedence::TERM,
            7 => Precedence::FACTOR,
            8 => Precedence::UNARY,
            9 => Precedence::CALL,
            10 => Precedence::PRIMARY,
            _ => Precedence::NONE,
        }
    }

    /// The next rung up, for left associativity of binary operators.
    pub fn one_higher(self) -> (r: Precedence)
        ensures
            r == Precedence::spec_from_level(self.spec_level() + 1),
    {
        Precedence::from_level(self.level() + 1)
    }
}

/// How a token parses as a prefix.
#[derive(Debug, Clone, Copy, PartialEq, Eq, Structural)]
pub enum PrefixFn {
    Grouping,
    Unary,
    NumberLit,
    StringLit,
    Literal,
    Variable,
}

/// How a token parses as an infix.
#[derive(Debug, Clone, Copy, PartialEq, Eq, Structural)]
pub enum InfixFn {
    Binary,
}

/// One row of the Pratt table: how a token parses as a prefix, as an infix,
/// and with what precedence as an infix.
#[derive(Debug, Clone, Copy)]
pub struct ParseRule {
    pub prefix: Option<PrefixFn>,
    pub infix: Option<InfixFn>,
    pub precedence: Precedence,
}

impl ParseRule {
    pub fn new(prefix: Option<PrefixFn>, infix: Option<InfixFn>, precedence: Precedence) -> (r:
        Self)
        ensures
            r.prefix == prefix,
            r.infix == infix,
            r.precedence == precedence,
    {
        ParseRule { prefix, infix, precedence }
    }
}

impl Default for ParseRule {
    /// A token with no expression role.
    fn default() -> (r: Self)
        ensures
            r.prefix is None,
            r.infix is None,
            r.precedence == Precedence::NONE,
    {
        ParseRule { prefix: None, infix: None, precedence: Precedence::NONE }
    }
}

/// The Pratt rule table, exhaustive over the token kinds.
pub open spec fn spec_rule(tt: TokenType) -> ParseRule {
    match tt {
        TokenType::LEFTPAREN => ParseRule {
            prefix: Some(PrefixFn::Grouping),
            infix: None,
            precedence: Precedence::NONE,
        },
        TokenType::MINUS => ParseRule {
            prefix: Some(PrefixFn::Unary),
            infix: Some(InfixFn::Binary),
            precedence: Precedence::TERM,
        },
        TokenType::PLUS => ParseRule {
            prefix: None,
            infix: Some(InfixFn::Binary),
            precedence: Precedence::TERM,
        },
        TokenType::SLASH => ParseRule {
            prefix: None,
            infix: Some(InfixFn::Binary),
            precedence: Precedence::FACTOR,
        },
        TokenType::STAR => ParseRule {
            prefix: None,
            infix: Some(InfixFn::Binary),
            precedence: Precedence::FACTOR,
        },
        TokenType::BANG => ParseRule {
            prefix: Some(PrefixFn::Unary),
            infix: None,
            precedence: Precedence::NONE,
        },
        TokenType::BANGEQUAL => ParseRule {
            prefix: None,
            infix: Some(InfixFn::Binary),
            precedence: Precedence::EQUALITY,
        },
        TokenType::EQUALEQUAL => ParseRule {
            prefix: None,
            infix: Some(InfixFn::Binary),
            precedence: Precedence::EQUALITY,
        },
        TokenType::GREATER => ParseRule {
            prefix: None,
            infix: Some(InfixFn::Binary),
            precedence: Precedence::COMPARISON,
        },
        TokenType::GREATEREQUAL => ParseRule {
            prefix: None,
            infix: Some(InfixFn::Binary),
            precedence: Precedence::COMPARISON,
        },
        TokenType::LESS => ParseRule {
            prefix: None,
            infix: Some(InfixFn::Binary),
            precedence: Precedence::COMPARISON,
        },
        TokenType::LESSEQUAL => ParseRule {
            prefix: None,
            infix: Some(InfixFn::Binary),
            precedence: Precedence::COMPARISON,
        },
        TokenType::IDENTIFIER => ParseRule {
            prefix: Some(PrefixFn::Variable),
            infix: None,
            precedence: Precedence::NONE,
        },
        TokenType::STRING => ParseRule {
            prefix: Some(PrefixFn::StringLit),
            infix: None,
            precedence: Precedence::NONE,
        },
        TokenType::NUMBER => ParseRule {
            prefix: Some(PrefixFn::NumberLit),
            infix: None,
            precedence: Precedence::NONE,
        },
        TokenType::FALSE => ParseRule {
            prefix: Some(PrefixFn::Literal),
            infix: None,
            precedence: Precedence::NONE,
        },
        TokenType::NIL => ParseRule {
            prefix: Some(PrefixFn::Literal),
            infix: None,
            precedence: Precedence::NONE,
        },
        TokenType::TRUE => ParseRule {
            prefix: Some(PrefixFn::Literal),
            infix: None,
            precedence: Precedence::NONE,
        },
        _ => ParseRule { prefix: None, infix: None, precedence: Precedence::NONE },
    }
}

/// Look a token's row up in the Pratt table.
pub fn get_rule(tt: TokenType) -> (r: ParseRule)
    ensures
        r == spec_rule(tt),
{
    match tt {
        TokenType::LEFTPAREN => ParseRule::new(Some(PrefixFn::Grouping), None, Precedence::NONE),
        TokenType::MINUS => ParseRule::new(
            Some(PrefixFn::Unary),
            Some(InfixFn::Binary),
            Precedence::TERM,
        ),
        TokenType::PLUS => ParseRule::new(None, Some(InfixFn::Binary), Precedence::TERM),
        TokenType::SLASH => ParseRule::new(None, Some(InfixFn::Binary), Precedence::FACTOR),
        TokenType::STAR => ParseRule::new(None, Some(InfixFn::Binary), Precedence::FACTOR),
        TokenType::BANG => ParseRule::new(Some(PrefixFn::Unary), None, Precedence::NONE),
        TokenType::BANGEQUAL => ParseRule::new(None, Some(InfixFn::Binary), Precedence::EQUALITY),
        TokenType::EQUALEQUAL => ParseRule::new(None, Some(InfixFn::Binary), Precedence::EQUALITY),
        TokenType::GREATER => ParseRule::new(None, Some(InfixFn::Binary), Precedence::COMPARISON),
        TokenType::GREATEREQUAL => ParseRule::new(
            None,
            Some(InfixFn::Binary),
            Precedence::COMPARISON,
        ),
        TokenType::LESS => ParseRule::new(None, Some(InfixFn::Binary), Precedence::COMPARISON),
        TokenType::LESSEQUAL => ParseRule::new(None, Some(InfixFn::Binary), Precedence::COMPARISON),
        TokenType::IDENTIFIER => ParseRule::new(Some(PrefixFn::Variable), None, Precedence::NONE),
        TokenType::STRING => ParseRule::new(Some(PrefixFn::StringLit), None, Precedence::NONE),
        TokenType::NUMBER => ParseRule::new(Some(PrefixFn::NumberLit), None, Precedence::NONE),
        TokenType::FALSE => ParseRule::new(Some(PrefixFn::Literal), None, Precedence::NONE),
        TokenType::NIL => ParseRule::new(Some(PrefixFn::Literal), None, Precedence::NONE),
        TokenType::TRUE => ParseRule::new(Some(PrefixFn::Literal), None, Precedence::NONE),
        _ => ParseRule::default(),
    }
}

// ---------------------------------------------------------------------------
// Lexical scope tracking
// ---------------------------------------------------------------------------
/// A local variable at compile time: its name and the depth of the scope it
/// belongs to, or no depth while its initializer is being compiled.
pub struct Local {
    pub name: Token,
    pub depth: Option<usize>,
}

/// The open scopes and the locals declared in them. A local's index here is
/// its runtime stack slot.
pub struct LocalTracking {
    locals: Vec<Local>,
    scope_depth: usize,
}

impl LocalTracking {
    pub closed spec fn spec_locals(&self) -> Seq<Local> {
        self.locals@
    }

    pub closed spec fn spec_depth(&self) -> int {
        self.scope_depth as int
    }

    pub fn new() -> (r: Self)
        ensures
            r.spec_locals() == Seq::<Local>::empty(),
            r.spec_depth() == 0,
    {
        LocalTracking { locals: Vec::new(), scope_depth: 0 }
    }

    /// Store a local at a slot; the slot just past the end appends.
    pub fn add_local_at_idx(&mut self, local: Local, idx: u8)
        requires
            idx as int <= old(self).spec_locals().len(),
            old(self).spec_locals().len() < 256,
        ensures
            final(self).spec_depth() == old(self).spec_depth(),
            final(self).spec_locals() == if idx as int == old(self).spec_locals().len() {
                old(self).spec_locals().push(local)
            } else {
                old(self).spec_locals().update(idx as int, local)
            },
    {
        let i = idx as usize;
        if i == self.locals.len() {
            self.locals.push(local);
        } else {
            self.locals[i] = local;
        }
    }

    /// Open a block.
    pub fn begin(&mut self)
        requires
            old(self).spec_depth() < usize::MAX,
        ensures
            final(self).spec_depth() == old(self).spec_depth() + 1,
            final(self).spec_locals() == old(self).spec_locals(),
    {
        self.scope_depth = self.scope_depth + 1;
    }

    /// Close a block.
    pub fn end(&mut self)
        requires
            old(self).spec_depth() >= 1,
        ensures
            final(self).spec_depth() == old(self).spec_depth() - 1,
            final(self).spec_locals() == old(self).spec_locals(),
    {
        self.scope_depth = self.scope_depth - 1;
    }

    pub fn depth(&self) -> (r: &usize)
        ensures
            *r == self.spec_depth(),
    {
        &self.scope_depth
    }

    fn count(&self) -> (r: usize)
        ensures
            r == self.spec_locals().len(),
    {
        self.locals.len()
    }
}


// ---------------------------------------------------------------------------
// The compiler: a single pass from tokens to bytecode.
// ---------------------------------------------------------------------------
/// Lexicographic order on the parsing metric (bytes left, buffered token).
pub open spec fn m_lt(post: (int, int), pre: (int, int)) -> bool {
    post.0 < pre.0 || (post.0 == pre.0 && post.1 < pre.1)
}

pub open spec fn m_le(post: (int, int), pre: (int, int)) -> bool {
    post.0 < pre.0 || (post.0 == pre.0 && post.1 <= pre.1)
}

/// Every byte of `code1` other than the two at `offset` reads unchanged in
/// `code2`: what patching one jump operand leaves alone.
#[verifier::opaque]
pub open spec fn code_preserved_but(code1: Seq<u8>, code2: Seq<u8>, offset: int) -> bool {
    forall|i: int|
        0 <= i < code1.len() && i != offset && i != offset + 1 ==> code2[i] == #[trigger] code1[i]
}

/// The instruction bytes a binary operator compiles to, after its right
/// operand: the compound comparisons are the negation of their duals, so
/// not-equal runs as EQUAL then NOT.
pub open spec fn binary_op_bytes(tt: TokenType) -> Seq<u8> {
    if tt == TokenType::BANGEQUAL {
        seq![OpCode::EQUAL.spec_byte(), OpCode::NOT.spec_byte()]
    } else if tt == TokenType::EQUALEQUAL {
        seq![OpCode::EQUAL.spec_byte()]
    } else if tt == TokenType::GREATER {
        seq![OpCode::GREATER.spec_byte()]
    } else if tt == TokenType::GREATEREQUAL {
        seq![OpCode::LESS.spec_byte(), OpCode::NOT.spec_byte()]
    } else if tt == TokenType::LESS {
        seq![OpCode::LESS.spec_byte()]
    } else if tt == TokenType::LESSEQUAL {
        seq![OpCode::GREATER.spec_byte(), OpCode::NOT.spec_byte()]
    } else if tt == TokenType::PLUS {
        seq![OpCode::ADD.spec_byte()]
    } else if tt == TokenType::MINUS {
        seq![OpCode::SUBTRACT.spec_byte()]
    } else if tt == TokenType::STAR {
        seq![OpCode::MULTIPLY.spec_byte()]
    } else {
        seq![OpCode::DIVIDE.spec_byte()]
    }
}

/// The first token at or after `pos` that is not a scanner error: what one
/// call of the compiler's token pump yields, with where it leaves the
/// scanner.
pub open spec fn spec_next_good_token(src: Seq<u8>, pos: int, line: int) -> crate::scanner::SpecToken
    decreases src.len() - pos,
        when 0 <= pos <= src.len()
        via spec_next_good_token_decreases
{
    let st = spec_next_token(src, pos, line);
    if st.token_type == TokenType::ERROR {
        spec_next_good_token(src, st.end, st.end_line)
    } else {
        st
    }
}

#[via_fn]
proof fn spec_next_good_token_decreases(src: Seq<u8>, pos: int, line: int) {
    crate::scanner::lemma_next_token_progress(src, pos, line);
}

/// The token kinds panic-mode recovery stops in front of.
pub open spec fn sync_boundary(tt: TokenType) -> bool {
    ||| tt == TokenType::CLASS
    ||| tt == TokenType::FUN
    ||| tt == TokenType::VAR
    ||| tt == TokenType::FOR
    ||| tt == TokenType::IF
    ||| tt == TokenType::WHILE
    ||| tt == TokenType::PRINT
    ||| tt == TokenType::RETURN
}

/// Compiles one source text into one chunk: a Pratt parser that emits
/// instructions as it parses, tracking scopes and local slots.
pub struct Compiler {
    scanner: Scanner,
    current: Option<Token>,
    previous: Option<Token>,
    gen: CodeGen,
    local_track: LocalTracking,
    had_error: bool,
    panic_mode: bool,
    diagnostics: Vec<Diagnostic>,
}

impl Compiler {
    pub closed spec fn chunk_view(&self) -> ChunkView {
        self.gen.cv()
    }

    pub closed spec fn generator(&self) -> CodeGen {
        self.gen
    }

    pub closed spec fn spec_had_error(&self) -> bool {
        self.had_error
    }

    pub closed spec fn spec_panic(&self) -> bool {
        self.panic_mode
    }

    pub closed spec fn diags(&self) -> Seq<Diagnostic> {
        self.diagnostics@
    }

    pub closed spec fn src(&self) -> Seq<u8> {
        self.scanner@.source
    }

    /// Bytes of source the scanner has not read yet.
    pub closed spec fn rem(&self) -> int {
        self.scanner@.source.len() - self.scanner@.current
    }

    /// Whether the buffered token still carries input to consume.
    pub closed spec fn cflag(&self) -> int {
        match self.current {
            Some(t) => if t.token_type == TokenType::EOF {
                0int
            } else {
                1int
            },
            None => 0int,
        }
    }

    pub open spec fn metric(&self) -> (int, int) {
        (self.rem(), self.cflag())
    }

    pub closed spec fn cur(&self) -> Option<Token> {
        self.current
    }

    pub closed spec fn prev(&self) -> Option<Token> {
        self.previous
    }

    pub closed spec fn locals(&self) -> Seq<Local> {
        self.local_track.spec_locals()
    }

    pub closed spec fn scope(&self) -> int {
        self.local_track.spec_depth()
    }

    pub closed spec fn wf(&self) -> bool {
        &&& self.scanner.wf()
        &&& self.gen.wf()
        &&& (match self.current {
            Some(t) => t.token_type != TokenType::ERROR && (t.token_type == TokenType::EOF
                ==> self.scanner@.current == self.scanner@.source.len()) && (t.token_type
                == TokenType::NUMBER ==> is_number_text(t.lexeme@)),
            None => true,
        })
        &&& (match self.previous {
            Some(t) => t.token_type == TokenType::NUMBER ==> is_number_text(t.lexeme@),
            None => true,
        })
        &&& self.locals().len() <= 256
        &&& 0 <= self.scope()
        &&& self.scope() + self.cflag() <= self.scanner@.current
        &&& (self.panic_mode ==> self.had_error)
        &&& (self.had_error <==> self.diagnostics@.len() > 0)
    }

    /// What every parsing step preserves: the source, the error flag once
    /// set, the diagnostics already reported, the instructions already
    /// emitted, and the parsing metric never grows.
    pub open spec fn progresses(pre: Compiler, post: Compiler) -> bool {
        &&& post.src() == pre.src()
        &&& m_le(post.metric(), pre.metric())
        &&& (pre.spec_had_error() ==> post.spec_had_error())
        &&& CodeGen::extends(pre.generator(), post.generator())
        &&& pre.diags().len() <= post.diags().len()
        &&& (forall|i: int| 0 <= i < pre.diags().len() ==> post.diags()[i] == #[trigger] pre.diags()[i])
    }

    pub fn new(source: Vec<u8>) -> (r: Self)
        requires
            source@.len() < usize::MAX,
        ensures
            r.wf(),
            r.src() == source@,
            r.cur() is None,
            r.prev() is None,
            r.chunk_view().code.len() == 0,
            r.chunk_view().constants.len() == 0,
            r.generator().instr_count() == 0,
            r.generator().pending() == Set::<int>::empty(),
            !r.spec_had_error(),
            !r.spec_panic(),
            r.diags().len() == 0,
            r.locals().len() == 0,
            r.scope() == 0,
    {
        Compiler {
            scanner: Scanner::new(source),
            current: None,
            previous: None,
            gen: CodeGen::new(),
            local_track: LocalTracking::new(),
            had_error: false,
            panic_mode: false,
            diagnostics: Vec::new(),
        }
    }

    /// Record a diagnostic, unless panic mode is already suppressing them.
    fn report(&mut self, line: usize, at: DiagWhere, message: Vec<u8>)
        requires
            old(self).wf(),
        ensures
            final(self).wf(),
            final(self).scanner == old(self).scanner,
            final(self).current == old(self).current,
            final(self).previous == old(self).previous,
            final(self).gen == old(self).gen,
            final(self).local_track == old(self).local_track,
            final(self).spec_had_error(),
            final(self).spec_panic(),
            old(self).spec_panic() ==> *final(self) == *old(self),
            !old(self).spec_panic() ==> final(self).diags() == old(self).diags().push(
                Diagnostic { line, at, message },
            ),
    {
        if self.panic_mode {
            return ;
        }
        self.panic_mode = true;
        self.had_error = true;
        self.diagnostics.push(Diagnostic { line, at, message });
    }

    /// Report at the token being examined.
    fn error_at_current(&mut self, message: Vec<u8>)
        requires
            old(self).wf(),
        ensures
            final(self).wf(),
            final(self).scanner == old(self).scanner,
            final(self).current == old(self).current,
            final(self).previous == old(self).previous,
            final(self).gen == old(self).gen,
            final(self).local_track == old(self).local_track,
            old(self).cur() is Some ==> final(self).spec_had_error() && final(self).spec_panic(),
            old(self).cur() is None ==> *final(self) == *old(self),
            old(self).spec_panic() ==> *final(self) == *old(self),
            (!old(self).spec_panic() && old(self).cur() is Some) ==> final(self).diags().len()
                == old(self).diags().len() + 1 && final(self).diags().last().message@ == message@
                && final(self).diags().last().line == old(self).cur()->Some_0.line,
            Compiler::progresses(*old(self), *final(self)),
    {
        let (line, at) = match &self.current {
            Some(t) => {
                (
                    t.line,
                    if t.token_type == TokenType::EOF {
                        DiagWhere::AtEnd
                    } else {
                        DiagWhere::AtLexeme(vstd::slice::slice_to_vec(t.lexeme.as_slice()))
                    },
                )
            },
            None => {
                return ;
            },
        };
        self.report(line, at, message);
    }

    /// Report at the token just consumed.
    fn error_here(&mut self, message: Vec<u8>)
        requires
            old(self).wf(),
        ensures
            final(self).wf(),
            final(self).scanner == old(self).scanner,
            final(self).current == old(self).current,
            final(self).previous == old(self).previous,
            final(self).gen == old(self).gen,
            final(self).local_track == old(self).local_track,
            old(self).prev() is Some ==> final(self).spec_had_error() && final(self).spec_panic(),
            old(self).prev() is None ==> *final(self) == *old(self),
            old(self).spec_panic() ==> *final(self) == *old(self),
            (!old(self).spec_panic() && old(self).prev() is Some) ==> final(self).diags().len()
                == old(self).diags().len() + 1 && final(self).diags().last().message@ == message@
                && final(self).diags().last().line == old(self).prev()->Some_0.line,
            Compiler::progresses(*old(self), *final(self)),
    {
        let (line, at) = match &self.previous {
            Some(t) => {
                (
                    t.line,
                    if t.token_type == TokenType::EOF {
                        DiagWhere::AtEnd
                    } else {
                        DiagWhere::AtLexeme(vstd::slice::slice_to_vec(t.lexeme.as_slice()))
                    },
                )
            },
            None => {
                return ;
            },
        };
        self.report(line, at, message);
    }

    /// Move to the next token, reporting and skipping any scanner errors.
    fn advance(&mut self)
        requires
            old(self).wf(),
        ensures
            final(self).wf(),
            Compiler::progresses(*old(self), *final(self)),
            final(self).prev() == old(self).cur(),
            final(self).cur() is Some,
            final(self).cur()->Some_0.token_type != TokenType::ERROR,
            final(self).gen == old(self).gen,
            final(self).local_track == old(self).local_track,
            (old(self).cur() matches Some(t) && t.token_type != TokenType::EOF) ==> m_lt(
                final(self).metric(),
                old(self).metric(),
            ),
            (old(self).cur() matches Some(t) && t.token_type == TokenType::EOF)
                ==> final(self).metric() == old(self).metric()
                && final(self).cur()->Some_0.token_type == TokenType::EOF,
            final(self).scanner@.current >= old(self).scanner@.current + final(self).cflag(),
            final(self).spec_panic() ==> old(self).spec_panic() || final(self).diags().len()
                > old(self).diags().len(),
            // The token taken up is the first non-error token the scanner
            // yields from its position.
            ({
                let g = spec_next_good_token(
                    old(self).src(),
                    old(self).scanner@.current,
                    old(self).scanner@.line,
                );
                &&& final(self).cur() matches Some(t) && t.token_type == g.token_type
                    && t.lexeme@ == g.lexeme && t.line == g.line
                &&& final(self).scanner@.current == g.end
                &&& final(self).scanner@.line == g.end_line
            }),
            // A scanner error is reported with its own message, once; panic
            // mode suppresses the rest, as it does every later diagnostic.
            ({
                let st0 = spec_next_token(
                    old(self).src(),
                    old(self).scanner@.current,
                    old(self).scanner@.line,
                );
                if st0.token_type == TokenType::ERROR {
                    final(self).spec_had_error() && (!old(self).spec_panic()
                        ==> final(self).diags().len() == old(self).diags().len() + 1
                        && final(self).diags().last().message@ == st0.lexeme
                        && final(self).diags().last().line == st0.line
                        && final(self).diags().last().at is AtScanError)
                } else {
                    final(self).diags() == old(self).diags() && final(self).spec_had_error()
                        == old(self).spec_had_error()
                        && final(self).spec_panic() == old(self).spec_panic()
                }
            }),
    {
        self.previous = self.current.take();
        let ghost src = self.scanner@.source;
        let ghost pos0 = self.scanner@.current;
        let ghost line0 = self.scanner@.line;
        loop
            invariant
                self.wf(),
                self.scanner@.source == old(self).src(),
                self.current is None,
                self.previous == old(self).cur(),
                self.gen == old(self).gen,
                self.local_track == old(self).local_track,
                old(self).scanner@.current <= self.scanner@.current,
                old(self).spec_had_error() ==> self.spec_had_error(),
                self.spec_panic() ==> old(self).spec_panic() || self.diags().len() > old(
                    self,
                ).diags().len(),
                old(self).diags().len() <= self.diags().len(),
                forall|i: int|
                    0 <= i < old(self).diags().len()
                        ==> self.diags()[i] == #[trigger] old(self).diags()[i],
                spec_next_good_token(src, self.scanner@.current, self.scanner@.line)
                    == spec_next_good_token(src, pos0, line0),
                self.scanner@.current == pos0 ==> self.scanner@.line == line0
                    && self.diagnostics@ == old(self).diagnostics@
                    && self.had_error == old(self).had_error
                    && self.panic_mode == old(self).panic_mode,
                self.scanner@.current != pos0 ==> ({
                    let st0 = spec_next_token(src, pos0, line0);
                    &&& st0.token_type == TokenType::ERROR
                    &&& self.had_error
                    &&& self.panic_mode
                    &&& (old(self).spec_panic() ==> self.diagnostics@ == old(self).diagnostics@)
                    &&& (!old(self).spec_panic() ==> self.diagnostics@.len()
                        == old(self).diagnostics@.len() + 1
                        && self.diagnostics@.last().message@ == st0.lexeme
                        && self.diagnostics@.last().line == st0.line
                        && self.diagnostics@.last().at is AtScanError)
                }),
            decreases self.scanner@.source.len() - self.scanner@.current,
        {
            let ghost pre_pos = self.scanner@.current;
            let ghost pre_line = self.scanner@.line;
            proof {
                crate::scanner::lemma_next_token_progress(
                    self.scanner@.source,
                    pre_pos,
                    pre_line,
                );
                lemma_scan_number_grammar(self.scanner@.source, pre_pos, pre_line);
            }
            let tok = self.scanner.scan_token();
            if matches!(tok.token_type, TokenType::ERROR) {
                let line = tok.line;
                self.report(line, DiagWhere::AtScanError, tok.lexeme);
            } else {
                proof {
                    let st = spec_next_token(old(self).src(), pre_pos, pre_line);
                    if tok.token_type == TokenType::EOF {
                        assert(self.scanner@.current == self.scanner@.source.len());
                    } else {
                        assert(st.end > st.start >= pre_pos);
                    }
                }
                self.current = Some(tok);
                break ;
            }
        }
    }

    /// Whether the token being examined has the given kind.
    fn check_token(&self, expected: TokenType) -> (r: bool)
        ensures
            r == (self.cur() matches Some(t) && t.token_type == expected),
    {
        match &self.current {
            Some(t) => t.token_type == expected,
            None => false,
        }
    }

    /// Consume the token being examined if it has the given kind.
    fn match_token(&mut self, expected: TokenType) -> (r: bool)
        requires
            old(self).wf(),
        ensures
            final(self).wf(),
            Compiler::progresses(*old(self), *final(self)),
            r == (old(self).cur() matches Some(t) && t.token_type == expected),
            !r ==> *final(self) == *old(self),
            r ==> final(self).prev() == old(self).cur() && final(self).cur() is Some
                && final(self).gen == old(self).gen && final(self).local_track == old(
                self,
            ).local_track,
            (r && expected != TokenType::EOF) ==> m_lt(final(self).metric(), old(self).metric()),
    {
        if !self.check_token(expected) {
            return false;
        }
        self.advance();
        true
    }

    /// Consume a token of the given kind or report the given message.
    fn consume(&mut self, expected: TokenType, message: Vec<u8>)
        requires
            old(self).wf(),
        ensures
            final(self).wf(),
            Compiler::progresses(*old(self), *final(self)),
            final(self).gen == old(self).gen,
            final(self).local_track == old(self).local_track,
            (old(self).cur() matches Some(t) && t.token_type == expected) ==> final(self).prev()
                == old(self).cur() && final(self).cur() is Some,
            ((old(self).cur() matches Some(t) && t.token_type == expected) && expected
                != TokenType::EOF) ==> m_lt(final(self).metric(), old(self).metric()),
            !(old(self).cur() matches Some(t) && t.token_type == expected) ==> final(self).current
                == old(self).current && final(self).previous == old(self).previous
                && (old(self).cur() is Some ==> final(self).spec_had_error()),
    {
        if self.check_token(expected) {
            self.advance();
            return ;
        }
        self.error_at_current(message);
    }

    /// Skip tokens after a parse error, to the next statement boundary.
    fn synchronize(&mut self)
        requires
            old(self).wf(),
            old(self).cur() is Some,
        ensures
            final(self).wf(),
            Compiler::progresses(*old(self), *final(self)),
            final(self).cur() is Some,
            old(self).prev() is Some ==> final(self).prev() is Some,
            final(self).gen == old(self).gen,
            final(self).local_track == old(self).local_track,
            // The stop condition: a statement boundary was reached.
            (final(self).cur() matches Some(t) && t.token_type == TokenType::EOF)
                || (final(self).prev() matches Some(p) && p.token_type == TokenType::SEMICOLON)
                || (final(self).cur() matches Some(t) && sync_boundary(t.token_type)),
            // Panic mode stays off unless skipping met a new scanner error.
            final(self).spec_panic() ==> final(self).diags().len() > old(self).diags().len(),
    {
        self.panic_mode = false;
        loop
            invariant
                self.wf(),
                self.cur() is Some,
                old(self).prev() is Some ==> self.prev() is Some,
                Compiler::progresses(*old(self), *self),
                self.gen == old(self).gen,
                self.local_track == old(self).local_track,
                self.spec_panic() ==> self.diags().len() > old(self).diags().len(),
            decreases self.rem(), self.cflag(),
        {
            if self.check_token(TokenType::EOF) {
                return ;
            }
            match &self.previous {
                Some(p) => {
                    if p.token_type == TokenType::SEMICOLON {
                        return ;
                    }
                },
                None => {},
            }
            let stop = match &self.current {
                Some(t) => match t.token_type {
                    TokenType::CLASS => true,
                    TokenType::FUN => true,
                    TokenType::VAR => true,
                    TokenType::FOR => true,
                    TokenType::IF => true,
                    TokenType::WHILE => true,
                    TokenType::PRINT => true,
                    TokenType::RETURN => true,
                    _ => false,
                },
                None => false,
            };
            if stop {
                return ;
            }
            self.advance();
        }
    }
}

/// A token the scanner reports as a number always matches the number
/// grammar.
proof fn lemma_scan_number_grammar(src: Seq<u8>, pos0: int, line0: int)
    requires
        0 <= pos0 <= src.len(),
    ensures
        ({
            let st = spec_next_token(src, pos0, line0);
            st.token_type == TokenType::NUMBER ==> is_number_text(st.lexeme)
        }),
{
    let s = crate::scanner::spec_skip_ws(src, pos0, line0).0;
    crate::scanner::lemma_skip_ws_bounds(src, pos0, line0);
    let st = spec_next_token(src, pos0, line0);
    if st.token_type == TokenType::NUMBER {
        if s < src.len() && crate::number::is_digit_byte(src[s]) {
            crate::scanner::lemma_number_lexeme(src, s);
        }
    }
}


// ---------------------------------------------------------------------------
// Scope bookkeeping and name resolution
// ---------------------------------------------------------------------------
/// A local that must be popped when leaving a scope of the given depth.
pub open spec fn deeper_than(l: Local, d: int) -> bool {
    l.depth matches Some(x) && x > d
}

/// How many trailing locals a scope exit at depth `d` pops: one per local
/// the closing block declared.
pub open spec fn pops_needed(locals: Seq<Local>, d: int) -> int
    decreases locals.len(),
{
    if locals.len() == 0 || !deeper_than(locals.last(), d) {
        0
    } else {
        1 + pops_needed(locals.drop_last(), d)
    }
}

/// `n` POP instructions.
pub open spec fn pop_seq(n: int) -> Seq<u8> {
    Seq::new(n as nat, |i: int| OpCode::POP.spec_byte())
}

/// A name already declared in the open scope: scanning the locals from the
/// innermost down and stopping at the first uninitialized or shallower one,
/// some scanned local carries this name.
pub open spec fn shadows_in_scope(locals: Seq<Local>, name: Seq<u8>, d: int) -> bool
    decreases locals.len(),
{
    if locals.len() == 0 {
        false
    } else {
        match locals.last().depth {
            None => false,
            Some(dd) => if dd < d {
                false
            } else {
                locals.last().name.lexeme@ == name || shadows_in_scope(
                    locals.drop_last(),
                    name,
                    d,
                )
            },
        }
    }
}

/// The slot of the innermost local with this name, scanning from the top.
pub open spec fn spec_resolve(locals: Seq<Local>, name: Seq<u8>) -> Option<int>
    decreases locals.len(),
{
    if locals.len() == 0 {
        None
    } else if locals.last().name.lexeme@ == name {
        Some(locals.len() - 1)
    } else {
        spec_resolve(locals.drop_last(), name)
    }
}

impl Compiler {
    /// The source line an emitted byte is attributed to: the line of the
    /// token just consumed, else of the token being examined, else line one.
    pub closed spec fn emit_line(&self) -> usize {
        match self.previous {
            Some(t) => t.line,
            None => match self.current {
                Some(t) => t.line,
                None => 1,
            },
        }
    }

    /// The source line to attribute an emitted byte to.
    fn line_for_emit(&self) -> (r: usize)
        ensures
            r == self.emit_line(),
    {
        match &self.previous {
            Some(t) => t.line,
            None => match &self.current {
                Some(t) => t.line,
                None => 1,
            },
        }
    }

    /// Add a value to the constant pool; the value is appended first, and an
    /// index past one byte is then reported, yielding index 0.
    fn make_constant(&mut self, value: ValueType) -> (idx: u8)
        requires
            old(self).wf(),
            old(self).prev() is Some,
        ensures
            final(self).wf(),
            Compiler::progresses(*old(self), *final(self)),
            final(self).scanner == old(self).scanner,
            final(self).current == old(self).current,
            final(self).previous == old(self).previous,
            final(self).local_track == old(self).local_track,
            final(self).generator().pending() == old(self).generator().pending(),
            final(self).generator().starts() == old(self).generator().starts(),
            final(self).chunk_view().code == old(self).chunk_view().code,
            final(self).chunk_view().constants == old(self).chunk_view().constants.push(value@),
            idx < final(self).chunk_view().constants.len(),
            old(self).chunk_view().constants.len() <= 255
                ==> idx == old(self).chunk_view().constants.len()
                && final(self).spec_had_error() == old(self).spec_had_error(),
            old(self).chunk_view().constants.len() > 255
                ==> idx == 0 && final(self).spec_had_error(),
    {
        let constant = self.gen.add_const(value);
        if constant > 255 {
            self.error_here(text_too_many_constants());
            return 0;
        }
        constant as u8
    }

    /// Add an identifier's name to the pool as a string constant.
    fn identifier_constant(&mut self, name: &Token) -> (idx: u8)
        requires
            old(self).wf(),
            old(self).prev() is Some,
        ensures
            final(self).wf(),
            Compiler::progresses(*old(self), *final(self)),
            final(self).scanner == old(self).scanner,
            final(self).current == old(self).current,
            final(self).previous == old(self).previous,
            final(self).local_track == old(self).local_track,
            final(self).generator().pending() == old(self).generator().pending(),
            final(self).generator().starts() == old(self).generator().starts(),
            final(self).chunk_view().code == old(self).chunk_view().code,
            idx < final(self).chunk_view().constants.len(),
            final(self).chunk_view().constants == old(self).chunk_view().constants.push(
                AbsValue::Str(name.lexeme@),
            ),
            old(self).chunk_view().constants.len() <= 255
                ==> idx == old(self).chunk_view().constants.len()
                && final(self).spec_had_error() == old(self).spec_had_error(),
            old(self).chunk_view().constants.len() > 255
                ==> idx == 0 && final(self).spec_had_error(),
    {
        let text = vstd::slice::slice_to_vec(name.lexeme.as_slice());
        self.make_constant(
            ValueType::Obj(crate::value::Object::ObjString(crate::value::ObjString::new(text))),
        )
    }

    /// The slot of the local a name refers to, or nothing for a global.
    /// Reading a local inside its own initializer is the specific error this
    /// reports; the reference then falls back to a global.
    fn resolve_local(&mut self, name: &Token) -> (r: Option<u8>)
        requires
            old(self).wf(),
            old(self).prev() is Some,
        ensures
            final(self).wf(),
            Compiler::progresses(*old(self), *final(self)),
            final(self).scanner == old(self).scanner,
            final(self).current == old(self).current,
            final(self).previous == old(self).previous,
            final(self).gen == old(self).gen,
            final(self).local_track == old(self).local_track,
            ({
                let found = spec_resolve(old(self).locals(), name.lexeme@);
                match found {
                    Some(i) => {
                        if old(self).locals()[i].depth is Some {
                            r == Some(i as u8) && *final(self) == *old(self)
                        } else {
                            // The specific diagnostic is reported.
                            r is None && final(self).spec_had_error() && (!old(self).spec_panic()
                                ==> final(self).diags().len() == old(self).diags().len() + 1
                                    && final(self).diags().last().message@
                                    == msg_read_own_initializer())
                        }
                    },
                    None => r is None && *final(self) == *old(self),
                }
            }),
    {
        let n = self.local_track.count();
        proof {
            assert(old(self).locals().take(n as int) =~= old(self).locals());
        }
        let mut i: usize = n;
        while i > 0
            invariant
                0 <= i <= n,
                n == self.locals().len(),
                *self == *old(self),
                spec_resolve(old(self).locals(), name.lexeme@) == spec_resolve(
                    old(self).locals().take(i as int),
                    name.lexeme@,
                ),
            decreases i,
        {
            i = i - 1;
            proof {
                assert(old(self).locals().take(i + 1).drop_last() =~= old(self).locals().take(
                    i as int,
                ));
                assert(old(self).locals().take(i + 1).last() == old(self).locals()[i as int]);
            }
            if crate::value::bytes_equal(&self.local_track.locals[i].name.lexeme, &name.lexeme) {
                if self.local_track.locals[i].depth.is_none() {
                    self.error_here(text_read_own_initializer());
                    return None;
                }
                return Some(i as u8);
            }
        }
        proof {
            assert(old(self).locals().take(0) =~= Seq::<Local>::empty());
        }
        None
    }
}


/// `extends` composes.
proof fn lemma_extends_trans(a: CodeGen, b: CodeGen, c: CodeGen)
    requires
        CodeGen::extends(a, b),
        CodeGen::extends(b, c),
    ensures
        CodeGen::extends(a, c),
{
    assert forall|k: int| 0 <= k < a.starts().len() - 1 implies op_at(
        c.cv().code,
        #[trigger] a.starts()[k],
    ) == op_at(a.cv().code, a.starts()[k]) by {
        assert(b.starts()[k] == a.starts()[k]);
        assert(op_at(c.cv().code, b.starts()[k]) == op_at(b.cv().code, b.starts()[k]));
        assert(op_at(b.cv().code, a.starts()[k]) == op_at(a.cv().code, a.starts()[k]));
    }
}

/// `progresses` composes.
proof fn lemma_progresses_trans(a: Compiler, b: Compiler, c: Compiler)
    requires
        Compiler::progresses(a, b),
        Compiler::progresses(b, c),
    ensures
        Compiler::progresses(a, c),
{
    lemma_extends_trans(a.generator(), b.generator(), c.generator());
}

/// Stack deltas of two consecutive emission ranges add up.
proof fn lemma_compose_delta(a: CodeGen, b: CodeGen, c: CodeGen, d_ab: int, d_bc: int)
    requires
        CodeGen::extends(a, b),
        CodeGen::extends(b, c),
        a.starts().len() >= 1,
        b.starts().len() >= 1,
        delta_sum(b.cv().code, b.starts(), a.instr_count(), b.instr_count()) == d_ab,
        delta_sum(c.cv().code, c.starts(), b.instr_count(), c.instr_count()) == d_bc,
    ensures
        delta_sum(c.cv().code, c.starts(), a.instr_count(), c.instr_count()) == d_ab + d_bc,
{
    lemma_delta_sum_stable(
        b.cv().code,
        b.starts(),
        c.cv().code,
        c.starts(),
        a.instr_count(),
        b.instr_count(),
    );
    lemma_delta_sum_concat(
        c.cv().code,
        c.starts(),
        a.instr_count(),
        b.instr_count(),
        c.instr_count(),
    );
}

impl Compiler {
    /// What every expression-level parse preserves beyond `progresses`: the
    /// scope state, the set of unpatched jumps, and a live token window.
    pub open spec fn expr_frame(pre: Compiler, post: Compiler) -> bool {
        &&& Compiler::progresses(pre, post)
        &&& post.cur() is Some
        &&& post.prev() is Some
        &&& post.locals() == pre.locals()
        &&& post.scope() == pre.scope()
        &&& post.generator().pending() == pre.generator().pending()
    }

    /// When compilation has not failed, the instructions this parse
    /// appended change the stack height by `d` once executed in sequence.
    pub open spec fn emits_delta(pre: Compiler, post: Compiler, d: int) -> bool {
        !post.spec_had_error() ==> delta_sum(
            post.chunk_view().code,
            post.generator().starts(),
            pre.generator().instr_count(),
            post.generator().instr_count(),
        ) == d
    }

    /// Emit the value as a constant-pool load.
    fn emit_constant(&mut self, value: ValueType)
        requires
            old(self).wf(),
            old(self).prev() is Some,
        ensures
            final(self).wf(),
            Compiler::progresses(*old(self), *final(self)),
            final(self).current == old(self).current,
            final(self).previous == old(self).previous,
            final(self).local_track == old(self).local_track,
            final(self).generator().pending() == old(self).generator().pending(),
            final(self).scanner == old(self).scanner,
            Compiler::emits_delta(*old(self), *final(self), 1),
            old(self).chunk_view().constants.len() < 256 && !final(self).spec_had_error()
                ==> final(self).chunk_view().code == old(self).chunk_view().code.push(
                OpCode::CONSTANT.spec_byte(),
            ).push((old(self).chunk_view().constants.len()) as u8)
                && final(self).chunk_view().constants == old(self).chunk_view().constants.push(
                value@,
            ),
    {
        let ghost pre = *self;
        let idx = self.make_constant(value);
        let ghost mid = *self;
        let line = self.line_for_emit();
        self.gen.emit_op_u8(OpCode::CONSTANT, idx, line);
        proof {
            lemma_extends_trans(pre.generator(), mid.generator(), self.generator());
            assert(delta_sum(
                mid.chunk_view().code,
                mid.generator().starts(),
                pre.generator().instr_count(),
                mid.generator().instr_count(),
            ) == 0);
            lemma_compose_delta(pre.generator(), mid.generator(), self.generator(), 0, 1);
        }
    }

    /// Prefix handler for a number literal: load its double.
    fn parse_number(&mut self)
        requires
            old(self).wf(),
            old(self).cur() is Some,
            old(self).prev() matches Some(t) && t.token_type == TokenType::NUMBER,
        ensures
            final(self).wf(),
            Compiler::expr_frame(*old(self), *final(self)),
            Compiler::emits_delta(*old(self), *final(self), 1),
    {
        let bits = match &self.previous {
            Some(t) => match crate::number::parse_double(t.lexeme.as_slice()) {
                Some(b) => b,
                None => vstd::pervasive::unreached(),
            },
            None => vstd::pervasive::unreached(),
        };
        self.emit_constant(ValueType::Number(bits));
    }

    /// Prefix handler for a string literal: load its text.
    fn string(&mut self, _can_assign: bool)
        requires
            old(self).wf(),
            old(self).cur() is Some,
            old(self).prev() is Some,
        ensures
            final(self).wf(),
            Compiler::expr_frame(*old(self), *final(self)),
            Compiler::emits_delta(*old(self), *final(self), 1),
    {
        let text = match &self.previous {
            Some(t) => vstd::slice::slice_to_vec(t.lexeme.as_slice()),
            None => vstd::pervasive::unreached(),
        };
        self.emit_constant(
            ValueType::Obj(crate::value::Object::ObjString(crate::value::ObjString::new(text))),
        );
    }

    /// Prefix handler for `false`, `nil` and `true`.
    fn parse_literal(&mut self)
        requires
            old(self).wf(),
            old(self).cur() is Some,
            old(self).prev() matches Some(t) && (t.token_type == TokenType::FALSE || t.token_type
                == TokenType::NIL || t.token_type == TokenType::TRUE),
        ensures
            final(self).wf(),
            Compiler::expr_frame(*old(self), *final(self)),
            Compiler::emits_delta(*old(self), *final(self), 1),
    {
        let tt = match &self.previous {
            Some(t) => t.token_type,
            None => vstd::pervasive::unreached(),
        };
        let line = self.line_for_emit();
        match tt {
            TokenType::FALSE => self.gen.emit_op(OpCode::FALSE, line),
            TokenType::NIL => self.gen.emit_op(OpCode::NIL, line),
            _ => self.gen.emit_op(OpCode::TRUE, line),
        }
    }

    /// Prefix handler for a parenthesised expression.
    fn parse_grouping(&mut self, _can_assign: bool)
        requires
            old(self).wf(),
            old(self).cur() is Some,
            old(self).prev() is Some,
        ensures
            final(self).wf(),
            Compiler::expr_frame(*old(self), *final(self)),
            Compiler::emits_delta(*old(self), *final(self), 1),
        decreases old(self).rem(), old(self).cflag(), 6int,
    {
        self.expression();
        self.consume(TokenType::RIGHTPAREN, text_expect_rparen_after_expression());
    }

    /// Prefix handler for `-` and `!`.
    fn parse_unary(&mut self)
        requires
            old(self).wf(),
            old(self).cur() is Some,
            old(self).prev() matches Some(t) && (t.token_type == TokenType::MINUS || t.token_type
                == TokenType::BANG),
        ensures
            final(self).wf(),
            Compiler::expr_frame(*old(self), *final(self)),
            Compiler::emits_delta(*old(self), *final(self), 1),
        decreases old(self).rem(), old(self).cflag(), 6int,
    {
        let ghost pre = *self;
        let op_tt = match &self.previous {
            Some(t) => t.token_type,
            None => vstd::pervasive::unreached(),
        };
        self.parse_precedence(Precedence::UNARY);
        let ghost mid = *self;
        let line = self.line_for_emit();
        match op_tt {
            TokenType::MINUS => self.gen.emit_op(OpCode::NEGATE, line),
            _ => self.gen.emit_op(OpCode::NOT, line),
        }
        proof {
            lemma_extends_trans(pre.generator(), mid.generator(), self.generator());
            lemma_progresses_trans(pre, mid, *self);
            if !self.spec_had_error() {
                lemma_compose_delta(pre.generator(), mid.generator(), self.generator(), 1, 0);
            }
        }
    }

    /// Infix handler for the binary operators; the right operand binds one
    /// level tighter, giving left associativity.
    #[verifier::rlimit(100)]
    #[verifier::spinoff_prover]
    fn parse_binary(&mut self)
        requires
            old(self).wf(),
            old(self).cur() is Some,
            old(self).prev() matches Some(t) && spec_rule(t.token_type).infix == Some(
                InfixFn::Binary,
            ),
        ensures
            final(self).wf(),
            Compiler::expr_frame(*old(self), *final(self)),
            Compiler::emits_delta(*old(self), *final(self), 0),
            // The operator's code comes last: not-equal is EQUAL then NOT,
            // the compound comparisons the negation of their duals.
            !final(self).spec_had_error() ==> ({
                let tail = binary_op_bytes(old(self).prev()->Some_0.token_type);
                let n = final(self).chunk_view().code.len() as int;
                &&& n >= tail.len()
                &&& final(self).chunk_view().code.subrange(n - tail.len(), n) == tail
            }),
        decreases old(self).rem(), old(self).cflag(), 6int,
    {
        let ghost pre = *self;
        let op_tt = match &self.previous {
            Some(t) => t.token_type,
            None => vstd::pervasive::unreached(),
        };
        let rule = get_rule(op_tt);
        self.parse_precedence(rule.precedence.one_higher());
        let ghost mid = *self;
        let line = self.line_for_emit();
        // The operator's instructions: the compound comparisons negate
        // their duals with a trailing NOT.
        let (first, with_not) = match op_tt {
            TokenType::BANGEQUAL => (OpCode::EQUAL, true),
            TokenType::EQUALEQUAL => (OpCode::EQUAL, false),
            TokenType::GREATER => (OpCode::GREATER, false),
            TokenType::GREATEREQUAL => (OpCode::LESS, true),
            TokenType::LESS => (OpCode::LESS, false),
            TokenType::LESSEQUAL => (OpCode::GREATER, true),
            TokenType::PLUS => (OpCode::ADD, false),
            TokenType::MINUS => (OpCode::SUBTRACT, false),
            TokenType::STAR => (OpCode::MULTIPLY, false),
            _ => (OpCode::DIVIDE, false),
        };
        proof {
            assert(binary_op_bytes(op_tt) == if with_not {
                seq![first.spec_byte(), OpCode::NOT.spec_byte()]
            } else {
                seq![first.spec_byte()]
            });
        }
        self.gen.emit_op(first, line);
        if with_not {
            let ghost mid2 = *self;
            let line2 = self.line_for_emit();
            self.gen.emit_op(OpCode::NOT, line2);
            proof {
                lemma_compose_delta(mid.generator(), mid2.generator(), self.generator(), -1, 0);
            }
        }
        proof {
            lemma_extends_trans(pre.generator(), mid.generator(), self.generator());
            lemma_progresses_trans(pre, mid, *self);
            if !self.spec_had_error() {
                lemma_compose_delta(pre.generator(), mid.generator(), self.generator(), 1, -1);
                let tail = binary_op_bytes(op_tt);
                let n = self.chunk_view().code.len() as int;
                assert(self.chunk_view().code.subrange(n - tail.len(), n) =~= tail);
            }
        }
    }

    /// Prefix handler for an identifier: a read of, or assignment to, a
    /// variable.
    fn variable(&mut self, can_assign: bool)
        requires
            old(self).wf(),
            old(self).cur() is Some,
            old(self).prev() is Some,
        ensures
            final(self).wf(),
            Compiler::expr_frame(*old(self), *final(self)),
            Compiler::emits_delta(*old(self), *final(self), 1),
        decreases old(self).rem(), old(self).cflag(), 6int,
    {
        let name = match &self.previous {
            Some(t) => t.clone_token(),
            None => vstd::pervasive::unreached(),
        };
        self.named_variable(name, can_assign);
    }

    /// Resolve a name to a local slot or a global; emit the matching get,
    /// or compile the right-hand side and emit the matching set.
    #[verifier::rlimit(100)]
    #[verifier::spinoff_prover]
    fn named_variable(&mut self, name: Token, can_assign: bool)
        requires
            old(self).wf(),
            old(self).cur() is Some,
            old(self).prev() is Some,
        ensures
            final(self).wf(),
            Compiler::expr_frame(*old(self), *final(self)),
            Compiler::emits_delta(*old(self), *final(self), 1),
        decreases old(self).rem(), old(self).cflag(), 5int,
    {
        let ghost pre = *self;
        let resolved = self.resolve_local(&name);
        let (arg, is_local) = match resolved {
            Some(slot) => (slot, true),
            None => (self.identifier_constant(&name), false),
        };
        let ghost mid = *self;
        if can_assign && self.match_token(TokenType::EQUAL) {
            self.expression();
            let ghost mid2 = *self;
            let line = self.line_for_emit();
            if is_local {
                self.gen.emit_op_u8(OpCode::SetLocal, arg, line);
            } else {
                self.gen.emit_op_u8(OpCode::SetGlobal, arg, line);
            }
            proof {
                lemma_extends_trans(mid.generator(), mid2.generator(), self.generator());
                lemma_extends_trans(pre.generator(), mid.generator(), self.generator());
                lemma_progresses_trans(mid, mid2, *self);
                lemma_progresses_trans(pre, mid, *self);
                if !self.spec_had_error() {
                    lemma_compose_delta(
                        mid.generator(),
                        mid2.generator(),
                        self.generator(),
                        1,
                        0,
                    );
                    lemma_compose_delta(
                        pre.generator(),
                        mid.generator(),
                        self.generator(),
                        0,
                        1,
                    );
                }
            }
        } else {
            let line = self.line_for_emit();
            if is_local {
                self.gen.emit_op_u8(OpCode::GetLocal, arg, line);
            } else {
                self.gen.emit_op_u8(OpCode::GetGlobal, arg, line);
            }
            proof {
                lemma_extends_trans(pre.generator(), mid.generator(), self.generator());
                lemma_progresses_trans(pre, mid, *self);
                if !self.spec_had_error() {
                    lemma_compose_delta(
                        pre.generator(),
                        mid.generator(),
                        self.generator(),
                        0,
                        1,
                    );
                }
            }
        }
    }

    /// Parse one expression.
    fn expression(&mut self)
        requires
            old(self).wf(),
            old(self).cur() is Some,
        ensures
            final(self).wf(),
            Compiler::expr_frame(*old(self), *final(self)),
            Compiler::emits_delta(*old(self), *final(self), 1),
            (old(self).cur() matches Some(t) && t.token_type != TokenType::EOF) ==> m_lt(
                final(self).metric(),
                old(self).metric(),
            ),
        decreases old(self).rem(), old(self).cflag(), 4int,
    {
        self.parse_precedence(Precedence::ASSIGNMENT);
    }

    /// The Pratt driver: consume a token, run its prefix rule, then fold in
    /// infix operators of at least the given precedence.
    #[verifier::rlimit(100)]
    #[verifier::spinoff_prover]
    fn parse_precedence(&mut self, prec: Precedence)
        requires
            old(self).wf(),
            old(self).cur() is Some,
            1 <= prec.spec_level(),
        ensures
            final(self).wf(),
            Compiler::expr_frame(*old(self), *final(self)),
            Compiler::emits_delta(*old(self), *final(self), 1),
            (old(self).cur() matches Some(t) && t.token_type != TokenType::EOF) ==> m_lt(
                final(self).metric(),
                old(self).metric(),
            ),
        decreases old(self).rem(), old(self).cflag(), 3int,
    {
        let ghost pre = *self;
        self.advance();
        let prev_tt = match &self.previous {
            Some(t) => t.token_type,
            None => vstd::pervasive::unreached(),
        };
        let rule = get_rule(prev_tt);
        let pf = match rule.prefix {
            Some(pf) => pf,
            None => {
                self.error_here(text_expect_expression());
                return ;
            },
        };
        proof {
            assert(prev_tt != TokenType::EOF);
        }
        let ghost post_advance = *self;
        let can_assign = prec.level() <= 1;
        match pf {
            PrefixFn::Grouping => self.parse_grouping(can_assign),
            PrefixFn::Unary => self.parse_unary(),
            PrefixFn::NumberLit => self.parse_number(),
            PrefixFn::StringLit => self.string(can_assign),
            PrefixFn::Literal => self.parse_literal(),
            PrefixFn::Variable => self.variable(can_assign),
        }
        proof {
            lemma_progresses_trans(pre, post_advance, *self);
        }
        let ghost loop_base = *self;
        loop
            invariant
                self.wf(),
                self.cur() is Some,
                Compiler::expr_frame(pre, *self),
                Compiler::expr_frame(loop_base, *self),
                Compiler::emits_delta(pre, *self, 1),
                m_lt(self.metric(), pre.metric()),
            decreases self.rem(), self.cflag(),
        {
            let ct = match &self.current {
                Some(t) => t.token_type,
                None => vstd::pervasive::unreached(),
            };
            let crule = get_rule(ct);
            if !(prec.level() <= crule.precedence.level()) {
                break ;
            }
            proof {
                assert(ct != TokenType::EOF);
            }
            let ghost it0 = *self;
            self.advance();
            let pt = match &self.previous {
                Some(t) => t.token_type,
                None => vstd::pervasive::unreached(),
            };
            let ghost it1 = *self;
            match get_rule(pt).infix {
                Some(InfixFn::Binary) => {
                    self.parse_binary();
                },
                None => {},
            }
            let ghost it2 = *self;
            if can_assign && self.match_token(TokenType::EQUAL) {
                self.error_here(text_invalid_assignment_target());
            }
            proof {
                lemma_progresses_trans(it0, it1, *self);
                lemma_progresses_trans(it1, it2, *self);
                lemma_progresses_trans(pre, it0, *self);
                lemma_progresses_trans(loop_base, it0, *self);
                lemma_extends_trans(it1.generator(), it2.generator(), self.generator());
                if !self.spec_had_error() {
                    lemma_compose_delta(
                        it1.generator(),
                        it2.generator(),
                        self.generator(),
                        0,
                        0,
                    );
                    lemma_compose_delta(
                        it0.generator(),
                        it1.generator(),
                        self.generator(),
                        0,
                        0,
                    );
                    lemma_compose_delta(
                        pre.generator(),
                        it0.generator(),
                        self.generator(),
                        1,
                        0,
                    );
                }
            }
        }
    }
}



proof fn lemma_scope_pop_step(locs0: Seq<Local>, locs_pre: Seq<Local>, d: int)
    requires
        locs_pre == locs0.take(locs_pre.len() as int),
        0 < locs_pre.len() <= locs0.len(),
        deeper_than(locs_pre.last(), d),
    ensures
        locs_pre.drop_last() == locs0.take(locs_pre.len() - 1),
        pops_needed(locs_pre, d) == 1 + pops_needed(locs_pre.drop_last(), d),
{
    assert(locs_pre.drop_last() =~= locs0.take(locs_pre.len() - 1));
}

proof fn lemma_pop_seq_step(code0: Seq<u8>, j: int)
    requires
        j >= 0,
    ensures
        (code0 + pop_seq(j)).push(OpCode::POP.spec_byte()) == code0 + pop_seq(j + 1),
{
    assert((code0 + pop_seq(j)).push(OpCode::POP.spec_byte()) =~= code0 + pop_seq(j + 1));
}

impl Compiler {
    /// What every statement-level parse preserves: jumps it opens are
    /// patched again unless compilation failed, and already-pending jumps
    /// survive.
    pub open spec fn stmt_frame(pre: Compiler, post: Compiler) -> bool {
        &&& Compiler::progresses(pre, post)
        &&& post.cur() is Some
        &&& post.prev() is Some
        &&& post.scope() == pre.scope()
        &&& (forall|o: int|
            pre.generator().pending().contains(o) ==> post.generator().pending().contains(o))
        &&& (!post.spec_had_error() ==> post.generator().pending() == pre.generator().pending())
    }

    /// Emit a jump with a placeholder operand and return the offset to
    /// patch. A chunk so large that the operand position cannot be
    /// addressed is reported like an overlong jump.
    pub fn emit_jump(&mut self, op: OpCode) -> (r: Option<usize>)
        requires
            old(self).wf(),
            op matches OpCode::JUMP || op matches OpCode::JumpIfFalse,
            old(self).prev() is Some,
        ensures
            final(self).wf(),
            Compiler::progresses(*old(self), *final(self)),
            final(self).cur() == old(self).cur(),
            final(self).prev() == old(self).prev(),
            final(self).metric() == old(self).metric(),
            final(self).locals() == old(self).locals(),
            final(self).scope() == old(self).scope(),
            match r {
                Some(offset) => {
                    &&& !old(self).generator().pending().contains(offset as int)
                    &&& final(self).generator().pending()
                        == old(self).generator().pending().insert(offset as int)
                    &&& final(self).spec_had_error() == old(self).spec_had_error()
                    &&& final(self).generator().instr_count()
                        == old(self).generator().instr_count() + 1
                    &&& delta_sum(
                        final(self).chunk_view().code,
                        final(self).generator().starts(),
                        old(self).generator().instr_count(),
                        final(self).generator().instr_count(),
                    ) == 0
                    &&& offset + 2 == final(self).chunk_view().code.len()
                    &&& final(self).chunk_view().code == old(self).chunk_view().code.push(
                        op.spec_byte(),
                    ).push(255u8).push(255u8)
                    &&& final(self).chunk_view().lines == old(self).chunk_view().lines.push(
                        old(self).emit_line(),
                    ).push(old(self).emit_line()).push(old(self).emit_line())
                    &&& final(self).chunk_view().constants == old(self).chunk_view().constants
                },
                None => final(self).spec_had_error() && final(self).generator() == old(self).generator(),
            },
    {
        if self.gen.code_len() >= usize::MAX - 3 {
            self.error_here(text_too_much_code_to_jump());
            return None;
        }
        let line = self.line_for_emit();
        let offset = self.gen.emit_jump_op(op, line);
        Some(offset)
    }

    /// Point a pending jump at the present end of the code: afterwards the
    /// big-endian operand, added to the position just past it, gives
    /// exactly the end of the code at patch time.
    #[verifier::rlimit(100)]
    #[verifier::spinoff_prover]
    pub fn patch_jump(&mut self, offset: usize)
        requires
            old(self).wf(),
            old(self).generator().pending().contains(offset as int),
            old(self).prev() is Some,
        ensures
            final(self).wf(),
            Compiler::progresses(*old(self), *final(self)),
            final(self).cur() == old(self).cur(),
            final(self).prev() == old(self).prev(),
            final(self).metric() == old(self).metric(),
            final(self).locals() == old(self).locals(),
            final(self).scope() == old(self).scope(),
            final(self).generator().pending() == old(self).generator().pending().remove(
                offset as int,
            ),
            final(self).generator().instr_count() == old(self).generator().instr_count(),
            final(self).chunk_view().code.len() == old(self).chunk_view().code.len(),
            final(self).chunk_view().lines == old(self).chunk_view().lines,
            final(self).chunk_view().constants == old(self).chunk_view().constants,
            code_preserved_but(
                old(self).chunk_view().code,
                final(self).chunk_view().code,
                offset as int,
            ),
            old(self).chunk_view().code.len() - offset - 2 <= 65535 ==> spec_jump_operand(
                final(self).chunk_view().code,
                offset - 1,
            ) == old(self).chunk_view().code.len() - offset - 2 && final(self).spec_had_error()
                == old(self).spec_had_error() && final(self).diags() == old(self).diags(),
            old(self).chunk_view().code.len() - offset - 2 > 65535
                ==> final(self).spec_had_error() && (!old(self).spec_panic()
                ==> final(self).diags().len() == old(self).diags().len() + 1
                && final(self).diags().last().message@ == msg_too_much_code_to_jump()),
    {
        let ghost pre = *self;
        let fits = self.gen.patch_jump_at(offset);
        proof {
            assert(code_preserved_but(
                pre.chunk_view().code,
                self.chunk_view().code,
                offset as int,
            )) by {
                reveal(code_preserved_but);
            }
        }
        if !fits {
            self.error_here(text_too_much_code_to_jump());
        }
    }

    /// Open a block scope.
    fn begin_scope(&mut self)
        requires
            old(self).wf(),
            old(self).scope() + 1 + old(self).cflag() <= old(self).scanner@.current,
        ensures
            final(self).wf(),
            Compiler::progresses(*old(self), *final(self)),
            final(self).current == old(self).current,
            final(self).previous == old(self).previous,
            final(self).scanner == old(self).scanner,
            final(self).gen == old(self).gen,
            final(self).locals() == old(self).locals(),
            final(self).scope() == old(self).scope() + 1,
            final(self).spec_had_error() == old(self).spec_had_error(),
    {
        self.local_track.begin();
    }

    /// Close a block scope: pop every local the block declared, one POP
    /// instruction per local and no more.
    #[verifier::rlimit(100)]
    #[verifier::spinoff_prover]
    fn end_scope(&mut self)
        requires
            old(self).wf(),
            old(self).scope() >= 1,
        ensures
            final(self).wf(),
            Compiler::progresses(*old(self), *final(self)),
            final(self).current == old(self).current,
            final(self).previous == old(self).previous,
            final(self).scanner == old(self).scanner,
            final(self).scope() == old(self).scope() - 1,
            final(self).generator().pending() == old(self).generator().pending(),
            final(self).spec_had_error() == old(self).spec_had_error(),
            final(self).locals() == old(self).locals().take(
                old(self).locals().len() - pops_needed(old(self).locals(), old(self).scope() - 1),
            ),
            final(self).chunk_view().code == old(self).chunk_view().code + pop_seq(
                pops_needed(old(self).locals(), old(self).scope() - 1),
            ),
    {
        self.local_track.end();
        let ghost d = old(self).scope() - 1;
        let ghost locs0 = old(self).locals();
        let ghost code0 = old(self).chunk_view().code;
        proof {
            assert(locs0.take(locs0.len() as int) =~= locs0);
            assert(code0 + pop_seq(0) =~= code0);
        }
        loop
            invariant
                self.wf(),
                self.current == old(self).current,
                self.previous == old(self).previous,
                self.scanner == old(self).scanner,
                self.scope() == d,
                Compiler::progresses(*old(self), *self),
                self.generator().pending() == old(self).generator().pending(),
                self.spec_had_error() == old(self).spec_had_error(),
                self.locals().len() <= locs0.len(),
                self.locals() == locs0.take(self.locals().len() as int),
                self.chunk_view().code == code0 + pop_seq(locs0.len() - self.locals().len()),
                pops_needed(locs0, d) == (locs0.len() - self.locals().len()) + pops_needed(
                    self.locals(),
                    d,
                ),
            decreases self.locals().len(),
        {
            let cnt = self.local_track.count();
            if cnt == 0 {
                break ;
            }
            let cur_depth = self.local_track.scope_depth;
            let pop_it = match &self.local_track.locals[cnt - 1].depth {
                Some(dd) => *dd > cur_depth,
                None => false,
            };
            if !pop_it {
                break ;
            }
            let ghost locs_pre = self.locals();
            let ghost j_pre = locs0.len() - locs_pre.len();
            let ghost code_pre = self.chunk_view().code;
            let line = self.line_for_emit();
            self.gen.emit_op(OpCode::POP, line);
            let _ = self.local_track.locals.pop();
            proof {
                lemma_scope_pop_step(locs0, locs_pre, d);
                lemma_pop_seq_step(code0, j_pre);
                assert(self.locals() =~= locs_pre.drop_last());
                assert(self.chunk_view().code == code_pre.push(OpCode::POP.spec_byte()));
            }
        }
        proof {
            assert(pops_needed(self.locals(), d) == 0);
        }
    }

    /// Track a declared local, or report that the function has too many.
    fn add_local(&mut self, name: Token)
        requires
            old(self).wf(),
            old(self).prev() is Some,
        ensures
            final(self).wf(),
            Compiler::progresses(*old(self), *final(self)),
            final(self).current == old(self).current,
            final(self).previous == old(self).previous,
            final(self).scanner == old(self).scanner,
            final(self).gen == old(self).gen,
            final(self).scope() == old(self).scope(),
            old(self).locals().len() < 256 ==> final(self).locals() == old(self).locals().push(
                Local { name, depth: None },
            ) && final(self).spec_had_error() == old(self).spec_had_error() && final(self).diags()
                == old(self).diags() && final(self).spec_panic() == old(self).spec_panic(),
            old(self).locals().len() >= 256 ==> final(self).locals() == old(self).locals()
                && final(self).spec_had_error(),
    {
        if self.local_track.count() >= 256 {
            self.error_here(text_too_many_locals());
            return ;
        }
        let idx = self.local_track.count() as u8;
        self.local_track.add_local_at_idx(Local { name, depth: None }, idx);
    }

    /// In a block, declare the variable: shadowing within the same scope is
    /// the redeclaration error; at the top level, nothing to track.
    fn declare_variable(&mut self)
        requires
            old(self).wf(),
            old(self).prev() is Some,
        ensures
            final(self).wf(),
            Compiler::progresses(*old(self), *final(self)),
            final(self).current == old(self).current,
            final(self).previous == old(self).previous,
            final(self).scanner == old(self).scanner,
            final(self).gen == old(self).gen,
            final(self).scope() == old(self).scope(),
            old(self).scope() == 0 ==> *final(self) == *old(self),
            final(self).locals() == old(self).locals() || (final(self).locals().len()
                == old(self).locals().len() + 1 && final(self).locals().last().depth is None),
            // The shadow check: redeclaring a name in the open scope is the
            // specific error, reported exactly then.
            (old(self).scope() > 0 && old(self).locals().len() < 256) ==> ({
                let sh = shadows_in_scope(
                    old(self).locals(),
                    old(self).prev()->Some_0.lexeme@,
                    old(self).scope(),
                );
                &&& (sh ==> final(self).spec_had_error())
                &&& (!sh ==> final(self).spec_had_error() == old(self).spec_had_error())
                &&& (!old(self).spec_panic() ==> final(self).diags().len() == old(
                    self,
                ).diags().len() + (if sh {
                    1int
                } else {
                    0int
                }) && (sh ==> final(self).diags().last().message@
                    == msg_already_variable_in_scope()))
                &&& final(self).locals() == old(self).locals().push(
                    Local { name: final(self).locals().last().name, depth: None },
                )
                &&& final(self).locals().last().name.lexeme@ == old(self).prev()->Some_0.lexeme@
            }),
    {
        let ghost locs = self.locals();
        let ghost d_spec = self.scope();
        let d = *self.local_track.depth();
        if d == 0 {
            return ;
        }
        let name = match &self.previous {
            Some(t) => t.clone_token(),
            None => vstd::pervasive::unreached(),
        };
        let ghost nm = name.lexeme@;
        let n = self.local_track.count();
        let ghost mut found: bool = false;
        proof {
            assert(locs.take(n as int) =~= locs);
        }
        let mut i: usize = n;
        while i > 0
            invariant
                0 <= i <= n,
                n == self.locals().len(),
                self.wf(),
                self.current == old(self).current,
                self.previous == old(self).previous,
                self.scanner == old(self).scanner,
                self.gen == old(self).gen,
                self.local_track == old(self).local_track,
                Compiler::progresses(*old(self), *self),
                name.lexeme@ == old(self).prev()->Some_0.lexeme@,
                locs == old(self).locals(),
                d_spec == old(self).scope(),
                d as int == d_spec,
                shadows_in_scope(locs, nm, d_spec) == (found || shadows_in_scope(
                    locs.take(i as int),
                    nm,
                    d_spec,
                )),
                found ==> self.had_error && self.panic_mode,
                (found && !old(self).spec_panic()) ==> self.diagnostics@.len() == old(
                    self,
                ).diagnostics@.len() + 1 && self.diagnostics@.last().message@
                    == msg_already_variable_in_scope(),
                !found ==> self.diagnostics@ == old(self).diagnostics@ && self.had_error == old(
                    self,
                ).had_error && self.panic_mode == old(self).panic_mode,
            decreases i,
        {
            i = i - 1;
            proof {
                assert(locs.take(i + 1).drop_last() =~= locs.take(i as int));
                assert(locs.take(i + 1).last() == locs[i as int]);
            }
            let stop = match &self.local_track.locals[i].depth {
                None => true,
                Some(dd) => *dd < d,
            };
            if stop {
                proof {
                    assert(!shadows_in_scope(locs.take(i + 1), nm, d_spec));
                }
                break ;
            }
            if crate::value::bytes_equal(&self.local_track.locals[i].name.lexeme, &name.lexeme) {
                proof {
                    assert(shadows_in_scope(locs.take(i + 1), nm, d_spec));
                }
                self.error_here(text_already_variable_in_scope());
                proof {
                    found = true;
                }
            } else {
                proof {
                    assert(shadows_in_scope(locs.take(i + 1), nm, d_spec) == shadows_in_scope(
                        locs.take(i as int),
                        nm,
                        d_spec,
                    ));
                }
            }
        }
        proof {
            if !found {
                assert(locs.take(0) =~= Seq::<Local>::empty());
            }
            assert(shadows_in_scope(locs, nm, d_spec) == found);
        }
        self.add_local(name);
    }

    /// Consume the variable's name; at the top level, intern it in the pool
    /// and return its index.
    fn parse_variable(&mut self, err_msg: Vec<u8>) -> (r: u8)
        requires
            old(self).wf(),
            old(self).cur() is Some,
            old(self).prev() is Some,
        ensures
            final(self).wf(),
            Compiler::progresses(*old(self), *final(self)),
            final(self).cur() is Some,
            final(self).prev() is Some,
            final(self).scope() == old(self).scope(),
            final(self).generator().pending() == old(self).generator().pending(),
            final(self).generator().starts() == old(self).generator().starts(),
            final(self).chunk_view().code == old(self).chunk_view().code,
            final(self).scope() == 0 ==> r < final(self).chunk_view().constants.len(),
            (old(self).scope() == 0 && !final(self).spec_had_error())
                ==> final(self).chunk_view().constants[r as int] == AbsValue::Str(
                old(self).cur()->Some_0.lexeme@,
            ),
    {
        let ghost pre = *self;
        self.consume(TokenType::IDENTIFIER, err_msg);
        let ghost mid = *self;
        self.declare_variable();
        proof {
            lemma_progresses_trans(pre, mid, *self);
        }
        if *self.local_track.depth() > 0 {
            return 0;
        }
        let name = match &self.previous {
            Some(t) => t.clone_token(),
            None => vstd::pervasive::unreached(),
        };
        let ghost mid2 = *self;
        let r = self.identifier_constant(&name);
        proof {
            lemma_progresses_trans(pre, mid2, *self);
        }
        r
    }

    /// Mark the newest local as initialized at the present depth.
    fn mark_initialized(&mut self)
        requires
            old(self).wf(),
        ensures
            final(self).wf(),
            Compiler::progresses(*old(self), *final(self)),
            final(self).current == old(self).current,
            final(self).previous == old(self).previous,
            final(self).scanner == old(self).scanner,
            final(self).gen == old(self).gen,
            final(self).scope() == old(self).scope(),
            final(self).spec_had_error() == old(self).spec_had_error(),
            final(self).locals().len() == old(self).locals().len(),
    {
        let cnt = self.local_track.count();
        if cnt == 0 {
            return ;
        }
        let name = self.local_track.locals[cnt - 1].name.clone_token();
        let d = self.local_track.scope_depth;
        self.local_track.locals[cnt - 1] = Local { name, depth: Some(d) };
    }

    /// Define the declared variable: a global becomes a DefineGlobal of its
    /// interned name; a local simply becomes initialized, its value already
    /// sitting in its slot.
    fn define_variable(&mut self, global: u8)
        requires
            old(self).wf(),
            old(self).scope() == 0 ==> global < old(self).chunk_view().constants.len(),
        ensures
            final(self).wf(),
            Compiler::progresses(*old(self), *final(self)),
            final(self).current == old(self).current,
            final(self).previous == old(self).previous,
            final(self).scanner == old(self).scanner,
            final(self).scope() == old(self).scope(),
            final(self).generator().pending() == old(self).generator().pending(),
            final(self).spec_had_error() == old(self).spec_had_error(),
            old(self).scope() == 0 ==> final(self).chunk_view().code
                == old(self).chunk_view().code.push(OpCode::DefineGlobal.spec_byte()).push(
                global,
            ),
            old(self).scope() > 0 ==> final(self).generator() == old(self).generator(),
            Compiler::emits_delta(
                *old(self),
                *final(self),
                if old(self).scope() == 0 {
                    -1int
                } else {
                    0int
                },
            ),
    {
        if *self.local_track.depth() > 0 {
            self.mark_initialized();
            return ;
        }
        let line = self.line_for_emit();
        self.gen.emit_op_u8(OpCode::DefineGlobal, global, line);
    }

    /// var declaration: `var NAME ( = expression )? ;`. With no
    /// initializer the variable starts as nil.
    #[verifier::rlimit(100)]
    #[verifier::spinoff_prover]
    fn var_declaration(&mut self)
        requires
            old(self).wf(),
            old(self).cur() is Some,
            old(self).prev() is Some,
        ensures
            final(self).wf(),
            Compiler::stmt_frame(*old(self), *final(self)),
            // A declaration's net stack effect: a global's initializer is
            // consumed by DefineGlobal; a local's stays as its slot.
            Compiler::emits_delta(
                *old(self),
                *final(self),
                if old(self).scope() == 0 {
                    0int
                } else {
                    1int
                },
            ),
            // At the top level the emitted code ends with DefineGlobal of
            // the variable's interned name.
            (!final(self).spec_had_error() && old(self).scope() == 0) ==> ({
                let code = final(self).chunk_view().code;
                let n = code.len() as int;
                &&& n >= 2
                &&& code[n - 2] == OpCode::DefineGlobal.spec_byte()
                &&& code[n - 1] < final(self).chunk_view().constants.len()
                &&& final(self).chunk_view().constants[code[n - 1] as int] == AbsValue::Str(
                    old(self).cur()->Some_0.lexeme@,
                )
            }),
        decreases old(self).rem(), old(self).cflag(), 6int,
    {
        let ghost pre = *self;
        let global = self.parse_variable(text_expect_variable_name());
        let ghost mid = *self;
        if self.match_token(TokenType::EQUAL) {
            self.expression();
        } else {
            let line = self.line_for_emit();
            self.gen.emit_op(OpCode::NIL, line);
        }
        let ghost mid2 = *self;
        proof {
            lemma_progresses_trans(pre, mid, *self);
            if !self.spec_had_error() {
                lemma_compose_delta(pre.generator(), mid.generator(), self.generator(), 0, 1);
            }
        }
        self.consume(TokenType::SEMICOLON, text_expect_semicolon_after_var());
        let ghost mid3 = *self;
        proof {
            lemma_progresses_trans(pre, mid2, *self);
        }
        self.define_variable(global);
        proof {
            lemma_progresses_trans(pre, mid3, *self);
            if !self.spec_had_error() {
                lemma_compose_delta(
                    pre.generator(),
                    mid3.generator(),
                    self.generator(),
                    1,
                    if pre.scope() == 0 {
                        -1int
                    } else {
                        0int
                    },
                );
            }
        }
    }

    /// print statement: evaluate, then emit PRINT.
    #[verifier::rlimit(100)]
    #[verifier::spinoff_prover]
    fn print_statement(&mut self)
        requires
            old(self).wf(),
            old(self).cur() is Some,
        ensures
            final(self).wf(),
            Compiler::stmt_frame(*old(self), *final(self)),
            Compiler::emits_delta(*old(self), *final(self), 0),
            (old(self).cur() matches Some(t) && t.token_type != TokenType::EOF) ==> m_lt(
                final(self).metric(),
                old(self).metric(),
            ),
        decreases old(self).rem(), old(self).cflag(), 6int,
    {
        let ghost pre = *self;
        self.expression();
        let ghost mid = *self;
        self.consume(TokenType::SEMICOLON, text_expect_semicolon_after_value());
        let ghost mid2 = *self;
        let line = self.line_for_emit();
        self.gen.emit_op(OpCode::PRINT, line);
        proof {
            lemma_progresses_trans(pre, mid, mid2);
            lemma_progresses_trans(pre, mid2, *self);
            if !self.spec_had_error() {
                assert(mid2.generator() == mid.generator());
                lemma_compose_delta(
                    pre.generator(),
                    mid2.generator(),
                    self.generator(),
                    1,
                    -1,
                );
            }
        }
    }

    /// expression statement: evaluate, then discard the value; its net
    /// stack effect is zero.
    #[verifier::rlimit(100)]
    #[verifier::spinoff_prover]
    fn expression_statement(&mut self)
        requires
            old(self).wf(),
            old(self).cur() is Some,
        ensures
            final(self).wf(),
            Compiler::stmt_frame(*old(self), *final(self)),
            Compiler::emits_delta(*old(self), *final(self), 0),
            (old(self).cur() matches Some(t) && t.token_type != TokenType::EOF) ==> m_lt(
                final(self).metric(),
                old(self).metric(),
            ),
        decreases old(self).rem(), old(self).cflag(), 6int,
    {
        let ghost pre = *self;
        self.expression();
        let ghost mid = *self;
        self.consume(TokenType::SEMICOLON, text_expect_semicolon_after_expression());
        let ghost mid2 = *self;
        let line = self.line_for_emit();
        self.gen.emit_op(OpCode::POP, line);
        proof {
            lemma_progresses_trans(pre, mid, mid2);
            lemma_progresses_trans(pre, mid2, *self);
            if !self.spec_had_error() {
                assert(mid2.generator() == mid.generator());
                lemma_compose_delta(
                    pre.generator(),
                    mid2.generator(),
                    self.generator(),
                    1,
                    -1,
                );
            }
        }
    }

    /// if statement: the condition value is popped exactly once on either
    /// branch; both jumps are patched to land just past their span.
    #[verifier::rlimit(100)]
    #[verifier::spinoff_prover]
    fn if_statement(&mut self)
        requires
            old(self).wf(),
            old(self).cur() is Some,
            old(self).prev() is Some,
        ensures
            final(self).wf(),
            Compiler::stmt_frame(*old(self), *final(self)),
            (old(self).cur() matches Some(t) && t.token_type != TokenType::EOF) ==> m_lt(
                final(self).metric(),
                old(self).metric(),
            ),
        decreases old(self).rem(), old(self).cflag(), 8int,
    {
        let ghost pre = *self;
        self.consume(TokenType::LEFTPAREN, text_expect_lparen_after_if());
        let ghost s1 = *self;
        self.expression();
        proof {
            lemma_progresses_trans(pre, s1, *self);
        }
        let ghost s2 = *self;
        self.consume(TokenType::RIGHTPAREN, text_expect_rparen_after_condition());
        proof {
            lemma_progresses_trans(pre, s2, *self);
        }
        let ghost s3 = *self;
        let then_jump = match self.emit_jump(OpCode::JumpIfFalse) {
            Some(o) => o,
            None => {
                proof {
                    lemma_progresses_trans(pre, s3, *self);
                }
                return ;
            },
        };
        proof {
            lemma_progresses_trans(pre, s3, *self);
        }
        let ghost s4 = *self;
        let line = self.line_for_emit();
        self.gen.emit_op(OpCode::POP, line);
        proof {
            lemma_progresses_trans(pre, s4, *self);
        }
        let ghost s5 = *self;
        self.statement();
        proof {
            lemma_progresses_trans(pre, s5, *self);
        }
        let ghost s6 = *self;
        let else_jump = match self.emit_jump(OpCode::JUMP) {
            Some(o) => o,
            None => {
                proof {
                    lemma_progresses_trans(pre, s6, *self);
                }
                return ;
            },
        };
        proof {
            lemma_progresses_trans(pre, s6, *self);
        }
        let ghost s7 = *self;
        self.patch_jump(then_jump);
        proof {
            lemma_progresses_trans(pre, s7, *self);
        }
        let ghost s8 = *self;
        let line2 = self.line_for_emit();
        self.gen.emit_op(OpCode::POP, line2);
        proof {
            lemma_progresses_trans(pre, s8, *self);
        }
        let ghost s9 = *self;
        if self.match_token(TokenType::ELSE) {
            self.statement();
        }
        proof {
            lemma_progresses_trans(pre, s9, *self);
        }
        let ghost s10 = *self;
        self.patch_jump(else_jump);
        proof {
            lemma_progresses_trans(pre, s10, *self);
            if !self.spec_had_error() {
                assert(final(self).generator().pending() =~= pre.generator().pending());
            }
        }
    }

    /// block: declarations until the closing brace.
    fn block(&mut self)
        requires
            old(self).wf(),
            old(self).cur() is Some,
            old(self).prev() is Some,
        ensures
            final(self).wf(),
            Compiler::stmt_frame(*old(self), *final(self)),
        decreases old(self).rem(), old(self).cflag(), 9int,
    {
        loop
            invariant
                self.wf(),
                self.cur() is Some,
                Compiler::stmt_frame(*old(self), *self),
            decreases self.rem(), self.cflag(),
        {
            if self.check_token(TokenType::RIGHTBRACE) || self.check_token(TokenType::EOF) {
                break ;
            }
            let ghost it0 = *self;
            self.declaration();
            proof {
                lemma_progresses_trans(*old(self), it0, *self);
            }
        }
        let ghost before_consume = *self;
        self.consume(TokenType::RIGHTBRACE, text_expect_rbrace_after_block());
        proof {
            lemma_progresses_trans(*old(self), before_consume, *self);
        }
    }

    /// statement: print, if, a block, or an expression statement.
    fn statement(&mut self)
        requires
            old(self).wf(),
            old(self).cur() is Some,
        ensures
            final(self).wf(),
            Compiler::stmt_frame(*old(self), *final(self)),
            (old(self).cur() matches Some(t) && t.token_type != TokenType::EOF) ==> m_lt(
                final(self).metric(),
                old(self).metric(),
            ),
        decreases old(self).rem(), old(self).cflag(), 7int,
    {
        let ghost pre = *self;
        if self.match_token(TokenType::PRINT) {
            let ghost s1 = *self;
            self.print_statement();
            proof {
                lemma_progresses_trans(pre, s1, *self);
            }
        } else if self.match_token(TokenType::IF) {
            let ghost s1 = *self;
            self.if_statement();
            proof {
                lemma_progresses_trans(pre, s1, *self);
            }
        } else if self.match_token(TokenType::LEFTBRACE) {
            let ghost s1 = *self;
            self.begin_scope();
            let ghost s2 = *self;
            self.block();
            proof {
                lemma_progresses_trans(s1, s2, *self);
            }
            let ghost s3 = *self;
            self.end_scope();
            proof {
                lemma_progresses_trans(pre, s1, s3);
                lemma_progresses_trans(pre, s3, *self);
            }
        } else {
            self.expression_statement();
        }
    }

    /// declaration: a var declaration or a statement, with panic-mode
    /// recovery to the next statement boundary after an error.
    fn declaration(&mut self)
        requires
            old(self).wf(),
            old(self).cur() is Some,
        ensures
            final(self).wf(),
            Compiler::stmt_frame(*old(self), *final(self)),
            (old(self).cur() matches Some(t) && t.token_type != TokenType::EOF) ==> m_lt(
                final(self).metric(),
                old(self).metric(),
            ),
        decreases old(self).rem(), old(self).cflag(), 8int,
    {
        let ghost pre = *self;
        if self.match_token(TokenType::VAR) {
            let ghost s1 = *self;
            self.var_declaration();
            proof {
                lemma_progresses_trans(pre, s1, *self);
            }
        } else {
            self.statement();
        }
        let ghost s2 = *self;
        if self.panic_mode {
            self.synchronize();
            proof {
                lemma_progresses_trans(pre, s2, *self);
            }
        }
    }

    /// Compile the whole source: declarations to the end of the input,
    /// then a final RETURN. True exactly when no diagnostic was reported.
    pub fn compile(&mut self) -> (r: bool)
        requires
            old(self).wf(),
            old(self).cur() is None,
            old(self).generator().pending() == Set::<int>::empty(),
        ensures
            final(self).wf(),
            Compiler::progresses(*old(self), *final(self)),
            r == !final(self).spec_had_error(),
            r ==> final(self).diags().len() == 0,
            !r ==> final(self).diags().len() > 0,
            final(self).chunk_view().code.len() > 0,
            final(self).chunk_view().code.last() == OpCode::RETURN.spec_byte(),
            r ==> boundaries_ok(
                final(self).chunk_view(),
                final(self).generator().starts(),
                Set::<int>::empty(),
            ),
            final(self).chunk_view().wf(),
    {
        let ghost pre = *self;
        self.advance();
        loop
            invariant
                self.wf(),
                self.cur() is Some,
                Compiler::progresses(pre, *self),
                forall|o: int|
                    pre.generator().pending().contains(o)
                        ==> self.generator().pending().contains(o),
                !self.spec_had_error() ==> self.generator().pending() == pre.generator().pending(),
            decreases self.rem(), self.cflag(),
        {
            if self.match_token(TokenType::EOF) {
                break ;
            }
            let ghost it0 = *self;
            self.declaration();
            proof {
                lemma_progresses_trans(pre, it0, *self);
            }
        }
        let ghost s1 = *self;
        let line = self.line_for_emit();
        self.gen.emit_op(OpCode::RETURN, line);
        proof {
            lemma_progresses_trans(pre, s1, *self);
            if !self.spec_had_error() {
                assert(self.generator().pending() =~= Set::<int>::empty());
            }
        }
        !self.had_error
    }

    /// The diagnostics reported so far, in order.
    pub fn diagnostics(&self) -> (r: &Vec<Diagnostic>)
        ensures
            r@ == self.diags(),
    {
        &self.diagnostics
    }

    /// Hand over the compiled chunk and the diagnostics.
    pub fn into_parts(self) -> (r: (Chunk, Vec<Diagnostic>))
        ensures
            r.0@ == self.chunk_view(),
            r.1@ == self.diags(),
    {
        (self.gen.into_chunk(), self.diagnostics)
    }
}

/// In a finished chunk every constant-family instruction carries an index
/// that lies inside the pool.
pub proof fn lemma_constant_operands_valid(cv: ChunkView, starts: Seq<int>)
    requires
        boundaries_ok(cv, starts, Set::<int>::empty()),
    ensures
        forall|k: int|
            0 <= k < starts.len() - 1 && op_at(cv.code, #[trigger] starts[k]).spec_uses_constant()
                ==> cv.code[starts[k] + 1] < cv.constants.len(),
{
}

/// In a finished chunk every jump's big-endian operand, added to the
/// position just past it, lands inside the code.
pub proof fn lemma_jump_targets_valid(cv: ChunkView, starts: Seq<int>)
    requires
        boundaries_ok(cv, starts, Set::<int>::empty()),
    ensures
        forall|k: int|
            #![trigger starts[k]]
            0 <= k < starts.len() - 1 && (op_at(cv.code, starts[k]) matches OpCode::JUMP || op_at(
                cv.code,
                starts[k],
            ) matches OpCode::JumpIfFalse) ==> starts[k] + 3 + spec_jump_operand(
                cv.code,
                starts[k],
            ) <= cv.code.len(),
{
    assert forall|k: int|
        0 <= k < starts.len() - 1 && (op_at(cv.code, #[trigger] starts[k]) matches OpCode::JUMP
            || op_at(cv.code, starts[k]) matches OpCode::JumpIfFalse) implies starts[k] + 3
        + spec_jump_operand(cv.code, starts[k]) <= cv.code.len() by {
        assert(instr_ok(cv, starts[k], Set::<int>::empty()));
        assert(!Set::<int>::empty().contains(starts[k] + 1));
    }
}

// ---------------------------------------------------------------------------
// Diagnostic messages
// ---------------------------------------------------------------------------
/// The diagnostic text `Expect variable name.`
pub open spec fn msg_expect_variable_name() -> Seq<u8> {
    seq![69u8, 120u8, 112u8, 101u8, 99u8, 116u8, 32u8, 118u8, 97u8, 114u8, 105u8, 97u8, 98u8, 108u8, 101u8, 32u8, 110u8, 97u8, 109u8, 101u8, 46u8]
}

fn text_expect_variable_name() -> (r: Vec<u8>)
    ensures
        r@ == msg_expect_variable_name(),
{
    let r = vec![69u8, 120u8, 112u8, 101u8, 99u8, 116u8, 32u8, 118u8, 97u8, 114u8, 105u8, 97u8, 98u8, 108u8, 101u8, 32u8, 110u8, 97u8, 109u8, 101u8, 46u8];
    proof {
        assert(r@ =~= msg_expect_variable_name());
    }
    r
}

/// The diagnostic text `Expect ';' after variable declaration.`
pub open spec fn msg_expect_semicolon_after_var() -> Seq<u8> {
    seq![69u8, 120u8, 112u8, 101u8, 99u8, 116u8, 32u8, 39u8, 59u8, 39u8, 32u8, 97u8, 102u8, 116u8, 101u8, 114u8, 32u8, 118u8, 97u8, 114u8, 105u8, 97u8, 98u8, 108u8, 101u8, 32u8, 100u8, 101u8, 99u8, 108u8, 97u8, 114u8, 97u8, 116u8, 105u8, 111u8, 110u8, 46u8]
}

fn text_expect_semicolon_after_var() -> (r: Vec<u8>)
    ensures
        r@ == msg_expect_semicolon_after_var(),
{
    let r = vec![69u8, 120u8, 112u8, 101u8, 99u8, 116u8, 32u8, 39u8, 59u8, 39u8, 32u8, 97u8, 102u8, 116u8, 101u8, 114u8, 32u8, 118u8, 97u8, 114u8, 105u8, 97u8, 98u8, 108u8, 101u8, 32u8, 100u8, 101u8, 99u8, 108u8, 97u8, 114u8, 97u8, 116u8, 105u8, 111u8, 110u8, 46u8];
    proof {
        assert(r@ =~= msg_expect_semicolon_after_var());
    }
    r
}

/// The diagnostic text `Expect ';' after value.`
pub open spec fn msg_expect_semicolon_after_value() -> Seq<u8> {
    seq![69u8, 120u8, 112u8, 101u8, 99u8, 116u8, 32u8, 39u8, 59u8, 39u8, 32u8, 97u8, 102u8, 116u8, 101u8, 114u8, 32u8, 118u8, 97u8, 108u8, 117u8, 101u8, 46u8]
}

fn text_expect_semicolon_after_value() -> (r: Vec<u8>)
    ensures
        r@ == msg_expect_semicolon_after_value(),
{
    let r = vec![69u8, 120u8, 112u8, 101u8, 99u8, 116u8, 32u8, 39u8, 59u8, 39u8, 32u8, 97u8, 102u8, 116u8, 101u8, 114u8, 32u8, 118u8, 97u8, 108u8, 117u8, 101u8, 46u8];
    proof {
        assert(r@ =~= msg_expect_semicolon_after_value());
    }
    r
}

/// The diagnostic text `Expect ';' after expression.`
pub open spec fn msg_expect_semicolon_after_expression() -> Seq<u8> {
    seq![69u8, 120u8, 112u8, 101u8, 99u8, 116u8, 32u8, 39u8, 59u8, 39u8, 32u8, 97u8, 102u8, 116u8, 101u8, 114u8, 32u8, 101u8, 120u8, 112u8, 114u8, 101u8, 115u8, 115u8, 105u8, 111u8, 110u8, 46u8]
}

fn text_expect_semicolon_after_expression() -> (r: Vec<u8>)
    ensures
        r@ == msg_expect_semicolon_after_expression(),
{
    let r = vec![69u8, 120u8, 112u8, 101u8, 99u8, 116u8, 32u8, 39u8, 59u8, 39u8, 32u8, 97u8, 102u8, 116u8, 101u8, 114u8, 32u8, 101u8, 120u8, 112u8, 114u8, 101u8, 115u8, 115u8, 105u8, 111u8, 110u8, 46u8];
    proof {
        assert(r@ =~= msg_expect_semicolon_after_expression());
    }
    r
}

/// The diagnostic text `Expect '(' after 'if'.`
pub open spec fn msg_expect_lparen_after_if() -> Seq<u8> {
    seq![69u8, 120u8, 112u8, 101u8, 99u8, 116u8, 32u8, 39u8, 40u8, 39u8, 32u8, 97u8, 102u8, 116u8, 101u8, 114u8, 32u8, 39u8, 105u8, 102u8, 39u8, 46u8]
}

fn text_expect_lparen_after_if() -> (r: Vec<u8>)
    ensures
        r@ == msg_expect_lparen_after_if(),
{
    let r = vec![69u8, 120u8, 112u8, 101u8, 99u8, 116u8, 32u8, 39u8, 40u8, 39u8, 32u8, 97u8, 102u8, 116u8, 101u8, 114u8, 32u8, 39u8, 105u8, 102u8, 39u8, 46u8];
    proof {
        assert(r@ =~= msg_expect_lparen_after_if());
    }
    r
}

/// The diagnostic text `Expect ')' after condition.`
pub open spec fn msg_expect_rparen_after_condition() -> Seq<u8> {
    seq![69u8, 120u8, 112u8, 101u8, 99u8, 116u8, 32u8, 39u8, 41u8, 39u8, 32u8, 97u8, 102u8, 116u8, 101u8, 114u8, 32u8, 99u8, 111u8, 110u8, 100u8, 105u8, 116u8, 105u8, 111u8, 110u8, 46u8]
}

fn text_expect_rparen_after_condition() -> (r: Vec<u8>)
    ensures
        r@ == msg_expect_rparen_after_condition(),
{
    let r = vec![69u8, 120u8, 112u8, 101u8, 99u8, 116u8, 32u8, 39u8, 41u8, 39u8, 32u8, 97u8, 102u8, 116u8, 101u8, 114u8, 32u8, 99u8, 111u8, 110u8, 100u8, 105u8, 116u8, 105u8, 111u8, 110u8, 46u8];
    proof {
        assert(r@ =~= msg_expect_rparen_after_condition());
    }
    r
}

/// The diagnostic text `Expect ')' after expression.`
pub open spec fn msg_expect_rparen_after_expression() -> Seq<u8> {
    seq![69u8, 120u8, 112u8, 101u8, 99u8, 116u8, 32u8, 39u8, 41u8, 39u8, 32u8, 97u8, 102u8, 116u8, 101u8, 114u8, 32u8, 101u8, 120u8, 112u8, 114u8, 101u8, 115u8, 115u8, 105u8, 111u8, 110u8, 46u8]
}

fn text_expect_rparen_after_expression() -> (r: Vec<u8>)
    ensures
        r@ == msg_expect_rparen_after_expression(),
{
    let r = vec![69u8, 120u8, 112u8, 101u8, 99u8, 116u8, 32u8, 39u8, 41u8, 39u8, 32u8, 97u8, 102u8, 116u8, 101u8, 114u8, 32u8, 101u8, 120u8, 112u8, 114u8, 101u8, 115u8, 115u8, 105u8, 111u8, 110u8, 46u8];
    proof {
        assert(r@ =~= msg_expect_rparen_after_expression());
    }
    r
}

/// The diagnostic text `Expect '}' after block.`
pub open spec fn msg_expect_rbrace_after_block() -> Seq<u8> {
    seq![69u8, 120u8, 112u8, 101u8, 99u8, 116u8, 32u8, 39u8, 125u8, 39u8, 32u8, 97u8, 102u8, 116u8, 101u8, 114u8, 32u8, 98u8, 108u8, 111u8, 99u8, 107u8, 46u8]
}

fn text_expect_rbrace_after_block() -> (r: Vec<u8>)
    ensures
        r@ == msg_expect_rbrace_after_block(),
{
    let r = vec![69u8, 120u8, 112u8, 101u8, 99u8, 116u8, 32u8, 39u8, 125u8, 39u8, 32u8, 97u8, 102u8, 116u8, 101u8, 114u8, 32u8, 98u8, 108u8, 111u8, 99u8, 107u8, 46u8];
    proof {
        assert(r@ =~= msg_expect_rbrace_after_block());
    }
    r
}

/// The diagnostic text `Expect expression`
pub open spec fn msg_expect_expression() -> Seq<u8> {
    seq![69u8, 120u8, 112u8, 101u8, 99u8, 116u8, 32u8, 101u8, 120u8, 112u8, 114u8, 101u8, 115u8, 115u8, 105u8, 111u8, 110u8]
}

fn text_expect_expression() -> (r: Vec<u8>)
    ensures
        r@ == msg_expect_expression(),
{
    let r = vec![69u8, 120u8, 112u8, 101u8, 99u8, 116u8, 32u8, 101u8, 120u8, 112u8, 114u8, 101u8, 115u8, 115u8, 105u8, 111u8, 110u8];
    proof {
        assert(r@ =~= msg_expect_expression());
    }
    r
}

/// The diagnostic text `Invalid assignment target.`
pub open spec fn msg_invalid_assignment_target() -> Seq<u8> {
    seq![73u8, 110u8, 118u8, 97u8, 108u8, 105u8, 100u8, 32u8, 97u8, 115u8, 115u8, 105u8, 103u8, 110u8, 109u8, 101u8, 110u8, 116u8, 32u8, 116u8, 97u8, 114u8, 103u8, 101u8, 116u8, 46u8]
}

fn text_invalid_assignment_target() -> (r: Vec<u8>)
    ensures
        r@ == msg_invalid_assignment_target(),
{
    let r = vec![73u8, 110u8, 118u8, 97u8, 108u8, 105u8, 100u8, 32u8, 97u8, 115u8, 115u8, 105u8, 103u8, 110u8, 109u8, 101u8, 110u8, 116u8, 32u8, 116u8, 97u8, 114u8, 103u8, 101u8, 116u8, 46u8];
    proof {
        assert(r@ =~= msg_invalid_assignment_target());
    }
    r
}

/// The diagnostic text `Already a variable with this name in this scope.`
pub open spec fn msg_already_variable_in_scope() -> Seq<u8> {
    seq![65u8, 108u8, 114u8, 101u8, 97u8, 100u8, 121u8, 32u8, 97u8, 32u8, 118u8, 97u8, 114u8, 105u8, 97u8, 98u8, 108u8, 101u8, 32u8, 119u8, 105u8, 116u8, 104u8, 32u8, 116u8, 104u8, 105u8, 115u8, 32u8, 110u8, 97u8, 109u8, 101u8, 32u8, 105u8, 110u8, 32u8, 116u8, 104u8, 105u8, 115u8, 32u8, 115u8, 99u8, 111u8, 112u8, 101u8, 46u8]
}

fn text_already_variable_in_scope() -> (r: Vec<u8>)
    ensures
        r@ == msg_already_variable_in_scope(),
{
    let r = vec![65u8, 108u8, 114u8, 101u8, 97u8, 100u8, 121u8, 32u8, 97u8, 32u8, 118u8, 97u8, 114u8, 105u8, 97u8, 98u8, 108u8, 101u8, 32u8, 119u8, 105u8, 116u8, 104u8, 32u8, 116u8, 104u8, 105u8, 115u8, 32u8, 110u8, 97u8, 109u8, 101u8, 32u8, 105u8, 110u8, 32u8, 116u8, 104u8, 105u8, 115u8, 32u8, 115u8, 99u8, 111u8, 112u8, 101u8, 46u8];
    proof {
        assert(r@ =~= msg_already_variable_in_scope());
    }
    r
}

/// The diagnostic text `Can't read local variable in its own initializer.`
pub open spec fn msg_read_own_initializer() -> Seq<u8> {
    seq![67u8, 97u8, 110u8, 39u8, 116u8, 32u8, 114u8, 101u8, 97u8, 100u8, 32u8, 108u8, 111u8, 99u8, 97u8, 108u8, 32u8, 118u8, 97u8, 114u8, 105u8, 97u8, 98u8, 108u8, 101u8, 32u8, 105u8, 110u8, 32u8, 105u8, 116u8, 115u8, 32u8, 111u8, 119u8, 110u8, 32u8, 105u8, 110u8, 105u8, 116u8, 105u8, 97u8, 108u8, 105u8, 122u8, 101u8, 114u8, 46u8]
}

fn text_read_own_initializer() -> (r: Vec<u8>)
    ensures
        r@ == msg_read_own_initializer(),
{
    let r = vec![67u8, 97u8, 110u8, 39u8, 116u8, 32u8, 114u8, 101u8, 97u8, 100u8, 32u8, 108u8, 111u8, 99u8, 97u8, 108u8, 32u8, 118u8, 97u8, 114u8, 105u8, 97u8, 98u8, 108u8, 101u8, 32u8, 105u8, 110u8, 32u8, 105u8, 116u8, 115u8, 32u8, 111u8, 119u8, 110u8, 32u8, 105u8, 110u8, 105u8, 116u8, 105u8, 97u8, 108u8, 105u8, 122u8, 101u8, 114u8, 46u8];
    proof {
        assert(r@ =~= msg_read_own_initializer());
    }
    r
}

/// The diagnostic text `Too many constants in one chunk.`
pub open spec fn msg_too_many_constants() -> Seq<u8> {
    seq![84u8, 111u8, 111u8, 32u8, 109u8, 97u8, 110u8, 121u8, 32u8, 99u8, 111u8, 110u8, 115u8, 116u8, 97u8, 110u8, 116u8, 115u8, 32u8, 105u8, 110u8, 32u8, 111u8, 110u8, 101u8, 32u8, 99u8, 104u8, 117u8, 110u8, 107u8, 46u8]
}

fn text_too_many_constants() -> (r: Vec<u8>)
    ensures
        r@ == msg_too_many_constants(),
{
    let r = vec![84u8, 111u8, 111u8, 32u8, 109u8, 97u8, 110u8, 121u8, 32u8, 99u8, 111u8, 110u8, 115u8, 116u8, 97u8, 110u8, 116u8, 115u8, 32u8, 105u8, 110u8, 32u8, 111u8, 110u8, 101u8, 32u8, 99u8, 104u8, 117u8, 110u8, 107u8, 46u8];
    proof {
        assert(r@ =~= msg_too_many_constants());
    }
    r
}

/// The diagnostic text `Too many local variables in function.`
pub open spec fn msg_too_many_locals() -> Seq<u8> {
    seq![84u8, 111u8, 111u8, 32u8, 109u8, 97u8, 110u8, 121u8, 32u8, 108u8, 111u8, 99u8, 97u8, 108u8, 32u8, 118u8, 97u8, 114u8, 105u8, 97u8, 98u8, 108u8, 101u8, 115u8, 32u8, 105u8, 110u8, 32u8, 102u8, 117u8, 110u8, 99u8, 116u8, 105u8, 111u8, 110u8, 46u8]
}

fn text_too_many_locals() -> (r: Vec<u8>)
    ensures
        r@ == msg_too_many_locals(),
{
    let r = vec![84u8, 111u8, 111u8, 32u8, 109u8, 97u8, 110u8, 121u8, 32u8, 108u8, 111u8, 99u8, 97u8, 108u8, 32u8, 118u8, 97u8, 114u8, 105u8, 97u8, 98u8, 108u8, 101u8, 115u8, 32u8, 105u8, 110u8, 32u8, 102u8, 117u8, 110u8, 99u8, 116u8, 105u8, 111u8, 110u8, 46u8];
    proof {
        assert(r@ =~= msg_too_many_locals());
    }
    r
}

/// The diagnostic text `Too much code to jump over.`
pub open spec fn msg_too_much_code_to_jump() -> Seq<u8> {
    seq![84u8, 111u8, 111u8, 32u8, 109u8, 117u8, 99u8, 104u8, 32u8, 99u8, 111u8, 100u8, 101u8, 32u8, 116u8, 111u8, 32u8, 106u8, 117u8, 109u8, 112u8, 32u8, 111u8, 118u8, 101u8, 114u8, 46u8]
}

fn text_too_much_code_to_jump() -> (r: Vec<u8>)
    ensures
        r@ == msg_too_much_code_to_jump(),
{
    let r = vec![84u8, 111u8, 111u8, 32u8, 109u8, 117u8, 99u8, 104u8, 32u8, 99u8, 111u8, 100u8, 101u8, 32u8, 116u8, 111u8, 32u8, 106u8, 117u8, 109u8, 112u8, 32u8, 111u8, 118u8, 101u8, 114u8, 46u8];
    proof {
        assert(r@ =~= msg_too_much_code_to_jump());
    }
    r
}

} // verus!
