use vstd::prelude::*;
use vstd::string::StringSliceAdditionalSpecFns;

use crate::chunk::{Chunk, ChunkView};
use crate::number::{
    add_doubles, dbl_add, dbl_div, dbl_gt, dbl_lt, dbl_mul, dbl_sub, div_doubles, gt_doubles,
    lt_doubles, mul_doubles, negate_double, sub_doubles,
};
use crate::opcode::OpCode;
use crate::value::{
    spec_is_falsey, spec_printable, spec_values_equal, views_of, AbsValue, ObjString, Object,
    ValueType,
};
use crate::InterpretError;
use crate::InterpretResult;

verus! {

// ---------------------------------------------------------------------------
// Global bindings: a name-keyed map of values, kept as an association list
// with unique keys and modelled as a Map.
// ---------------------------------------------------------------------------
/// The map an association list stands for.
pub open spec fn entries_map(s: Seq<(Vec<u8>, ValueType)>) -> Map<Seq<u8>, AbsValue>
    decreases s.len(),
{
    if s.len() == 0 {
        Map::empty()
    } else {
        entries_map(s.drop_last()).insert(s.last().0@, s.last().1@)
    }
}

pub open spec fn keys_unique(s: Seq<(Vec<u8>, ValueType)>) -> bool {
    forall|i: int, j: int| 0 <= i < j < s.len() ==> (#[trigger] s[i]).0@ != (#[trigger] s[j]).0@
}

proof fn lemma_entries_map_props(s: Seq<(Vec<u8>, ValueType)>)
    requires
        keys_unique(s),
    ensures
        forall|k: Seq<u8>|
            #[trigger] entries_map(s).contains_key(k) <==> exists|i: int|
                0 <= i < s.len() && (#[trigger] s[i]).0@ == k,
        forall|i: int|
            0 <= i < s.len() ==> entries_map(s).contains_key((#[trigger] s[i]).0@) && entries_map(
                s,
            )[s[i].0@] == s[i].1@,
    decreases s.len(),
{
    if s.len() > 0 {
        let d = s.drop_last();
        assert(keys_unique(d)) by {
            assert(forall|i: int| 0 <= i < d.len() ==> d[i] == s[i]);
        }
        lemma_entries_map_props(d);
        assert(forall|i: int| 0 <= i < d.len() ==> d[i] == s[i]);
        assert forall|i: int| 0 <= i < s.len() implies entries_map(s).contains_key(
            (#[trigger] s[i]).0@,
        ) && entries_map(s)[s[i].0@] == s[i].1@ by {
            if i < s.len() - 1 {
                assert(s[i].0@ != s[s.len() - 1].0@);
            }
        }
        assert forall|k: Seq<u8>| #[trigger]
            entries_map(s).contains_key(k) implies exists|i: int|
            0 <= i < s.len() && (#[trigger] s[i]).0@ == k by {
            if k == s.last().0@ {
                assert(0 <= s.len() - 1 < s.len() && s[s.len() - 1].0@ == k);
            } else {
                assert(entries_map(d).contains_key(k));
                let i = choose|i: int| 0 <= i < d.len() && (#[trigger] d[i]).0@ == k;
                assert(0 <= i < s.len() && s[i].0@ == k);
            }
        }
    }
}

proof fn lemma_entries_map_update(s: Seq<(Vec<u8>, ValueType)>, i: int, e: (Vec<u8>, ValueType))
    requires
        keys_unique(s),
        0 <= i < s.len(),
        s[i].0@ == e.0@,
    ensures
        keys_unique(s.update(i, e)),
        entries_map(s.update(i, e)) == entries_map(s).insert(e.0@, e.1@),
    decreases s.len(),
{
    let s2 = s.update(i, e);
    assert(keys_unique(s2)) by {
        assert(forall|j: int| 0 <= j < s.len() ==> (#[trigger] s2[j]).0@ == s[j].0@);
    }
    if i == s.len() - 1 {
        assert(s2.drop_last() =~= s.drop_last());
        assert(s2.last() == e);
        assert(entries_map(s2) == entries_map(s.drop_last()).insert(e.0@, e.1@));
        assert(entries_map(s).insert(e.0@, e.1@) =~= entries_map(s.drop_last()).insert(
            e.0@,
            e.1@,
        )) by {
            assert(s.last().0@ == e.0@);
        }
    } else {
        let d = s.drop_last();
        assert(keys_unique(d)) by {
            assert(forall|j: int| 0 <= j < d.len() ==> d[j] == s[j]);
        }
        lemma_entries_map_update(d, i, e);
        assert(s2.drop_last() =~= d.update(i, e));
        assert(s2.last() == s.last());
        assert(entries_map(s2) == entries_map(d.update(i, e)).insert(s.last().0@, s.last().1@));
        assert(entries_map(d.update(i, e)) == entries_map(d).insert(e.0@, e.1@));
        // The two inserted keys differ, so the inserts commute.
        assert(s.last().0@ != e.0@);
        assert(entries_map(d).insert(e.0@, e.1@).insert(s.last().0@, s.last().1@) =~= entries_map(
            d,
        ).insert(s.last().0@, s.last().1@).insert(e.0@, e.1@));
    }
}

proof fn lemma_entries_map_push(s: Seq<(Vec<u8>, ValueType)>, e: (Vec<u8>, ValueType))
    requires
        keys_unique(s),
        forall|i: int| 0 <= i < s.len() ==> (#[trigger] s[i]).0@ != e.0@,
    ensures
        keys_unique(s.push(e)),
        entries_map(s.push(e)) == entries_map(s).insert(e.0@, e.1@),
{
    let s2 = s.push(e);
    assert(keys_unique(s2)) by {
        assert(forall|j: int| 0 <= j < s.len() ==> s2[j] == s[j]);
        assert(s2[s2.len() - 1] == e);
    }
    assert(s2.drop_last() =~= s);
    assert(s2.last() == e);
}

/// The interpreter's global bindings.
#[derive(Debug)]
pub struct Globals {
    entries: Vec<(Vec<u8>, ValueType)>,
}

impl View for Globals {
    type V = Map<Seq<u8>, AbsValue>;

    closed spec fn view(&self) -> Map<Seq<u8>, AbsValue> {
        entries_map(self.entries@)
    }
}

impl Globals {
    pub closed spec fn wf(&self) -> bool {
        keys_unique(self.entries@)
    }

    pub fn new() -> (r: Self)
        ensures
            r@ == Map::<Seq<u8>, AbsValue>::empty(),
            r.wf(),
    {
        Globals { entries: Vec::new() }
    }

    /// The value bound to a name, if any.
    pub fn read(&self, name: &Vec<u8>) -> (r: Option<ValueType>)
        requires
            self.wf(),
        ensures
            match r {
                Some(v) => self@.contains_key(name@) && v@ == self@[name@],
                None => !self@.contains_key(name@),
            },
    {
        proof {
            lemma_entries_map_props(self.entries@);
        }
        let n = self.entries.len();
        let mut i: usize = 0;
        while i < n
            invariant
                0 <= i <= n,
                n == self.entries@.len(),
                forall|j: int| 0 <= j < i ==> (#[trigger] self.entries@[j]).0@ != name@,
            decreases n - i,
        {
            if crate::value::bytes_equal(&self.entries[i].0, name) {
                return Some(self.entries[i].1.clone_value());
            }
            i = i + 1;
        }
        None
    }

    /// Bind a name, replacing any existing binding.
    pub fn define(&mut self, name: Vec<u8>, value: ValueType)
        requires
            old(self).wf(),
        ensures
            final(self).wf(),
            final(self)@ == old(self)@.insert(name@, value@),
    {
        let n = self.entries.len();
        let mut i: usize = 0;
        while i < n
            invariant
                0 <= i <= n,
                n == self.entries@.len(),
                self.entries@ == old(self).entries@,
                forall|j: int| 0 <= j < i ==> (#[trigger] self.entries@[j]).0@ != name@,
            decreases n - i,
        {
            if crate::value::bytes_equal(&self.entries[i].0, &name) {
                proof {
                    lemma_entries_map_update(
                        self.entries@,
                        i as int,
                        (name, value),
                    );
                }
                self.entries[i] = (name, value);
                return ;
            }
            i = i + 1;
        }
        proof {
            lemma_entries_map_push(self.entries@, (name, value));
        }
        self.entries.push((name, value));
    }

    /// Assign to a name that is already bound; false if it is not.
    pub fn assign(&mut self, name: &Vec<u8>, value: ValueType) -> (r: bool)
        requires
            old(self).wf(),
        ensures
            final(self).wf(),
            r == old(self)@.contains_key(name@),
            final(self)@ == if r {
                old(self)@.insert(name@, value@)
            } else {
                old(self)@
            },
    {
        proof {
            lemma_entries_map_props(self.entries@);
        }
        let n = self.entries.len();
        let mut i: usize = 0;
        while i < n
            invariant
                0 <= i <= n,
                n == self.entries@.len(),
                self.entries@ == old(self).entries@,
                forall|j: int| 0 <= j < i ==> (#[trigger] self.entries@[j]).0@ != name@,
            decreases n - i,
        {
            if crate::value::bytes_equal(&self.entries[i].0, name) {
                let name_copy = vstd::slice::slice_to_vec(name.as_slice());
                proof {
                    lemma_entries_map_update(
                        self.entries@,
                        i as int,
                        (name_copy, value),
                    );
                }
                self.entries[i] = (name_copy, value);
                return true;
            }
            i = i + 1;
        }
        false
    }
}

// ---------------------------------------------------------------------------
// The machine's small-step specification
// ---------------------------------------------------------------------------
/// The model of a running machine: the chunk's parts, the instruction
/// pointer, the value stack, the global bindings, and what has been printed.
pub struct ExecState {
    pub code: Seq<u8>,
    pub lines: Seq<usize>,
    pub constants: Seq<AbsValue>,
    pub ip: int,
    pub stack: Seq<AbsValue>,
    pub globals: Map<Seq<u8>, AbsValue>,
    pub output: Seq<Seq<u8>>,
}

pub enum StepOut {
    Next(ExecState),
    Halt,
    Fail(InterpretError),
}

pub enum RunOut {
    Done(ExecState),
    Failed(InterpretError, ExecState),
    OutOfFuel(ExecState),
}

/// The unsigned big-endian operand of a jump instruction whose opcode is at
/// `s`.
pub open spec fn spec_jump_operand(code: Seq<u8>, s: int) -> int {
    code[s + 1] * 256 + code[s + 2]
}

/// One instruction of the machine: the effect table of the instruction set.
/// `Fail(RuntimeError)` covers both the language's runtime errors and the
/// states a well-formed chunk never reaches (bad indices, stack underflow).
pub open spec fn spec_step(st: ExecState) -> StepOut {
    let n = st.code.len() as int;
    if st.ip < 0 || st.ip >= n {
        StepOut::Fail(InterpretError::RuntimeError)
    } else {
        match OpCode::spec_decode(st.code[st.ip]) {
            Result::Err(e) => StepOut::Fail(e),
            Result::Ok(op) => match op {
                OpCode::RETURN => StepOut::Halt,
                OpCode::CONSTANT => {
                    if st.ip + 1 >= n || st.code[st.ip + 1] >= st.constants.len() {
                        StepOut::Fail(InterpretError::RuntimeError)
                    } else {
                        StepOut::Next(
                            ExecState {
                                ip: st.ip + 2,
                                stack: st.stack.push(st.constants[st.code[st.ip + 1] as int]),
                                ..st
                            },
                        )
                    }
                },
                OpCode::NIL => StepOut::Next(
                    ExecState { ip: st.ip + 1, stack: st.stack.push(AbsValue::Nil), ..st },
                ),
                OpCode::TRUE => StepOut::Next(
                    ExecState { ip: st.ip + 1, stack: st.stack.push(AbsValue::Bool(true)), ..st },
                ),
                OpCode::FALSE => StepOut::Next(
                    ExecState { ip: st.ip + 1, stack: st.stack.push(AbsValue::Bool(false)), ..st },
                ),
                OpCode::NOT => {
                    if st.stack.len() == 0 {
                        StepOut::Fail(InterpretError::RuntimeError)
                    } else {
                        StepOut::Next(
                            ExecState {
                                ip: st.ip + 1,
                                stack: st.stack.drop_last().push(
                                    AbsValue::Bool(spec_is_falsey(st.stack.last())),
                                ),
                                ..st
                            },
                        )
                    }
                },
                OpCode::NEGATE => {
                    if st.stack.len() == 0 || !(st.stack.last() matches AbsValue::Number(_)) {
                        StepOut::Fail(InterpretError::RuntimeError)
                    } else {
                        StepOut::Next(
                            ExecState {
                                ip: st.ip + 1,
                                stack: st.stack.drop_last().push(
                                    AbsValue::Number(
                                        crate::number::dbl_negate(st.stack.last()->Number_0),
                                    ),
                                ),
                                ..st
                            },
                        )
                    }
                },
                OpCode::EQUAL => {
                    if st.stack.len() < 2 {
                        StepOut::Fail(InterpretError::RuntimeError)
                    } else {
                        StepOut::Next(
                            ExecState {
                                ip: st.ip + 1,
                                stack: st.stack.subrange(0, st.stack.len() - 2).push(
                                    AbsValue::Bool(
                                        spec_values_equal(
                                            st.stack[st.stack.len() - 2],
                                            st.stack.last(),
                                        ),
                                    ),
                                ),
                                ..st
                            },
                        )
                    }
                },
                OpCode::GREATER => spec_step_cmp(st, true),
                OpCode::LESS => spec_step_cmp(st, false),
                OpCode::ADD => {
                    if st.stack.len() < 2 {
                        StepOut::Fail(InterpretError::RuntimeError)
                    } else {
                        let a = st.stack[st.stack.len() - 2];
                        let b = st.stack.last();
                        match (a, b) {
                            (AbsValue::Number(x), AbsValue::Number(y)) => StepOut::Next(
                                ExecState {
                                    ip: st.ip + 1,
                                    stack: st.stack.subrange(0, st.stack.len() - 2).push(
                                        AbsValue::Number(dbl_add(x, y)),
                                    ),
                                    ..st
                                },
                            ),
                            (AbsValue::Str(x), AbsValue::Str(y)) => StepOut::Next(
                                ExecState {
                                    ip: st.ip + 1,
                                    stack: st.stack.subrange(0, st.stack.len() - 2).push(
                                        AbsValue::Str(x + y),
                                    ),
                                    ..st
                                },
                            ),
                            _ => StepOut::Fail(InterpretError::RuntimeError),
                        }
                    }
                },
                OpCode::SUBTRACT => spec_step_arith(st, OpCode::SUBTRACT),
                OpCode::MULTIPLY => spec_step_arith(st, OpCode::MULTIPLY),
                OpCode::DIVIDE => spec_step_arith(st, OpCode::DIVIDE),
                OpCode::PRINT => {
                    if st.stack.len() == 0 {
                        StepOut::Fail(InterpretError::RuntimeError)
                    } else {
                        StepOut::Next(
                            ExecState {
                                ip: st.ip + 1,
                                stack: st.stack.drop_last(),
                                output: st.output.push(spec_printable(st.stack.last())),
                                ..st
                            },
                        )
                    }
                },
                OpCode::POP => {
                    if st.stack.len() == 0 {
                        StepOut::Fail(InterpretError::RuntimeError)
                    } else {
                        StepOut::Next(
                            ExecState { ip: st.ip + 1, stack: st.stack.drop_last(), ..st },
                        )
                    }
                },
                OpCode::DefineGlobal => {
                    if st.ip + 1 >= n || st.code[st.ip + 1] >= st.constants.len() {
                        StepOut::Fail(InterpretError::RuntimeError)
                    } else {
                        match st.constants[st.code[st.ip + 1] as int] {
                            AbsValue::Str(name) => {
                                if st.stack.len() == 0 {
                                    StepOut::Fail(InterpretError::RuntimeError)
                                } else {
                                    StepOut::Next(
                                        ExecState {
                                            ip: st.ip + 2,
                                            stack: st.stack.drop_last(),
                                            globals: st.globals.insert(name, st.stack.last()),
                                            ..st
                                        },
                                    )
                                }
                            },
                            _ => StepOut::Fail(InterpretError::RuntimeError),
                        }
                    }
                },
                OpCode::GetGlobal => {
                    if st.ip + 1 >= n || st.code[st.ip + 1] >= st.constants.len() {
                        StepOut::Fail(InterpretError::RuntimeError)
                    } else {
                        match st.constants[st.code[st.ip + 1] as int] {
                            AbsValue::Str(name) => {
                                if st.globals.contains_key(name) {
                                    StepOut::Next(
                                        ExecState {
                                            ip: st.ip + 2,
                                            stack: st.stack.push(st.globals[name]),
                                            ..st
                                        },
                                    )
                                } else {
                                    StepOut::Fail(InterpretError::RuntimeError)
                                }
                            },
                            _ => StepOut::Fail(InterpretError::RuntimeError),
                        }
                    }
                },
                OpCode::SetGlobal => {
                    if st.ip + 1 >= n || st.code[st.ip + 1] >= st.constants.len() {
                        StepOut::Fail(InterpretError::RuntimeError)
                    } else {
                        match st.constants[st.code[st.ip + 1] as int] {
                            AbsValue::Str(name) => {
                                if st.stack.len() == 0 || !st.globals.contains_key(name) {
                                    StepOut::Fail(InterpretError::RuntimeError)
                                } else {
                                    StepOut::Next(
                                        ExecState {
                                            ip: st.ip + 2,
                                            globals: st.globals.insert(name, st.stack.last()),
                                            ..st
                                        },
                                    )
                                }
                            },
                            _ => StepOut::Fail(InterpretError::RuntimeError),
                        }
                    }
                },
                OpCode::GetLocal => {
                    if st.ip + 1 >= n || st.code[st.ip + 1] >= st.stack.len() {
                        StepOut::Fail(InterpretError::RuntimeError)
                    } else {
                        StepOut::Next(
                            ExecState {
                                ip: st.ip + 2,
                                stack: st.stack.push(st.stack[st.code[st.ip + 1] as int]),
                                ..st
                            },
                        )
                    }
                },
                OpCode::SetLocal => {
                    if st.ip + 1 >= n || st.code[st.ip + 1] >= st.stack.len() || st.stack.len()
                        == 0 {
                        StepOut::Fail(InterpretError::RuntimeError)
                    } else {
                        StepOut::Next(
                            ExecState {
                                ip: st.ip + 2,
                                stack: st.stack.update(
                                    st.code[st.ip + 1] as int,
                                    st.stack.last(),
                                ),
                                ..st
                            },
                        )
                    }
                },
                OpCode::JUMP => {
                    if st.ip + 2 >= n {
                        StepOut::Fail(InterpretError::RuntimeError)
                    } else {
                        let t = st.ip + 3 + spec_jump_operand(st.code, st.ip);
                        if t > n {
                            StepOut::Fail(InterpretError::RuntimeError)
                        } else {
                            StepOut::Next(ExecState { ip: t, ..st })
                        }
                    }
                },
                OpCode::JumpIfFalse => {
                    if st.ip + 2 >= n {
                        StepOut::Fail(InterpretError::RuntimeError)
                    } else if st.stack.len() == 0 {
                        StepOut::Fail(InterpretError::RuntimeError)
                    } else {
                        let t = st.ip + 3 + spec_jump_operand(st.code, st.ip);
                        if spec_is_falsey(st.stack.last()) {
                            if t > n {
                                StepOut::Fail(InterpretError::RuntimeError)
                            } else {
                                StepOut::Next(ExecState { ip: t, ..st })
                            }
                        } else {
                            StepOut::Next(ExecState { ip: st.ip + 3, ..st })
                        }
                    }
                },
                OpCode::LOOP => {
                    if st.ip + 2 >= n {
                        StepOut::Fail(InterpretError::RuntimeError)
                    } else {
                        let t = st.ip + 3 - spec_jump_operand(st.code, st.ip);
                        if t < 0 {
                            StepOut::Fail(InterpretError::RuntimeError)
                        } else {
                            StepOut::Next(ExecState { ip: t, ..st })
                        }
                    }
                },
            },
        }
    }
}

/// The shared shape of GREATER and LESS: two numbers compared by IEEE order.
pub open spec fn spec_step_cmp(st: ExecState, greater: bool) -> StepOut {
    if st.stack.len() < 2 {
        StepOut::Fail(InterpretError::RuntimeError)
    } else {
        let a = st.stack[st.stack.len() - 2];
        let b = st.stack.last();
        match (a, b) {
            (AbsValue::Number(x), AbsValue::Number(y)) => StepOut::Next(
                ExecState {
                    ip: st.ip + 1,
                    stack: st.stack.subrange(0, st.stack.len() - 2).push(
                        AbsValue::Bool(
                            if greater {
                                dbl_gt(x, y)
                            } else {
                                dbl_lt(x, y)
                            },
                        ),
                    ),
                    ..st
                },
            ),
            _ => StepOut::Fail(InterpretError::RuntimeError),
        }
    }
}

/// The shared shape of SUBTRACT, MULTIPLY and DIVIDE: two numbers only.
pub open spec fn spec_step_arith(st: ExecState, op: OpCode) -> StepOut {
    if st.stack.len() < 2 {
        StepOut::Fail(InterpretError::RuntimeError)
    } else {
        let a = st.stack[st.stack.len() - 2];
        let b = st.stack.last();
        match (a, b) {
            (AbsValue::Number(x), AbsValue::Number(y)) => StepOut::Next(
                ExecState {
                    ip: st.ip + 1,
                    stack: st.stack.subrange(0, st.stack.len() - 2).push(
                        AbsValue::Number(
                            match op {
                                OpCode::SUBTRACT => dbl_sub(x, y),
                                OpCode::MULTIPLY => dbl_mul(x, y),
                                _ => dbl_div(x, y),
                            },
                        ),
                    ),
                    ..st
                },
            ),
            _ => StepOut::Fail(InterpretError::RuntimeError),
        }
    }
}

/// Run the machine for at most `fuel` instructions.
pub open spec fn spec_run(st: ExecState, fuel: nat) -> RunOut
    decreases fuel,
{
    if fuel == 0 {
        RunOut::OutOfFuel(st)
    } else {
        match spec_step(st) {
            StepOut::Next(s2) => spec_run(s2, (fuel - 1) as nat),
            StepOut::Halt => RunOut::Done(st),
            StepOut::Fail(e) => RunOut::Failed(e, st),
        }
    }
}

/// The instruction budget of one run of the machine: every execution either
/// halts, fails, or is cut off as a runtime error after this many steps.
pub open spec fn run_fuel() -> nat {
    u64::MAX as nat
}

// ---------------------------------------------------------------------------
// Sequence-of-views helpers
// ---------------------------------------------------------------------------
proof fn lemma_views_push(s: Seq<ValueType>, v: ValueType)
    ensures
        views_of(s.push(v)) == views_of(s).push(v@),
{
    assert(views_of(s.push(v)) =~= views_of(s).push(v@));
}

proof fn lemma_views_subrange(s: Seq<ValueType>, a: int, b: int)
    requires
        0 <= a <= b <= s.len(),
    ensures
        views_of(s.subrange(a, b)) == views_of(s).subrange(a, b),
{
    assert(views_of(s.subrange(a, b)) =~= views_of(s).subrange(a, b));
}

proof fn lemma_views_update(s: Seq<ValueType>, i: int, v: ValueType)
    requires
        0 <= i < s.len(),
    ensures
        views_of(s.update(i, v)) == views_of(s).update(i, v@),
{
    assert(views_of(s.update(i, v)) =~= views_of(s).update(i, v@));
}

proof fn lemma_outputs_push(s: Seq<Vec<u8>>, v: Vec<u8>)
    ensures
        outputs_of(s.push(v)) == outputs_of(s).push(v@),
{
    assert(outputs_of(s.push(v)) =~= outputs_of(s).push(v@));
}

/// The models of a sequence of printed lines.
pub open spec fn outputs_of(s: Seq<Vec<u8>>) -> Seq<Seq<u8>> {
    s.map_values(|v: Vec<u8>| v@)
}

// ---------------------------------------------------------------------------
// The virtual machine
// ---------------------------------------------------------------------------
/// The model of the machine between runs.
pub struct VmView {
    pub chunk: Option<ChunkView>,
    pub ip: int,
    pub debug: bool,
    pub stack: Seq<AbsValue>,
    pub globals: Map<Seq<u8>, AbsValue>,
    pub output: Seq<Seq<u8>>,
    pub runtime_error_line: Option<usize>,
    pub compile_diags: Seq<crate::diag::Diagnostic>,
}

/// What one executed instruction did to the machine.
pub enum StepResult {
    Continue,
    Halted,
    Errored(InterpretError),
}

/// The stack machine: executes one chunk over a value stack and a global
/// binding table, collecting everything `print` writes.
pub struct VM {
    chunk: Option<Chunk>,
    instr_pos: usize,
    debug: bool,
    stack: Vec<ValueType>,
    globals: Globals,
    output: Vec<Vec<u8>>,
    runtime_error_line: Option<usize>,
    compile_diags: Vec<crate::diag::Diagnostic>,
}

impl View for VM {
    type V = VmView;

    closed spec fn view(&self) -> VmView {
        VmView {
            chunk: match self.chunk {
                Some(c) => Some(c@),
                None => None,
            },
            ip: self.instr_pos as int,
            debug: self.debug,
            stack: views_of(self.stack@),
            globals: self.globals@,
            output: outputs_of(self.output@),
            runtime_error_line: self.runtime_error_line,
            compile_diags: self.compile_diags@,
        }
    }
}

impl VM {
    /// The machine as an execution state (meaningful when a chunk is loaded).
    pub open spec fn exec_state(&self) -> ExecState {
        ExecState {
            code: self@.chunk->Some_0.code,
            lines: self@.chunk->Some_0.lines,
            constants: self@.chunk->Some_0.constants,
            ip: self@.ip,
            stack: self@.stack,
            globals: self@.globals,
            output: self@.output,
        }
    }

    /// Ready to run: a chunk is loaded, its line table is parallel to its
    /// code, and the binding table is intact.
    pub closed spec fn vm_ready(&self) -> bool {
        &&& self.chunk is Some
        &&& self@.chunk->Some_0.wf()
        &&& self.globals.wf()
    }

    pub fn new() -> (r: Self)
        ensures
            r@.chunk is None,
            r@.ip == 0,
            r@.debug == false,
            r@.stack == Seq::<AbsValue>::empty(),
            r@.globals == Map::<Seq<u8>, AbsValue>::empty(),
            r@.output == Seq::<Seq<u8>>::empty(),
            r@.runtime_error_line is None,
            r@.compile_diags.len() == 0,
    {
        let r = VM {
            chunk: None,
            instr_pos: 0,
            debug: false,
            stack: Vec::new(),
            globals: Globals::new(),
            output: Vec::new(),
            runtime_error_line: None,
            compile_diags: Vec::new(),
        };
        proof {
            assert(views_of(r.stack@) =~= Seq::<AbsValue>::empty());
            assert(outputs_of(r.output@) =~= Seq::<Seq<u8>>::empty());
        }
        r
    }

    pub fn set_debug(&mut self, state: bool)
        ensures
            final(self)@ == (VmView { debug: state, ..old(self)@ }),
            final(self).vm_ready() == old(self).vm_ready(),
            final(self).exec_state() == old(self).exec_state(),
    {
        self.debug = state
    }

    /// Everything the program printed, one entry per print statement.
    pub fn output(&self) -> (r: &Vec<Vec<u8>>)
        ensures
            outputs_of(r@) == self@.output,
    {
        &self.output
    }

    /// The source line of the instruction a runtime error stopped at.
    pub fn runtime_error_line(&self) -> (r: Option<usize>)
        ensures
            r == self@.runtime_error_line,
    {
        self.runtime_error_line
    }

    fn code_len(&self) -> (r: usize)
        requires
            self.vm_ready(),
        ensures
            r == self.exec_state().code.len(),
    {
        match &self.chunk {
            Some(c) => c.op_codes_len(),
            None => vstd::pervasive::unreached(),
        }
    }

    fn chunk_byte(&self, i: usize) -> (r: u8)
        requires
            self.vm_ready(),
            i < self.exec_state().code.len(),
        ensures
            r == self.exec_state().code[i as int],
    {
        match &self.chunk {
            Some(c) => c.op_codes_at(i),
            None => vstd::pervasive::unreached(),
        }
    }

    fn chunk_line(&self, i: usize) -> (r: usize)
        requires
            self.vm_ready(),
            i < self.exec_state().code.len(),
        ensures
            r == self.exec_state().lines[i as int],
    {
        match &self.chunk {
            Some(c) => c.line_from_offset(i),
            None => vstd::pervasive::unreached(),
        }
    }

    fn constants_len(&self) -> (r: usize)
        requires
            self.vm_ready(),
        ensures
            r == self.exec_state().constants.len(),
    {
        match &self.chunk {
            Some(c) => c.constants_len(),
            None => vstd::pervasive::unreached(),
        }
    }

    fn chunk_constant(&self, idx: usize) -> (r: ValueType)
        requires
            self.vm_ready(),
            idx < self.exec_state().constants.len(),
        ensures
            r@ == self.exec_state().constants[idx as int],
    {
        match &self.chunk {
            Some(c) => c.get_constant(idx),
            None => vstd::pervasive::unreached(),
        }
    }

    /// Record where a runtime failure happened, for the diagnostic.
    fn note_error_line(&mut self, line: Option<usize>)
        ensures
            final(self)@ == (VmView { runtime_error_line: line, ..old(self)@ }),
            final(self).vm_ready() == old(self).vm_ready(),
            final(self).exec_state() == old(self).exec_state(),
    {
        self.runtime_error_line = line;
    }

    /// Fetch, decode and execute one instruction: the executable form of
    /// `spec_step`'s effect table.
    #[verifier::rlimit(50)]
    pub fn step(&mut self) -> (r: StepResult)
        requires
            old(self).vm_ready(),
        ensures
            final(self).vm_ready(),
            final(self)@.chunk == old(self)@.chunk,
            final(self)@.debug == old(self)@.debug,
            final(self)@.compile_diags == old(self)@.compile_diags,
            match spec_step(old(self).exec_state()) {
                StepOut::Next(s2) => r is Continue && final(self).exec_state() == s2
                    && final(self)@.runtime_error_line == old(self)@.runtime_error_line,
                StepOut::Halt => r is Halted && final(self).exec_state() == old(self).exec_state()
                    && final(self)@.runtime_error_line == old(self)@.runtime_error_line,
                StepOut::Fail(e) => (r matches StepResult::Errored(e2) && e2 == e)
                    && final(self)@.output == old(self)@.output
                    && final(self)@.runtime_error_line == (
                    if 0 <= old(self).exec_state().ip < old(self).exec_state().code.len() {
                        Some(old(self).exec_state().lines[old(self).exec_state().ip])
                    } else {
                        None
                    }),
            },
    {
        let ghost st0 = self.exec_state();
        let n = self.code_len();
        let ip0 = self.instr_pos;
        if ip0 >= n {
            self.note_error_line(None);
            return StepResult::Errored(InterpretError::RuntimeError);
        }
        let line0 = self.chunk_line(ip0);
        let op_byte = self.chunk_byte(ip0);
        let op = match OpCode::from_byte(op_byte) {
            Ok(op) => op,
            Err(e) => {
                self.note_error_line(Some(line0));
                return StepResult::Errored(e);
            },
        };
        match op {
            OpCode::RETURN => StepResult::Halted,
            OpCode::CONSTANT => {
                if n - ip0 < 2 {
                    self.note_error_line(Some(line0));
                    return StepResult::Errored(InterpretError::RuntimeError);
                }
                let idx = self.chunk_byte(ip0 + 1) as usize;
                if idx >= self.constants_len() {
                    self.note_error_line(Some(line0));
                    return StepResult::Errored(InterpretError::RuntimeError);
                }
                let v = self.chunk_constant(idx);
                proof {
                    lemma_views_push(self.stack@, v);
                }
                self.instr_pos = ip0 + 2;
                self.stack.push(v);
                StepResult::Continue
            },
            OpCode::NIL => {
                proof {
                    lemma_views_push(self.stack@, ValueType::Nil);
                }
                self.instr_pos = ip0 + 1;
                self.stack.push(ValueType::Nil);
                StepResult::Continue
            },
            OpCode::TRUE => {
                proof {
                    lemma_views_push(self.stack@, ValueType::Bool(true));
                }
                self.instr_pos = ip0 + 1;
                self.stack.push(ValueType::Bool(true));
                StepResult::Continue
            },
            OpCode::FALSE => {
                proof {
                    lemma_views_push(self.stack@, ValueType::Bool(false));
                }
                self.instr_pos = ip0 + 1;
                self.stack.push(ValueType::Bool(false));
                StepResult::Continue
            },
            OpCode::NOT => {
                let v = match self.stack.pop() {
                    Some(v) => v,
                    None => {
                        self.note_error_line(Some(line0));
                        return StepResult::Errored(InterpretError::RuntimeError);
                    },
                };
                let b = v.is_falsey();
                proof {
                    lemma_views_subrange(old(self).stack@, 0, old(self).stack@.len() - 1);
                    lemma_views_push(self.stack@, ValueType::Bool(b));
                    assert(st0.stack.drop_last() =~= views_of(old(self).stack@).subrange(
                        0,
                        old(self).stack@.len() - 1,
                    ));
                }
                self.instr_pos = ip0 + 1;
                self.stack.push(ValueType::Bool(b));
                StepResult::Continue
            },
            OpCode::NEGATE => {
                let len = self.stack.len();
                if len == 0 {
                    self.note_error_line(Some(line0));
                    return StepResult::Errored(InterpretError::RuntimeError);
                }
                let bits = match &self.stack[len - 1] {
                    ValueType::Number(bits) => *bits,
                    _ => {
                        self.note_error_line(Some(line0));
                        return StepResult::Errored(InterpretError::RuntimeError);
                    },
                };
                let nb = negate_double(bits);
                proof {
                    lemma_views_update(self.stack@, len - 1, ValueType::Number(crate::number::dbl_negate(bits)));
                    assert(st0.stack.drop_last().push(
                        AbsValue::Number(crate::number::dbl_negate(bits)),
                    ) =~= st0.stack.update(len - 1, AbsValue::Number(crate::number::dbl_negate(bits))));
                }
                self.instr_pos = ip0 + 1;
                self.stack[len - 1] = ValueType::Number(nb);
                StepResult::Continue
            },
            OpCode::EQUAL => {
                let b = match self.stack.pop() {
                    Some(v) => v,
                    None => {
                        self.note_error_line(Some(line0));
                        return StepResult::Errored(InterpretError::RuntimeError);
                    },
                };
                let a = match self.stack.pop() {
                    Some(v) => v,
                    None => {
                        self.note_error_line(Some(line0));
                        return StepResult::Errored(InterpretError::RuntimeError);
                    },
                };
                let eq = a.equals(&b);
                proof {
                    lemma_views_subrange(old(self).stack@, 0, old(self).stack@.len() - 2);
                    assert(self.stack@ =~= old(self).stack@.subrange(
                        0,
                        old(self).stack@.len() - 2,
                    ));
                    lemma_views_push(self.stack@, ValueType::Bool(eq));
                }
                self.instr_pos = ip0 + 1;
                self.stack.push(ValueType::Bool(eq));
                StepResult::Continue
            },
            OpCode::GREATER | OpCode::LESS | OpCode::ADD | OpCode::SUBTRACT | OpCode::MULTIPLY
                | OpCode::DIVIDE => {
                let b = match self.stack.pop() {
                    Some(v) => v,
                    None => {
                        self.note_error_line(Some(line0));
                        return StepResult::Errored(InterpretError::RuntimeError);
                    },
                };
                let a = match self.stack.pop() {
                    Some(v) => v,
                    None => {
                        self.note_error_line(Some(line0));
                        return StepResult::Errored(InterpretError::RuntimeError);
                    },
                };
                proof {
                    lemma_views_subrange(old(self).stack@, 0, old(self).stack@.len() - 2);
                    assert(self.stack@ =~= old(self).stack@.subrange(
                        0,
                        old(self).stack@.len() - 2,
                    ));
                }
                let result: ValueType = match (&a, &b) {
                    (ValueType::Number(x), ValueType::Number(y)) => {
                        match op {
                            OpCode::GREATER => ValueType::Bool(gt_doubles(*x, *y)),
                            OpCode::LESS => ValueType::Bool(lt_doubles(*x, *y)),
                            OpCode::ADD => ValueType::Number(add_doubles(*x, *y)),
                            OpCode::SUBTRACT => ValueType::Number(sub_doubles(*x, *y)),
                            OpCode::MULTIPLY => ValueType::Number(mul_doubles(*x, *y)),
                            _ => ValueType::Number(div_doubles(*x, *y)),
                        }
                    },
                    (ValueType::Obj(Object::ObjString(x)), ValueType::Obj(Object::ObjString(y)))
                        => {
                        if matches!(op, OpCode::ADD) {
                            let mut joined = vstd::slice::slice_to_vec(x.bytes().as_slice());
                            let mut tail = vstd::slice::slice_to_vec(y.bytes().as_slice());
                            joined.append(&mut tail);
                            ValueType::Obj(Object::ObjString(ObjString::new(joined)))
                        } else {
                            self.note_error_line(Some(line0));
                            return StepResult::Errored(InterpretError::RuntimeError);
                        }
                    },
                    _ => {
                        self.note_error_line(Some(line0));
                        return StepResult::Errored(InterpretError::RuntimeError);
                    },
                };
                proof {
                    lemma_views_push(self.stack@, result);
                }
                self.instr_pos = ip0 + 1;
                self.stack.push(result);
                StepResult::Continue
            },
            OpCode::PRINT => {
                let v = match self.stack.pop() {
                    Some(v) => v,
                    None => {
                        self.note_error_line(Some(line0));
                        return StepResult::Errored(InterpretError::RuntimeError);
                    },
                };
                let text = v.printable();
                proof {
                    lemma_views_subrange(old(self).stack@, 0, old(self).stack@.len() - 1);
                    assert(st0.stack.drop_last() =~= views_of(old(self).stack@).subrange(
                        0,
                        old(self).stack@.len() - 1,
                    ));
                    lemma_outputs_push(self.output@, text);
                }
                self.instr_pos = ip0 + 1;
                self.output.push(text);
                StepResult::Continue
            },
            OpCode::POP => {
                match self.stack.pop() {
                    Some(_) => {},
                    None => {
                        self.note_error_line(Some(line0));
                        return StepResult::Errored(InterpretError::RuntimeError);
                    },
                };
                proof {
                    lemma_views_subrange(old(self).stack@, 0, old(self).stack@.len() - 1);
                    assert(st0.stack.drop_last() =~= views_of(old(self).stack@).subrange(
                        0,
                        old(self).stack@.len() - 1,
                    ));
                }
                self.instr_pos = ip0 + 1;
                StepResult::Continue
            },
            OpCode::DefineGlobal => {
                if n - ip0 < 2 {
                    self.note_error_line(Some(line0));
                    return StepResult::Errored(InterpretError::RuntimeError);
                }
                let idx = self.chunk_byte(ip0 + 1) as usize;
                if idx >= self.constants_len() {
                    self.note_error_line(Some(line0));
                    return StepResult::Errored(InterpretError::RuntimeError);
                }
                let name = match self.chunk_constant(idx) {
                    ValueType::Obj(Object::ObjString(os)) => os.into_bytes(),
                    _ => {
                        self.note_error_line(Some(line0));
                        return StepResult::Errored(InterpretError::RuntimeError);
                    },
                };
                let len = self.stack.len();
                if len == 0 {
                    self.note_error_line(Some(line0));
                    return StepResult::Errored(InterpretError::RuntimeError);
                }
                let v = self.stack[len - 1].clone_value();
                self.globals.define(name, v);
                let _ = self.stack.pop();
                proof {
                    lemma_views_subrange(old(self).stack@, 0, old(self).stack@.len() - 1);
                    assert(st0.stack.drop_last() =~= views_of(old(self).stack@).subrange(
                        0,
                        old(self).stack@.len() - 1,
                    ));
                }
                self.instr_pos = ip0 + 2;
                StepResult::Continue
            },
            OpCode::GetGlobal => {
                if n - ip0 < 2 {
                    self.note_error_line(Some(line0));
                    return StepResult::Errored(InterpretError::RuntimeError);
                }
                let idx = self.chunk_byte(ip0 + 1) as usize;
                if idx >= self.constants_len() {
                    self.note_error_line(Some(line0));
                    return StepResult::Errored(InterpretError::RuntimeError);
                }
                let name = match self.chunk_constant(idx) {
                    ValueType::Obj(Object::ObjString(os)) => os.into_bytes(),
                    _ => {
                        self.note_error_line(Some(line0));
                        return StepResult::Errored(InterpretError::RuntimeError);
                    },
                };
                match self.globals.read(&name) {
                    Some(v) => {
                        proof {
                            lemma_views_push(self.stack@, v);
                        }
                        self.instr_pos = ip0 + 2;
                        self.stack.push(v);
                        StepResult::Continue
                    },
                    None => {
                        self.note_error_line(Some(line0));
                        StepResult::Errored(InterpretError::RuntimeError)
                    },
                }
            },
            OpCode::SetGlobal => {
                if n - ip0 < 2 {
                    self.note_error_line(Some(line0));
                    return StepResult::Errored(InterpretError::RuntimeError);
                }
                let idx = self.chunk_byte(ip0 + 1) as usize;
                if idx >= self.constants_len() {
                    self.note_error_line(Some(line0));
                    return StepResult::Errored(InterpretError::RuntimeError);
                }
                let name = match self.chunk_constant(idx) {
                    ValueType::Obj(Object::ObjString(os)) => os.into_bytes(),
                    _ => {
                        self.note_error_line(Some(line0));
                        return StepResult::Errored(InterpretError::RuntimeError);
                    },
                };
                let len = self.stack.len();
                if len == 0 {
                    self.note_error_line(Some(line0));
                    return StepResult::Errored(InterpretError::RuntimeError);
                }
                let v = self.stack[len - 1].clone_value();
                if self.globals.assign(&name, v) {
                    self.instr_pos = ip0 + 2;
                    StepResult::Continue
                } else {
                    self.note_error_line(Some(line0));
                    StepResult::Errored(InterpretError::RuntimeError)
                }
            },
            OpCode::GetLocal => {
                if n - ip0 < 2 {
                    self.note_error_line(Some(line0));
                    return StepResult::Errored(InterpretError::RuntimeError);
                }
                let slot = self.chunk_byte(ip0 + 1) as usize;
                if slot >= self.stack.len() {
                    self.note_error_line(Some(line0));
                    return StepResult::Errored(InterpretError::RuntimeError);
                }
                let v = self.stack[slot].clone_value();
                proof {
                    lemma_views_push(self.stack@, v);
                }
                self.instr_pos = ip0 + 2;
                self.stack.push(v);
                StepResult::Continue
            },
            OpCode::SetLocal => {
                if n - ip0 < 2 {
                    self.note_error_line(Some(line0));
                    return StepResult::Errored(InterpretError::RuntimeError);
                }
                let slot = self.chunk_byte(ip0 + 1) as usize;
                let len = self.stack.len();
                if slot >= len {
                    self.note_error_line(Some(line0));
                    return StepResult::Errored(InterpretError::RuntimeError);
                }
                let v = self.stack[len - 1].clone_value();
                proof {
                    lemma_views_update(self.stack@, slot as int, v);
                }
                self.instr_pos = ip0 + 2;
                self.stack[slot] = v;
                StepResult::Continue
            },
            OpCode::JUMP => {
                if n - ip0 < 3 {
                    self.note_error_line(Some(line0));
                    return StepResult::Errored(InterpretError::RuntimeError);
                }
                let hi = self.chunk_byte(ip0 + 1) as usize;
                let lo = self.chunk_byte(ip0 + 2) as usize;
                let off = hi * 256 + lo;
                if off > n - (ip0 + 3) {
                    self.note_error_line(Some(line0));
                    return StepResult::Errored(InterpretError::RuntimeError);
                }
                self.instr_pos = ip0 + 3 + off;
                StepResult::Continue
            },
            OpCode::JumpIfFalse => {
                if n - ip0 < 3 {
                    self.note_error_line(Some(line0));
                    return StepResult::Errored(InterpretError::RuntimeError);
                }
                let hi = self.chunk_byte(ip0 + 1) as usize;
                let lo = self.chunk_byte(ip0 + 2) as usize;
                let off = hi * 256 + lo;
                let len = self.stack.len();
                if len == 0 {
                    self.note_error_line(Some(line0));
                    return StepResult::Errored(InterpretError::RuntimeError);
                }
                if self.stack[len - 1].is_falsey() {
                    if off > n - (ip0 + 3) {
                        self.note_error_line(Some(line0));
                        return StepResult::Errored(InterpretError::RuntimeError);
                    }
                    self.instr_pos = ip0 + 3 + off;
                } else {
                    self.instr_pos = ip0 + 3;
                }
                StepResult::Continue
            },
            OpCode::LOOP => {
                if n - ip0 < 3 {
                    self.note_error_line(Some(line0));
                    return StepResult::Errored(InterpretError::RuntimeError);
                }
                let hi = self.chunk_byte(ip0 + 1) as usize;
                let lo = self.chunk_byte(ip0 + 2) as usize;
                let off = hi * 256 + lo;
                if off > ip0 + 3 {
                    self.note_error_line(Some(line0));
                    return StepResult::Errored(InterpretError::RuntimeError);
                }
                self.instr_pos = ip0 + 3 - off;
                StepResult::Continue
            },
        }
    }

    /// Execute the loaded chunk until RETURN halts it or an instruction
    /// fails; a run that exceeds the instruction budget stops as a runtime
    /// error.
    pub fn run(&mut self) -> (r: InterpretResult)
        requires
            old(self).vm_ready(),
        ensures
            final(self).vm_ready(),
            final(self)@.chunk == old(self)@.chunk,
            final(self)@.compile_diags == old(self)@.compile_diags,
            match spec_run(old(self).exec_state(), run_fuel()) {
                RunOut::Done(st) => r is Ok && final(self)@.output == st.output,
                RunOut::Failed(e, st) => (r matches Err(e2) && e2 == e) && final(self)@.output
                    == st.output,
                RunOut::OutOfFuel(st) => r == Err::<(), InterpretError>(
                    InterpretError::RuntimeError,
                ) && final(self)@.output == st.output,
            },
    {
        let mut fuel: u64 = u64::MAX;
        loop
            invariant
                self.vm_ready(),
                self@.chunk == old(self)@.chunk,
                self@.compile_diags == old(self)@.compile_diags,
                spec_run(old(self).exec_state(), run_fuel()) == spec_run(
                    self.exec_state(),
                    fuel as nat,
                ),
            decreases fuel,
        {
            if fuel == 0 {
                return Err(InterpretError::RuntimeError);
            }
            let ghost pre = self.exec_state();
            let sr = self.step();
            fuel = fuel - 1;
            match sr {
                StepResult::Continue => {
                    proof {
                        assert(spec_step(pre) matches StepOut::Next(s2) && self.exec_state()
                            == s2);
                    }
                },
                StepResult::Halted => {
                    return Ok(());
                },
                StepResult::Errored(e) => {
                    return Err(e);
                },
            }
        }
    }

}

impl VM {
    /// The diagnostics of the last compilation.
    pub fn compile_diagnostics(&self) -> (r: &Vec<crate::diag::Diagnostic>)
        ensures
            r@ == self@.compile_diags,
    {
        &self.compile_diags
    }

    /// Compile a source text and, when it compiles, execute it from a fresh
    /// machine state. The outcome and everything printed are exactly what
    /// the machine's small-step specification yields on the compiled chunk;
    /// a program that fails to compile reports its diagnostics and never
    /// reaches the machine.
    pub fn interpret(&mut self, source: &str) -> (r: InterpretResult)
        requires
            source.spec_bytes().len() < usize::MAX,
        ensures
            final(self)@.compile_diags.len() > 0 ==> r == Err::<(), InterpretError>(
                InterpretError::CompileError,
            ) && final(self)@.output.len() == 0 && final(self)@.globals == old(self)@.globals
                && final(self)@.stack == old(self)@.stack && final(self)@.chunk == old(
                self,
            )@.chunk,
            final(self)@.compile_diags.len() == 0 ==> ({
                    let cv = final(self)@.chunk->Some_0;
                    let st0 = ExecState {
                        code: cv.code,
                        lines: cv.lines,
                        constants: cv.constants,
                        ip: 0,
                        stack: Seq::empty(),
                        globals: Map::empty(),
                        output: Seq::empty(),
                    };
                    &&& final(self)@.chunk is Some
                    &&& cv.wf()
                    &&& cv.code.len() > 0
                    &&& cv.code.last() == OpCode::RETURN.spec_byte()
                    &&& (exists|starts: Seq<int>|
                        crate::compiler::boundaries_ok(cv, starts, Set::<int>::empty()))
                    &&& match spec_run(st0, run_fuel()) {
                        RunOut::Done(st) => r is Ok && final(self)@.output == st.output,
                        RunOut::Failed(e, st) => (r matches Err(e2) && e2 == e)
                            && final(self)@.output == st.output,
                        RunOut::OutOfFuel(st) => r == Err::<(), InterpretError>(
                            InterpretError::RuntimeError,
                        ) && final(self)@.output == st.output,
                    }
                }),
    {
        self.output = Vec::new();
        self.runtime_error_line = None;
        let bytes = vstd::string::StrSliceExecFns::as_bytes_vec(source);
        let mut compiler = crate::compiler::Compiler::new(bytes);
        let ok = compiler.compile();
        let ghost gstarts = compiler.generator().starts();
        let (chunk, diags) = compiler.into_parts();
        self.compile_diags = diags;
        if !ok {
            proof {
                assert(outputs_of(self.output@) =~= Seq::<Seq<u8>>::empty());
            }
            return Err(InterpretError::CompileError);
        }
        self.chunk = Some(chunk);
        self.instr_pos = 0;
        self.stack = Vec::new();
        self.globals = Globals::new();
        proof {
            assert(views_of(self.stack@) =~= Seq::<AbsValue>::empty());
            assert(outputs_of(self.output@) =~= Seq::<Seq<u8>>::empty());
            assert(crate::compiler::boundaries_ok(
                self@.chunk->Some_0,
                gstarts,
                Set::<int>::empty(),
            ));
        }
        self.run()
    }
}

/// One executed instruction moves the stack height by exactly the
/// instruction's static stack delta, so a sequence of instructions that
/// executes without jumps or failures moves it by their summed deltas.
pub proof fn lemma_step_stack_delta(st: ExecState)
    requires
        spec_step(st) is Next,
    ensures
        ({
            let s2 = spec_step(st)->Next_0;
            s2.stack.len() - st.stack.len() == OpCode::spec_decode(
                st.code[st.ip],
            )->Ok_0.spec_stack_delta()
        }),
{
}

/// The machine meaning of the compiler's not-equal sequence: executing
/// EQUAL and then NOT replaces the two operands by exactly the negation of
/// value equality.
pub proof fn lemma_equal_then_not(st: ExecState)
    requires
        st.stack.len() >= 2,
        0 <= st.ip,
        st.ip + 1 < st.code.len(),
        st.code[st.ip] == OpCode::EQUAL.spec_byte(),
        st.code[st.ip + 1] == OpCode::NOT.spec_byte(),
    ensures
        spec_step(st) is Next,
        spec_step(spec_step(st)->Next_0) is Next,
        ({
            let s2 = spec_step(spec_step(st)->Next_0)->Next_0;
            &&& s2.stack == st.stack.subrange(0, st.stack.len() - 2).push(
                AbsValue::Bool(
                    !spec_values_equal(st.stack[st.stack.len() - 2], st.stack.last()),
                ),
            )
            &&& s2.output == st.output
            &&& s2.globals == st.globals
            &&& s2.ip == st.ip + 2
        }),
{
    let s1 = spec_step(st)->Next_0;
    let s2 = spec_step(s1)->Next_0;
    assert(s1.stack.last() == AbsValue::Bool(
        spec_values_equal(st.stack[st.stack.len() - 2], st.stack.last()),
    ));
    assert(s2.stack =~= st.stack.subrange(0, st.stack.len() - 2).push(
        AbsValue::Bool(!spec_values_equal(st.stack[st.stack.len() - 2], st.stack.last())),
    ));
}

/// The machine meaning of the compiler's compound comparisons: LESS or
/// GREATER on two numbers followed by NOT leaves exactly the negation of
/// the strict order, which is what `>=` and `<=` compile to.
pub proof fn lemma_compare_then_not(st: ExecState, greater: bool)
    requires
        st.stack.len() >= 2,
        st.stack[st.stack.len() - 2] is Number,
        st.stack.last() is Number,
        0 <= st.ip,
        st.ip + 1 < st.code.len(),
        st.code[st.ip] == if greater {
            OpCode::GREATER.spec_byte()
        } else {
            OpCode::LESS.spec_byte()
        },
        st.code[st.ip + 1] == OpCode::NOT.spec_byte(),
    ensures
        spec_step(st) is Next,
        spec_step(spec_step(st)->Next_0) is Next,
        ({
            let x = st.stack[st.stack.len() - 2]->Number_0;
            let y = st.stack.last()->Number_0;
            let s2 = spec_step(spec_step(st)->Next_0)->Next_0;
            &&& s2.stack == st.stack.subrange(0, st.stack.len() - 2).push(
                AbsValue::Bool(
                    !(if greater {
                        dbl_gt(x, y)
                    } else {
                        dbl_lt(x, y)
                    }),
                ),
            )
            &&& s2.output == st.output
            &&& s2.globals == st.globals
            &&& s2.ip == st.ip + 2
        }),
{
    let x = st.stack[st.stack.len() - 2]->Number_0;
    let y = st.stack.last()->Number_0;
    let s1 = spec_step(st)->Next_0;
    let s2 = spec_step(s1)->Next_0;
    assert(s2.stack =~= st.stack.subrange(0, st.stack.len() - 2).push(
        AbsValue::Bool(
            !(if greater {
                dbl_gt(x, y)
            } else {
                dbl_lt(x, y)
            }),
        ),
    ));
}

} // verus!
