//! The architecture-independent model: logical registers, abstract
//! operations, labels, and the error values of the compile pipeline.

use vstd::prelude::*;

verus! {

/// The sixteen logical registers.  Each maps to a 3-bit physical index
/// and an "extended" flag; see the table in `x86_64`.
#[derive(Clone, Copy, PartialEq, Eq, Structural, Debug)]
pub enum JitReg {
    R1,
    R2,
    R3,
    R4,
    R5,
    R6,
    R7,
    R8,
    R9,
    R10,
    R11,
    R12,
    R13,
    R14,
    SP,
    BP,
}

/// An abstract operation of a function body.  Immediates are unsigned
/// 64-bit values; call targets are symbolic names resolved at encode time.
#[derive(Debug)]
pub enum JitOp {
    Addri(JitReg, u64),
    Subri(JitReg, u64),
    Mulri(JitReg, u64),
    Mulrr(JitReg, JitReg),
    Divri(JitReg, u64),
    Divrr(JitReg, JitReg),
    Movrr(JitReg, JitReg),
    Movri(JitReg, u64),
    Pushr(JitReg),
    Popr(JitReg),
    Call(String),
    Ret,
}

/// The failures of the compile pipeline.  None is recovered from: either
/// a program compiles completely or compilation is abandoned.
#[derive(Clone, Copy, PartialEq, Eq, Structural, Debug)]
pub enum JitError {
    /// A `Call` names a function absent from the program's table.
    UnresolvedCallTarget,
    /// Add/subtract was given an immediate that needs the full 64 bits,
    /// a form the encoder does not provide.
    UnsupportedImmediateWidth,
    /// The OS refused to allocate or reprotect an executable region.
    MemoryMappingFailure,
}

/// A logical register of the target architecture.
pub trait Register {
    /// The 3-bit physical register index.
    spec fn spec_real(&self) -> u8;

    /// Whether the register lives in the upper (extended) bank.
    spec fn spec_ext(&self) -> bool;

    fn to_real_reg(&self) -> (r: u8)
        ensures
            r == self.spec_real(),
            r <= 7,
    ;

    fn extended(&self) -> (r: bool)
        ensures
            r == self.spec_ext(),
    ;
}

/// Anything with a predicted encoded byte length.  The prediction must
/// agree exactly with the bytes later emitted; operations whose length
/// is undefined (a 64-bit add/subtract immediate) report an error
/// instead of guessing.
pub trait Opcode {
    /// The predicted length, or `None` where no encoding is defined.
    spec fn spec_len(&self) -> Option<nat>;

    fn len(&self) -> (r: Result<usize, JitError>)
        ensures
            match self.spec_len() {
                Some(n) => r matches Ok(l) && l == n,
                None => r == Err::<usize, JitError>(JitError::UnsupportedImmediateWidth),
            },
    ;
}

/// A named position: the byte offset of a function within the program
/// buffer, or (for sublabels) an operation index within a function.
#[derive(Debug)]
pub struct JitLabel {
    pub name: String,
    pub pos: usize,
}

impl JitLabel {
    pub fn new(name: String, pos: usize) -> (r: JitLabel)
        ensures
            r.name@ == name@,
            r.pos == pos,
    {
        JitLabel { name, pos }
    }
}

impl Clone for JitOp {
    fn clone(&self) -> (r: JitOp)
        ensures
            r == *self,
    {
        match self {
            JitOp::Addri(reg, imm) => JitOp::Addri(*reg, *imm),
            JitOp::Subri(reg, imm) => JitOp::Subri(*reg, *imm),
            JitOp::Mulri(reg, imm) => JitOp::Mulri(*reg, *imm),
            JitOp::Mulrr(r1, r2) => JitOp::Mulrr(*r1, *r2),
            JitOp::Divri(reg, imm) => JitOp::Divri(*reg, *imm),
            JitOp::Divrr(r1, r2) => JitOp::Divrr(*r1, *r2),
            JitOp::Movrr(r1, r2) => JitOp::Movrr(*r1, *r2),
            JitOp::Movri(reg, imm) => JitOp::Movri(*reg, *imm),
            JitOp::Pushr(r) => JitOp::Pushr(*r),
            JitOp::Popr(r) => JitOp::Popr(*r),
            JitOp::Call(name) => JitOp::Call(name.clone()),
            JitOp::Ret => JitOp::Ret,
        }
    }
}

/// The total predicted length of a run of operations, or `None` as soon
/// as one of them has no defined encoding.
pub open spec fn spec_ops_len(ops: Seq<JitOp>) -> Option<nat>
    decreases ops.len(),
{
    if ops.len() == 0 {
        Some(0nat)
    } else {
        match (spec_ops_len(ops.drop_last()), ops.last().spec_len()) {
            (Some(a), Some(b)) => Some((a + b) as nat),
            _ => None,
        }
    }
}

/// A function under construction or finished: a name, the byte offset
/// assigned during layout, an ordered run of operations, and the running
/// predicted length.  `supported` records that every operation so far
/// has a defined encoded length (and that the total fits the machine);
/// a function that lost it can still be inspected but never laid out.
#[derive(Debug)]
pub struct JitFunction {
    pub label: JitLabel,
    pub sublabels: Vec<JitLabel>,
    pub ops: Vec<JitOp>,
    pub len: usize,
    pub supported: bool,
}

impl JitFunction {
    /// `len` and `supported` agree with the operations: the builder
    /// establishes this and every step preserves it.  A function whose
    /// predicted total no longer fits the machine keeps growing its true
    /// total in the model while `supported` stays cleared.
    pub open spec fn wf(&self) -> bool {
        match spec_ops_len(self.ops@) {
            Some(n) => if self.supported {
                n == self.len
            } else {
                n > usize::MAX
            },
            None => !self.supported,
        }
    }

    /// A fresh, empty function builder.  Its byte offset is assigned
    /// later, when the finished function is inserted into a program.
    pub fn new(name: String) -> (f: JitFunction)
        ensures
            f.wf(),
            f.supported,
            f.len == 0,
            f.ops@ == Seq::<JitOp>::empty(),
            f.sublabels@ == Seq::<JitLabel>::empty(),
            f.label.name@ == name@,
            f.label.pos == 0,
    {
        JitFunction {
            label: JitLabel::new(name, 0),
            sublabels: Vec::new(),
            ops: Vec::new(),
            len: 0,
            supported: true,
        }
    }

    /// Appends one operation, keeping the running length in step with
    /// the length model.
    pub fn op(self, op: JitOp) -> (r: JitOpcode)
        requires
            self.wf(),
        ensures
            r.func.wf(),
            r.func.ops@ == self.ops@.push(op),
            r.func.label == self.label,
            r.func.sublabels@ == self.sublabels@,
            r.op == op,
    {
        let mut f = self;
        let op2 = op.clone();
        match op.len() {
            Ok(n) => {
                if f.len <= usize::MAX - n {
                    f.len = f.len + n;
                } else {
                    f.supported = false;
                }
            },
            Err(_) => {
                f.supported = false;
            },
        }
        f.ops.push(op);
        proof {
            assert(f.ops@.drop_last() =~= self.ops@);
            assert(f.ops@.last() == op);
        }
        JitOpcode::new(f, op2)
    }

    /// Records a named position at the current operation index.  Such
    /// sublabels are metadata only; nothing consumes them yet.
    pub fn label(&mut self, name: String)
        ensures
            final(self).sublabels@.len() == old(self).sublabels@.len() + 1,
            final(self).sublabels@.last().name@ == name@,
            final(self).sublabels@.last().pos == old(self).ops@.len(),
            final(self).sublabels@.drop_last() == old(self).sublabels@,
            final(self).ops@ == old(self).ops@,
            final(self).label == old(self).label,
            final(self).len == old(self).len,
            final(self).supported == old(self).supported,
    {
        let pos = self.ops.len();
        self.sublabels.push(JitLabel::new(name, pos));
        proof {
            assert(self.sublabels@.drop_last() =~= old(self).sublabels@);
        }
    }

    /// Appends the trailing return and hands back the finished,
    /// immutable function, ready to be inserted into a program.
    pub fn end(self) -> (r: JitFunction)
        requires
            self.wf(),
        ensures
            r.wf(),
            r.ops@ == self.ops@.push(JitOp::Ret),
            r.label == self.label,
            r.sublabels@ == self.sublabels@,
    {
        let jo = self.op(JitOp::Ret);
        jo.func
    }

    /// The predicted encoded length accumulated so far.
    pub fn len(&self) -> (r: usize)
        ensures
            r == self.len,
    {
        self.len
    }
}

/// The chaining handle returned by `JitFunction::op`: it carries the
/// function onward and remembers the operation just appended.
#[derive(Debug)]
pub struct JitOpcode {
    pub func: JitFunction,
    pub op: JitOp,
}

impl JitOpcode {
    pub fn new(func: JitFunction, op: JitOp) -> (r: JitOpcode)
        ensures
            r.func == func,
            r.op == op,
    {
        JitOpcode { func, op }
    }

    /// Appends the next operation.
    pub fn op(self, op: JitOp) -> (r: JitOpcode)
        requires
            self.func.wf(),
        ensures
            r.func.wf(),
            r.func.ops@ == self.func.ops@.push(op),
            r.func.label == self.func.label,
            r.func.sublabels@ == self.func.sublabels@,
            r.op == op,
    {
        self.func.op(op)
    }

    /// Finishes the function being built.
    pub fn end(self) -> (r: JitFunction)
        requires
            self.func.wf(),
        ensures
            r.wf(),
            r.ops@ == self.func.ops@.push(JitOp::Ret),
            r.label == self.func.label,
            r.sublabels@ == self.func.sublabels@,
    {
        self.func.end()
    }
}

impl Opcode for JitOpcode {
    open spec fn spec_len(&self) -> Option<nat> {
        self.op.spec_len()
    }

    fn len(&self) -> (r: Result<usize, JitError>) {
        self.op.len()
    }
}

/// The byte offset of function `i`: the sum of the predicted lengths of
/// all functions before it, in declaration order.
pub open spec fn spec_layout_pos(funcs: Seq<JitFunction>, i: int) -> int
    decreases i,
{
    if i <= 0 {
        0
    } else {
        spec_layout_pos(funcs, i - 1) + funcs[i - 1].len
    }
}

/// The symbolic-call resolution table: each function's name mapped to
/// its assigned base offset.
pub open spec fn spec_table(funcs: Seq<JitFunction>) -> Map<Seq<char>, int>
    decreases funcs.len(),
{
    if funcs.len() == 0 {
        Map::empty()
    } else {
        spec_table(funcs.drop_last()).insert(
            funcs.last().label.name@,
            funcs.last().label.pos as int,
        )
    }
}

/// Base offsets never decrease along the layout.
pub proof fn lemma_layout_pos_mono(funcs: Seq<JitFunction>, i: int, k: int)
    requires
        0 <= i <= k,
    ensures
        spec_layout_pos(funcs, i) <= spec_layout_pos(funcs, k),
    decreases k,
{
    if k > i {
        lemma_layout_pos_mono(funcs, i, k - 1);
    }
}

/// Layout positions depend only on the lengths of the functions before
/// them.
proof fn lemma_layout_pos_prefix(s1: Seq<JitFunction>, s2: Seq<JitFunction>, i: int)
    requires
        forall|j: int| 0 <= j < i ==> (#[trigger] s1[j]).len == s2[j].len,
    ensures
        spec_layout_pos(s1, i) == spec_layout_pos(s2, i),
    decreases i,
{
    if i > 0 {
        lemma_layout_pos_prefix(s1, s2, i - 1);
    }
}

/// Whether some function in the run carries this name.
pub open spec fn spec_has_name(funcs: Seq<JitFunction>, name: Seq<char>) -> bool {
    exists|i: int| 0 <= i < funcs.len() && (#[trigger] funcs[i]).label.name@ == name
}

/// With distinct names, the resolution table holds exactly the declared
/// names, each mapped to its function's assigned offset.
pub proof fn lemma_table_lookup(funcs: Seq<JitFunction>)
    requires
        forall|i: int, j: int|
            #![trigger funcs[i], funcs[j]]
            0 <= i < j < funcs.len() ==> funcs[i].label.name@ != funcs[j].label.name@,
    ensures
        forall|name: Seq<char>|
            #[trigger] spec_table(funcs).contains_key(name) == spec_has_name(funcs, name),
        forall|i: int|
            0 <= i < funcs.len() ==> spec_table(funcs)[(#[trigger] funcs[i]).label.name@]
                == funcs[i].label.pos,
    decreases funcs.len(),
{
    if funcs.len() > 0 {
        let prefix = funcs.drop_last();
        lemma_table_lookup(prefix);
        assert forall|name: Seq<char>|
            #[trigger] spec_table(funcs).contains_key(name) == spec_has_name(funcs, name) by {
            if spec_table(funcs).contains_key(name) {
                if name == funcs.last().label.name@ {
                    assert(funcs[funcs.len() - 1].label.name@ == name);
                } else {
                    assert(spec_table(prefix).contains_key(name));
                    assert(spec_has_name(prefix, name));
                    let i = choose|i: int|
                        0 <= i < prefix.len() && (#[trigger] prefix[i]).label.name@ == name;
                    assert(funcs[i].label.name@ == name);
                }
            }
            if spec_has_name(funcs, name) {
                let i = choose|i: int|
                    0 <= i < funcs.len() && (#[trigger] funcs[i]).label.name@ == name;
                if i < funcs.len() - 1 {
                    assert(prefix[i].label.name@ == name);
                    assert(spec_has_name(prefix, name));
                }
            }
        }
        assert forall|i: int| 0 <= i < funcs.len() implies spec_table(funcs)[(
        #[trigger] funcs[i]).label.name@] == funcs[i].label.pos by {
            if i < funcs.len() - 1 {
                assert(prefix[i] == funcs[i]);
                assert(funcs[i].label.name@ != funcs.last().label.name@);
            }
        }
    }
}

/// An ordered collection of finished functions, keyed by name, with
/// every base offset assigned by the layout rule.
#[derive(Debug)]
pub struct Jit {
    pub funcs: Vec<JitFunction>,
}

impl Jit {
    /// No two functions share a name.
    pub open spec fn names_distinct(&self) -> bool {
        forall|i: int, j: int|
            #![trigger self.funcs@[i], self.funcs@[j]]
            0 <= i < j < self.funcs@.len() ==> self.funcs@[i].label.name@
                != self.funcs@[j].label.name@
    }

    /// The total predicted length of the program buffer.
    pub open spec fn total_len(&self) -> int {
        spec_layout_pos(self.funcs@, self.funcs@.len() as int)
    }

    /// The central layout invariant: every function is well-formed with
    /// a defined length, sits at the offset the layout rule assigns it,
    /// names are unique, and the whole program stays within reach of the
    /// 4-byte relative call displacement.
    pub open spec fn wf(&self) -> bool {
        &&& forall|i: int|
            0 <= i < self.funcs@.len() ==> (#[trigger] self.funcs@[i]).wf()
        &&& forall|i: int|
            0 <= i < self.funcs@.len() ==> (#[trigger] self.funcs@[i]).supported
        &&& forall|i: int|
            0 <= i < self.funcs@.len() ==> (#[trigger] self.funcs@[i]).label.pos
                == spec_layout_pos(self.funcs@, i)
        &&& self.total_len() < 0x8000_0000
        &&& self.names_distinct()
    }

    /// An empty program.
    pub fn new() -> (j: Jit)
        ensures
            j.wf(),
            j.funcs@.len() == 0,
    {
        Jit { funcs: Vec::new() }
    }

    /// Inserts a finished function: assigns it the next base offset and
    /// appends it to the table.  A function holding an operation with no
    /// defined encoding is rejected whole, before any layout happens.
    pub fn build_function(&mut self, func: JitFunction) -> (r: Result<(), JitError>)
        requires
            old(self).wf(),
            func.wf(),
            forall|i: int|
                0 <= i < old(self).funcs@.len() ==> (#[trigger] old(self).funcs@[i]).label.name@
                    != func.label.name@,
            func.supported ==> old(self).total_len() + func.len < 0x8000_0000,
        ensures
            final(self).wf(),
            r is Ok <==> func.supported,
            func.supported ==> {
                &&& final(self).funcs@.len() == old(self).funcs@.len() + 1
                &&& final(self).funcs@.drop_last() == old(self).funcs@
                &&& final(self).funcs@.last().ops@ == func.ops@
                &&& final(self).funcs@.last().label.name@ == func.label.name@
                &&& final(self).funcs@.last().label.pos == old(self).total_len()
                &&& final(self).funcs@.last().len == func.len
                &&& final(self).funcs@.last().supported
                &&& final(self).funcs@.last().sublabels@ == func.sublabels@
            },
            !func.supported ==> *final(self) == *old(self) && r == Err::<(), JitError>(
                JitError::UnsupportedImmediateWidth,
            ),
    {
        if !func.supported {
            return Err(JitError::UnsupportedImmediateWidth);
        }
        let n = self.funcs.len();
        let pos: usize = if n > 0 {
            proof {
                lemma_layout_pos_mono(self.funcs@, n - 1 as int, n as int);
            }
            let last = &self.funcs[n - 1];
            last.label.pos + last.len
        } else {
            0
        };
        proof {
            assert(pos == old(self).total_len());
        }
        let mut f = func;
        f.label.pos = pos;
        self.funcs.push(f);
        proof {
            let s_old = old(self).funcs@;
            let s_new = self.funcs@;
            assert(s_new.drop_last() =~= s_old);
            assert forall|i: int| 0 <= i < s_new.len() implies (#[trigger] s_new[i]).label.pos
                == spec_layout_pos(s_new, i) by {
                lemma_layout_pos_prefix(s_old, s_new, i);
            }
            lemma_layout_pos_prefix(s_old, s_new, s_old.len() as int);
        }
        Ok(())
    }

    /// Looks up a function by exact name match.
    pub fn find_function<'a>(&'a self, name: &String) -> (r: Option<&'a JitFunction>)
        ensures
            match r {
                Some(f) => exists|i: int|
                    0 <= i < self.funcs@.len() && #[trigger] self.funcs@[i] == *f
                        && f.label.name@ == name@,
                None => forall|i: int|
                    0 <= i < self.funcs@.len() ==> (#[trigger] self.funcs@[i]).label.name@
                        != name@,
            },
    {
        let mut i: usize = 0;
        while i < self.funcs.len()
            invariant
                i <= self.funcs@.len(),
                forall|j: int|
                    0 <= j < i ==> (#[trigger] self.funcs@[j]).label.name@ != name@,
            decreases self.funcs@.len() - i,
        {
            if self.funcs[i].label.name == *name {
                return Some(&self.funcs[i]);
            }
            i = i + 1;
        }
        None
    }
}

/// Whether one operation's call target (if it is a call at all) is
/// present in the resolution table.
pub open spec fn spec_op_resolved(op: JitOp, table: Map<Seq<char>, int>) -> bool {
    match op {
        JitOp::Call(name) => table.contains_key(name@),
        _ => true,
    }
}

/// Anything that can emit its exact encoded bytes, given the program it
/// belongs to (for call resolution) and its own byte offset.
pub trait Compilable {
    /// What the emitter relies on: typically the program's layout
    /// invariant and an offset within displacement reach.
    spec fn compile_req(&self, jit: Jit, pos: int) -> bool;

    /// The exact bytes, or `None` where the encoding is undefined.
    spec fn spec_compiled(&self, jit: Jit, pos: int) -> Option<Seq<u8>>;

    /// Which error values may report an undefined encoding.
    spec fn compile_err_ok(&self, jit: Jit, pos: int, e: JitError) -> bool;

    fn compile(&self, jit: &Jit, pos: usize) -> (r: Result<Vec<u8>, JitError>)
        requires
            self.compile_req(*jit, pos as int),
        ensures
            r is Ok ==> self.spec_compiled(*jit, pos as int) == Some(r->Ok_0@),
            r is Err ==> self.spec_compiled(*jit, pos as int) is None && self.compile_err_ok(
                *jit,
                pos as int,
                r->Err_0,
            ),
    ;
}

/// Layout determinism: each function's base offset is the previous
/// function's base offset plus that function's predicted length, which
/// in turn is the sum of its operations' predicted lengths (the
/// trailing return included, since finishing a function appends it as
/// an ordinary operation).
pub proof fn lemma_layout_determinism(jit: Jit, i: int)
    requires
        jit.wf(),
        0 <= i,
        i + 1 < jit.funcs@.len(),
    ensures
        jit.funcs@[i + 1].label.pos == jit.funcs@[i].label.pos + jit.funcs@[i].len,
        spec_ops_len(jit.funcs@[i].ops@) == Some(jit.funcs@[i].len as nat),
{
}

} // verus!
