//! The program-level pipeline: concatenating every function's bytes in
//! declaration order, and loading the result into an executable region.

use vstd::prelude::*;

use crate::jit::{
    lemma_layout_pos_mono, spec_layout_pos, spec_op_resolved, spec_table, Compilable, Jit,
    JitError, JitOp,
};
use crate::region::MemoryRegion;
use crate::x86_64::{lemma_func_bytes_len, lemma_func_bytes_some};

verus! {

/// Every call in every function of the program names a registered
/// function.
pub open spec fn spec_all_resolved(jit: Jit) -> bool {
    forall|i: int, j: int|
        #![trigger jit.funcs@[i].ops@[j]]
        0 <= i < jit.funcs@.len() && 0 <= j < jit.funcs@[i].ops@.len() ==> spec_op_resolved(
            jit.funcs@[i].ops@[j],
            spec_table(jit.funcs@),
        )
}

/// The concatenated bytes of the program's first `i` functions, each
/// starting where the previous one ended, or `None` when any of them
/// has no bytes.
pub open spec fn spec_funcs_bytes_upto(jit: Jit, i: int) -> Option<Seq<u8>>
    decreases i,
{
    if i <= 0 {
        Some(Seq::<u8>::empty())
    } else {
        match spec_funcs_bytes_upto(jit, i - 1) {
            None => None,
            Some(acc) => match jit.funcs@[i - 1].spec_compiled(jit, acc.len() as int) {
                None => None,
                Some(b) => Some(acc + b),
            },
        }
    }
}

/// The whole program buffer: every function's bytes, in declaration
/// order, or `None` when some call cannot be resolved.
pub open spec fn spec_program_bytes(jit: Jit) -> Option<Seq<u8>> {
    spec_funcs_bytes_upto(jit, jit.funcs@.len() as int)
}

/// Once a prefix of the program has no bytes, the whole program has
/// none.
proof fn lemma_funcs_bytes_none(jit: Jit, i: int, k: int)
    requires
        0 <= i <= k,
        spec_funcs_bytes_upto(jit, i) is None,
    ensures
        spec_funcs_bytes_upto(jit, k) is None,
    decreases k,
{
    if k > i {
        lemma_funcs_bytes_none(jit, i, k - 1);
    }
}

/// The bytes of the first `i` functions end exactly at the base offset
/// the layout assigns to function `i`.
proof fn lemma_funcs_bytes_len(jit: Jit, i: int)
    requires
        jit.wf(),
        0 <= i <= jit.funcs@.len(),
    ensures
        match spec_funcs_bytes_upto(jit, i) {
            Some(acc) => acc.len() == spec_layout_pos(jit.funcs@, i),
            None => true,
        },
    decreases i,
{
    if i > 0 {
        lemma_funcs_bytes_len(jit, i - 1);
        match spec_funcs_bytes_upto(jit, i - 1) {
            Some(acc) => {
                lemma_func_bytes_len(jit.funcs@[i - 1], jit, acc.len() as int);
            },
            None => {},
        }
    }
}

/// The first `i` functions have bytes exactly when all their calls
/// resolve.
proof fn lemma_funcs_bytes_some(jit: Jit, i: int)
    requires
        jit.wf(),
        0 <= i <= jit.funcs@.len(),
    ensures
        (spec_funcs_bytes_upto(jit, i) is Some) <==> (forall|k: int, j: int|
            #![trigger jit.funcs@[k].ops@[j]]
            0 <= k < i && 0 <= j < jit.funcs@[k].ops@.len() ==> spec_op_resolved(
                jit.funcs@[k].ops@[j],
                spec_table(jit.funcs@),
            )),
    decreases i,
{
    if i > 0 {
        lemma_funcs_bytes_some(jit, i - 1);
        match spec_funcs_bytes_upto(jit, i - 1) {
            Some(acc) => {
                lemma_func_bytes_some(jit.funcs@[i - 1], jit, acc.len() as int);
            },
            None => {},
        }
    }
}

/// The program has bytes exactly when every call of every function
/// resolves.
pub proof fn lemma_program_resolved(jit: Jit)
    requires
        jit.wf(),
    ensures
        (spec_program_bytes(jit) is Some) <==> spec_all_resolved(jit),
{
    lemma_funcs_bytes_some(jit, jit.funcs@.len() as int);
}

/// The compiled buffer is exactly as long as the layout predicted.
pub proof fn lemma_program_len(jit: Jit)
    requires
        jit.wf(),
    ensures
        match spec_program_bytes(jit) {
            Some(b) => b.len() == jit.total_len(),
            None => true,
        },
{
    lemma_funcs_bytes_len(jit, jit.funcs@.len() as int);
}

impl Jit {
    /// Compiles the whole program: every function's bytes at its
    /// assigned offset, in declaration order, in one flat buffer.  Fails
    /// with `UnresolvedCallTarget` — returning no bytes at all — exactly
    /// when some call names an unregistered function.
    pub fn compile(&self) -> (r: Result<Vec<u8>, JitError>)
        requires
            self.wf(),
        ensures
            match r {
                Ok(v) => spec_program_bytes(*self) == Some(v@) && spec_all_resolved(*self),
                Err(e) => {
                    &&& spec_program_bytes(*self) is None
                    &&& e == JitError::UnresolvedCallTarget
                    &&& !spec_all_resolved(*self)
                },
            },
    {
        let mut vec: Vec<u8> = Vec::new();
        let mut i: usize = 0;
        while i < self.funcs.len()
            invariant
                self.wf(),
                i <= self.funcs@.len(),
                spec_funcs_bytes_upto(*self, i as int) == Some(vec@),
                vec@.len() == spec_layout_pos(self.funcs@, i as int),
            decreases self.funcs@.len() - i,
        {
            proof {
                lemma_layout_pos_mono(self.funcs@, i as int + 1, self.funcs@.len() as int);
                assert(spec_layout_pos(self.funcs@, i as int + 1) == spec_layout_pos(
                    self.funcs@,
                    i as int,
                ) + self.funcs@[i as int].len);
            }
            let f = &self.funcs[i];
            let pos = vec.len();
            let comp = match f.compile(self, pos) {
                Ok(c) => c,
                Err(e) => {
                    proof {
                        lemma_funcs_bytes_none(*self, i as int + 1, self.funcs@.len() as int);
                        let table = spec_table(self.funcs@);
                        let j = choose|j: int|
                            0 <= j < f.ops@.len() && ((#[trigger] f.ops@[j])
                                matches JitOp::Call(name) && !table.contains_key(name@));
                        assert(!spec_op_resolved(self.funcs@[i as int].ops@[j], table));
                        assert(!spec_all_resolved(*self));
                    }
                    return Err(e);
                },
            };
            let mut comp = comp;
            proof {
                lemma_func_bytes_len(self.funcs@[i as int], *self, pos as int);
            }
            vec.append(&mut comp);
            i = i + 1;
        }
        proof {
            lemma_program_resolved(*self);
        }
        Ok(vec)
    }

    /// Compiles the program and loads it into a region: the bytes are
    /// copied in and the region is flipped from writable to executable,
    /// never the other way.  Any OS-side refusal surfaces as
    /// `MemoryMappingFailure`; a region too small for the program does
    /// too.
    pub fn region<R: MemoryRegion>(&self, r: &mut R) -> (res: Result<(), JitError>)
        requires
            self.wf(),
            !old(r).spec_executable(),
        ensures
            match res {
                Ok(_) => {
                    &&& spec_program_bytes(*self) matches Some(b) && final(r).region_bytes()
                        == b + old(r).region_bytes().skip(b.len() as int) && b.len() <= old(
                        r,
                    ).region_bytes().len()
                    &&& final(r).spec_executable()
                },
                Err(e) => {
                    &&& (e == JitError::UnresolvedCallTarget || e
                        == JitError::MemoryMappingFailure)
                    &&& e == JitError::UnresolvedCallTarget ==> !spec_all_resolved(*self)
                        && final(r).region_bytes() == old(r).region_bytes()
                    &&& e == JitError::MemoryMappingFailure ==> spec_all_resolved(*self)
                    &&& final(r).region_bytes().len() == old(r).region_bytes().len()
                    &&& !final(r).spec_executable()
                },
            },
    {
        let code = match self.compile() {
            Ok(c) => c,
            Err(e) => {
                return Err(e);
            },
        };
        if !r.copy(code.as_slice()) {
            return Err(JitError::MemoryMappingFailure);
        }
        if r.protect() {
            return Err(JitError::MemoryMappingFailure);
        }
        Ok(())
    }
}

} // verus!
