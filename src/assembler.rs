//! Encoding whole programs.

use vstd::prelude::*;

use crate::instruction::{CPUError, Instruction};

verus! {

/// Whether every instruction of `prog` can be encoded.
pub open spec fn all_fit(prog: Seq<Instruction>) -> bool {
    forall|k: int| 0 <= k < prog.len() ==> (#[trigger] prog[k]).fits()
}

/// Whether `k` is the index of the first instruction of `prog` that cannot be
/// encoded.
pub open spec fn is_first_unfit(prog: Seq<Instruction>, k: int) -> bool {
    &&& 0 <= k < prog.len()
    &&& !prog[k].fits()
    &&& all_fit(prog.take(k))
}

/// The bytes of a program, or the error for its first instruction that
/// cannot be encoded.
pub open spec fn encode_program(prog: Seq<Instruction>) -> Result<Seq<u8>, CPUError> {
    if all_fit(prog) {
        Ok(prog.map_values(|i: Instruction| i.encoding()))
    } else {
        Err(CPUError::AssemblyError(prog[choose|k: int| is_first_unfit(prog, k)]))
    }
}

/// Encodes each instruction as one byte, in order; fails with the first
/// instruction whose operand does not fit in five bits.
pub fn assemble_instructions(instructions: &[Instruction]) -> (r: Result<Vec<u8>, CPUError>)
    ensures
        r matches Ok(v) ==> encode_program(instructions@) == Ok::<Seq<u8>, CPUError>(v@),
        r matches Err(e) ==> encode_program(instructions@) == Err::<Seq<u8>, CPUError>(e),
{
    let ghost prog = instructions@;
    let mut out: Vec<u8> = Vec::new();
    let mut k: usize = 0;
    while k < instructions.len()
        invariant
            k <= prog.len(),
            prog == instructions@,
            all_fit(prog.take(k as int)),
            out@ == prog.take(k as int).map_values(|i: Instruction| i.encoding()),
        decreases prog.len() - k,
    {
        let i = instructions[k];
        match i.assemble() {
            Ok(byte) => {
                out.push(byte);
                assert(out@ =~= prog.take(k + 1).map_values(|i: Instruction| i.encoding()));
                assert(all_fit(prog.take(k + 1))) by {
                    assert forall|j: int| 0 <= j < k + 1 implies (#[trigger] prog.take(k + 1)[j]).fits() by {
                        if j < k {
                            assert(prog.take(k + 1)[j] == prog.take(k as int)[j]);
                        }
                    }
                }
            },
            Err(e) => {
                proof {
                    assert(is_first_unfit(prog, k as int));
                    let c = choose|c: int| is_first_unfit(prog, c);
                    if c < k {
                        assert(prog.take(k as int)[c] == prog[c]);
                    } else if c > k {
                        assert(prog.take(c)[k as int] == prog[k as int]);
                    }
                    assert(!all_fit(prog));
                }
                return Err(e);
            },
        }
        k = k + 1;
    }
    assert(prog.take(k as int) =~= prog);
    Ok(out)
}

/// Encodes a program, taking ownership of it; see [`assemble_instructions`].
pub fn assemble(prog: Vec<Instruction>) -> (r: Result<Vec<u8>, CPUError>)
    ensures
        r matches Ok(v) ==> encode_program(prog@) == Ok::<Seq<u8>, CPUError>(v@),
        r matches Err(e) ==> encode_program(prog@) == Err::<Seq<u8>, CPUError>(e),
{
    assemble_instructions(prog.as_slice())
}

} // verus!
