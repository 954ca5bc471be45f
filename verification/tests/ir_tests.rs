use core::marker::PhantomData;

use offline_memory::config::OuterConfig;
use offline_memory::ir::{DslIr, Felt, RVar, TracedVec, Var};

#[test]
fn default_instruction_halts() {
    let instr: DslIr<OuterConfig> = Default::default();
    assert!(matches!(instr, DslIr::Halt));
}

#[test]
fn instructions_carry_their_operands() {
    let v = |idx| Var::<u64> { idx, marker: PhantomData };
    let f = |idx| Felt::<u32> { idx, marker: PhantomData };

    let add: DslIr<OuterConfig> = DslIr::AddVI(v(2), v(1), 5u64);
    match add {
        DslIr::AddVI(dst, src, imm) => {
            assert_eq!(dst.idx, 2);
            assert_eq!(src.idx, 1);
            assert_eq!(imm, 5);
        }
        _ => panic!("wrong variant"),
    }

    let body: TracedVec<DslIr<OuterConfig>> = TracedVec { vec: vec![DslIr::AssertEqF(f(0), f(1))] };
    let loop_instr: DslIr<OuterConfig> = DslIr::For(RVar::Const(0), RVar::Const(8), 1, v(3), body);
    match loop_instr {
        DslIr::For(_, _, step, var, body) => {
            assert_eq!(step, 1);
            assert_eq!(var.idx, 3);
            assert_eq!(body.vec.len(), 1);
        }
        _ => panic!("wrong variant"),
    }
}
