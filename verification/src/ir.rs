//! The intermediate instruction set of the recursive-verifier compiler.
//!
//! Programs written in the embedded DSL compile both to the recursive VM and
//! to arithmetic circuits; every instruction operates on tagged virtual
//! variables over the configuration's native, base and extension fields.

use vstd::prelude::*;
use core::marker::PhantomData;

verus! {

/// The three field types a compilation target fixes: the native field of
/// circuit variables, the base field and its extension.
pub trait Config: Sized {
    type N: Sized;
    type F: Sized;
    type EF: Sized;
}

/// A virtual variable over the native field.
pub struct Var<N> {
    pub idx: u32,
    pub marker: PhantomData<N>,
}

/// A virtual base-field element.
pub struct Felt<F> {
    pub idx: u32,
    pub marker: PhantomData<F>,
}

/// A virtual extension-field element.
pub struct Ext<F, EF> {
    pub idx: u32,
    pub marker: PhantomData<(F, EF)>,
}

/// A pointer into the DSL's memory.
pub struct Ptr<N> {
    pub address: Var<N>,
}

/// A memory index: a base index, a fixed offset and an element size.
pub struct MemIndex<N> {
    pub index: RVar<N>,
    pub offset: usize,
    pub size: usize,
}

/// Either a compile-time constant or a runtime variable.
pub enum RVar<N> {
    Const(N),
    Val(Var<N>),
}

/// A list of instructions recorded during tracing.
pub struct TracedVec<T> {
    pub vec: Vec<T>,
}

/// An array value: fixed contents known at compile time, or a dynamic
/// region behind a pointer with a runtime length.
pub enum Array<C: Config, T> {
    Fixed(Vec<T>),
    Dyn(Ptr<C::N>, Var<C::N>),
}

/// A big unsigned integer held as an array of native-field limb variables.
pub type BigUintVar<C> = Array<C, Var<<C as Config>::N>>;

/// One instruction of the DSL.
pub enum DslIr<C: Config> {
    /// Assigns an immediate to a variable (var = imm).
    ImmV(Var<C::N>, C::N),
    /// Assigns a field immediate to a field element (felt = field imm).
    ImmF(Felt<C::F>, C::F),
    /// Assigns an ext field immediate to an extension field element.
    ImmE(Ext<C::F, C::EF>, C::EF),
    /// Add two variables (var = var + var).
    AddV(Var<C::N>, Var<C::N>, Var<C::N>),
    /// Add a variable and an immediate (var = var + imm).
    AddVI(Var<C::N>, Var<C::N>, C::N),
    /// Add two field elements (felt = felt + felt).
    AddF(Felt<C::F>, Felt<C::F>, Felt<C::F>),
    /// Add a field element and a field immediate (felt = felt + field imm).
    AddFI(Felt<C::F>, Felt<C::F>, C::F),
    /// Add two extension field elements (ext = ext + ext).
    AddE(Ext<C::F, C::EF>, Ext<C::F, C::EF>, Ext<C::F, C::EF>),
    /// Add an extension field element and an ext field immediate.
    AddEI(Ext<C::F, C::EF>, Ext<C::F, C::EF>, C::EF),
    /// Add an extension field element and a field element (ext = ext + felt).
    AddEF(Ext<C::F, C::EF>, Ext<C::F, C::EF>, Felt<C::F>),
    /// Add an extension field element and a field immediate.
    AddEFI(Ext<C::F, C::EF>, Ext<C::F, C::EF>, C::F),
    /// Add a field element and an ext field immediate (ext = felt + ext imm).
    AddEFFI(Ext<C::F, C::EF>, Felt<C::F>, C::EF),
    /// Add two modular big integers over the coordinate field.
    AddSecp256k1Coord(BigUintVar<C>, BigUintVar<C>, BigUintVar<C>),
    /// Add two modular big integers over the scalar field.
    AddSecp256k1Scalar(BigUintVar<C>, BigUintVar<C>, BigUintVar<C>),
    /// Add two 256-bit integers.
    Add256(BigUintVar<C>, BigUintVar<C>, BigUintVar<C>),
    /// Subtracts two variables (var = var - var).
    SubV(Var<C::N>, Var<C::N>, Var<C::N>),
    /// Subtracts a variable and an immediate (var = var - imm).
    SubVI(Var<C::N>, Var<C::N>, C::N),
    /// Subtracts an immediate and a variable (var = imm - var).
    SubVIN(Var<C::N>, C::N, Var<C::N>),
    /// Subtracts two field elements (felt = felt - felt).
    SubF(Felt<C::F>, Felt<C::F>, Felt<C::F>),
    /// Subtracts a field element and a field immediate.
    SubFI(Felt<C::F>, Felt<C::F>, C::F),
    /// Subtracts a field immediate and a field element.
    SubFIN(Felt<C::F>, C::F, Felt<C::F>),
    /// Subtracts two extension field elements (ext = ext - ext).
    SubE(Ext<C::F, C::EF>, Ext<C::F, C::EF>, Ext<C::F, C::EF>),
    /// Subtracts an extension field element and an ext field immediate.
    SubEI(Ext<C::F, C::EF>, Ext<C::F, C::EF>, C::EF),
    /// Subtracts an ext field immediate and an extension field element.
    SubEIN(Ext<C::F, C::EF>, C::EF, Ext<C::F, C::EF>),
    /// Subtracts an extension field element and a field immediate.
    SubEFI(Ext<C::F, C::EF>, Ext<C::F, C::EF>, C::F),
    /// Subtracts an extension field element and a field element.
    SubEF(Ext<C::F, C::EF>, Ext<C::F, C::EF>, Felt<C::F>),
    /// Subtracts two modular big integers over the coordinate field.
    SubSecp256k1Coord(BigUintVar<C>, BigUintVar<C>, BigUintVar<C>),
    /// Subtracts two modular big integers over the scalar field.
    SubSecp256k1Scalar(BigUintVar<C>, BigUintVar<C>, BigUintVar<C>),
    /// Subtract two 256-bit integers.
    Sub256(BigUintVar<C>, BigUintVar<C>, BigUintVar<C>),
    /// Multiplies two variables (var = var * var).
    MulV(Var<C::N>, Var<C::N>, Var<C::N>),
    /// Multiplies a variable and an immediate (var = var * imm).
    MulVI(Var<C::N>, Var<C::N>, C::N),
    /// Multiplies two field elements (felt = felt * felt).
    MulF(Felt<C::F>, Felt<C::F>, Felt<C::F>),
    /// Multiplies a field element and a field immediate.
    MulFI(Felt<C::F>, Felt<C::F>, C::F),
    /// Multiplies two extension field elements (ext = ext * ext).
    MulE(Ext<C::F, C::EF>, Ext<C::F, C::EF>, Ext<C::F, C::EF>),
    /// Multiplies an extension field element and an ext field immediate.
    MulEI(Ext<C::F, C::EF>, Ext<C::F, C::EF>, C::EF),
    /// Multiplies an extension field element and a field immediate.
    MulEFI(Ext<C::F, C::EF>, Ext<C::F, C::EF>, C::F),
    /// Multiplies an extension field element and a field element.
    MulEF(Ext<C::F, C::EF>, Ext<C::F, C::EF>, Felt<C::F>),
    /// Multiplies two modular big integers over the coordinate field.
    MulSecp256k1Coord(BigUintVar<C>, BigUintVar<C>, BigUintVar<C>),
    /// Multiplies two modular big integers over the scalar field.
    MulSecp256k1Scalar(BigUintVar<C>, BigUintVar<C>, BigUintVar<C>),
    /// Multiply two 256-bit integers.
    Mul256(BigUintVar<C>, BigUintVar<C>, BigUintVar<C>),
    /// Divides two variables (var = var / var).
    DivF(Felt<C::F>, Felt<C::F>, Felt<C::F>),
    /// Divides a field element and a field immediate.
    DivFI(Felt<C::F>, Felt<C::F>, C::F),
    /// Divides a field immediate and a field element.
    DivFIN(Felt<C::F>, C::F, Felt<C::F>),
    /// Divides two extension field elements (ext = ext / ext).
    DivE(Ext<C::F, C::EF>, Ext<C::F, C::EF>, Ext<C::F, C::EF>),
    /// Divides an extension field element and an ext field immediate.
    DivEI(Ext<C::F, C::EF>, Ext<C::F, C::EF>, C::EF),
    /// Divides an ext field immediate and an extension field element.
    DivEIN(Ext<C::F, C::EF>, C::EF, Ext<C::F, C::EF>),
    /// Divides an extension field element and a field immediate.
    DivEFI(Ext<C::F, C::EF>, Ext<C::F, C::EF>, C::F),
    /// Divides an extension field element and a field element.
    DivEF(Ext<C::F, C::EF>, Ext<C::F, C::EF>, Felt<C::F>),
    /// Divides two modular big integers over the coordinate field.
    DivSecp256k1Coord(BigUintVar<C>, BigUintVar<C>, BigUintVar<C>),
    /// Divides two modular big integers over the scalar field.
    DivSecp256k1Scalar(BigUintVar<C>, BigUintVar<C>, BigUintVar<C>),
    /// Negates a variable (var = -var).
    NegV(Var<C::N>, Var<C::N>),
    /// Negates a field element (felt = -felt).
    NegF(Felt<C::F>, Felt<C::F>),
    /// Negates an extension field element (ext = -ext).
    NegE(Ext<C::F, C::EF>, Ext<C::F, C::EF>),
    /// Compares two variables.
    LessThanV(Var<C::N>, Var<C::N>, Var<C::N>),
    /// Compares a variable and an immediate.
    LessThanVI(Var<C::N>, Var<C::N>, C::N),
    /// Compare two 256-bit unsigned integers for less-than.
    LessThanU256(Ptr<C::N>, BigUintVar<C>, BigUintVar<C>),
    /// Compare two 256-bit integers for equality.
    EqualTo256(Ptr<C::N>, BigUintVar<C>, BigUintVar<C>),
    /// Compare two signed 256-bit integers for less-than.
    LessThanI256(Ptr<C::N>, BigUintVar<C>, BigUintVar<C>),
    /// Bitwise exclusive or on two 256-bit integers.
    Xor256(BigUintVar<C>, BigUintVar<C>, BigUintVar<C>),
    /// Bitwise conjunction on two 256-bit integers.
    And256(BigUintVar<C>, BigUintVar<C>, BigUintVar<C>),
    /// Bitwise disjunction on two 256-bit integers.
    Or256(BigUintVar<C>, BigUintVar<C>, BigUintVar<C>),
    /// Shift left on 256-bit integers.
    ShiftLeft256(BigUintVar<C>, BigUintVar<C>, BigUintVar<C>),
    /// Logical shift right on 256-bit integers.
    ShiftRightLogic256(BigUintVar<C>, BigUintVar<C>, BigUintVar<C>),
    /// Arithmetic shift right on 256-bit integers.
    ShiftRightArith256(BigUintVar<C>, BigUintVar<C>, BigUintVar<C>),
    /// A for loop: start, end, step size, step variable and body.
    For(RVar<C::N>, RVar<C::N>, C::N, Var<C::N>, TracedVec<DslIr<C>>),
    /// An indefinite loop.
    Loop(TracedVec<DslIr<C>>),
    /// An equality branch: lhs, rhs, then body, else body.
    IfEq(Var<C::N>, Var<C::N>, TracedVec<DslIr<C>>, TracedVec<DslIr<C>>),
    /// An inequality branch: lhs, rhs, then body, else body.
    IfNe(Var<C::N>, Var<C::N>, TracedVec<DslIr<C>>, TracedVec<DslIr<C>>),
    /// An equality branch against an immediate.
    IfEqI(Var<C::N>, C::N, TracedVec<DslIr<C>>, TracedVec<DslIr<C>>),
    /// An inequality branch against an immediate.
    IfNeI(Var<C::N>, C::N, TracedVec<DslIr<C>>, TracedVec<DslIr<C>>),
    /// Break out of a loop.
    Break,
    /// Assert that two variables are equal.
    AssertEqV(Var<C::N>, Var<C::N>),
    /// Assert that two variables are not equal.
    AssertNeV(Var<C::N>, Var<C::N>),
    /// Assert that two field elements are equal.
    AssertEqF(Felt<C::F>, Felt<C::F>),
    /// Assert that two field elements are not equal.
    AssertNeF(Felt<C::F>, Felt<C::F>),
    /// Assert that two extension field elements are equal.
    AssertEqE(Ext<C::F, C::EF>, Ext<C::F, C::EF>),
    /// Assert that two extension field elements are not equal.
    AssertNeE(Ext<C::F, C::EF>, Ext<C::F, C::EF>),
    /// Assert that a variable equals an immediate.
    AssertEqVI(Var<C::N>, C::N),
    /// Assert that a variable does not equal an immediate.
    AssertNeVI(Var<C::N>, C::N),
    /// Assert that a field element equals a field immediate.
    AssertEqFI(Felt<C::F>, C::F),
    /// Assert that a field element does not equal a field immediate.
    AssertNeFI(Felt<C::F>, C::F),
    /// Assert that an extension field element equals an ext field immediate.
    AssertEqEI(Ext<C::F, C::EF>, C::EF),
    /// Assert that an extension field element does not equal an immediate.
    AssertNeEI(Ext<C::F, C::EF>, C::EF),
    /// Allocate a memory slice: pointer, length, element size.
    Alloc(Ptr<C::N>, RVar<C::N>, usize),
    /// Load a variable from memory: variable, pointer, index.
    LoadV(Var<C::N>, Ptr<C::N>, MemIndex<C::N>),
    /// Load a field element from memory.
    LoadF(Felt<C::F>, Ptr<C::N>, MemIndex<C::N>),
    /// Load an extension field element from memory.
    LoadE(Ext<C::F, C::EF>, Ptr<C::N>, MemIndex<C::N>),
    /// Store a variable at an address.
    StoreV(Var<C::N>, Ptr<C::N>, MemIndex<C::N>),
    /// Store a field element at an address.
    StoreF(Felt<C::F>, Ptr<C::N>, MemIndex<C::N>),
    /// Store an extension field element at an address.
    StoreE(Ext<C::F, C::EF>, Ptr<C::N>, MemIndex<C::N>),
    /// Decompose a variable into bits; for circuit targets only.
    CircuitNum2BitsV(Var<C::N>, usize, Vec<Var<C::N>>),
    /// Decompose a field element into bits; for circuit targets only.
    CircuitNum2BitsF(Felt<C::F>, Vec<Var<C::N>>),
    /// Permutes an array of base-field elements with the sponge permutation.
    Poseidon2PermuteBabyBear(Array<C, Felt<C::F>>, Array<C, Felt<C::F>>),
    /// Compresses two base-field arrays with the sponge permutation.
    Poseidon2CompressBabyBear(
        Array<C, Felt<C::F>>,
        Array<C, Felt<C::F>>,
        Array<C, Felt<C::F>>,
    ),
    /// Permutes three native-field variables; for circuit targets only.
    CircuitPoseidon2Permute([Var<C::N>; 3]),
    /// Computes the Keccak-256 hash of a byte-constrained input region.
    Keccak256(Array<C, Var<C::N>>, Array<C, Var<C::N>>),
    /// Adds two unequal curve points read from the heap.
    Secp256k1AddUnequal(
        Array<C, Var<C::N>>,
        Array<C, Var<C::N>>,
        Array<C, Var<C::N>>,
    ),
    /// Doubles a curve point read from the heap.
    Secp256k1Double(Array<C, Var<C::N>>, Array<C, Var<C::N>>),
    /// Prints a variable.
    PrintV(Var<C::N>),
    /// Prints a field element.
    PrintF(Felt<C::F>),
    /// Prints an extension field element.
    PrintE(Ext<C::F, C::EF>),
    /// Throws an error.
    Error(),
    /// Prepare the next input vector, preceded by its length, for hinting.
    HintInputVec(),
    /// Prepare the bit decomposition of a value for hinting.
    HintBitsU(RVar<C::N>),
    /// Prepare the bit decomposition of a variable for hinting.
    HintBitsV(Var<C::N>, u32),
    /// Prepare the bit decomposition of a field element for hinting.
    HintBitsF(Felt<C::F>, u32),
    /// Prepare the byte decomposition of a variable for hinting.
    HintBytes(Var<C::N>, u32),
    /// Store the next hint word at an address.
    StoreHintWord(Ptr<C::N>, MemIndex<C::N>),
    /// Witness a variable; for circuit targets only.
    WitnessVar(Var<C::N>, u32),
    /// Witness a field element; for circuit targets only.
    WitnessFelt(Felt<C::F>, u32),
    /// Witness an extension field element; for circuit targets only.
    WitnessExt(Ext<C::F, C::EF>, u32),
    /// Label a field element as the i-th public input.
    Publish(Felt<C::F>, Var<C::N>),
    /// Halt the program; the last instruction of every program.
    Halt,
    /// Assert a variable equals the circuit's key-hash public input.
    CircuitCommitVkeyHash(Var<C::N>),
    /// Assert a variable equals the committed-values digest public input.
    CircuitCommitCommitedValuesDigest(Var<C::N>),
    /// Select a variable by a condition; for circuit targets only.
    CircuitSelectV(Var<C::N>, Var<C::N>, Var<C::N>, Var<C::N>),
    /// Select a field element by a condition; for circuit targets only.
    CircuitSelectF(Var<C::N>, Felt<C::F>, Felt<C::F>, Felt<C::F>),
    /// Select an extension field element by a condition.
    CircuitSelectE(
        Var<C::N>,
        Ext<C::F, C::EF>,
        Ext<C::F, C::EF>,
        Ext<C::F, C::EF>,
    ),
    /// Convert an extension field element to base-field slots.
    CircuitExt2Felt([Felt<C::F>; 4], Ext<C::F, C::EF>),
    /// Convert base-field slots to an extension field element.
    CircuitFelts2Ext([Felt<C::F>; 4], Ext<C::F, C::EF>),
    /// An unconstrained less-than, for debugging only.
    LessThan(Var<C::N>, Var<C::N>, Var<C::N>),
    /// Start the cycle tracker for the annotated block.
    CycleTrackerStart(String),
    /// End the cycle tracker for the annotated block.
    CycleTrackerEnd(String),
}

impl<C: Config> Default for DslIr<C> {
    /// The default instruction halts the program.
    fn default() -> (r: Self)
        ensures
            r is Halt,
    {
        DslIr::Halt
    }
}

} // verus!
