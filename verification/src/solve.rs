use vstd::prelude::*;

use crate::abi::Scalar;
use crate::errors::Error;
use acvm::acir::circuit::Program;
use acvm::acir::native_types::{Witness, WitnessMap};
use acvm::pwg::{ACVM, ACVMStatus};
use acvm::FieldElement;
use acvm::blackbox_solver::StubbedBlackBoxSolver;

verus! {

/// A compiled circuit program: the entry circuit's opcodes plus the
/// unconstrained functions it may call.
#[verifier::external_type_specification]
#[verifier::external_body]
pub struct ExProgram(Program);

/// An assignment from witness indices to field elements, filled in by
/// encoding and extended by solving.
#[verifier::external_type_specification]
#[verifier::external_body]
pub struct ExWitnessMap(WitnessMap);

/// The assignments a witness map holds, each field element as its 32
/// canonical big-endian bytes.
pub uninterp spec fn witness_entries(m: WitnessMap) -> Map<u32, Scalar>;

/// The canonical form of 32 big-endian bytes once reduced into the bn254
/// field: what reading back a stored entry yields.
pub uninterp spec fn reduce_scalar(b: Scalar) -> Scalar;

/// The empty assignment.
pub open spec fn no_witness_entries() -> Map<u32, Scalar> {
    Map::<u32, Scalar>::empty()
}

/// Relies on acir's `WitnessMap::new`: the fresh map holds no entries.
#[verifier::external_body]
fn witness_map_new() -> (m: WitnessMap)
    ensures
        witness_entries(m) == no_witness_entries(),
{
    WitnessMap::new()
}

/// Relies on acir's `WitnessMap::insert` and the field's big-endian byte
/// conversion: the value is reduced into the field and stored under the
/// index, every other entry kept.
#[verifier::external_body]
fn witness_insert(m: &mut WitnessMap, i: u32, v: Scalar)
    ensures
        witness_entries(*final(m)) == witness_entries(*old(m)).insert(i, reduce_scalar(v)),
{
    let _ = m.insert(Witness(i), FieldElement::from_be_bytes_reduce(&v));
}

/// Relies on acir's `WitnessMap::get` and the field's big-endian byte
/// conversion, which yields exactly 32 bytes for a bn254 element.
#[verifier::external_body]
pub(crate) fn witness_get(m: &WitnessMap, i: u32) -> (r: Option<Scalar>)
    ensures
        r == if witness_entries(*m).dom().contains(i) {
            Some(witness_entries(*m)[i])
        } else {
            None::<Scalar>
        },
{
    match m.get(&Witness(i)) {
        None => None,
        Some(f) => {
            let mut out = [0u8; 32];
            out.copy_from_slice(&f.to_be_bytes());
            Some(out)
        },
    }
}

/// What the circuit solver reported of one run.
pub enum SolveOutcome {
    /// Every opcode was solved; the completed witness follows.
    Solved(WitnessMap),
    /// Solving stopped; the message carries the reason.
    Failed(String),
}

/// Whether the program holds an entry circuit: solving runs the first
/// circuit of the program, as the compiler lays it out.
pub uninterp spec fn has_entry_circuit(p: Program) -> bool;

/// Whether acvm returns from running the program's entry circuit on the
/// given initial assignment, rather than aborting.  acvm's solver aborts
/// the process on some malformed opcode shapes (a memory operation whose
/// target is not a bare witness, a memory index beyond 64 bits, a
/// malformed assertion payload), so those programs are excluded by
/// `requires` rather than promised a reported error.
pub uninterp spec fn acvm_accepts(p: Program, init: Map<u32, Scalar>) -> bool;

/// Whether acvm's solver completes the program's entry circuit from the
/// given initial assignment.  Solving consults only the circuit and the
/// witness: its outcome is a function of the two.
pub uninterp spec fn acvm_solves(p: Program, init: Map<u32, Scalar>) -> bool;

/// The completed assignment when solving succeeds.
pub uninterp spec fn acvm_entries(p: Program, init: Map<u32, Scalar>) -> Map<u32, Scalar>;

/// The reason reported when solving stops short.
pub uninterp spec fn acvm_reason(p: Program, init: Map<u32, Scalar>) -> Seq<char>;

/// Relies on acvm's `ACVM`: evaluates the entry circuit's opcodes
/// against the initial witness in program order, over the bn254 field,
/// and reports the completed witness, or why solving stopped.  A pending
/// foreign call or nested circuit call is reported as a failure (this
/// harness configures no resolver for either), and so is a
/// curve-specific blackbox opcode: the bn254 curve backend's embedded
/// WASM vendor cannot be linked into a program under this toolchain, so
/// the solver runs with acvm's stub backend, which reports every
/// blackbox function as unsupported, deterministically.
#[verifier::external_body]
fn run_acvm(program: &Program, initial: WitnessMap) -> (r: SolveOutcome)
    requires
        acvm_accepts(*program, witness_entries(initial)),
    ensures
        r is Solved ==> has_entry_circuit(*program) && acvm_solves(*program, witness_entries(initial)),
        r is Failed ==> !(has_entry_circuit(*program) && acvm_solves(*program, witness_entries(initial))),
        r matches SolveOutcome::Solved(w) ==> witness_entries(w) == acvm_entries(*program, witness_entries(initial)),
        r matches SolveOutcome::Failed(m) ==> m@ == acvm_reason(*program, witness_entries(initial)),
        r is Solved ==> acvm_accepts(*program, witness_entries(initial)),
{
    let circuit = match program.functions.first() {
        None => return SolveOutcome::Failed("program holds no circuit".to_string()),
        Some(c) => c,
    };
    let solver = StubbedBlackBoxSolver;
    let u = &program.unconstrained_functions;
    let mut vm = ACVM::new(&solver, &circuit.opcodes, initial, u, &circuit.assert_messages);
    match vm.solve() {
        ACVMStatus::Solved => SolveOutcome::Solved(vm.finalize()),
        ACVMStatus::InProgress => SolveOutcome::Failed("solving stopped early".to_string()),
        ACVMStatus::Failure(e) => SolveOutcome::Failed(format!("{e:?}")),
        ACVMStatus::RequiresForeignCall(c) => SolveOutcome::Failed(format!("unresolved foreign call: {}", c.function)),
        ACVMStatus::RequiresAcirCall(_) => SolveOutcome::Failed("nested circuit call".to_string()),
    }
}

/// The initial witness assignment a flattened parameter list dictates:
/// index `i` holds the `i`-th value, reduced into the field.
pub open spec fn initial_entries(s: Seq<Scalar>) -> Map<u32, Scalar> {
    Map::new(|i: u32| (i as nat) < s.len(), |i: u32| reduce_scalar(s[i as int]))
}

/// Builds the initial witness assignment: index `i` holds the `i`-th
/// flattened parameter value, reduced into the field.
#[verifier::loop_isolation(false)]
pub fn build_witness(scalars: &Vec<Scalar>) -> (m: WitnessMap)
    requires
        scalars@.len() <= u32::MAX as nat,
    ensures
        witness_entries(m) == initial_entries(scalars@),
{
    let mut m = witness_map_new();
    let mut i: usize = 0;
    while i < scalars.len()
        invariant
            i <= scalars@.len(),
            witness_entries(m) == Map::new(
                |j: u32| (j as nat) < i,
                |j: u32| reduce_scalar(scalars@[j as int]),
            ),
        decreases scalars@.len() - i,
    {
        witness_insert(&mut m, i as u32, scalars[i]);
        proof {
            assert(witness_entries(m) =~= Map::new(
                |j: u32| (j as nat) < i + 1,
                |j: u32| reduce_scalar(scalars@[j as int]),
            ));
        }
        i = i + 1;
    }
    proof {
        assert(witness_entries(m) =~= initial_entries(scalars@));
    }
    m
}

/// Runs a compiled program on the flattened parameter values: they are
/// bound to witness indices `0..n` in order, then the entry circuit's
/// opcodes are solved over the bn254 field.  Success is owed exactly when
/// the program holds an entry circuit and the solver completes it; any
/// failure surfaces as a `SolveError` carrying the solver's reason,
/// forwarded unchanged.
pub fn execute_circuit(program: &Program, scalars: &Vec<Scalar>) -> (r: Result<WitnessMap, Error>)
    requires
        scalars@.len() <= u32::MAX as nat,
        acvm_accepts(*program, initial_entries(scalars@)),
    ensures
        r is Ok <==> has_entry_circuit(*program) && acvm_solves(
            *program,
            initial_entries(scalars@),
        ),
        r matches Ok(w) ==> witness_entries(w) == acvm_entries(
            *program,
            initial_entries(scalars@),
        ),
        r matches Err(e) ==> e is SolveError && e.text() == acvm_reason(
            *program,
            initial_entries(scalars@),
        ),
{
    let initial = build_witness(scalars);
    match run_acvm(program, initial) {
        SolveOutcome::Solved(w) => Ok(w),
        SolveOutcome::Failed(msg) => Err(Error::SolveError(msg)),
    }
}

} // verus!
