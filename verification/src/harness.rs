use vstd::prelude::*;

use crate::abi::{
    Abi, InputValue, Scalar, Value, fields_width, flatten, pair_models_of, type_width,
    value_matches, value_model,
};
use crate::decode::{
    decode_spec, decode_value, fields_width_exec, lemma_decode_matches, lemma_round_trip,
    type_width_exec,
};
use crate::encode::{encode_inputs, flatten_params, inputs_ok};
use crate::errors::Error;
use crate::solve::{
    acvm_accepts, acvm_entries, acvm_reason, acvm_solves, execute_circuit, has_entry_circuit,
    initial_entries, witness_entries, witness_get,
};
use acvm::acir::circuit::Program;
use acvm::acir::native_types::WitnessMap;

verus! {

/// Whether the witness assigns every return slot: the indices from
/// `start` up to but excluding `start + width`.
pub open spec fn slots_present(entries: Map<u32, Scalar>, start: nat, width: nat) -> bool {
    forall|k: int| 0 <= k < width ==> entries.dom().contains(#[trigger] ((start + k) as u32))
}

/// The witness data of the return slots, in index order.
pub open spec fn return_slots(entries: Map<u32, Scalar>, start: nat, width: nat) -> Seq<Scalar> {
    Seq::new(width, |k: int| entries[((start + k) as u32)])
}

/// What decoding owes for an ABI and a completed witness: a function
/// without a declared return decodes to nothing; otherwise the return
/// slots sit directly after the flattened parameters, must all be present
/// and addressable by 32-bit witness indices, and decode to exactly the
/// declared shape.  A missing slot or an unaddressable shape is a
/// `DecodeError`.
pub open spec fn decode_return_post(
    abi: Abi,
    entries: Map<u32, Scalar>,
    r: Result<Option<InputValue>, Error>,
) -> bool {
    match abi.return_type {
        None => r matches Ok(o) && o is None,
        Some(t) => {
            let start = fields_width(abi.parameters@);
            let width = type_width(t);
            if start + width > u32::MAX as nat {
                r matches Err(e) && e is DecodeError
            } else if !slots_present(entries, start, width) {
                r matches Err(e) && e is DecodeError
            } else {
                r matches Ok(o) && o matches Some(v) && value_model(v) == decode_spec(
                    t,
                    return_slots(entries, start, width),
                )
            }
        },
    }
}

/// Decodes the declared return value out of a completed witness.
#[verifier::loop_isolation(false)]
pub fn decode_return(abi: &Abi, w: &WitnessMap) -> (r: Result<Option<InputValue>, Error>)
    ensures
        decode_return_post(*abi, witness_entries(*w), r),
{
    match &abi.return_type {
        None => Ok(None),
        Some(t) => {
            proof {
                assert(abi.parameters@.skip(0) =~= abi.parameters@);
            }
            match fields_width_exec(&abi.parameters, 0) {
                None => Err(Error::DecodeError("return slots beyond index range".to_string())),
                Some(start) => match type_width_exec(t) {
                    None => Err(
                        Error::DecodeError("return slots beyond index range".to_string()),
                    ),
                    Some(width) => {
                        let total: u64 = start as u64 + width as u64;
                        if total > u32::MAX as u64 {
                            Err(Error::DecodeError("return slots beyond index range".to_string()))
                        } else {
                            let mut scalars: Vec<Scalar> = Vec::new();
                            let mut k: u32 = 0;
                            while k < width
                                invariant
                                    k <= width,
                                    scalars@.len() == k as nat,
                                    forall|j: int|
                                        0 <= j < k ==> witness_entries(*w).dom().contains(
                                            #[trigger] ((start + j) as u32),
                                        ),
                                    forall|j: int|
                                        0 <= j < k ==> #[trigger] scalars@[j] == witness_entries(
                                            *w,
                                        )[((start + j) as u32)],
                                decreases width - k,
                            {
                                match witness_get(w, start + k) {
                                    None => {
                                        proof {
                                            assert(!witness_entries(*w).dom().contains(
                                                ((start + k as int) as u32),
                                            ));
                                        }
                                        return Err(
                                            Error::DecodeError("missing witness value".to_string()),
                                        );
                                    },
                                    Some(s) => {
                                        scalars.push(s);
                                        proof {
                                            assert(scalars@[k as int] == witness_entries(*w)[
                                                ((start + k as int) as u32)
                                            ]);
                                        }
                                    },
                                }
                                k = k + 1;
                            }
                            proof {
                                assert(scalars@ =~= return_slots(
                                    witness_entries(*w),
                                    start as nat,
                                    width as nat,
                                ));
                            }
                            let v = decode_value(t, &scalars);
                            Ok(Some(v))
                        }
                    },
                },
            }
        },
    }
}

/// Determinism of decoding: one ABI and one completed witness admit a
/// single outcome.  The completed witness of a successful run is itself
/// a function of the program and the pipeline's initial witness
/// (`acvm_entries`), so two calls on one program, ABI and input mapping
/// see the same verdict and the same decoded value data.
pub proof fn lemma_decode_deterministic(
    abi: Abi,
    entries: Map<u32, Scalar>,
    r1: Result<Option<InputValue>, Error>,
    r2: Result<Option<InputValue>, Error>,
)
    requires
        decode_return_post(abi, entries, r1),
        decode_return_post(abi, entries, r2),
    ensures
        r1 is Ok <==> r2 is Ok,
        r1 matches Ok(o1) ==> (r2 matches Ok(o2) ==> (o1 is Some <==> o2 is Some)),
        r1 matches Ok(o1) ==> (r2 matches Ok(o2) ==> (o1 matches Some(v1) ==> (o2 matches Some(
            v2,
        ) ==> value_model(v1) == value_model(v2)))),
{
}

/// Return-shape fidelity through the pipeline: when the solver's
/// completed witness holds the flattened encoding of a value of the
/// declared return type in the return slots, the decoded result is that
/// value back, element order and arity preserved exactly as declared.
pub proof fn lemma_return_fidelity(
    abi: Abi,
    entries: Map<u32, Scalar>,
    r: Result<Option<InputValue>, Error>,
    v: Value,
)
    requires
        decode_return_post(abi, entries, r),
        abi.return_type is Some,
        value_matches(v, abi.return_type->0),
        fields_width(abi.parameters@) + type_width(abi.return_type->0) <= u32::MAX as nat,
        slots_present(entries, fields_width(abi.parameters@), type_width(abi.return_type->0)),
        return_slots(entries, fields_width(abi.parameters@), type_width(abi.return_type->0))
            == flatten(v),
    ensures
        r matches Ok(o) && o matches Some(dv) && value_model(dv) == v,
{
    lemma_round_trip(v, abi.return_type->0);
}

/// The initial witness assignment the whole pipeline binds: the ABI's
/// flattened parameter values, reduced into the field, at indices `0..n`.
pub open spec fn pipeline_witness(abi: Abi, m: Seq<(Seq<char>, Value)>) -> Map<u32, Scalar> {
    initial_entries(flatten_params(abi.parameters@, m))
}

/// Whether the encoding stage succeeds: every parameter present with a
/// matching shape, and the flattened values addressable by 32-bit
/// witness indices.
pub open spec fn encoding_ok(abi: Abi, m: Seq<(Seq<char>, Value)>) -> bool {
    inputs_ok(abi.parameters@, m) && flatten_params(abi.parameters@, m).len() <= u32::MAX as nat
}

/// Whether the solving stage succeeds: the program holds an entry
/// circuit and the solver completes it from the pipeline's witness.
pub open spec fn solving_ok(program: Program, abi: Abi, m: Seq<(Seq<char>, Value)>) -> bool {
    has_entry_circuit(program) && acvm_solves(program, pipeline_witness(abi, m))
}

/// The execute half of the pipeline for one compiled function: encode the
/// caller's inputs against the ABI, bind them to the circuit's witness,
/// solve over the bn254 field, decode the return slots.  Stages run in
/// order and the first failure aborts the whole call with that stage's
/// error: an `EncodeError` exactly when the inputs do not fit the ABI, a
/// `SolveError` exactly when encoding succeeded but solving did not, and
/// then the completed witness is the solver's, so the decode stage's
/// outcome is owed by `decode_return_post`; on success the value has the
/// declared return shape.  The caller keeps the solver away from the
/// opcode shapes on which it aborts instead of reporting
/// (`acvm_accepts`).
pub fn run_compiled(program: &Program, abi: &Abi, inputs: &Vec<(String, InputValue)>) -> (r:
    Result<Option<InputValue>, Error>)
    requires
        encoding_ok(*abi, pair_models_of(inputs@)) ==> acvm_accepts(
            *program,
            pipeline_witness(*abi, pair_models_of(inputs@)),
        ),
    ensures
        (r matches Err(e) && e is EncodeError) <==> !encoding_ok(*abi, pair_models_of(inputs@)),
        (r matches Err(e) && e is SolveError) <==> (encoding_ok(*abi, pair_models_of(inputs@))
            && !solving_ok(*program, *abi, pair_models_of(inputs@))),
        r matches Err(e) ==> (e is SolveError ==> e.text() == acvm_reason(
            *program,
            pipeline_witness(*abi, pair_models_of(inputs@)),
        )),
        encoding_ok(*abi, pair_models_of(inputs@)) && solving_ok(
            *program,
            *abi,
            pair_models_of(inputs@),
        ) ==> decode_return_post(
            *abi,
            acvm_entries(*program, pipeline_witness(*abi, pair_models_of(inputs@))),
            r,
        ),
        r is Ok && abi.return_type is None ==> r->Ok_0 is None,
        r is Ok && abi.return_type is Some ==> (r->Ok_0 matches Some(v) && value_matches(
            value_model(v),
            abi.return_type->0,
        )),
        r matches Err(e) ==> e is EncodeError || e is SolveError || e is DecodeError,
{
    let scalars = match encode_inputs(abi, inputs) {
        Err(e) => {
            return Err(e);
        },
        Ok(s) => s,
    };
    if scalars.len() > u32::MAX as usize {
        return Err(Error::EncodeError("parameters exceed the witness index range".to_string()));
    }
    proof {
        assert(scalars@ == flatten_params(abi.parameters@, pair_models_of(inputs@)));
        assert(initial_entries(scalars@) == pipeline_witness(*abi, pair_models_of(inputs@)));
    }
    let w = match execute_circuit(program, &scalars) {
        Err(e) => {
            return Err(e);
        },
        Ok(w) => w,
    };
    let r = decode_return(abi, &w);
    proof {
        if r is Ok && abi.return_type is Some {
            let t = abi.return_type->0;
            lemma_decode_matches(
                t,
                return_slots(
                    witness_entries(w),
                    fields_width(abi.parameters@),
                    type_width(t),
                ),
            );
        }
    }
    r
}

} // verus!
