use vstd::prelude::*;

use crate::abi::{
    Abi, AbiField, AbiType, InputValue, Scalar, Value, elems_match, flatten, flatten_list,
    flatten_pairs, lemma_models_of_len, lemma_pair_models_of_len, models_of, pair_models_of,
    pairs_match, value_matches, value_model,
};
use crate::errors::Error;

verus! {

/// The value bound to a name in an input mapping: the first entry whose
/// name matches, if any.  Entry order beyond the first match is
/// irrelevant; encoding order is dictated by the ABI alone.
pub open spec fn lookup(m: Seq<(Seq<char>, Value)>, name: Seq<char>) -> Option<Value>
    decreases m,
{
    if m.len() == 0 {
        None
    } else if m[0].0 == name {
        Some(m[0].1)
    } else {
        lookup(m.drop_first(), name)
    }
}

/// Whether an input mapping supplies every listed parameter with a value
/// of the parameter's declared shape.
pub open spec fn inputs_ok(params: Seq<AbiField>, m: Seq<(Seq<char>, Value)>) -> bool
    decreases params,
{
    if params.len() == 0 {
        true
    } else {
        (lookup(m, params[0].name@) matches Some(v) && value_matches(v, params[0].typ))
            && inputs_ok(params.drop_first(), m)
    }
}

/// The initial witness an ABI dictates: the flattened values of its
/// parameters, concatenated in declared order.
pub open spec fn flatten_params(params: Seq<AbiField>, m: Seq<(Seq<char>, Value)>) -> Seq<Scalar>
    decreases params,
{
    if params.len() == 0 {
        Seq::empty()
    } else {
        (match lookup(m, params[0].name@) {
            Some(v) => flatten(v),
            None => Seq::empty(),
        }) + flatten_params(params.drop_first(), m)
    }
}

/// Appends the encoding of `v` to `out` when `v` has shape `t`; reports a
/// mismatch otherwise, leaving `out` partially extended.
fn encode_value(v: &InputValue, t: &AbiType, out: &mut Vec<Scalar>) -> (ok: bool)
    ensures
        ok == value_matches(value_model(*v), *t),
        ok ==> final(out)@ == old(out)@ + flatten(value_model(*v)),
    decreases *v, 0nat,
{
    match v {
        InputValue::Scalar(s) => match t {
            AbiType::Field => {
                out.push(*s);
                proof {
                    assert(out@ =~= old(out)@ + flatten(value_model(*v)));
                }
                true
            },
            _ => false,
        },
        InputValue::Sequence(items) => match t {
            AbiType::Array { length, element } => {
                proof {
                    lemma_models_of_len(items@);
                }
                if items.len() != *length as usize {
                    false
                } else {
                    let ok = encode_list(items, 0, element, out);
                    proof {
                        assert(items@.skip(0) =~= items@);
                    }
                    ok
                }
            },
            _ => false,
        },
        InputValue::Record(pairs) => match t {
            AbiType::Struct { fields } => {
                proof {
                    lemma_pair_models_of_len(pairs@);
                }
                if pairs.len() != fields.len() {
                    false
                } else {
                    let ok = encode_pairs(pairs, 0, fields, out);
                    proof {
                        assert(pairs@.skip(0) =~= pairs@);
                        assert(fields@.skip(0) =~= fields@);
                    }
                    ok
                }
            },
            _ => false,
        },
    }
}

/// Encodes the elements of `items` from position `i` on against the
/// element type `t`.
fn encode_list(items: &Vec<InputValue>, i: usize, t: &AbiType, out: &mut Vec<Scalar>) -> (ok: bool)
    requires
        i <= items@.len(),
    ensures
        ok == elems_match(models_of(items@.skip(i as int)), *t),
        ok ==> final(out)@ == old(out)@ + flatten_list(models_of(items@.skip(i as int))),
    decreases *items, items@.len() - i,
{
    if i == items.len() {
        proof {
            assert(items@.skip(i as int) =~= Seq::<InputValue>::empty());
            assert(models_of(items@.skip(i as int)) =~= Seq::<Value>::empty());
            assert(out@ =~= out@ + flatten_list(models_of(items@.skip(i as int))));
        }
        true
    } else {
        proof {
            assert(items@.skip(i as int).drop_first() =~= items@.skip(i as int + 1));
            assert(items@.skip(i as int)[0] == items@[i as int]);
            lemma_models_of_len(items@.skip(i as int));
            assert(models_of(items@.skip(i as int)) =~= seq![value_model(items@[i as int])]
                + models_of(items@.skip(i as int + 1)));
            assert(models_of(items@.skip(i as int)).drop_first() =~= models_of(
                items@.skip(i as int + 1),
            ));
            assert(models_of(items@.skip(i as int))[0] == value_model(items@[i as int]));
        }
        let ghost pre = out@;
        let ok1 = encode_value(&items[i], t, out);
        if !ok1 {
            false
        } else {
            let ok2 = encode_list(items, i + 1, t, out);
            proof {
                if ok2 {
                    assert(pre + flatten(value_model(items@[i as int])) + flatten_list(
                        models_of(items@.skip(i as int + 1)),
                    ) =~= pre + (flatten(value_model(items@[i as int])) + flatten_list(
                        models_of(items@.skip(i as int + 1)),
                    )));
                }
            }
            ok2
        }
    }
}

/// Encodes the record fields of `pairs` from position `i` on against the
/// declared fields `fs`: names must agree in declared order.
fn encode_pairs(
    pairs: &Vec<(String, InputValue)>,
    i: usize,
    fs: &Vec<AbiField>,
    out: &mut Vec<Scalar>,
) -> (ok: bool)
    requires
        i <= pairs@.len(),
        pairs@.len() == fs@.len(),
    ensures
        ok == pairs_match(pair_models_of(pairs@.skip(i as int)), fs@.skip(i as int)),
        ok ==> final(out)@ == old(out)@ + flatten_pairs(pair_models_of(pairs@.skip(i as int))),
    decreases *pairs, pairs@.len() - i,
{
    if i == pairs.len() {
        proof {
            assert(pairs@.skip(i as int) =~= Seq::<(String, InputValue)>::empty());
            assert(pair_models_of(pairs@.skip(i as int)) =~= Seq::<(Seq<char>, Value)>::empty());
            assert(fs@.skip(i as int) =~= Seq::<AbiField>::empty());
            assert(out@ =~= out@ + flatten_pairs(pair_models_of(pairs@.skip(i as int))));
        }
        true
    } else {
        proof {
            assert(pairs@.skip(i as int).drop_first() =~= pairs@.skip(i as int + 1));
            assert(fs@.skip(i as int).drop_first() =~= fs@.skip(i as int + 1));
            assert(pairs@.skip(i as int)[0] == pairs@[i as int]);
            assert(fs@.skip(i as int)[0] == fs@[i as int]);
            lemma_pair_models_of_len(pairs@.skip(i as int));
            lemma_pair_models_of_len(pairs@.skip(i as int + 1));
            assert(pair_models_of(pairs@.skip(i as int)) =~= seq![
                (pairs@[i as int].0@, value_model(pairs@[i as int].1)),
            ] + pair_models_of(pairs@.skip(i as int + 1)));
            assert(pair_models_of(pairs@.skip(i as int)).drop_first() =~= pair_models_of(
                pairs@.skip(i as int + 1),
            ));
            assert(pair_models_of(pairs@.skip(i as int))[0] == (
                pairs@[i as int].0@,
                value_model(pairs@[i as int].1),
            ));
        }
        if !(pairs[i].0 == fs[i].name) {
            false
        } else {
            let ghost pre = out@;
            let ok1 = encode_value(&pairs[i].1, &fs[i].typ, out);
            if !ok1 {
                false
            } else {
                let ok2 = encode_pairs(pairs, i + 1, fs, out);
                proof {
                    if ok2 {
                        assert(pre + flatten(value_model(pairs@[i as int].1)) + flatten_pairs(
                            pair_models_of(pairs@.skip(i as int + 1)),
                        ) =~= pre + (flatten(value_model(pairs@[i as int].1)) + flatten_pairs(
                            pair_models_of(pairs@.skip(i as int + 1)),
                        )));
                    }
                }
                ok2
            }
        }
    }
}

/// Finds the value bound to `name`, scanning the mapping from entry `k`.
fn lookup_value<'a>(inputs: &'a Vec<(String, InputValue)>, k: usize, name: &String) -> (r: Option<
    &'a InputValue,
>)
    requires
        k <= inputs@.len(),
    ensures
        match r {
            Some(v) => lookup(pair_models_of(inputs@.skip(k as int)), name@) == Some(
                value_model(*v),
            ),
            None => lookup(pair_models_of(inputs@.skip(k as int)), name@) is None,
        },
    decreases inputs@.len() - k,
{
    if k == inputs.len() {
        proof {
            assert(inputs@.skip(k as int) =~= Seq::<(String, InputValue)>::empty());
            assert(pair_models_of(inputs@.skip(k as int)) =~= Seq::<(Seq<char>, Value)>::empty());
        }
        None
    } else {
        proof {
            assert(inputs@.skip(k as int).drop_first() =~= inputs@.skip(k as int + 1));
            assert(inputs@.skip(k as int)[0] == inputs@[k as int]);
            assert(pair_models_of(inputs@.skip(k as int)) =~= seq![
                (inputs@[k as int].0@, value_model(inputs@[k as int].1)),
            ] + pair_models_of(inputs@.skip(k as int + 1)));
            assert(pair_models_of(inputs@.skip(k as int)).drop_first() =~= pair_models_of(
                inputs@.skip(k as int + 1),
            ));
            assert(pair_models_of(inputs@.skip(k as int))[0] == (
                inputs@[k as int].0@,
                value_model(inputs@[k as int].1),
            ));
        }
        if inputs[k].0 == *name {
            Some(&inputs[k].1)
        } else {
            lookup_value(inputs, k + 1, name)
        }
    }
}

/// Encodes the parameters of `params` from position `j` on, reading each
/// parameter's value out of the input mapping.
fn encode_params(
    params: &Vec<AbiField>,
    j: usize,
    inputs: &Vec<(String, InputValue)>,
    out: &mut Vec<Scalar>,
) -> (r: Result<(), Error>)
    requires
        j <= params@.len(),
    ensures
        r is Ok <==> inputs_ok(params@.skip(j as int), pair_models_of(inputs@)),
        r is Ok ==> final(out)@ == old(out)@ + flatten_params(
            params@.skip(j as int),
            pair_models_of(inputs@),
        ),
        r is Err ==> r->Err_0 is EncodeError,
    decreases params@.len() - j,
{
    if j == params.len() {
        proof {
            assert(params@.skip(j as int) =~= Seq::<AbiField>::empty());
            assert(out@ =~= out@ + flatten_params(
                params@.skip(j as int),
                pair_models_of(inputs@),
            ));
        }
        Ok(())
    } else {
        proof {
            assert(params@.skip(j as int).drop_first() =~= params@.skip(j as int + 1));
            assert(params@.skip(j as int)[0] == params@[j as int]);
            assert(inputs@.skip(0) =~= inputs@);
        }
        match lookup_value(inputs, 0, &params[j].name) {
            None => Err(Error::EncodeError(params[j].name.clone())),
            Some(v) => {
                let ghost pre = out@;
                let ok = encode_value(v, &params[j].typ, out);
                if !ok {
                    Err(Error::EncodeError(params[j].name.clone()))
                } else {
                    let r2 = encode_params(params, j + 1, inputs, out);
                    proof {
                        if r2 is Ok {
                            assert(pre + flatten(value_model(*v)) + flatten_params(
                                params@.skip(j as int + 1),
                                pair_models_of(inputs@),
                            ) =~= pre + (flatten(value_model(*v)) + flatten_params(
                                params@.skip(j as int + 1),
                                pair_models_of(inputs@),
                            )));
                        }
                    }
                    r2
                }
            },
        }
    }
}

/// Encodes a caller-supplied input mapping into the initial witness the
/// ABI dictates.  Every ABI parameter must appear in the mapping with a
/// value of its declared shape; the flattened values are laid out in the
/// ABI's declared order, the mapping's own entry order being irrelevant.
/// A missing or mismatched parameter yields an `EncodeError` carrying that
/// parameter's name, never a default-substituted value.
pub fn encode_inputs(abi: &Abi, inputs: &Vec<(String, InputValue)>) -> (r: Result<
    Vec<Scalar>,
    Error,
>)
    ensures
        r is Ok <==> inputs_ok(abi.parameters@, pair_models_of(inputs@)),
        r is Ok ==> r->Ok_0@ == flatten_params(abi.parameters@, pair_models_of(inputs@)),
        r is Err ==> r->Err_0 is EncodeError,
{
    let mut out: Vec<Scalar> = Vec::new();
    proof {
        assert(abi.parameters@.skip(0) =~= abi.parameters@);
    }
    match encode_params(&abi.parameters, 0, inputs, &mut out) {
        Ok(()) => {
            proof {
                assert(Seq::<Scalar>::empty() + flatten_params(
                    abi.parameters@,
                    pair_models_of(inputs@),
                ) =~= flatten_params(abi.parameters@, pair_models_of(inputs@)));
            }
            Ok(out)
        },
        Err(e) => Err(e),
    }
}

} // verus!
