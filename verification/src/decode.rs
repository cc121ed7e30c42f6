use vstd::prelude::*;

use crate::abi::{
    AbiField, AbiType, InputValue, Scalar, Value, elems_match, fields_width, flatten,
    flatten_list, flatten_pairs, lemma_flatten_len, pairs_match, type_width, value_matches,
    value_model, models_of, pair_models_of,
};

verus! {

/// The value read back from a witness segment against a declared type:
/// a scalar takes the first element, composites carve the segment up in
/// declared order, each part reading its own width.
pub open spec fn decode_spec(t: AbiType, s: Seq<Scalar>) -> Value
    decreases t, 0nat,
{
    match t {
        AbiType::Field => Value::Scalar(s[0]),
        AbiType::Array { length, element } => Value::Sequence(
            decode_list(length as nat, *element, s),
        ),
        AbiType::Struct { fields } => Value::Record(decode_pairs(fields@, s)),
    }
}

/// Reads `n` consecutive values of type `t` from the front of `s`.
pub open spec fn decode_list(n: nat, t: AbiType, s: Seq<Scalar>) -> Seq<Value>
    decreases t, n,
{
    if n == 0 {
        Seq::empty()
    } else {
        seq![decode_spec(t, s)] + decode_list((n - 1) as nat, t, s.skip(type_width(t) as int))
    }
}

/// Reads the declared record fields from the front of `s`, in order,
/// rebuilding each field under its declared name.
pub open spec fn decode_pairs(fs: Seq<AbiField>, s: Seq<Scalar>) -> Seq<(Seq<char>, Value)>
    decreases fs, 0nat,
{
    if fs.len() == 0 {
        Seq::empty()
    } else {
        seq![(fs[0].name@, decode_spec(fs[0].typ, s))] + decode_pairs(
            fs.drop_first(),
            s.skip(type_width(fs[0].typ) as int),
        )
    }
}

/// Decoding reads only the first `type_width` elements: appending more
/// data changes nothing.
pub proof fn lemma_decode_prefix(t: AbiType, s1: Seq<Scalar>, s2: Seq<Scalar>)
    requires
        type_width(t) <= s1.len(),
    ensures
        decode_spec(t, s1 + s2) == decode_spec(t, s1),
    decreases t, 0nat,
{
    match t {
        AbiType::Field => {
            assert((s1 + s2)[0] == s1[0]);
        },
        AbiType::Array { length, element } => {
            lemma_decode_list_prefix(length as nat, *element, s1, s2);
        },
        AbiType::Struct { fields } => {
            lemma_decode_pairs_prefix(fields@, s1, s2);
        },
    }
}

/// Prefix-stability of [`decode_list`].
pub proof fn lemma_decode_list_prefix(n: nat, t: AbiType, s1: Seq<Scalar>, s2: Seq<Scalar>)
    requires
        n * type_width(t) <= s1.len(),
    ensures
        decode_list(n, t, s1 + s2) == decode_list(n, t, s1),
    decreases t, n,
{
    if n > 0 {
        let w = type_width(t);
        assert(w <= n * w && (n - 1) * w == n * w - w) by (nonlinear_arith)
            requires n >= 1,
        ;
        lemma_decode_prefix(t, s1, s2);
        assert((s1 + s2).skip(w as int) =~= s1.skip(w as int) + s2);
        lemma_decode_list_prefix((n - 1) as nat, t, s1.skip(w as int), s2);
    }
}

/// Prefix-stability of [`decode_pairs`].
pub proof fn lemma_decode_pairs_prefix(fs: Seq<AbiField>, s1: Seq<Scalar>, s2: Seq<Scalar>)
    requires
        fields_width(fs) <= s1.len(),
    ensures
        decode_pairs(fs, s1 + s2) == decode_pairs(fs, s1),
    decreases fs, 0nat,
{
    if fs.len() > 0 {
        let w = type_width(fs[0].typ);
        lemma_decode_prefix(fs[0].typ, s1, s2);
        assert((s1 + s2).skip(w as int) =~= s1.skip(w as int) + s2);
        lemma_decode_pairs_prefix(fs.drop_first(), s1.skip(w as int), s2);
    }
}

/// Whatever the witness data, a decoded value has exactly the declared
/// shape: declared lengths, declared record names, declared order.
pub proof fn lemma_decode_matches(t: AbiType, s: Seq<Scalar>)
    ensures
        value_matches(decode_spec(t, s), t),
    decreases t, 0nat,
{
    match t {
        AbiType::Field => {},
        AbiType::Array { length, element } => {
            lemma_decode_list_matches(length as nat, *element, s);
            lemma_decode_list_len(length as nat, *element, s);
        },
        AbiType::Struct { fields } => {
            lemma_decode_pairs_matches(fields@, s);
        },
    }
}

/// A decoded list has exactly the requested length.
pub proof fn lemma_decode_list_len(n: nat, t: AbiType, s: Seq<Scalar>)
    ensures
        decode_list(n, t, s).len() == n,
    decreases t, n,
{
    if n > 0 {
        lemma_decode_list_len((n - 1) as nat, t, s.skip(type_width(t) as int));
    }
}

/// Every element of a decoded list matches the element type.
pub proof fn lemma_decode_list_matches(n: nat, t: AbiType, s: Seq<Scalar>)
    ensures
        elems_match(decode_list(n, t, s), t),
    decreases t, n,
{
    if n > 0 {
        let rest = decode_list((n - 1) as nat, t, s.skip(type_width(t) as int));
        lemma_decode_matches(t, s);
        lemma_decode_list_matches((n - 1) as nat, t, s.skip(type_width(t) as int));
        assert((seq![decode_spec(t, s)] + rest).drop_first() =~= rest);
        assert((seq![decode_spec(t, s)] + rest)[0] == decode_spec(t, s));
    }
}

/// Decoded record fields match the declared fields.
pub proof fn lemma_decode_pairs_matches(fs: Seq<AbiField>, s: Seq<Scalar>)
    ensures
        pairs_match(decode_pairs(fs, s), fs),
    decreases fs, 0nat,
{
    if fs.len() > 0 {
        let w = type_width(fs[0].typ);
        let head = (fs[0].name@, decode_spec(fs[0].typ, s));
        let rest = decode_pairs(fs.drop_first(), s.skip(w as int));
        lemma_decode_matches(fs[0].typ, s);
        lemma_decode_pairs_matches(fs.drop_first(), s.skip(w as int));
        lemma_decode_pairs_len(fs.drop_first(), s.skip(w as int));
        lemma_decode_pairs_len(fs, s);
        assert((seq![head] + rest).drop_first() =~= rest);
        assert((seq![head] + rest)[0] == head);
    }
}

/// A decoded record has one field per declared field.
pub proof fn lemma_decode_pairs_len(fs: Seq<AbiField>, s: Seq<Scalar>)
    ensures
        decode_pairs(fs, s).len() == fs.len(),
    decreases fs, 0nat,
{
    if fs.len() > 0 {
        lemma_decode_pairs_len(fs.drop_first(), s.skip(type_width(fs[0].typ) as int));
    }
}

/// Round trip: decoding the flattened encoding of a matching value yields
/// the value back, element order and arity preserved exactly as declared.
pub proof fn lemma_round_trip(m: Value, t: AbiType)
    requires
        value_matches(m, t),
    ensures
        decode_spec(t, flatten(m)) == m,
    decreases m, 0nat,
{
    match m {
        Value::Scalar(_) => {},
        Value::Sequence(items) => {
            lemma_round_trip_list(items, *t->Array_element);
        },
        Value::Record(pairs) => {
            lemma_round_trip_pairs(pairs, t->Struct_fields@);
        },
    }
}

/// Round trip for sequences of matching values.
pub proof fn lemma_round_trip_list(ms: Seq<Value>, t: AbiType)
    requires
        elems_match(ms, t),
    ensures
        decode_list(ms.len(), t, flatten_list(ms)) == ms,
    decreases ms, 0nat,
{
    if ms.len() > 0 {
        let w = type_width(t);
        let head = flatten(ms[0]);
        let rest = flatten_list(ms.drop_first());
        lemma_flatten_len(ms[0], t);
        lemma_decode_prefix(t, head, rest);
        lemma_round_trip(ms[0], t);
        assert((head + rest).skip(w as int) =~= rest);
        lemma_round_trip_list(ms.drop_first(), t);
        assert(seq![ms[0]] + ms.drop_first() =~= ms);
    }
}

/// Round trip for record fields that match their declaration.
pub proof fn lemma_round_trip_pairs(ps: Seq<(Seq<char>, Value)>, fs: Seq<AbiField>)
    requires
        pairs_match(ps, fs),
    ensures
        decode_pairs(fs, flatten_pairs(ps)) == ps,
    decreases ps, 0nat,
{
    if ps.len() > 0 {
        let w = type_width(fs[0].typ);
        let head = flatten(ps[0].1);
        let rest = flatten_pairs(ps.drop_first());
        lemma_flatten_len(ps[0].1, fs[0].typ);
        lemma_decode_prefix(fs[0].typ, head, rest);
        lemma_round_trip(ps[0].1, fs[0].typ);
        assert((head + rest).skip(w as int) =~= rest);
        lemma_round_trip_pairs(ps.drop_first(), fs.drop_first());
        assert(ps[0] == (ps[0].0, ps[0].1));
        assert(seq![ps[0]] + ps.drop_first() =~= ps);
    }
}

/// Computes a type's width in field elements, refusing shapes whose
/// width cannot be indexed by a 32-bit witness.
pub fn type_width_exec(t: &AbiType) -> (r: Option<u32>)
    ensures
        r is Some ==> r->0 as nat == type_width(*t),
        r is None ==> type_width(*t) > u32::MAX as nat,
    decreases *t, 0nat,
{
    match t {
        AbiType::Field => Some(1),
        AbiType::Array { length, element } => {
            if *length == 0 {
                proof {
                    assert((*length as nat) * type_width(**element) == 0) by (nonlinear_arith)
                        requires *length as nat == 0,
                    ;
                }
                Some(0)
            } else {
                match type_width_exec(element) {
                    None => {
                        proof {
                            assert((*length as nat) * type_width(**element) >= type_width(
                                **element,
                            )) by (nonlinear_arith)
                                requires *length as nat >= 1,
                            ;
                        }
                        None
                    },
                    Some(ew) => {
                        proof {
                            assert((*length as nat) * (ew as nat) <= (u32::MAX as nat) * (
                            u32::MAX as nat) && (u32::MAX as nat) * (u32::MAX as nat)
                                < u64::MAX as nat) by (nonlinear_arith)
                                requires
                                    *length <= u32::MAX,
                                    ew <= u32::MAX,
                            ;
                        }
                        let product: u64 = (*length as u64) * (ew as u64);
                        if product > u32::MAX as u64 {
                            None
                        } else {
                            Some(product as u32)
                        }
                    },
                }
            }
        },
        AbiType::Struct { fields } => {
            proof {
                assert(fields@.skip(0) =~= fields@);
            }
            fields_width_exec(fields, 0)
        },
    }
}

/// Computes the combined width of the declared fields from `j` on.
pub(crate) fn fields_width_exec(fs: &Vec<AbiField>, j: usize) -> (r: Option<u32>)
    requires
        j <= fs@.len(),
    ensures
        r is Some ==> r->0 as nat == fields_width(fs@.skip(j as int)),
        r is None ==> fields_width(fs@.skip(j as int)) > u32::MAX as nat,
    decreases *fs, fs@.len() - j,
{
    if j == fs.len() {
        proof {
            assert(fs@.skip(j as int) =~= Seq::<AbiField>::empty());
        }
        Some(0)
    } else {
        proof {
            assert(fs@.skip(j as int).drop_first() =~= fs@.skip(j as int + 1));
            assert(fs@.skip(j as int)[0] == fs@[j as int]);
        }
        match type_width_exec(&fs[j].typ) {
            None => None,
            Some(w) => match fields_width_exec(fs, j + 1) {
                None => None,
                Some(rw) => {
                    let sum: u64 = (w as u64) + (rw as u64);
                    if sum > u32::MAX as u64 {
                        None
                    } else {
                        Some(sum as u32)
                    }
                },
            },
        }
    }
}

/// Reads one value of type `t` out of `s`, starting at `pos`; hands back
/// the value and the position just past it.
fn decode_at(t: &AbiType, s: &Vec<Scalar>, pos: usize) -> (r: (InputValue, usize))
    requires
        pos + type_width(*t) <= s@.len(),
    ensures
        r.1 == pos + type_width(*t),
        value_model(r.0) == decode_spec(*t, s@.skip(pos as int)),
    decreases *t, 0nat,
{
    match t {
        AbiType::Field => {
            proof {
                assert(type_width(*t) == 1);
                assert(s.len() == s@.len());
                assert(s@.skip(pos as int)[0] == s@[pos as int]);
            }
            (InputValue::Scalar(s[pos]), pos + 1)
        },
        AbiType::Array { length, element } => {
            let (items, end) = decode_elems(*length, element, s, pos);
            (InputValue::Sequence(items), end)
        },
        AbiType::Struct { fields } => {
            proof {
                assert(fields@.skip(0) =~= fields@);
            }
            let (pairs, end) = decode_fields(fields, 0, s, pos);
            (InputValue::Record(pairs), end)
        },
    }
}

/// Reads `n` consecutive values of type `t` out of `s`, starting at `pos`.
fn decode_elems(n: u32, t: &AbiType, s: &Vec<Scalar>, pos: usize) -> (r: (Vec<InputValue>, usize))
    requires
        pos + (n as nat) * type_width(*t) <= s@.len(),
    ensures
        r.1 == pos + (n as nat) * type_width(*t),
        models_of(r.0@) == decode_list(n as nat, *t, s@.skip(pos as int)),
    decreases *t, n,
{
    if n == 0 {
        proof {
            assert((0nat) * type_width(*t) == 0) by (nonlinear_arith);
            assert(models_of(Seq::<InputValue>::empty()) =~= Seq::<Value>::empty());
        }
        (Vec::new(), pos)
    } else {
        proof {
            let w = type_width(*t);
            assert(w <= (n as nat) * w && ((n - 1) as nat) * w == (n as nat) * w - w)
                by (nonlinear_arith)
                requires n >= 1,
            ;
        }
        let (v, p1) = decode_at(t, s, pos);
        let (mut rest, p2) = decode_elems(n - 1, t, s, p1);
        let ghost rest_view = rest@;
        rest.insert(0, v);
        proof {
            let w = type_width(*t) as int;
            assert(s@.skip(pos as int).skip(w) =~= s@.skip(pos + w));
            assert(rest@ =~= seq![v] + rest_view);
            assert(rest@.drop_first() =~= rest_view);
            assert(models_of(rest@) =~= seq![value_model(v)] + models_of(rest_view));
        }
        (rest, p2)
    }
}

/// Reads the declared record fields out of `s`, starting at `pos`, giving
/// each decoded value its declared name.
fn decode_fields(fs: &Vec<AbiField>, j: usize, s: &Vec<Scalar>, pos: usize) -> (r: (
    Vec<(String, InputValue)>,
    usize,
))
    requires
        j <= fs@.len(),
        pos + fields_width(fs@.skip(j as int)) <= s@.len(),
    ensures
        r.1 == pos + fields_width(fs@.skip(j as int)),
        pair_models_of(r.0@) == decode_pairs(fs@.skip(j as int), s@.skip(pos as int)),
    decreases *fs, fs@.len() - j,
{
    if j == fs.len() {
        proof {
            assert(fs@.skip(j as int) =~= Seq::<AbiField>::empty());
            assert(pair_models_of(Seq::<(String, InputValue)>::empty()) =~= Seq::<
                (Seq<char>, Value),
            >::empty());
        }
        (Vec::new(), pos)
    } else {
        proof {
            assert(fs@.skip(j as int).drop_first() =~= fs@.skip(j as int + 1));
            assert(fs@.skip(j as int)[0] == fs@[j as int]);
        }
        let (v, p1) = decode_at(&fs[j].typ, s, pos);
        let (mut rest, p2) = decode_fields(fs, j + 1, s, p1);
        let ghost rest_view = rest@;
        let name = fs[j].name.clone();
        rest.insert(0, (name, v));
        proof {
            let w = type_width(fs@[j as int].typ) as int;
            assert(s@.skip(pos as int).skip(w) =~= s@.skip(pos + w));
            assert(rest@ =~= seq![(fs@[j as int].name, v)] + rest_view);
            assert(rest@.drop_first() =~= rest_view);
            assert(pair_models_of(rest@) =~= seq![
                (fs@[j as int].name@, value_model(v)),
            ] + pair_models_of(rest_view));
        }
        (rest, p2)
    }
}

/// Decodes a whole witness segment against a declared type.
pub fn decode_value(t: &AbiType, s: &Vec<Scalar>) -> (r: InputValue)
    requires
        type_width(*t) <= s@.len(),
    ensures
        value_model(r) == decode_spec(*t, s@),
{
    proof {
        assert(s@.skip(0) =~= s@);
    }
    let (v, _end) = decode_at(t, s, 0);
    v
}

} // verus!
