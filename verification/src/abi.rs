use vstd::prelude::*;

verus! {

/// One field element of the circuit's finite field, carried as 32
/// big-endian bytes.  Any 32 bytes stand for an element: when a value is
/// bound to a witness it is reduced into the field, and the contracts
/// state that reduction openly (`reduce_scalar`); what solving or
/// decoding hands back is always the canonical reduced form.
pub type Scalar = [u8; 32];

/// One named, typed slot of an ABI: a parameter of an exported function,
/// or one field of a record type.
#[derive(Debug)]
pub struct AbiField {
    pub name: String,
    pub typ: AbiType,
}

/// The declared shape of one circuit value.
#[derive(Debug)]
pub enum AbiType {
    /// A single field element.
    Field,
    /// A fixed-length homogeneous sequence.
    Array { length: u32, element: Box<AbiType> },
    /// A named-field record; the declared field order governs encoding.
    Struct { fields: Vec<AbiField> },
}

/// The typed contract of one compiled function: its parameters in declared
/// order, and its return shape if it returns a value.  Witness indices are
/// laid out with the flattened parameters first, the return slots directly
/// after them.
#[derive(Debug)]
pub struct Abi {
    pub parameters: Vec<AbiField>,
    pub return_type: Option<AbiType>,
}

/// A concrete value bound to a parameter, or decoded from a witness:
/// a scalar field element, an ordered sequence, or a named-field record.
#[derive(Debug)]
pub enum InputValue {
    Scalar(Scalar),
    Sequence(Vec<InputValue>),
    Record(Vec<(String, InputValue)>),
}

/// The mathematical shape of an [`InputValue`]: names are character
/// sequences, composites are sequences, so that two values are equal
/// exactly when they hold the same data.
pub enum Value {
    Scalar(Scalar),
    Sequence(Seq<Value>),
    Record(Seq<(Seq<char>, Value)>),
}

/// The model of an executable value.
pub open spec fn value_model(v: InputValue) -> Value
    decreases v,
{
    match v {
        InputValue::Scalar(s) => Value::Scalar(s),
        InputValue::Sequence(items) => Value::Sequence(models_of(items@)),
        InputValue::Record(pairs) => Value::Record(pair_models_of(pairs@)),
    }
}

/// The models of a sequence of executable values, in order.
pub open spec fn models_of(vs: Seq<InputValue>) -> Seq<Value>
    decreases vs,
{
    if vs.len() == 0 {
        Seq::empty()
    } else {
        seq![value_model(vs[0])] + models_of(vs.drop_first())
    }
}

/// The models of a sequence of named executable values, in order.
pub open spec fn pair_models_of(ps: Seq<(String, InputValue)>) -> Seq<(Seq<char>, Value)>
    decreases ps,
{
    if ps.len() == 0 {
        Seq::empty()
    } else {
        seq![(ps[0].0@, value_model(ps[0].1))] + pair_models_of(ps.drop_first())
    }
}

/// How many field elements a value of this type occupies in a witness.
pub open spec fn type_width(t: AbiType) -> nat
    decreases t,
{
    match t {
        AbiType::Field => 1nat,
        AbiType::Array { length, element } => (length as nat) * type_width(*element),
        AbiType::Struct { fields } => fields_width(fields@),
    }
}

/// The combined width of a list of named, typed slots.
pub open spec fn fields_width(fs: Seq<AbiField>) -> nat
    decreases fs,
{
    if fs.len() == 0 {
        0nat
    } else {
        type_width(fs[0].typ) + fields_width(fs.drop_first())
    }
}

/// Whether a value has exactly the shape a type declares: scalar against
/// scalar, sequences of the declared length, records with the declared
/// field names in the declared order.
pub open spec fn value_matches(m: Value, t: AbiType) -> bool
    decreases m,
{
    match m {
        Value::Scalar(_) => t is Field,
        Value::Sequence(items) => match t {
            AbiType::Array { length, element } => {
                items.len() == length && elems_match(items, *element)
            },
            _ => false,
        },
        Value::Record(pairs) => match t {
            AbiType::Struct { fields } => pairs_match(pairs, fields@),
            _ => false,
        },
    }
}

/// Whether every element of a sequence matches the element type.
pub open spec fn elems_match(ms: Seq<Value>, t: AbiType) -> bool
    decreases ms,
{
    if ms.len() == 0 {
        true
    } else {
        value_matches(ms[0], t) && elems_match(ms.drop_first(), t)
    }
}

/// Whether record fields carry the declared names, in the declared order,
/// with matching values.
pub open spec fn pairs_match(ps: Seq<(Seq<char>, Value)>, fs: Seq<AbiField>) -> bool
    decreases ps,
{
    if ps.len() != fs.len() {
        false
    } else if ps.len() == 0 {
        true
    } else {
        ps[0].0 == fs[0].name@ && value_matches(ps[0].1, fs[0].typ) && pairs_match(
            ps.drop_first(),
            fs.drop_first(),
        )
    }
}

/// The field elements of a value, in encoding order: a scalar is itself,
/// composites are the concatenation of their parts in declared order.
pub open spec fn flatten(m: Value) -> Seq<Scalar>
    decreases m,
{
    match m {
        Value::Scalar(s) => seq![s],
        Value::Sequence(items) => flatten_list(items),
        Value::Record(pairs) => flatten_pairs(pairs),
    }
}

/// The concatenated encodings of a sequence of values.
pub open spec fn flatten_list(ms: Seq<Value>) -> Seq<Scalar>
    decreases ms,
{
    if ms.len() == 0 {
        Seq::empty()
    } else {
        flatten(ms[0]) + flatten_list(ms.drop_first())
    }
}

/// The concatenated encodings of a record's field values.
pub open spec fn flatten_pairs(ps: Seq<(Seq<char>, Value)>) -> Seq<Scalar>
    decreases ps,
{
    if ps.len() == 0 {
        Seq::empty()
    } else {
        flatten(ps[0].1) + flatten_pairs(ps.drop_first())
    }
}

/// Taking models keeps a sequence's length.
pub proof fn lemma_models_of_len(vs: Seq<InputValue>)
    ensures
        models_of(vs).len() == vs.len(),
    decreases vs,
{
    if vs.len() != 0 {
        lemma_models_of_len(vs.drop_first());
    }
}

/// Taking models keeps a named sequence's length.
pub proof fn lemma_pair_models_of_len(ps: Seq<(String, InputValue)>)
    ensures
        pair_models_of(ps).len() == ps.len(),
    decreases ps,
{
    if ps.len() != 0 {
        lemma_pair_models_of_len(ps.drop_first());
    }
}

/// A value that matches a type flattens to exactly the type's width.
pub proof fn lemma_flatten_len(m: Value, t: AbiType)
    requires
        value_matches(m, t),
    ensures
        flatten(m).len() == type_width(t),
    decreases m,
{
    match m {
        Value::Scalar(_) => {},
        Value::Sequence(items) => {
            let element = t->Array_element;
            lemma_flatten_list_len(items, *element);
            assert(items.len() * type_width(*element) == (t->Array_length as nat) * type_width(
                *element,
            ));
        },
        Value::Record(pairs) => {
            lemma_flatten_pairs_len(pairs, t->Struct_fields@);
        },
    }
}

/// A sequence of matching values flattens to length times element width.
pub proof fn lemma_flatten_list_len(ms: Seq<Value>, t: AbiType)
    requires
        elems_match(ms, t),
    ensures
        flatten_list(ms).len() == ms.len() * type_width(t),
    decreases ms,
{
    if ms.len() == 0 {
    } else {
        lemma_flatten_len(ms[0], t);
        lemma_flatten_list_len(ms.drop_first(), t);
        assert(ms.len() * type_width(t) == type_width(t) + (ms.len() - 1) * type_width(t))
            by (nonlinear_arith);
    }
}

/// Matching record fields flatten to the combined declared width.
pub proof fn lemma_flatten_pairs_len(ps: Seq<(Seq<char>, Value)>, fs: Seq<AbiField>)
    requires
        pairs_match(ps, fs),
    ensures
        flatten_pairs(ps).len() == fields_width(fs),
    decreases ps,
{
    if ps.len() == 0 {
    } else {
        lemma_flatten_len(ps[0].1, fs[0].typ);
        lemma_flatten_pairs_len(ps.drop_first(), fs.drop_first());
    }
}

} // verus!
