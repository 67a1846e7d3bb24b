use vstd::prelude::*;

verus! {

/// Mathematical model of a [`Type`] value: the same tree, with `Vec` replaced
/// by `Seq` and `String` by `Seq<char>`. Contracts about typed values are
/// stated over this model, so that they survive cloning and channel transfer.
#[verifier::ext_equal]
pub enum TypeModel {
    U8(u8),
    U16(u16),
    U32(u32),
    U64(u64),
    U128(u128),
    Bool(bool),
    Vector(Box<TypeModel>, Seq<TypeModel>),
    Struct(Seq<TypeModel>),
    Reference(bool, Box<TypeModel>),
    Function(Seq<char>, Seq<TypeModel>, Option<Box<TypeModel>>),
}

/// A typed argument value crossing the worker/VM boundary: unsigned integers
/// of the five supported widths, booleans, homogeneous vectors carrying their
/// element-type witness, anonymous structs, references, and function
/// descriptors (name, parameter schema, optional return type).
#[derive(Debug, PartialEq, Eq)]
pub enum Type {
    U8(u8),
    U16(u16),
    U32(u32),
    U64(u64),
    U128(u128),
    Bool(bool),
    Vector(Box<Type>, Vec<Type>),
    Struct(Vec<Type>),
    Reference(bool, Box<Type>),
    Function(String, Vec<Type>, Option<Box<Type>>),
}

/// The model of a single typed value.
pub open spec fn type_model(t: Type) -> TypeModel
    decreases t,
{
    match t {
        Type::U8(v) => TypeModel::U8(v),
        Type::U16(v) => TypeModel::U16(v),
        Type::U32(v) => TypeModel::U32(v),
        Type::U64(v) => TypeModel::U64(v),
        Type::U128(v) => TypeModel::U128(v),
        Type::Bool(v) => TypeModel::Bool(v),
        Type::Vector(elem, items) => TypeModel::Vector(
            Box::new(type_model(*elem)),
            seq_model(items@),
        ),
        Type::Struct(fields) => TypeModel::Struct(seq_model(fields@)),
        Type::Reference(mutable, referent) => TypeModel::Reference(
            mutable,
            Box::new(type_model(*referent)),
        ),
        Type::Function(name, params, ret) => TypeModel::Function(
            name@,
            seq_model(params@),
            match ret {
                Some(r) => Some(Box::new(type_model(*r))),
                None => None,
            },
        ),
    }
}

/// The model of a sequence of typed values, element by element.
pub open spec fn seq_model(s: Seq<Type>) -> Seq<TypeModel>
    decreases s,
{
    if s.len() == 0 {
        Seq::empty()
    } else {
        seq![type_model(s[0])] + seq_model(s.drop_first())
    }
}

pub broadcast proof fn lemma_seq_model_len(s: Seq<Type>)
    ensures
        (#[trigger] seq_model(s)).len() == s.len(),
    decreases s.len(),
{
    if s.len() > 0 {
        lemma_seq_model_len(s.drop_first());
    }
}

pub broadcast proof fn lemma_seq_model_index(s: Seq<Type>, i: int)
    requires
        0 <= i < s.len(),
    ensures
        #[trigger] seq_model(s)[i] == type_model(s[i]),
    decreases s.len(),
{
    lemma_seq_model_len(s);
    if i > 0 {
        lemma_seq_model_index(s.drop_first(), i - 1);
    }
}

impl View for Type {
    type V = TypeModel;

    open spec fn view(&self) -> TypeModel {
        type_model(*self)
    }
}

impl Clone for Type {
    /// A clone has the same model as the original.
    fn clone(&self) -> (r: Type)
        ensures
            r@ == self@,
    {
        clone_type(self)
    }
}

fn clone_type(t: &Type) -> (r: Type)
    ensures
        type_model(r) == type_model(*t),
    decreases t,
{
    match t {
        Type::U8(v) => Type::U8(*v),
        Type::U16(v) => Type::U16(*v),
        Type::U32(v) => Type::U32(*v),
        Type::U64(v) => Type::U64(*v),
        Type::U128(v) => Type::U128(*v),
        Type::Bool(v) => Type::Bool(*v),
        Type::Vector(elem, items) => Type::Vector(
            Box::new(clone_type(elem)),
            clone_types(items),
        ),
        Type::Struct(fields) => Type::Struct(clone_types(fields)),
        Type::Reference(mutable, referent) => Type::Reference(
            *mutable,
            Box::new(clone_type(referent)),
        ),
        Type::Function(name, params, ret) => Type::Function(
            name.clone(),
            clone_types(params),
            match ret {
                Some(r) => Some(Box::new(clone_type(r))),
                None => None,
            },
        ),
    }
}

/// Clones every element of a typed-value vector, preserving the model.
pub fn clone_types(v: &Vec<Type>) -> (r: Vec<Type>)
    ensures
        seq_model(r@) == seq_model(v@),
        r@.len() == v@.len(),
    decreases v,
{
    broadcast use lemma_seq_model_len, lemma_seq_model_index;

    let mut r: Vec<Type> = Vec::new();
    let mut i: usize = 0;
    while i < v.len()
        invariant
            i <= v@.len(),
            r@.len() == i,
            forall|j: int| 0 <= j < i ==> type_model(r@[j]) == type_model(v@[j]),
        decreases v@.len() - i,
    {
        r.push(clone_type(&v[i]));
        i += 1;
    }
    proof {
        assert(seq_model(r@) =~= seq_model(v@));
    }
    r
}

/// A value models as a byte exactly when it is a byte.
pub proof fn lemma_model_variant_u8(t: Type)
    ensures
        (type_model(t) matches TypeModel::U8(_)) == (t matches Type::U8(_)),
{
    match t {
        Type::U8(_) => {},
        Type::U16(_) => {},
        Type::U32(_) => {},
        Type::U64(_) => {},
        Type::U128(_) => {},
        Type::Bool(_) => {},
        Type::Vector(_, _) => {},
        Type::Struct(_) => {},
        Type::Reference(_, _) => {},
        Type::Function(_, _, _) => {},
    }
}

/// A value models as a function descriptor exactly when it is one.
pub proof fn lemma_model_variant_function(t: Type)
    ensures
        (type_model(t) matches TypeModel::Function(_, _, _)) == (t matches Type::Function(
            _,
            _,
            _,
        )),
{
    match t {
        Type::U8(_) => {},
        Type::U16(_) => {},
        Type::U32(_) => {},
        Type::U64(_) => {},
        Type::U128(_) => {},
        Type::Bool(_) => {},
        Type::Vector(_, _) => {},
        Type::Struct(_) => {},
        Type::Reference(_, _) => {},
        Type::Function(_, _, _) => {},
    }
}

impl Type {
    /// The name of a function descriptor, if this value is one.
    pub fn function_name(&self) -> (r: Option<&String>)
        ensures
            (r matches Some(_)) == (*self matches Type::Function(_, _, _)),
            (r matches Some(name) ==> (self@ matches TypeModel::Function(n, _, _) && n
                == name@)),
    {
        match self {
            Type::Function(name, _, _) => Some(name),
            _ => {
                proof {
                    lemma_model_variant_function(*self);
                }
                None
            },
        }
    }

    /// The parameter schema of a function descriptor, if this value is
    /// one.
    pub fn function_params(&self) -> (r: Option<&Vec<Type>>)
        ensures
            (r matches Some(_)) == (*self matches Type::Function(_, _, _)),
            (r matches Some(params) ==> (self@ matches TypeModel::Function(_, ps, _) && ps
                == seq_model(params@))),
    {
        match self {
            Type::Function(_, params, _) => Some(params),
            _ => {
                proof {
                    lemma_model_variant_function(*self);
                }
                None
            },
        }
    }
}

/// An ordered vector of typed parameter values, as handed to one execution.
pub struct Parameters(pub Vec<Type>);

} // verus!
