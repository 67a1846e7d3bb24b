use vstd::prelude::*;

use crate::rng::spec_draw;
use crate::rng::spec_next_seed;
use crate::rng::Rng;
use crate::types::seq_model;
use crate::types::Type;
use crate::types::TypeModel;

verus! {

/// Whether the mutator accepts a value: integers and booleans of the
/// supported widths, byte vectors, structs of acceptable fields, and
/// references (which are left unchanged). Function descriptors are not
/// arguments and are not mutated.
pub open spec fn mutable_value(a: TypeModel) -> bool
    decreases a,
{
    match a {
        TypeModel::U8(_) => true,
        TypeModel::U16(_) => true,
        TypeModel::U32(_) => true,
        TypeModel::U64(_) => true,
        TypeModel::U128(_) => true,
        TypeModel::Bool(_) => true,
        TypeModel::Vector(elem, items) => (*elem matches TypeModel::U8(_)) && (forall|i: int|
            0 <= i < items.len() ==> (#[trigger] items[i]) matches TypeModel::U8(_)),
        TypeModel::Struct(fields) => mutable_seq(fields),
        TypeModel::Reference(_, _) => true,
        TypeModel::Function(_, _, _) => false,
    }
}

/// Whether the mutator accepts every value of a sequence.
pub open spec fn mutable_seq(s: Seq<TypeModel>) -> bool
    decreases s,
{
    s.len() == 0 || (mutable_value(s[0]) && mutable_seq(s.drop_first()))
}

/// Every value of a mutable sequence is mutable.
pub proof fn lemma_mutable_seq_index(s: Seq<TypeModel>, i: int)
    requires
        mutable_seq(s),
        0 <= i < s.len(),
    ensures
        mutable_value(s[i]),
    decreases i,
{
    if i > 0 {
        assert(s.drop_first()[i - 1] == s[i]);
        lemma_mutable_seq_index(s.drop_first(), i - 1);
    }
}

/// A sequence of mutable values is a mutable sequence.
pub proof fn lemma_mutable_seq_intro(s: Seq<TypeModel>)
    requires
        forall|i: int| 0 <= i < s.len() ==> mutable_value(#[trigger] s[i]),
    ensures
        mutable_seq(s),
    decreases s.len(),
{
    if s.len() > 0 {
        assert(forall|i: int|
            0 <= i < s.drop_first().len() ==> #[trigger] s.drop_first()[i] == s[i + 1]);
        lemma_mutable_seq_intro(s.drop_first());
    }
}

/// How a mutated value may relate to its original: the same variant, with
/// integers re-decoded at their native width, byte vectors rebuilt from the
/// mutated byte buffer, structs mutated field by field, and references
/// returned unchanged.
pub open spec fn mutated_of(a: TypeModel, b: TypeModel) -> bool
    decreases a,
{
    match a {
        TypeModel::U8(_) => b matches TypeModel::U8(_),
        TypeModel::U16(_) => b matches TypeModel::U16(_),
        TypeModel::U32(_) => b matches TypeModel::U32(_),
        TypeModel::U64(_) => b matches TypeModel::U64(_),
        TypeModel::U128(_) => b matches TypeModel::U128(_),
        TypeModel::Bool(_) => b matches TypeModel::Bool(_),
        TypeModel::Vector(_, _) => match b {
            TypeModel::Vector(elem2, items2) => (*elem2 == TypeModel::U8(0u8)) && (forall|i: int|
                0 <= i < items2.len() ==> (#[trigger] items2[i]) matches TypeModel::U8(_)),
            _ => false,
        },
        TypeModel::Struct(fields) => match b {
            TypeModel::Struct(fields2) => mutated_seq(fields, fields2),
            _ => false,
        },
        TypeModel::Reference(_, _) => b == a,
        TypeModel::Function(_, _, _) => false,
    }
}

/// How a mutated sequence relates to its original, value by value.
pub open spec fn mutated_seq(a: Seq<TypeModel>, b: Seq<TypeModel>) -> bool
    decreases a,
{
    a.len() == b.len() && (a.len() == 0 || (mutated_of(a[0], b[0]) && mutated_seq(
        a.drop_first(),
        b.drop_first(),
    )))
}

/// Each value of a mutated sequence relates to its original.
pub proof fn lemma_mutated_seq_index(a: Seq<TypeModel>, b: Seq<TypeModel>, i: int)
    requires
        mutated_seq(a, b),
        0 <= i < a.len(),
    ensures
        mutated_of(a[i], b[i]),
    decreases i,
{
    if i > 0 {
        assert(a.drop_first()[i - 1] == a[i]);
        assert(b.drop_first()[i - 1] == b[i]);
        lemma_mutated_seq_index(a.drop_first(), b.drop_first(), i - 1);
    }
}

/// Pointwise mutated values form a mutated sequence.
pub proof fn lemma_mutated_seq_intro(a: Seq<TypeModel>, b: Seq<TypeModel>)
    requires
        a.len() == b.len(),
        forall|i: int| 0 <= i < a.len() ==> mutated_of(#[trigger] a[i], b[i]),
    ensures
        mutated_seq(a, b),
    decreases a.len(),
{
    if a.len() > 0 {
        assert(forall|i: int|
            0 <= i < a.drop_first().len() ==> #[trigger] a.drop_first()[i] == a[i + 1]);
        assert(forall|i: int|
            0 <= i < b.drop_first().len() ==> #[trigger] b.drop_first()[i] == b[i + 1]);
        lemma_mutated_seq_intro(a.drop_first(), b.drop_first());
    }
}

/// Mutates a typed input vector by up to `nb_mutation` byte-level
/// operations per element, and draws numbers for the call-sequence
/// generator.
pub trait Mutator: Sized {
    /// What `mutate` does, as a function of the mutator's state: the
    /// successor mutator and the mutated models. Identical states and
    /// inputs give identical results, as the mutator contract requires.
    spec fn mutate_spec(&self, inputs: Seq<TypeModel>, nb: int) -> (Self, Seq<TypeModel>);

    /// Produces a mutated copy of the inputs: every element keeps its
    /// declared variant and width, and the whole outcome is the one
    /// `mutate_spec` fixes for the mutator's state.
    fn mutate(&mut self, inputs: &Vec<Type>, nb_mutation: usize) -> (r: Vec<Type>)
        requires
            mutable_seq(seq_model(inputs@)),
        ensures
            r@.len() == inputs@.len(),
            mutated_seq(seq_model(inputs@), seq_model(r@)),
            *final(self) == old(self).mutate_spec(seq_model(inputs@), nb_mutation as int).0,
            seq_model(r@) == old(self).mutate_spec(seq_model(inputs@), nb_mutation as int).1,
    ;

    /// The value `generate_number` draws: a function of the mutator's
    /// state and the bounds alone, so identical calls return identical
    /// values.
    spec fn draw_spec(&self, min: u64, max: u64) -> int;

    /// Draws an integer in `min ..= max` inclusive.
    fn generate_number(&self, min: u64, max: u64) -> (r: u64)
        requires
            min <= max,
            max - min < u64::MAX,
        ensures
            min <= r <= max,
            r as int == self.draw_spec(min, max),
    ;
}

/// Decides whether the mutator accepts a single value.
#[verifier::loop_isolation(false)]
fn is_mutable_value(t: &Type) -> (r: bool)
    ensures
        r == mutable_value(t@),
    decreases t,
{
    match t {
        Type::U8(_) => true,
        Type::U16(_) => true,
        Type::U32(_) => true,
        Type::U64(_) => true,
        Type::U128(_) => true,
        Type::Bool(_) => true,
        Type::Vector(elem, items) => {
            proof {
                crate::types::lemma_model_variant_u8(**elem);
            }
            match &**elem {
                Type::U8(_) => {
                    let mut i: usize = 0;
                    let mut all_bytes = true;
                    while i < items.len() && all_bytes
                        invariant
                            i <= items@.len(),
                            all_bytes ==> forall|k: int|
                                0 <= k < i ==> (#[trigger] seq_model(items@)[k]) matches
                                    TypeModel::U8(_),
                            !all_bytes ==> i < items@.len() && !(seq_model(items@)[i as int]
                                matches TypeModel::U8(_)),
                        decreases items@.len() - i + (if all_bytes {
                            1int
                        } else {
                            0int
                        }),
                    {
                        proof {
                            crate::types::lemma_seq_model_index(items@, i as int);
                            crate::types::lemma_model_variant_u8(items@[i as int]);
                        }
                        let keep = match &items[i] {
                            Type::U8(_) => true,
                            _ => false,
                        };
                        if keep {
                            i += 1;
                        } else {
                            all_bytes = false;
                        }
                    }
                    proof {
                        crate::types::lemma_seq_model_len(items@);
                    }
                    all_bytes
                },
                _ => false,
            }
        },
        Type::Struct(fields) => {
            let mut i: usize = 0;
            let mut all_ok = true;
            while i < fields.len() && all_ok
                invariant
                    i <= fields@.len(),
                    all_ok ==> forall|k: int|
                        0 <= k < i ==> mutable_value(#[trigger] seq_model(fields@)[k]),
                    !all_ok ==> i < fields@.len() && !mutable_value(seq_model(fields@)[i as int]),
                decreases fields@.len() - i + (if all_ok {
                    1int
                } else {
                    0int
                }),
            {
                proof {
                    crate::types::lemma_seq_model_index(fields@, i as int);
                }
                if is_mutable_value(&fields[i]) {
                    i += 1;
                } else {
                    all_ok = false;
                }
            }
            proof {
                crate::types::lemma_seq_model_len(fields@);
                if all_ok {
                    lemma_mutable_seq_intro(seq_model(fields@));
                } else {
                    if mutable_seq(seq_model(fields@)) {
                        lemma_mutable_seq_index(seq_model(fields@), i as int);
                    }
                }
            }
            all_ok
        },
        Type::Reference(_, _) => true,
        Type::Function(_, _, _) => false,
    }
}

/// Decides whether the mutator accepts every value of a vector: callers
/// test a schema or a retained input with this before mutating it.
#[verifier::loop_isolation(false)]
pub fn mutable_inputs(v: &Vec<Type>) -> (r: bool)
    ensures
        r == mutable_seq(seq_model(v@)),
{
    let mut i: usize = 0;
    while i < v.len()
        invariant
            i <= v@.len(),
            forall|k: int| 0 <= k < i ==> mutable_value(#[trigger] seq_model(v@)[k]),
        decreases v@.len() - i,
    {
        proof {
            crate::types::lemma_seq_model_index(v@, i as int);
        }
        if !is_mutable_value(&v[i]) {
            proof {
                crate::types::lemma_seq_model_len(v@);
                if mutable_seq(seq_model(v@)) {
                    lemma_mutable_seq_index(seq_model(v@), i as int);
                }
            }
            return false;
        }
        i += 1;
    }
    proof {
        crate::types::lemma_seq_model_len(v@);
        lemma_mutable_seq_intro(seq_model(v@));
    }
    true
}

/// The byte of a buffer at a position, reading past the end as zero: a
/// short buffer is padded to the decoded width.
pub open spec fn spec_byte_at(s: Seq<u8>, i: int) -> u8 {
    if 0 <= i < s.len() {
        s[i]
    } else {
        0
    }
}

fn byte_at(b: &Vec<u8>, i: usize) -> (r: u8)
    ensures
        r == spec_byte_at(b@, i as int),
{
    if i < b.len() {
        b[i]
    } else {
        0
    }
}

/// The big-endian bytes of a 16-bit integer.
fn encode_u16(x: u16) -> (r: Vec<u8>)
    ensures
        r@.len() == 2,
        r@[0] == x as int / 0x100 % 0x100,
        r@[1] == x as int % 0x100,
{
    let mut v: Vec<u8> = Vec::new();
    v.push((x / 0x100) as u8);
    v.push((x % 0x100) as u8);
    v
}

/// The 16-bit integer read big-endian from the first two bytes, padded
/// with zeros past the end.
fn decode_u16(b: &Vec<u8>) -> (r: u16)
    ensures
        r == spec_byte_at(b@, 0) as int * 0x100 + spec_byte_at(b@, 1) as int,
{
    (byte_at(b, 0) as u16) * 0x100 + (byte_at(b, 1) as u16)
}

/// The big-endian bytes of a 32-bit integer.
fn encode_u32(x: u32) -> (r: Vec<u8>)
    ensures
        r@.len() == 4,
        r@[0] == x as int / 0x1000000 % 0x100,
        r@[1] == x as int / 0x10000 % 0x100,
        r@[2] == x as int / 0x100 % 0x100,
        r@[3] == x as int % 0x100,
{
    let mut v: Vec<u8> = Vec::new();
    v.push((x / 0x1000000) as u8);
    v.push((x / 0x10000 % 0x100) as u8);
    v.push((x / 0x100 % 0x100) as u8);
    v.push((x % 0x100) as u8);
    v
}

/// The 32-bit integer read big-endian from the first four bytes, padded
/// with zeros past the end.
fn decode_u32(b: &Vec<u8>) -> (r: u32)
    ensures
        r == spec_byte_at(b@, 0) as int * 0x1000000 + spec_byte_at(b@, 1) as int * 0x10000
            + spec_byte_at(b@, 2) as int * 0x100 + spec_byte_at(b@, 3) as int,
{
    (byte_at(b, 0) as u32) * 0x1000000 + (byte_at(b, 1) as u32) * 0x10000 + (byte_at(b, 2) as u32)
        * 0x100 + (byte_at(b, 3) as u32)
}

/// The big-endian bytes of a 64-bit integer.
fn encode_u64(x: u64) -> (r: Vec<u8>)
    ensures
        r@.len() == 8,
        r@[0] == x as int / 0x100000000000000 % 0x100,
        r@[1] == x as int / 0x1000000000000 % 0x100,
        r@[2] == x as int / 0x10000000000 % 0x100,
        r@[3] == x as int / 0x100000000 % 0x100,
        r@[4] == x as int / 0x1000000 % 0x100,
        r@[5] == x as int / 0x10000 % 0x100,
        r@[6] == x as int / 0x100 % 0x100,
        r@[7] == x as int % 0x100,
{
    let mut v: Vec<u8> = Vec::new();
    v.push((x / 0x100000000000000) as u8);
    v.push((x / 0x1000000000000 % 0x100) as u8);
    v.push((x / 0x10000000000 % 0x100) as u8);
    v.push((x / 0x100000000 % 0x100) as u8);
    v.push((x / 0x1000000 % 0x100) as u8);
    v.push((x / 0x10000 % 0x100) as u8);
    v.push((x / 0x100 % 0x100) as u8);
    v.push((x % 0x100) as u8);
    v
}

/// The 64-bit integer read big-endian from the first eight bytes, padded
/// with zeros past the end.
fn decode_u64(b: &Vec<u8>) -> (r: u64)
    ensures
        r == spec_byte_at(b@, 0) as int * 0x100000000000000 + spec_byte_at(b@, 1) as int
            * 0x1000000000000 + spec_byte_at(b@, 2) as int * 0x10000000000 + spec_byte_at(b@, 3) as int
            * 0x100000000 + spec_byte_at(b@, 4) as int * 0x1000000 + spec_byte_at(b@, 5) as int
            * 0x10000 + spec_byte_at(b@, 6) as int * 0x100 + spec_byte_at(b@, 7) as int,
{
    (byte_at(b, 0) as u64) * 0x100000000000000 + (byte_at(b, 1) as u64) * 0x1000000000000 + (byte_at(
        b,
        2,
    ) as u64) * 0x10000000000 + (byte_at(b, 3) as u64) * 0x100000000 + (byte_at(b, 4) as u64)
        * 0x1000000 + (byte_at(b, 5) as u64) * 0x10000 + (byte_at(b, 6) as u64) * 0x100 + (byte_at(
        b,
        7,
    ) as u64)
}

/// The big-endian bytes of a 128-bit integer: the two 64-bit halves.
#[verifier::loop_isolation(false)]
fn encode_u128(x: u128) -> (r: Vec<u8>)
    ensures
        r@.len() == 16,
        r@ == spec_encode_u128(x),
{
    let hi = encode_u64((x / 0x10000000000000000) as u64);
    let lo = encode_u64((x % 0x10000000000000000) as u64);
    proof {
        assert(hi@ =~= spec_encode_u64((x as int / 0x10000000000000000) as u64));
        assert(lo@ =~= spec_encode_u64((x as int % 0x10000000000000000) as u64));
    }
    let mut v = hi;
    let mut i: usize = 0;
    while i < lo.len()
        invariant
            i <= lo@.len(),
            v@ == spec_encode_u64((x as int / 0x10000000000000000) as u64) + lo@.take(i as int),
        decreases lo@.len() - i,
    {
        proof {
            assert(lo@.take(i as int + 1) =~= lo@.take(i as int).push(lo@[i as int]));
        }
        v.push(lo[i]);
        proof {
            assert(v@ =~= spec_encode_u64((x as int / 0x10000000000000000) as u64) + lo@.take(
                i as int + 1,
            ));
        }
        i += 1;
    }
    proof {
        assert(lo@.take(lo@.len() as int) =~= lo@);
        assert(v@ =~= spec_encode_u128(x));
    }
    v
}

/// The 128-bit integer read big-endian from the first sixteen bytes,
/// padded with zeros past the end: the two 64-bit halves recombined.
#[verifier::loop_isolation(false)]
fn decode_u128(b: &Vec<u8>) -> (r: u128)
    ensures
        r == spec_byte_at(b@, 0) as int * 0x100000000000000 * 0x10000000000000000 + spec_byte_at(
            b@,
            1,
        ) as int * 0x1000000000000 * 0x10000000000000000 + spec_byte_at(b@, 2) as int
            * 0x10000000000 * 0x10000000000000000 + spec_byte_at(b@, 3) as int * 0x100000000
            * 0x10000000000000000 + spec_byte_at(b@, 4) as int * 0x1000000 * 0x10000000000000000
            + spec_byte_at(b@, 5) as int * 0x10000 * 0x10000000000000000 + spec_byte_at(b@, 6) as int
            * 0x100 * 0x10000000000000000 + spec_byte_at(b@, 7) as int * 0x10000000000000000
            + spec_byte_at(b@, 8) as int * 0x100000000000000 + spec_byte_at(b@, 9) as int
            * 0x1000000000000 + spec_byte_at(b@, 10) as int * 0x10000000000 + spec_byte_at(
            b@,
            11,
        ) as int * 0x100000000 + spec_byte_at(b@, 12) as int * 0x1000000 + spec_byte_at(b@, 13) as int
            * 0x10000 + spec_byte_at(b@, 14) as int * 0x100 + spec_byte_at(b@, 15) as int,
{
    let hi = decode_u64(b);
    let mut rest: Vec<u8> = Vec::new();
    let mut i: usize = 8;
    while i < 16
        invariant
            8 <= i <= 16,
            rest@.len() == i - 8,
            forall|j: int| 0 <= j < i - 8 ==> rest@[j] == spec_byte_at(b@, j + 8),
        decreases 16 - i,
    {
        rest.push(byte_at(b, i));
        i += 1;
    }
    let lo = decode_u64(&rest);
    proof {
        assert(spec_byte_at(rest@, 0) == spec_byte_at(b@, 8));
        assert(spec_byte_at(rest@, 1) == spec_byte_at(b@, 9));
        assert(spec_byte_at(rest@, 2) == spec_byte_at(b@, 10));
        assert(spec_byte_at(rest@, 3) == spec_byte_at(b@, 11));
        assert(spec_byte_at(rest@, 4) == spec_byte_at(b@, 12));
        assert(spec_byte_at(rest@, 5) == spec_byte_at(b@, 13));
        assert(spec_byte_at(rest@, 6) == spec_byte_at(b@, 14));
        assert(spec_byte_at(rest@, 7) == spec_byte_at(b@, 15));
    }
    (hi as u128) * 0x10000000000000000 + (lo as u128)
}

/// The big-endian bytes of a 16-bit integer, as the codec writes them.
pub open spec fn spec_encode_u16(x: u16) -> Seq<u8> {
    seq![(x as int / 0x100 % 0x100) as u8, (x as int % 0x100) as u8]
}

/// The 16-bit integer the codec reads back from a buffer.
pub open spec fn spec_decode_u16(b: Seq<u8>) -> u16 {
    (spec_byte_at(b, 0) as int * 0x100 + spec_byte_at(b, 1) as int) as u16
}

/// The big-endian bytes of a 32-bit integer, as the codec writes them.
pub open spec fn spec_encode_u32(x: u32) -> Seq<u8> {
    seq![
        (x as int / 0x1000000 % 0x100) as u8,
        (x as int / 0x10000 % 0x100) as u8,
        (x as int / 0x100 % 0x100) as u8,
        (x as int % 0x100) as u8,
    ]
}

/// The 32-bit integer the codec reads back from a buffer.
pub open spec fn spec_decode_u32(b: Seq<u8>) -> u32 {
    (spec_byte_at(b, 0) as int * 0x1000000 + spec_byte_at(b, 1) as int * 0x10000 + spec_byte_at(
        b,
        2,
    ) as int * 0x100 + spec_byte_at(b, 3) as int) as u32
}

/// The big-endian bytes of a 64-bit integer, as the codec writes them.
pub open spec fn spec_encode_u64(x: u64) -> Seq<u8> {
    seq![
        (x as int / 0x100000000000000 % 0x100) as u8,
        (x as int / 0x1000000000000 % 0x100) as u8,
        (x as int / 0x10000000000 % 0x100) as u8,
        (x as int / 0x100000000 % 0x100) as u8,
        (x as int / 0x1000000 % 0x100) as u8,
        (x as int / 0x10000 % 0x100) as u8,
        (x as int / 0x100 % 0x100) as u8,
        (x as int % 0x100) as u8,
    ]
}

/// The 64-bit integer the codec reads back from a buffer.
pub open spec fn spec_decode_u64(b: Seq<u8>) -> u64 {
    (spec_byte_at(b, 0) as int * 0x100000000000000 + spec_byte_at(b, 1) as int * 0x1000000000000
        + spec_byte_at(b, 2) as int * 0x10000000000 + spec_byte_at(b, 3) as int * 0x100000000
        + spec_byte_at(b, 4) as int * 0x1000000 + spec_byte_at(b, 5) as int * 0x10000
        + spec_byte_at(b, 6) as int * 0x100 + spec_byte_at(b, 7) as int) as u64
}

/// The big-endian bytes of a 128-bit integer: the two 64-bit halves.
pub open spec fn spec_encode_u128(x: u128) -> Seq<u8> {
    spec_encode_u64((x as int / 0x10000000000000000) as u64) + spec_encode_u64(
        (x as int % 0x10000000000000000) as u64,
    )
}

/// The 128-bit integer the codec reads back from a buffer.
pub open spec fn spec_decode_u128(b: Seq<u8>) -> u128 {
    (spec_decode_u64(b.take(8)) as int * 0x10000000000000000 + spec_decode_u64(b.skip(8)) as int)
        as u128
}

/// The byte a byte-vector element contributes to the mutation buffer.
pub open spec fn spec_byte_of(m: TypeModel) -> u8 {
    match m {
        TypeModel::U8(b) => b,
        _ => 0,
    }
}

/// The mutation buffer of a byte vector's elements.
pub open spec fn bytes_of_models(s: Seq<TypeModel>) -> Seq<u8> {
    s.map_values(|m: TypeModel| spec_byte_of(m))
}

/// The byte-vector elements rebuilt from a mutated buffer.
pub open spec fn models_of_bytes(b: Seq<u8>) -> Seq<TypeModel> {
    b.map_values(|x: u8| TypeModel::U8(x))
}

/// One corruption round over a byte buffer: an empty buffer (under a
/// positive cap) gains one drawn byte; otherwise a drawn operation
/// either flips bits of a drawn byte, overwrites it, or grows the buffer
/// while it is below the cap. The round is a function of the generator
/// seed and the buffer alone.
pub open spec fn spec_mutate_round(seed: u64, bytes: Seq<u8>, max_len: int) -> (u64, Seq<u8>) {
    if bytes.len() == 0 {
        if max_len > 0 {
            (spec_next_seed(seed), bytes.push(spec_draw(seed, 0, 255) as u8))
        } else {
            (seed, bytes)
        }
    } else {
        let op = spec_draw(seed, 0, 2);
        let s1 = spec_next_seed(seed);
        let pos = spec_draw(s1, 0, (bytes.len() - 1) as u64);
        let s2 = spec_next_seed(s1);
        let value = spec_draw(s2, 0, 255) as u8;
        let s3 = spec_next_seed(s2);
        if op == 0 {
            (s3, bytes.update(pos, bytes[pos] ^ value))
        } else if op == 1 {
            (s3, bytes.update(pos, value))
        } else if bytes.len() < max_len {
            (s3, bytes.push(value))
        } else {
            (s3, bytes.update(pos, value))
        }
    }
}

/// `rounds` corruption rounds, each applied to the previous round's seed
/// and buffer.
pub open spec fn spec_mutate_buffer(seed: u64, bytes: Seq<u8>, rounds: int, max_len: int) -> (
    u64,
    Seq<u8>,
)
    decreases rounds,
{
    if rounds <= 0 {
        (seed, bytes)
    } else {
        let step = spec_mutate_round(seed, bytes, max_len);
        spec_mutate_buffer(step.0, step.1, rounds - 1, max_len)
    }
}

/// Applies `rounds` random byte-level operations to a buffer: flipping
/// bits of a byte, overwriting a byte, or growing the buffer while it is
/// below `max_len`. The buffer never shrinks, and it grows only while
/// below the cap. Every draw comes from the worker's own deterministic
/// generator, so the whole corruption is a function of the seed.
#[verifier::loop_isolation(false)]
fn mutate_buffer(rng: &mut Rng, bytes: &mut Vec<u8>, rounds: usize, max_len: usize)
    ensures
        final(rng).exp_disabled == old(rng).exp_disabled,
        old(bytes)@.len() <= final(bytes)@.len(),
        final(bytes)@.len() == old(bytes)@.len() || final(bytes)@.len() <= max_len,
        final(rng).seed == spec_mutate_buffer(
            old(rng).seed,
            old(bytes)@,
            rounds as int,
            max_len as int,
        ).0,
        final(bytes)@ == spec_mutate_buffer(
            old(rng).seed,
            old(bytes)@,
            rounds as int,
            max_len as int,
        ).1,
{
    let ghost whole = spec_mutate_buffer(rng.seed, bytes@, rounds as int, max_len as int);
    let mut round: usize = 0;
    while round < rounds
        invariant
            round <= rounds,
            old(bytes)@.len() <= bytes@.len(),
            bytes@.len() == old(bytes)@.len() || bytes@.len() <= max_len,
            rng.exp_disabled == old(rng).exp_disabled,
            spec_mutate_buffer(rng.seed, bytes@, rounds - round, max_len as int) == whole,
        decreases rounds - round,
    {
        let ghost cur_seed = rng.seed;
        let ghost cur_bytes = bytes@;
        if bytes.len() == 0 {
            if max_len > 0 {
                let fresh = rng.rand(0, 255) as u8;
                bytes.push(fresh);
            }
        } else {
            let op = rng.rand(0, 2);
            let pos = rng.rand_index(bytes.len());
            let value = rng.rand(0, 255) as u8;
            if op == 0 {
                let current = bytes[pos];
                bytes.set(pos, current ^ value);
            } else if op == 1 {
                bytes.set(pos, value);
            } else {
                if bytes.len() < max_len {
                    bytes.push(value);
                } else {
                    bytes.set(pos, value);
                }
            }
        }
        proof {
            assert((rng.seed, bytes@) == spec_mutate_round(cur_seed, cur_bytes, max_len as int));
        }
        round += 1;
    }
}

/// What mutating one value does, as a function of the generator seed:
/// the advanced seed and the re-decoded value.
pub open spec fn spec_mutate_value(seed: u64, m: TypeModel, nb: int, max_len: int) -> (
    u64,
    TypeModel,
)
    decreases m,
{
    match m {
        TypeModel::U8(v) => {
            let r = spec_mutate_buffer(seed, seq![v], nb, max_len);
            (r.0, TypeModel::U8(spec_byte_at(r.1, 0)))
        },
        TypeModel::U16(v) => {
            let r = spec_mutate_buffer(seed, spec_encode_u16(v), nb, max_len);
            (r.0, TypeModel::U16(spec_decode_u16(r.1)))
        },
        TypeModel::U32(v) => {
            let r = spec_mutate_buffer(seed, spec_encode_u32(v), nb, max_len);
            (r.0, TypeModel::U32(spec_decode_u32(r.1)))
        },
        TypeModel::U64(v) => {
            let r = spec_mutate_buffer(seed, spec_encode_u64(v), nb, max_len);
            (r.0, TypeModel::U64(spec_decode_u64(r.1)))
        },
        TypeModel::U128(v) => {
            let r = spec_mutate_buffer(seed, spec_encode_u128(v), nb, max_len);
            (r.0, TypeModel::U128(spec_decode_u128(r.1)))
        },
        TypeModel::Bool(v) => {
            let r = spec_mutate_buffer(
                seed,
                seq![
                    if v {
                        1u8
                    } else {
                        0u8
                    },
                ],
                nb,
                max_len,
            );
            (r.0, TypeModel::Bool(spec_byte_at(r.1, 0) != 0))
        },
        TypeModel::Vector(_, items) => {
            let r = spec_mutate_buffer(seed, bytes_of_models(items), nb, max_len);
            (r.0, TypeModel::Vector(Box::new(TypeModel::U8(0)), models_of_bytes(r.1)))
        },
        TypeModel::Struct(fields) => {
            let r = spec_mutate_values(seed, fields, nb, max_len);
            (r.0, TypeModel::Struct(r.1))
        },
        TypeModel::Reference(_, _) => (seed, m),
        TypeModel::Function(_, _, _) => (seed, m),
    }
}

/// What mutating a vector of values does: each value in turn, threading
/// the seed.
pub open spec fn spec_mutate_values(seed: u64, s: Seq<TypeModel>, nb: int, max_len: int) -> (
    u64,
    Seq<TypeModel>,
)
    decreases s,
{
    if s.len() == 0 {
        (seed, Seq::empty())
    } else {
        let head = spec_mutate_value(seed, s[0], nb, max_len);
        let rest = spec_mutate_values(head.0, s.drop_first(), nb, max_len);
        (rest.0, seq![head.1] + rest.1)
    }
}

/// The typed mutator: encodes each value into its byte buffer, corrupts
/// the buffer with the deterministic generator, and re-decodes the result
/// into the declared variant at its native width.
pub struct SuiMutator {
    rng: Rng,
    seed: u64,
    max_input_size: usize,
}

impl SuiMutator {
    /// A mutator over the given seed; mutated byte vectors never grow past
    /// `max_input_size`.
    pub fn new(seed: u64, max_input_size: usize) -> (r: SuiMutator)
        ensures
            r.seed() == seed,
            r.max_input_size() == max_input_size,
    {
        SuiMutator { rng: Rng::new(seed), seed, max_input_size }
    }

    /// The seed this mutator was created with.
    pub closed spec fn seed(&self) -> u64 {
        self.seed
    }

    /// The cap on a mutated byte vector's length.
    pub closed spec fn max_input_size(&self) -> usize {
        self.max_input_size
    }

    /// Mutates one typed value, keeping its variant and width.
    #[verifier::loop_isolation(false)]
    fn mutate_one(&mut self, input: &Type, nb_mutation: usize) -> (r: Type)
        requires
            mutable_value(input@),
        ensures
            mutated_of(input@, r@),
            final(self).seed == old(self).seed,
            final(self).max_input_size == old(self).max_input_size,
            final(self).rng.exp_disabled == old(self).rng.exp_disabled,
            final(self).rng.seed == spec_mutate_value(
                old(self).rng.seed,
                input@,
                nb_mutation as int,
                old(self).max_input_size as int,
            ).0,
            r@ == spec_mutate_value(
                old(self).rng.seed,
                input@,
                nb_mutation as int,
                old(self).max_input_size as int,
            ).1,
        decreases input,
    {
        let ghost seed0 = self.rng.seed;
        let ghost nb = nb_mutation as int;
        let ghost maxl = self.max_input_size as int;
        match input {
            Type::U8(v) => {
                let mut buffer: Vec<u8> = Vec::new();
                buffer.push(*v);
                proof {
                    assert(buffer@ =~= seq![*v]);
                }
                mutate_buffer(&mut self.rng, &mut buffer, nb_mutation, self.max_input_size);
                let r = Type::U8(byte_at(&buffer, 0));
                proof {
                    assert(r@ == spec_mutate_value(seed0, input@, nb, maxl).1);
                }
                r
            },
            Type::U16(v) => {
                let mut buffer = encode_u16(*v);
                proof {
                    assert(buffer@ =~= spec_encode_u16(*v));
                }
                mutate_buffer(&mut self.rng, &mut buffer, nb_mutation, self.max_input_size);
                let r = Type::U16(decode_u16(&buffer));
                proof {
                    assert(r@ == spec_mutate_value(seed0, input@, nb, maxl).1);
                }
                r
            },
            Type::U32(v) => {
                let mut buffer = encode_u32(*v);
                proof {
                    assert(buffer@ =~= spec_encode_u32(*v));
                }
                mutate_buffer(&mut self.rng, &mut buffer, nb_mutation, self.max_input_size);
                let r = Type::U32(decode_u32(&buffer));
                proof {
                    assert(r@ == spec_mutate_value(seed0, input@, nb, maxl).1);
                }
                r
            },
            Type::U64(v) => {
                let mut buffer = encode_u64(*v);
                proof {
                    assert(buffer@ =~= spec_encode_u64(*v));
                }
                mutate_buffer(&mut self.rng, &mut buffer, nb_mutation, self.max_input_size);
                let r = Type::U64(decode_u64(&buffer));
                proof {
                    assert(r@ == spec_mutate_value(seed0, input@, nb, maxl).1);
                }
                r
            },
            Type::U128(v) => {
                let mut buffer = encode_u128(*v);
                mutate_buffer(&mut self.rng, &mut buffer, nb_mutation, self.max_input_size);
                let r = Type::U128(decode_u128(&buffer));
                proof {
                    let b = buffer@;
                    assert(b.len() >= 16);
                    assert(spec_byte_at(b.take(8), 0) == spec_byte_at(b, 0));
                    assert(spec_byte_at(b.take(8), 1) == spec_byte_at(b, 1));
                    assert(spec_byte_at(b.take(8), 2) == spec_byte_at(b, 2));
                    assert(spec_byte_at(b.take(8), 3) == spec_byte_at(b, 3));
                    assert(spec_byte_at(b.take(8), 4) == spec_byte_at(b, 4));
                    assert(spec_byte_at(b.take(8), 5) == spec_byte_at(b, 5));
                    assert(spec_byte_at(b.take(8), 6) == spec_byte_at(b, 6));
                    assert(spec_byte_at(b.take(8), 7) == spec_byte_at(b, 7));
                    assert(spec_byte_at(b.skip(8), 0) == spec_byte_at(b, 8));
                    assert(spec_byte_at(b.skip(8), 1) == spec_byte_at(b, 9));
                    assert(spec_byte_at(b.skip(8), 2) == spec_byte_at(b, 10));
                    assert(spec_byte_at(b.skip(8), 3) == spec_byte_at(b, 11));
                    assert(spec_byte_at(b.skip(8), 4) == spec_byte_at(b, 12));
                    assert(spec_byte_at(b.skip(8), 5) == spec_byte_at(b, 13));
                    assert(spec_byte_at(b.skip(8), 6) == spec_byte_at(b, 14));
                    assert(spec_byte_at(b.skip(8), 7) == spec_byte_at(b, 15));
                    assert(r@ == spec_mutate_value(seed0, input@, nb, maxl).1);
                }
                r
            },
            Type::Bool(v) => {
                let mut buffer: Vec<u8> = Vec::new();
                buffer.push(if *v {
                    1
                } else {
                    0
                });
                proof {
                    assert(buffer@ =~= seq![
                        if *v {
                            1u8
                        } else {
                            0u8
                        },
                    ]);
                }
                mutate_buffer(&mut self.rng, &mut buffer, nb_mutation, self.max_input_size);
                let r = Type::Bool(byte_at(&buffer, 0) != 0);
                proof {
                    assert(r@ == spec_mutate_value(seed0, input@, nb, maxl).1);
                }
                r
            },
            Type::Vector(_, items) => {
                let ghost im = seq_model(items@);
                let mut buffer: Vec<u8> = Vec::new();
                let mut i: usize = 0;
                proof {
                    crate::types::lemma_seq_model_len(items@);
                    assert(buffer@ =~= bytes_of_models(im.take(0)));
                }
                while i < items.len()
                    invariant
                        i <= items@.len(),
                        buffer@ == bytes_of_models(im.take(i as int)),
                    decreases items@.len() - i,
                {
                    proof {
                        crate::types::lemma_seq_model_len(items@);
                        crate::types::lemma_seq_model_index(items@, i as int);
                        crate::types::lemma_model_variant_u8(items@[i as int]);
                    }
                    let b = match &items[i] {
                        Type::U8(x) => *x,
                        _ => 0,
                    };
                    proof {
                        assert(b == spec_byte_of(im[i as int]));
                    }
                    buffer.push(b);
                    proof {
                        assert(im.take(i as int + 1) =~= im.take(i as int).push(im[i as int]));
                        assert(buffer@ =~= bytes_of_models(im.take(i as int + 1)));
                    }
                    i += 1;
                }
                proof {
                    crate::types::lemma_seq_model_len(items@);
                    assert(im.take(im.len() as int) =~= im);
                }
                mutate_buffer(&mut self.rng, &mut buffer, nb_mutation, self.max_input_size);
                let mut rebuilt: Vec<Type> = Vec::new();
                let mut j: usize = 0;
                while j < buffer.len()
                    invariant
                        j <= buffer@.len(),
                        rebuilt@.len() == j,
                        forall|k: int|
                            0 <= k < j ==> #[trigger] seq_model(rebuilt@)[k] == TypeModel::U8(
                                buffer@[k],
                            ),
                    decreases buffer@.len() - j,
                {
                    let ghost prev = rebuilt@;
                    rebuilt.push(Type::U8(buffer[j]));
                    proof {
                        crate::types::lemma_seq_model_len(rebuilt@);
                        assert forall|k: int| 0 <= k < j + 1 implies #[trigger] seq_model(
                            rebuilt@,
                        )[k] == TypeModel::U8(buffer@[k]) by {
                            crate::types::lemma_seq_model_index(rebuilt@, k);
                            if k < j {
                                crate::types::lemma_seq_model_index(prev, k);
                                assert(rebuilt@[k] == prev[k]);
                            }
                        }
                    }
                    j += 1;
                }
                let r = Type::Vector(Box::new(Type::U8(0)), rebuilt);
                proof {
                    reveal_with_fuel(crate::types::type_model, 2);
                    crate::types::lemma_seq_model_len(rebuilt@);
                    assert(seq_model(rebuilt@) =~= models_of_bytes(buffer@));
                    assert forall|k: int|
                        0 <= k < seq_model(rebuilt@).len() implies (#[trigger] seq_model(
                        rebuilt@,
                    )[k]) matches TypeModel::U8(_) by {}
                    assert(mutated_of(input@, r@));
                    assert(r@ == spec_mutate_value(seed0, input@, nb, maxl).1);
                }
                r
            },
            Type::Struct(fields) => {
                let ghost fm = seq_model(fields@);
                let mut mutated: Vec<Type> = Vec::new();
                let mut i: usize = 0;
                proof {
                    crate::types::lemma_seq_model_len(fields@);
                    assert(fm.skip(0) =~= fm);
                    assert(seq_model(mutated@) + spec_mutate_values(self.rng.seed, fm, nb, maxl).1
                        =~= spec_mutate_values(seed0, fm, nb, maxl).1);
                }
                while i < fields.len()
                    invariant
                        i <= fields@.len(),
                        mutated@.len() == i,
                        self.seed == old(self).seed,
                        self.max_input_size == old(self).max_input_size,
                        self.rng.exp_disabled == old(self).rng.exp_disabled,
                        forall|k: int|
                            0 <= k < i ==> mutated_of(
                                #[trigger] seq_model(fields@)[k],
                                seq_model(mutated@)[k],
                            ),
                        spec_mutate_values(seed0, fm, nb, maxl).0 == spec_mutate_values(
                            self.rng.seed,
                            fm.skip(i as int),
                            nb,
                            maxl,
                        ).0,
                        spec_mutate_values(seed0, fm, nb, maxl).1 == seq_model(mutated@)
                            + spec_mutate_values(self.rng.seed, fm.skip(i as int), nb, maxl).1,
                    decreases fields@.len() - i,
                {
                    proof {
                        assert(input@ matches TypeModel::Struct(_));
                        crate::types::lemma_seq_model_len(fields@);
                        crate::types::lemma_seq_model_index(fields@, i as int);
                        lemma_mutable_seq_index(seq_model(fields@), i as int);
                        assert(mutable_value(seq_model(fields@)[i as int]));
                        assert(fm.skip(i as int)[0] == fm[i as int]);
                        assert(fm.skip(i as int).drop_first() =~= fm.skip(i as int + 1));
                    }
                    let ghost cur_seed = self.rng.seed;
                    let m = self.mutate_one(&fields[i], nb_mutation);
                    let ghost prev = mutated@;
                    mutated.push(m);
                    proof {
                        crate::types::lemma_seq_model_len(mutated@);
                        assert forall|k: int| 0 <= k < i + 1 implies mutated_of(
                            #[trigger] seq_model(fields@)[k],
                            seq_model(mutated@)[k],
                        ) by {
                            crate::types::lemma_seq_model_index(mutated@, k);
                            crate::types::lemma_seq_model_index(fields@, k);
                            if k < i {
                                crate::types::lemma_seq_model_index(prev, k);
                                assert(mutated@[k] == prev[k]);
                            }
                        }
                        assert(seq_model(mutated@) =~= seq_model(prev) + seq![m@]) by {
                            assert forall|k: int|
                                0 <= k < seq_model(mutated@).len() implies seq_model(mutated@)[k]
                                == (seq_model(prev) + seq![m@])[k] by {
                                crate::types::lemma_seq_model_len(prev);
                                crate::types::lemma_seq_model_index(mutated@, k);
                                if k < i {
                                    crate::types::lemma_seq_model_index(prev, k);
                                    assert(mutated@[k] == prev[k]);
                                }
                            }
                            crate::types::lemma_seq_model_len(prev);
                        }
                        assert(m@ == spec_mutate_value(cur_seed, fm[i as int], nb, maxl).1);
                        assert(seq_model(prev) + (seq![m@] + spec_mutate_values(
                            self.rng.seed,
                            fm.skip(i as int + 1),
                            nb,
                            maxl,
                        ).1) =~= (seq_model(prev) + seq![m@]) + spec_mutate_values(
                            self.rng.seed,
                            fm.skip(i as int + 1),
                            nb,
                            maxl,
                        ).1);
                    }
                    i += 1;
                }
                let r = Type::Struct(mutated);
                proof {
                    crate::types::lemma_seq_model_len(fields@);
                    crate::types::lemma_seq_model_len(mutated@);
                    lemma_mutated_seq_intro(seq_model(fields@), seq_model(mutated@));
                    assert(mutated_of(input@, r@));
                    assert(fm.skip(fm.len() as int) =~= Seq::<TypeModel>::empty());
                    assert(seq_model(mutated@) + Seq::<TypeModel>::empty() =~= seq_model(
                        mutated@,
                    ));
                    assert(r@ == spec_mutate_value(seed0, input@, nb, maxl).1);
                }
                r
            },
            Type::Reference(mutable, referent) => {
                let r = Type::Reference(*mutable, Box::new((**referent).clone()));
                proof {
                    assert(r@ =~= input@);
                    assert(r@ == spec_mutate_value(seed0, input@, nb, maxl).1);
                }
                r
            },
            Type::Function(_, _, _) => {
                proof {
                    assert(false);
                }
                Type::Bool(false)
            },
        }
    }
}

impl Mutator for SuiMutator {
    /// The whole mutation is a function of the generator seed: the
    /// successor keeps the creation seed and the size cap, with the
    /// generator advanced past every draw the values consumed.
    closed spec fn mutate_spec(&self, inputs: Seq<TypeModel>, nb: int) -> (
        SuiMutator,
        Seq<TypeModel>,
    ) {
        let r = spec_mutate_values(self.rng.seed, inputs, nb, self.max_input_size as int);
        (
            SuiMutator {
                rng: Rng { seed: r.0, exp_disabled: self.rng.exp_disabled },
                seed: self.seed,
                max_input_size: self.max_input_size,
            },
            r.1,
        )
    }

    #[verifier::loop_isolation(false)]
    fn mutate(&mut self, inputs: &Vec<Type>, nb_mutation: usize) -> (r: Vec<Type>)
    {
        let ghost seed0 = self.rng.seed;
        let ghost nb = nb_mutation as int;
        let ghost maxl = self.max_input_size as int;
        let ghost im = seq_model(inputs@);
        let mut out: Vec<Type> = Vec::new();
        let mut i: usize = 0;
        proof {
            crate::types::lemma_seq_model_len(inputs@);
            assert(im.skip(0) =~= im);
            assert(seq_model(out@) + spec_mutate_values(self.rng.seed, im, nb, maxl).1
                =~= spec_mutate_values(seed0, im, nb, maxl).1);
        }
        while i < inputs.len()
            invariant
                i <= inputs@.len(),
                out@.len() == i,
                self.seed == old(self).seed,
                self.max_input_size == old(self).max_input_size,
                self.rng.exp_disabled == old(self).rng.exp_disabled,
                forall|k: int|
                    0 <= k < i ==> mutated_of(
                        #[trigger] seq_model(inputs@)[k],
                        seq_model(out@)[k],
                    ),
                spec_mutate_values(seed0, im, nb, maxl).0 == spec_mutate_values(
                    self.rng.seed,
                    im.skip(i as int),
                    nb,
                    maxl,
                ).0,
                spec_mutate_values(seed0, im, nb, maxl).1 == seq_model(out@)
                    + spec_mutate_values(self.rng.seed, im.skip(i as int), nb, maxl).1,
            decreases inputs@.len() - i,
        {
            proof {
                crate::types::lemma_seq_model_len(inputs@);
                crate::types::lemma_seq_model_index(inputs@, i as int);
                lemma_mutable_seq_index(seq_model(inputs@), i as int);
                assert(im.skip(i as int)[0] == im[i as int]);
                assert(im.skip(i as int).drop_first() =~= im.skip(i as int + 1));
            }
            let ghost cur_seed = self.rng.seed;
            let m = self.mutate_one(&inputs[i], nb_mutation);
            let ghost prev = out@;
            out.push(m);
            proof {
                crate::types::lemma_seq_model_len(out@);
                assert forall|k: int| 0 <= k < i + 1 implies mutated_of(
                    #[trigger] seq_model(inputs@)[k],
                    seq_model(out@)[k],
                ) by {
                    crate::types::lemma_seq_model_index(out@, k);
                    crate::types::lemma_seq_model_index(inputs@, k);
                    if k < i {
                        crate::types::lemma_seq_model_index(prev, k);
                        assert(out@[k] == prev[k]);
                    }
                }
                assert(seq_model(out@) =~= seq_model(prev) + seq![m@]) by {
                    assert forall|k: int|
                        0 <= k < seq_model(out@).len() implies seq_model(out@)[k] == (seq_model(
                        prev,
                    ) + seq![m@])[k] by {
                        crate::types::lemma_seq_model_len(prev);
                        crate::types::lemma_seq_model_index(out@, k);
                        if k < i {
                            crate::types::lemma_seq_model_index(prev, k);
                            assert(out@[k] == prev[k]);
                        }
                    }
                    crate::types::lemma_seq_model_len(prev);
                }
                assert(m@ == spec_mutate_value(cur_seed, im[i as int], nb, maxl).1);
                assert(seq_model(prev) + (seq![m@] + spec_mutate_values(
                    self.rng.seed,
                    im.skip(i as int + 1),
                    nb,
                    maxl,
                ).1) =~= (seq_model(prev) + seq![m@]) + spec_mutate_values(
                    self.rng.seed,
                    im.skip(i as int + 1),
                    nb,
                    maxl,
                ).1);
            }
            i += 1;
        }
        proof {
            crate::types::lemma_seq_model_len(inputs@);
            crate::types::lemma_seq_model_len(out@);
            lemma_mutated_seq_intro(seq_model(inputs@), seq_model(out@));
            assert(im.skip(im.len() as int) =~= Seq::<TypeModel>::empty());
            assert(seq_model(out@) + Seq::<TypeModel>::empty() =~= seq_model(out@));
            assert(*self == old(self).mutate_spec(im, nb).0);
            assert(seq_model(out@) == old(self).mutate_spec(im, nb).1);
        }
        out
    }

    /// The draw restarts from the creation seed, so it depends on the
    /// seed and the bounds alone.
    open spec fn draw_spec(&self, min: u64, max: u64) -> int {
        spec_draw(self.seed(), min, max)
    }

    fn generate_number(&self, min: u64, max: u64) -> (r: u64)
    {
        let mut fresh = Rng::new(self.seed);
        fresh.rand(min, max)
    }
}

} // verus!
