use vstd::prelude::*;

use crate::types::seq_model;
use crate::types::type_model;
use crate::types::Parameters;
use crate::types::Type;
use crate::types::TypeModel;

verus! {

/// The decimal digit character for `d`.
pub open spec fn spec_digit(d: int) -> char {
    if d == 0 {
        '0'
    } else if d == 1 {
        '1'
    } else if d == 2 {
        '2'
    } else if d == 3 {
        '3'
    } else if d == 4 {
        '4'
    } else if d == 5 {
        '5'
    } else if d == 6 {
        '6'
    } else if d == 7 {
        '7'
    } else if d == 8 {
        '8'
    } else {
        '9'
    }
}

/// The usual decimal rendering of a non-negative integer, most significant
/// digit first, with no leading zeros (except for zero itself).
pub open spec fn spec_decimal(n: int) -> Seq<char>
    recommends
        n >= 0,
    decreases n,
{
    if n < 10 {
        seq![spec_digit(n)]
    } else {
        spec_decimal(n / 10).push(spec_digit(n % 10))
    }
}

/// "true" or "false".
pub open spec fn spec_bool_str(b: bool) -> Seq<char> {
    if b {
        "true"@
    } else {
        "false"@
    }
}

/// Relies on std's `String::push`: appends exactly one character.
#[verifier::external_body]
fn push_char(s: &mut String, c: char)
    ensures
        final(s)@ == old(s)@.push(c),
{
    s.push(c);
}

fn digit_str(d: u8) -> (r: &'static str)
    requires
        d < 10,
    ensures
        r@ == seq![spec_digit(d as int)],
{
    let r: &'static str = match d {
        0 => "0",
        1 => "1",
        2 => "2",
        3 => "3",
        4 => "4",
        5 => "5",
        6 => "6",
        7 => "7",
        8 => "8",
        _ => "9",
    };
    proof {
        reveal_strlit("0");
        reveal_strlit("1");
        reveal_strlit("2");
        reveal_strlit("3");
        reveal_strlit("4");
        reveal_strlit("5");
        reveal_strlit("6");
        reveal_strlit("7");
        reveal_strlit("8");
        reveal_strlit("9");
        assert(r@ =~= seq![spec_digit(d as int)]);
    }
    r
}

/// Renders an unsigned integer in decimal.
pub fn decimal_u128(n: u128) -> (r: String)
    ensures
        r@ == spec_decimal(n as int),
    decreases n,
{
    if n < 10 {
        String::from_str(digit_str(n as u8))
    } else {
        let mut s = decimal_u128(n / 10);
        s.append(digit_str((n % 10) as u8));
        proof {
            assert(s@ =~= spec_decimal(n as int));
        }
        s
    }
}

/// Renders an unsigned integer in decimal.
pub fn decimal_u64(n: u64) -> (r: String)
    ensures
        r@ == spec_decimal(n as int),
{
    decimal_u128(n as u128)
}

/// Renders a boolean as "true" or "false".
pub fn bool_str(b: bool) -> (r: &'static str)
    ensures
        r@ == spec_bool_str(b),
{
    if b {
        "true"
    } else {
        "false"
    }
}

/// An ASCII byte stands for itself; anything else renders as the Unicode
/// replacement character. This is a deliberate simplification: bytes
/// outside ASCII are never decoded as multi-byte sequences, so a byte
/// vector's rendering is a per-byte function, deterministic and total.
pub open spec fn char_of_byte(b: u8) -> char {
    if b < 128 {
        b as char
    } else {
        '\u{FFFD}'
    }
}

/// The character a vector element contributes to a raw byte-string rendering.
pub open spec fn byte_char(m: TypeModel) -> char {
    match m {
        TypeModel::U8(b) => char_of_byte(b),
        _ => '\u{FFFD}',
    }
}

/// The raw byte-string rendering of a byte vector's elements.
pub open spec fn byte_chars(s: Seq<TypeModel>) -> Seq<char>
    decreases s,
{
    if s.len() == 0 {
        Seq::empty()
    } else {
        seq![byte_char(s[0])] + byte_chars(s.drop_first())
    }
}

/// A ", "-separated rendering of a sequence of typed values.
pub open spec fn display_list(s: Seq<TypeModel>) -> Seq<char>
    decreases s,
{
    if s.len() == 0 {
        Seq::empty()
    } else if s.len() == 1 {
        type_display(s[0])
    } else {
        type_display(s[0]) + ", "@ + display_list(s.drop_first())
    }
}

/// The deterministic printable form of a typed value. Byte vectors render as
/// their raw byte string; other composites list their elements.
pub open spec fn type_display(m: TypeModel) -> Seq<char>
    decreases m,
{
    match m {
        TypeModel::U8(v) => "U8("@ + spec_decimal(v as int) + ")"@,
        TypeModel::U16(v) => "U16("@ + spec_decimal(v as int) + ")"@,
        TypeModel::U32(v) => "U32("@ + spec_decimal(v as int) + ")"@,
        TypeModel::U64(v) => "U64("@ + spec_decimal(v as int) + ")"@,
        TypeModel::U128(v) => "U128("@ + spec_decimal(v as int) + ")"@,
        TypeModel::Bool(v) => "Bool("@ + spec_bool_str(v) + ")"@,
        TypeModel::Vector(elem, items) => {
            if *elem matches TypeModel::U8(_) {
                if items.len() == 0 {
                    "Vector(U8)"@
                } else {
                    "Vector(U8, ["@ + byte_chars(items) + "])"@
                }
            } else {
                "Vector(["@ + display_list(items) + "])"@
            }
        },
        TypeModel::Struct(fields) => {
            if fields.len() == 0 {
                "Struct([])"@
            } else {
                "Struct([ "@ + display_list(fields) + " ])"@
            }
        },
        TypeModel::Reference(mutable, referent) => "Reference("@ + spec_bool_str(mutable) + ", "@
            + type_display(*referent) + ")"@,
        TypeModel::Function(name, _, _) => "Function("@ + name + ")"@,
    }
}

/// The printable form of a parameter vector: "[]" when empty, else the
/// values between "[ " and " ]".
pub open spec fn parameters_display(s: Seq<TypeModel>) -> Seq<char> {
    if s.len() == 0 {
        "[]"@
    } else {
        "[ "@ + display_list(s) + " ]"@
    }
}

proof fn lemma_byte_chars_push(s: Seq<TypeModel>, x: TypeModel)
    ensures
        byte_chars(s.push(x)) == byte_chars(s).push(byte_char(x)),
    decreases s.len(),
{
    if s.len() == 0 {
        assert(s.push(x).drop_first() =~= Seq::<TypeModel>::empty());
        assert(byte_chars(Seq::<TypeModel>::empty()) =~= Seq::<char>::empty());
        assert(s.push(x)[0] == x);
        assert(byte_chars(s.push(x)) =~= seq![byte_char(x)]);
        assert(byte_chars(s) =~= Seq::<char>::empty());
        assert(byte_chars(s.push(x)) =~= byte_chars(s).push(byte_char(x)));
    } else {
        assert(s.push(x).drop_first() =~= s.drop_first().push(x));
        lemma_byte_chars_push(s.drop_first(), x);
        assert(s.push(x)[0] == s[0]);
        assert(byte_chars(s.push(x)) =~= seq![byte_char(s[0])] + byte_chars(s.drop_first().push(x)));
        assert(byte_chars(s.push(x)) =~= byte_chars(s).push(byte_char(x)));
    }
}

proof fn lemma_display_list_push(s: Seq<TypeModel>, x: TypeModel)
    ensures
        display_list(s.push(x)) == if s.len() == 0 {
            type_display(x)
        } else {
            display_list(s) + ", "@ + type_display(x)
        },
    decreases s.len(),
{
    if s.len() == 0 {
        assert(display_list(s.push(x)) =~= type_display(x));
    } else {
        assert(s.push(x).drop_first() =~= s.drop_first().push(x));
        lemma_display_list_push(s.drop_first(), x);
        if s.len() == 1 {
            assert(display_list(s.push(x)) =~= display_list(s) + ", "@ + type_display(x));
        } else {
            assert(display_list(s.push(x)) =~= display_list(s) + ", "@ + type_display(x));
        }
    }
}

fn ascii_or_replacement(b: u8) -> (r: char)
    ensures
        r == char_of_byte(b),
{
    if b < 128 {
        b as char
    } else {
        '\u{FFFD}'
    }
}

fn render_byte_items(items: &Vec<Type>) -> (r: String)
    ensures
        r@ == byte_chars(seq_model(items@)),
{
    broadcast use crate::types::lemma_seq_model_len, crate::types::lemma_seq_model_index;

    let mut s = String::new();
    proof {
        assert(seq_model(items@).take(0) =~= Seq::<TypeModel>::empty());
    }
    let mut i: usize = 0;
    while i < items.len()
        invariant
            i <= items@.len(),
            s@ == byte_chars(seq_model(items@).take(i as int)),
        decreases items@.len() - i,
    {
        let c = match &items[i] {
            Type::U8(b) => ascii_or_replacement(*b),
            _ => '\u{FFFD}',
        };
        push_char(&mut s, c);
        proof {
            broadcast use crate::types::lemma_seq_model_len, crate::types::lemma_seq_model_index;

            let m = seq_model(items@);
            assert(m[i as int] == type_model(items@[i as int]));
            crate::types::lemma_model_variant_u8(items@[i as int]);
            assert(byte_char(m[i as int]) == c);
            assert(m.take(i as int + 1) =~= m.take(i as int).push(m[i as int]));
            lemma_byte_chars_push(m.take(i as int), m[i as int]);
        }
        i += 1;
    }
    proof {
        assert(seq_model(items@).take(items@.len() as int) =~= seq_model(items@));
    }
    s
}

fn render_list(items: &Vec<Type>) -> (r: String)
    ensures
        r@ == display_list(seq_model(items@)),
    decreases items,
{
    broadcast use crate::types::lemma_seq_model_len, crate::types::lemma_seq_model_index;

    let mut s = String::new();
    proof {
        assert(seq_model(items@).take(0) =~= Seq::<TypeModel>::empty());
    }
    let mut i: usize = 0;
    while i < items.len()
        invariant
            i <= items@.len(),
            s@ == display_list(seq_model(items@).take(i as int)),
        decreases items@.len() - i,
    {
        if i > 0 {
            s.append(", ");
        }
        let piece = render_type(&items[i]);
        s.append(piece.as_str());
        proof {
            broadcast use crate::types::lemma_seq_model_len, crate::types::lemma_seq_model_index;

            let m = seq_model(items@);
            assert(m[i as int] == type_model(items@[i as int]));
            assert(m.take(i as int + 1) =~= m.take(i as int).push(m[i as int]));
            lemma_display_list_push(m.take(i as int), m[i as int]);
            assert(m.take(i as int).len() == i);
            assert(s@ =~= display_list(m.take(i as int + 1)));
        }
        i += 1;
    }
    proof {
        assert(seq_model(items@).take(items@.len() as int) =~= seq_model(items@));
    }
    s
}

fn render_type(t: &Type) -> (r: String)
    ensures
        r@ == type_display(type_model(*t)),
    decreases t,
{
    match t {
        Type::U8(v) => {
            let mut s = String::from_str("U8(");
            s.append(decimal_u128(*v as u128).as_str());
            s.append(")");
            proof {
                assert(s@ =~= type_display(type_model(*t)));
            }
            s
        },
        Type::U16(v) => {
            let mut s = String::from_str("U16(");
            s.append(decimal_u128(*v as u128).as_str());
            s.append(")");
            proof {
                assert(s@ =~= type_display(type_model(*t)));
            }
            s
        },
        Type::U32(v) => {
            let mut s = String::from_str("U32(");
            s.append(decimal_u128(*v as u128).as_str());
            s.append(")");
            proof {
                assert(s@ =~= type_display(type_model(*t)));
            }
            s
        },
        Type::U64(v) => {
            let mut s = String::from_str("U64(");
            s.append(decimal_u128(*v as u128).as_str());
            s.append(")");
            proof {
                assert(s@ =~= type_display(type_model(*t)));
            }
            s
        },
        Type::U128(v) => {
            let mut s = String::from_str("U128(");
            s.append(decimal_u128(*v).as_str());
            s.append(")");
            proof {
                assert(s@ =~= type_display(type_model(*t)));
            }
            s
        },
        Type::Bool(v) => {
            let mut s = String::from_str("Bool(");
            s.append(bool_str(*v));
            s.append(")");
            proof {
                assert(s@ =~= type_display(type_model(*t)));
            }
            s
        },
        Type::Vector(elem, items) => {
            let is_bytes = match &**elem {
                Type::U8(_) => true,
                _ => false,
            };
            proof {
                crate::types::lemma_model_variant_u8(**elem);
            }
            if is_bytes {
                if items.len() == 0 {
                    let s = String::from_str("Vector(U8)");
                    proof {
                        broadcast use crate::types::lemma_seq_model_len;

                        assert(type_model(*t) matches TypeModel::Vector(_, _));
                        assert(seq_model(items@).len() == 0);
                        assert(s@ =~= type_display(type_model(*t)));
                    }
                    s
                } else {
                    let mut s = String::from_str("Vector(U8, [");
                    let body = render_byte_items(items);
                    s.append(body.as_str());
                    s.append("])");
                    proof {
                        broadcast use crate::types::lemma_seq_model_len;

                        assert(s@ =~= type_display(type_model(*t)));
                    }
                    s
                }
            } else {
                let mut s = String::from_str("Vector([");
                let body = render_list(items);
                s.append(body.as_str());
                s.append("])");
                proof {
                    assert(s@ =~= type_display(type_model(*t)));
                }
                s
            }
        },
        Type::Struct(fields) => {
            if fields.len() == 0 {
                let s = String::from_str("Struct([])");
                proof {
                    broadcast use crate::types::lemma_seq_model_len;

                    assert(type_model(*t) matches TypeModel::Struct(_));
                    assert(seq_model(fields@).len() == 0);
                    assert(s@ =~= type_display(type_model(*t)));
                }
                s
            } else {
                let mut s = String::from_str("Struct([ ");
                let body = render_list(fields);
                s.append(body.as_str());
                s.append(" ])");
                proof {
                    broadcast use crate::types::lemma_seq_model_len;

                    assert(s@ =~= type_display(type_model(*t)));
                }
                s
            }
        },
        Type::Reference(mutable, referent) => {
            let mut s = String::from_str("Reference(");
            s.append(bool_str(*mutable));
            s.append(", ");
            let body = render_type(referent);
            s.append(body.as_str());
            s.append(")");
            proof {
                assert(s@ =~= type_display(type_model(*t)));
            }
            s
        },
        Type::Function(name, _, _) => {
            let mut s = String::from_str("Function(");
            s.append(name.as_str());
            s.append(")");
            proof {
                assert(s@ =~= type_display(type_model(*t)));
            }
            s
        },
    }
}

impl Type {
    /// The deterministic printable form of this value.
    pub fn display_string(&self) -> (r: String)
        ensures
            r@ == type_display(self@),
    {
        render_type(self)
    }
}

impl Parameters {
    /// The printable form of the parameter vector.
    pub fn display_string(&self) -> (r: String)
        ensures
            r@ == parameters_display(seq_model(self.0@)),
    {
        broadcast use crate::types::lemma_seq_model_len;

        if self.0.len() == 0 {
            String::from_str("[]")
        } else {
            let mut s = String::from_str("[ ");
            let body = render_list(&self.0);
            s.append(body.as_str());
            s.append(" ]");
            proof {
                assert(s@ =~= parameters_display(seq_model(self.0@)));
            }
            s
        }
    }
}

} // verus!
