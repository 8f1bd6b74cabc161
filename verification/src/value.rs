use vstd::prelude::*;

use crate::floats::{float_key, key, FloatArith};
use crate::text::{chars_equal, copy_chars, push_chars, push_int, push_str, int_text};

verus! {

/// The type a variable is declared with. The length of an array is not part of its type.
#[derive(Debug, PartialEq, Eq)]
pub enum Type {
    Int,
    Float,
    Bool,
    Char,
    String,
    Array(Box<Type>),
}

/// A value held by a variable. A float is kept as its IEEE-754 binary64 bit pattern.
#[derive(Debug)]
pub enum Value {
    Int(i64),
    Float(u64),
    Bool(bool),
    Char(char),
    String(Vec<char>),
    Array(Vec<Value>),
}

/// The mathematical content of a value: text as a sequence of characters and an array as a
/// sequence of contents.
pub enum Content {
    Int(i64),
    Float(u64),
    Bool(bool),
    Char(char),
    String(Seq<char>),
    Array(Seq<Content>),
}

/// The content of a value.
pub open spec fn content(v: Value) -> Content
    decreases v,
{
    match v {
        Value::Int(i) => Content::Int(i),
        Value::Float(b) => Content::Float(b),
        Value::Bool(b) => Content::Bool(b),
        Value::Char(c) => Content::Char(c),
        Value::String(s) => Content::String(s@),
        Value::Array(vs) => Content::Array(contents(vs@)),
    }
}

/// The contents of a sequence of values, element by element.
pub open spec fn contents(vs: Seq<Value>) -> Seq<Content>
    decreases vs,
{
    if vs.len() == 0 {
        Seq::empty()
    } else {
        seq![content(vs[0])] + contents(vs.drop_first())
    }
}

/// The contents of values have the same length, element by element.
pub proof fn lemma_contents(vs: Seq<Value>)
    ensures
        contents(vs).len() == vs.len(),
        forall|k: int| 0 <= k < vs.len() ==> #[trigger] contents(vs)[k] == content(vs[k]),
    decreases vs.len(),
{
    if vs.len() > 0 {
        lemma_contents(vs.drop_first());
        assert forall|k: int| 0 <= k < vs.len() implies #[trigger] contents(vs)[k] == content(vs[k]) by {
            if k > 0 {
                assert(vs.drop_first()[k - 1] == vs[k]);
            }
        }
    }
}

impl View for Value {
    type V = Content;

    open spec fn view(&self) -> Content {
        content(*self)
    }
}

/// Type equality.
pub fn same_type(a: &Type, b: &Type) -> (r: bool)
    ensures
        r == (*a == *b),
    decreases a,
{
    match (a, b) {
        (Type::Int, Type::Int) => true,
        (Type::Float, Type::Float) => true,
        (Type::Bool, Type::Bool) => true,
        (Type::Char, Type::Char) => true,
        (Type::String, Type::String) => true,
        (Type::Array(x), Type::Array(y)) => same_type(x, y),
        _ => false,
    }
}

/// A copy of a type.
pub fn copy_type(t: &Type) -> (r: Type)
    ensures
        r == *t,
    decreases t,
{
    match t {
        Type::Int => Type::Int,
        Type::Float => Type::Float,
        Type::Bool => Type::Bool,
        Type::Char => Type::Char,
        Type::String => Type::String,
        Type::Array(e) => Type::Array(Box::new(copy_type(e))),
    }
}

/// How a type is written in a program: `int`, `float`, `bool`, `char`, `string`,
/// and an array type as its element type followed by `[]`.
pub open spec fn type_text(t: Type) -> Seq<char>
    decreases t,
{
    match t {
        Type::Int => "int"@,
        Type::Float => "float"@,
        Type::Bool => "bool"@,
        Type::Char => "char"@,
        Type::String => "string"@,
        Type::Array(e) => type_text(*e) + "[]"@,
    }
}

/// Appends the written form of a type.
pub fn push_type(out: &mut Vec<char>, t: &Type)
    ensures
        final(out)@ == old(out)@ + type_text(*t),
    decreases t,
{
    match t {
        Type::Int => push_str(out, "int"),
        Type::Float => push_str(out, "float"),
        Type::Bool => push_str(out, "bool"),
        Type::Char => push_str(out, "char"),
        Type::String => push_str(out, "string"),
        Type::Array(e) => {
            let ghost before = out@;
            push_type(out, e);
            push_str(out, "[]");
            assert(out@ == before + (type_text(**e) + "[]"@));
        },
    }
}

/// The type of a value; an array's type comes from its first element, so an empty array has none.
pub open spec fn value_type_of(v: Value) -> Option<Type>
    decreases v,
{
    match v {
        Value::Int(_) => Some(Type::Int),
        Value::Float(_) => Some(Type::Float),
        Value::Bool(_) => Some(Type::Bool),
        Value::Char(_) => Some(Type::Char),
        Value::String(_) => Some(Type::String),
        Value::Array(vs) => if vs@.len() == 0 {
            None
        } else {
            match value_type_of(vs@[0]) {
                Some(t) => Some(Type::Array(Box::new(t))),
                None => None,
            }
        },
    }
}

impl Value {
    /// The type of this value, or `None` for an array whose first element (at any depth) is empty.
    pub fn value_type(&self) -> (r: Option<Type>)
        ensures
            r == value_type_of(*self),
        decreases self,
    {
        match self {
            Value::Int(_) => Some(Type::Int),
            Value::Float(_) => Some(Type::Float),
            Value::Bool(_) => Some(Type::Bool),
            Value::Char(_) => Some(Type::Char),
            Value::String(_) => Some(Type::String),
            Value::Array(vs) => {
                if vs.len() == 0 {
                    None
                } else {
                    assert(decreases_to!(*self => vs@[0]));
                    match vs[0].value_type() {
                        Some(t) => Some(Type::Array(Box::new(t))),
                        None => None,
                    }
                }
            },
        }
    }
}

/// A deep copy of a value.
pub fn copy_value(v: &Value) -> (r: Value)
    ensures
        r@ == v@,
    decreases v,
{
    match v {
        Value::Int(i) => Value::Int(*i),
        Value::Float(b) => Value::Float(*b),
        Value::Bool(b) => Value::Bool(*b),
        Value::Char(c) => Value::Char(*c),
        Value::String(s) => Value::String(copy_chars(s)),
        Value::Array(vs) => {
            let mut out: Vec<Value> = Vec::new();
            let mut k: usize = 0;
            proof {
                lemma_contents(vs@);
            }
            while k < vs.len()
                invariant
                    *v == Value::Array(*vs),
                    k <= vs@.len(),
                    out@.len() == k,
                    forall|j: int| 0 <= j < k ==> (#[trigger] out@[j])@ == vs@[j]@,
                decreases vs@.len() - k,
            {
                proof {
                    let w = v->Array_0;
                    assert(decreases_to!(*v => v->Array_0));
                    assert(decreases_to!(w => w@));
                    assert(decreases_to!(w@ => w@[k as int]));
                }
                let e = copy_value(&vs[k]);
                out.push(e);
                k = k + 1;
            }
            proof {
                lemma_contents(out@);
                lemma_contents(vs@);
                assert(contents(out@) =~= contents(vs@));
            }
            Value::Array(out)
        },
    }
}


/// Equality of contents as the language's `==` sees it: same kind and same data, floats by
/// numeric value (so `0.0 == -0.0`), arrays element by element with equal lengths.
pub open spec fn content_equal(a: Content, b: Content) -> bool
    decreases a,
{
    match (a, b) {
        (Content::Int(x), Content::Int(y)) => x == y,
        (Content::Float(x), Content::Float(y)) => float_key(x) == float_key(y),
        (Content::Bool(x), Content::Bool(y)) => x == y,
        (Content::Char(x), Content::Char(y)) => x == y,
        (Content::String(x), Content::String(y)) => x == y,
        (Content::Array(xs), Content::Array(ys)) => xs.len() == ys.len() && forall|k: int|
            0 <= k < xs.len() ==> content_equal(#[trigger] xs[k], ys[k]),
        _ => false,
    }
}

/// The language's `==` on two values.
pub fn values_equal(a: &Value, b: &Value) -> (r: bool)
    ensures
        r == content_equal(a@, b@),
    decreases a,
{
    match (a, b) {
        (Value::Int(x), Value::Int(y)) => *x == *y,
        (Value::Float(x), Value::Float(y)) => key(*x) == key(*y),
        (Value::Bool(x), Value::Bool(y)) => *x == *y,
        (Value::Char(x), Value::Char(y)) => *x == *y,
        (Value::String(x), Value::String(y)) => chars_equal(x, y),
        (Value::Array(xs), Value::Array(ys)) => {
            proof {
                lemma_contents(xs@);
                lemma_contents(ys@);
            }
            if xs.len() != ys.len() {
                return false;
            }
            let mut k: usize = 0;
            while k < xs.len()
                invariant
                    *a == Value::Array(*xs),
                    *b == Value::Array(*ys),
                    xs@.len() == ys@.len(),
                    k <= xs@.len(),
                    contents(xs@).len() == xs@.len(),
                    contents(ys@).len() == ys@.len(),
                    forall|j: int| 0 <= j < xs@.len() ==> #[trigger] contents(xs@)[j] == xs@[j]@,
                    forall|j: int| 0 <= j < ys@.len() ==> #[trigger] contents(ys@)[j] == ys@[j]@,
                    forall|j: int| 0 <= j < k ==> content_equal(#[trigger] contents(xs@)[j], contents(ys@)[j]),
                decreases xs@.len() - k,
            {
                proof {
                    let w = a->Array_0;
                    assert(decreases_to!(*a => a->Array_0));
                    assert(decreases_to!(w => w@));
                    assert(decreases_to!(w@ => w@[k as int]));
                }
                if !values_equal(&xs[k], &ys[k]) {
                    assert(contents(xs@)[k as int] == xs@[k as int]@);
                    assert(contents(ys@)[k as int] == ys@[k as int]@);
                    assert(!content_equal(contents(xs@)[k as int], contents(ys@)[k as int]));
                    return false;
                }
                assert(contents(xs@)[k as int] == xs@[k as int]@);
                k = k + 1;
            }
            true
        },
        _ => false,
    }
}

/// How a value is printed: integers in decimal, booleans as `true`/`false`, characters and
/// strings as their text, arrays between brackets with elements separated by `, ` and with
/// quotes around string and character elements. Floats are printed by the host (see
/// `FloatArith::render`), so their text is left open here.
pub open spec fn display(c: Content) -> Seq<char>
    decreases c,
{
    match c {
        Content::Int(i) => int_text(i as int),
        Content::Float(_) => Seq::empty(),
        Content::Bool(b) => if b { "true"@ } else { "false"@ },
        Content::Char(ch) => seq![ch],
        Content::String(s) => s,
        Content::Array(xs) => seq!['['] + list_text(xs) + seq![']'],
    }
}

/// The elements of an array as printed between its brackets.
pub open spec fn list_text(xs: Seq<Content>) -> Seq<char>
    decreases xs,
{
    if xs.len() == 0 {
        Seq::empty()
    } else {
        let prefix = if xs.len() == 1 { Seq::empty() } else { list_text(xs.drop_last()) + ", "@ };
        prefix + element_text(xs.last(), display(xs.last()))
    }
}

/// How an array element is printed, given its printed form `plain` when it stands alone:
/// strings and characters get their quotes back.
pub open spec fn element_text(c: Content, plain: Seq<char>) -> Seq<char> {
    match c {
        Content::String(s) => seq!['"'] + s + seq!['"'],
        Content::Char(ch) => seq!['\'', ch, '\''],
        _ => plain,
    }
}

proof fn lemma_no_float_element(cs: Seq<Content>, k: int)
    requires
        !any_float(cs),
        0 <= k < cs.len(),
    ensures
        !has_float(cs[k]),
    decreases cs.len(),
{
    if k < cs.len() - 1 {
        assert(cs.drop_last()[k] == cs[k]);
        lemma_no_float_element(cs.drop_last(), k);
    }
}

proof fn lemma_list_text_step(cs: Seq<Content>, k: int)
    requires
        0 <= k < cs.len(),
    ensures
        list_text(cs.take(k + 1)) == (if k == 0 { Seq::empty() } else { list_text(cs.take(k)) + ", "@ })
            + element_text(cs[k], display(cs[k])),
{
    let t = cs.take(k + 1);
    assert(t.drop_last() == cs.take(k));
    assert(t.last() == cs[k]);
}

/// Whether a float occurs in the content, at any depth.
pub open spec fn has_float(c: Content) -> bool
    decreases c,
{
    match c {
        Content::Float(_) => true,
        Content::Array(xs) => any_float(xs),
        _ => false,
    }
}

/// Whether a float occurs in some element of the sequence, at any depth.
pub open spec fn any_float(xs: Seq<Content>) -> bool
    decreases xs,
{
    if xs.len() == 0 {
        false
    } else {
        has_float(xs.last()) || any_float(xs.drop_last())
    }
}

/// Whether a content is a value of a type: a basic value of its own type, or an array whose
/// elements are all of the element type.
pub open spec fn has_type(c: Content, t: Type) -> bool
    decreases c,
{
    match (c, t) {
        (Content::Int(_), Type::Int) => true,
        (Content::Float(_), Type::Float) => true,
        (Content::Bool(_), Type::Bool) => true,
        (Content::Char(_), Type::Char) => true,
        (Content::String(_), Type::String) => true,
        (Content::Array(xs), Type::Array(e)) => forall|k: int| 0 <= k < xs.len() ==> has_type(#[trigger] xs[k], *e),
        _ => false,
    }
}

/// The language's `==` is an equivalence: every value equals itself, and equality is symmetric
/// and transitive.
pub proof fn lemma_equality_is_equivalence(a: Content, b: Content, c: Content)
    ensures
        content_equal(a, a),
        content_equal(a, b) == content_equal(b, a),
        content_equal(a, b) && content_equal(b, c) ==> content_equal(a, c),
    decreases a,
{
    match a {
        Content::Array(xs) => {
            assert forall|k: int| 0 <= k < xs.len() implies content_equal(#[trigger] xs[k], xs[k]) by {
                lemma_equality_is_equivalence(xs[k], xs[k], xs[k]);
            }
            match (b, c) {
                (Content::Array(ys), Content::Array(zs)) => {
                    if xs.len() == ys.len() {
                        assert forall|k: int| 0 <= k < xs.len() implies content_equal(#[trigger] xs[k], ys[k])
                            == content_equal(ys[k], xs[k]) by {
                            lemma_equality_is_equivalence(xs[k], ys[k], ys[k]);
                        }
                    }
                    if content_equal(a, b) && content_equal(b, c) {
                        assert forall|k: int| 0 <= k < xs.len() implies content_equal(#[trigger] xs[k], zs[k]) by {
                            assert(content_equal(xs[k], ys[k]));
                            assert(content_equal(ys[k], zs[k]));
                            lemma_equality_is_equivalence(xs[k], ys[k], zs[k]);
                        }
                    }
                },
                (Content::Array(ys), _) => {
                    if xs.len() == ys.len() {
                        assert forall|k: int| 0 <= k < xs.len() implies content_equal(#[trigger] xs[k], ys[k])
                            == content_equal(ys[k], xs[k]) by {
                            lemma_equality_is_equivalence(xs[k], ys[k], ys[k]);
                        }
                    }
                },
                _ => {},
            }
        },
        _ => {},
    }
}

/// Appends the printed form of a value. Floats are printed by the host.
pub fn push_value<F: FloatArith>(out: &mut Vec<char>, v: &Value, floats: &F)
    ensures
        !has_float(v@) ==> final(out)@ == old(out)@ + display(v@),
        old(out)@.is_prefix_of(final(out)@),
    decreases v, 0nat,
{
    match v {
        Value::Int(i) => push_int(out, *i),
        Value::Float(b) => {
            let text = floats.render(*b);
            push_chars(out, &text);
        },
        Value::Bool(b) => if *b {
            push_str(out, "true")
        } else {
            push_str(out, "false")
        },
        Value::Char(c) => out.push(*c),
        Value::String(s) => push_chars(out, s),
        Value::Array(xs) => {
            let ghost start = out@;
            proof {
                lemma_contents(xs@);
            }
            out.push('[');
            let mut k: usize = 0;
            while k < xs.len()
                invariant
                    *v == Value::Array(*xs),
                    k <= xs@.len(),
                    contents(xs@).len() == xs@.len(),
                    forall|j: int| 0 <= j < xs@.len() ==> #[trigger] contents(xs@)[j] == xs@[j]@,
                    !has_float(v@) ==> out@ == start + seq!['['] + list_text(contents(xs@).take(k as int)),
                    start.is_prefix_of(out@),
                decreases xs@.len() - k,
            {
                proof {
                    let w = v->Array_0;
                    assert(decreases_to!(*v => v->Array_0));
                    assert(decreases_to!(w => w@));
                    assert(decreases_to!(w@ => w@[k as int]));
                }
                let ghost before = out@;
                if k > 0 {
                    push_str(out, ", ");
                }
                let ghost middle = out@;
                push_element(out, &xs[k], floats);
                proof {
                    let cs = contents(xs@);
                    lemma_list_text_step(cs, k as int);
                    if !has_float(v@) {
                        assert(v@ == Content::Array(cs));
                        lemma_no_float_element(cs, k as int);
                        assert(out@ == start + seq!['['] + list_text(cs.take(k + 1)));
                    }
                }
                k = k + 1;
            }
            out.push(']');
            proof {
                assert(contents(xs@).take(xs@.len() as int) == contents(xs@));
            }
        },
    }
}


/// Appends an array element as printed inside its array.
fn push_element<F: FloatArith>(out: &mut Vec<char>, v: &Value, floats: &F)
    ensures
        !has_float(v@) ==> final(out)@ == old(out)@ + element_text(v@, display(v@)),
        old(out)@.is_prefix_of(final(out)@),
    decreases v, 1nat,
{
    match v {
        Value::String(s) => {
            out.push('"');
            push_chars(out, s);
            out.push('"');
        },
        Value::Char(c) => {
            out.push('\'');
            out.push(*c);
            out.push('\'');
        },
        other => push_value(out, other, floats),
    }
}

}
