use vstd::prelude::*;
use std::rc::Rc;
use crate::chunk::Chunk;
use crate::chunk::ChunkView;

verus! {

/// Functions built into the machine.
#[derive(PartialEq, Eq, Debug, Clone, Copy, Structural)]
pub enum Native {
    /// Writes its arguments, joined by spaces, on a line; returns `nil`.
    Print,
}

/// A value. A number is kept as its decimal text (as a literal spells it, or
/// as the arithmetic that produced it prints it).
#[derive(PartialEq, Debug, Clone)]
pub enum Value {
    Number(String),
    String(String),
    Fun(Rc<Chunk>),
    Bool(bool),
    Nil,
    NativeFn(Native),
}

/// The mathematical value of a value.
pub enum ValueView {
    Number(Seq<char>),
    String(Seq<char>),
    Fun(ChunkView),
    Bool(bool),
    Nil,
    NativeFn(Native),
}

/// Whether the decimal text `t` denotes zero: it has a zero digit, and no
/// character but zeros, a sign and a dot.
pub open spec fn number_is_zero(t: Seq<char>) -> bool {
    &&& exists|i: int| 0 <= i < t.len() && t[i] == '0'
    &&& forall|i: int| 0 <= i < t.len() ==> (t[i] == '0' || t[i] == '.' || t[i] == '-')
}

/// Whether the decimal text `t` denotes zero.
fn number_text_is_zero(t: &String) -> (r: bool)
    ensures
        r == number_is_zero(t@),
{
    let n = t.as_str().unicode_len();
    let mut i: usize = 0;
    let mut zero_digit = false;
    while i < n
        invariant
            n == t@.len(),
            0 <= i <= n,
            zero_digit == exists|k: int| 0 <= k < i && t@[k] == '0',
            forall|k: int| 0 <= k < i ==> (t@[k] == '0' || t@[k] == '.' || t@[k] == '-'),
        decreases n - i,
    {
        let c = t.as_str().get_char(i);
        if c == '0' {
            zero_digit = true;
        } else if c != '.' && c != '-' {
            return false;
        }
        i += 1;
    }
    zero_digit
}

/// Falsy values: `false`, `nil`, zero and the empty string. Functions are
/// always truthy.
pub open spec fn value_is_falsy(v: ValueView) -> bool {
    match v {
        ValueView::Number(t) => number_is_zero(t),
        ValueView::String(s) => s.len() == 0,
        ValueView::Fun(_) => false,
        ValueView::Bool(b) => !b,
        ValueView::Nil => true,
        ValueView::NativeFn(_) => false,
    }
}

/// `Rc::clone`: another pointer to the same chunk, so an equal value.
#[verifier::external_body]
pub(crate) fn share_chunk(c: &Rc<Chunk>) -> (r: Rc<Chunk>)
    ensures
        r == *c,
{
    Rc::clone(c)
}

/// How `print` shows a value: a number as its text, a string as its
/// characters, and `true`, `false`, `nil`, `<fn>`, `<native fn>`. A number's
/// text is the literal or the host's result as given; a host that writes
/// numbers in its own format (as the program does, in `f64`) rewrites the
/// text before the line is built.
pub open spec fn display_text(v: ValueView) -> Seq<char> {
    match v {
        ValueView::Number(t) => t,
        ValueView::String(s) => s,
        ValueView::Bool(b) => if b {
            seq!['t', 'r', 'u', 'e']
        } else {
            seq!['f', 'a', 'l', 's', 'e']
        },
        ValueView::Nil => seq!['n', 'i', 'l'],
        ValueView::Fun(_) => seq!['<', 'f', 'n', '>'],
        ValueView::NativeFn(_) => seq!['<', 'n', 'a', 't', 'i', 'v', 'e', ' ', 'f', 'n', '>'],
    }
}

impl Value {
    /// The text `print` shows for this value.
    pub fn to_display_string(&self) -> (s: String)
        ensures
            s@ == display_text(self.view_value()),
    {
        proof {
            reveal_strlit("true");
            reveal_strlit("false");
            reveal_strlit("nil");
            reveal_strlit("<fn>");
            reveal_strlit("<native fn>");
            assert("true"@ =~= seq!['t', 'r', 'u', 'e']);
            assert("false"@ =~= seq!['f', 'a', 'l', 's', 'e']);
            assert("nil"@ =~= seq!['n', 'i', 'l']);
            assert("<fn>"@ =~= seq!['<', 'f', 'n', '>']);
            assert("<native fn>"@ =~= seq!['<', 'n', 'a', 't', 'i', 'v', 'e', ' ', 'f', 'n', '>']);
        }
        match self {
            Value::Number(t) => t.clone(),
            Value::String(s) => s.clone(),
            Value::Bool(b) => if *b {
                String::from_str("true")
            } else {
                String::from_str("false")
            },
            Value::Nil => String::from_str("nil"),
            Value::Fun(_) => String::from_str("<fn>"),
            Value::NativeFn(_) => String::from_str("<native fn>"),
        }
    }

    /// A copy of this value; a function's chunk is shared, not copied.
    pub fn duplicate(&self) -> (r: Value)
        ensures
            r == *self,
    {
        match self {
            Value::Number(t) => Value::Number(t.clone()),
            Value::String(s) => Value::String(s.clone()),
            Value::Fun(c) => Value::Fun(share_chunk(c)),
            Value::Bool(b) => Value::Bool(*b),
            Value::Nil => Value::Nil,
            Value::NativeFn(n) => Value::NativeFn(*n),
        }
    }

    /// Whether this value counts as false in a condition: `false`, `nil`,
    /// a zero number and the empty string do.
    pub fn is_falsy(&self) -> (r: bool)
        ensures
            r == value_is_falsy(self.view_value()),
    {
        match self {
            Value::Number(t) => number_text_is_zero(t),
            Value::String(s) => s.as_str().unicode_len() == 0,
            Value::Fun(_) => false,
            Value::Bool(b) => !*b,
            Value::Nil => true,
            Value::NativeFn(_) => false,
        }
    }

    /// A number value with the text `text`.
    pub fn number_from(text: &String) -> (v: Value)
        ensures
            v.view_value() == ValueView::Number(text@),
    {
        Value::Number(text.clone())
    }

    /// A string value with the characters of `s`.
    pub fn string_from(s: &String) -> (v: Value)
        ensures
            v.view_value() == ValueView::String(s@),
    {
        Value::String(s.clone())
    }

    /// The mathematical value of this value.
    pub open spec fn view_value(&self) -> ValueView
        decreases self,
    {
        match self {
            Value::Number(t) => ValueView::Number(t@),
            Value::String(s) => ValueView::String(s@),
            Value::Fun(c) => ValueView::Fun(
                ChunkView {
                    code: c.code@,
                    lines: c.line@,
                    constants: Seq::new(
                        c.constants@.len(),
                        |i: int|
                            if 0 <= i < c.constants@.len() {
                                c.constants@[i].view_value()
                            } else {
                                ValueView::Nil
                            },
                    ),
                    arity: c.arity as nat,
                },
            ),
            Value::Bool(b) => ValueView::Bool(*b),
            Value::Nil => ValueView::Nil,
            Value::NativeFn(n) => ValueView::NativeFn(*n),
        }
    }
}

/// A function value's view is the view of its chunk.
pub proof fn lemma_fun_view(v: &Value)
    ensures
        match v {
            Value::Fun(c) => v.view_value() == ValueView::Fun(c.view_chunk()),
            _ => true,
        },
{
    match v {
        Value::Fun(c) => {
            assert(v.view_value()->Fun_0.constants =~= c.view_chunk().constants);
        },
        _ => {},
    }
}

} // verus!
