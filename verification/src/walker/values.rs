//! Runtime values.
use crate::shared::scanner::Token;
use crate::walker::ast::Stmt;
use vstd::prelude::*;

verus! {

/// The functions that the interpreter brings with it.
#[derive(Clone, Copy, Debug, PartialEq, Eq, Structural)]
pub enum Native {
    /// `clock()`: the seconds since the epoch.
    Clock,
    /// `tsp2cup(teaspoons)`: teaspoons in cups, a 48th.
    Tsp2Cup,
}

impl Native {
    /// The name under which the function is defined.
    pub open spec fn name(self) -> Seq<char> {
        match self {
            Native::Clock => "clock"@,
            Native::Tsp2Cup => "tsp2cup"@,
        }
    }

    /// The number of arguments that the function takes.
    pub open spec fn arity(self) -> usize {
        match self {
            Native::Clock => 0,
            Native::Tsp2Cup => 1,
        }
    }

    /// The name under which the function is defined.
    pub fn as_str(&self) -> (r: &'static str)
        ensures
            r@ == self.name(),
    {
        match self {
            Native::Clock => "clock",
            Native::Tsp2Cup => "tsp2cup",
        }
    }

    /// The number of arguments that the function takes.
    pub fn expects(&self) -> (r: usize)
        ensures
            r == self.arity(),
    {
        match self {
            Native::Clock => 0,
            Native::Tsp2Cup => 1,
        }
    }
}

/// A runtime value.
///
/// A number is held as the bits of an IEEE-754 double; arithmetic on it is the
/// host's. A string and an instance are handles into the interpreter's stores,
/// a closure is the handle of the environment frame that was innermost where
/// the function or class was declared. A function that is a method of a class
/// and is not yet bound to an instance is marked as such: it is bound when it
/// is read from an instance.
#[derive(Clone, Copy, Debug)]
#[allow(inconsistent_fields)]
pub enum Value<'a> {
    Number(u64),
    String(usize),
    Boolean(bool),
    Nil,
    NativeFunction { native: Native },
    Function {
        id: usize,
        name: &'a Token,
        params: &'a Vec<Token>,
        body: &'a Vec<Stmt>,
        closure: usize,
        method: bool,
    },
    Class { id: usize, name: &'a Token, methods: &'a Vec<Stmt>, closure: usize },
    Instance { handle: usize },
}

impl<'a> Value<'a> {
    /// Truthiness: `false` and `nil` count as false, every other value as
    /// true, zero and the empty string too.
    pub open spec fn truthy(self) -> bool {
        match self {
            Value::Boolean(b) => b,
            Value::Nil => false,
            _ => true,
        }
    }

    /// The name of the value's kind.
    pub open spec fn kind(self) -> Seq<char> {
        match self {
            Value::Number(_) => "Number"@,
            Value::String(_) => "String"@,
            Value::Boolean(_) => "Boolean"@,
            Value::Nil => "Nil"@,
            Value::NativeFunction { .. } => "NativeFunction"@,
            Value::Function { .. } => "Function"@,
            Value::Class { .. } => "Class"@,
            Value::Instance { .. } => "Instance"@,
        }
    }

    /// Whether the value counts as true.
    pub fn is_truthy(&self) -> (r: bool)
        ensures
            r == self.truthy(),
            r == !(*self is Nil || *self == Value::<'a>::Boolean(false)),
    {
        match self {
            Value::Boolean(b) => *b,
            Value::Nil => false,
            _ => true,
        }
    }

    /// The name of the value's kind.
    pub fn as_ref(&self) -> (r: &'static str)
        ensures
            r@ == self.kind(),
    {
        match self {
            Value::Number(_) => "Number",
            Value::String(_) => "String",
            Value::Boolean(_) => "Boolean",
            Value::Nil => "Nil",
            Value::NativeFunction { .. } => "NativeFunction",
            Value::Function { .. } => "Function",
            Value::Class { .. } => "Class",
            Value::Instance { .. } => "Instance",
        }
    }
}

} // verus!
