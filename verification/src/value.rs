//! Run-time values, scopes and function definitions, with their views.
use std::rc::Rc;
use vstd::prelude::*;

use crate::ast::{block_view, strings_view, Block};
use crate::number::{equal_numbers, Order};
use crate::numtext::display_number;
use crate::semantics::{equal_values, kind_name, text_order, truthy, value_text, FunV, ScopeV, ValueV};
use crate::text::{append_str, lit};

verus! {

/// A function created by running a declaration: its name, parameters, body,
/// and the scope it was declared in.
pub struct FunctionDef {
    pub name: String,
    pub params: Vec<String>,
    pub body: Rc<Block>,
    pub closure: usize,
}

#[derive(Debug, Clone)]
pub enum Value {
    /// A number, held as its binary64 bit pattern.
    Number(u64),
    Str(String),
    Bool(bool),
    Nil,
    /// A function: its index among the session's functions, and its name.
    Function(usize, String),
}

impl View for Value {
    type V = ValueV;

    open spec fn view(&self) -> ValueV {
        match self {
            Value::Number(b) => ValueV::Number(*b),
            Value::Str(s) => ValueV::Str(s@),
            Value::Bool(b) => ValueV::Bool(*b),
            Value::Nil => ValueV::Nil,
            Value::Function(i, n) => ValueV::Function(*i as nat, n@),
        }
    }
}

pub open spec fn fun_view(f: FunctionDef) -> FunV {
    FunV { name: f.name@, params: strings_view(f.params@), body: block_view((*f.body)@), closure: f.closure as nat }
}

/// A scope: its variables, and the scope it was opened in.
pub struct Scope {
    pub vars: Vec<(String, Value)>,
    pub parent: Option<usize>,
}

/// The variables as a map; a later entry for a name wins over an earlier one.
pub open spec fn vars_map(v: Seq<(String, Value)>) -> Map<Seq<char>, ValueV>
    decreases v.len(),
{
    if v.len() == 0 {
        Map::empty()
    } else {
        vars_map(v.drop_last()).insert(v.last().0@, v.last().1@)
    }
}

pub open spec fn scope_view(s: Scope) -> ScopeV {
    ScopeV {
        vars: vars_map(s.vars@),
        parent: match s.parent {
            Some(p) => Some(p as nat),
            None => None,
        },
    }
}

/// The last index whose name is `k`, or -1.
pub open spec fn last_index(v: Seq<(String, Value)>, k: Seq<char>) -> int
    decreases v.len(),
{
    if v.len() == 0 {
        -1
    } else if v.last().0@ == k {
        v.len() - 1
    } else {
        last_index(v.drop_last(), k)
    }
}

pub proof fn lemma_last_index(v: Seq<(String, Value)>, k: Seq<char>)
    ensures
        -1 <= last_index(v, k) < v.len(),
        last_index(v, k) >= 0 ==> v[last_index(v, k)].0@ == k,
        forall|j: int| last_index(v, k) < j < v.len() ==> v[j].0@ != k,
        vars_map(v).contains_key(k) <==> last_index(v, k) >= 0,
        last_index(v, k) >= 0 ==> vars_map(v)[k] == v[last_index(v, k)].1@,
    decreases v.len(),
{
    if v.len() > 0 {
        lemma_last_index(v.drop_last(), k);
        if v.last().0@ != k {
            assert forall|j: int| last_index(v, k) < j < v.len() implies v[j].0@ != k by {
                if j < v.len() - 1 {
                    assert(v[j] == v.drop_last()[j]);
                }
            }
        }
    }
}

/// Replacing the value at the last entry for a name updates the map at that name.
pub proof fn lemma_vars_update(v: Seq<(String, Value)>, k: Seq<char>, entry: (String, Value))
    requires
        last_index(v, k) >= 0,
        entry.0@ == k,
    ensures
        vars_map(v.update(last_index(v, k), entry)) == vars_map(v).insert(k, entry.1@),
    decreases v.len(),
{
    lemma_last_index(v, k);
    let i = last_index(v, k);
    let u = v.update(i, entry);
    if i == v.len() - 1 {
        assert(u.drop_last() =~= v.drop_last());
        assert(vars_map(u) =~= vars_map(v).insert(k, entry.1@));
    } else {
        assert(v.last().0@ != k);
        assert(last_index(v.drop_last(), k) == i);
        lemma_vars_update(v.drop_last(), k, entry);
        assert(u.drop_last() =~= v.drop_last().update(i, entry));
        assert(vars_map(u) =~= vars_map(v).insert(k, entry.1@));
    }
}

impl Value {
    /// A copy of the value.
    pub fn duplicate(&self) -> (r: Value)
        ensures
            r@ == self@,
    {
        match self {
            Value::Number(b) => Value::Number(*b),
            Value::Str(s) => Value::Str(s.clone()),
            Value::Bool(b) => Value::Bool(*b),
            Value::Nil => Value::Nil,
            Value::Function(i, n) => Value::Function(*i, n.clone()),
        }
    }

    /// `false` and `nil` are falsy, everything else is truthy.
    pub fn is_truthy(&self) -> (r: bool)
        ensures
            r == truthy(self@),
    {
        match self {
            Value::Bool(b) => *b,
            Value::Nil => false,
            _ => true,
        }
    }

    /// The name of the value's type, as error messages use it.
    pub fn kind(&self) -> (r: String)
        ensures
            r@ == kind_name(self@),
    {
        match self {
            Value::Number(_) => lit("number"),
            Value::Str(_) => lit("string"),
            Value::Bool(_) => lit("bool"),
            Value::Nil => lit("nil"),
            Value::Function(_, _) => lit("function"),
        }
    }

    /// The text of the value, as `print` shows it: numbers in the shortest
    /// decimal form that reads back to the same value (`14`, `0.1`), strings
    /// as they are, `true`, `false`, `nil`, and `<fn name>` for functions.
    pub fn to_string(&self) -> (r: String)
        ensures
            r@ == value_text(self@),
    {
        match self {
            Value::Number(b) => display_number(*b),
            Value::Str(s) => s.clone(),
            Value::Bool(b) => if *b { lit("true") } else { lit("false") },
            Value::Nil => lit("nil"),
            Value::Function(_, n) => {
                let mut s = lit("<fn ");
                append_str(&mut s, n.as_str());
                append_str(&mut s, ">");
                s
            },
        }
    }

    /// Equality by value; values of different types are never equal.
    pub fn values_equal(&self, other: &Value) -> (r: bool)
        ensures
            r == equal_values(self@, other@),
    {
        match self {
            Value::Number(a) => match other {
                Value::Number(b) => equal_numbers(*a, *b),
                _ => false,
            },
            Value::Str(a) => match other {
                Value::Str(b) => *a == *b,
                _ => false,
            },
            Value::Bool(a) => match other {
                Value::Bool(b) => *a == *b,
                _ => false,
            },
            Value::Nil => match other {
                Value::Nil => true,
                _ => false,
            },
            Value::Function(i, _) => match other {
                Value::Function(j, _) => *i == *j,
                _ => false,
            },
        }
    }
}

/// Lexicographic comparison of two strings by character (`String`'s `Ord`).
pub fn compare_text(a: &String, b: &String) -> (r: Order)
    ensures
        r == text_order(a@, b@),
{
    let x = crate::text::chars_of(a.as_str());
    let y = crate::text::chars_of(b.as_str());
    let mut i: usize = 0;
    assert(x@.skip(0) =~= x@);
    assert(y@.skip(0) =~= y@);
    while i < x.len() && i < y.len() && x[i] == y[i]
        invariant
            i <= x.len(),
            i <= y.len(),
            x@ == a@,
            y@ == b@,
            text_order(a@, b@) == text_order(x@.skip(i as int), y@.skip(i as int)),
        decreases x.len() - i,
    {
        proof {
            assert(x@.skip(i as int).drop_first() =~= x@.skip(i + 1));
            assert(y@.skip(i as int).drop_first() =~= y@.skip(i + 1));
        }
        i = i + 1;
    }
    proof {
        assert(x@.skip(i as int).len() == x.len() - i);
        assert(y@.skip(i as int).len() == y.len() - i);
        if i < x.len() {
            assert(x@.skip(i as int)[0] == x@[i as int]);
        }
        if i < y.len() {
            assert(y@.skip(i as int)[0] == y@[i as int]);
        }
    }
    let ghost xs = x@.skip(i as int);
    let ghost ys = y@.skip(i as int);
    if i == x.len() {
        if i == y.len() {
            assert(text_order(xs, ys) == Order::Equal);
            Order::Equal
        } else {
            assert(text_order(xs, ys) == Order::Less);
            Order::Less
        }
    } else if i == y.len() {
        assert(text_order(xs, ys) == Order::Greater);
        Order::Greater
    } else if x[i] < y[i] {
        assert(text_order(xs, ys) == Order::Less);
        Order::Less
    } else {
        assert(text_order(xs, ys) == Order::Greater);
        Order::Greater
    }
}

} // verus!
