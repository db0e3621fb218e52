//! The type language of field declarations and the capabilities each type
//! offers to the engine.
use vstd::prelude::*;

verus! {

/// The type of a field.
#[derive(Debug, PartialEq, Eq)]
pub enum Shape {
    /// A built-in integer: encoded the same way in both modes, without ever
    /// consulting the context.
    Int,
    /// A leaf whose own logic needs the context: it reports its integer to
    /// the context each time it is encoded or decoded. Stateful mode only.
    Counted,
    /// A leaf with context-free logic only. Stateless mode only.
    Plain,
    /// A zero-sized marker: encoded as `null`.
    Phantom,
    /// A sequence of elements.
    List(Box<Shape>),
    /// An optional value: `null` when absent, the bare inner encoding when present.
    Maybe(Box<Shape>),
    /// Owned indirection: encoded exactly as its content.
    Boxed(Box<Shape>),
    /// A pair: a two-element array.
    Pair(Box<Shape>, Box<Shape>),
    /// A declared type, by its index in the registry.
    Named(usize),
}

impl Shape {
    /// A copy of this type.
    pub fn duplicate(&self) -> (r: Shape)
        ensures
            r == *self,
        decreases self,
    {
        match self {
            Shape::Int => Shape::Int,
            Shape::Counted => Shape::Counted,
            Shape::Plain => Shape::Plain,
            Shape::Phantom => Shape::Phantom,
            Shape::List(t) => Shape::List(Box::new(t.duplicate())),
            Shape::Maybe(t) => Shape::Maybe(Box::new(t.duplicate())),
            Shape::Boxed(t) => Shape::Boxed(Box::new(t.duplicate())),
            Shape::Pair(a, b) => Shape::Pair(Box::new(a.duplicate()), Box::new(b.duplicate())),
            Shape::Named(i) => Shape::Named(*i),
        }
    }
}

/// Can be encoded and decoded with the context (stateful mode).
pub open spec fn stateful_capable(s: Shape, n_types: nat) -> bool
    decreases s,
{
    match s {
        Shape::Int => true,
        Shape::Counted => true,
        Shape::Plain => false,
        Shape::Phantom => true,
        Shape::List(t) => stateful_capable(*t, n_types),
        Shape::Maybe(t) => stateful_capable(*t, n_types),
        Shape::Boxed(t) => stateful_capable(*t, n_types),
        Shape::Pair(a, b) => stateful_capable(*a, n_types) && stateful_capable(*b, n_types),
        Shape::Named(i) => i < n_types,
    }
}

/// Can be encoded and decoded through the context-free protocol.
pub open spec fn stateless_capable(s: Shape) -> bool
    decreases s,
{
    match s {
        Shape::Int => true,
        Shape::Counted => false,
        Shape::Plain => true,
        Shape::Phantom => true,
        Shape::List(t) => stateless_capable(*t),
        Shape::Maybe(t) => stateless_capable(*t),
        Shape::Boxed(t) => stateless_capable(*t),
        Shape::Pair(a, b) => stateless_capable(*a) && stateless_capable(*b),
        Shape::Named(_) => false,
    }
}

/// Has a default value, which a skipped field takes on decode.
pub open spec fn default_capable(s: Shape) -> bool
    decreases s,
{
    match s {
        Shape::Int => true,
        Shape::Counted => false,
        Shape::Plain => true,
        Shape::Phantom => true,
        Shape::List(_) => true,
        Shape::Maybe(_) => true,
        Shape::Boxed(t) => default_capable(*t),
        Shape::Pair(a, b) => default_capable(*a) && default_capable(*b),
        Shape::Named(_) => false,
    }
}

/// Holds an integer, which a hook transforms.
pub open spec fn hook_capable(s: Shape) -> bool {
    s is Int || s is Counted || s is Plain
}

/// The registry indices that decoding may reach from `s` without entering a
/// nested wire value all lie below `bound`.
pub open spec fn heads_below(s: Shape, bound: nat) -> bool
    decreases s,
{
    match s {
        Shape::Maybe(t) => heads_below(*t, bound),
        Shape::Boxed(t) => heads_below(*t, bound),
        Shape::Named(i) => i < bound,
        _ => true,
    }
}

pub fn is_stateful_capable(s: &Shape, n_types: usize) -> (r: bool)
    ensures
        r == stateful_capable(*s, n_types as nat),
    decreases s,
{
    match s {
        Shape::Int => true,
        Shape::Counted => true,
        Shape::Plain => false,
        Shape::Phantom => true,
        Shape::List(t) => is_stateful_capable(t, n_types),
        Shape::Maybe(t) => is_stateful_capable(t, n_types),
        Shape::Boxed(t) => is_stateful_capable(t, n_types),
        Shape::Pair(a, b) => is_stateful_capable(a, n_types) && is_stateful_capable(b, n_types),
        Shape::Named(i) => *i < n_types,
    }
}

pub fn is_stateless_capable(s: &Shape) -> (r: bool)
    ensures
        r == stateless_capable(*s),
    decreases s,
{
    match s {
        Shape::Int => true,
        Shape::Counted => false,
        Shape::Plain => true,
        Shape::Phantom => true,
        Shape::List(t) => is_stateless_capable(t),
        Shape::Maybe(t) => is_stateless_capable(t),
        Shape::Boxed(t) => is_stateless_capable(t),
        Shape::Pair(a, b) => is_stateless_capable(a) && is_stateless_capable(b),
        Shape::Named(_) => false,
    }
}

pub fn is_default_capable(s: &Shape) -> (r: bool)
    ensures
        r == default_capable(*s),
    decreases s,
{
    match s {
        Shape::Boxed(t) => is_default_capable(t),
        Shape::Pair(a, b) => is_default_capable(a) && is_default_capable(b),
        Shape::Counted => false,
        Shape::Named(_) => false,
        _ => true,
    }
}

pub fn are_heads_below(s: &Shape, bound: usize) -> (r: bool)
    ensures
        r == heads_below(*s, bound as nat),
    decreases s,
{
    match s {
        Shape::Maybe(t) => are_heads_below(t, bound),
        Shape::Boxed(t) => are_heads_below(t, bound),
        Shape::Named(i) => *i < bound,
        _ => true,
    }
}

} // verus!
