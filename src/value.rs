//! In-memory values and the caller-owned context.
use vstd::prelude::*;

verus! {

/// Mathematical model of an in-memory value.
pub enum ValueM {
    Int(u64),
    Unit,
    List(Seq<ValueM>),
    Absent,
    Present(Box<ValueM>),
    Record(Seq<ValueM>),
    Variant(nat, Seq<ValueM>),
}

/// An in-memory value. Records hold every declared field, skipped ones
/// included, in declaration order; a variant holds its index and its fields.
#[derive(Debug, PartialEq, Eq)]
pub enum Value {
    Int(u64),
    Unit,
    List(Vec<Value>),
    Absent,
    Present(Box<Value>),
    Record(Vec<Value>),
    Variant(usize, Vec<Value>),
}

/// The models of a sequence of values.
pub open spec fn views(items: Seq<Value>) -> Seq<ValueM> {
    Seq::new(items.len(), |i: int| items[i]@)
}

/// The model of a composite value is built from the models of its parts.
pub proof fn lemma_views(v: Value)
    ensures
        v matches Value::List(items) ==> v@ == ValueM::List(views(items@)),
        v matches Value::Record(items) ==> v@ == ValueM::Record(views(items@)),
        v matches Value::Variant(k, items) ==> v@ == ValueM::Variant(k as nat, views(items@)),
{
    match v {
        Value::List(items) => {
            assert(v@->List_0 =~= views(items@));
        },
        Value::Record(items) => {
            assert(v@->Record_0 =~= views(items@));
        },
        Value::Variant(k, items) => {
            assert(v@->Variant_1 =~= views(items@));
        },
        _ => {},
    }
}

/// Each element of a list, record or variant is smaller than the whole.
pub proof fn lemma_child_smaller(v: Value, k: int)
    ensures
        v is List && 0 <= k < v->List_0.len() ==> decreases_to!(v@ => v->List_0@[k]@),
        v is Record && 0 <= k < v->Record_0.len() ==> decreases_to!(v@ => v->Record_0@[k]@),
        v is Variant && 0 <= k < v->Variant_1.len() ==> decreases_to!(v@ => v->Variant_1@[k]@),
{
    lemma_views(v);
    broadcast use vstd::seq::axiom_seq_index_decreases;

    match v {
        Value::List(items) => {
            if 0 <= k < items.len() {
                assert(decreases_to!(v@ => v@->List_0));
                assert(decreases_to!(v@->List_0 => v@->List_0[k]));
            }
        },
        Value::Record(items) => {
            if 0 <= k < items.len() {
                assert(decreases_to!(v@ => v@->Record_0));
                assert(decreases_to!(v@->Record_0 => v@->Record_0[k]));
            }
        },
        Value::Variant(_, items) => {
            if 0 <= k < items.len() {
                assert(decreases_to!(v@ => v@->Variant_1));
                assert(decreases_to!(v@->Variant_1 => v@->Variant_1[k]));
            }
        },
        _ => {},
    }
}

impl Value {
    pub open spec fn view(&self) -> ValueM
        decreases self,
    {
        match self {
            Value::Int(n) => ValueM::Int(*n),
            Value::Unit => ValueM::Unit,
            Value::List(items) => ValueM::List(
                Seq::new(
                    items.len() as nat,
                    |i: int|
                        if 0 <= i < items.len() {
                            items[i].view()
                        } else {
                            ValueM::Unit
                        },
                ),
            ),
            Value::Absent => ValueM::Absent,
            Value::Present(inner) => ValueM::Present(Box::new(inner.view())),
            Value::Record(items) => ValueM::Record(
                Seq::new(
                    items.len() as nat,
                    |i: int|
                        if 0 <= i < items.len() {
                            items[i].view()
                        } else {
                            ValueM::Unit
                        },
                ),
            ),
            Value::Variant(k, items) => ValueM::Variant(
                *k as nat,
                Seq::new(
                    items.len() as nat,
                    |i: int|
                        if 0 <= i < items.len() {
                            items[i].view()
                        } else {
                            ValueM::Unit
                        },
                ),
            ),
        }
    }
}

/// The context handed to every stateful leaf: each leaf whose logic reports
/// to it appends its integer here, on encode and on decode respectively.
pub struct Recorder {
    pub serialized: Vec<u64>,
    pub deserialized: Vec<u64>,
}

impl Recorder {
    pub fn new() -> (r: Recorder)
        ensures
            r.serialized@ == Seq::<u64>::empty(),
            r.deserialized@ == Seq::<u64>::empty(),
    {
        Recorder { serialized: Vec::new(), deserialized: Vec::new() }
    }

    pub fn serialized_count(&self) -> (r: usize)
        ensures
            r == self.serialized@.len(),
    {
        self.serialized.len()
    }

    pub fn deserialized_count(&self) -> (r: usize)
        ensures
            r == self.deserialized@.len(),
    {
        self.deserialized.len()
    }

    pub fn mark_serialized(&mut self, n: u64)
        ensures
            final(self).serialized@ == old(self).serialized@.push(n),
            final(self).deserialized@ == old(self).deserialized@,
    {
        self.serialized.push(n);
    }

    pub fn mark_deserialized(&mut self, n: u64)
        ensures
            final(self).deserialized@ == old(self).deserialized@.push(n),
            final(self).serialized@ == old(self).serialized@,
    {
        self.deserialized.push(n);
    }
}

} // verus!
