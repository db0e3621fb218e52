//! Adapters that bundle the context with a value to encode, or with the
//! type expected from a decode.
use crate::de::{decode, dec, decoded_as, DecodeError};
use crate::schema::Shape;
use crate::ser::{encode, enc};
use crate::type_decl::{conforms, TypeDecl};
use crate::value::{Recorder, Value};
use crate::wire::Wire;
use vstd::prelude::*;

verus! {

/// A value with the context attached: encoding it threads that context.
pub struct WithState<'s, T> {
    pub value: T,
    pub state: &'s mut Recorder,
}

impl<'s, T> WithState<'s, T> {
    pub fn new(value: T, state: &'s mut Recorder) -> (r: Self)
        ensures
            r.value == value,
            *r.state == *old(state),
            *final(r.state) == *final(state),
    {
        WithState { value, state }
    }
}

impl<'s> WithState<'s, Value> {
    /// Encodes the value, of type `shape`, with the attached context.
    pub fn serialize(self, reg: &Vec<TypeDecl>, shape: &Shape) -> (w: Wire)
        requires
            conforms(reg@, *shape, self.value@),
        ensures
            w@ == enc(reg@, *shape, self.value@).0,
            final(self.state).serialized@ == old(self.state).serialized@ + enc(
                reg@,
                *shape,
                self.value@,
            ).1,
            final(self.state).deserialized@ == old(self.state).deserialized@,
    {
        encode(reg, shape, &self.value, self.state)
    }
}

/// A borrowed value with the context attached.
pub struct SerializeRef<'s, T> {
    pub value: &'s T,
    pub state: &'s mut Recorder,
}

impl<'s, T> SerializeRef<'s, T> {
    pub fn new(value: &'s T, state: &'s mut Recorder) -> (r: Self)
        ensures
            *r.value == *value,
            *r.state == *old(state),
            *final(r.state) == *final(state),
    {
        SerializeRef { value, state }
    }
}

impl<'s> SerializeRef<'s, Value> {
    /// Encodes the borrowed value, of type `shape`, with the attached context.
    pub fn serialize(self, reg: &Vec<TypeDecl>, shape: &Shape) -> (w: Wire)
        requires
            conforms(reg@, *shape, self.value@),
        ensures
            w@ == enc(reg@, *shape, self.value@).0,
            final(self.state).serialized@ == old(self.state).serialized@ + enc(
                reg@,
                *shape,
                self.value@,
            ).1,
            final(self.state).deserialized@ == old(self.state).deserialized@,
    {
        encode(reg, shape, self.value, self.state)
    }
}

/// Attaches the context to a borrowed value.
pub fn wrap_serialize<'s, T>(value: &'s T, state: &'s mut Recorder) -> (r: SerializeRef<'s, T>)
    ensures
        *r.value == *value,
        *r.state == *old(state),
        *final(r.state) == *final(state),
{
    SerializeRef::new(value, state)
}

/// The context bundled with the type expected from a decode: what carries
/// the context into nested decodes.
pub struct DeserializeStateSeed<'s> {
    pub state: &'s mut Recorder,
    pub expected: &'s Shape,
}

impl<'s> DeserializeStateSeed<'s> {
    pub fn new(state: &'s mut Recorder, expected: &'s Shape) -> (r: Self)
        ensures
            *r.expected == *expected,
            *r.state == *old(state),
            *final(r.state) == *final(state),
    {
        DeserializeStateSeed { state, expected }
    }

    /// Decodes a value of the expected type with the bundled context.
    pub fn deserialize(self, reg: &Vec<TypeDecl>, w: &Wire) -> (r: Result<Value, DecodeError>)
        ensures
            decoded_as(
                r,
                dec(reg@, *self.expected, w@),
                old(self.state).deserialized@,
                final(self.state).deserialized@,
            ),
            final(self.state).serialized@ == old(self.state).serialized@,
    {
        decode(reg, self.expected, w, self.state)
    }
}

/// Bundles the context with the type expected from a decode.
pub fn wrap_deserialize_seed<'s>(state: &'s mut Recorder, expected: &'s Shape) -> (r:
    DeserializeStateSeed<'s>)
    ensures
        *r.expected == *expected,
        *r.state == *old(state),
        *final(r.state) == *final(state),
{
    DeserializeStateSeed::new(state, expected)
}

} // verus!

verus! {

/// Encoding with a context.
pub trait SerializeState: Sized {
    spec fn model(&self) -> crate::value::ValueM;

    fn serialize_state(&self, reg: &Vec<TypeDecl>, shape: &Shape, state: &mut Recorder) -> (w: Wire)
        requires
            conforms(reg@, *shape, self.model()),
        ensures
            w@ == enc(reg@, *shape, self.model()).0,
            final(state).serialized@ == old(state).serialized@ + enc(reg@, *shape, self.model()).1,
            final(state).deserialized@ == old(state).deserialized@,
    ;
}

/// Decoding with a context.
pub trait DeserializeState: Sized {
    spec fn model(&self) -> crate::value::ValueM;

    fn deserialize_state(reg: &Vec<TypeDecl>, shape: &Shape, w: &Wire, state: &mut Recorder) -> (r:
        Result<Self, DecodeError>)
        ensures
            r matches Ok(x) ==> dec(reg@, *shape, w@) matches Ok((dv, tr)) && dv == x.model()
                && final(state).deserialized@ == old(state).deserialized@ + tr,
            r matches Err(e) ==> dec(reg@, *shape, w@) matches Err((de, p)) && de == e@
                && final(state).deserialized@ == old(state).deserialized@ + p,
            final(state).serialized@ == old(state).serialized@,
    ;
}

impl SerializeState for Value {
    open spec fn model(&self) -> crate::value::ValueM {
        self@
    }

    fn serialize_state(&self, reg: &Vec<TypeDecl>, shape: &Shape, state: &mut Recorder) -> (w: Wire) {
        encode(reg, shape, self, state)
    }
}

impl DeserializeState for Value {
    open spec fn model(&self) -> crate::value::ValueM {
        self@
    }

    fn deserialize_state(reg: &Vec<TypeDecl>, shape: &Shape, w: &Wire, state: &mut Recorder) -> (r:
        Result<Value, DecodeError>) {
        decode(reg, shape, w, state)
    }
}

} // verus!
