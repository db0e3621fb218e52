//! The serialization engine: value and context to wire shape.
use crate::attrs::hook_encoded;
use crate::mode::ItemMode;
use crate::schema::Shape;
use crate::type_decl::{
    conforms, field_key, fields_conform, FieldDecl, FieldsDecl, FieldsStyle, TypeData, TypeDecl,
    VariantDecl,
};
use crate::value::{Recorder, Value, ValueM};
use crate::wire::{Wire, WireM};
use vstd::prelude::*;

verus! {

broadcast use vstd::seq::axiom_seq_index_decreases;

/// A wire value together with the integers that stateful leaves reported to
/// the context while producing it, in order.
pub type Encoded = (WireM, Seq<u64>);

pub open spec fn nothing() -> Encoded {
    (WireM::Null, Seq::empty())
}

/// Context-free encoding: no context is involved.
pub open spec fn enc_plain(s: Shape, v: ValueM) -> WireM
    decreases v, s,
{
    match s {
        Shape::List(t) => match v {
            ValueM::List(items) => WireM::Array(
                Seq::new(
                    items.len(),
                    |k: int|
                        if 0 <= k < items.len() {
                            enc_plain(*t, items[k])
                        } else {
                            WireM::Null
                        },
                ),
            ),
            _ => WireM::Null,
        },
        Shape::Maybe(t) => match v {
            ValueM::Present(x) => enc_plain(*t, *x),
            _ => WireM::Null,
        },
        Shape::Boxed(t) => enc_plain(*t, v),
        Shape::Pair(a, b) => match v {
            ValueM::List(items) => if items.len() == 2 {
                WireM::Array(seq![enc_plain(*a, items[0]), enc_plain(*b, items[1])])
            } else {
                WireM::Null
            },
            _ => WireM::Null,
        },
        _ => match v {
            ValueM::Int(n) => WireM::Int(n),
            _ => WireM::Null,
        },
    }
}

/// The encoding of one field: through its hook, with the context, or
/// without it, as its attributes say.
pub open spec fn enc_field(reg: Seq<TypeDecl>, f: FieldDecl, v: ValueM) -> Encoded
    decreases v, 1nat, f.ty,
{
    match f.attrs.with {
        Some(h) => (
            match v {
                ValueM::Int(n) => WireM::Int(hook_encoded(h, n)),
                _ => WireM::Null,
            },
            Seq::empty(),
        ),
        None => if f.attrs.mode == ItemMode::Stateful {
            enc(reg, f.ty, v)
        } else {
            (enc_plain(f.ty, v), Seq::empty())
        },
    }
}

/// The encoding of every field of a record or variant, skipped ones
/// included (which of them reach the wire is decided by the caller).
pub open spec fn encs_of(reg: Seq<TypeDecl>, fields: Seq<FieldDecl>, vals: Seq<ValueM>) -> Seq<
    Encoded,
>
    decreases vals, 0nat,
{
    Seq::new(
        fields.len(),
        |k: int|
            if 0 <= k < vals.len() {
                enc_field(reg, fields[k], vals[k])
            } else {
                nothing()
            },
    )
}

/// The stateful encodings of the elements of a sequence.
pub open spec fn enc_items(reg: Seq<TypeDecl>, t: Shape, items: Seq<ValueM>) -> Seq<Encoded>
    decreases items, 0nat,
{
    Seq::new(
        items.len(),
        |k: int|
            if 0 <= k < items.len() {
                enc(reg, t, items[k])
            } else {
                nothing()
            },
    )
}

/// The reports of the first `n` encodings, concatenated.
pub open spec fn trace_of(encs: Seq<Encoded>, n: nat) -> Seq<u64>
    decreases n,
{
    if n == 0 {
        Seq::empty()
    } else {
        trace_of(encs, (n - 1) as nat) + encs[n - 1].1
    }
}

pub open spec fn wires_of(encs: Seq<Encoded>) -> Seq<WireM> {
    Seq::new(encs.len(), |k: int| encs[k].0)
}

/// The object entries of the first `n` named fields that are not skipped.
pub open spec fn named_entries(fields: Seq<FieldDecl>, encs: Seq<Encoded>, n: nat) -> Seq<
    (Seq<char>, WireM),
>
    decreases n,
{
    if n == 0 {
        Seq::empty()
    } else {
        let prev = named_entries(fields, encs, (n - 1) as nat);
        if fields[n - 1].attrs.skip {
            prev
        } else {
            prev.push((field_key(fields[n - 1]), encs[n - 1].0))
        }
    }
}

/// The reports of the first `n` named fields that are not skipped.
pub open spec fn named_trace(fields: Seq<FieldDecl>, encs: Seq<Encoded>, n: nat) -> Seq<u64>
    decreases n,
{
    if n == 0 {
        Seq::empty()
    } else {
        let prev = named_trace(fields, encs, (n - 1) as nat);
        if fields[n - 1].attrs.skip {
            prev
        } else {
            prev + encs[n - 1].1
        }
    }
}

/// The wire shape of a record body, given the encodings of its fields.
pub open spec fn fields_body(fd: FieldsDecl, encs: Seq<Encoded>) -> Encoded {
    let n = fd.fields.len() as nat;
    match fd.style {
        FieldsStyle::Named => (
            WireM::Object(named_entries(fd.fields@, encs, n)),
            named_trace(fd.fields@, encs, n),
        ),
        FieldsStyle::Unnamed => if n == 0 {
            nothing()
        } else if n == 1 {
            encs[0]
        } else {
            (WireM::Array(wires_of(encs)), trace_of(encs, n))
        },
        FieldsStyle::Unit => nothing(),
    }
}

/// The wire shape of a union variant: a bare name, or a one-entry object
/// from the name to the payload.
pub open spec fn variant_body(vd: VariantDecl, encs: Seq<Encoded>) -> Encoded {
    if vd.fields.style == FieldsStyle::Unit {
        (WireM::Str(vd.ident@), Seq::empty())
    } else if vd.fields.style == FieldsStyle::Unnamed && vd.fields.fields.len() == 0 {
        (WireM::Object(seq![(vd.ident@, WireM::Array(Seq::empty()))]), Seq::empty())
    } else {
        let b = fields_body(vd.fields, encs);
        (WireM::Object(seq![(vd.ident@, b.0)]), b.1)
    }
}

/// Stateful encoding of a value of type `s`.
pub open spec fn enc(reg: Seq<TypeDecl>, s: Shape, v: ValueM) -> Encoded
    decreases v, 0nat, s,
{
    match s {
        Shape::Counted => match v {
            ValueM::Int(n) => (WireM::Int(n), seq![n]),
            _ => nothing(),
        },
        Shape::Phantom => nothing(),
        Shape::List(t) => match v {
            ValueM::List(items) => {
                let encs = enc_items(reg, *t, items);
                (WireM::Array(wires_of(encs)), trace_of(encs, items.len()))
            },
            _ => nothing(),
        },
        Shape::Maybe(t) => match v {
            ValueM::Present(x) => enc(reg, *t, *x),
            _ => nothing(),
        },
        Shape::Boxed(t) => enc(reg, *t, v),
        Shape::Pair(a, b) => match v {
            ValueM::List(items) => if items.len() == 2 {
                let ea = enc(reg, *a, items[0]);
                let eb = enc(reg, *b, items[1]);
                (WireM::Array(seq![ea.0, eb.0]), ea.1 + eb.1)
            } else {
                nothing()
            },
            _ => nothing(),
        },
        Shape::Named(i) => if i < reg.len() {
            match reg[i as int].data {
                TypeData::Struct(sd) => match v {
                    ValueM::Record(vals) => {
                        let encs = encs_of(reg, sd.fields.fields@, vals);
                        if reg[i as int].attrs.transparent {
                            if encs.len() > 0 {
                                encs[0]
                            } else {
                                nothing()
                            }
                        } else {
                            fields_body(sd.fields, encs)
                        }
                    },
                    _ => nothing(),
                },
                TypeData::Enum(ed) => match v {
                    ValueM::Variant(k, vals) => if k < ed.variants.len() {
                        let vd = ed.variants@[k as int];
                        variant_body(vd, encs_of(reg, vd.fields.fields@, vals))
                    } else {
                        nothing()
                    },
                    _ => nothing(),
                },
            }
        } else {
            nothing()
        },
        _ => (enc_plain(s, v), Seq::empty()),
    }
}

} // verus!

verus! {

/// Encodes `v` through the context-free protocol; no context is involved.
pub fn encode_plain(s: &Shape, v: &Value) -> (w: Wire)
    ensures
        w@ == enc_plain(*s, v@),
    decreases v@, s,
{
    match s {
        Shape::List(t) => match v {
            Value::List(items) => {
                proof {
                    crate::value::lemma_views(*v);
                }
                let mut out: Vec<Wire> = Vec::new();
                let mut k: usize = 0;
                while k < items.len()
                    invariant
                        k <= items.len(),
                        *v == Value::List(*items),
                        v@ == ValueM::List(crate::value::views(items@)),
                        out@.len() == k,
                        forall|i: int| 0 <= i < k ==> out@[i]@ == enc_plain(**t, items@[i]@),
                    decreases items.len() - k,
                {
                    assert(crate::value::views(items@)[k as int] == items@[k as int]@);
                    proof {
                        crate::value::lemma_child_smaller(*v, k as int);
                    }
                    let w = encode_plain(t, &items[k]);
                    out.push(w);
                    k += 1;
                }
                let w = Wire::Array(out);
                proof {
                    crate::wire::lemma_wire_views(w);
                    assert(w@->Array_0 =~= enc_plain(*s, v@)->Array_0);
                }
                w
            },
            _ => Wire::Null,
        },
        Shape::Maybe(t) => match v {
            Value::Present(x) => encode_plain(t, x),
            _ => Wire::Null,
        },
        Shape::Boxed(t) => encode_plain(t, v),
        Shape::Pair(a, b) => match v {
            Value::List(items) => {
                proof {
                    crate::value::lemma_views(*v);
                }
                if items.len() == 2 {
                    proof {
                        crate::value::lemma_child_smaller(*v, 0);
                        crate::value::lemma_child_smaller(*v, 1);
                    }
                    let wa = encode_plain(a, &items[0]);
                    let wb = encode_plain(b, &items[1]);
                    let mut out: Vec<Wire> = Vec::new();
                    out.push(wa);
                    out.push(wb);
                    let w = Wire::Array(out);
                    proof {
                        crate::wire::lemma_wire_views(w);
                        assert(w@->Array_0 =~= seq![wa@, wb@]);
                    }
                    w
                } else {
                    Wire::Null
                }
            },
            _ => Wire::Null,
        },
        _ => match v {
            Value::Int(n) => Wire::Int(*n),
            _ => Wire::Null,
        },
    }
}

/// Encodes one field: through its hook, with the context, or without it.
pub fn encode_field(reg: &Vec<TypeDecl>, f: &FieldDecl, v: &Value, state: &mut Recorder) -> (w:
    Wire)
    requires
        conforms(reg@, f.ty, v@),
    ensures
        w@ == enc_field(reg@, *f, v@).0,
        final(state).serialized@ == old(state).serialized@ + enc_field(reg@, *f, v@).1,
        final(state).deserialized@ == old(state).deserialized@,
    decreases v@, 1nat, f.ty,
{
    match &f.attrs.with {
        Some(h) => {
            proof {
                assert(old(state).serialized@ + Seq::<u64>::empty() =~= old(state).serialized@);
            }
            match v {
                Value::Int(n) => Wire::Int(h.encode_int(*n, &*state)),
                _ => Wire::Null,
            }
        },
        None => {
            if f.attrs.mode == ItemMode::Stateful {
                encode(reg, &f.ty, v, state)
            } else {
                proof {
                    assert(old(state).serialized@ + Seq::<u64>::empty() =~= old(state).serialized@);
                }
                encode_plain(&f.ty, v)
            }
        },
    }
}

/// Encodes the body of a record or variant: an object of the named fields
/// that are not skipped, the bare single positional field, or an array of
/// the positional fields.
pub fn encode_fields(reg: &Vec<TypeDecl>, fd: &FieldsDecl, vals: &Vec<Value>, state: &mut Recorder) -> (w: Wire)
    requires
        fields_conform(reg@, fd.fields@, crate::value::views(vals@)),
    ensures
        w@ == fields_body(*fd, encs_of(reg@, fd.fields@, crate::value::views(vals@))).0,
        final(state).serialized@ == old(state).serialized@ + fields_body(
            *fd,
            encs_of(reg@, fd.fields@, crate::value::views(vals@)),
        ).1,
        final(state).deserialized@ == old(state).deserialized@,
    decreases crate::value::views(vals@), 0nat,
{
    let ghost vs = crate::value::views(vals@);
    let ghost encs = encs_of(reg@, fd.fields@, vs);
    let n = fd.fields.len();
    match fd.style {
        FieldsStyle::Named => {
            let mut entries: Vec<(String, Wire)> = Vec::new();
            let mut k: usize = 0;
            proof {
                assert(old(state).serialized@ + Seq::<u64>::empty() =~= old(state).serialized@);
            }
            while k < n
                invariant
                    k <= n,
                    n == fd.fields.len(),
                    vals.len() == n,
                    vs == crate::value::views(vals@),
                    encs == encs_of(reg@, fd.fields@, vs),
                    fields_conform(reg@, fd.fields@, vs),
                    crate::wire::entry_views(entries@) == named_entries(fd.fields@, encs, k as nat),
                    state.serialized@ == old(state).serialized@ + named_trace(
                        fd.fields@,
                        encs,
                        k as nat,
                    ),
                    state.deserialized@ == old(state).deserialized@,
                decreases n - k,
            {
                let f = &fd.fields[k];
                assert(conforms(reg@, fd.fields@[k as int].ty, vs[k as int]));
                if !f.attrs.skip {
                    let w = encode_field(reg, f, &vals[k], state);
                    let key = f.attrs.key(&f.ident);
                    let ghost before = entries@;
                    entries.push((key, w));
                    proof {
                        assert(crate::wire::entry_views(entries@) =~= crate::wire::entry_views(
                            before,
                        ).push((key@, w@)));
                        assert(state.serialized@ =~= old(state).serialized@ + named_trace(
                            fd.fields@,
                            encs,
                            (k + 1) as nat,
                        ));
                    }
                }
                k += 1;
            }
            let w = Wire::Object(entries);
            proof {
                crate::wire::lemma_wire_views(w);
            }
            w
        },
        FieldsStyle::Unnamed => {
            if n == 0 {
                proof {
                    assert(old(state).serialized@ + Seq::<u64>::empty() =~= old(state).serialized@);
                }
                Wire::Null
            } else if n == 1 {
                assert(conforms(reg@, fd.fields@[0].ty, vs[0]));
                encode_field(reg, &fd.fields[0], &vals[0], state)
            } else {
                let mut out: Vec<Wire> = Vec::new();
                let mut k: usize = 0;
                proof {
                    assert(old(state).serialized@ + Seq::<u64>::empty() =~= old(state).serialized@);
                }
                while k < n
                    invariant
                        k <= n,
                        n == fd.fields.len(),
                        vals.len() == n,
                        vs == crate::value::views(vals@),
                        encs == encs_of(reg@, fd.fields@, vs),
                        fields_conform(reg@, fd.fields@, vs),
                        out@.len() == k,
                        forall|i: int| 0 <= i < k ==> out@[i]@ == encs[i].0,
                        state.serialized@ == old(state).serialized@ + trace_of(encs, k as nat),
                        state.deserialized@ == old(state).deserialized@,
                    decreases n - k,
                {
                    assert(conforms(reg@, fd.fields@[k as int].ty, vs[k as int]));
                    let w = encode_field(reg, &fd.fields[k], &vals[k], state);
                    out.push(w);
                    proof {
                        assert(state.serialized@ =~= old(state).serialized@ + trace_of(
                            encs,
                            (k + 1) as nat,
                        ));
                    }
                    k += 1;
                }
                let w = Wire::Array(out);
                proof {
                    crate::wire::lemma_wire_views(w);
                    assert(w@->Array_0 =~= wires_of(encs));
                }
                w
            }
        },
        FieldsStyle::Unit => {
            proof {
                assert(old(state).serialized@ + Seq::<u64>::empty() =~= old(state).serialized@);
            }
            Wire::Null
        },
    }
}

/// Encodes a union variant: its bare name, or a one-entry object from its
/// name to its payload.
pub fn encode_variant(reg: &Vec<TypeDecl>, vd: &VariantDecl, vals: &Vec<Value>, state: &mut Recorder) -> (w: Wire)
    requires
        fields_conform(reg@, vd.fields.fields@, crate::value::views(vals@)),
    ensures
        w@ == variant_body(*vd, encs_of(reg@, vd.fields.fields@, crate::value::views(vals@))).0,
        final(state).serialized@ == old(state).serialized@ + variant_body(
            *vd,
            encs_of(reg@, vd.fields.fields@, crate::value::views(vals@)),
        ).1,
        final(state).deserialized@ == old(state).deserialized@,
    decreases crate::value::views(vals@), 1nat,
{
    if vd.fields.style == FieldsStyle::Unit {
        proof {
            assert(old(state).serialized@ + Seq::<u64>::empty() =~= old(state).serialized@);
        }
        Wire::Str(vd.ident.clone())
    } else if vd.fields.style == FieldsStyle::Unnamed && vd.fields.fields.len() == 0 {
        proof {
            assert(old(state).serialized@ + Seq::<u64>::empty() =~= old(state).serialized@);
        }
        let payload = Wire::Array(Vec::new());
        let mut entries: Vec<(String, Wire)> = Vec::new();
        entries.push((vd.ident.clone(), payload));
        let w = Wire::Object(entries);
        proof {
            crate::wire::lemma_wire_views(w);
            crate::wire::lemma_wire_views(payload);
            assert(payload@->Array_0 =~= Seq::<WireM>::empty());
            assert(w@->Object_0 =~= seq![(vd.ident@, WireM::Array(Seq::empty()))]);
        }
        w
    } else {
        let body = encode_fields(reg, &vd.fields, vals, state);
        let mut entries: Vec<(String, Wire)> = Vec::new();
        entries.push((vd.ident.clone(), body));
        let w = Wire::Object(entries);
        proof {
            crate::wire::lemma_wire_views(w);
            assert(w@->Object_0 =~= seq![(vd.ident@, body@)]);
        }
        w
    }
}

/// Encodes `v`, of type `s`, with the context: each stateful leaf reports
/// to `state` once, depth first and left to right.
pub fn encode(reg: &Vec<TypeDecl>, s: &Shape, v: &Value, state: &mut Recorder) -> (w: Wire)
    requires
        conforms(reg@, *s, v@),
    ensures
        w@ == enc(reg@, *s, v@).0,
        final(state).serialized@ == old(state).serialized@ + enc(reg@, *s, v@).1,
        final(state).deserialized@ == old(state).deserialized@,
    decreases v@, 0nat, s,
{
    proof {
        assert(old(state).serialized@ + Seq::<u64>::empty() =~= old(state).serialized@);
    }
    match s {
        Shape::Counted => match v {
            Value::Int(n) => {
                state.mark_serialized(*n);
                proof {
                    assert(old(state).serialized@.push(*n) =~= old(state).serialized@ + seq![*n]);
                }
                Wire::Int(*n)
            },
            _ => Wire::Null,
        },
        Shape::Phantom => {
            Wire::Null
        },
        Shape::List(t) => match v {
            Value::List(items) => {
                proof {
                    crate::value::lemma_views(*v);
                }
                let ghost encs = enc_items(reg@, **t, v@->List_0);
                let mut out: Vec<Wire> = Vec::new();
                let mut k: usize = 0;
                while k < items.len()
                    invariant
                        k <= items.len(),
                        *v == Value::List(*items),
                        v@ == ValueM::List(crate::value::views(items@)),
                        conforms(reg@, *s, v@),
                        *s == Shape::List(*t),
                        encs.len() == items.len(),
                        encs == enc_items(reg@, **t, v@->List_0),
                        out@.len() == k,
                        forall|i: int| 0 <= i < k ==> out@[i]@ == encs[i].0,
                        state.serialized@ == old(state).serialized@ + trace_of(encs, k as nat),
                        state.deserialized@ == old(state).deserialized@,
                    decreases items.len() - k,
                {
                    assert(conforms(reg@, **t, v@->List_0[k as int]));
                    assert(crate::value::views(items@)[k as int] == items@[k as int]@);
                    proof {
                        crate::value::lemma_child_smaller(*v, k as int);
                    }
                    let w = encode(reg, t, &items[k], state);
                    out.push(w);
                    proof {
                        assert(state.serialized@ =~= old(state).serialized@ + trace_of(
                            encs,
                            (k + 1) as nat,
                        ));
                    }
                    k += 1;
                }
                let w = Wire::Array(out);
                proof {
                    crate::wire::lemma_wire_views(w);
                    assert(w@->Array_0 =~= wires_of(encs));
                }
                w
            },
            _ => Wire::Null,
        },
        Shape::Maybe(t) => match v {
            Value::Present(x) => encode(reg, t, x, state),
            _ => Wire::Null,
        },
        Shape::Boxed(t) => encode(reg, t, v, state),
        Shape::Pair(a, b) => match v {
            Value::List(items) => {
                proof {
                    crate::value::lemma_views(*v);
                }
                if items.len() == 2 {
                    proof {
                        crate::value::lemma_child_smaller(*v, 0);
                        crate::value::lemma_child_smaller(*v, 1);
                    }
                    let ghost mid = state.serialized@;
                    let wa = encode(reg, a, &items[0], state);
                    let ghost after_a = state.serialized@;
                    let wb = encode(reg, b, &items[1], state);
                    let mut out: Vec<Wire> = Vec::new();
                    out.push(wa);
                    out.push(wb);
                    let w = Wire::Array(out);
                    proof {
                        crate::wire::lemma_wire_views(w);
                        assert(w@->Array_0 =~= seq![wa@, wb@]);
                        let ea = enc(reg@, **a, items@[0]@);
                        let eb = enc(reg@, **b, items@[1]@);
                        assert(state.serialized@ =~= old(state).serialized@ + (ea.1 + eb.1));
                    }
                    w
                } else {
                    Wire::Null
                }
            },
            _ => Wire::Null,
        },
        Shape::Named(i) => {
            let d = &reg[*i];
            match &d.data {
                TypeData::Struct(sd) => match v {
                    Value::Record(vals) => {
                        proof {
                            crate::value::lemma_views(*v);
                        }
                        assert(fields_conform(reg@, sd.fields.fields@, v@->Record_0));
                        if d.attrs.transparent {
                            if sd.fields.fields.len() > 0 {
                                proof {
                                    assert(conforms(reg@, sd.fields.fields@[0].ty, v@->Record_0[0]));
                                    assert(encs_of(reg@, sd.fields.fields@, v@->Record_0)[0]
                                        == enc_field(reg@, sd.fields.fields@[0], vals@[0]@));
                                }
                                encode_field(reg, &sd.fields.fields[0], &vals[0], state)
                            } else {
                                assert(encs_of(reg@, sd.fields.fields@, v@->Record_0).len() == 0);
                                Wire::Null
                            }
                        } else {
                            encode_fields(reg, &sd.fields, vals, state)
                        }
                    },
                    _ => Wire::Null,
                },
                TypeData::Enum(ed) => match v {
                    Value::Variant(k, vals) => {
                        proof {
                            crate::value::lemma_views(*v);
                        }
                        encode_variant(reg, &ed.variants[*k], vals, state)
                    },
                    _ => Wire::Null,
                },
            }
        },
        _ => encode_plain(s, v),
    }
}

} // verus!
