//! Properties that relate the encoder, the decoder and the schema.
use crate::de::{
    dec_at, dec_field, dec_plain, default_value, find_field, named_finish, named_result,
    named_scan, Decoded, DecodeErrorM, Failure,
};
use crate::mode::ItemMode;
use crate::schema::Shape;
use crate::ser::{enc_field, enc_plain, named_entries, Encoded};
use crate::type_decl::{field_key, FieldDecl, TypeDecl};
use crate::value::ValueM;
use crate::wire::WireM;
use vstd::prelude::*;

verus! {

/// A stateless field never reaches the context: encoding it reports
/// nothing and equals its context-free encoding, and decoding it succeeds or
/// fails exactly as its context-free decoding does, reporting nothing.
pub proof fn lemma_stateless_field_ignores_context(
    reg: Seq<TypeDecl>,
    f: FieldDecl,
    v: ValueM,
    w: WireM,
    lim: nat,
)
    requires
        f.attrs.with is None,
        f.attrs.mode == ItemMode::Stateless,
    ensures
        enc_field(reg, f, v) == (enc_plain(f.ty, v), Seq::<u64>::empty()),
        dec_field(reg, f, w, lim) == match dec_plain(f.ty, w) {
            Ok(x) => Ok((x, Seq::<u64>::empty())),
            Err(e) => Err::<(ValueM, Seq<u64>), Failure>((e, Seq::<u64>::empty())),
        },
{
}

/// Renaming a field changes its wire key and nothing else: a field that
/// differs from another only in its rename encodes and decodes the same
/// values the same way, and its key is the new name.
pub proof fn lemma_rename_changes_only_key(
    reg: Seq<TypeDecl>,
    f: FieldDecl,
    g: FieldDecl,
    v: ValueM,
    w: WireM,
    lim: nat,
)
    requires
        f.ty == g.ty,
        f.attrs.mode == g.attrs.mode,
        f.attrs.with == g.attrs.with,
        f.attrs.skip == g.attrs.skip,
        f.ident == g.ident,
    ensures
        enc_field(reg, f, v) == enc_field(reg, g, v),
        dec_field(reg, f, w, lim) == dec_field(reg, g, w, lim),
        g.attrs.rename matches Some(r) ==> field_key(g) == r@,
        g.attrs.rename is None ==> field_key(g) == g.ident@,
{
}

/// Every key of an encoded named record belongs to a field that is not
/// skipped: a skipped field never reaches the wire.
pub proof fn lemma_skipped_fields_not_encoded(fields: Seq<FieldDecl>, encs: Seq<Encoded>, n: nat)
    requires
        n <= fields.len(),
    ensures
        forall|j: int|
            0 <= j < named_entries(fields, encs, n).len() ==> exists|k: int|
                0 <= k < n && !fields[k].attrs.skip && field_key(fields[k])
                    == #[trigger] named_entries(fields, encs, n)[j].0,
    decreases n,
{
    if n > 0 {
        lemma_skipped_fields_not_encoded(fields, encs, (n - 1) as nat);
        let prev = named_entries(fields, encs, (n - 1) as nat);
        let cur = named_entries(fields, encs, n);
        assert forall|j: int| 0 <= j < cur.len() implies exists|k: int|
            0 <= k < n && !fields[k].attrs.skip && field_key(fields[k]) == #[trigger] cur[j].0 by {
            if j < prev.len() {
                assert(cur[j] == prev[j]);
                let k = choose|k: int|
                    0 <= k < n - 1 && !fields[k].attrs.skip && field_key(fields[k]) == prev[j].0;
                assert(0 <= k < n);
            } else {
                assert(!fields[n - 1].attrs.skip);
                assert(cur[j].0 == field_key(fields[n - 1]));
            }
        }
    }
}

/// Whatever object a named record is decoded from, each skipped field takes
/// the default value of its type.
pub proof fn lemma_skipped_fields_take_default(
    fields: Seq<FieldDecl>,
    slots: Seq<Option<ValueM>>,
    n: nat,
)
    requires
        n <= fields.len(),
        named_finish(fields, slots, n) is Ok,
    ensures
        named_finish(fields, slots, n)->Ok_0.len() == n,
        forall|k: int|
            0 <= k < n && #[trigger] fields[k].attrs.skip ==> named_finish(fields, slots, n)->Ok_0[k]
                == default_value(fields[k].ty),
    decreases n,
{
    if n > 0 {
        lemma_skipped_fields_take_default(fields, slots, (n - 1) as nat);
    }
}

/// A named record decoded from any object: on success, each skipped field
/// holds the default value of its type.
pub proof fn lemma_decoded_skip_is_default(
    fields: Seq<FieldDecl>,
    entries: Seq<(Seq<char>, WireM)>,
    ds: Seq<Decoded>,
)
    requires
        named_result(fields, entries, ds) is Ok,
    ensures
        forall|k: int|
            0 <= k < fields.len() && #[trigger] fields[k].attrs.skip ==> named_result(
                fields,
                entries,
                ds,
            )->Ok_0.0[k] == default_value(fields[k].ty),
{
    let slots = named_scan(fields, entries, ds, entries.len())->Ok_0.0;
    lemma_skipped_fields_take_default(fields, slots, fields.len());
}

} // verus!

verus! {

/// No present optional value encodes as `null` through the context-free
/// protocol, where it would read back as absent.
pub open spec fn plain_faithful(s: Shape, v: ValueM) -> bool
    decreases v, s,
{
    match s {
        Shape::List(t) => match v {
            ValueM::List(items) => forall|k: int|
                0 <= k < items.len() ==> plain_faithful(*t, #[trigger] items[k]),
            _ => true,
        },
        Shape::Maybe(t) => match v {
            ValueM::Present(x) => enc_plain(*t, *x) != WireM::Null && plain_faithful(*t, *x),
            _ => true,
        },
        Shape::Boxed(t) => plain_faithful(*t, v),
        Shape::Pair(a, b) => match v {
            ValueM::List(items) => items.len() == 2 ==> plain_faithful(*a, items[0])
                && plain_faithful(*b, items[1]),
            _ => true,
        },
        _ => true,
    }
}

pub proof fn lemma_collect_plain_ok(
    rs: Seq<Result<ValueM, DecodeErrorM>>,
    vals: Seq<ValueM>,
    n: nat,
)
    requires
        n <= rs.len(),
        n <= vals.len(),
        forall|k: int| 0 <= k < n ==> rs[k] == Ok::<ValueM, DecodeErrorM>(vals[k]),
    ensures
        crate::de::collect_plain(rs, n) == Ok::<Seq<ValueM>, DecodeErrorM>(vals.take(n as int)),
    decreases n,
{
    if n > 0 {
        lemma_collect_plain_ok(rs, vals, (n - 1) as nat);
        assert(vals.take(n as int) =~= vals.take(n - 1).push(vals[n - 1]));
    } else {
        assert(vals.take(0) =~= Seq::<ValueM>::empty());
    }
}

/// Context-free round trip: a value of a context-free type reads back as
/// itself.
pub proof fn lemma_plain_round_trip(reg: Seq<TypeDecl>, s: Shape, v: ValueM)
    requires
        crate::schema::stateless_capable(s),
        crate::type_decl::conforms(reg, s, v),
        plain_faithful(s, v),
    ensures
        dec_plain(s, enc_plain(s, v)) == Ok::<ValueM, DecodeErrorM>(v),
    decreases v, s,
{
    match s {
        Shape::List(t) => {
            let items = v->List_0;
            let w = enc_plain(s, v);
            let ws = w->Array_0;
            let rs = crate::de::dec_plain_items(*t, ws);
            assert forall|k: int| 0 <= k < items.len() implies rs[k] == Ok::<ValueM, DecodeErrorM>(
                items[k],
            ) by {
                assert(ws[k] == enc_plain(*t, items[k]));
                lemma_plain_round_trip(reg, *t, items[k]);
            }
            lemma_collect_plain_ok(rs, items, items.len());
            assert(items.take(items.len() as int) =~= items);
        },
        Shape::Maybe(t) => {
            if let ValueM::Present(x) = v {
                lemma_plain_round_trip(reg, *t, *x);
            }
        },
        Shape::Boxed(t) => {
            lemma_plain_round_trip(reg, *t, v);
        },
        Shape::Pair(a, b) => {
            let items = v->List_0;
            lemma_plain_round_trip(reg, *a, items[0]);
            lemma_plain_round_trip(reg, *b, items[1]);
            assert(seq![items[0], items[1]] =~= items);
        },
        _ => {},
    }
}

} // verus!

verus! {

/// A field's value can be told apart on the wire; a skipped field (where
/// skipping takes effect) holds the default of its type.
pub open spec fn field_faithful(reg: Seq<TypeDecl>, f: FieldDecl, skipping: bool, v: ValueM) -> bool
    decreases v, 1nat, f.ty,
{
    if skipping && f.attrs.skip {
        v == default_value(f.ty)
    } else if f.attrs.with is Some {
        true
    } else if f.attrs.mode == ItemMode::Stateful {
        faithful(reg, f.ty, v)
    } else {
        plain_faithful(f.ty, v)
    }
}

pub open spec fn fields_faithful(
    reg: Seq<TypeDecl>,
    fields: Seq<FieldDecl>,
    skipping: bool,
    vals: Seq<ValueM>,
) -> bool
    decreases vals, 0nat,
{
    forall|k: int|
        0 <= k < vals.len() && k < fields.len() ==> field_faithful(
            reg,
            fields[k],
            skipping,
            #[trigger] vals[k],
        )
}

/// The value can be told apart on the wire: no present optional value
/// encodes as `null`, where it would read back as absent, and every skipped
/// field holds the default of its type, which is what decoding restores.
pub open spec fn faithful(reg: Seq<TypeDecl>, s: Shape, v: ValueM) -> bool
    decreases v, 0nat, s,
{
    match s {
        Shape::List(t) => match v {
            ValueM::List(items) => forall|k: int|
                0 <= k < items.len() ==> faithful(reg, *t, #[trigger] items[k]),
            _ => true,
        },
        Shape::Maybe(t) => match v {
            ValueM::Present(x) => crate::ser::enc(reg, *t, *x).0 != WireM::Null && faithful(
                reg,
                *t,
                *x,
            ),
            _ => true,
        },
        Shape::Boxed(t) => faithful(reg, *t, v),
        Shape::Pair(a, b) => match v {
            ValueM::List(items) => items.len() == 2 ==> faithful(reg, *a, items[0]) && faithful(
                reg,
                *b,
                items[1],
            ),
            _ => true,
        },
        Shape::Named(i) => i < reg.len() && match reg[i as int].data {
            crate::type_decl::TypeData::Struct(sd) => match v {
                ValueM::Record(vals) => fields_faithful(
                    reg,
                    sd.fields.fields@,
                    !reg[i as int].attrs.transparent && sd.fields.style
                        == crate::type_decl::FieldsStyle::Named,
                    vals,
                ),
                _ => true,
            },
            crate::type_decl::TypeData::Enum(ed) => match v {
                ValueM::Variant(k, vals) => k < ed.variants.len() ==> fields_faithful(
                    reg,
                    ed.variants@[k as int].fields.fields@,
                    ed.variants@[k as int].fields.style == crate::type_decl::FieldsStyle::Named,
                    vals,
                ),
                _ => true,
            },
        },
        _ => true,
    }
}

pub proof fn lemma_capable_heads(s: Shape, n: nat)
    requires
        crate::schema::stateful_capable(s, n),
    ensures
        crate::schema::heads_below(s, n),
    decreases s,
{
    match s {
        Shape::Maybe(t) => lemma_capable_heads(*t, n),
        Shape::Boxed(t) => lemma_capable_heads(*t, n),
        _ => {},
    }
}

pub proof fn lemma_shift_round_trip(n: u64, k: u64)
    ensures
        crate::attrs::shift_down(crate::attrs::shift_up(n, k), k) == n,
{
}

pub proof fn lemma_collect_ok(ds: Seq<Decoded>, vals: Seq<ValueM>, encs: Seq<Encoded>, n: nat)
    requires
        n <= ds.len(),
        n <= vals.len(),
        n <= encs.len(),
        forall|k: int|
            0 <= k < n ==> ds[k] == Ok::<(ValueM, Seq<u64>), Failure>((vals[k], encs[k].1)),
    ensures
        crate::de::collect(ds, n) == Ok::<(Seq<ValueM>, Seq<u64>), Failure>(
            (vals.take(n as int), crate::ser::trace_of(encs, n)),
        ),
    decreases n,
{
    if n > 0 {
        lemma_collect_ok(ds, vals, encs, (n - 1) as nat);
        assert(vals.take(n as int) =~= vals.take(n - 1).push(vals[n - 1]));
    } else {
        assert(vals.take(0) =~= Seq::<ValueM>::empty());
    }
}

/// With distinct keys, a field's own key finds that field.
pub proof fn lemma_find_own_key(fields: Seq<FieldDecl>, m: nat, p: nat)
    requires
        crate::type_decl::keys_distinct(fields),
        m < fields.len(),
        !fields[m as int].attrs.skip,
        p <= fields.len(),
    ensures
        p <= m ==> find_field(fields, field_key(fields[m as int]), p) is None,
        p > m ==> find_field(fields, field_key(fields[m as int]), p) == Some(m),
    decreases p,
{
    if p > 0 {
        lemma_find_own_key(fields, m, (p - 1) as nat);
        if p - 1 != m && !fields[p - 1].attrs.skip {
            assert(field_key(fields[p - 1]) != field_key(fields[m as int]));
        }
    }
}

pub proof fn lemma_find_own_variant(variants: Seq<crate::type_decl::VariantDecl>, m: nat, p: nat)
    requires
        crate::type_decl::names_distinct(variants),
        m < variants.len(),
        p <= variants.len(),
    ensures
        p <= m ==> crate::de::find_variant(variants, variants[m as int].ident@, p) is None,
        p > m ==> crate::de::find_variant(variants, variants[m as int].ident@, p) == Some(m),
    decreases p,
{
    if p > 0 {
        lemma_find_own_variant(variants, m, (p - 1) as nat);
        if p - 1 != m {
            assert(variants[p - 1].ident@ != variants[m as int].ident@);
        }
    }
}

/// Encoded entries only grow as more fields are encoded.
pub proof fn lemma_entries_prefix(fields: Seq<FieldDecl>, encs: Seq<Encoded>, m: nat, p: nat)
    requires
        m <= p,
        p <= fields.len(),
    ensures
        named_entries(fields, encs, m).len() <= named_entries(fields, encs, p).len(),
        forall|j: int|
            0 <= j < named_entries(fields, encs, m).len() ==> named_entries(fields, encs, p)[j]
                == #[trigger] named_entries(fields, encs, m)[j],
    decreases p,
{
    if p > m {
        lemma_entries_prefix(fields, encs, m, (p - 1) as nat);
    }
}

} // verus!

verus! {

/// The slots of a named-record decode once the first `m` fields' entries
/// have been read.
pub open spec fn slots_after(fields: Seq<FieldDecl>, vals: Seq<ValueM>, m: nat) -> Seq<
    Option<ValueM>,
> {
    Seq::new(
        fields.len(),
        |k: int|
            if k < m && !fields[k].attrs.skip {
                Some(vals[k])
            } else {
                None
            },
    )
}

pub open spec fn fields_round_trip_ready(
    reg: Seq<TypeDecl>,
    fields: Seq<FieldDecl>,
    skipping: bool,
    vals: Seq<ValueM>,
) -> bool {
    &&& crate::type_decl::registry_ok(reg)
    &&& forall|k: int|
        0 <= k < fields.len() ==> crate::type_decl::field_ok(
            #[trigger] fields[k],
            skipping,
            reg.len(),
        )
    &&& crate::type_decl::fields_conform(reg, fields, vals)
    &&& fields_faithful(reg, fields, skipping, vals)
}

/// One step of reading an encoded named record: the entry of a field that
/// is not skipped finds that field, whose slot is still empty, and fills it.
#[verifier::spinoff_prover]
pub proof fn lemma_named_scan_step(
    reg: Seq<TypeDecl>,
    fields: Seq<FieldDecl>,
    vals: Seq<ValueM>,
    encs: Seq<Encoded>,
    m: nat,
)
    requires
        crate::type_decl::keys_distinct(fields),
        0 < m <= fields.len(),
        vals.len() == fields.len(),
        encs == crate::ser::encs_of(reg, fields, vals),
        !fields[m - 1].attrs.skip,
        dec_field(reg, fields[m - 1], encs[m - 1].0, reg.len()) == Ok::<
            (ValueM, Seq<u64>),
            Failure,
        >((vals[m - 1], encs[m - 1].1)),
        ({
            let e = named_entries(fields, encs, fields.len() as nat);
            named_scan(
                fields,
                e,
                crate::de::dec_entries(reg, fields, e),
                named_entries(fields, encs, (m - 1) as nat).len(),
            ) == Ok::<(Seq<Option<ValueM>>, Seq<u64>), Failure>(
                (slots_after(fields, vals, (m - 1) as nat), crate::ser::named_trace(fields, encs, (m - 1) as nat)),
            )
        }),
    ensures
        ({
            let e = named_entries(fields, encs, fields.len() as nat);
            named_scan(
                fields,
                e,
                crate::de::dec_entries(reg, fields, e),
                named_entries(fields, encs, m).len(),
            ) == Ok::<(Seq<Option<ValueM>>, Seq<u64>), Failure>(
                (slots_after(fields, vals, m), crate::ser::named_trace(fields, encs, m)),
            )
        }),
{
    let n = fields.len() as nat;
    let e = named_entries(fields, encs, n);
    let ds = crate::de::dec_entries(reg, fields, e);
    let l = named_entries(fields, encs, (m - 1) as nat).len();
    let f = fields[m - 1];
    lemma_entries_prefix(fields, encs, m, n);
    assert(named_entries(fields, encs, m)[l as int] == (field_key(f), encs[m - 1].0));
    assert(e[l as int] == (field_key(f), encs[m - 1].0));
    lemma_find_own_key(fields, (m - 1) as nat, n);
    assert(ds[l as int] == dec_field(reg, f, encs[m - 1].0, reg.len()));
    assert(slots_after(fields, vals, m) =~= slots_after(fields, vals, (m - 1) as nat).update(
        m - 1,
        Some(vals[m - 1]),
    ));
}

/// Reading the entries of an encoded named record fills exactly the slots
/// of the fields encoded so far, and replays their reports.
pub proof fn lemma_named_scan(reg: Seq<TypeDecl>, fields: Seq<FieldDecl>, vals: Seq<ValueM>, m: nat)
    requires
        fields_round_trip_ready(reg, fields, true, vals),
        crate::type_decl::keys_distinct(fields),
        m <= fields.len(),
    ensures
        ({
            let encs = crate::ser::encs_of(reg, fields, vals);
            let e = named_entries(fields, encs, fields.len() as nat);
            named_scan(fields, e, crate::de::dec_entries(reg, fields, e), named_entries(fields, encs, m).len())
                == Ok::<(Seq<Option<ValueM>>, Seq<u64>), Failure>(
                (slots_after(fields, vals, m), crate::ser::named_trace(fields, encs, m)),
            )
        }),
    decreases vals, m,
{
    let encs = crate::ser::encs_of(reg, fields, vals);
    if m == 0 {
        assert(slots_after(fields, vals, 0) =~= Seq::new(fields.len(), |k: int| None::<ValueM>));
    } else {
        lemma_named_scan(reg, fields, vals, (m - 1) as nat);
        let f = fields[m - 1];
        if f.attrs.skip {
            assert(slots_after(fields, vals, m) =~= slots_after(fields, vals, (m - 1) as nat));
        } else {
            assert(crate::type_decl::field_ok(fields[m - 1], true, reg.len()));
            assert(crate::type_decl::conforms(reg, f.ty, vals[m - 1]));
            assert(field_faithful(reg, f, true, vals[m - 1]));
            if f.attrs.with is None && f.attrs.mode == ItemMode::Stateful {
                lemma_capable_heads(f.ty, reg.len());
            }
            lemma_field_round_trip(reg, f, vals[m - 1], reg.len());
            assert(encs[m - 1] == enc_field(reg, f, vals[m - 1]));
            lemma_named_scan_step(reg, fields, vals, encs, m);
        }
    }
}

/// Once every entry is read, the fields come out in order, skipped ones at
/// their defaults.
pub proof fn lemma_named_finish(fields: Seq<FieldDecl>, vals: Seq<ValueM>, m: nat)
    requires
        vals.len() == fields.len(),
        m <= fields.len(),
        forall|k: int|
            0 <= k < fields.len() && #[trigger] fields[k].attrs.skip ==> vals[k] == default_value(
                fields[k].ty,
            ),
    ensures
        named_finish(fields, slots_after(fields, vals, fields.len() as nat), m) == Ok::<
            Seq<ValueM>,
            DecodeErrorM,
        >(vals.take(m as int)),
    decreases m,
{
    if m > 0 {
        lemma_named_finish(fields, vals, (m - 1) as nat);
        assert(vals.take(m as int) =~= vals.take(m - 1).push(vals[m - 1]));
    } else {
        assert(vals.take(0) =~= Seq::<ValueM>::empty());
    }
}

/// Every encoded positional field reads back as itself.
pub proof fn lemma_positional_each(reg: Seq<TypeDecl>, fields: Seq<FieldDecl>, vals: Seq<ValueM>, m: nat)
    requires
        fields_round_trip_ready(reg, fields, false, vals),
        m <= fields.len(),
    ensures
        ({
            let encs = crate::ser::encs_of(reg, fields, vals);
            let ds = crate::de::dec_positional(reg, fields, crate::ser::wires_of(encs));
            forall|k: int|
                0 <= k < m ==> ds[k] == Ok::<(ValueM, Seq<u64>), Failure>(
                    (vals[k], encs[k].1),
                )
        }),
    decreases vals, m,
{
    if m > 0 {
        lemma_positional_each(reg, fields, vals, (m - 1) as nat);
        let f = fields[m - 1];
        assert(crate::type_decl::field_ok(fields[m - 1], false, reg.len()));
        assert(crate::type_decl::conforms(reg, f.ty, vals[m - 1]));
        assert(field_faithful(reg, f, false, vals[m - 1]));
        if f.attrs.with is None && f.attrs.mode == ItemMode::Stateful {
            lemma_capable_heads(f.ty, reg.len());
        }
        lemma_field_round_trip(reg, f, vals[m - 1], reg.len());
    }
}

/// One field reads back as itself.
pub proof fn lemma_field_round_trip(reg: Seq<TypeDecl>, f: FieldDecl, v: ValueM, lim: nat)
    requires
        crate::type_decl::registry_ok(reg),
        crate::type_decl::field_ok(f, false, reg.len()),
        crate::type_decl::conforms(reg, f.ty, v),
        field_faithful(reg, f, false, v),
        f.attrs.with is None && f.attrs.mode == ItemMode::Stateful ==> crate::schema::heads_below(
            f.ty,
            lim,
        ),
        lim <= reg.len(),
    ensures
        dec_field(reg, f, enc_field(reg, f, v).0, lim) == Ok::<(ValueM, Seq<u64>), Failure>(
            (v, enc_field(reg, f, v).1),
        ),
    decreases v, 1nat, f.ty,
{
    match f.attrs.with {
        Some(h) => {
            match h {
                crate::attrs::Hook::Shift(k) => lemma_shift_round_trip(v->Int_0, k),
            }
        },
        None => {
            if f.attrs.mode == ItemMode::Stateful {
                lemma_round_trip_at(reg, f.ty, v, lim);
            } else {
                lemma_plain_round_trip(reg, f.ty, v);
            }
        },
    }
}

} // verus!

verus! {

/// Round trip at any bound `lim` that admits the type.
pub proof fn lemma_round_trip_at(reg: Seq<TypeDecl>, s: Shape, v: ValueM, lim: nat)
    requires
        crate::type_decl::registry_ok(reg),
        crate::schema::stateful_capable(s, reg.len()),
        crate::schema::heads_below(s, lim),
        lim <= reg.len(),
        crate::type_decl::conforms(reg, s, v),
        faithful(reg, s, v),
    ensures
        dec_at(reg, s, crate::ser::enc(reg, s, v).0, lim) == Ok::<
            (ValueM, Seq<u64>),
            Failure,
        >((v, crate::ser::enc(reg, s, v).1)),
    decreases v, 0nat, s, 1nat,
{
    let n = reg.len();
    match s {
        Shape::List(t) => {
            let items = v->List_0;
            let encs = crate::ser::enc_items(reg, *t, items);
            let ws = crate::ser::wires_of(encs);
            let ds = crate::de::dec_items(reg, *t, ws);
            lemma_capable_heads(*t, n);
            assert forall|k: int| 0 <= k < items.len() implies ds[k] == Ok::<
                (ValueM, Seq<u64>),
                Failure,
            >((items[k], encs[k].1)) by {
                assert(crate::type_decl::conforms(reg, *t, items[k]));
                assert(faithful(reg, *t, items[k]));
                lemma_round_trip_at(reg, *t, items[k], n);
            }
            lemma_collect_ok(ds, items, encs, items.len());
            assert(items.take(items.len() as int) =~= items);
        },
        Shape::Maybe(t) => {
            if let ValueM::Present(x) = v {
                lemma_round_trip_at(reg, *t, *x, lim);
            }
        },
        Shape::Boxed(t) => {
            lemma_round_trip_at(reg, *t, v, lim);
        },
        Shape::Pair(a, b) => {
            let items = v->List_0;
            lemma_capable_heads(*a, n);
            lemma_capable_heads(*b, n);
            lemma_round_trip_at(reg, *a, items[0], n);
            lemma_round_trip_at(reg, *b, items[1], n);
            assert(seq![items[0], items[1]] =~= items);
        },
        Shape::Named(i) => {
            match reg[i as int].data {
                crate::type_decl::TypeData::Struct(_) => lemma_round_trip_struct(reg, i, v, lim),
                crate::type_decl::TypeData::Enum(_) => lemma_round_trip_enum(reg, i, v, lim),
            }
        },
        _ => {},
    }
}

/// Round trip: a value of a registered type, encoded with one context and
/// decoded with another, reads back as itself, and decoding replays exactly
/// the reports that encoding made, in the same order. No context appears in
/// either specification, so none can leak into the wire data.
pub proof fn lemma_round_trip(reg: Seq<TypeDecl>, s: Shape, v: ValueM)
    requires
        crate::type_decl::registry_ok(reg),
        crate::schema::stateful_capable(s, reg.len()),
        crate::type_decl::conforms(reg, s, v),
        faithful(reg, s, v),
    ensures
        crate::de::dec(reg, s, crate::ser::enc(reg, s, v).0) == Ok::<
            (ValueM, Seq<u64>),
            Failure,
        >((v, crate::ser::enc(reg, s, v).1)),
{
    lemma_capable_heads(s, reg.len());
    lemma_round_trip_at(reg, s, v, reg.len());
}

} // verus!

verus! {

/// Round trip of a value of a record type.
#[verifier::rlimit(60)]
pub proof fn lemma_round_trip_struct(reg: Seq<TypeDecl>, i: usize, v: ValueM, lim: nat)
    requires
        crate::type_decl::registry_ok(reg),
        i < lim,
        lim <= reg.len(),
        reg[i as int].data is Struct,
        crate::type_decl::conforms(reg, Shape::Named(i), v),
        faithful(reg, Shape::Named(i), v),
    ensures
        dec_at(reg, Shape::Named(i), crate::ser::enc(reg, Shape::Named(i), v).0, lim) == Ok::<
            (ValueM, Seq<u64>),
            Failure,
        >((v, crate::ser::enc(reg, Shape::Named(i), v).1)),
    decreases v, 0nat, Shape::Named(i), 0nat,
{
    let n = reg.len();
    let d = reg[i as int];
    assert(crate::type_decl::decl_ok(d, i as nat, n));
    let sd = d.data->Struct_0;
    assert(crate::type_decl::fields_conform(reg, sd.fields.fields@, v->Record_0));

    let fields = sd.fields.fields@;
    let vals = v->Record_0;
    let encs = crate::ser::encs_of(reg, fields, vals);
    let named = sd.fields.style == crate::type_decl::FieldsStyle::Named;
    let unnamed = sd.fields.style == crate::type_decl::FieldsStyle::Unnamed;
    assert(fields_faithful(reg, fields, !d.attrs.transparent && named, vals));
    let e = crate::ser::enc(reg, Shape::Named(i), v);
    if d.attrs.transparent || (unnamed && fields.len() == 1) {
        let f = fields[0];
        assert(crate::type_decl::field_ok(fields[0], false, n));
        assert(crate::type_decl::conforms(reg, f.ty, vals[0]));
        assert(field_faithful(reg, f, false, vals[0]));
        lemma_field_round_trip(reg, f, vals[0], i as nat);
        assert(e == encs[0]);
        assert(encs[0] == enc_field(reg, f, vals[0]));
        assert(crate::de::dec_struct(reg, d, sd, e.0, i as nat) == Ok::<
            (Seq<ValueM>, Seq<u64>),
            Failure,
        >((seq![vals[0]], e.1)));
        assert(seq![vals[0]] =~= vals);
    } else if named {
        assert(fields_round_trip_ready(reg, fields, true, vals));
        lemma_named_scan(reg, fields, vals, fields.len() as nat);
        assert forall|k: int|
            0 <= k < fields.len() && #[trigger] fields[k].attrs.skip implies vals[k]
            == default_value(fields[k].ty) by {
            assert(field_faithful(reg, fields[k], true, vals[k]));
        }
        lemma_named_finish(fields, vals, fields.len() as nat);
        assert(vals.take(vals.len() as int) =~= vals);
    } else if unnamed {
        if fields.len() == 0 {
            assert(vals =~= Seq::<ValueM>::empty());
        } else {
            assert(fields_round_trip_ready(reg, fields, false, vals));
            lemma_positional_each(reg, fields, vals, fields.len() as nat);
            let ds = crate::de::dec_positional(reg, fields, crate::ser::wires_of(encs));
            lemma_collect_ok(ds, vals, encs, fields.len() as nat);
            assert(vals.take(vals.len() as int) =~= vals);
        }
    } else {
        assert(vals =~= Seq::<ValueM>::empty());
    }
}

/// Round trip of a value of a union type.
#[verifier::rlimit(60)]
pub proof fn lemma_round_trip_enum(reg: Seq<TypeDecl>, i: usize, v: ValueM, lim: nat)
    requires
        crate::type_decl::registry_ok(reg),
        i < lim,
        lim <= reg.len(),
        reg[i as int].data is Enum,
        crate::type_decl::conforms(reg, Shape::Named(i), v),
        faithful(reg, Shape::Named(i), v),
    ensures
        dec_at(reg, Shape::Named(i), crate::ser::enc(reg, Shape::Named(i), v).0, lim) == Ok::<
            (ValueM, Seq<u64>),
            Failure,
        >((v, crate::ser::enc(reg, Shape::Named(i), v).1)),
    decreases v, 0nat, Shape::Named(i), 0nat,
{
    let n = reg.len();
    let d = reg[i as int];
    assert(crate::type_decl::decl_ok(d, i as nat, n));
    let ed = d.data->Enum_0;
    assert(v is Variant);
    assert(v->Variant_0 < ed.variants.len());
    assert(crate::type_decl::fields_conform(reg, ed.variants@[v->Variant_0 as int].fields.fields@, v->Variant_1));
    assert(fields_faithful(reg, ed.variants@[v->Variant_0 as int].fields.fields@, ed.variants@[v->Variant_0 as int].fields.style == crate::type_decl::FieldsStyle::Named, v->Variant_1));

    let variants = ed.variants@;
    let k = v->Variant_0;
    let vals = v->Variant_1;
    let vd = variants[k as int];
    let fields = vd.fields.fields@;
    let encs = crate::ser::encs_of(reg, fields, vals);
    assert(crate::type_decl::fields_ok(variants[k as int].fields, true, n));
    lemma_find_own_variant(variants, k, variants.len() as nat);
    let e = crate::ser::enc(reg, Shape::Named(i), v);
    assert(e == crate::ser::variant_body(vd, encs));
    let body = crate::ser::fields_body(vd.fields, encs);
    if vd.fields.style == crate::type_decl::FieldsStyle::Unit {
        assert(vals =~= Seq::<ValueM>::empty());
        assert(crate::de::dec_enum(reg, variants, e.0) == Ok::<(ValueM, Seq<u64>), Failure>(
            (ValueM::Variant(k, Seq::empty()), Seq::empty()),
        ));
    } else if vd.fields.style == crate::type_decl::FieldsStyle::Unnamed {
        if fields.len() == 0 {
            assert(vals =~= Seq::<ValueM>::empty());
            assert(crate::de::dec_positional(reg, fields, Seq::empty()).len() == 0);
            assert(crate::de::dec_payload(reg, vd.fields, WireM::Array(Seq::empty())) == Ok::<
                (Seq<ValueM>, Seq<u64>),
                Failure,
            >((Seq::empty(), Seq::empty())));
        } else if fields.len() == 1 {
            let f = fields[0];
            assert(crate::type_decl::field_ok(fields[0], false, n));
            assert(crate::type_decl::conforms(reg, f.ty, vals[0]));
            assert(field_faithful(reg, f, false, vals[0]));
            if f.attrs.with is None && f.attrs.mode == ItemMode::Stateful {
                lemma_capable_heads(f.ty, n);
            }
            lemma_field_round_trip(reg, f, vals[0], n);
            assert(seq![vals[0]] =~= vals);
            assert(body == encs[0]);
            assert(crate::de::dec_payload(reg, vd.fields, body.0) == Ok::<
                (Seq<ValueM>, Seq<u64>),
                Failure,
            >((vals, body.1)));
        } else {
            assert(fields_round_trip_ready(reg, fields, false, vals));
            lemma_positional_each(reg, fields, vals, fields.len() as nat);
            let ds = crate::de::dec_positional(reg, fields, crate::ser::wires_of(encs));
            lemma_collect_ok(ds, vals, encs, fields.len() as nat);
            assert(vals.take(vals.len() as int) =~= vals);
            assert(crate::de::dec_payload(reg, vd.fields, body.0) == Ok::<
                (Seq<ValueM>, Seq<u64>),
                Failure,
            >((vals, body.1)));
        }
    } else {
        assert(fields_round_trip_ready(reg, fields, true, vals));
        lemma_named_scan(reg, fields, vals, fields.len() as nat);
        assert forall|j: int|
            0 <= j < fields.len() && #[trigger] fields[j].attrs.skip implies vals[j]
            == default_value(fields[j].ty) by {
            assert(field_faithful(reg, fields[j], true, vals[j]));
        }
        lemma_named_finish(fields, vals, fields.len() as nat);
        assert(vals.take(vals.len() as int) =~= vals);
        assert(crate::de::dec_payload(reg, vd.fields, body.0) == Ok::<
            (Seq<ValueM>, Seq<u64>),
            Failure,
        >((vals, body.1)));
    }
}

} // verus!

verus! {

/// The integers of the stateful leaves of `v`, of type `s`, depth first and
/// left to right: leaves under a stateless, skipped or hooked field are not
/// among them.
pub open spec fn leaves(reg: Seq<TypeDecl>, s: Shape, v: ValueM) -> Seq<u64>
    decreases v, 0nat, s,
{
    match s {
        Shape::Counted => match v {
            ValueM::Int(n) => seq![n],
            _ => Seq::empty(),
        },
        Shape::List(t) => match v {
            ValueM::List(items) => items_leaves(reg, *t, items, items.len()),
            _ => Seq::empty(),
        },
        Shape::Maybe(t) => match v {
            ValueM::Present(x) => leaves(reg, *t, *x),
            _ => Seq::empty(),
        },
        Shape::Boxed(t) => leaves(reg, *t, v),
        Shape::Pair(a, b) => match v {
            ValueM::List(items) => if items.len() == 2 {
                leaves(reg, *a, items[0]) + leaves(reg, *b, items[1])
            } else {
                Seq::empty()
            },
            _ => Seq::empty(),
        },
        Shape::Named(i) => if i < reg.len() {
            match reg[i as int].data {
                crate::type_decl::TypeData::Struct(sd) => match v {
                    ValueM::Record(vals) => fields_leaves(
                        reg,
                        sd.fields.fields@,
                        !reg[i as int].attrs.transparent && sd.fields.style
                            == crate::type_decl::FieldsStyle::Named,
                        vals,
                        vals.len(),
                    ),
                    _ => Seq::empty(),
                },
                crate::type_decl::TypeData::Enum(ed) => match v {
                    ValueM::Variant(k, vals) => if k < ed.variants.len() {
                        fields_leaves(
                            reg,
                            ed.variants@[k as int].fields.fields@,
                            ed.variants@[k as int].fields.style
                                == crate::type_decl::FieldsStyle::Named,
                            vals,
                            vals.len(),
                        )
                    } else {
                        Seq::empty()
                    },
                    _ => Seq::empty(),
                },
            }
        } else {
            Seq::empty()
        },
        _ => Seq::empty(),
    }
}

/// The stateful leaves of the first `n` elements of a sequence.
pub open spec fn items_leaves(reg: Seq<TypeDecl>, t: Shape, items: Seq<ValueM>, n: nat) -> Seq<u64>
    decreases items, n,
{
    if n == 0 || n > items.len() {
        Seq::empty()
    } else {
        items_leaves(reg, t, items, (n - 1) as nat) + leaves(reg, t, items[n - 1])
    }
}

/// The stateful leaves of one field's value.
pub open spec fn field_leaves(reg: Seq<TypeDecl>, f: FieldDecl, skipping: bool, v: ValueM) -> Seq<u64>
    decreases v, 1nat, f.ty,
{
    if (skipping && f.attrs.skip) || f.attrs.with is Some || f.attrs.mode == ItemMode::Stateless {
        Seq::empty()
    } else {
        leaves(reg, f.ty, v)
    }
}

/// The stateful leaves of the first `n` fields.
pub open spec fn fields_leaves(
    reg: Seq<TypeDecl>,
    fields: Seq<FieldDecl>,
    skipping: bool,
    vals: Seq<ValueM>,
    n: nat,
) -> Seq<u64>
    decreases vals, n,
{
    if n == 0 || n > vals.len() || n > fields.len() {
        Seq::empty()
    } else {
        fields_leaves(reg, fields, skipping, vals, (n - 1) as nat) + field_leaves(
            reg,
            fields[n - 1],
            skipping,
            vals[n - 1],
        )
    }
}

pub proof fn lemma_items_leaves(reg: Seq<TypeDecl>, t: Shape, items: Seq<ValueM>, n: nat)
    requires
        crate::type_decl::registry_ok(reg),
        n <= items.len(),
        forall|k: int| 0 <= k < items.len() ==> crate::type_decl::conforms(reg, t, #[trigger] items[k]),
    ensures
        crate::ser::trace_of(crate::ser::enc_items(reg, t, items), n) == items_leaves(reg, t, items, n),
    decreases items, n,
{
    if n > 0 {
        lemma_items_leaves(reg, t, items, (n - 1) as nat);
        lemma_encoding_reports_leaves(reg, t, items[n - 1]);
    }
}

pub proof fn lemma_field_leaves(reg: Seq<TypeDecl>, f: FieldDecl, v: ValueM)
    requires
        crate::type_decl::registry_ok(reg),
        crate::type_decl::conforms(reg, f.ty, v),
    ensures
        enc_field(reg, f, v).1 == field_leaves(reg, f, false, v),
    decreases v, 1nat, f.ty,
{
    if f.attrs.with is None && f.attrs.mode == ItemMode::Stateful {
        lemma_encoding_reports_leaves(reg, f.ty, v);
    }
}

pub proof fn lemma_named_leaves(reg: Seq<TypeDecl>, fields: Seq<FieldDecl>, vals: Seq<ValueM>, n: nat)
    requires
        crate::type_decl::registry_ok(reg),
        crate::type_decl::fields_conform(reg, fields, vals),
        n <= fields.len(),
    ensures
        crate::ser::named_trace(fields, crate::ser::encs_of(reg, fields, vals), n) == fields_leaves(
            reg,
            fields,
            true,
            vals,
            n,
        ),
    decreases vals, n,
{
    if n > 0 {
        lemma_named_leaves(reg, fields, vals, (n - 1) as nat);
        assert(crate::type_decl::conforms(reg, fields[n - 1].ty, vals[n - 1]));
        lemma_field_leaves(reg, fields[n - 1], vals[n - 1]);
        let encs = crate::ser::encs_of(reg, fields, vals);
        assert(encs[n - 1] == enc_field(reg, fields[n - 1], vals[n - 1]));
        let prev = fields_leaves(reg, fields, true, vals, (n - 1) as nat);
        if fields[n - 1].attrs.skip {
            assert(field_leaves(reg, fields[n - 1], true, vals[n - 1]) =~= Seq::<u64>::empty());
            assert(prev + Seq::<u64>::empty() =~= prev);
        } else {
            assert(field_leaves(reg, fields[n - 1], true, vals[n - 1]) == field_leaves(
                reg,
                fields[n - 1],
                false,
                vals[n - 1],
            ));
        }
    }
}

pub proof fn lemma_positional_leaves(
    reg: Seq<TypeDecl>,
    fields: Seq<FieldDecl>,
    vals: Seq<ValueM>,
    n: nat,
)
    requires
        crate::type_decl::registry_ok(reg),
        crate::type_decl::fields_conform(reg, fields, vals),
        n <= fields.len(),
    ensures
        crate::ser::trace_of(crate::ser::encs_of(reg, fields, vals), n) == fields_leaves(
            reg,
            fields,
            false,
            vals,
            n,
        ),
    decreases vals, n,
{
    if n > 0 {
        lemma_positional_leaves(reg, fields, vals, (n - 1) as nat);
        assert(crate::type_decl::conforms(reg, fields[n - 1].ty, vals[n - 1]));
        lemma_field_leaves(reg, fields[n - 1], vals[n - 1]);
        let encs = crate::ser::encs_of(reg, fields, vals);
        assert(encs[n - 1] == enc_field(reg, fields[n - 1], vals[n - 1]));
    }
}

/// Encoding reports each stateful leaf exactly once, depth first and left to
/// right; by the round trip, decoding replays the same reports.
pub proof fn lemma_encoding_reports_leaves(reg: Seq<TypeDecl>, s: Shape, v: ValueM)
    requires
        crate::type_decl::registry_ok(reg),
        crate::type_decl::conforms(reg, s, v),
    ensures
        crate::ser::enc(reg, s, v).1 == leaves(reg, s, v),
    decreases v, 0nat, s,
{
    match s {
        Shape::List(t) => {
            lemma_items_leaves(reg, *t, v->List_0, v->List_0.len());
        },
        Shape::Maybe(t) => {
            if let ValueM::Present(x) = v {
                lemma_encoding_reports_leaves(reg, *t, *x);
            }
        },
        Shape::Boxed(t) => {
            lemma_encoding_reports_leaves(reg, *t, v);
        },
        Shape::Pair(a, b) => {
            lemma_encoding_reports_leaves(reg, *a, v->List_0[0]);
            lemma_encoding_reports_leaves(reg, *b, v->List_0[1]);
        },
        Shape::Named(i) => {
            let d = reg[i as int];
            assert(crate::type_decl::decl_ok(d, i as nat, reg.len()));
            match d.data {
                crate::type_decl::TypeData::Struct(sd) => {
                    let fields = sd.fields.fields@;
                    let vals = v->Record_0;
                    let named = sd.fields.style == crate::type_decl::FieldsStyle::Named;
                    assert(crate::type_decl::fields_conform(reg, fields, vals));
                    if d.attrs.transparent || (!named && fields.len() == 1) {
                        if fields.len() > 0 {
                            assert(crate::type_decl::conforms(reg, fields[0].ty, vals[0]));
                            lemma_field_leaves(reg, fields[0], vals[0]);
                            assert(crate::ser::encs_of(reg, fields, vals)[0] == enc_field(
                                reg,
                                fields[0],
                                vals[0],
                            ));
                            assert(fields_leaves(reg, fields, false, vals, 0) + field_leaves(
                                reg,
                                fields[0],
                                false,
                                vals[0],
                            ) =~= field_leaves(reg, fields[0], false, vals[0]));
                            assert(fields_leaves(reg, fields, !d.attrs.transparent && named, vals, 1)
                                == fields_leaves(reg, fields, false, vals, 1));
                        }
                    } else if named {
                        lemma_named_leaves(reg, fields, vals, fields.len() as nat);
                    } else {
                        lemma_positional_leaves(reg, fields, vals, fields.len() as nat);
                    }
                },
                crate::type_decl::TypeData::Enum(ed) => {
                    let k = v->Variant_0;
                    let vals = v->Variant_1;
                    let vd = ed.variants@[k as int];
                    let fields = vd.fields.fields@;
                    assert(crate::type_decl::fields_ok(vd.fields, true, reg.len()));
                    assert(crate::type_decl::fields_conform(reg, fields, vals));
                    if vd.fields.style == crate::type_decl::FieldsStyle::Named {
                        lemma_named_leaves(reg, fields, vals, fields.len() as nat);
                    } else if vd.fields.style == crate::type_decl::FieldsStyle::Unnamed {
                        lemma_positional_leaves(reg, fields, vals, fields.len() as nat);
                        if fields.len() == 1 {
                            assert(crate::type_decl::conforms(reg, fields[0].ty, vals[0]));
                            lemma_field_leaves(reg, fields[0], vals[0]);
                            assert(crate::ser::encs_of(reg, fields, vals)[0] == enc_field(
                                reg,
                                fields[0],
                                vals[0],
                            ));
                            assert(fields_leaves(reg, fields, false, vals, 0) + field_leaves(
                                reg,
                                fields[0],
                                false,
                                vals[0],
                            ) =~= field_leaves(reg, fields[0], false, vals[0]));
                        }
                    } else {
                        assert(vals.len() == 0);
                        assert(crate::ser::variant_body(vd, crate::ser::encs_of(reg, fields, vals)).1
                            =~= Seq::<u64>::empty());
                        assert(crate::ser::enc(reg, s, v) == crate::ser::variant_body(
                            vd,
                            crate::ser::encs_of(reg, fields, vals),
                        ));
                        assert(leaves(reg, s, v) == fields_leaves(reg, fields, false, vals, 0));
                    }
                },
            }
        },
        _ => {},
    }
}

} // verus!

verus! {

/// Decoding an encoded value reports each stateful leaf exactly once, depth
/// first and left to right, as encoding did.
pub proof fn lemma_decoding_reports_leaves(reg: Seq<TypeDecl>, s: Shape, v: ValueM)
    requires
        crate::type_decl::registry_ok(reg),
        crate::schema::stateful_capable(s, reg.len()),
        crate::type_decl::conforms(reg, s, v),
        faithful(reg, s, v),
    ensures
        crate::de::dec(reg, s, crate::ser::enc(reg, s, v).0) == Ok::<
            (ValueM, Seq<u64>),
            Failure,
        >((v, leaves(reg, s, v))),
{
    lemma_round_trip(reg, s, v);
    lemma_encoding_reports_leaves(reg, s, v);
}

} // verus!

verus! {

/// An unknown union tag is an error that names the tag and every variant,
/// in declaration order; no payload is decoded, so nothing reports to the
/// context.
pub proof fn lemma_unknown_tag_reports_nothing(
    reg: Seq<TypeDecl>,
    variants: Seq<crate::type_decl::VariantDecl>,
    tag: Seq<char>,
    payload: WireM,
)
    requires
        crate::de::find_variant(variants, tag, variants.len()) is None,
    ensures
        crate::de::dec_enum(reg, variants, WireM::Str(tag)) == Err::<(ValueM, Seq<u64>), Failure>(
            (DecodeErrorM::UnknownVariant(tag, crate::de::variant_names(variants)), Seq::empty()),
        ),
        crate::de::dec_enum(reg, variants, WireM::Object(seq![(tag, payload)])) == Err::<
            (ValueM, Seq<u64>),
            Failure,
        >((DecodeErrorM::UnknownVariant(tag, crate::de::variant_names(variants)), Seq::empty())),
{
    assert(seq![(tag, payload)][0] == (tag, payload));
}

/// A repeated key is rejected when it is read, before its value is decoded:
/// the error carries only the reports of the entries before it, whatever
/// the repeated value would have decoded to.
pub proof fn lemma_duplicate_rejected_before_value(
    fields: Seq<FieldDecl>,
    entries: Seq<(Seq<char>, WireM)>,
    ds: Seq<Decoded>,
    j: nat,
    other: Decoded,
)
    requires
        j < entries.len(),
        j < ds.len(),
        named_scan(fields, entries, ds, j) is Ok,
        find_field(fields, entries[j as int].0, fields.len()) matches Some(k) && named_scan(
            fields,
            entries,
            ds,
            j,
        )->Ok_0.0[k as int] is Some,
    ensures
        named_scan(fields, entries, ds, j + 1) == Err::<(Seq<Option<ValueM>>, Seq<u64>), Failure>(
            (DecodeErrorM::DuplicateField(entries[j as int].0), named_scan(fields, entries, ds, j)->Ok_0.1),
        ),
        named_scan(fields, entries, ds.update(j as int, other), j + 1) == named_scan(
            fields,
            entries,
            ds,
            j + 1,
        ),
{
    lemma_scan_prefix(fields, entries, ds, ds.update(j as int, other), j);
}

/// The scan of the first `j` entries depends only on the first `j`
/// decodings.
pub proof fn lemma_scan_prefix(
    fields: Seq<FieldDecl>,
    entries: Seq<(Seq<char>, WireM)>,
    ds: Seq<Decoded>,
    ds2: Seq<Decoded>,
    j: nat,
)
    requires
        j <= ds.len(),
        j <= ds2.len(),
        forall|i: int| 0 <= i < j ==> ds[i] == ds2[i],
    ensures
        named_scan(fields, entries, ds, j) == named_scan(fields, entries, ds2, j),
    decreases j,
{
    if j > 0 {
        lemma_scan_prefix(fields, entries, ds, ds2, (j - 1) as nat);
    }
}

/// A field lookup only ever finds a field that is not skipped and whose key
/// matches: an entry under a skipped field's name is never decoded into it.
pub proof fn lemma_lookup_never_skipped(fields: Seq<FieldDecl>, key: Seq<char>, n: nat)
    ensures
        find_field(fields, key, n) matches Some(k) ==> k < n && !fields[k as int].attrs.skip
            && field_key(fields[k as int]) == key,
    decreases n,
{
    if n > 0 {
        lemma_lookup_never_skipped(fields, key, (n - 1) as nat);
    }
}

/// Once every field that is not skipped has been read, the record is
/// complete, and each skipped field holds the default of its type.
pub proof fn lemma_finish_when_required_present(
    fields: Seq<FieldDecl>,
    slots: Seq<Option<ValueM>>,
    n: nat,
)
    requires
        n <= fields.len(),
        n <= slots.len(),
        forall|k: int| 0 <= k < n && !(#[trigger] fields[k]).attrs.skip ==> slots[k] is Some,
    ensures
        named_finish(fields, slots, n) is Ok,
        forall|k: int|
            0 <= k < n && #[trigger] fields[k].attrs.skip ==> named_finish(fields, slots, n)->Ok_0[k]
                == default_value(fields[k].ty),
    decreases n,
{
    if n > 0 {
        lemma_finish_when_required_present(fields, slots, (n - 1) as nat);
    }
    if named_finish(fields, slots, n) is Ok {
        lemma_skipped_fields_take_default(fields, slots, n);
    }
}

/// Two field lists that differ only in the rename of field `j`.
pub open spec fn renamed_at(f: Seq<FieldDecl>, g: Seq<FieldDecl>, j: int) -> bool {
    &&& f.len() == g.len()
    &&& 0 <= j < f.len()
    &&& forall|i: int| 0 <= i < f.len() && i != j ==> #[trigger] g[i] == f[i]
    &&& g[j].ty == f[j].ty
    &&& g[j].ident == f[j].ident
    &&& g[j].attrs.mode == f[j].attrs.mode
    &&& g[j].attrs.with == f[j].attrs.with
    &&& g[j].attrs.skip == f[j].attrs.skip
}

/// Renaming a field of a named record changes the encoding only in that
/// field's key: the same entries come out in the same order with the same
/// values, and the renamed field's old key is replaced by its new one.
pub proof fn lemma_rename_in_record(
    reg: Seq<TypeDecl>,
    f: Seq<FieldDecl>,
    g: Seq<FieldDecl>,
    vals: Seq<ValueM>,
    j: int,
    n: nat,
)
    requires
        renamed_at(f, g, j),
        crate::type_decl::keys_distinct(f),
        !f[j].attrs.skip,
        n <= f.len(),
    ensures
        crate::ser::encs_of(reg, g, vals) == crate::ser::encs_of(reg, f, vals),
        ({
            let encs = crate::ser::encs_of(reg, f, vals);
            let ef = named_entries(f, encs, n);
            let eg = named_entries(g, encs, n);
            &&& eg.len() == ef.len()
            &&& forall|i: int|
                0 <= i < ef.len() ==> (#[trigger] eg[i]).1 == ef[i].1 && eg[i].0 == if ef[i].0
                    == field_key(f[j]) {
                    field_key(g[j])
                } else {
                    ef[i].0
                }
        }),
    decreases n,
{
    assert forall|k: int| 0 <= k < f.len() implies #[trigger] g[k].attrs.with == f[k].attrs.with
        && g[k].attrs.mode == f[k].attrs.mode && g[k].ty == f[k].ty by {
        if k != j {
            assert(g[k] == f[k]);
        }
    }
    assert(crate::ser::encs_of(reg, g, vals) =~= crate::ser::encs_of(reg, f, vals));
    if n > 0 {
        lemma_rename_in_record(reg, f, g, vals, j, (n - 1) as nat);
        let m = n - 1;
        if m != j {
            assert(g[m] == f[m]);
            if !f[m].attrs.skip {
                assert(field_key(f[m]) != field_key(f[j]));
            }
        }
    }
}

} // verus!
