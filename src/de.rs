//! The deserialization engine: wire shape and context to value.
use crate::attrs::hook_decoded;
use crate::mode::ItemMode;
use crate::schema::{heads_below, Shape};
use crate::type_decl::{field_key, FieldDecl, FieldsStyle, TypeData, TypeDecl, VariantDecl};
use crate::value::{Recorder, Value, ValueM};
use crate::wire::{Wire, WireM};
use vstd::prelude::*;

verus! {

/// Mathematical model of a decode error.
pub enum DecodeErrorM {
    DuplicateField(Seq<char>),
    MissingField(Seq<char>),
    UnknownVariant(Seq<char>, Seq<Seq<char>>),
    InvalidLength(nat),
    InvalidType,
}

/// Why a wire value could not be decoded.
#[derive(Debug, PartialEq, Eq)]
pub enum DecodeError {
    /// A named field's key occurred twice in one object.
    DuplicateField(String),
    /// A required named field's key did not occur.
    MissingField(String),
    /// A union tag named no variant; the known variant names follow.
    UnknownVariant(String, Vec<String>),
    /// A positional sequence ended early or ran long, at this index.
    InvalidLength(usize),
    /// The wire value has the wrong kind for the expected type.
    InvalidType,
}

/// The models of a sequence of strings.
pub open spec fn string_views(names: Seq<String>) -> Seq<Seq<char>> {
    Seq::new(names.len(), |i: int| names[i]@)
}

impl DecodeError {
    pub open spec fn view(&self) -> DecodeErrorM {
        match self {
            DecodeError::DuplicateField(k) => DecodeErrorM::DuplicateField(k@),
            DecodeError::MissingField(k) => DecodeErrorM::MissingField(k@),
            DecodeError::UnknownVariant(t, names) => DecodeErrorM::UnknownVariant(
                t@,
                string_views(names@),
            ),
            DecodeError::InvalidLength(i) => DecodeErrorM::InvalidLength(*i as nat),
            DecodeError::InvalidType => DecodeErrorM::InvalidType,
        }
    }
}

/// A decoded value with the integers that stateful leaves reported to the
/// context while decoding it, in order.
pub type Decoded = Result<(ValueM, Seq<u64>), Failure>;

/// A decode error with the integers that stateful leaves reported to the
/// context before it, in order.
pub type Failure = (DecodeErrorM, Seq<u64>);

/// The value a skipped field takes on decode.
pub open spec fn default_value(s: Shape) -> ValueM
    decreases s,
{
    match s {
        Shape::Phantom => ValueM::Unit,
        Shape::List(_) => ValueM::List(Seq::empty()),
        Shape::Maybe(_) => ValueM::Absent,
        Shape::Boxed(t) => default_value(*t),
        Shape::Pair(a, b) => ValueM::List(seq![default_value(*a), default_value(*b)]),
        Shape::Named(_) => ValueM::Unit,
        _ => ValueM::Int(0),
    }
}

/// The first `n` results, or the first error among them.
pub open spec fn collect_plain(rs: Seq<Result<ValueM, DecodeErrorM>>, n: nat) -> Result<
    Seq<ValueM>,
    DecodeErrorM,
>
    decreases n,
{
    if n == 0 {
        Ok(Seq::empty())
    } else {
        match collect_plain(rs, (n - 1) as nat) {
            Err(e) => Err(e),
            Ok(vs) => match rs[n - 1] {
                Err(e) => Err(e),
                Ok(v) => Ok(vs.push(v)),
            },
        }
    }
}

/// Context-free decodings of the elements of a sequence.
pub open spec fn dec_plain_items(t: Shape, items: Seq<WireM>) -> Seq<Result<ValueM, DecodeErrorM>>
    decreases items, 0nat,
{
    Seq::new(
        items.len(),
        |k: int|
            if 0 <= k < items.len() {
                dec_plain(t, items[k])
            } else {
                Err(DecodeErrorM::InvalidType)
            },
    )
}

/// Context-free decoding: no context is involved.
pub open spec fn dec_plain(s: Shape, w: WireM) -> Result<ValueM, DecodeErrorM>
    decreases w, 0nat, s,
{
    match s {
        Shape::Phantom => match w {
            WireM::Null => Ok(ValueM::Unit),
            _ => Err(DecodeErrorM::InvalidType),
        },
        Shape::List(t) => match w {
            WireM::Array(items) => {
                match collect_plain(dec_plain_items(*t, items), items.len()) {
                    Ok(vs) => Ok(ValueM::List(vs)),
                    Err(e) => Err(e),
                }
            },
            _ => Err(DecodeErrorM::InvalidType),
        },
        Shape::Maybe(t) => match w {
            WireM::Null => Ok(ValueM::Absent),
            _ => match dec_plain(*t, w) {
                Ok(v) => Ok(ValueM::Present(Box::new(v))),
                Err(e) => Err(e),
            },
        },
        Shape::Boxed(t) => dec_plain(*t, w),
        Shape::Pair(a, b) => match w {
            WireM::Array(items) => if items.len() == 0 {
                Err(DecodeErrorM::InvalidLength(0))
            } else {
                match dec_plain(*a, items[0]) {
                    Err(e) => Err(e),
                    Ok(x) => if items.len() == 1 {
                        Err(DecodeErrorM::InvalidLength(1))
                    } else {
                        match dec_plain(*b, items[1]) {
                            Err(e) => Err(e),
                            Ok(y) => if items.len() > 2 {
                                Err(DecodeErrorM::InvalidLength(2))
                            } else {
                                Ok(ValueM::List(seq![x, y]))
                            },
                        }
                    },
                }
            },
            _ => Err(DecodeErrorM::InvalidType),
        },
        Shape::Named(_) => Err(DecodeErrorM::InvalidType),
        _ => match w {
            WireM::Int(n) => Ok(ValueM::Int(n)),
            _ => Err(DecodeErrorM::InvalidType),
        },
    }
}

/// The first `n` decodings, or the first error among them.
pub open spec fn collect(ds: Seq<Decoded>, n: nat) -> Result<(Seq<ValueM>, Seq<u64>), Failure>
    decreases n,
{
    if n == 0 {
        Ok((Seq::empty(), Seq::empty()))
    } else {
        match collect(ds, (n - 1) as nat) {
            Err(e) => Err(e),
            Ok((vs, tr)) => match ds[n - 1] {
                Err((e, p)) => Err((e, tr + p)),
                Ok((v, t)) => Ok((vs.push(v), tr + t)),
            },
        }
    }
}

/// The index of the first of the first `n` fields that is not skipped and
/// whose wire key is `key`.
pub open spec fn find_field(fields: Seq<FieldDecl>, key: Seq<char>, n: nat) -> Option<nat>
    decreases n,
{
    if n == 0 {
        None
    } else {
        match find_field(fields, key, (n - 1) as nat) {
            Some(k) => Some(k),
            None => if !fields[n - 1].attrs.skip && field_key(fields[n - 1]) == key {
                Some((n - 1) as nat)
            } else {
                None
            },
        }
    }
}

/// The index of the first of the first `n` variants named `tag`.
pub open spec fn find_variant(variants: Seq<VariantDecl>, tag: Seq<char>, n: nat) -> Option<nat>
    decreases n,
{
    if n == 0 {
        None
    } else {
        match find_variant(variants, tag, (n - 1) as nat) {
            Some(k) => Some(k),
            None => if variants[n - 1].ident@ == tag {
                Some((n - 1) as nat)
            } else {
                None
            },
        }
    }
}

pub open spec fn variant_names(variants: Seq<VariantDecl>) -> Seq<Seq<char>> {
    Seq::new(variants.len(), |k: int| variants[k].ident@)
}

/// The state of a named-record decode after the first `n` object entries:
/// one slot per declared field, and the reports so far.
pub open spec fn named_scan(
    fields: Seq<FieldDecl>,
    entries: Seq<(Seq<char>, WireM)>,
    ds: Seq<Decoded>,
    n: nat,
) -> Result<(Seq<Option<ValueM>>, Seq<u64>), Failure>
    decreases n,
{
    if n == 0 {
        Ok((Seq::new(fields.len(), |k: int| None), Seq::empty()))
    } else {
        match named_scan(fields, entries, ds, (n - 1) as nat) {
            Err(e) => Err(e),
            Ok((slots, tr)) => match find_field(fields, entries[n - 1].0, fields.len()) {
                None => Ok((slots, tr)),
                Some(k) => if slots[k as int] is Some {
                    Err((DecodeErrorM::DuplicateField(entries[n - 1].0), tr))
                } else {
                    match ds[n - 1] {
                        Err((e, p)) => Err((e, tr + p)),
                        Ok((v, t)) => Ok((slots.update(k as int, Some(v)), tr + t)),
                    }
                },
            },
        }
    }
}

/// The first `n` field values of a named record once every entry is read:
/// a skipped field takes its default, a missing one is an error.
pub open spec fn named_finish(fields: Seq<FieldDecl>, slots: Seq<Option<ValueM>>, n: nat) -> Result<
    Seq<ValueM>,
    DecodeErrorM,
>
    decreases n,
{
    if n == 0 {
        Ok(Seq::empty())
    } else {
        match named_finish(fields, slots, (n - 1) as nat) {
            Err(e) => Err(e),
            Ok(vs) => if fields[n - 1].attrs.skip {
                Ok(vs.push(default_value(fields[n - 1].ty)))
            } else {
                match slots[n - 1] {
                    Some(v) => Ok(vs.push(v)),
                    None => Err(DecodeErrorM::MissingField(field_key(fields[n - 1]))),
                }
            },
        }
    }
}

/// A named record decoded from the object `entries`, whose values decode
/// to `ds` (unknown keys' values are never decoded).
pub open spec fn named_result(
    fields: Seq<FieldDecl>,
    entries: Seq<(Seq<char>, WireM)>,
    ds: Seq<Decoded>,
) -> Result<(Seq<ValueM>, Seq<u64>), Failure> {
    match named_scan(fields, entries, ds, entries.len()) {
        Err(e) => Err(e),
        Ok((slots, tr)) => match named_finish(fields, slots, fields.len()) {
            Err(e) => Err((e, tr)),
            Ok(vs) => Ok((vs, tr)),
        },
    }
}

/// A positional record of `nf` fields decoded from a sequence of `ni`
/// elements, whose first elements decode to `ds`.
pub open spec fn positional_result(ds: Seq<Decoded>, nf: nat, ni: nat) -> Result<(Seq<ValueM>, Seq<u64>), Failure> {
    let m = if ni < nf {
        ni
    } else {
        nf
    };
    match collect(ds, m) {
        Err(e) => Err(e),
        Ok(r) => if ni < nf {
            Err((DecodeErrorM::InvalidLength(ni), r.1))
        } else if ni > nf {
            Err((DecodeErrorM::InvalidLength(nf), r.1))
        } else {
            Ok(r)
        },
    }
}

/// Decodes one field: through its hook, with the context, or without it.
pub open spec fn dec_field(reg: Seq<TypeDecl>, f: FieldDecl, w: WireM, lim: nat) -> Decoded
    decreases w, 2 * lim, f.ty, 1nat,
{
    match f.attrs.with {
        Some(h) => match w {
            WireM::Int(n) => Ok((ValueM::Int(hook_decoded(h, n)), Seq::empty())),
            _ => Err((DecodeErrorM::InvalidType, Seq::empty())),
        },
        None => if f.attrs.mode == ItemMode::Stateful {
            dec_at(reg, f.ty, w, lim)
        } else {
            match dec_plain(f.ty, w) {
                Ok(v) => Ok((v, Seq::empty())),
                Err(e) => Err((e, Seq::empty())),
            }
        },
    }
}

/// Stateful decodings of the elements of a sequence.
pub open spec fn dec_items(reg: Seq<TypeDecl>, t: Shape, items: Seq<WireM>) -> Seq<Decoded>
    decreases items, 0nat,
{
    Seq::new(
        items.len(),
        |k: int|
            if 0 <= k < items.len() {
                dec_at(reg, t, items[k], reg.len())
            } else {
                Err((DecodeErrorM::InvalidType, Seq::empty()))
            },
    )
}

/// Decodings of the leading elements of a sequence as positional fields.
pub open spec fn dec_positional(reg: Seq<TypeDecl>, fields: Seq<FieldDecl>, items: Seq<WireM>) -> Seq<
    Decoded,
>
    decreases items, 0nat,
{
    Seq::new(
        if items.len() < fields.len() {
            items.len()
        } else {
            fields.len()
        },
        |k: int|
            if 0 <= k < items.len() && k < fields.len() {
                dec_field(reg, fields[k], items[k], reg.len())
            } else {
                Err((DecodeErrorM::InvalidType, Seq::empty()))
            },
    )
}

/// Decodings of the values of object entries as the named fields their
/// keys select; entries with unknown keys are not decoded.
pub open spec fn dec_entries(
    reg: Seq<TypeDecl>,
    fields: Seq<FieldDecl>,
    entries: Seq<(Seq<char>, WireM)>,
) -> Seq<Decoded>
    decreases entries, 0nat,
{
    Seq::new(
        entries.len(),
        |j: int|
            if 0 <= j < entries.len() {
                match find_field(fields, entries[j].0, fields.len()) {
                    Some(k) => if k < fields.len() {
                        dec_field(reg, fields[k as int], entries[j].1, reg.len())
                    } else {
                        Err((DecodeErrorM::InvalidType, Seq::empty()))
                    },
                    None => Ok((ValueM::Unit, Seq::empty())),
                }
            } else {
                Err((DecodeErrorM::InvalidType, Seq::empty()))
            },
    )
}

/// Decodes the payload of a union variant.
pub open spec fn dec_payload(reg: Seq<TypeDecl>, fd: crate::type_decl::FieldsDecl, p: WireM) -> Result<(Seq<ValueM>, Seq<u64>), Failure>
    decreases p, 2 * reg.len() + 1,
{
    let fields = fd.fields@;
    match fd.style {
        FieldsStyle::Unit => match p {
            WireM::Null => Ok((Seq::empty(), Seq::empty())),
            _ => Err((DecodeErrorM::InvalidType, Seq::empty())),
        },
        FieldsStyle::Unnamed => if fields.len() == 1 {
            match dec_field(reg, fields[0], p, reg.len()) {
                Ok((v, tr)) => Ok((seq![v], tr)),
                Err(e) => Err(e),
            }
        } else {
            match p {
                WireM::Array(items) => positional_result(
                    dec_positional(reg, fields, items),
                    fields.len(),
                    items.len(),
                ),
                _ => Err((DecodeErrorM::InvalidType, Seq::empty())),
            }
        },
        FieldsStyle::Named => match p {
            WireM::Object(entries) => named_result(fields, entries, dec_entries(reg, fields, entries)),
            _ => Err((DecodeErrorM::InvalidType, Seq::empty())),
        },
    }
}

/// Decodes a record body that takes no wire nesting of its own: a
/// transparent record or a single positional field.
pub open spec fn dec_struct(reg: Seq<TypeDecl>, d: TypeDecl, sd: crate::type_decl::StructDecl, w: WireM, i: nat) -> Result<(Seq<ValueM>, Seq<u64>), Failure>
    decreases w, 2 * i + 1,
{
    let fields = sd.fields.fields@;
    if d.attrs.transparent || (sd.fields.style == FieldsStyle::Unnamed && fields.len() == 1) {
        if fields.len() == 1 {
            match dec_field(reg, fields[0], w, i) {
                Ok((v, tr)) => Ok((seq![v], tr)),
                Err(e) => Err(e),
            }
        } else {
            Err((DecodeErrorM::InvalidType, Seq::empty()))
        }
    } else {
        match sd.fields.style {
            FieldsStyle::Named => match w {
                WireM::Object(entries) => named_result(
                    fields,
                    entries,
                    dec_entries(reg, fields, entries),
                ),
                _ => Err((DecodeErrorM::InvalidType, Seq::empty())),
            },
            FieldsStyle::Unnamed => if fields.len() == 0 {
                match w {
                    WireM::Null => Ok((Seq::empty(), Seq::empty())),
                    _ => Err((DecodeErrorM::InvalidType, Seq::empty())),
                }
            } else {
                match w {
                    WireM::Array(items) => positional_result(
                        dec_positional(reg, fields, items),
                        fields.len(),
                        items.len(),
                    ),
                    _ => Err((DecodeErrorM::InvalidType, Seq::empty())),
                }
            },
            FieldsStyle::Unit => match w {
                WireM::Null => Ok((Seq::empty(), Seq::empty())),
                _ => Err((DecodeErrorM::InvalidType, Seq::empty())),
            },
        }
    }
}

/// Decodes a union from a bare variant name or a one-entry object.
pub open spec fn dec_enum(reg: Seq<TypeDecl>, variants: Seq<VariantDecl>, w: WireM) -> Decoded
    decreases w, 0nat,
{
    match w {
        WireM::Str(tag) => match find_variant(variants, tag, variants.len()) {
            None => Err((DecodeErrorM::UnknownVariant(tag, variant_names(variants)), Seq::empty())),
            Some(k) => if k < variants.len() && variants[k as int].fields.style == FieldsStyle::Unit {
                Ok((ValueM::Variant(k, Seq::empty()), Seq::empty()))
            } else {
                Err((DecodeErrorM::InvalidType, Seq::empty()))
            },
        },
        WireM::Object(entries) => if entries.len() == 1 {
            match find_variant(variants, entries[0].0, variants.len()) {
                None => Err((DecodeErrorM::UnknownVariant(entries[0].0, variant_names(variants)), Seq::empty())),
                Some(k) => if k < variants.len() {
                    match dec_payload(reg, variants[k as int].fields, entries[0].1) {
                        Ok((vs, tr)) => Ok((ValueM::Variant(k, vs), tr)),
                        Err(e) => Err(e),
                    }
                } else {
                    Err((DecodeErrorM::InvalidType, Seq::empty()))
                },
            }
        } else {
            Err((DecodeErrorM::InvalidType, Seq::empty()))
        },
        _ => Err((DecodeErrorM::InvalidType, Seq::empty())),
    }
}

/// Stateful decoding of a value of type `s`. `lim` bounds the registry
/// indices reachable without entering a nested wire value, which keeps
/// decoding finite.
pub open spec fn dec_at(reg: Seq<TypeDecl>, s: Shape, w: WireM, lim: nat) -> Decoded
    decreases w, 2 * lim, s, 0nat,
{
    if !heads_below(s, lim) {
        Err((DecodeErrorM::InvalidType, Seq::empty()))
    } else {
        match s {
            Shape::Counted => match w {
                WireM::Int(n) => Ok((ValueM::Int(n), seq![n])),
                _ => Err((DecodeErrorM::InvalidType, Seq::empty())),
            },
            Shape::Phantom => Ok((ValueM::Unit, Seq::empty())),
            Shape::List(t) => match w {
                WireM::Array(items) => match collect(dec_items(reg, *t, items), items.len()) {
                    Ok((vs, tr)) => Ok((ValueM::List(vs), tr)),
                    Err(e) => Err(e),
                },
                _ => Err((DecodeErrorM::InvalidType, Seq::empty())),
            },
            Shape::Maybe(t) => match w {
                WireM::Null => Ok((ValueM::Absent, Seq::empty())),
                _ => match dec_at(reg, *t, w, lim) {
                    Ok((v, tr)) => Ok((ValueM::Present(Box::new(v)), tr)),
                    Err(e) => Err(e),
                },
            },
            Shape::Boxed(t) => dec_at(reg, *t, w, lim),
            Shape::Pair(a, b) => match w {
                WireM::Array(items) => if items.len() == 0 {
                    Err((DecodeErrorM::InvalidLength(0), Seq::empty()))
                } else {
                    match dec_at(reg, *a, items[0], reg.len()) {
                        Err(e) => Err(e),
                        Ok((x, tx)) => if items.len() == 1 {
                            Err((DecodeErrorM::InvalidLength(1), tx))
                        } else {
                            match dec_at(reg, *b, items[1], reg.len()) {
                                Err((e, p)) => Err((e, tx + p)),
                                Ok((y, ty)) => if items.len() > 2 {
                                    Err((DecodeErrorM::InvalidLength(2), tx + ty))
                                } else {
                                    Ok((ValueM::List(seq![x, y]), tx + ty))
                                },
                            }
                        },
                    }
                },
                _ => Err((DecodeErrorM::InvalidType, Seq::empty())),
            },
            Shape::Named(i) => if i < reg.len() {
                match reg[i as int].data {
                    TypeData::Struct(sd) => match dec_struct(reg, reg[i as int], sd, w, i as nat) {
                        Ok((vs, tr)) => Ok((ValueM::Record(vs), tr)),
                        Err(e) => Err(e),
                    },
                    TypeData::Enum(ed) => dec_enum(reg, ed.variants@, w),
                }
            } else {
                Err((DecodeErrorM::InvalidType, Seq::empty()))
            },
            _ => match w {
                WireM::Int(n) => Ok((ValueM::Int(n), Seq::empty())),
                _ => Err((DecodeErrorM::InvalidType, Seq::empty())),
            },
        }
    }
}

/// Stateful decoding of a value of type `s` from `w`.
pub open spec fn dec(reg: Seq<TypeDecl>, s: Shape, w: WireM) -> Decoded {
    dec_at(reg, s, w, reg.len())
}

} // verus!

verus! {

/// Once a prefix fails, every longer prefix fails the same way.
pub proof fn lemma_collect_plain_err(rs: Seq<Result<ValueM, DecodeErrorM>>, k: nat, n: nat)
    requires
        k <= n,
        collect_plain(rs, k) is Err,
    ensures
        collect_plain(rs, n) == collect_plain(rs, k),
    decreases n,
{
    if n > k {
        lemma_collect_plain_err(rs, k, (n - 1) as nat);
    }
}

/// Once a sequence decode fails, it fails with the same error and the same
/// reports however many elements follow: nothing after the failing step
/// reports to the context.
pub proof fn lemma_collect_err(ds: Seq<Decoded>, k: nat, n: nat)
    requires
        k <= n,
        collect(ds, k) is Err,
    ensures
        collect(ds, n) == collect(ds, k),
    decreases n,
{
    if n > k {
        lemma_collect_err(ds, k, (n - 1) as nat);
    }
}

/// Once a named-record decode fails, it fails with the same error and the
/// same reports however many entries follow: nothing after the failing step
/// reports to the context.
pub proof fn lemma_scan_err(
    fields: Seq<FieldDecl>,
    entries: Seq<(Seq<char>, WireM)>,
    ds: Seq<Decoded>,
    k: nat,
    n: nat,
)
    requires
        k <= n,
        named_scan(fields, entries, ds, k) is Err,
    ensures
        named_scan(fields, entries, ds, n) == named_scan(fields, entries, ds, k),
    decreases n,
{
    if n > k {
        lemma_scan_err(fields, entries, ds, k, (n - 1) as nat);
    }
}

pub proof fn lemma_finish_err(fields: Seq<FieldDecl>, slots: Seq<Option<ValueM>>, k: nat, n: nat)
    requires
        k <= n,
        named_finish(fields, slots, k) is Err,
    ensures
        named_finish(fields, slots, n) == named_finish(fields, slots, k),
    decreases n,
{
    if n > k {
        lemma_finish_err(fields, slots, k, (n - 1) as nat);
    }
}

/// The first match stays the first match.
pub proof fn lemma_find_field_found(fields: Seq<FieldDecl>, key: Seq<char>, k: nat, n: nat)
    requires
        k <= n,
        find_field(fields, key, k) is Some,
    ensures
        find_field(fields, key, n) == find_field(fields, key, k),
    decreases n,
{
    if n > k {
        lemma_find_field_found(fields, key, k, (n - 1) as nat);
    }
}

pub proof fn lemma_find_field_bound(fields: Seq<FieldDecl>, key: Seq<char>, n: nat)
    ensures
        find_field(fields, key, n) matches Some(k) ==> k < n,
    decreases n,
{
    if n > 0 {
        lemma_find_field_bound(fields, key, (n - 1) as nat);
    }
}

pub proof fn lemma_find_variant_found(variants: Seq<VariantDecl>, tag: Seq<char>, k: nat, n: nat)
    requires
        k <= n,
        find_variant(variants, tag, k) is Some,
    ensures
        find_variant(variants, tag, n) == find_variant(variants, tag, k),
    decreases n,
{
    if n > k {
        lemma_find_variant_found(variants, tag, k, (n - 1) as nat);
    }
}

/// The index of the first named field, not skipped, whose wire key is `key`.
pub fn find_field_index(fields: &Vec<FieldDecl>, key: &String) -> (r: Option<usize>)
    ensures
        match r {
            Some(k) => find_field(fields@, key@, fields.len() as nat) == Some(k as nat) && k
                < fields.len(),
            None => find_field(fields@, key@, fields.len() as nat) is None,
        },
{
    let mut k: usize = 0;
    while k < fields.len()
        invariant
            k <= fields.len(),
            find_field(fields@, key@, k as nat) is None,
        decreases fields.len() - k,
    {
        let f = &fields[k];
        if !f.attrs.skip {
            let fk = f.attrs.key(&f.ident);
            if fk == *key {
                proof {
                    lemma_find_field_found(fields@, key@, (k + 1) as nat, fields.len() as nat);
                }
                return Some(k);
            }
        }
        k += 1;
    }
    None
}

/// The index of the first variant named `tag`.
pub fn find_variant_index(variants: &Vec<VariantDecl>, tag: &String) -> (r: Option<usize>)
    ensures
        match r {
            Some(k) => find_variant(variants@, tag@, variants.len() as nat) == Some(k as nat) && k
                < variants.len(),
            None => find_variant(variants@, tag@, variants.len() as nat) is None,
        },
{
    let mut k: usize = 0;
    while k < variants.len()
        invariant
            k <= variants.len(),
            find_variant(variants@, tag@, k as nat) is None,
        decreases variants.len() - k,
    {
        if variants[k].ident == *tag {
            proof {
                lemma_find_variant_found(variants@, tag@, (k + 1) as nat, variants.len() as nat);
            }
            return Some(k);
        }
        k += 1;
    }
    None
}

/// The names of all variants, in order.
pub fn names_of(variants: &Vec<VariantDecl>) -> (r: Vec<String>)
    ensures
        string_views(r@) == variant_names(variants@),
{
    let mut out: Vec<String> = Vec::new();
    let mut k: usize = 0;
    while k < variants.len()
        invariant
            k <= variants.len(),
            out.len() == k,
            forall|i: int| 0 <= i < k ==> out[i]@ == variants@[i].ident@,
        decreases variants.len() - k,
    {
        out.push(variants[k].ident.clone());
        k += 1;
    }
    assert(string_views(out@) =~= variant_names(variants@));
    out
}

pub open spec fn plain_as(r: Result<Value, DecodeError>, d: Result<ValueM, DecodeErrorM>) -> bool {
    match r {
        Ok(v) => d == Ok::<ValueM, DecodeErrorM>(v@),
        Err(e) => d == Err::<ValueM, DecodeErrorM>(e@),
    }
}

/// `r` is the outcome `d`, and the context log grew from `before` to
/// `after` by exactly the reports of `d`: those of the value on success, and
/// on failure those made before the error.
pub open spec fn decoded_as(r: Result<Value, DecodeError>, d: Decoded, before: Seq<u64>, after: Seq<u64>) -> bool {
    match r {
        Ok(v) => d matches Ok((dv, tr)) && dv == v@ && after == before + tr,
        Err(e) => d matches Err((de, p)) && de == e@ && after == before + p,
    }
}

pub open spec fn decoded_all_as(
    r: Result<Vec<Value>, DecodeError>,
    d: Result<(Seq<ValueM>, Seq<u64>), Failure>,
    before: Seq<u64>,
    after: Seq<u64>,
) -> bool {
    match r {
        Ok(vs) => d matches Ok((dv, tr)) && dv == crate::value::views(vs@) && after == before + tr,
        Err(e) => d matches Err((de, p)) && de == e@ && after == before + p,
    }
}

/// Decodes `w` through the context-free protocol; no context is involved.
pub fn decode_plain(s: &Shape, w: &Wire) -> (r: Result<Value, DecodeError>)
    ensures
        plain_as(r, dec_plain(*s, w@)),
    decreases w@, 0nat, s,
{
    match s {
        Shape::Phantom => match w {
            Wire::Null => Ok(Value::Unit),
            _ => Err(DecodeError::InvalidType),
        },
        Shape::List(t) => match w {
            Wire::Array(items) => {
                proof {
                    crate::wire::lemma_wire_views(*w);
                }
                let ghost rs = dec_plain_items(**t, w@->Array_0);
                let mut out: Vec<Value> = Vec::new();
                let mut k: usize = 0;
                assert(crate::value::views(out@) =~= Seq::<ValueM>::empty());
                while k < items.len()
                    invariant
                        k <= items.len(),
                        *w == Wire::Array(*items),
                        *s == Shape::List(*t),
                        w@ == WireM::Array(crate::wire::wire_views(items@)),
                        rs == dec_plain_items(**t, w@->Array_0),
                        collect_plain(rs, k as nat) == Ok::<Seq<ValueM>, DecodeErrorM>(
                            crate::value::views(out@),
                        ),
                    decreases items.len() - k,
                {
                    proof {
                        crate::wire::lemma_wire_child_smaller(*w, k as int);
                        assert(rs[k as int] == dec_plain(**t, items@[k as int]@));
                    }
                    match decode_plain(t, &items[k]) {
                        Ok(v) => {
                            let ghost prev = out@;
                            out.push(v);
                            proof {
                                assert(crate::value::views(out@) =~= crate::value::views(prev).push(
                                    v@,
                                ));
                                assert(collect_plain(rs, (k + 1) as nat) == Ok::<
                                    Seq<ValueM>,
                                    DecodeErrorM,
                                >(crate::value::views(out@)));
                            }
                        },
                        Err(e) => {
                            proof {
                                assert(collect_plain(rs, (k + 1) as nat) == Err::<
                                    Seq<ValueM>,
                                    DecodeErrorM,
                                >(e@));
                                lemma_collect_plain_err(rs, (k + 1) as nat, items.len() as nat);
                                assert(dec_plain(*s, w@) == Err::<ValueM, DecodeErrorM>(e@));
                            }
                            return Err(e);
                        },
                    }
                    k += 1;
                }
                let v = Value::List(out);
                proof {
                    crate::value::lemma_views(v);
                }
                Ok(v)
            },
            _ => Err(DecodeError::InvalidType),
        },
        Shape::Maybe(t) => match w {
            Wire::Null => Ok(Value::Absent),
            _ => match decode_plain(t, w) {
                Ok(v) => Ok(Value::Present(Box::new(v))),
                Err(e) => Err(e),
            },
        },
        Shape::Boxed(t) => decode_plain(t, w),
        Shape::Pair(a, b) => match w {
            Wire::Array(items) => {
                proof {
                    crate::wire::lemma_wire_views(*w);
                }
                if items.len() == 0 {
                    return Err(DecodeError::InvalidLength(0));
                }
                proof {
                    crate::wire::lemma_wire_child_smaller(*w, 0);
                    crate::wire::lemma_wire_child_smaller(*w, 1);
                }
                let x = match decode_plain(a, &items[0]) {
                    Ok(x) => x,
                    Err(e) => {
                        return Err(e);
                    },
                };
                if items.len() == 1 {
                    return Err(DecodeError::InvalidLength(1));
                }
                let y = match decode_plain(b, &items[1]) {
                    Ok(y) => y,
                    Err(e) => {
                        return Err(e);
                    },
                };
                if items.len() > 2 {
                    return Err(DecodeError::InvalidLength(2));
                }
                let ghost xv = x@;
                let ghost yv = y@;
                let mut out: Vec<Value> = Vec::new();
                out.push(x);
                out.push(y);
                let v = Value::List(out);
                proof {
                    crate::value::lemma_views(v);
                    assert(v@->List_0 =~= seq![xv, yv]);
                }
                Ok(v)
            },
            _ => Err(DecodeError::InvalidType),
        },
        Shape::Named(_) => Err(DecodeError::InvalidType),
        _ => match w {
            Wire::Int(n) => Ok(Value::Int(*n)),
            _ => Err(DecodeError::InvalidType),
        },
    }
}

} // verus!

verus! {

/// Decodes one field: through its hook, with the context, or without it.
pub fn decode_field(reg: &Vec<TypeDecl>, f: &FieldDecl, w: &Wire, lim: usize, state: &mut Recorder) -> (r: Result<Value, DecodeError>)
    ensures
        decoded_as(r, dec_field(reg@, *f, w@, lim as nat), old(state).deserialized@, final(state).deserialized@),
        final(state).serialized@ == old(state).serialized@,
    decreases w@, 2 * lim, f.ty, 1nat,
{
    proof {
        assert(old(state).deserialized@ + Seq::<u64>::empty() =~= old(state).deserialized@);
    }
    match &f.attrs.with {
        Some(h) => match w {
            Wire::Int(n) => Ok(Value::Int(h.decode_int(*n, &*state))),
            _ => Err(DecodeError::InvalidType),
        },
        None => {
            if f.attrs.mode == ItemMode::Stateful {
                decode_at(reg, &f.ty, w, lim, state)
            } else {
                decode_plain(&f.ty, w)
            }
        },
    }
}

/// Decodes the elements of a sequence as positional fields, rejecting a
/// sequence that is too short or too long.
pub fn decode_positional(
    reg: &Vec<TypeDecl>,
    fields: &Vec<FieldDecl>,
    items: &Vec<Wire>,
    state: &mut Recorder,
) -> (r: Result<Vec<Value>, DecodeError>)
    ensures
        decoded_all_as(
            r,
            positional_result(
                dec_positional(reg@, fields@, crate::wire::wire_views(items@)),
                fields.len() as nat,
                items.len() as nat,
            ),
            old(state).deserialized@,
            final(state).deserialized@,
        ),
        final(state).serialized@ == old(state).serialized@,
    decreases crate::wire::wire_views(items@), 1nat,
{
    let ghost ds = dec_positional(reg@, fields@, crate::wire::wire_views(items@));
    let m = if items.len() < fields.len() {
        items.len()
    } else {
        fields.len()
    };
    let mut out: Vec<Value> = Vec::new();
    let mut k: usize = 0;
    let ghost mut tr: Seq<u64> = Seq::empty();
    proof {
        assert(crate::value::views(out@) =~= Seq::<ValueM>::empty());
        assert(old(state).deserialized@ + Seq::<u64>::empty() =~= old(state).deserialized@);
    }
    while k < m
        invariant
            k <= m,
            m <= items.len(),
            m <= fields.len(),
            m == ds.len(),
            ds == dec_positional(reg@, fields@, crate::wire::wire_views(items@)),
            collect(ds, k as nat) == Ok::<(Seq<ValueM>, Seq<u64>), Failure>(
                (crate::value::views(out@), tr),
            ),
            state.deserialized@ == old(state).deserialized@ + tr,
            state.serialized@ == old(state).serialized@,
        decreases m - k,
    {
        proof {
            crate::wire::lemma_wire_child_smaller(Wire::Array(*items), k as int);
            assert(ds[k as int] == dec_field(reg@, fields@[k as int], items@[k as int]@, reg@.len()));
        }
        match decode_field(reg, &fields[k], &items[k], reg.len(), state) {
            Ok(v) => {
                let ghost prev = out@;
                let ghost t = ds[k as int]->Ok_0.1;
                out.push(v);
                proof {
                    assert(crate::value::views(out@) =~= crate::value::views(prev).push(v@));
                    assert(state.deserialized@ =~= old(state).deserialized@ + (tr + t));
                    tr = tr + t;
                }
            },
            Err(e) => {
                proof {
                    let p = ds[k as int]->Err_0.1;
                    assert(state.deserialized@ =~= old(state).deserialized@ + (tr + p));
                    lemma_collect_err(ds, (k + 1) as nat, m as nat);
                }
                return Err(e);
            },
        }
        k += 1;
    }
    if items.len() < fields.len() {
        Err(DecodeError::InvalidLength(items.len()))
    } else if items.len() > fields.len() {
        Err(DecodeError::InvalidLength(fields.len()))
    } else {
        Ok(out)
    }
}

pub open spec fn opt_views(slots: Seq<Option<Value>>) -> Seq<Option<ValueM>> {
    Seq::new(
        slots.len(),
        |i: int|
            match slots[i] {
                Some(v) => Some(v@),
                None => None,
            },
    )
}

/// Decodes an object as a named record: each known key at most once, unknown
/// keys skipped, then every declared field present or skipped.
pub fn decode_named(
    reg: &Vec<TypeDecl>,
    fields: &Vec<FieldDecl>,
    entries: &Vec<(String, Wire)>,
    state: &mut Recorder,
) -> (r: Result<Vec<Value>, DecodeError>)
    ensures
        decoded_all_as(
            r,
            named_result(
                fields@,
                crate::wire::entry_views(entries@),
                dec_entries(reg@, fields@, crate::wire::entry_views(entries@)),
            ),
            old(state).deserialized@,
            final(state).deserialized@,
        ),
        final(state).serialized@ == old(state).serialized@,
    decreases crate::wire::entry_views(entries@), 1nat,
{
    let ghost ev = crate::wire::entry_views(entries@);
    let ghost ds = dec_entries(reg@, fields@, ev);
    let nf = fields.len();
    let mut slots: Vec<Option<Value>> = Vec::new();
    let mut k: usize = 0;
    while k < nf
        invariant
            k <= nf,
            nf == fields.len(),
            slots.len() == k,
            forall|i: int| 0 <= i < k ==> slots@[i] is None,
        decreases nf - k,
    {
        slots.push(None);
        k += 1;
    }
    let mut j: usize = 0;
    let ghost mut tr: Seq<u64> = Seq::empty();
    proof {
        assert(old(state).deserialized@ + Seq::<u64>::empty() =~= old(state).deserialized@);
        assert(opt_views(slots@) =~= Seq::new(fields@.len(), |i: int| None::<ValueM>));
    }
    while j < entries.len()
        invariant
            j <= entries.len(),
            nf == fields.len(),
            slots.len() == nf,
            ev == crate::wire::entry_views(entries@),
            ds == dec_entries(reg@, fields@, ev),
            named_scan(fields@, ev, ds, j as nat) == Ok::<
                (Seq<Option<ValueM>>, Seq<u64>),
                Failure,
            >((opt_views(slots@), tr)),
            state.deserialized@ == old(state).deserialized@ + tr,
            state.serialized@ == old(state).serialized@,
        decreases entries.len() - j,
    {
        let key = &entries[j].0;
        proof {
            assert(ev[j as int].0 == key@);
        }
        match find_field_index(fields, key) {
            None => {},
            Some(k) => {
                proof {
                    assert(opt_views(slots@)[k as int] is Some == slots@[k as int] is Some);
                }
                if slots[k].is_some() {
                    proof {
                        lemma_scan_err(fields@, ev, ds, (j + 1) as nat, entries.len() as nat);
                    }
                    return Err(DecodeError::DuplicateField(key.clone()));
                }
                proof {
                    crate::wire::lemma_wire_child_smaller(Wire::Object(*entries), j as int);
                    assert(ds[j as int] == dec_field(
                        reg@,
                        fields@[k as int],
                        entries@[j as int].1@,
                        reg@.len(),
                    ));
                }
                match decode_field(reg, &fields[k], &entries[j].1, reg.len(), state) {
                    Ok(v) => {
                        let ghost prev = slots@;
                        let ghost t = ds[j as int]->Ok_0.1;
                        slots.set(k, Some(v));
                        proof {
                            assert(opt_views(slots@) =~= opt_views(prev).update(k as int, Some(v@)));
                            assert(state.deserialized@ =~= old(state).deserialized@ + (tr + t));
                            tr = tr + t;
                        }
                    },
                    Err(e) => {
                        proof {
                            let p = ds[j as int]->Err_0.1;
                            assert(state.deserialized@ =~= old(state).deserialized@ + (tr + p));
                            lemma_scan_err(fields@, ev, ds, (j + 1) as nat, entries.len() as nat);
                        }
                        return Err(e);
                    },
                }
            },
        }
        j += 1;
    }
    let ghost final_slots = opt_views(slots@);
    let mut out: Vec<Value> = Vec::new();
    let mut k: usize = 0;
    proof {
        assert(crate::value::views(out@) =~= Seq::<ValueM>::empty());
    }
    while k < nf
        invariant
            k <= nf,
            nf == fields.len(),
            slots.len() == nf,
            forall|i: int| k <= i < nf ==> opt_views(slots@)[i] == final_slots[i],
            final_slots.len() == nf,
            ev == crate::wire::entry_views(entries@),
            ds == dec_entries(reg@, fields@, ev),
            named_finish(fields@, final_slots, k as nat) == Ok::<Seq<ValueM>, DecodeErrorM>(
                crate::value::views(out@),
            ),
            named_scan(fields@, ev, ds, entries.len() as nat) == Ok::<
                (Seq<Option<ValueM>>, Seq<u64>),
                Failure,
            >((final_slots, tr)),
            state.deserialized@ == old(state).deserialized@ + tr,
            state.serialized@ == old(state).serialized@,
        decreases nf - k,
    {
        let f = &fields[k];
        let mut slot: Option<Value> = None;
        let ghost before = slots@;
        std::mem::swap(&mut slots[k], &mut slot);
        proof {
            assert(forall|i: int| k < i < nf ==> slots@[i] == before[i]);
            assert(forall|i: int| k < i < nf ==> opt_views(slots@)[i] == opt_views(before)[i]);
            assert(opt_views(before)[k as int] == final_slots[k as int]);
        }
        if f.attrs.skip {
            let v = default_of(&f.ty);
            let ghost prev = out@;
            out.push(v);
            proof {
                assert(crate::value::views(out@) =~= crate::value::views(prev).push(v@));
            }
        } else {
            match slot {
                Some(v) => {
                    let ghost prev = out@;
                    out.push(v);
                    proof {
                        assert(crate::value::views(out@) =~= crate::value::views(prev).push(v@));
                    }
                },
                None => {
                    let key = f.attrs.key(&f.ident);
                    proof {
                        assert(final_slots[k as int] is None);
                        assert(named_finish(fields@, final_slots, (k + 1) as nat) == Err::<
                            Seq<ValueM>,
                            DecodeErrorM,
                        >(DecodeErrorM::MissingField(key@)));
                        lemma_finish_err(fields@, final_slots, (k + 1) as nat, nf as nat);
                    }
                    return Err(DecodeError::MissingField(key));
                },
            }
        }
        k += 1;
    }
    Ok(out)
}

/// The default value of a type.
pub fn default_of(s: &Shape) -> (v: Value)
    ensures
        v@ == default_value(*s),
    decreases s,
{
    match s {
        Shape::Phantom => Value::Unit,
        Shape::List(_) => {
            let v = Value::List(Vec::new());
            proof {
                crate::value::lemma_views(v);
                assert(v@->List_0 =~= Seq::<ValueM>::empty());
            }
            v
        },
        Shape::Maybe(_) => Value::Absent,
        Shape::Boxed(t) => default_of(t),
        Shape::Pair(a, b) => {
            let x = default_of(a);
            let y = default_of(b);
            let ghost xv = x@;
            let ghost yv = y@;
            let mut out: Vec<Value> = Vec::new();
            out.push(x);
            out.push(y);
            let v = Value::List(out);
            proof {
                crate::value::lemma_views(v);
                assert(v@->List_0 =~= seq![xv, yv]);
            }
            v
        },
        Shape::Named(_) => Value::Unit,
        _ => Value::Int(0),
    }
}

} // verus!

verus! {

fn empty_values() -> (r: Vec<Value>)
    ensures
        crate::value::views(r@) == Seq::<ValueM>::empty(),
{
    let r: Vec<Value> = Vec::new();
    assert(crate::value::views(r@) =~= Seq::<ValueM>::empty());
    r
}

fn single(v: Value) -> (r: Vec<Value>)
    ensures
        crate::value::views(r@) == seq![v@],
{
    let mut r: Vec<Value> = Vec::new();
    r.push(v);
    assert(crate::value::views(r@) =~= seq![v@]);
    r
}

/// Decodes the payload of a union variant.
pub fn decode_payload(
    reg: &Vec<TypeDecl>,
    fd: &crate::type_decl::FieldsDecl,
    p: &Wire,
    state: &mut Recorder,
) -> (r: Result<Vec<Value>, DecodeError>)
    ensures
        decoded_all_as(r, dec_payload(reg@, *fd, p@), old(state).deserialized@, final(state).deserialized@),
        final(state).serialized@ == old(state).serialized@,
    decreases p@, 2 * reg.len() + 1,
{
    match fd.style {
        FieldsStyle::Unit => match p {
            Wire::Null => Ok(empty_values()),
            _ => Err(DecodeError::InvalidType),
        },
        FieldsStyle::Unnamed => {
            if fd.fields.len() == 1 {
                match decode_field(reg, &fd.fields[0], p, reg.len(), state) {
                    Ok(v) => Ok(single(v)),
                    Err(e) => Err(e),
                }
            } else {
                match p {
                    Wire::Array(items) => {
                        proof {
                            crate::wire::lemma_wire_views(*p);
                            crate::wire::lemma_wire_child_smaller(*p, 0);
                        }
                        decode_positional(reg, &fd.fields, items, state)
                    },
                    _ => Err(DecodeError::InvalidType),
                }
            }
        },
        FieldsStyle::Named => match p {
            Wire::Object(entries) => {
                proof {
                    crate::wire::lemma_wire_views(*p);
                    crate::wire::lemma_wire_child_smaller(*p, 0);
                }
                decode_named(reg, &fd.fields, entries, state)
            },
            _ => Err(DecodeError::InvalidType),
        },
    }
}

/// Decodes the body of record type `i` of the registry.
pub fn decode_struct(
    reg: &Vec<TypeDecl>,
    d: &TypeDecl,
    sd: &crate::type_decl::StructDecl,
    w: &Wire,
    i: usize,
    state: &mut Recorder,
) -> (r: Result<Vec<Value>, DecodeError>)
    ensures
        decoded_all_as(r, dec_struct(reg@, *d, *sd, w@, i as nat), old(state).deserialized@, final(state).deserialized@),
        final(state).serialized@ == old(state).serialized@,
    decreases w@, 2 * i + 1,
{
    proof {
        assert(old(state).deserialized@ + Seq::<u64>::empty() =~= old(state).deserialized@);
    }
    let fields = &sd.fields.fields;
    if d.attrs.transparent || (sd.fields.style == FieldsStyle::Unnamed && fields.len() == 1) {
        if fields.len() == 1 {
            match decode_field(reg, &fields[0], w, i, state) {
                Ok(v) => Ok(single(v)),
                Err(e) => Err(e),
            }
        } else {
            Err(DecodeError::InvalidType)
        }
    } else {
        match sd.fields.style {
            FieldsStyle::Named => match w {
                Wire::Object(entries) => {
                    proof {
                        crate::wire::lemma_wire_views(*w);
                        crate::wire::lemma_wire_child_smaller(*w, 0);
                    }
                    decode_named(reg, fields, entries, state)
                },
                _ => Err(DecodeError::InvalidType),
            },
            FieldsStyle::Unnamed => {
                if fields.len() == 0 {
                    match w {
                        Wire::Null => Ok(empty_values()),
                        _ => Err(DecodeError::InvalidType),
                    }
                } else {
                    match w {
                        Wire::Array(items) => {
                            proof {
                                crate::wire::lemma_wire_views(*w);
                                crate::wire::lemma_wire_child_smaller(*w, 0);
                            }
                            decode_positional(reg, fields, items, state)
                        },
                        _ => Err(DecodeError::InvalidType),
                    }
                }
            },
            FieldsStyle::Unit => match w {
                Wire::Null => Ok(empty_values()),
                _ => Err(DecodeError::InvalidType),
            },
        }
    }
}

/// Decodes a union from a bare variant name or a one-entry object.
pub fn decode_enum(reg: &Vec<TypeDecl>, variants: &Vec<VariantDecl>, w: &Wire, state: &mut Recorder) -> (r: Result<Value, DecodeError>)
    ensures
        decoded_as(r, dec_enum(reg@, variants@, w@), old(state).deserialized@, final(state).deserialized@),
        final(state).serialized@ == old(state).serialized@,
    decreases w@, 0nat,
{
    proof {
        assert(old(state).deserialized@ + Seq::<u64>::empty() =~= old(state).deserialized@);
    }
    match w {
        Wire::Str(tag) => match find_variant_index(variants, tag) {
            None => Err(DecodeError::UnknownVariant(tag.clone(), names_of(variants))),
            Some(k) => {
                if variants[k].fields.style == FieldsStyle::Unit {
                    let v = Value::Variant(k, Vec::new());
                    proof {
                        crate::value::lemma_views(v);
                        assert(v@->Variant_1 =~= Seq::<ValueM>::empty());
                    }
                    Ok(v)
                } else {
                    Err(DecodeError::InvalidType)
                }
            },
        },
        Wire::Object(entries) => {
            proof {
                crate::wire::lemma_wire_views(*w);
            }
            if entries.len() == 1 {
                let tag = &entries[0].0;
                match find_variant_index(variants, tag) {
                    None => Err(DecodeError::UnknownVariant(tag.clone(), names_of(variants))),
                    Some(k) => {
                        proof {
                            crate::wire::lemma_wire_child_smaller(*w, 0);
                        }
                        match decode_payload(reg, &variants[k].fields, &entries[0].1, state) {
                            Ok(vs) => {
                                let v = Value::Variant(k, vs);
                                proof {
                                    crate::value::lemma_views(v);
                                }
                                Ok(v)
                            },
                            Err(e) => Err(e),
                        }
                    },
                }
            } else {
                Err(DecodeError::InvalidType)
            }
        },
        _ => Err(DecodeError::InvalidType),
    }
}

/// Decodes a value of type `s` with the context. `lim` bounds the registry
/// indices reachable without entering a nested wire value.
pub fn decode_at(reg: &Vec<TypeDecl>, s: &Shape, w: &Wire, lim: usize, state: &mut Recorder) -> (r: Result<Value, DecodeError>)
    ensures
        decoded_as(r, dec_at(reg@, *s, w@, lim as nat), old(state).deserialized@, final(state).deserialized@),
        final(state).serialized@ == old(state).serialized@,
    decreases w@, 2 * lim, s, 0nat,
{
    proof {
        assert(old(state).deserialized@ + Seq::<u64>::empty() =~= old(state).deserialized@);
    }
    if !crate::schema::are_heads_below(s, lim) {
        return Err(DecodeError::InvalidType);
    }
    match s {
        Shape::Counted => match w {
            Wire::Int(n) => {
                state.mark_deserialized(*n);
                proof {
                    assert(old(state).deserialized@.push(*n) =~= old(state).deserialized@ + seq![*n]);
                }
                Ok(Value::Int(*n))
            },
            _ => Err(DecodeError::InvalidType),
        },
        Shape::Phantom => Ok(Value::Unit),
        Shape::List(t) => match w {
            Wire::Array(items) => {
                proof {
                    crate::wire::lemma_wire_views(*w);
                }
                let ghost ds = dec_items(reg@, **t, w@->Array_0);
                let mut out: Vec<Value> = Vec::new();
                let mut k: usize = 0;
                let ghost mut tr: Seq<u64> = Seq::empty();
                proof {
                    assert(crate::value::views(out@) =~= Seq::<ValueM>::empty());
                }
                while k < items.len()
                    invariant
                        k <= items.len(),
                        *w == Wire::Array(*items),
                        *s == Shape::List(*t),
                        heads_below(*s, lim as nat),
                        w@ == WireM::Array(crate::wire::wire_views(items@)),
                        ds == dec_items(reg@, **t, w@->Array_0),
                        collect(ds, k as nat) == Ok::<(Seq<ValueM>, Seq<u64>), Failure>(
                            (crate::value::views(out@), tr),
                        ),
                        state.deserialized@ == old(state).deserialized@ + tr,
                        state.serialized@ == old(state).serialized@,
                    decreases items.len() - k,
                {
                    proof {
                        crate::wire::lemma_wire_child_smaller(*w, k as int);
                        assert(ds[k as int] == dec_at(reg@, **t, items@[k as int]@, reg@.len()));
                    }
                    match decode_at(reg, t, &items[k], reg.len(), state) {
                        Ok(v) => {
                            let ghost prev = out@;
                            let ghost tt = ds[k as int]->Ok_0.1;
                            out.push(v);
                            proof {
                                assert(crate::value::views(out@) =~= crate::value::views(prev).push(v@));
                                assert(state.deserialized@ =~= old(state).deserialized@ + (tr + tt));
                                tr = tr + tt;
                            }
                        },
                        Err(e) => {
                            proof {
                                let p = ds[k as int]->Err_0.1;
                                assert(state.deserialized@ =~= old(state).deserialized@ + (tr + p));
                                lemma_collect_err(ds, (k + 1) as nat, items.len() as nat);
                            }
                            return Err(e);
                        },
                    }
                    k += 1;
                }
                let v = Value::List(out);
                proof {
                    crate::value::lemma_views(v);
                }
                Ok(v)
            },
            _ => Err(DecodeError::InvalidType),
        },
        Shape::Maybe(t) => match w {
            Wire::Null => Ok(Value::Absent),
            _ => match decode_at(reg, t, w, lim, state) {
                Ok(v) => Ok(Value::Present(Box::new(v))),
                Err(e) => Err(e),
            },
        },
        Shape::Boxed(t) => decode_at(reg, t, w, lim, state),
        Shape::Pair(a, b) => match w {
            Wire::Array(items) => {
                proof {
                    crate::wire::lemma_wire_views(*w);
                }
                if items.len() == 0 {
                    return Err(DecodeError::InvalidLength(0));
                }
                proof {
                    crate::wire::lemma_wire_child_smaller(*w, 0);
                    crate::wire::lemma_wire_child_smaller(*w, 1);
                }
                let x = match decode_at(reg, a, &items[0], reg.len(), state) {
                    Ok(x) => x,
                    Err(e) => {
                        return Err(e);
                    },
                };
                if items.len() == 1 {
                    return Err(DecodeError::InvalidLength(1));
                }
                let ghost dx = dec_at(reg@, **a, items@[0]@, reg@.len());
                let y = match decode_at(reg, b, &items[1], reg.len(), state) {
                    Ok(y) => y,
                    Err(e) => {
                        proof {
                            let p = dec_at(reg@, **b, items@[1]@, reg@.len())->Err_0.1;
                            assert(state.deserialized@ =~= old(state).deserialized@ + (dx->Ok_0.1
                                + p));
                        }
                        return Err(e);
                    },
                };
                if items.len() > 2 {
                    proof {
                        let dy = dec_at(reg@, **b, items@[1]@, reg@.len());
                        assert(state.deserialized@ =~= old(state).deserialized@ + (dx->Ok_0.1
                            + dy->Ok_0.1));
                    }
                    return Err(DecodeError::InvalidLength(2));
                }
                let ghost xv = x@;
                let ghost yv = y@;
                let mut out: Vec<Value> = Vec::new();
                out.push(x);
                out.push(y);
                let v = Value::List(out);
                proof {
                    crate::value::lemma_views(v);
                    assert(v@->List_0 =~= seq![xv, yv]);
                    let dx = dec_at(reg@, **a, items@[0]@, reg@.len());
                    let dy = dec_at(reg@, **b, items@[1]@, reg@.len());
                    assert(state.deserialized@ =~= old(state).deserialized@ + (dx->Ok_0.1 + dy->Ok_0.1));
                }
                Ok(v)
            },
            _ => Err(DecodeError::InvalidType),
        },
        Shape::Named(i) => {
            if *i < reg.len() {
                let d = &reg[*i];
                match &d.data {
                    TypeData::Struct(sd) => match decode_struct(reg, d, sd, w, *i, state) {
                        Ok(vs) => {
                            let v = Value::Record(vs);
                            proof {
                                crate::value::lemma_views(v);
                            }
                            Ok(v)
                        },
                        Err(e) => Err(e),
                    },
                    TypeData::Enum(ed) => decode_enum(reg, &ed.variants, w, state),
                }
            } else {
                Err(DecodeError::InvalidType)
            }
        },
        _ => match w {
            Wire::Int(n) => Ok(Value::Int(*n)),
            _ => Err(DecodeError::InvalidType),
        },
    }
}

/// Decodes a value of type `s` from `w` with the context: each stateful
/// leaf reports to `state` once, in the order of the wire data.
pub fn decode(reg: &Vec<TypeDecl>, s: &Shape, w: &Wire, state: &mut Recorder) -> (r: Result<Value, DecodeError>)
    ensures
        decoded_as(r, dec(reg@, *s, w@), old(state).deserialized@, final(state).deserialized@),
        final(state).serialized@ == old(state).serialized@,
{
    decode_at(reg, s, w, reg.len(), state)
}

} // verus!
