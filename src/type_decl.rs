//! Resolved declarations of record and union types, and the registry that
//! holds them.
use crate::attrs::{
    declared_mode, field_attrs_rejected, parse_field_attrs, wire_key, AttrPath, Attribute,
    FieldAttrs, Meta, SchemaError,
};
use crate::mode::ItemMode;
use crate::schema::{
    default_capable, heads_below, hook_capable, stateful_capable, stateless_capable, Shape,
};
use crate::value::{Value, ValueM};
use vstd::prelude::*;

verus! {

/// How the fields of a record or variant are written in the source.
#[derive(Clone, Copy, PartialEq, Eq, Structural, Debug)]
pub enum FieldsStyle {
    Named,
    Unnamed,
    Unit,
}

/// One field with its resolved attributes. Positional fields carry their
/// index as their name.
pub struct FieldDecl {
    pub ident: String,
    pub ty: Shape,
    pub attrs: FieldAttrs,
}

pub struct FieldsDecl {
    pub style: FieldsStyle,
    pub fields: Vec<FieldDecl>,
}

pub struct VariantDecl {
    pub ident: String,
    pub fields: FieldsDecl,
}

pub struct StructDecl {
    pub fields: FieldsDecl,
}

pub struct EnumDecl {
    pub variants: Vec<VariantDecl>,
}

pub enum TypeData {
    Struct(StructDecl),
    Enum(EnumDecl),
}

/// Container-level attributes. `state` records that a fixed context type
/// was named, `state_bound` that a context capability bound was named.
#[derive(Clone, Copy, PartialEq, Eq, Structural, Debug)]
pub struct ContainerAttributes {
    pub transparent: bool,
    pub state: bool,
    pub state_bound: bool,
    pub mode: ItemMode,
}

pub struct TypeDecl {
    pub ident: String,
    pub attrs: ContainerAttributes,
    pub data: TypeData,
}

impl FieldDecl {
    pub fn ty(&self) -> (r: &Shape)
        ensures
            *r == self.ty,
    {
        &self.ty
    }

    pub fn ident(&self) -> (r: &String)
        ensures
            *r == self.ident,
    {
        &self.ident
    }

    pub fn mode(&self) -> (r: ItemMode)
        ensures
            r == self.attrs.mode,
    {
        self.attrs.mode
    }
}

/// The wire key of a field.
pub open spec fn field_key(f: FieldDecl) -> Seq<char> {
    wire_key(f.attrs, f.ident@)
}

/// A field's type offers what its attributes ask of it. `skipping` tells
/// whether a skip flag takes effect (it does for named fields only).
pub open spec fn field_ok(f: FieldDecl, skipping: bool, n_types: nat) -> bool {
    if skipping && f.attrs.skip {
        default_capable(f.ty)
    } else if f.attrs.with is Some {
        hook_capable(f.ty)
    } else if f.attrs.mode == ItemMode::Stateful {
        stateful_capable(f.ty, n_types)
    } else {
        stateless_capable(f.ty)
    }
}

/// No two encoded named fields share a wire key.
pub open spec fn keys_distinct(fields: Seq<FieldDecl>) -> bool {
    forall|a: int, b: int|
        0 <= a < fields.len() && 0 <= b < fields.len() && a != b && !fields[a].attrs.skip
            && !fields[b].attrs.skip ==> field_key(#[trigger] fields[a]) != field_key(
            #[trigger] fields[b],
        )
}

/// The fields of a record or variant are well formed; `skipping` tells
/// whether skip flags of named fields take effect (they do not in a
/// transparent record).
pub open spec fn fields_ok(fd: FieldsDecl, skipping: bool, n_types: nat) -> bool {
    &&& forall|k: int|
        0 <= k < fd.fields.len() ==> field_ok(
            #[trigger] fd.fields@[k],
            skipping && fd.style == FieldsStyle::Named,
            n_types,
        )
    &&& fd.style == FieldsStyle::Unit ==> fd.fields.len() == 0
    &&& fd.style == FieldsStyle::Named ==> keys_distinct(fd.fields@)
}

/// Decoding a record that takes no wire nesting of its own (transparent, or
/// one positional field) only reaches declared types registered before it.
pub open spec fn productive(fd: FieldsDecl, transparent: bool, index: nat) -> bool {
    (transparent || (fd.style == FieldsStyle::Unnamed && fd.fields.len() == 1)) ==> heads_below(
        fd.fields@[0].ty,
        index,
    )
}

pub open spec fn names_distinct(variants: Seq<VariantDecl>) -> bool {
    forall|a: int, b: int|
        0 <= a < variants.len() && 0 <= b < variants.len() && a != b ==> (#[trigger] variants[a]).ident@
            != (#[trigger] variants[b]).ident@
}

pub open spec fn decl_ok(d: TypeDecl, index: nat, n_types: nat) -> bool {
    match d.data {
        TypeData::Struct(sd) => {
            &&& fields_ok(sd.fields, !d.attrs.transparent, n_types)
            &&& d.attrs.transparent ==> sd.fields.fields.len() == 1 && sd.fields.style
                != FieldsStyle::Unit
            &&& productive(sd.fields, d.attrs.transparent, index)
        },
        TypeData::Enum(ed) => {
            &&& forall|k: int|
                0 <= k < ed.variants.len() ==> fields_ok(#[trigger] ed.variants@[k].fields, true, n_types)
            &&& names_distinct(ed.variants@)
        },
    }
}

/// Every declaration of the registry is well formed.
pub open spec fn registry_ok(reg: Seq<TypeDecl>) -> bool {
    forall|i: int| 0 <= i < reg.len() ==> decl_ok(#[trigger] reg[i], i as nat, reg.len())
}

/// `vals` holds one value of the right type per field.
pub open spec fn fields_conform(reg: Seq<TypeDecl>, fields: Seq<FieldDecl>, vals: Seq<ValueM>) -> bool
    decreases vals, 0nat,
{
    &&& vals.len() == fields.len()
    &&& forall|k: int| 0 <= k < vals.len() ==> conforms(reg, fields[k].ty, #[trigger] vals[k])
}

/// What one attribute entry does to the container attributes read so far.
pub open spec fn container_step(acc: ContainerAttributes, path: AttrPath, m: Meta) -> Result<
    ContainerAttributes,
    SchemaError,
> {
    let in_state = path == AttrPath::SerdeState;
    match m {
        Meta::Transparent => Ok(ContainerAttributes { transparent: true, ..acc }),
        Meta::Crate => Ok(acc),
        Meta::State => if !in_state {
            Err(SchemaError::StateOutsideSerdeState)
        } else if acc.state {
            Err(SchemaError::DuplicateState)
        } else if acc.state_bound {
            Err(SchemaError::StateWithStateImplements)
        } else {
            Ok(ContainerAttributes { state: true, ..acc })
        },
        Meta::StateImplements => if !in_state {
            Err(SchemaError::StateImplementsOutsideSerdeState)
        } else if acc.state_bound {
            Err(SchemaError::DuplicateStateImplements)
        } else if acc.state {
            Err(SchemaError::StateWithStateImplements)
        } else {
            Ok(ContainerAttributes { state_bound: true, ..acc })
        },
        Meta::Stateless => if !in_state {
            Err(SchemaError::ModeOutsideSerdeState)
        } else {
            Ok(ContainerAttributes { mode: ItemMode::Stateless, ..acc })
        },
        Meta::Stateful => if !in_state {
            Err(SchemaError::ModeOutsideSerdeState)
        } else {
            Ok(ContainerAttributes { mode: ItemMode::Stateful, ..acc })
        },
        _ => if in_state {
            Err(SchemaError::UnsupportedSerdeStateAttribute)
        } else {
            Err(SchemaError::UnsupportedSerdeAttribute)
        },
    }
}

/// The container attributes after the first `n` entries of one attribute.
pub open spec fn container_metas(
    acc: ContainerAttributes,
    path: AttrPath,
    metas: Seq<Meta>,
    n: nat,
) -> Result<ContainerAttributes, SchemaError>
    decreases n,
{
    if n == 0 {
        Ok(acc)
    } else {
        match container_metas(acc, path, metas, (n - 1) as nat) {
            Err(e) => Err(e),
            Ok(a) => container_step(a, path, metas[n - 1]),
        }
    }
}

/// The container attributes that the first `n` attributes declare; the
/// first entry that conflicts with what came before is the error.
pub open spec fn container_attrs(attrs: Seq<Attribute>, n: nat) -> Result<
    ContainerAttributes,
    SchemaError,
>
    decreases n,
{
    if n == 0 {
        Ok(
            ContainerAttributes {
                transparent: false,
                state: false,
                state_bound: false,
                mode: ItemMode::Stateful,
            },
        )
    } else {
        match container_attrs(attrs, (n - 1) as nat) {
            Err(e) => Err(e),
            Ok(a) => if attrs[n - 1].path == AttrPath::Other {
                Ok(a)
            } else {
                container_metas(a, attrs[n - 1].path, attrs[n - 1].metas@, attrs[n - 1].metas.len() as nat)
            },
        }
    }
}

pub proof fn lemma_container_metas_err(
    acc: ContainerAttributes,
    path: AttrPath,
    metas: Seq<Meta>,
    k: nat,
    n: nat,
)
    requires
        k <= n,
        container_metas(acc, path, metas, k) is Err,
    ensures
        container_metas(acc, path, metas, n) == container_metas(acc, path, metas, k),
    decreases n,
{
    if n > k {
        lemma_container_metas_err(acc, path, metas, k, (n - 1) as nat);
    }
}

pub proof fn lemma_container_attrs_err(attrs: Seq<Attribute>, k: nat, n: nat)
    requires
        k <= n,
        container_attrs(attrs, k) is Err,
    ensures
        container_attrs(attrs, n) == container_attrs(attrs, k),
    decreases n,
{
    if n > k {
        lemma_container_attrs_err(attrs, k, (n - 1) as nat);
    }
}

impl ContainerAttributes {
    /// Reads the container attributes. A fixed context type and a context
    /// capability bound exclude each other; either may be given once.
    pub fn from_attrs(attrs: &Vec<Attribute>) -> (r: Result<ContainerAttributes, SchemaError>)
        ensures
            r == container_attrs(attrs@, attrs.len() as nat),
    {
        let mut acc = ContainerAttributes {
            transparent: false,
            state: false,
            state_bound: false,
            mode: ItemMode::Stateful,
        };
        let mut a: usize = 0;
        while a < attrs.len()
            invariant
                a <= attrs.len(),
                container_attrs(attrs@, a as nat) == Ok::<ContainerAttributes, SchemaError>(acc),
            decreases attrs.len() - a,
        {
            let attr = &attrs[a];
            if attr.path != AttrPath::Other {
                let in_state = attr.path == AttrPath::SerdeState;
                let ghost acc0 = acc;
                let mut j: usize = 0;
                while j < attr.metas.len()
                    invariant
                        j <= attr.metas.len(),
                        a < attrs.len(),
                        *attr == attrs@[a as int],
                        attr.path != AttrPath::Other,
                        in_state == (attr.path == AttrPath::SerdeState),
                        container_attrs(attrs@, a as nat) == Ok::<ContainerAttributes, SchemaError>(acc0),
                        container_metas(acc0, attr.path, attr.metas@, j as nat) == Ok::<
                            ContainerAttributes,
                            SchemaError,
                        >(acc),
                    decreases attr.metas.len() - j,
                {
                    let step: Result<ContainerAttributes, SchemaError> = match &attr.metas[j] {
                        Meta::Transparent => Ok(ContainerAttributes { transparent: true, ..acc }),
                        Meta::Crate => Ok(acc),
                        Meta::State => {
                            if !in_state {
                                Err(SchemaError::StateOutsideSerdeState)
                            } else if acc.state {
                                Err(SchemaError::DuplicateState)
                            } else if acc.state_bound {
                                Err(SchemaError::StateWithStateImplements)
                            } else {
                                Ok(ContainerAttributes { state: true, ..acc })
                            }
                        },
                        Meta::StateImplements => {
                            if !in_state {
                                Err(SchemaError::StateImplementsOutsideSerdeState)
                            } else if acc.state_bound {
                                Err(SchemaError::DuplicateStateImplements)
                            } else if acc.state {
                                Err(SchemaError::StateWithStateImplements)
                            } else {
                                Ok(ContainerAttributes { state_bound: true, ..acc })
                            }
                        },
                        Meta::Stateless => {
                            if !in_state {
                                Err(SchemaError::ModeOutsideSerdeState)
                            } else {
                                Ok(ContainerAttributes { mode: ItemMode::Stateless, ..acc })
                            }
                        },
                        Meta::Stateful => {
                            if !in_state {
                                Err(SchemaError::ModeOutsideSerdeState)
                            } else {
                                Ok(ContainerAttributes { mode: ItemMode::Stateful, ..acc })
                            }
                        },
                        _ => {
                            if in_state {
                                Err(SchemaError::UnsupportedSerdeStateAttribute)
                            } else {
                                Err(SchemaError::UnsupportedSerdeAttribute)
                            }
                        },
                    };
                    assert(step == container_step(acc, attr.path, attr.metas@[j as int]));
                    match step {
                        Ok(next) => {
                            acc = next;
                        },
                        Err(e) => {
                            proof {
                                lemma_container_metas_err(
                                    acc0,
                                    attr.path,
                                    attr.metas@,
                                    (j + 1) as nat,
                                    attr.metas.len() as nat,
                                );
                                lemma_container_attrs_err(attrs@, (a + 1) as nat, attrs.len() as nat);
                            }
                            return Err(e);
                        },
                    }
                    j += 1;
                }
            }
            a += 1;
        }
        Ok(acc)
    }
}

/// `v` is a value of type `s`.
pub open spec fn conforms(reg: Seq<TypeDecl>, s: Shape, v: ValueM) -> bool
    decreases v, 1nat, s,
{
    match s {
        Shape::Int => v is Int,
        Shape::Counted => v is Int,
        Shape::Plain => v is Int,
        Shape::Phantom => v is Unit,
        Shape::List(t) => match v {
            ValueM::List(items) => forall|k: int|
                0 <= k < items.len() ==> conforms(reg, *t, #[trigger] items[k]),
            _ => false,
        },
        Shape::Maybe(t) => match v {
            ValueM::Absent => true,
            ValueM::Present(x) => conforms(reg, *t, *x),
            _ => false,
        },
        Shape::Boxed(t) => conforms(reg, *t, v),
        Shape::Pair(a, b) => match v {
            ValueM::List(items) => items.len() == 2 && conforms(reg, *a, items[0]) && conforms(
                reg,
                *b,
                items[1],
            ),
            _ => false,
        },
        Shape::Named(i) => i < reg.len() && match reg[i as int].data {
            TypeData::Struct(sd) => match v {
                ValueM::Record(vals) => fields_conform(reg, sd.fields.fields@, vals),
                _ => false,
            },
            TypeData::Enum(ed) => match v {
                ValueM::Variant(k, vals) => k < ed.variants.len() && fields_conform(
                    reg,
                    ed.variants@[k as int].fields.fields@,
                    vals,
                ),
                _ => false,
            },
        },
    }
}

} // verus!

verus! {

/// A field as written in a declaration, before its attributes are read.
pub struct Field {
    pub ident: String,
    pub ty: Shape,
    pub attrs: Vec<Attribute>,
}

pub enum Fields {
    Named(Vec<Field>),
    Unnamed(Vec<Field>),
    Unit,
}

pub struct Variant {
    pub ident: String,
    pub attrs: Vec<Attribute>,
    pub fields: Fields,
}

pub enum Data {
    Struct(Fields),
    Enum(Vec<Variant>),
}

/// A record or union declaration as written, before its attributes are read.
pub struct DeriveInput {
    pub ident: String,
    pub attrs: Vec<Attribute>,
    pub data: Data,
}

pub open spec fn fields_list(src: Fields) -> Seq<Field> {
    match src {
        Fields::Named(fs) => fs@,
        Fields::Unnamed(fs) => fs@,
        Fields::Unit => Seq::empty(),
    }
}

pub open spec fn style_of(src: Fields) -> FieldsStyle {
    match src {
        Fields::Named(_) => FieldsStyle::Named,
        Fields::Unnamed(_) => FieldsStyle::Unnamed,
        Fields::Unit => FieldsStyle::Unit,
    }
}

/// Some field's attributes are rejected.
pub open spec fn fields_rejected(src: Fields) -> bool {
    exists|k: int|
        0 <= k < fields_list(src).len() && field_attrs_rejected(
            (#[trigger] fields_list(src)[k]).attrs@,
            fields_list(src)[k].attrs.len() as nat,
        )
}

/// `d` is field `f` with its attributes read under `mode`.
pub open spec fn field_resolved(d: FieldDecl, f: Field, mode: ItemMode) -> bool {
    &&& d.ident == f.ident
    &&& d.ty == f.ty
    &&& d.attrs == crate::attrs::field_attrs_of(f.attrs@, mode)
}

pub open spec fn fields_resolved(fd: FieldsDecl, src: Fields, mode: ItemMode) -> bool {
    &&& fd.style == style_of(src)
    &&& fd.fields.len() == fields_list(src).len()
    &&& forall|k: int|
        0 <= k < fd.fields.len() ==> field_resolved(
            #[trigger] fd.fields@[k],
            fields_list(src)[k],
            mode,
        )
}

/// The mode of a variant under the union's mode.
pub open spec fn variant_mode(v: Variant, mode: ItemMode) -> ItemMode {
    crate::mode::merged(mode, declared_mode(v.attrs@, v.attrs.len() as nat))
}

pub open spec fn variants_rejected(vs: Seq<Variant>) -> bool {
    exists|k: int| 0 <= k < vs.len() && fields_rejected((#[trigger] vs[k]).fields)
}

impl FieldDecl {
    pub fn new(field: &Field, default_mode: ItemMode) -> (r: Result<FieldDecl, SchemaError>)
        ensures
            r is Err <==> field_attrs_rejected(field.attrs@, field.attrs.len() as nat),
            r matches Err(e) ==> e == SchemaError::UnsupportedSerdeAttribute,
            r matches Ok(d) ==> field_resolved(d, *field, default_mode),
    {
        let attrs = parse_field_attrs(&field.attrs, default_mode)?;
        Ok(FieldDecl { ident: field.ident.clone(), ty: field.ty.duplicate(), attrs })
    }
}

impl FieldsDecl {
    pub fn from_fields(fields: &Fields, mode: ItemMode) -> (r: Result<FieldsDecl, SchemaError>)
        ensures
            r is Err <==> fields_rejected(*fields),
            r matches Err(e) ==> e == SchemaError::UnsupportedSerdeAttribute,
            r matches Ok(fd) ==> fields_resolved(fd, *fields, mode),
    {
        let (style, list): (FieldsStyle, &Vec<Field>) = match fields {
            Fields::Named(fs) => (FieldsStyle::Named, fs),
            Fields::Unnamed(fs) => (FieldsStyle::Unnamed, fs),
            Fields::Unit => {
                let fd = FieldsDecl { style: FieldsStyle::Unit, fields: Vec::new() };
                return Ok(fd);
            },
        };
        let mut out: Vec<FieldDecl> = Vec::new();
        let mut k: usize = 0;
        while k < list.len()
            invariant
                k <= list.len(),
                list@ == fields_list(*fields),
                style == style_of(*fields),
                out.len() == k,
                forall|i: int| 0 <= i < k ==> field_resolved(#[trigger] out@[i], list@[i], mode),
                forall|i: int|
                    0 <= i < k ==> !field_attrs_rejected(
                        (#[trigger] list@[i]).attrs@,
                        list@[i].attrs.len() as nat,
                    ),
            decreases list.len() - k,
        {
            match FieldDecl::new(&list[k], mode) {
                Ok(d) => {
                    out.push(d);
                },
                Err(e) => {
                    proof {
                        assert(field_attrs_rejected(
                            fields_list(*fields)[k as int].attrs@,
                            fields_list(*fields)[k as int].attrs.len() as nat,
                        ));
                    }
                    return Err(e);
                },
            }
            k += 1;
        }
        Ok(FieldsDecl { style, fields: out })
    }
}

impl StructDecl {
    pub fn from_data(fields: &Fields, mode: ItemMode) -> (r: Result<StructDecl, SchemaError>)
        ensures
            r is Err <==> fields_rejected(*fields),
            r matches Err(e) ==> e == SchemaError::UnsupportedSerdeAttribute,
            r matches Ok(sd) ==> fields_resolved(sd.fields, *fields, mode),
    {
        let fields = FieldsDecl::from_fields(fields, mode)?;
        Ok(StructDecl { fields })
    }
}

impl EnumDecl {
    /// Reads each variant under its own mode: its override if it declares
    /// one, else the union's.
    pub fn from_data(variants: &Vec<Variant>, mode: ItemMode) -> (r: Result<EnumDecl, SchemaError>)
        ensures
            r is Err <==> variants_rejected(variants@),
            r matches Err(e) ==> e == SchemaError::UnsupportedSerdeAttribute,
            r matches Ok(ed) ==> {
                &&& ed.variants.len() == variants.len()
                &&& forall|k: int|
                    0 <= k < variants.len() ==> (#[trigger] ed.variants@[k]).ident
                        == variants@[k].ident && fields_resolved(
                        ed.variants@[k].fields,
                        variants@[k].fields,
                        variant_mode(variants@[k], mode),
                    )
            },
    {
        let mut out: Vec<VariantDecl> = Vec::new();
        let mut k: usize = 0;
        while k < variants.len()
            invariant
                k <= variants.len(),
                out.len() == k,
                forall|i: int|
                    0 <= i < k ==> (#[trigger] out@[i]).ident == variants@[i].ident
                        && fields_resolved(
                        out@[i].fields,
                        variants@[i].fields,
                        variant_mode(variants@[i], mode),
                    ),
                forall|i: int| 0 <= i < k ==> !fields_rejected((#[trigger] variants@[i]).fields),
            decreases variants.len() - k,
        {
            let variant = &variants[k];
            let variant_mode = crate::attrs::parse_variant_attrs(&variant.attrs, mode).mode();
            match FieldsDecl::from_fields(&variant.fields, variant_mode) {
                Ok(fields) => {
                    out.push(VariantDecl { ident: variant.ident.clone(), fields });
                },
                Err(e) => {
                    proof {
                        assert(fields_rejected(variants@[k as int].fields));
                    }
                    return Err(e);
                },
            }
            k += 1;
        }
        Ok(EnumDecl { variants: out })
    }
}

/// A transparent record must have exactly one field.
pub open spec fn arity_ok(input: DeriveInput, attrs: ContainerAttributes) -> bool {
    attrs.transparent ==> match input.data {
        Data::Struct(fs) => !(fs is Unit) && fields_list(fs).len() == 1,
        Data::Enum(_) => true,
    }
}

impl TypeDecl {
    /// Resolves a declaration: container attributes first, then each field's
    /// and variant's, then the arity of a transparent record.
    pub fn from_derive_input(input: &DeriveInput) -> (r: Result<TypeDecl, SchemaError>)
        ensures
            container_attrs(input.attrs@, input.attrs.len() as nat) matches Err(e) ==> r == Err::<
                TypeDecl,
                SchemaError,
            >(e),
            container_attrs(input.attrs@, input.attrs.len() as nat) matches Ok(ca) ==> {
                let rejected = match input.data {
                    Data::Struct(fs) => fields_rejected(fs),
                    Data::Enum(vs) => variants_rejected(vs@),
                };
                &&& rejected ==> r == Err::<TypeDecl, SchemaError>(
                    SchemaError::UnsupportedSerdeAttribute,
                )
                &&& !rejected && !arity_ok(*input, ca) ==> r == Err::<TypeDecl, SchemaError>(
                    SchemaError::TransparentArity,
                )
                &&& !rejected && arity_ok(*input, ca) ==> (r matches Ok(d) && d.ident == input.ident
                    && d.attrs == ca && match (d.data, input.data) {
                    (TypeData::Struct(sd), Data::Struct(fs)) => fields_resolved(
                        sd.fields,
                        fs,
                        ca.mode,
                    ),
                    (TypeData::Enum(ed), Data::Enum(vs)) => ed.variants.len() == vs.len()
                        && forall|k: int|
                        0 <= k < vs.len() ==> (#[trigger] ed.variants@[k]).ident == vs@[k].ident
                            && fields_resolved(
                            ed.variants@[k].fields,
                            vs@[k].fields,
                            variant_mode(vs@[k], ca.mode),
                        ),
                    _ => false,
                })
            },
    {
        let attrs = ContainerAttributes::from_attrs(&input.attrs)?;
        let data = match &input.data {
            Data::Struct(fs) => {
                let sd = StructDecl::from_data(fs, attrs.mode)?;
                if attrs.transparent && (sd.fields.style == FieldsStyle::Unit || sd.fields.fields.len()
                    != 1) {
                    return Err(SchemaError::TransparentArity);
                }
                TypeData::Struct(sd)
            },
            Data::Enum(vs) => TypeData::Enum(EnumDecl::from_data(vs, attrs.mode)?),
        };
        Ok(TypeDecl { ident: input.ident.clone(), attrs, data })
    }
}

} // verus!

verus! {

/// Whether a field's type offers what its attributes ask of it.
pub fn field_is_ok(f: &FieldDecl, skipping: bool, n_types: usize) -> (r: bool)
    ensures
        r == field_ok(*f, skipping, n_types as nat),
{
    if skipping && f.attrs.skip {
        crate::schema::is_default_capable(&f.ty)
    } else if f.attrs.with.is_some() {
        match f.ty {
            Shape::Int | Shape::Counted | Shape::Plain => true,
            _ => false,
        }
    } else if f.attrs.mode == ItemMode::Stateful {
        crate::schema::is_stateful_capable(&f.ty, n_types)
    } else {
        crate::schema::is_stateless_capable(&f.ty)
    }
}

/// Whether no two encoded named fields share a wire key.
pub fn keys_are_distinct(fields: &Vec<FieldDecl>) -> (r: bool)
    ensures
        r == keys_distinct(fields@),
{
    let n = fields.len();
    let mut a: usize = 0;
    while a < n
        invariant
            a <= n,
            n == fields.len(),
            forall|x: int, y: int|
                0 <= x < a && 0 <= y < n && x != y && !fields@[x].attrs.skip
                    && !fields@[y].attrs.skip ==> field_key(#[trigger] fields@[x]) != field_key(
                    #[trigger] fields@[y],
                ),
        decreases n - a,
    {
        if !fields[a].attrs.skip {
            let ka = fields[a].attrs.key(&fields[a].ident);
            let mut b: usize = 0;
            while b < n
                invariant
                    b <= n,
                    a < n,
                    n == fields.len(),
                    ka@ == field_key(fields@[a as int]),
                    !fields@[a as int].attrs.skip,
                    forall|x: int, y: int|
                        0 <= x < a && 0 <= y < n && x != y && !fields@[x].attrs.skip
                            && !fields@[y].attrs.skip ==> field_key(#[trigger] fields@[x])
                            != field_key(#[trigger] fields@[y]),
                    forall|y: int|
                        0 <= y < b && y != a && !fields@[y].attrs.skip ==> field_key(fields@[a as int])
                            != field_key(#[trigger] fields@[y]),
                decreases n - b,
            {
                if b != a && !fields[b].attrs.skip {
                    let kb = fields[b].attrs.key(&fields[b].ident);
                    if ka == kb {
                        proof {
                            assert(!keys_distinct(fields@)) by {
                                assert(field_key(fields@[a as int]) == field_key(fields@[b as int]));
                            }
                        }
                        return false;
                    }
                }
                b += 1;
            }
            proof {
                assert forall|x: int, y: int|
                    0 <= x < a + 1 && 0 <= y < n && x != y && !fields@[x].attrs.skip
                        && !fields@[y].attrs.skip implies field_key(#[trigger] fields@[x])
                    != field_key(#[trigger] fields@[y]) by {
                    if x == a {
                        assert(field_key(fields@[a as int]) != field_key(fields@[y]));
                    }
                }
            }
        }
        a += 1;
    }
    true
}

/// Whether no two variants share a name.
pub fn names_are_distinct(variants: &Vec<VariantDecl>) -> (r: bool)
    ensures
        r == names_distinct(variants@),
{
    let n = variants.len();
    let mut a: usize = 0;
    while a < n
        invariant
            a <= n,
            n == variants.len(),
            forall|x: int, y: int|
                0 <= x < a && 0 <= y < n && x != y ==> (#[trigger] variants@[x]).ident@
                    != (#[trigger] variants@[y]).ident@,
        decreases n - a,
    {
        let mut b: usize = 0;
        while b < n
            invariant
                b <= n,
                a < n,
                n == variants.len(),
                forall|x: int, y: int|
                    0 <= x < a && 0 <= y < n && x != y ==> (#[trigger] variants@[x]).ident@
                        != (#[trigger] variants@[y]).ident@,
                forall|y: int|
                    0 <= y < b && y != a ==> variants@[a as int].ident@ != (
                    #[trigger] variants@[y]).ident@,
            decreases n - b,
        {
            if b != a && variants[a].ident == variants[b].ident {
                return false;
            }
            b += 1;
        }
        a += 1;
    }
    true
}

pub fn fields_are_ok(fd: &FieldsDecl, skipping: bool, n_types: usize) -> (r: bool)
    ensures
        r == fields_ok(*fd, skipping, n_types as nat),
{
    let mut k: usize = 0;
    while k < fd.fields.len()
        invariant
            k <= fd.fields.len(),
            forall|i: int|
                0 <= i < k ==> field_ok(
                    #[trigger] fd.fields@[i],
                    skipping && fd.style == FieldsStyle::Named,
                    n_types as nat,
                ),
        decreases fd.fields.len() - k,
    {
        if !field_is_ok(&fd.fields[k], skipping && fd.style == FieldsStyle::Named, n_types) {
            return false;
        }
        k += 1;
    }
    if fd.style == FieldsStyle::Unit && fd.fields.len() != 0 {
        return false;
    }
    if fd.style == FieldsStyle::Named && !keys_are_distinct(&fd.fields) {
        return false;
    }
    true
}

/// Whether declaration `index` of a registry of `n_types` is well formed.
pub fn decl_is_ok(d: &TypeDecl, index: usize, n_types: usize) -> (r: bool)
    ensures
        r == decl_ok(*d, index as nat, n_types as nat),
{
    match &d.data {
        TypeData::Struct(sd) => {
            if !fields_are_ok(&sd.fields, !d.attrs.transparent, n_types) {
                return false;
            }
            if d.attrs.transparent && (sd.fields.fields.len() != 1 || sd.fields.style
                == FieldsStyle::Unit) {
                return false;
            }
            if d.attrs.transparent || (sd.fields.style == FieldsStyle::Unnamed
                && sd.fields.fields.len() == 1) {
                crate::schema::are_heads_below(&sd.fields.fields[0].ty, index)
            } else {
                true
            }
        },
        TypeData::Enum(ed) => {
            let mut k: usize = 0;
            while k < ed.variants.len()
                invariant
                    k <= ed.variants.len(),
                    d.data == TypeData::Enum(*ed),
                    forall|i: int|
                        0 <= i < k ==> fields_ok(#[trigger] ed.variants@[i].fields, true, n_types as nat),
                decreases ed.variants.len() - k,
            {
                if !fields_are_ok(&ed.variants[k].fields, true, n_types) {
                    assert(!fields_ok(ed.variants@[k as int].fields, true, n_types as nat));
                    return false;
                }
                k += 1;
            }
            names_are_distinct(&ed.variants)
        },
    }
}

/// Whether every declaration of the registry is well formed: each field's
/// type offers what its mode, skip flag or hook asks of it, keys and variant
/// names are distinct, a transparent record has one field, and every
/// declared type referred to exists. This is what the encoder and decoder
/// laws assume.
pub fn check_registry(reg: &Vec<TypeDecl>) -> (r: bool)
    ensures
        r == registry_ok(reg@),
{
    let mut i: usize = 0;
    while i < reg.len()
        invariant
            i <= reg.len(),
            forall|j: int| 0 <= j < i ==> decl_ok(#[trigger] reg@[j], j as nat, reg@.len()),
        decreases reg.len() - i,
    {
        if !decl_is_ok(&reg[i], i, reg.len()) {
            return false;
        }
        i += 1;
    }
    true
}

} // verus!

verus! {

/// Whether `vals` holds one value of the right type per field.
pub fn values_conform(reg: &Vec<TypeDecl>, fields: &Vec<FieldDecl>, vals: &Vec<Value>) -> (r: bool)
    ensures
        r == fields_conform(reg@, fields@, crate::value::views(vals@)),
    decreases crate::value::views(vals@), 0nat,
{
    if vals.len() != fields.len() {
        return false;
    }
    let ghost vs = crate::value::views(vals@);
    let mut k: usize = 0;
    while k < vals.len()
        invariant
            k <= vals.len(),
            vals.len() == fields.len(),
            vs == crate::value::views(vals@),
            forall|i: int| 0 <= i < k ==> conforms(reg@, fields@[i].ty, #[trigger] vs[i]),
        decreases vals.len() - k,
    {
        proof {
            broadcast use vstd::seq::axiom_seq_index_decreases;
            assert(vs[k as int] == vals@[k as int]@);
            assert(decreases_to!(vs => vs[k as int]));
        }
        if !value_conforms(reg, &fields[k].ty, &vals[k]) {
            return false;
        }
        k += 1;
    }
    true
}

/// Whether `v` is a value of type `s`: what encoding requires of its input.
pub fn value_conforms(reg: &Vec<TypeDecl>, s: &Shape, v: &Value) -> (r: bool)
    ensures
        r == conforms(reg@, *s, v@),
    decreases v@, 1nat, s,
{
    match s {
        Shape::Int | Shape::Counted | Shape::Plain => matches!(v, Value::Int(_)),
        Shape::Phantom => matches!(v, Value::Unit),
        Shape::List(t) => match v {
            Value::List(items) => {
                proof {
                    crate::value::lemma_views(*v);
                }
                let mut k: usize = 0;
                while k < items.len()
                    invariant
                        k <= items.len(),
                        *v == Value::List(*items),
                        *s == Shape::List(*t),
                        v@ == ValueM::List(crate::value::views(items@)),
                        forall|i: int| 0 <= i < k ==> conforms(reg@, **t, #[trigger] v@->List_0[i]),
                    decreases items.len() - k,
                {
                    proof {
                        crate::value::lemma_child_smaller(*v, k as int);
                        assert(v@->List_0[k as int] == items@[k as int]@);
                    }
                    if !value_conforms(reg, t, &items[k]) {
                        return false;
                    }
                    k += 1;
                }
                true
            },
            _ => false,
        },
        Shape::Maybe(t) => match v {
            Value::Absent => true,
            Value::Present(x) => {
                proof {
                    assert(decreases_to!(v@ => v@->Present_0));
                }
                value_conforms(reg, t, x)
            },
            _ => false,
        },
        Shape::Boxed(t) => value_conforms(reg, t, v),
        Shape::Pair(a, b) => match v {
            Value::List(items) => {
                proof {
                    crate::value::lemma_views(*v);
                    if items.len() == 2 {
                        crate::value::lemma_child_smaller(*v, 0);
                        crate::value::lemma_child_smaller(*v, 1);
                    }
                }
                items.len() == 2 && value_conforms(reg, a, &items[0]) && value_conforms(
                    reg,
                    b,
                    &items[1],
                )
            },
            _ => false,
        },
        Shape::Named(i) => {
            if *i >= reg.len() {
                return false;
            }
            match &reg[*i].data {
                TypeData::Struct(sd) => match v {
                    Value::Record(vals) => {
                        proof {
                            crate::value::lemma_views(*v);
                            assert(decreases_to!(v@ => v@->Record_0));
                        }
                        values_conform(reg, &sd.fields.fields, vals)
                    },
                    _ => false,
                },
                TypeData::Enum(ed) => match v {
                    Value::Variant(k, vals) => {
                        proof {
                            crate::value::lemma_views(*v);
                            assert(decreases_to!(v@ => v@->Variant_1));
                        }
                        *k < ed.variants.len() && values_conform(reg, &ed.variants[*k].fields.fields, vals)
                    },
                    _ => false,
                },
            }
        },
    }
}

} // verus!
