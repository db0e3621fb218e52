//! Field and variant attributes, and how they are read from declarations.
use crate::mode::ItemMode;
use crate::value::Recorder;
use vstd::prelude::*;

verus! {

/// A custom encode/decode pair that replaces the generated logic of one
/// field.
#[derive(Clone, Copy, PartialEq, Eq, Structural, Debug)]
pub enum Hook {
    /// Encodes an integer `n` as `n + k` and decodes `m` as `m - k`, both
    /// modulo 2^64.
    Shift(u64),
}

/// `n + k` modulo 2^64.
pub open spec fn shift_up(n: u64, k: u64) -> u64 {
    if n + k <= u64::MAX {
        (n + k) as u64
    } else {
        (n + k - 0x1_0000_0000_0000_0000) as u64
    }
}

/// `n - k` modulo 2^64.
pub open spec fn shift_down(n: u64, k: u64) -> u64 {
    if n >= k {
        (n - k) as u64
    } else {
        (n + 0x1_0000_0000_0000_0000 - k) as u64
    }
}

pub open spec fn hook_encoded(h: Hook, n: u64) -> u64 {
    match h {
        Hook::Shift(k) => shift_up(n, k),
    }
}

pub open spec fn hook_decoded(h: Hook, n: u64) -> u64 {
    match h {
        Hook::Shift(k) => shift_down(n, k),
    }
}

impl Hook {
    /// The hook's encode half. It receives the caller's context; a shift
    /// does not consult it.
    pub fn encode_int(&self, n: u64, state: &Recorder) -> (r: u64)
        ensures
            r == hook_encoded(*self, n),
    {
        match self {
            Hook::Shift(k) => {
                if n <= u64::MAX - *k {
                    n + *k
                } else {
                    n - (u64::MAX - *k) - 1
                }
            },
        }
    }

    /// The hook's decode half. It receives the caller's context; a shift
    /// does not consult it.
    pub fn decode_int(&self, n: u64, state: &Recorder) -> (r: u64)
        ensures
            r == hook_decoded(*self, n),
    {
        match self {
            Hook::Shift(k) => {
                if n >= *k {
                    n - *k
                } else {
                    n + (u64::MAX - *k) + 1
                }
            },
        }
    }
}

/// The resolved attributes of a field.
pub struct FieldAttrs {
    pub rename: Option<String>,
    pub skip: bool,
    pub mode: ItemMode,
    pub with: Option<Hook>,
}

/// The key of a field on the wire: its rename if it has one, else its name.
pub open spec fn wire_key(attrs: FieldAttrs, ident: Seq<char>) -> Seq<char> {
    match attrs.rename {
        Some(r) => r@,
        None => ident,
    }
}

impl Default for FieldAttrs {
    /// No rename, no skip, no hook, stateful.
    fn default() -> (r: FieldAttrs)
        ensures
            r.rename is None,
            !r.skip,
            r.mode == ItemMode::Stateful,
            r.with is None,
    {
        FieldAttrs { rename: None, skip: false, mode: ItemMode::Stateful, with: None }
    }
}

impl FieldAttrs {
    pub fn key(&self, ident: &String) -> (r: String)
        ensures
            r@ == wire_key(*self, ident@),
    {
        match &self.rename {
            Some(r) => r.clone(),
            None => ident.clone(),
        }
    }
}

/// The resolved attributes of a union variant.
#[derive(Clone, Copy)]
pub struct VariantAttrs {
    pub mode: ItemMode,
}

impl Default for VariantAttrs {
    /// Stateful.
    fn default() -> (r: VariantAttrs)
        ensures
            r.mode == ItemMode::Stateful,
    {
        VariantAttrs { mode: ItemMode::Stateful }
    }
}

impl VariantAttrs {
    pub fn mode(&self) -> (r: ItemMode)
        ensures
            r == self.mode,
    {
        self.mode
    }
}

} // verus!

verus! {

/// Which attribute an entry of a declaration sits in: `serde(...)`,
/// `serde_state(...)`, or one this library does not read.
#[derive(Clone, Copy, PartialEq, Eq, Structural, Debug)]
pub enum AttrPath {
    Serde,
    SerdeState,
    Other,
}

/// One nested entry of an attribute.
pub enum Meta {
    Transparent,
    Crate,
    State,
    StateImplements,
    Stateless,
    Stateful,
    Rename(String),
    Skip,
    With(Hook),
    Unknown,
}

/// An attribute of a declaration: its path and its nested entries.
pub struct Attribute {
    pub path: AttrPath,
    pub metas: Vec<Meta>,
}

/// A declaration that cannot be resolved.
#[derive(Clone, Copy, PartialEq, Eq, Structural, Debug)]
pub enum SchemaError {
    UnsupportedSerdeAttribute,
    UnsupportedSerdeStateAttribute,
    StateOutsideSerdeState,
    StateImplementsOutsideSerdeState,
    ModeOutsideSerdeState,
    DuplicateState,
    DuplicateStateImplements,
    StateWithStateImplements,
    TransparentArity,
}

/// The mode an entry of `serde_state(...)` selects, if any.
pub open spec fn meta_mode(m: Meta) -> Option<ItemMode> {
    match m {
        Meta::Stateless => Some(ItemMode::Stateless),
        Meta::Stateful => Some(ItemMode::Stateful),
        _ => None,
    }
}

/// The last mode selected among the first `n` entries.
pub open spec fn last_mode_in(metas: Seq<Meta>, n: nat) -> Option<ItemMode>
    decreases n,
{
    if n == 0 {
        None
    } else {
        match meta_mode(metas[n - 1]) {
            Some(m) => Some(m),
            None => last_mode_in(metas, (n - 1) as nat),
        }
    }
}

/// The mode override that the first `n` attributes declare: the last
/// `stateless` or `stateful` entry of a `serde_state(...)` attribute.
pub open spec fn declared_mode(attrs: Seq<Attribute>, n: nat) -> Option<ItemMode>
    decreases n,
{
    if n == 0 {
        None
    } else {
        let a = attrs[n - 1];
        match if a.path == AttrPath::SerdeState {
            last_mode_in(a.metas@, a.metas.len() as nat)
        } else {
            None
        } {
            Some(m) => Some(m),
            None => declared_mode(attrs, (n - 1) as nat),
        }
    }
}

pub fn mode_in(metas: &Vec<Meta>) -> (r: Option<ItemMode>)
    ensures
        r == last_mode_in(metas@, metas.len() as nat),
{
    let mut r: Option<ItemMode> = None;
    let mut k: usize = 0;
    while k < metas.len()
        invariant
            k <= metas.len(),
            r == last_mode_in(metas@, k as nat),
        decreases metas.len() - k,
    {
        match &metas[k] {
            Meta::Stateless => {
                r = Some(ItemMode::Stateless);
            },
            Meta::Stateful => {
                r = Some(ItemMode::Stateful);
            },
            _ => {},
        }
        k += 1;
    }
    r
}

/// The mode override that a list of attributes declares.
pub fn attrs_mode(attrs: &Vec<Attribute>) -> (r: Option<ItemMode>)
    ensures
        r == declared_mode(attrs@, attrs.len() as nat),
{
    let mut r: Option<ItemMode> = None;
    let mut k: usize = 0;
    while k < attrs.len()
        invariant
            k <= attrs.len(),
            r == declared_mode(attrs@, k as nat),
        decreases attrs.len() - k,
    {
        if attrs[k].path == AttrPath::SerdeState {
            match mode_in(&attrs[k].metas) {
                Some(m) => {
                    r = Some(m);
                },
                None => {},
            }
        }
        k += 1;
    }
    r
}

/// The attributes of a variant, under the union's mode.
pub fn parse_variant_attrs(attrs: &Vec<Attribute>, default_mode: ItemMode) -> (r: VariantAttrs)
    ensures
        r.mode == crate::mode::merged(default_mode, declared_mode(attrs@, attrs.len() as nat)),
{
    VariantAttrs { mode: crate::mode::merge_modes(default_mode, attrs_mode(attrs)) }
}

/// A `serde(...)` entry that a field accepts.
pub open spec fn field_serde_meta(m: Meta) -> bool {
    m is Rename || m is Skip || m is With
}

/// Some `serde(...)` attribute among the first `n` holds an entry that a
/// field does not accept.
pub open spec fn field_attrs_rejected(attrs: Seq<Attribute>, n: nat) -> bool {
    exists|a: int, j: int|
        0 <= a < n && attrs[a].path == AttrPath::Serde && 0 <= j < attrs[a].metas.len()
            && !field_serde_meta(#[trigger] attrs[a].metas@[j])
}

/// The last rename among the entries of the first `n` `serde(...)` attributes.
pub open spec fn last_rename_in(metas: Seq<Meta>, n: nat) -> Option<String>
    decreases n,
{
    if n == 0 {
        None
    } else {
        match metas[n - 1] {
            Meta::Rename(r) => Some(r),
            _ => last_rename_in(metas, (n - 1) as nat),
        }
    }
}

pub open spec fn declared_rename(attrs: Seq<Attribute>, n: nat) -> Option<String>
    decreases n,
{
    if n == 0 {
        None
    } else {
        let a = attrs[n - 1];
        match if a.path == AttrPath::Serde {
            last_rename_in(a.metas@, a.metas.len() as nat)
        } else {
            None
        } {
            Some(r) => Some(r),
            None => declared_rename(attrs, (n - 1) as nat),
        }
    }
}

pub open spec fn last_hook_in(metas: Seq<Meta>, n: nat) -> Option<Hook>
    decreases n,
{
    if n == 0 {
        None
    } else {
        match metas[n - 1] {
            Meta::With(h) => Some(h),
            _ => last_hook_in(metas, (n - 1) as nat),
        }
    }
}

pub open spec fn declared_hook(attrs: Seq<Attribute>, n: nat) -> Option<Hook>
    decreases n,
{
    if n == 0 {
        None
    } else {
        let a = attrs[n - 1];
        match if a.path == AttrPath::Serde {
            last_hook_in(a.metas@, a.metas.len() as nat)
        } else {
            None
        } {
            Some(h) => Some(h),
            None => declared_hook(attrs, (n - 1) as nat),
        }
    }
}

/// Some `serde(...)` attribute among the first `n` asks to skip the field.
pub open spec fn declared_skip(attrs: Seq<Attribute>, n: nat) -> bool {
    exists|a: int, j: int|
        0 <= a < n && attrs[a].path == AttrPath::Serde && 0 <= j < attrs[a].metas.len()
            && (#[trigger] attrs[a].metas@[j]) is Skip
}

/// The attributes that a field declares, under the mode of its container or
/// variant.
pub open spec fn field_attrs_of(attrs: Seq<Attribute>, default_mode: ItemMode) -> FieldAttrs {
    FieldAttrs {
        rename: declared_rename(attrs, attrs.len()),
        skip: declared_skip(attrs, attrs.len()),
        mode: crate::mode::merged(default_mode, declared_mode(attrs, attrs.len())),
        with: declared_hook(attrs, attrs.len()),
    }
}

/// The attributes of a field under the mode of its container or variant:
/// the last rename, hook and mode override win; any skip entry skips.
/// An entry of `serde(...)` that a field does not accept is an error.
pub fn parse_field_attrs(attrs: &Vec<Attribute>, default_mode: ItemMode) -> (r: Result<FieldAttrs, SchemaError>)
    ensures
        field_attrs_rejected(attrs@, attrs.len() as nat) <==> r is Err,
        r matches Err(e) ==> e == SchemaError::UnsupportedSerdeAttribute,
        r matches Ok(fa) ==> fa == field_attrs_of(attrs@, default_mode),
{
    let mut rename: Option<String> = None;
    let mut skip = false;
    let mut with: Option<Hook> = None;
    let mut a: usize = 0;
    while a < attrs.len()
        invariant
            a <= attrs.len(),
            !field_attrs_rejected(attrs@, a as nat),
            rename == declared_rename(attrs@, a as nat),
            skip == declared_skip(attrs@, a as nat),
            with == declared_hook(attrs@, a as nat),
        decreases attrs.len() - a,
    {
        let attr = &attrs[a];
        if attr.path == AttrPath::Serde {
            let ghost rename0 = rename;
            let ghost with0 = with;
            let ghost skip0 = skip;
            let mut j: usize = 0;
            while j < attr.metas.len()
                invariant
                    j <= attr.metas.len(),
                    a < attrs.len(),
                    *attr == attrs@[a as int],
                    attr.path == AttrPath::Serde,
                    forall|i: int| 0 <= i < j ==> field_serde_meta(#[trigger] attr.metas@[i]),
                    rename == match last_rename_in(attr.metas@, j as nat) {
                        Some(r) => Some(r),
                        None => rename0,
                    },
                    with == match last_hook_in(attr.metas@, j as nat) {
                        Some(h) => Some(h),
                        None => with0,
                    },
                    skip == (skip0 || exists|i: int| 0 <= i < j && (#[trigger] attr.metas@[i]) is Skip),
                decreases attr.metas.len() - j,
            {
                match &attr.metas[j] {
                    Meta::Rename(r) => {
                        rename = Some(r.clone());
                    },
                    Meta::Skip => {
                        skip = true;
                    },
                    Meta::With(h) => {
                        with = Some(*h);
                    },
                    _ => {
                        proof {
                            assert(field_attrs_rejected(attrs@, attrs.len() as nat)) by {
                                assert(!field_serde_meta(attrs@[a as int].metas@[j as int]));
                            }
                        }
                        return Err(SchemaError::UnsupportedSerdeAttribute);
                    },
                }
                j += 1;
            }
            proof {
                assert forall|x: int, i: int|
                    0 <= x < a + 1 && attrs@[x].path == AttrPath::Serde && 0 <= i
                        < attrs@[x].metas.len() implies field_serde_meta(
                    #[trigger] attrs@[x].metas@[i],
                ) by {
                    if x < a {
                        assert(!field_attrs_rejected(attrs@, a as nat));
                    }
                }
                assert(skip == declared_skip(attrs@, (a + 1) as nat)) by {
                    if skip && !skip0 {
                        let i = choose|i: int| 0 <= i < j && (#[trigger] attr.metas@[i]) is Skip;
                        assert(attrs@[a as int].metas@[i] is Skip);
                    }
                    if declared_skip(attrs@, (a + 1) as nat) && !skip0 {
                        let (x, i) = choose|x: int, i: int|
                            0 <= x < a + 1 && attrs@[x].path == AttrPath::Serde && 0 <= i
                                < attrs@[x].metas.len() && (#[trigger] attrs@[x].metas@[i]) is Skip;
                        assert(x == a);
                        assert(attr.metas@[i] is Skip);
                    }
                }
            }
        } else {
            proof {
                assert forall|x: int, i: int|
                    0 <= x < a + 1 && attrs@[x].path == AttrPath::Serde && 0 <= i
                        < attrs@[x].metas.len() implies field_serde_meta(
                    #[trigger] attrs@[x].metas@[i],
                ) by {
                    assert(x < a);
                    assert(!field_attrs_rejected(attrs@, a as nat));
                }
                assert(skip == declared_skip(attrs@, (a + 1) as nat)) by {
                    if declared_skip(attrs@, (a + 1) as nat) {
                        let (x, i) = choose|x: int, i: int|
                            0 <= x < a + 1 && attrs@[x].path == AttrPath::Serde && 0 <= i
                                < attrs@[x].metas.len() && (#[trigger] attrs@[x].metas@[i]) is Skip;
                        assert(x < a);
                    }
                }
            }
        }
        a += 1;
    }
    let mode = crate::mode::merge_modes(default_mode, attrs_mode(attrs));
    Ok(FieldAttrs { rename, skip, mode, with })
}

} // verus!
