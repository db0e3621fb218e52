//! Encoding modes and how they are inherited.
use vstd::prelude::*;

verus! {

/// Whether a field or variant payload is encoded with the context
/// (`Stateful`) or through the context-free protocol (`Stateless`).
#[derive(Clone, Copy, PartialEq, Eq, Structural, Debug)]
pub enum ItemMode {
    Stateful,
    Stateless,
}

impl Default for ItemMode {
    /// With no declaration anywhere, fields and variants are stateful.
    fn default() -> (r: ItemMode)
        ensures
            r == ItemMode::Stateful,
    {
        ItemMode::Stateful
    }
}

/// The mode that applies at a narrower scope: its own override if it has
/// one, else the inherited default.
pub open spec fn merged(default: ItemMode, override_mode: Option<ItemMode>) -> ItemMode {
    match override_mode {
        Some(m) => m,
        None => default,
    }
}

pub fn merge_modes(default: ItemMode, override_mode: Option<ItemMode>) -> (r: ItemMode)
    ensures
        r == merged(default, override_mode),
{
    match override_mode {
        Some(m) => m,
        None => default,
    }
}

/// The effective mode of a field: container default, then the variant's
/// override, then the field's own.
pub open spec fn resolved(
    container: ItemMode,
    variant_override: Option<ItemMode>,
    field_override: Option<ItemMode>,
) -> ItemMode {
    merged(merged(container, variant_override), field_override)
}

pub fn resolve_mode(
    container: ItemMode,
    variant_override: Option<ItemMode>,
    field_override: Option<ItemMode>,
) -> (r: ItemMode)
    ensures
        r == resolved(container, variant_override, field_override),
        field_override is Some ==> r == field_override->Some_0,
        field_override is None && variant_override is Some ==> r == variant_override->Some_0,
        field_override is None && variant_override is None ==> r == container,
{
    merge_modes(merge_modes(container, variant_override), field_override)
}

} // verus!
