//! The structured external representation that values are encoded into.
use vstd::prelude::*;

verus! {

/// Mathematical model of a wire value.
pub enum WireM {
    Null,
    Int(u64),
    Str(Seq<char>),
    Array(Seq<WireM>),
    Object(Seq<(Seq<char>, WireM)>),
}

/// A wire value: `null`, an unsigned integer, a string, an array or an object
/// whose entries keep their order (keys may repeat).
#[derive(Debug, PartialEq, Eq)]
pub enum Wire {
    Null,
    Int(u64),
    Str(String),
    Array(Vec<Wire>),
    Object(Vec<(String, Wire)>),
}

/// The models of a sequence of wire values.
pub open spec fn wire_views(items: Seq<Wire>) -> Seq<WireM> {
    Seq::new(items.len(), |i: int| items[i]@)
}

/// The models of a sequence of object entries.
pub open spec fn entry_views(entries: Seq<(String, Wire)>) -> Seq<(Seq<char>, WireM)> {
    Seq::new(entries.len(), |i: int| (entries[i].0@, entries[i].1@))
}

/// The model of an array or object is built from the models of its parts.
pub proof fn lemma_wire_views(w: Wire)
    ensures
        w matches Wire::Array(items) ==> w@ == WireM::Array(wire_views(items@)),
        w matches Wire::Object(entries) ==> w@ == WireM::Object(entry_views(entries@)),
{
    match w {
        Wire::Array(items) => {
            assert(w@->Array_0 =~= wire_views(items@));
        },
        Wire::Object(entries) => {
            assert(w@->Object_0 =~= entry_views(entries@));
        },
        _ => {},
    }
}

/// Each element of an array, and each entry value of an object, is smaller
/// than the whole.
pub proof fn lemma_wire_child_smaller(w: Wire, k: int)
    ensures
        w is Array ==> decreases_to!(w@ => wire_views(w->Array_0@)),
        w is Object ==> decreases_to!(w@ => entry_views(w->Object_0@)),
        w is Array && 0 <= k < w->Array_0.len() ==> decreases_to!(w@ => w->Array_0@[k]@),
        w is Object && 0 <= k < w->Object_0.len() ==> decreases_to!(w@ => w->Object_0@[k].1@),
        w is Array && 0 <= k < w->Array_0.len() ==> decreases_to!(wire_views(w->Array_0@) => w->Array_0@[k]@),
        w is Object && 0 <= k < w->Object_0.len() ==> decreases_to!(entry_views(w->Object_0@) => w->Object_0@[k].1@),
{
    lemma_wire_views(w);
    broadcast use vstd::seq::axiom_seq_index_decreases;

    match w {
        Wire::Array(items) => {
            assert(decreases_to!(w@ => w@->Array_0));
            if 0 <= k < items.len() {
                let s = wire_views(items@);
                assert(decreases_to!(s => s[k]));
            }
        },
        Wire::Object(entries) => {
            assert(decreases_to!(w@ => w@->Object_0));
            if 0 <= k < entries.len() {
                let s = entry_views(entries@);
                assert(decreases_to!(s => s[k]));
                assert(decreases_to!(s[k] => s[k].1));
            }
        },
        _ => {},
    }
}

impl Wire {
    pub open spec fn view(&self) -> WireM
        decreases self,
    {
        match self {
            Wire::Null => WireM::Null,
            Wire::Int(n) => WireM::Int(*n),
            Wire::Str(s) => WireM::Str(s@),
            Wire::Array(items) => WireM::Array(
                Seq::new(
                    items.len() as nat,
                    |i: int|
                        if 0 <= i < items.len() {
                            items[i].view()
                        } else {
                            WireM::Null
                        },
                ),
            ),
            Wire::Object(entries) => WireM::Object(
                Seq::new(
                    entries.len() as nat,
                    |i: int|
                        if 0 <= i < entries.len() {
                            (entries[i].0@, entries[i].1.view())
                        } else {
                            (Seq::empty(), WireM::Null)
                        },
                ),
            ),
        }
    }
}

} // verus!
