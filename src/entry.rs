//! Extras, the serde helper module, and the entrypoint assembler.
use vstd::prelude::*;
use crate::hir::{Specification, TypeRef};
use crate::mir::{File, Function, Import, Item, Literal, Visibility};
use crate::render::{render, render_items};
use crate::text::{chars_of, contains, contains_chars};
use crate::writer::{
    after_marker, content_after, law_idempotent, lemma_after_pos, lemma_regenerated_layout, lemma_suffix_is_part, merge,
    merged, preserved_region, preserved_suffix, static_marker, Modified,
};

verus! {

/// Flags derived once from the specification and shared by the passes.
#[derive(Debug, Clone, Copy, PartialEq, Eq, Structural)]
pub struct Extras {
    /// Some model holds a date-time property, which needs a custom serializer.
    pub date_serialization: bool,
}

/// Some property of some model is a date-time.
pub open spec fn needs_date_serialization(spec: Specification) -> bool {
    exists|i: int, j: int|
        0 <= i < spec.models@.len() && 0 <= j < spec.models@[i].fields@.len()
            && (#[trigger] spec.models@[i].fields@[j]).ty is DateTime
}

/// The extras of a specification.
pub fn calculate_extras(spec: &Specification) -> (r: Extras)
    ensures
        r.date_serialization == needs_date_serialization(*spec),
{
    let mut i: usize = 0;
    while i < spec.models.len()
        invariant
            i <= spec.models@.len(),
            forall|a: int, b: int|
                0 <= a < i && 0 <= b < spec.models@[a].fields@.len() ==> !((#[trigger] spec.models@[a].fields@[b]).ty is DateTime),
        decreases spec.models@.len() - i,
    {
        let fields = &spec.models[i].fields;
        let mut j: usize = 0;
        while j < fields.len()
            invariant
                i < spec.models@.len(),
                fields == &spec.models@[i as int].fields,
                j <= fields@.len(),
                forall|a: int, b: int|
                    0 <= a < i && 0 <= b < spec.models@[a].fields@.len() ==> !((#[trigger] spec.models@[a].fields@[b]).ty is DateTime),
                forall|b: int| 0 <= b < j ==> !((#[trigger] fields@[b]).ty is DateTime),
            decreases fields@.len() - j,
        {
            if let TypeRef::DateTime = fields[j].ty {
                assert(spec.models@[i as int].fields@[j as int].ty is DateTime);
                return Extras { date_serialization: true };
            }
            j = j + 1;
        }
        i = i + 1;
    }
    Extras { date_serialization: false }
}

/// The text of the date-time serializer helper module.
pub const DATE_HELPER: &'static str = "pub mod date_time {\n    pub use chrono::serde::ts_seconds;\n}";

/// The helper module, exactly where the extras ask for a custom serializer.
pub fn write_serde_module(extras: &Extras) -> (r: Option<File>)
    ensures
        r is Some <==> extras.date_serialization,
        r matches Some(f) ==> f.items@.len() == 1 && (f.items@[0] matches Item::Lit(l) && l.0@ == DATE_HELPER@),
{
    if extras.date_serialization {
        let mut items: Vec<Item> = Vec::new();
        items.push(Item::Lit(Literal(DATE_HELPER.to_owned())));
        Some(File { items })
    } else {
        None
    }
}

/// The name of the generated default network-client constructor.
pub const CLIENT_CTOR: &'static str = "default_http_client";

/// The item is the default network-client constructor.
pub open spec fn is_client_ctor(it: Item) -> bool {
    it matches Item::Fn(f) && f.name@ == CLIENT_CTOR@
}

/// The entrypoint: module declarations, their re-exports, and the default
/// network-client constructor last.
pub fn make_lib_rs(extras: &Extras) -> (r: File)
    ensures
        r.items@.len() == if extras.date_serialization { 6int } else { 5int },
        r.items@[0] matches Item::Lit(l) && l.0@ == "pub mod model;"@,
        r.items@[1] matches Item::Lit(l) && l.0@ == "pub mod request;"@,
        r.items@[2] matches Item::Import(i) && i.path@ == "model::*"@ && i.public && i.imports@.len() == 0,
        r.items@[3] matches Item::Import(i) && i.path@ == "request::*"@ && i.public && i.imports@.len() == 0,
        extras.date_serialization ==> (r.items@[4] matches Item::Lit(l) && l.0@ == "mod serde;"@),
        is_client_ctor(r.items@.last()),
        forall|k: int| 0 <= k < r.items@.len() - 1 ==> !is_client_ctor(#[trigger] r.items@[k]),
{
    let mut items: Vec<Item> = Vec::new();
    items.push(Item::Lit(Literal("pub mod model;".to_owned())));
    items.push(Item::Lit(Literal("pub mod request;".to_owned())));
    items.push(Item::Import(Import::package("model::*").public()));
    items.push(Item::Import(Import::package("request::*").public()));
    if extras.date_serialization {
        items.push(Item::Lit(Literal("mod serde;".to_owned())));
    }
    items.push(
        Item::Fn(
            Function {
                name: CLIENT_CTOR.to_owned(),
                args: Vec::new(),
                ret: "client::Client".to_owned(),
                body: "client::Client::default()".to_owned(),
                visibility: Visibility::Public,
            },
        ),
    );
    File { items }
}

/// The items without the default network-client constructor.
pub open spec fn without_client(items: Seq<Item>) -> Seq<Item>
    decreases items.len(),
{
    if items.len() == 0 {
        Seq::empty()
    } else {
        let rest = without_client(items.drop_last());
        if is_client_ctor(items.last()) {
            rest
        } else {
            rest.push(items.last())
        }
    }
}

/// The hand-written region of the existing entrypoint already defines a
/// replacement default network-client constructor.
pub open spec fn overrides_client(existing: Seq<char>) -> bool {
    contains(existing, after_marker()) && contains(preserved_suffix(existing), CLIENT_CTOR@)
}

/// The items of the entrypoint that is written over `existing`.
pub open spec fn lib_items(items: Seq<Item>, existing: Seq<char>) -> Seq<Item> {
    if overrides_client(existing) {
        without_client(items)
    } else {
        items
    }
}

fn is_ctor(it: &Item, ctor: &String) -> (r: bool)
    requires
        ctor@ == CLIENT_CTOR@,
    ensures
        r == is_client_ctor(*it),
{
    match it {
        Item::Fn(f) => f.name == *ctor,
        _ => false,
    }
}

/// Writes the entrypoint `file` over `content`, the current content of
/// `path`: where the hand-written region already defines a replacement
/// default network-client constructor, the generated one is left out.
pub fn write_lib_rs(path: &str, file: File, content: &str, modified: &mut Modified) -> (r: Option<String>)
    ensures
        final(modified)@ == old(modified)@.insert(path@),
        r matches Some(s) ==> merged(content@, render_items(lib_items(file.items@, content@))) == Some(s@),
        r is None <==> merged(content@, render_items(lib_items(file.items@, content@))) is None,
{
    let overridden = match preserved_region(content) {
        Some(region) => contains_chars(&region, &chars_of(CLIENT_CTOR)),
        None => false,
    };
    let file = if overridden {
        let ctor = CLIENT_CTOR.to_owned();
        let ghost all = file.items@;
        let mut rest = file.items;
        let mut kept: Vec<Item> = Vec::new();
        let ghost mut k: int = 0;
        while rest.len() > 0
            invariant
                ctor@ == CLIENT_CTOR@,
                0 <= k <= all.len(),
                rest@ == all.subrange(k, all.len() as int),
                kept@ == without_client(all.subrange(0, k)),
            decreases rest@.len(),
        {
            let it = rest.remove(0);
            assert(all.subrange(0, k + 1).drop_last() =~= all.subrange(0, k));
            assert(it == all[k]);
            if !is_ctor(&it, &ctor) {
                kept.push(it);
            }
            proof {
                k = k + 1;
            }
            assert(rest@ =~= all.subrange(k, all.len() as int));
        }
        assert(all.subrange(0, all.len() as int) =~= all);
        File { items: kept }
    } else {
        file
    };
    modified.insert(path);
    let code = render(&file);
    merge(content, code.as_str())
}

/// Where the hand-written region of the entrypoint defines a replacement
/// default network-client constructor, the written entrypoint holds no
/// generated one; elsewhere its items are the assembled ones.
pub proof fn law_client_override(items: Seq<Item>, existing: Seq<char>)
    ensures
        overrides_client(existing) ==> forall|k: int|
            0 <= k < lib_items(items, existing).len() ==> !is_client_ctor(#[trigger] lib_items(items, existing)[k]),
        !overrides_client(existing) ==> lib_items(items, existing) == items,
{
    lemma_without_client(items);
}

proof fn lemma_without_client(items: Seq<Item>)
    ensures
        forall|k: int| 0 <= k < without_client(items).len() ==> !is_client_ctor(#[trigger] without_client(items)[k]),
    decreases items.len(),
{
    if items.len() > 0 {
        lemma_without_client(items.drop_last());
        let rest = without_client(items.drop_last());
        if !is_client_ctor(items.last()) {
            assert forall|k: int| 0 <= k < rest.push(items.last()).len() implies !is_client_ctor(
                #[trigger] rest.push(items.last())[k],
            ) by {
                if k < rest.len() {
                    assert(rest.push(items.last())[k] == rest[k]);
                }
            }
        }
    }
}

/// Writing the same assembled entrypoint a second time leaves the file as
/// the first write left it, provided the rendered text holds neither marker:
/// the hand-written region, and so the override decision, survives the
/// first write.
pub proof fn law_entrypoint_idempotent(items: Seq<Item>, existing: Seq<char>)
    requires
        !contains(render_items(lib_items(items, existing)), static_marker()),
        !contains(render_items(lib_items(items, existing)), after_marker()),
    ensures
        ({
            let once = content_after(existing, render_items(lib_items(items, existing)));
            content_after(once, render_items(lib_items(items, once))) == once
        }),
{
    let code = render_items(lib_items(items, existing));
    let once = content_after(existing, code);
    if contains(existing, static_marker()) {
    } else if contains(existing, after_marker()) {
        let suf = preserved_suffix(existing);
        lemma_suffix_is_part(existing);
        lemma_regenerated_layout(code, suf);
        lemma_after_pos(once, code.len() as int);
        assert(preserved_suffix(once) =~= suf);
        assert(lib_items(items, once) == lib_items(items, existing));
    } else {
        assert(lib_items(items, once) == lib_items(items, existing));
    }
    law_idempotent(existing, code);
}

} // verus!
