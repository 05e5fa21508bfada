//! The generation run: lowering every pass, in order, into the files of the
//! library, each with the path it is written to.
use vstd::prelude::*;
use vstd::string::StringExecFns;
use crate::entry::{calculate_extras, is_client_ctor, make_lib_rs, needs_date_serialization, write_serde_module};
use crate::hir::{Config, Model, Operation, Specification};
use crate::lower::{declares_model, declares_operation, models_ok, operations_ok, write_model_module, write_request_module, LowerError};
use crate::mir::{File, Item};
use crate::render::{render_items, render_function, render_class, render_fields, render_args, render_field, render_arg};

verus! {

/// The lowered files of one run, with their destination paths.
pub struct Library {
    pub model_path: String,
    pub model: File,
    pub request_path: String,
    pub request: File,
    pub lib_path: String,
    pub lib: File,
    pub serde_path: String,
    pub serde: Option<File>,
}

/// The path of module `name` under the source directory of `dest`.
pub open spec fn source_file(dest: Seq<char>, name: Seq<char>) -> Seq<char> {
    dest + "/src/"@ + name + ".rs"@
}

/// The path of module `name` under the source directory of `dest`.
pub fn source_path(dest: &str, name: &str) -> (r: String)
    ensures
        r@ == source_file(dest@, name@),
{
    let mut p = dest.to_owned();
    p.append("/src/");
    p.append(name);
    p.append(".rs");
    p
}

/// Lowers the whole specification. The extras are computed first; a model
/// or operation that cannot be lowered aborts the run before any file is
/// produced.
pub fn generate_rust_library(spec: &Specification, cfg: &Config) -> (r: Result<Library, LowerError>)
    ensures
        r is Ok <==> models_ok(spec.models@) && operations_ok(spec.operations@, spec.models@),
        r matches Ok(lib) ==> {
            &&& lib.model_path@ == source_file(cfg.dest@, "model"@)
            &&& lib.request_path@ == source_file(cfg.dest@, "request"@)
            &&& lib.lib_path@ == source_file(cfg.dest@, "lib"@)
            &&& lib.serde_path@ == source_file(cfg.dest@, "serde"@)
            &&& lib.model.items@.len() == spec.models@.len()
            &&& forall|i: int| 0 <= i < spec.models@.len() ==> declares_model(#[trigger] lib.model.items@[i], spec.models@[i])
            &&& lib.request.items@.len() == spec.operations@.len()
            &&& forall|i: int| 0 <= i < spec.operations@.len() ==> declares_operation(#[trigger] lib.request.items@[i], spec.operations@[i])
            &&& is_client_ctor(lib.lib.items@.last())
            &&& (lib.serde is Some <==> needs_date_serialization(*spec))
        },
{
    let extras = calculate_extras(spec);
    let model = write_model_module(spec)?;
    let request = write_request_module(spec)?;
    let lib = make_lib_rs(&extras);
    let serde = write_serde_module(&extras);
    Ok(Library {
        model_path: source_path(cfg.dest.as_str(), "model"),
        model,
        request_path: source_path(cfg.dest.as_str(), "request"),
        request,
        lib_path: source_path(cfg.dest.as_str(), "lib"),
        lib,
        serde_path: source_path(cfg.dest.as_str(), "serde"),
        serde,
    })
}

proof fn lemma_same_fields_render(f1: Seq<crate::mir::Field>, f2: Seq<crate::mir::Field>, ps: Seq<crate::hir::Property>)
    requires
        crate::lower::fields_of(f1, ps),
        crate::lower::fields_of(f2, ps),
    ensures
        render_fields(f1) == render_fields(f2),
    decreases ps.len(),
{
    if ps.len() > 0 {
        let n = ps.len() - 1;
        assert(f1[n] == f1.last() && f2[n] == f2.last());
        lemma_same_fields_render(f1.drop_last(), f2.drop_last(), ps.drop_last());
        assert(render_field(f1.last()) == render_field(f2.last()));
    }
}

proof fn lemma_same_args_render(a1: Seq<crate::mir::FnArg>, a2: Seq<crate::mir::FnArg>, ps: Seq<crate::hir::Property>)
    requires
        crate::lower::args_of(a1, ps),
        crate::lower::args_of(a2, ps),
    ensures
        render_args(a1) == render_args(a2),
    decreases ps.len(),
{
    if ps.len() > 0 {
        let n = ps.len() - 1;
        assert(a1[n] == a1.last() && a2[n] == a2.last());
        lemma_same_args_render(a1.drop_last(), a2.drop_last(), ps.drop_last());
        assert(render_arg(a1.last()) == render_arg(a2.last()));
    }
}

/// The text of a model module is determined by the declared models alone:
/// two files that both declare the models, in order, render identically.
pub proof fn law_model_module_deterministic(f1: File, f2: File, models: Seq<Model>)
    requires
        f1.items@.len() == models.len(),
        f2.items@.len() == models.len(),
        forall|i: int| 0 <= i < models.len() ==> declares_model(#[trigger] f1.items@[i], models[i]),
        forall|i: int| 0 <= i < models.len() ==> declares_model(#[trigger] f2.items@[i], models[i]),
    ensures
        render_items(f1.items@) == render_items(f2.items@),
{
    lemma_models_render(f1.items@, f2.items@, models);
}

proof fn lemma_models_render(s1: Seq<Item>, s2: Seq<Item>, models: Seq<Model>)
    requires
        s1.len() == models.len(),
        s2.len() == models.len(),
        forall|i: int| 0 <= i < models.len() ==> declares_model(#[trigger] s1[i], models[i]),
        forall|i: int| 0 <= i < models.len() ==> declares_model(#[trigger] s2[i], models[i]),
    ensures
        render_items(s1) == render_items(s2),
    decreases models.len(),
{
    if models.len() > 0 {
        let n = models.len() - 1;
        assert(declares_model(s1[n], models[n]));
        assert(declares_model(s2[n], models[n]));
        assert forall|i: int| 0 <= i < n implies declares_model(#[trigger] s1.drop_last()[i], models.drop_last()[i]) by {
            assert(declares_model(s1[i], models[i]));
        }
        assert forall|i: int| 0 <= i < n implies declares_model(#[trigger] s2.drop_last()[i], models.drop_last()[i]) by {
            assert(declares_model(s2[i], models[i]));
        }
        lemma_models_render(s1.drop_last(), s2.drop_last(), models.drop_last());
        match (s1[n], s2[n]) {
            (Item::Struct(c1), Item::Struct(c2)) => {
                lemma_same_fields_render(c1.fields@, c2.fields@, models[n].fields@);
                assert(render_class(c1) == render_class(c2));
            },
            _ => {},
        }
        assert(s1.last() == s1[n] && s2.last() == s2[n]);
    }
}

/// The text of a request module is determined by the declared operations
/// alone: two files that both declare the operations, in order, render
/// identically.
pub proof fn law_request_module_deterministic(f1: File, f2: File, ops: Seq<Operation>)
    requires
        f1.items@.len() == ops.len(),
        f2.items@.len() == ops.len(),
        forall|i: int| 0 <= i < ops.len() ==> declares_operation(#[trigger] f1.items@[i], ops[i]),
        forall|i: int| 0 <= i < ops.len() ==> declares_operation(#[trigger] f2.items@[i], ops[i]),
    ensures
        render_items(f1.items@) == render_items(f2.items@),
{
    lemma_operations_render(f1.items@, f2.items@, ops);
}

proof fn lemma_operations_render(s1: Seq<Item>, s2: Seq<Item>, ops: Seq<Operation>)
    requires
        s1.len() == ops.len(),
        s2.len() == ops.len(),
        forall|i: int| 0 <= i < ops.len() ==> declares_operation(#[trigger] s1[i], ops[i]),
        forall|i: int| 0 <= i < ops.len() ==> declares_operation(#[trigger] s2[i], ops[i]),
    ensures
        render_items(s1) == render_items(s2),
    decreases ops.len(),
{
    if ops.len() > 0 {
        let n = ops.len() - 1;
        assert(declares_operation(s1[n], ops[n]));
        assert(declares_operation(s2[n], ops[n]));
        assert forall|i: int| 0 <= i < n implies declares_operation(#[trigger] s1.drop_last()[i], ops.drop_last()[i]) by {
            assert(declares_operation(s1[i], ops[i]));
        }
        assert forall|i: int| 0 <= i < n implies declares_operation(#[trigger] s2.drop_last()[i], ops.drop_last()[i]) by {
            assert(declares_operation(s2[i], ops[i]));
        }
        lemma_operations_render(s1.drop_last(), s2.drop_last(), ops.drop_last());
        match (s1[n], s2[n]) {
            (Item::Fn(g1), Item::Fn(g2)) => {
                lemma_same_args_render(g1.args@, g2.args@, ops[n].params@);
                assert(render_function(g1) == render_function(g2));
            },
            _ => {},
        }
        assert(s1.last() == s1[n] && s2.last() == s2[n]);
    }
}

} // verus!
