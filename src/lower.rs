//! Lowering passes: from the specification to generic AST files.
use vstd::prelude::*;
use vstd::string::StringExecFns;
use crate::hir::{Model, Operation, Property, Specification, TypeRef};
use crate::mir::{check_ident, parses_as_ident, Class, Field, File, FnArg, Function, Item, NameError, Visibility};

verus! {

/// A specification that cannot be lowered.
#[derive(Debug, Clone)]
pub enum LowerError {
    /// A name that is not an identifier.
    Name(NameError),
    /// A reference to a model that is not declared.
    UnknownType(String),
}

/// The reference names a type that can be generated.
pub open spec fn resolves(t: TypeRef, models: Seq<Model>) -> bool {
    match t {
        TypeRef::Model(n) => exists|i: int| 0 <= i < models.len() && #[trigger] models[i].name@ == n@,
        _ => true,
    }
}

/// The target type expression of a resolvable reference.
pub open spec fn type_expr(t: TypeRef) -> Seq<char> {
    match t {
        TypeRef::Integer => "i64"@,
        TypeRef::Number => "f64"@,
        TypeRef::Text => "String"@,
        TypeRef::Boolean => "bool"@,
        TypeRef::DateTime => "chrono::DateTime<chrono::Utc>"@,
        TypeRef::Model(n) => n@,
    }
}

/// Every property has an identifier for a name and a resolvable type.
pub open spec fn props_ok(ps: Seq<Property>, models: Seq<Model>) -> bool {
    forall|j: int| 0 <= j < ps.len() ==> parses_as_ident((#[trigger] ps[j]).name@) && resolves(ps[j].ty, models)
}

/// The fields are the properties, in order, public and with mapped types.
pub open spec fn fields_of(fs: Seq<Field>, ps: Seq<Property>) -> bool {
    fs.len() == ps.len() && forall|j: int| 0 <= j < ps.len() ==> {
        &&& (#[trigger] fs[j]).name@ == ps[j].name@
        &&& fs[j].ty@ == type_expr(ps[j].ty)
        &&& fs[j].visibility == Visibility::Public
        &&& fs[j].default is None
    }
}

/// The arguments are the parameters, in order, with mapped types.
pub open spec fn args_of(args: Seq<FnArg>, ps: Seq<Property>) -> bool {
    args.len() == ps.len() && forall|j: int| 0 <= j < ps.len() ==> {
        &&& (#[trigger] args[j]).name@ == ps[j].name@
        &&& args[j].ty@ == type_expr(ps[j].ty)
        &&& args[j].default is None
        &&& args[j].treatment is None
    }
}

pub open spec fn model_ok(m: Model, models: Seq<Model>) -> bool {
    parses_as_ident(m.name@) && props_ok(m.fields@, models)
}

pub open spec fn operation_ok(op: Operation, models: Seq<Model>) -> bool {
    parses_as_ident(op.name@) && props_ok(op.params@, models) && resolves(op.ret, models)
}

/// The item declares model `m`.
pub open spec fn declares_model(it: Item, m: Model) -> bool {
    match it {
        Item::Struct(c) => c.name@ == m.name@ && c.visibility == Visibility::Public && fields_of(c.fields@, m.fields@),
        _ => false,
    }
}

/// The body of the function generated for an operation.
pub open spec fn request_body(name: Seq<char>) -> Seq<char> {
    "client::send(\""@ + name + "\")"@
}

/// The item is the function generated for operation `op`.
pub open spec fn declares_operation(it: Item, op: Operation) -> bool {
    match it {
        Item::Fn(f) => {
            &&& f.name@ == op.name@
            &&& f.visibility == Visibility::Public
            &&& args_of(f.args@, op.params@)
            &&& f.ret@ == type_expr(op.ret)
            &&& f.body@ == request_body(op.name@)
        },
        _ => false,
    }
}

/// The target type expression of `t`, or the error for an undeclared model.
pub fn map_type(t: &TypeRef, models: &Vec<Model>) -> (r: Result<String, LowerError>)
    ensures
        r is Ok <==> resolves(*t, models@),
        r matches Ok(s) ==> s@ == type_expr(*t),
        r matches Err(e) ==> e matches LowerError::UnknownType(n) && *t == TypeRef::Model(n),
{
    match t {
        TypeRef::Integer => Ok("i64".to_owned()),
        TypeRef::Number => Ok("f64".to_owned()),
        TypeRef::Text => Ok("String".to_owned()),
        TypeRef::Boolean => Ok("bool".to_owned()),
        TypeRef::DateTime => Ok("chrono::DateTime<chrono::Utc>".to_owned()),
        TypeRef::Model(n) => {
            let mut i: usize = 0;
            while i < models.len()
                invariant
                    *t == TypeRef::Model(*n),
                    i <= models@.len(),
                    forall|j: int| 0 <= j < i ==> #[trigger] models@[j].name@ != n@,
                decreases models@.len() - i,
            {
                if models[i].name == *n {
                    assert(models@[i as int].name@ == n@);
                    let r = n.clone();
                    assert(r@ == n@);
                    return Ok(r);
                }
                i = i + 1;
            }
            Err(LowerError::UnknownType(n.clone()))
        },
    }
}

/// The public fields of a type declaration, one per property, in order.
pub fn lower_fields(ps: &Vec<Property>, models: &Vec<Model>) -> (r: Result<Vec<Field>, LowerError>)
    ensures
        r is Ok <==> props_ok(ps@, models@),
        r matches Ok(fs) ==> fields_of(fs@, ps@),
{
    let mut out: Vec<Field> = Vec::new();
    let mut i: usize = 0;
    while i < ps.len()
        invariant
            i <= ps@.len(),
            props_ok(ps@.subrange(0, i as int), models@),
            fields_of(out@, ps@.subrange(0, i as int)),
        decreases ps@.len() - i,
    {
        let ty = match map_type(&ps[i].ty, models) {
            Ok(ty) => ty,
            Err(e) => {
                assert(!props_ok(ps@, models@)) by {
                    assert(!resolves(ps@[i as int].ty, models@));
                }
                return Err(e);
            },
        };
        let f = match Field::new(ps[i].name.as_str(), ty.as_str(), Visibility::Public) {
            Ok(f) => f,
            Err(e) => {
                assert(!props_ok(ps@, models@)) by {
                    assert(!parses_as_ident(ps@[i as int].name@));
                }
                return Err(LowerError::Name(e));
            },
        };
        let ghost old_out = out@;
        out.push(f);
        i = i + 1;
        assert(props_ok(ps@.subrange(0, i as int), models@)) by {
            assert forall|j: int| 0 <= j < i implies parses_as_ident((#[trigger] ps@.subrange(0, i as int)[j]).name@)
                && resolves(ps@.subrange(0, i as int)[j].ty, models@) by {
                if j < i - 1 {
                    assert(ps@.subrange(0, i as int)[j] == ps@.subrange(0, i - 1)[j]);
                }
            }
        }
        assert(fields_of(out@, ps@.subrange(0, i as int))) by {
            assert forall|j: int| 0 <= j < i implies (#[trigger] out@[j]).name@ == ps@.subrange(0, i as int)[j].name@
                && out@[j].ty@ == type_expr(ps@.subrange(0, i as int)[j].ty)
                && out@[j].visibility == Visibility::Public && out@[j].default is None by {
                if j < i - 1 {
                    assert(ps@.subrange(0, i as int)[j] == ps@.subrange(0, i - 1)[j]);
                    assert(out@[j] == old_out[j]);
                }
            }
        }
    }
    assert(ps@.subrange(0, ps@.len() as int) =~= ps@);
    Ok(out)
}

/// The arguments of a generated function, one per parameter, in order.
pub fn lower_args(ps: &Vec<Property>, models: &Vec<Model>) -> (r: Result<Vec<FnArg>, LowerError>)
    ensures
        r is Ok <==> props_ok(ps@, models@),
        r matches Ok(args) ==> args_of(args@, ps@),
{
    let mut out: Vec<FnArg> = Vec::new();
    let mut i: usize = 0;
    while i < ps.len()
        invariant
            i <= ps@.len(),
            props_ok(ps@.subrange(0, i as int), models@),
            args_of(out@, ps@.subrange(0, i as int)),
        decreases ps@.len() - i,
    {
        let ty = match map_type(&ps[i].ty, models) {
            Ok(ty) => ty,
            Err(e) => {
                assert(!props_ok(ps@, models@)) by {
                    assert(!resolves(ps@[i as int].ty, models@));
                }
                return Err(e);
            },
        };
        let a = match FnArg::new(ps[i].name.as_str(), ty.as_str()) {
            Ok(a) => a,
            Err(e) => {
                assert(!props_ok(ps@, models@)) by {
                    assert(!parses_as_ident(ps@[i as int].name@));
                }
                return Err(LowerError::Name(e));
            },
        };
        let ghost old_out = out@;
        out.push(a);
        i = i + 1;
        assert(props_ok(ps@.subrange(0, i as int), models@)) by {
            assert forall|j: int| 0 <= j < i implies parses_as_ident((#[trigger] ps@.subrange(0, i as int)[j]).name@)
                && resolves(ps@.subrange(0, i as int)[j].ty, models@) by {
                if j < i - 1 {
                    assert(ps@.subrange(0, i as int)[j] == ps@.subrange(0, i - 1)[j]);
                }
            }
        }
        assert(args_of(out@, ps@.subrange(0, i as int))) by {
            assert forall|j: int| 0 <= j < i implies (#[trigger] out@[j]).name@ == ps@.subrange(0, i as int)[j].name@
                && out@[j].ty@ == type_expr(ps@.subrange(0, i as int)[j].ty)
                && out@[j].default is None && out@[j].treatment is None by {
                if j < i - 1 {
                    assert(ps@.subrange(0, i as int)[j] == ps@.subrange(0, i - 1)[j]);
                    assert(out@[j] == old_out[j]);
                }
            }
        }
    }
    assert(ps@.subrange(0, ps@.len() as int) =~= ps@);
    Ok(out)
}

/// Every declared model can be lowered.
pub open spec fn models_ok(models: Seq<Model>) -> bool {
    forall|i: int| 0 <= i < models.len() ==> model_ok(#[trigger] models[i], models)
}

/// Every declared operation can be lowered.
pub open spec fn operations_ok(ops: Seq<Operation>, models: Seq<Model>) -> bool {
    forall|i: int| 0 <= i < ops.len() ==> operation_ok(#[trigger] ops[i], models)
}

/// The model module: one public type declaration per declared model, in
/// declared order, with one field per property.
pub fn write_model_module(spec: &Specification) -> (r: Result<File, LowerError>)
    ensures
        r is Ok <==> models_ok(spec.models@),
        r matches Ok(f) ==> f.items@.len() == spec.models@.len() && forall|i: int|
            0 <= i < spec.models@.len() ==> declares_model(#[trigger] f.items@[i], spec.models@[i]),
{
    let models = &spec.models;
    let mut items: Vec<Item> = Vec::new();
    let mut i: usize = 0;
    while i < models.len()
        invariant
            models == &spec.models,
            i <= models@.len(),
            forall|j: int| 0 <= j < i ==> model_ok(#[trigger] models@[j], models@),
            items@.len() == i,
            forall|j: int| 0 <= j < i ==> declares_model(#[trigger] items@[j], models@[j]),
        decreases models@.len() - i,
    {
        let m = &models[i];
        let name = match check_ident(m.name.as_str()) {
            Ok(n) => n,
            Err(e) => {
                assert(!model_ok(models@[i as int], models@));
                return Err(LowerError::Name(e));
            },
        };
        let fields = match lower_fields(&m.fields, models) {
            Ok(fs) => fs,
            Err(e) => {
                assert(!model_ok(models@[i as int], models@));
                return Err(e);
            },
        };
        items.push(Item::Struct(Class { name, fields, visibility: Visibility::Public }));
        i = i + 1;
    }
    Ok(File { items })
}

/// The request module: one public function per declared operation, in
/// declared order, whose arguments mirror the operation's parameters.
pub fn write_request_module(spec: &Specification) -> (r: Result<File, LowerError>)
    ensures
        r is Ok <==> operations_ok(spec.operations@, spec.models@),
        r matches Ok(f) ==> f.items@.len() == spec.operations@.len() && forall|i: int|
            0 <= i < spec.operations@.len() ==> declares_operation(#[trigger] f.items@[i], spec.operations@[i]),
{
    let ops = &spec.operations;
    let mut items: Vec<Item> = Vec::new();
    let mut i: usize = 0;
    while i < ops.len()
        invariant
            ops == &spec.operations,
            i <= ops@.len(),
            forall|j: int| 0 <= j < i ==> operation_ok(#[trigger] ops@[j], spec.models@),
            items@.len() == i,
            forall|j: int| 0 <= j < i ==> declares_operation(#[trigger] items@[j], ops@[j]),
        decreases ops@.len() - i,
    {
        let op = &ops[i];
        let name = match check_ident(op.name.as_str()) {
            Ok(n) => n,
            Err(e) => {
                assert(!operation_ok(ops@[i as int], spec.models@));
                return Err(LowerError::Name(e));
            },
        };
        let args = match lower_args(&op.params, &spec.models) {
            Ok(a) => a,
            Err(e) => {
                assert(!operation_ok(ops@[i as int], spec.models@));
                return Err(e);
            },
        };
        let ret = match map_type(&op.ret, &spec.models) {
            Ok(t) => t,
            Err(e) => {
                assert(!operation_ok(ops@[i as int], spec.models@));
                return Err(e);
            },
        };
        let mut body = "client::send(\"".to_owned();
        body.append(op.name.as_str());
        body.append("\")");
        items.push(Item::Fn(Function { name, args, ret, body, visibility: Visibility::Public }));
        i = i + 1;
    }
    Ok(File { items })
}

} // verus!
