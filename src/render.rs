//! Rendering of the generic AST to target-language text.
use vstd::prelude::*;
use vstd::string::StringExecFns;
use crate::mir::{Class, Field, File, FnArg, Function, Import, Item, Visibility};

verus! {

pub open spec fn vis_prefix(v: Visibility) -> Seq<char> {
    match v {
        Visibility::Public => "pub "@,
        Visibility::Crate => "pub(crate) "@,
        Visibility::Private => ""@,
    }
}

pub open spec fn render_arg(a: FnArg) -> Seq<char> {
    a.name@ + ": "@ + a.ty@ + ", "@
}

pub open spec fn render_args(s: Seq<FnArg>) -> Seq<char>
    decreases s.len(),
{
    if s.len() == 0 {
        Seq::empty()
    } else {
        render_args(s.drop_last()) + render_arg(s.last())
    }
}

pub open spec fn render_field(f: Field) -> Seq<char> {
    vis_prefix(f.visibility) + f.name@ + ": "@ + f.ty@ + ",\n"@
}

pub open spec fn render_fields(s: Seq<Field>) -> Seq<char>
    decreases s.len(),
{
    if s.len() == 0 {
        Seq::empty()
    } else {
        render_fields(s.drop_last()) + render_field(s.last())
    }
}

pub open spec fn render_names(s: Seq<String>) -> Seq<char>
    decreases s.len(),
{
    if s.len() == 0 {
        Seq::empty()
    } else {
        render_names(s.drop_last()) + s.last()@ + ", "@
    }
}

pub open spec fn render_function(f: Function) -> Seq<char> {
    vis_prefix(f.visibility) + "fn "@ + f.name@ + "("@ + render_args(f.args@) + ") -> "@ + f.ret@
        + " {\n"@ + f.body@ + "\n}\n"@
}

pub open spec fn render_class(c: Class) -> Seq<char> {
    vis_prefix(c.visibility) + "struct "@ + c.name@ + " {\n"@ + render_fields(c.fields@) + "}\n"@
}

pub open spec fn render_import(i: Import) -> Seq<char> {
    (if i.public {
        "pub "@
    } else {
        ""@
    }) + "use "@ + i.path@ + (if i.imports@.len() == 0 {
        ";\n"@
    } else {
        "::{"@ + render_names(i.imports@) + "};\n"@
    })
}

pub open spec fn render_item(it: Item) -> Seq<char> {
    match it {
        Item::Fn(f) => render_function(f),
        Item::Struct(c) => render_class(c),
        Item::Field(f) => render_field(f),
        Item::Import(i) => render_import(i),
        Item::Lit(l) => l.0@ + "\n"@,
    }
}

pub open spec fn render_items(s: Seq<Item>) -> Seq<char>
    decreases s.len(),
{
    if s.len() == 0 {
        Seq::empty()
    } else {
        render_items(s.drop_last()) + render_item(s.last())
    }
}

/// The text of a whole file.
pub open spec fn render_file(f: File) -> Seq<char> {
    render_items(f.items@)
}

fn push_vis(out: &mut String, v: Visibility)
    ensures
        final(out)@ == old(out)@ + vis_prefix(v),
{
    match v {
        Visibility::Public => out.append("pub "),
        Visibility::Crate => out.append("pub(crate) "),
        Visibility::Private => out.append(""),
    }
}

fn push_args(out: &mut String, args: &Vec<FnArg>)
    ensures
        final(out)@ == old(out)@ + render_args(args@),
{
    let mut i: usize = 0;
    while i < args.len()
        invariant
            i <= args@.len(),
            out@ == old(out)@ + render_args(args@.subrange(0, i as int)),
        decreases args@.len() - i,
    {
        assert(args@.subrange(0, i + 1).drop_last() =~= args@.subrange(0, i as int));
        out.append(args[i].name.as_str());
        out.append(": ");
        out.append(args[i].ty.as_str());
        out.append(", ");
        i = i + 1;
    }
    assert(args@.subrange(0, args@.len() as int) =~= args@);
}

fn push_field(out: &mut String, f: &Field)
    ensures
        final(out)@ == old(out)@ + render_field(*f),
{
    push_vis(out, f.visibility);
    out.append(f.name.as_str());
    out.append(": ");
    out.append(f.ty.as_str());
    out.append(",\n");
}

fn push_fields(out: &mut String, fields: &Vec<Field>)
    ensures
        final(out)@ == old(out)@ + render_fields(fields@),
{
    let mut i: usize = 0;
    while i < fields.len()
        invariant
            i <= fields@.len(),
            out@ == old(out)@ + render_fields(fields@.subrange(0, i as int)),
        decreases fields@.len() - i,
    {
        assert(fields@.subrange(0, i + 1).drop_last() =~= fields@.subrange(0, i as int));
        push_field(out, &fields[i]);
        i = i + 1;
    }
    assert(fields@.subrange(0, fields@.len() as int) =~= fields@);
}

fn push_names(out: &mut String, names: &Vec<String>)
    ensures
        final(out)@ == old(out)@ + render_names(names@),
{
    let mut i: usize = 0;
    while i < names.len()
        invariant
            i <= names@.len(),
            out@ == old(out)@ + render_names(names@.subrange(0, i as int)),
        decreases names@.len() - i,
    {
        assert(names@.subrange(0, i + 1).drop_last() =~= names@.subrange(0, i as int));
        out.append(names[i].as_str());
        out.append(", ");
        i = i + 1;
    }
    assert(names@.subrange(0, names@.len() as int) =~= names@);
}

fn push_item(out: &mut String, it: &Item)
    ensures
        final(out)@ == old(out)@ + render_item(*it),
{
    match it {
        Item::Fn(f) => {
            push_vis(out, f.visibility);
            out.append("fn ");
            out.append(f.name.as_str());
            out.append("(");
            push_args(out, &f.args);
            out.append(") -> ");
            out.append(f.ret.as_str());
            out.append(" {\n");
            out.append(f.body.as_str());
            out.append("\n}\n");
        },
        Item::Struct(c) => {
            push_vis(out, c.visibility);
            out.append("struct ");
            out.append(c.name.as_str());
            out.append(" {\n");
            push_fields(out, &c.fields);
            out.append("}\n");
        },
        Item::Field(f) => push_field(out, f),
        Item::Import(i) => {
            if i.public {
                out.append("pub ");
            } else {
                out.append("");
            }
            out.append("use ");
            out.append(i.path.as_str());
            if i.imports.len() == 0 {
                out.append(";\n");
            } else {
                out.append("::{");
                push_names(out, &i.imports);
                out.append("};\n");
            }
        },
        Item::Lit(l) => {
            out.append(l.0.as_str());
            out.append("\n");
        },
    }
}

/// The text of `file`: its items rendered one after another, in order.
pub fn render(file: &File) -> (r: String)
    ensures
        r@ == render_file(*file),
{
    let mut out = String::new();
    let mut i: usize = 0;
    while i < file.items.len()
        invariant
            i <= file.items@.len(),
            out@ == render_items(file.items@.subrange(0, i as int)),
        decreases file.items@.len() - i,
    {
        assert(file.items@.subrange(0, i + 1).drop_last() =~= file.items@.subrange(0, i as int));
        push_item(&mut out, &file.items[i]);
        i = i + 1;
    }
    assert(file.items@.subrange(0, file.items@.len() as int) =~= file.items@);
    out
}

} // verus!
