//! Generic AST: a language-neutral description of a generated source file as
//! an ordered sequence of items, with constructors that reject names that are
//! not identifiers.
use vstd::prelude::*;

verus! {

/// Whether the text is accepted as a single Rust identifier (no keyword).
pub uninterp spec fn parses_as_ident(s: Seq<char>) -> bool;

/// Relies on `syn::parse_str::<syn::Ident>`: success exactly when the text
/// is one identifier that is not a keyword.
#[verifier::external_body]
fn is_ident(s: &str) -> (r: bool)
    ensures
        r == parses_as_ident(s@),
{
    syn::parse_str::<syn::Ident>(s).is_ok()
}

/// A name handed to a constructor is not an identifier.
#[derive(Debug, Clone)]
pub enum NameError {
    NotAnIdentifier(String),
}

#[derive(Debug, Clone, Copy, PartialEq, Eq, Structural)]
pub enum Visibility {
    Public,
    Crate,
    Private,
}

/// An argument of a generated function.
#[derive(Debug, Clone)]
pub struct FnArg {
    pub name: String,
    pub ty: String,
    pub default: Option<String>,
    pub treatment: Option<String>,
}

/// A field of a generated type declaration.
#[derive(Debug, Clone)]
pub struct Field {
    pub name: String,
    pub ty: String,
    pub visibility: Visibility,
    pub default: Option<String>,
}

/// A generated function.
#[derive(Debug, Clone)]
pub struct Function {
    pub name: String,
    pub args: Vec<FnArg>,
    pub ret: String,
    pub body: String,
    pub visibility: Visibility,
}

/// A generated type declaration.
#[derive(Debug, Clone)]
pub struct Class {
    pub name: String,
    pub fields: Vec<Field>,
    pub visibility: Visibility,
}

/// A generated import: a module path, the symbols taken from it (none for
/// the whole path), and whether it is re-exported.
#[derive(Debug, Clone)]
pub struct Import {
    pub path: String,
    pub imports: Vec<String>,
    pub public: bool,
}

/// Raw text placed as it is.
#[derive(Debug, Clone)]
pub struct Literal(pub String);

/// One item of a generated file.
#[derive(Debug, Clone)]
pub enum Item {
    Fn(Function),
    Struct(Class),
    Field(Field),
    Import(Import),
    Lit(Literal),
}

/// A generated source file: its items, in rendering order.
#[derive(Debug, Clone)]
pub struct File {
    pub items: Vec<Item>,
}

/// The characters of an optional text.
pub open spec fn opt_view(o: Option<String>) -> Option<Seq<char>> {
    match o {
        Some(s) => Some(s@),
        None => None,
    }
}

/// Every name of the sequence is an identifier.
pub open spec fn all_idents(names: Seq<String>) -> bool {
    forall|i: int| 0 <= i < names.len() ==> parses_as_ident(#[trigger] names[i]@)
}

/// `name`, where it is an identifier.
pub fn check_ident(name: &str) -> (r: Result<String, NameError>)
    ensures
        r matches Ok(s) ==> s@ == name@,
        r is Ok <==> parses_as_ident(name@),
        r matches Err(NameError::NotAnIdentifier(s)) ==> s@ == name@,
{
    if is_ident(name) {
        Ok(name.to_owned())
    } else {
        Err(NameError::NotAnIdentifier(name.to_owned()))
    }
}

impl Import {
    /// The whole module path, not re-exported.
    pub fn package(path: &str) -> (r: Import)
        ensures
            r.path@ == path@,
            r.imports@.len() == 0,
            !r.public,
    {
        Import { path: path.to_owned(), imports: Vec::new(), public: false }
    }

    /// The named symbols of a module path, not re-exported; each name must
    /// be an identifier, and the first that is not is reported.
    pub fn new(path: &str, names: Vec<String>) -> (r: Result<Import, NameError>)
        ensures
            r is Ok <==> all_idents(names@),
            r matches Ok(imp) ==> imp.path@ == path@ && imp.imports@ == names@ && !imp.public,
            r matches Err(NameError::NotAnIdentifier(s)) ==> exists|i: int|
                0 <= i < names@.len() && names@[i]@ == s@ && !parses_as_ident(s@),
    {
        let mut i: usize = 0;
        while i < names.len()
            invariant
                i <= names@.len(),
                forall|j: int| 0 <= j < i ==> parses_as_ident(#[trigger] names@[j]@),
            decreases names@.len() - i,
        {
            match check_ident(names[i].as_str()) {
                Ok(_) => {},
                Err(e) => {
                    return Err(e);
                },
            }
            i = i + 1;
        }
        Ok(Import { path: path.to_owned(), imports: names, public: false })
    }

    /// The same import, re-exported.
    pub fn public(self) -> (r: Import)
        ensures
            r.path == self.path,
            r.imports == self.imports,
            r.public,
    {
        Import { path: self.path, imports: self.imports, public: true }
    }
}

impl FnArg {
    /// An argument with a type expression, no default and no treatment.
    pub fn new(name: &str, ty: &str) -> (r: Result<FnArg, NameError>)
        ensures
            r is Ok <==> parses_as_ident(name@),
            r matches Ok(a) ==> a.name@ == name@ && a.ty@ == ty@ && a.default is None && a.treatment is None,
            r matches Err(NameError::NotAnIdentifier(s)) ==> s@ == name@,
    {
        let name = check_ident(name)?;
        Ok(FnArg { name, ty: ty.to_owned(), default: None, treatment: None })
    }

    /// An argument whose type is a single type name, itself an identifier.
    pub fn typed(name: &str, ty: &str) -> (r: Result<FnArg, NameError>)
        ensures
            r is Ok <==> parses_as_ident(name@) && parses_as_ident(ty@),
            r matches Ok(a) ==> a.name@ == name@ && a.ty@ == ty@ && a.default is None && a.treatment is None,
            r matches Err(NameError::NotAnIdentifier(s)) ==> (s@ == name@ && !parses_as_ident(name@))
                || (s@ == ty@ && !parses_as_ident(ty@)),
    {
        let name = check_ident(name)?;
        let ty = check_ident(ty)?;
        Ok(FnArg { name, ty, default: None, treatment: None })
    }

    /// An argument with a default value.
    pub fn with_default(name: &str, ty: &str, default: &str) -> (r: Result<FnArg, NameError>)
        ensures
            r is Ok <==> parses_as_ident(name@),
            r matches Ok(a) ==> a.name@ == name@ && a.ty@ == ty@ && opt_view(a.default) == Some(default@)
                && a.treatment is None,
            r matches Err(NameError::NotAnIdentifier(s)) ==> s@ == name@,
    {
        let name = check_ident(name)?;
        Ok(FnArg { name, ty: ty.to_owned(), default: Some(default.to_owned()), treatment: None })
    }
}

impl Field {
    /// A field without a default.
    pub fn new(name: &str, ty: &str, visibility: Visibility) -> (r: Result<Field, NameError>)
        ensures
            r is Ok <==> parses_as_ident(name@),
            r matches Ok(f) ==> f.name@ == name@ && f.ty@ == ty@ && f.visibility == visibility && f.default is None,
            r matches Err(NameError::NotAnIdentifier(s)) ==> s@ == name@,
    {
        let name = check_ident(name)?;
        Ok(Field { name, ty: ty.to_owned(), visibility, default: None })
    }
}

} // verus!
