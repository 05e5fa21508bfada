//! Registry of the providers whose raw descriptions are patched before the
//! specification is built.
use vstd::prelude::*;

verus! {

/// A provider with a known patch.
#[derive(Debug, Clone, Copy, PartialEq, Eq, Structural)]
pub enum Provider {
    Sendgrid,
    Recurly,
    Openai,
}

/// The provider registered under `name`.
pub open spec fn provider_named(name: Seq<char>) -> Option<Provider> {
    if name == "sendgrid"@ {
        Some(Provider::Sendgrid)
    } else if name == "recurly"@ {
        Some(Provider::Recurly)
    } else if name == "openai"@ {
        Some(Provider::Openai)
    } else {
        None
    }
}

/// The provider registered under `name`, if any.
pub fn provider_of(name: &str) -> (r: Option<Provider>)
    ensures
        r == provider_named(name@),
{
    let n = name.to_owned();
    if n == "sendgrid".to_owned() {
        Some(Provider::Sendgrid)
    } else if n == "recurly".to_owned() {
        Some(Provider::Recurly)
    } else if n == "openai".to_owned() {
        Some(Provider::Openai)
    } else {
        None
    }
}

} // verus!
