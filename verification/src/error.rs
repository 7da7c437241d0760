//! The error taxonomy of the resolution pipeline. Every error is fatal for
//! the whole call: there is no partial result and no silent skipping.

use vstd::prelude::*;

verus! {

/// Why a resolution call failed. Each variant carries the offending input,
/// so that the message can name it.
#[derive(Debug, Clone, PartialEq, Eq)]
pub enum ResolveError {
    /// A textual field failed its micro-format parse (a boolean that is
    /// neither `true` nor `false`, an unknown format tag, a format list
    /// whose length does not match the source list), or an input was not
    /// valid UTF-8.
    Decoding(String),
    /// A bibliography source could not be parsed under its format hint, or
    /// matched neither supported grammar.
    Schema(String),
    /// The style text is malformed, the archive holds no style of the given
    /// name, or the named style is dependent rather than independent.
    StyleResolution(String),
    /// A cited key does not exist in the merged library.
    MissingEntry(String),
    /// The citation engine produced no bibliography section.
    EngineOutput,
}

impl ResolveError {
    /// A human-readable message identifying the offending input.
    pub fn message(&self) -> (r: String)
        ensures
            self matches ResolveError::Decoding(what) ==> r@ == "malformed input: "@ + what@,
            self matches ResolveError::Schema(what) ==> r@
                == "unrecognized bibliography schema: "@ + what@,
            self matches ResolveError::StyleResolution(what) ==> r@
                == "could not resolve style: "@ + what@,
            self matches ResolveError::MissingEntry(key) ==> r@
                == "cited entry not found in the bibliography: "@ + key@,
            self matches ResolveError::EngineOutput ==> r@
                == "invalid bibliography: the style produces no bibliography output"@,
    {
        let mut text = String::new();
        match self {
            ResolveError::Decoding(what) => {
                text.append("malformed input: ");
                text.append(what.as_str());
            },
            ResolveError::Schema(what) => {
                text.append("unrecognized bibliography schema: ");
                text.append(what.as_str());
            },
            ResolveError::StyleResolution(what) => {
                text.append("could not resolve style: ");
                text.append(what.as_str());
            },
            ResolveError::MissingEntry(key) => {
                text.append("cited entry not found in the bibliography: ");
                text.append(key.as_str());
            },
            ResolveError::EngineOutput => {
                text.append("invalid bibliography: the style produces no bibliography output");
            },
        }
        text
    }
}

} // verus!
