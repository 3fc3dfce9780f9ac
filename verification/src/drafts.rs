//! Draft selection.

use vstd::prelude::*;

verus! {

/// The schema draft a session compiles against. Only Draft 4 is fully
/// supported; selecting any other draft fails fast at build time with an
/// explicit signal.
#[derive(Clone, Copy, Debug, Eq, PartialEq, Structural)]
pub enum DraftVersion {
    Draft3,
    Draft4,
    Draft6,
    Draft7,
}

impl DraftVersion {
    /// The canonical URL of a supported draft's meta-schema.
    pub fn schema_url(draft: DraftVersion) -> (r: String)
        requires
            draft == DraftVersion::Draft4,
        ensures
            r@ == "http://json-schema.org/draft-04/schema#"@,
    {
        "http://json-schema.org/draft-04/schema#".to_owned()
    }
}

} // verus!
