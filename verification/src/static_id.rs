//! Identifiers of interned symbols.
use vstd::prelude::*;

verus! {

/// The identifier of an interned symbol. An identifier is never zero; once a
/// symbol is interned its identifier does not change, so it may be kept and
/// shared freely.
#[derive(Debug, Clone, Copy)]
pub struct StaticId {
    raw: usize,
}

impl StaticId {
    #[verifier::type_invariant]
    spec fn nonzero(&self) -> bool {
        self.raw != 0
    }

    /// The number of the identifier.
    pub closed spec fn raw(&self) -> usize {
        self.raw
    }

    /// The identifier with the number `raw`, which the symbol table gave;
    /// `None` for zero, which is no identifier.
    pub fn from_raw(raw: usize) -> (r: Option<StaticId>)
        ensures
            r is Some <==> raw != 0,
            r matches Some(id) ==> id.raw() == raw,
    {
        if raw == 0 {
            None
        } else {
            Some(StaticId { raw })
        }
    }

    /// The number of the identifier, as the symbol table knows it.
    pub fn as_raw(self) -> (r: usize)
        ensures
            r == self.raw(),
            r != 0,
    {
        proof {
            use_type_invariant(self);
        }
        self.raw
    }
}

} // verus!
