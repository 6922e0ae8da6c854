//! Error handling: the closed error taxonomy surfaced to callers.

use vstd::prelude::*;
use vstd::string::StringExecFns;

verus! {

/// Everything that can go wrong when building or evaluating a system.
#[derive(Debug, Clone, Copy)]
pub enum Error {
    /// The minimum image convention is not justified for a combination of
    /// box size and cutoff: a cutoff at least as large as the smallest
    /// box height could let a pair appear twice in the neighbourlist.
    MinimumImageConventionNotJustified,
    /// An attempt to create an illegal topology.
    IllegalTopology,
    /// A potential was computed on an incompatible neighbourlist.
    NeighbourlistNotCompatible,
    /// A cutoff is required but not present.
    CutoffRequired,
    /// A topology does not match the positions passed to it.
    PositionTopologyMismatch,
    /// An illegal combination of function arguments.
    ValueError(&'static str),
}

impl Error {
    /// The variant's own name, to point users at documentation.
    pub fn get_variant_str(&self) -> (r: &'static str)
        ensures
            r@ == match self {
                Error::MinimumImageConventionNotJustified =>
                    "MinimumImageConventionNotJustified"@,
                Error::ValueError(_) => "ValueError"@,
                Error::IllegalTopology => "IllegalTopology"@,
                Error::CutoffRequired => "CutoffRequired"@,
                Error::NeighbourlistNotCompatible => "NeighbourlistNotCompatible"@,
                Error::PositionTopologyMismatch => "PositionTopologyMismatch"@,
            },
    {
        match self {
            Error::MinimumImageConventionNotJustified => "MinimumImageConventionNotJustified",
            Error::ValueError(_) => "ValueError",
            Error::IllegalTopology => "IllegalTopology",
            Error::CutoffRequired => "CutoffRequired",
            Error::NeighbourlistNotCompatible => "NeighbourlistNotCompatible",
            Error::PositionTopologyMismatch => "PositionTopologyMismatch",
        }
    }

    /// A brief description of the error.
    pub fn get_description_str(&self) -> (r: String)
        ensures
            r@ == match self {
                Error::MinimumImageConventionNotJustified =>
                    "Minimum image convention not justified. Make the cutoff smaller or the box bigger."@,
                Error::IllegalTopology => "Atom mismatch in proposed topology"@,
                Error::CutoffRequired => "Cutoff required but not found"@,
                Error::NeighbourlistNotCompatible =>
                    "Potential was incompatible with a neighbourlist"@,
                Error::PositionTopologyMismatch =>
                    "Number of atom positions does not match number of atoms in topology"@,
                Error::ValueError(s) => "Illegal combination of arguments: "@ + s@,
            },
    {
        match self {
            Error::MinimumImageConventionNotJustified => String::from_str(
                "Minimum image convention not justified. Make the cutoff smaller or the box bigger.",
            ),
            Error::IllegalTopology => String::from_str("Atom mismatch in proposed topology"),
            Error::CutoffRequired => String::from_str("Cutoff required but not found"),
            Error::NeighbourlistNotCompatible => String::from_str(
                "Potential was incompatible with a neighbourlist",
            ),
            Error::PositionTopologyMismatch => String::from_str(
                "Number of atom positions does not match number of atoms in topology",
            ),
            Error::ValueError(s) => String::from_str("Illegal combination of arguments: ").concat(
                s,
            ),
        }
    }
}

/// Result type for this crate.
pub type Result<T> = core::result::Result<T, Error>;

/// Unwrapping that is only allowed where success has been established.
pub trait FriendlyResult: Sized {
    type Value;

    /// Whether unwrapping is permitted.
    spec fn can_unwrap(&self) -> bool;

    /// The carried success value.
    spec fn value_spec(&self) -> Self::Value;

    /// Take the success value out.
    fn unwrap_nicely(self) -> (r: Self::Value)
        requires
            self.can_unwrap(),
        ensures
            r == self.value_spec(),
    ;
}

impl<T> FriendlyResult for Result<T> {
    type Value = T;

    open spec fn can_unwrap(&self) -> bool {
        self is Ok
    }

    open spec fn value_spec(&self) -> T {
        self->Ok_0
    }

    fn unwrap_nicely(self) -> (r: T) {
        match self {
            Ok(v) => v,
            Err(_) => vstd::pervasive::unreached(),
        }
    }
}

} // verus!
