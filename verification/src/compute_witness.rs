//! The decision of witness computation: which curves are supported.
use vstd::prelude::*;

use crate::generate_proof::Curve;

verus! {

/// Error text for a program that is not over bn128, when computing a witness.
pub open spec fn unsupported_witness_curve_message() -> Seq<char> {
    "sorry this curve isnt currently supported. zokrates can only export bn128 to eth"@
}

/// Witnesses are computed for bn128 programs only.
pub fn check_witness_curve(curve: Curve) -> (res: Result<(), String>)
    ensures
        res is Ok <==> curve == Curve::Bn128,
        res matches Err(e) ==> e@ == unsupported_witness_curve_message(),
{
    match curve {
        Curve::Bn128 => Ok(()),
        _ => Err(
            String::from_str(
                "sorry this curve isnt currently supported. zokrates can only export bn128 to eth",
            ),
        ),
    }
}

} // verus!
