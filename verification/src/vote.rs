//! Vote encoding into the plaintext message space.

use vstd::prelude::*;
use crate::errors::ZkError;
use crate::params::ParameterSet;
use crate::poly::poly_wf;

verus! {

/// The plaintext polynomial of a vote bit: the bit as the constant term,
/// every other coefficient zero.
pub open spec fn spec_encode_vote(vote: u8, degree: nat) -> Seq<u64> {
    Seq::new(degree, |k: int| if k == 0 { vote as u64 } else { 0u64 })
}

/// Maps a vote in `{0, 1}` to its plaintext polynomial; any other value
/// fails with `InvalidVote`, and exactly those values do.
pub fn encode_vote(vote: u8, ps: &ParameterSet) -> (r: Result<Vec<u64>, ZkError>)
    requires
        ps.wf(),
    ensures
        r matches Ok(p) ==> p@ == spec_encode_vote(vote, ps.degree as nat) && poly_wf(
            p@,
            ps.plaintext_modulus,
            ps.degree as nat,
        ),
        r is Ok <==> vote <= 1,
        r matches Err(e) ==> e == ZkError::InvalidVote,
{
    if vote > 1 {
        return Err(ZkError::InvalidVote);
    }
    let n = ps.degree;
    let mut p: Vec<u64> = Vec::new();
    p.push(vote as u64);
    for k in 1..n
        invariant
            n >= 1,
            p@.len() == k,
            p@[0] == vote as u64,
            forall|i: int| 1 <= i < k ==> p@[i] == 0u64,
    {
        p.push(0);
    }
    proof {
        assert(p@ =~= spec_encode_vote(vote, ps.degree as nat));
    }
    Ok(p)
}

} // verus!
