use vstd::prelude::*;

use crate::{FretID, STRING_COUNT};
use vstd::string::StringSliceAdditionalSpecFns;

verus! {

/// The byte of the digit `0`.
pub const DIGIT_ZERO: u8 = 48;

/// The frets written as a pattern such as `2220`: one digit per string, in string order.
pub open spec fn pattern_frets(b: Seq<u8>) -> Option<Seq<u8>> {
    if b.len() == STRING_COUNT && forall|i: int| 0 <= i < b.len() ==> DIGIT_ZERO <= #[trigger] b[i] <= DIGIT_ZERO + 9 {
        Some(b.map_values(|c: u8| (c - DIGIT_ZERO) as u8))
    } else {
        None
    }
}

/// The frets to press down on each string, as given by the user.
#[derive(Clone, Copy, Debug)]
pub struct FretPattern {
    pub frets: [FretID; STRING_COUNT],
}

impl FretPattern {
    /// The pattern written as `text`: one digit per string, such as `2220`.
    pub fn parse(text: &str) -> (r: Option<FretPattern>)
        ensures
            match r {
                Some(p) => pattern_frets(text.spec_bytes()) == Some(p.frets@),
                None => pattern_frets(text.spec_bytes()) is None,
            },
    {
        let b = text.as_bytes();
        if b.len() != STRING_COUNT {
            return None;
        }
        let mut frets: [FretID; STRING_COUNT] = [0, 0, 0, 0];
        let mut i: usize = 0;
        while i < STRING_COUNT
            invariant
                0 <= i <= STRING_COUNT,
                b@.len() == STRING_COUNT,
                b@ == text.spec_bytes(),
                forall|k: int| 0 <= k < i ==> DIGIT_ZERO <= #[trigger] b@[k] <= DIGIT_ZERO + 9,
                forall|k: int| 0 <= k < i ==> #[trigger] frets@[k] == (b@[k] - DIGIT_ZERO) as u8,
            decreases STRING_COUNT - i,
        {
            let c = b[i];
            if c < DIGIT_ZERO || c > DIGIT_ZERO + 9 {
                return None;
            }
            frets.set(i, c - DIGIT_ZERO);
            i = i + 1;
        }
        assert(frets@ =~= b@.map_values(|c: u8| (c - DIGIT_ZERO) as u8));
        Some(FretPattern { frets })
    }
}

} // verus!
