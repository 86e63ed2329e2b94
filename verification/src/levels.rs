//! Presentation of level names.
//!
//! Level files are named like `cool_level`; on screen that reads
//! "Cool level". The engine works on the name's ASCII bytes; the front end
//! wraps them back into its string type.

use vstd::prelude::*;

verus! {

/// An underscore becomes a space; everything else stays.
pub open spec fn underscore_to_space(b: u8) -> u8 {
    if b == 95 {
        32
    } else {
        b
    }
}

/// An ASCII lowercase letter becomes uppercase; everything else stays.
pub open spec fn ascii_upper(b: u8) -> u8 {
    if 97 <= b <= 122 {
        (b - 32) as u8
    } else {
        b
    }
}

/// The display form of a level's file name: underscores become spaces and
/// the first character is uppercased.
pub fn level_display_name(level_name: &[u8]) -> (r: Vec<u8>)
    ensures
        r@.len() == level_name@.len(),
        forall|i: int|
            1 <= i < r@.len() ==> r@[i] == underscore_to_space(#[trigger] level_name@[i]),
        r@.len() > 0 ==> r@[0] == ascii_upper(underscore_to_space(level_name@[0])),
{
    let n = level_name.len();
    let mut r: Vec<u8> = Vec::new();
    let mut i: usize = 0;
    while i < n
        invariant
            n == level_name@.len(),
            i <= n,
            r@.len() == i,
            forall|k: int|
                1 <= k < i ==> r@[k] == underscore_to_space(#[trigger] level_name@[k]),
            i > 0 ==> r@[0] == ascii_upper(underscore_to_space(level_name@[0])),
        decreases n - i,
    {
        let b = level_name[i];
        let spaced: u8 = if b == 95 {
            32
        } else {
            b
        };
        let out: u8 = if i == 0 && 97 <= spaced && spaced <= 122 {
            spaced - 32
        } else {
            spaced
        };
        r.push(out);
        i = i + 1;
    }
    r
}

} // verus!
