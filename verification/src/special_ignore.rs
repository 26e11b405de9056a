//! Predicates over file names whose special shape marks them as exempt
//! from renaming suggestions: SCSS partials and bracketed dynamic-route
//! segments.
use vstd::prelude::*;

use crate::formats::main_part;
use crate::special_cases::{bracket_main, is_scss_partial};
use crate::text::{split_on, str_eq};

verus! {

/// Tests whether the name is an SCSS partial `_<stem>.scss`.
pub fn scss_partial(file: &str) -> (r: bool)
    ensures
        r == is_scss_partial(file@),
{
    let n = file.unicode_len();
    if n >= 6 && file.get_char(0) == '_' {
        let tail = file.substring_char(n - 5, n);
        proof {
            reveal_strlit(".scss");
            assert(".scss"@ =~= seq!['.', 's', 'c', 's', 's']);
            assert(file@.skip(n - 5) =~= file@.subrange(n - 5, n as int));
        }
        str_eq(tail, ".scss")
    } else {
        false
    }
}

/// Tests whether the main component of the name is wrapped in square
/// brackets.
pub fn next_path(file: &str) -> (r: bool)
    ensures
        r == bracket_main(file@),
{
    let parts = split_on(file, '.');
    proof {
        assert(parts@.map_values(|p: String| p@)[0] == main_part(file@));
    }
    let m = parts[0].as_str();
    let mn = m.unicode_len();
    mn >= 2 && m.get_char(0) == '[' && m.get_char(mn - 1) == ']'
}

/// Tests whether a file name has one of the special shapes that exempt it
/// from renaming: an SCSS partial or a bracketed dynamic-route segment.
pub fn special_ignore(file: &str) -> (r: bool)
    ensures
        r == (is_scss_partial(file@) || bracket_main(file@)),
{
    scss_partial(file) || next_path(file)
}

} // verus!
