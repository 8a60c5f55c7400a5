//! The number of rows to print per table, as given on the command line.

use vstd::prelude::*;

use crate::nginx::{number_of, parse_number};
use crate::text::chars_of;

verus! {

/// Rows per table when no number is given.
pub const DEFAULT_NUMBER_OF_ITEMS_TO_PRINT: usize = 10;

/// The number of rows per table: the default when none is given, else the
/// given decimal number, which must be positive; anything else is handed
/// back as the error.
pub fn items_to_print(opt: Option<String>) -> (r: Result<usize, String>)
    ensures
        match opt {
            None => r == Ok::<usize, String>(DEFAULT_NUMBER_OF_ITEMS_TO_PRINT),
            Some(s) => match number_of(s@) {
                Some(n) if 0 < n && n <= usize::MAX => r == Ok::<usize, String>(n as usize),
                _ => r matches Err(e) && e@ == s@,
            },
        },
{
    match opt {
        None => Ok(DEFAULT_NUMBER_OF_ITEMS_TO_PRINT),
        Some(s) => {
            let chars = chars_of(s.as_str());
            assert(chars@.subrange(0, chars@.len() as int) =~= s@);
            match parse_number(&chars, 0, chars.len()) {
                Some(n) => {
                    if 0 < n && n <= usize::MAX as u64 {
                        Ok(n as usize)
                    } else {
                        Err(s)
                    }
                },
                None => Err(s),
            }
        },
    }
}

} // verus!
