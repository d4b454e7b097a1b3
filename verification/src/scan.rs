//! The scanner's mathematical model: a single left-to-right pass over the
//! template text that pairs `${` with `}` and extracts the key between them.

use vstd::prelude::*;

use crate::error::Error;

verus! {

/// One scan step at character position `i`.
///
/// `open` holds the position of the unmatched `${` if a marker is currently
/// open, `closed` counts the markers closed so far, and `keys` accumulates the
/// extracted key texts in encounter order.
///
/// - `${` while no marker is open starts a marker (both characters are
///   consumed); while one is open it is a nested marker and the scan fails.
/// - A bare `{` while a marker is open is a nested marker too; while none is
///   open it is ordinary text.
/// - `}` while a marker is open closes it; the key is the text strictly
///   between the `${` and the `}`.  A stray `}` is ordinary text.
/// - At the end of the text an unmatched `${` is a brace-count mismatch: one
///   more opening than closing marker.
pub open spec fn scan_from(
    s: Seq<char>,
    i: int,
    open: Option<int>,
    closed: int,
    keys: Seq<Seq<char>>,
) -> Result<Seq<Seq<char>>, Error>
    decreases s.len() - i,
{
    if i < 0 || s.len() <= i {
        match open {
            Some(h) => Err(Error::MismatchedBraces {
                open: (closed + 1) as usize,
                close: closed as usize,
            }),
            None => Ok(keys),
        }
    } else if s[i] == '$' && i + 1 < s.len() && s[i + 1] == '{' {
        match open {
            Some(h) => Err(Error::NestedTemplate { pos: i as usize }),
            None => scan_from(s, i + 2, Some(i), closed, keys),
        }
    } else if s[i] == '{' {
        match open {
            Some(h) => Err(Error::NestedTemplate { pos: i as usize }),
            None => scan_from(s, i + 1, None, closed, keys),
        }
    } else if s[i] == '}' {
        match open {
            Some(h) => scan_from(s, i + 1, None, closed + 1, keys.push(s.subrange(h + 2, i))),
            None => scan_from(s, i + 1, None, closed, keys),
        }
    } else {
        scan_from(s, i + 1, open, closed, keys)
    }
}

/// The keys of a template text, in left-to-right order, or the first scan
/// error.
pub open spec fn scan_keys_spec(s: Seq<char>) -> Result<Seq<Seq<char>>, Error> {
    scan_from(s, 0, None, 0, Seq::empty())
}

/// Whether some key name occurs more than once.
pub open spec fn has_dup(keys: Seq<Seq<char>>) -> bool {
    exists|i: int, j: int| 0 <= i < j < keys.len() && keys[i] == keys[j]
}

/// Maps the scanner's executable open-marker state to its model.
pub open spec fn opt_int(o: Option<usize>) -> Option<int> {
    match o {
        Some(h) => Some(h as int),
        None => None,
    }
}

} // verus!
