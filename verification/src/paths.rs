//! File-system paths, as text, with the platform's separator.

use crate::text::{push_str, str_chars};
use vstd::prelude::*;

verus! {

/// Can `sep` be a platform's main path separator?
pub open spec fn is_platform_separator(sep: char) -> bool {
    sep == '/' || sep == '\\'
}

/// Does `c` separate path components, where `sep` is the platform's main
/// separator (`/` separates them everywhere)?
pub open spec fn is_separator(c: char, sep: char) -> bool {
    c == '/' || c == sep
}

/// `a` with `b` appended, where `sep` is the platform's main separator, as
/// `PathBuf::push` does: a `b` that starts at a root replaces `a`; otherwise
/// `sep` goes between them unless `a` is empty or already ends with a
/// separator. This is its whole rule on Unix. On Windows `PathBuf::push`
/// also keeps the drive of `a` when `b` starts at a root, and treats a `b`
/// with a drive, or an `a` that is only a drive, apart; the names this
/// library appends are relative and have no drive.
pub open spec fn joined(a: Seq<char>, b: Seq<char>, sep: char) -> Seq<char> {
    if b.len() > 0 && is_separator(b[0], sep) {
        b
    } else if a.len() > 0 && !is_separator(a.last(), sep) {
        a + seq![sep] + b
    } else {
        a + b
    }
}

/// `std::path::MAIN_SEPARATOR`: the separator of path components on the
/// platform the program is built for, `/` on Unix and `\` on Windows.
#[verifier::external_body]
pub(crate) fn main_separator() -> (r: char)
    ensures
        is_platform_separator(r),
{
    std::path::MAIN_SEPARATOR
}

/// `Path::join`, with the platform's main separator `sep`.
pub fn join(a: &str, b: &str, sep: char) -> (r: String)
    ensures
        r@ == joined(a@, b@, sep),
{
    let x = str_chars(a);
    let y = str_chars(b);
    let mut r = String::new();
    if y.len() > 0 && (y[0] == '/' || y[0] == sep) {
        push_str(&mut r, b);
        proof {
            assert(r@ =~= joined(a@, b@, sep));
        }
        return r;
    }
    push_str(&mut r, a);
    if x.len() > 0 && x[x.len() - 1] != '/' && x[x.len() - 1] != sep {
        crate::text::push_char(&mut r, sep);
    }
    push_str(&mut r, b);
    proof {
        assert(r@ =~= joined(a@, b@, sep));
    }
    r
}

} // verus!
