//! Paths of the filesystem.
//!
//! A path is the UTF-8 text of a string, taken byte by byte. The root is the
//! empty path. Every other valid path is `/name` repeated one or more times,
//! where each name is non-empty, holds no `/`, and is neither `.` nor `..`.
//! Valid paths are therefore in one-to-one correspondence with sequences of
//! names, and two paths denote the same node exactly when their bytes agree.

use vstd::prelude::*;
use vstd::string::StringSliceAdditionalSpecFns;

verus! {

/// The separator between the names of a path.
pub const SEP: u8 = 47;

/// The byte of `.`.
pub const DOT: u8 = 46;

/// Index of the last separator in `s`, or -1 when `s` holds none.
pub open spec fn last_sep(s: Seq<u8>) -> int
    decreases s.len(),
{
    if s.len() == 0 {
        -1
    } else if s.last() == SEP {
        s.len() - 1
    } else {
        last_sep(s.drop_last())
    }
}

/// The path of the directory that holds `s`.
pub open spec fn parent_of(s: Seq<u8>) -> Seq<u8> {
    s.subrange(0, last_sep(s))
}

/// The last name of `s`.
pub open spec fn name_of(s: Seq<u8>) -> Seq<u8> {
    s.subrange(last_sep(s) + 1, s.len() as int)
}

/// A name that may stand between two separators.
pub open spec fn valid_name(n: Seq<u8>) -> bool {
    &&& n.len() > 0
    &&& n != seq![DOT]
    &&& n != seq![DOT, DOT]
}

/// `s` is the root or a well-formed absolute path.
pub open spec fn valid_path(s: Seq<u8>) -> bool
    decreases s.len(),
{
    if s.len() == 0 {
        true
    } else {
        &&& 0 <= last_sep(s) < s.len()
        &&& valid_name(name_of(s))
        &&& valid_path(parent_of(s))
    }
}

/// Finds the last separator among the first `end` bytes of `b`.
fn find_last_sep(b: &[u8], end: usize) -> (r: Option<usize>)
    requires
        end <= b@.len(),
    ensures
        match r {
            Some(i) => i < end && last_sep(b@.subrange(0, end as int)) == i,
            None => last_sep(b@.subrange(0, end as int)) == -1,
        },
{
    let mut i: usize = end;
    while i > 0
        invariant
            i <= end <= b@.len(),
            last_sep(b@.subrange(0, end as int)) == last_sep(b@.subrange(0, i as int)),
        decreases i,
    {
        if b[i - 1] == SEP {
            return Some(i - 1);
        }
        assert(b@.subrange(0, i as int).drop_last() =~= b@.subrange(0, i - 1));
        i = i - 1;
    }
    None
}

/// Whether the first `end` bytes of `b` form a valid path.
fn is_valid_prefix(b: &[u8], end: usize) -> (r: bool)
    requires
        end <= b@.len(),
    ensures
        r == valid_path(b@.subrange(0, end as int)),
    decreases end,
{
    if end == 0 {
        return true;
    }
    let ghost s = b@.subrange(0, end as int);
    match find_last_sep(b, end) {
        None => false,
        Some(k) => {
            assert(name_of(s) =~= b@.subrange(k + 1, end as int));
            assert(parent_of(s) =~= b@.subrange(0, k as int));
            let n: usize = end - k - 1;
            let name_ok = if n == 0 {
                false
            } else if n == 1 {
                b[k + 1] != DOT
            } else if n == 2 {
                !(b[k + 1] == DOT && b[k + 2] == DOT)
            } else {
                true
            };
            proof {
                let nm = name_of(s);
                if n == 1 && name_ok {
                    assert(nm[0] != seq![DOT][0]);
                }
                if n == 2 && name_ok {
                    assert(nm[0] != seq![DOT, DOT][0] || nm[1] != seq![DOT, DOT][1]);
                }
                if n == 1 && !name_ok {
                    assert(nm =~= seq![DOT]);
                }
                if n == 2 && !name_ok {
                    assert(nm =~= seq![DOT, DOT]);
                }
                assert(name_ok == valid_name(nm));
            }
            if name_ok {
                is_valid_prefix(b, k)
            } else {
                false
            }
        },
    }
}

/// Whether the bytes `b` form a valid path.
pub fn is_valid_bytes(b: &[u8]) -> (r: bool)
    ensures
        r == valid_path(b@),
{
    assert(b@.subrange(0, b@.len() as int) =~= b@);
    is_valid_prefix(b, b.len())
}

/// The bytes of the parent of the valid non-root path `b`.
pub fn parent_bytes(b: &[u8]) -> (r: &[u8])
    requires
        valid_path(b@),
        b@.len() > 0,
    ensures
        r@ == parent_of(b@),
{
    assert(b@.subrange(0, b@.len() as int) =~= b@);
    let k = match find_last_sep(b, b.len()) {
        Some(k) => k,
        None => 0,
    };
    vstd::slice::slice_subrange(b, 0, k)
}

/// Whether `p` is a valid path: the root (empty), or `/name` repeated, with
/// names that are non-empty and neither `.` nor `..`.
pub fn is_valid_path(p: &str) -> (r: bool)
    ensures
        r == valid_path(p.spec_bytes()),
{
    is_valid_bytes(p.as_bytes())
}

} // verus!
