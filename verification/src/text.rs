//! String predicates shared by the camera watcher and the baseline
//! scanner: which `/dev` entries and which descriptor targets name a
//! camera device.

use vstd::prelude::*;
use vstd::string::StrSliceExecFns;

verus! {

/// `p` is an initial segment of `s`.
pub open spec fn starts_with(s: Seq<char>, p: Seq<char>) -> bool {
    p.len() <= s.len() && s.subrange(0, p.len() as int) == p
}

/// Character-wise equality of two string slices.
pub fn str_eq(a: &str, b: &str) -> (r: bool)
    ensures
        r == (a@ == b@),
{
    let x: String = a.to_owned();
    let y: String = b.to_owned();
    x == y
}

/// Whether `p` is a prefix of `s`.
pub fn has_prefix(s: &str, p: &str) -> (r: bool)
    ensures
        r == starts_with(s@, p@),
{
    let sl: usize = s.unicode_len();
    let pl: usize = p.unicode_len();
    if pl > sl {
        false
    } else {
        let head: &str = s.substring_char(0, pl);
        str_eq(head, p)
    }
}

/// A `/dev` entry of this name is a camera device node.
pub fn is_camera_name(name: &str) -> (r: bool)
    ensures
        r == starts_with(name@, "video"@),
{
    has_prefix(name, "video")
}

/// A descriptor that resolves to such a path references a camera device.
pub fn is_camera_path(path: &str) -> (r: bool)
    ensures
        r == starts_with(path@, "/dev/video"@),
{
    has_prefix(path, "/dev/video")
}

/// Every character of the name is a decimal digit.
pub open spec fn all_digits(s: Seq<char>) -> bool {
    forall|i: int| 0 <= i < s.len() ==> '0' <= #[trigger] s[i] <= '9'
}

/// A process-information directory of this name is a process entry:
/// its name is all decimal digits.
pub fn is_numeric_name(name: &str) -> (r: bool)
    ensures
        r == all_digits(name@),
{
    let n: usize = name.unicode_len();
    let mut i: usize = 0;
    while i < n
        invariant
            n == name@.len(),
            i <= n,
            forall|j: int| 0 <= j < i ==> '0' <= #[trigger] name@[j] <= '9',
        decreases n - i,
    {
        let c = name.get_char(i);
        if c < '0' || c > '9' {
            return false;
        }
        i = i + 1;
    }
    true
}

} // verus!
