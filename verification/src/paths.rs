//! Path normalization: a raw request path becomes a path key by stripping
//! the leading separator; paths with `..` traversal segments, and paths
//! that would still name an absolute location after the strip, are
//! rejected, so every key stays relative to the served root.

use vstd::prelude::*;

verus! {

/// A `..` segment starts at position `i` of `s`: the two dots are bounded by
/// a separator (byte 47) or by an end of the sequence on both sides.
pub open spec fn is_dotdot_at(s: Seq<u8>, i: int) -> bool {
    &&& 0 <= i
    &&& i + 2 <= s.len()
    &&& s[i] == 46
    &&& s[i + 1] == 46
    &&& (i == 0 || s[i - 1] == 47)
    &&& (i + 2 == s.len() || s[i + 2] == 47)
}

/// The sequence holds a traversal (`..`) segment somewhere.
pub open spec fn has_traversal(s: Seq<u8>) -> bool {
    exists|i: int| is_dotdot_at(s, i)
}

/// The sequence still begins with a separator (byte 47): as a filesystem
/// path it would name an absolute location outside the served root.
pub open spec fn starts_with_separator(s: Seq<u8>) -> bool {
    s.len() > 0 && s[0] == 47
}

/// The raw path with one leading separator stripped, if it has one.
pub open spec fn spec_strip(s: Seq<u8>) -> Seq<u8> {
    if s.len() > 0 && s[0] == 47 {
        s.subrange(1, s.len() as int)
    } else {
        s
    }
}

/// Reports whether `k` holds a `..` segment.
fn scan_traversal(k: &Vec<u8>) -> (r: bool)
    ensures
        r == has_traversal(k@),
{
    let n = k.len();
    let mut i: usize = 0;
    while i < n && i + 1 < n
        invariant
            n == k@.len(),
            i <= n,
            forall|j: int| 0 <= j < i ==> !is_dotdot_at(k@, j),
        decreases n - i,
    {
        if k[i] == 46 && k[i + 1] == 46 && (i == 0 || k[i - 1] == 47) && (i + 2 == n || k[i + 2]
            == 47) {
            assert(is_dotdot_at(k@, i as int));
            return true;
        }
        i = i + 1;
    }
    assert(forall|j: int| is_dotdot_at(k@, j) ==> 0 <= j < i);
    false
}

/// Normalizes a raw request path to a path key: strips one leading
/// separator, and rejects any path holding a `..` segment, as well as any
/// that still begins with a separator (it would escape the served root).
pub fn normalize_path(raw: &Vec<u8>) -> (r: Option<Vec<u8>>)
    ensures
        r matches Some(k) ==> k@ == spec_strip(raw@) && !has_traversal(k@)
            && !starts_with_separator(k@),
        r is None ==> has_traversal(spec_strip(raw@)) || starts_with_separator(spec_strip(raw@)),
{
    let n = raw.len();
    let start: usize = if n > 0 && raw[0] == 47 {
        1
    } else {
        0
    };
    let mut key: Vec<u8> = Vec::new();
    let mut i: usize = start;
    while i < n
        invariant
            start <= i <= n,
            n == raw@.len(),
            key@ == raw@.subrange(start as int, i as int),
        decreases n - i,
    {
        key.push(raw[i]);
        assert(key@ =~= raw@.subrange(start as int, i + 1));
        i = i + 1;
    }
    assert(key@ =~= spec_strip(raw@));
    if key.len() > 0 && key[0] == 47 {
        return None;
    }
    if scan_traversal(&key) {
        None
    } else {
        Some(key)
    }
}

} // verus!
