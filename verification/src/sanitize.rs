//! The name sanitizer: collection names made safe for schema objects.

use vstd::prelude::*;
use vstd::string::*;

verus! {

/// Whether a character counts as alphanumeric for collection names.
/// Unicode's tables decide, so the predicate is named rather than spelled
/// out; `char::is_alphanumeric` is the one function that answers it.
pub uninterp spec fn spec_alphanumeric(c: char) -> bool;

/// Relies on `char::is_alphanumeric`: true exactly on the characters in
/// Unicode's alphabetic and numeric general categories. The result depends
/// on the character alone.
pub assume_specification[ char::is_alphanumeric ](c: char) -> (r: bool)
    ensures
        r == spec_alphanumeric(c),
;

/// Relies on `String::push`: appends one character at the end of the string.
pub assume_specification[ String::push ](s: &mut String, c: char)
    ensures
        final(s)@ == old(s)@.push(c),
;

/// A character that may stand in a schema object name.
pub open spec fn safe_char(c: char) -> bool {
    spec_alphanumeric(c) || c == '_'
}

/// Every character of the name may stand in a schema object name, so the
/// name is safe to interpolate into a schema-definition statement.
pub open spec fn is_sanitized(s: Seq<char>) -> bool {
    forall|i: int| 0 <= i < s.len() ==> safe_char(#[trigger] s[i])
}

/// What one character of a caller-supplied name becomes.
pub open spec fn sanitize_char(c: char) -> char {
    if safe_char(c) {
        c
    } else {
        '_'
    }
}

/// The sanitized form of a collection name: alphanumeric characters and '_'
/// pass through, every other character becomes '_'.
pub open spec fn spec_sanitized(s: Seq<char>) -> Seq<char> {
    s.map_values(|c: char| sanitize_char(c))
}

/// Maps an arbitrary caller-supplied collection name to the identifier that
/// names its storage object. Distinct inputs may collide; collection
/// identity is keyed by the sanitized form, so a collision reuses the
/// existing collection rather than creating a second one.
pub fn sanitize_table_name(name: &str) -> (r: String)
    ensures
        r@ == spec_sanitized(name@),
        is_sanitized(r@),
{
    let n: usize = name.unicode_len();
    let mut out = String::new();
    let mut i: usize = 0;
    while i < n
        invariant
            0 <= i <= n,
            n == name@.len(),
            out@ == spec_sanitized(name@.subrange(0, i as int)),
        decreases n - i,
    {
        let c = name.get_char(i);
        if c.is_alphanumeric() || c == '_' {
            out.push(c);
        } else {
            out.push('_');
        }
        proof {
            let pre = name@.subrange(0, i as int);
            let ext = name@.subrange(0, i as int + 1);
            assert(ext.drop_last() =~= pre);
            assert(spec_sanitized(ext) =~= spec_sanitized(pre).push(sanitize_char(name@[i as int])));
        }
        i = i + 1;
    }
    proof {
        assert(name@.subrange(0, n as int) =~= name@);
        assert forall|j: int| 0 <= j < out@.len() implies safe_char(#[trigger] out@[j]) by {
            assert(out@[j] == sanitize_char(name@[j]));
        }
    }
    out
}

} // verus!
