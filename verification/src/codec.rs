//! The key codec: a hierarchical key's canonical string form.

use vstd::prelude::*;
use vstd::string::*;

verus! {

/// The views of a sequence of owned strings.
pub open spec fn views_of(ss: Seq<String>) -> Seq<Seq<char>> {
    ss.map_values(|s: String| s@)
}

/// The canonical storage form of a hierarchical key: its segments joined
/// with '/'. The join escapes nothing, so a segment that itself contains '/'
/// is indistinguishable from a segment boundary; the store is keyed by the
/// joined string and never recovers the original segments.
pub open spec fn spec_joined(segs: Seq<Seq<char>>) -> Seq<char>
    decreases segs.len(),
{
    if segs.len() == 0 {
        Seq::empty()
    } else if segs.len() == 1 {
        segs[0]
    } else {
        spec_joined(segs.drop_last()) + seq!['/'] + segs.last()
    }
}

/// Encodes a hierarchical key as its canonical string form.
pub fn key_to_string(key: &[String]) -> (r: String)
    ensures
        r@ == spec_joined(views_of(key@)),
{
    let n: usize = key.len();
    let mut out = String::new();
    let mut i: usize = 0;
    while i < n
        invariant
            0 <= i <= n,
            n == key@.len(),
            out@ == spec_joined(views_of(key@.subrange(0, i as int))),
        decreases n - i,
    {
        if i > 0 {
            out.append("/");
        }
        out.append(key[i].as_str());
        proof {
            reveal_strlit("/");
            assert("/"@ =~= seq!['/']);
            let pre = views_of(key@.subrange(0, i as int));
            let ext = views_of(key@.subrange(0, i as int + 1));
            assert(ext.drop_last() =~= pre);
            assert(ext.last() == key@[i as int]@);
            if i == 0 {
                assert(out@ =~= ext[0]);
            }
        }
        i = i + 1;
    }
    proof {
        assert(key@.subrange(0, n as int) =~= key@);
    }
    out
}

} // verus!
