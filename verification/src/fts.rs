//! The full-text engine: tokenization and token-level matching.

use vstd::prelude::*;
use vstd::string::*;
use crate::codec::views_of;

verus! {

/// A character that belongs to a search token: an ASCII letter or digit.
/// Every other character separates tokens.
pub open spec fn spec_token_char(c: char) -> bool {
    ('a' <= c && c <= 'z') || ('A' <= c && c <= 'Z') || ('0' <= c && c <= '9')
}

fn is_token_char(c: char) -> (r: bool)
    ensures
        r == spec_token_char(c),
{
    ('a' <= c && c <= 'z') || ('A' <= c && c <= 'Z') || ('0' <= c && c <= '9')
}

/// The tokens of a text from position `i` on, given the partial token `cur`
/// read so far and the tokens `acc` already complete: a left-to-right scan
/// that closes the current token at every separator.
pub open spec fn tokens_from(s: Seq<char>, i: int, cur: Seq<char>, acc: Seq<Seq<char>>) -> Seq<
    Seq<char>,
>
    decreases s.len() - i,
{
    if i < 0 || i >= s.len() {
        if cur.len() > 0 {
            acc.push(cur)
        } else {
            acc
        }
    } else if spec_token_char(s[i]) {
        tokens_from(s, i + 1, cur.push(s[i]), acc)
    } else {
        tokens_from(s, i + 1, Seq::empty(), if cur.len() > 0 {
            acc.push(cur)
        } else {
            acc
        })
    }
}

/// The tokens of a text: its maximal runs of token characters, in order.
pub open spec fn spec_tokens(s: Seq<char>) -> Seq<Seq<char>> {
    tokens_from(s, 0, Seq::empty(), Seq::empty())
}

/// Splits a text into its search tokens.
pub fn tokenize(s: &str) -> (r: Vec<String>)
    ensures
        views_of(r@) == spec_tokens(s@),
{
    let n: usize = s.unicode_len();
    let mut out: Vec<String> = Vec::new();
    let mut cur = String::new();
    let mut i: usize = 0;
    proof {
        assert(views_of(out@) =~= Seq::<Seq<char>>::empty());
    }
    while i < n
        invariant
            0 <= i <= n,
            n == s@.len(),
            tokens_from(s@, i as int, cur@, views_of(out@)) == spec_tokens(s@),
        decreases n - i,
    {
        let c = s.get_char(i);
        if is_token_char(c) {
            cur.push(c);
        } else {
            if !cur.as_str().is_empty() {
                let ghost acc0 = views_of(out@);
                let ghost cur0 = cur@;
                out.push(cur);
                cur = String::new();
                proof {
                    assert(views_of(out@) =~= acc0.push(cur0));
                }
            } else {
                proof {
                    assert(cur@ =~= Seq::<char>::empty());
                }
            }
        }
        i = i + 1;
    }
    if !cur.as_str().is_empty() {
        let ghost acc0 = views_of(out@);
        let ghost cur0 = cur@;
        out.push(cur);
        proof {
            assert(views_of(out@) =~= acc0.push(cur0));
        }
    }
    out
}

/// Whether every query token occurs among the tokens of a value.
pub open spec fn value_matches(qt: Seq<Seq<char>>, v: Seq<char>) -> bool {
    forall|i: int| 0 <= i < qt.len() ==> spec_tokens(v).contains(#[trigger] qt[i])
}

/// Whether a sequence of owned tokens contains the given one.
fn contains_token(toks: &Vec<String>, t: &String) -> (r: bool)
    ensures
        r == views_of(toks@).contains(t@),
{
    let mut i: usize = 0;
    while i < toks.len()
        invariant
            0 <= i <= toks@.len(),
            forall|j: int| 0 <= j < i ==> views_of(toks@)[j] != t@,
        decreases toks@.len() - i,
    {
        if toks[i] == *t {
            proof {
                assert(views_of(toks@)[i as int] == t@);
            }
            return true;
        }
        i = i + 1;
    }
    proof {
        assert(forall|j: int| 0 <= j < toks@.len() ==> views_of(toks@)[j] != t@);
    }
    false
}

/// Whether a stored value matches a tokenized query: every query token must
/// occur among the value's tokens.
pub fn text_matches(query_tokens: &Vec<String>, value: &str) -> (r: bool)
    ensures
        r == value_matches(views_of(query_tokens@), value@),
{
    let vt = tokenize(value);
    let mut i: usize = 0;
    while i < query_tokens.len()
        invariant
            0 <= i <= query_tokens@.len(),
            views_of(vt@) == spec_tokens(value@),
            forall|j: int| 0 <= j < i ==> spec_tokens(value@).contains(
                #[trigger] views_of(query_tokens@)[j],
            ),
        decreases query_tokens@.len() - i,
    {
        if !contains_token(&vt, &query_tokens[i]) {
            proof {
                assert(views_of(query_tokens@)[i as int] == query_tokens@[i as int]@);
            }
            return false;
        }
        i = i + 1;
    }
    true
}

} // verus!
