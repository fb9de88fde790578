//! Case-insensitive and exact substring scanning over character sequences.

use vstd::prelude::*;
use vstd::string::StrSliceExecFns;

verus! {

/// One text character matches one needle character when the two are equal, or
/// when the text character is an ASCII capital whose lowercase form is the
/// needle character.  The needle is expected to be pre-lowered: a capital in
/// the needle only matches itself.
pub open spec fn char_matches_folded(t: char, n: char) -> bool {
    t == n || (65 <= t as u32 && t as u32 <= 90 && t as u32 + 32 == n as u32)
}

/// The needle matches the text at start offset `i`, folding the text side.
pub open spec fn folded_match_at(text: Seq<char>, needle: Seq<char>, i: int) -> bool {
    forall|j: int| 0 <= j < needle.len() ==> char_matches_folded(text[i + j], #[trigger] needle[j])
}

/// The needle occurs somewhere in the text, folding the text side.
/// Every start offset is admitted, the final one included.
pub open spec fn folded_contains(text: Seq<char>, needle: Seq<char>) -> bool {
    exists|i: int| 0 <= i <= text.len() - needle.len() && #[trigger] folded_match_at(text, needle, i)
}

/// The needle occurs verbatim at start offset `i` of the text.
pub open spec fn match_at(text: Seq<char>, needle: Seq<char>, i: int) -> bool {
    forall|j: int| 0 <= j < needle.len() ==> text[i + j] == #[trigger] needle[j]
}

/// The needle occurs verbatim somewhere in the text.
pub open spec fn contains_seq(text: Seq<char>, needle: Seq<char>) -> bool {
    exists|i: int| 0 <= i <= text.len() - needle.len() && #[trigger] match_at(text, needle, i)
}

/// The characters of `s`, in order.
pub fn chars_of(s: &str) -> (v: Vec<char>)
    ensures
        v@ == s@,
{
    let n = s.unicode_len();
    let mut v: Vec<char> = Vec::new();
    let mut i: usize = 0;
    while i < n
        invariant
            n == s@.len(),
            i <= n,
            v@ == s@.subrange(0, i as int),
        decreases n - i,
    {
        let c = s.get_char(i);
        v.push(c);
        i = i + 1;
        proof {
            assert(v@ =~= s@.subrange(0, i as int));
        }
    }
    proof {
        assert(v@ =~= s@);
    }
    v
}

/// Whether the needle matches the text at start offset `i`, folding the text.
fn folded_match_at_exec(text: &Vec<char>, needle: &Vec<char>, i: usize) -> (r: bool)
    requires
        i + needle@.len() <= text@.len(),
    ensures
        r == folded_match_at(text@, needle@, i as int),
{
    let nl = needle.len();
    let tl = text.len();
    let mut j: usize = 0;
    while j < nl
        invariant
            nl == needle@.len(),
            tl == text@.len(),
            i + nl <= tl,
            j <= nl,
            forall|jj: int|
                0 <= jj < j ==> char_matches_folded(text@[i + jj], #[trigger] needle@[jj]),
        decreases nl - j,
    {
        let tc = text[i + j];
        let nc = needle[j];
        if !(tc == nc || (65 <= tc as u32 && tc as u32 <= 90 && tc as u32 + 32 == nc as u32)) {
            return false;
        }
        j = j + 1;
    }
    true
}

/// Whether the needle occurs in the text, folding the text side.
pub(crate) fn folded_contains_exec(text: &Vec<char>, needle: &Vec<char>) -> (r: bool)
    ensures
        r == folded_contains(text@, needle@),
{
    if text.len() < needle.len() {
        return false;
    }
    let tl = text.len();
    let last = tl - needle.len();
    let mut i: usize = 0;
    while i <= last
        invariant
            tl == text@.len(),
            needle@.len() <= text@.len(),
            last == text@.len() - needle@.len(),
            i <= last + 1,
            forall|ii: int| 0 <= ii < i ==> !folded_match_at(text@, needle@, ii),
        decreases last + 1 - i,
    {
        if folded_match_at_exec(text, needle, i) {
            return true;
        }
        i = i + 1;
    }
    false
}

/// Whether the needle occurs verbatim at start offset `i` of the text.
fn match_at_exec(text: &Vec<char>, needle: &Vec<char>, i: usize) -> (r: bool)
    requires
        i + needle@.len() <= text@.len(),
    ensures
        r == match_at(text@, needle@, i as int),
{
    let nl = needle.len();
    let tl = text.len();
    let mut j: usize = 0;
    while j < nl
        invariant
            nl == needle@.len(),
            tl == text@.len(),
            i + nl <= tl,
            j <= nl,
            forall|jj: int| 0 <= jj < j ==> text@[i + jj] == #[trigger] needle@[jj],
        decreases nl - j,
    {
        if text[i + j] != needle[j] {
            return false;
        }
        j = j + 1;
    }
    true
}

/// Whether the needle occurs verbatim in the text.
pub(crate) fn contains_exec(text: &Vec<char>, needle: &Vec<char>) -> (r: bool)
    ensures
        r == contains_seq(text@, needle@),
{
    if text.len() < needle.len() {
        return false;
    }
    let tl = text.len();
    let last = tl - needle.len();
    let mut i: usize = 0;
    while i <= last
        invariant
            tl == text@.len(),
            needle@.len() <= text@.len(),
            last == text@.len() - needle@.len(),
            i <= last + 1,
            forall|ii: int| 0 <= ii < i ==> !match_at(text@, needle@, ii),
        decreases last + 1 - i,
    {
        if match_at_exec(text, needle, i) {
            return true;
        }
        i = i + 1;
    }
    false
}

/// Whether `needle_lc` occurs anywhere in `text` under ASCII case-insensitive
/// comparison, folding the text side only: the needle is expected pre-lowered,
/// and non-ASCII characters are compared exactly.  A needle longer than the
/// text occurs nowhere; the final possible start offset is examined.
pub fn caseless_contains(text: &str, needle_lc: &str) -> (r: bool)
    ensures
        r == folded_contains(text@, needle_lc@),
{
    let t = chars_of(text);
    let n = chars_of(needle_lc);
    folded_contains_exec(&t, &n)
}

} // verus!
