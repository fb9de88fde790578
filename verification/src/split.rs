//! Breaking a template into ordered, trimmed, non-empty statements.

use vstd::prelude::*;
use vstd::string::StrSliceExecFns;
use crate::scan::chars_of;

verus! {

/// Whether `c` has the Unicode `White_Space` property, the set that
/// surrounding-whitespace trimming removes.
pub open spec fn is_space(c: char) -> bool {
    let u = c as u32;
    (9 <= u && u <= 13) || u == 32 || u == 0x85 || u == 0xA0 || u == 0x1680 || (0x2000 <= u && u
        <= 0x200A) || u == 0x2028 || u == 0x2029 || u == 0x202F || u == 0x205F || u == 0x3000
}

/// `s` without leading and trailing whitespace.
pub open spec fn trim(s: Seq<char>) -> Seq<char>
    decreases s.len(),
{
    if s.len() == 0 {
        s
    } else if is_space(s[0]) {
        trim(s.drop_first())
    } else if is_space(s[s.len() - 1]) {
        trim(s.drop_last())
    } else {
        s
    }
}

/// The offset of the first `;` in `s`, or `s.len()` if there is none.
pub open spec fn find_semi(s: Seq<char>) -> nat
    decreases s.len(),
{
    if s.len() == 0 {
        0
    } else if s[0] == ';' {
        0
    } else {
        1 + find_semi(s.drop_first())
    }
}

/// The statement a raw piece of the template contributes: its trimmed text,
/// or nothing when only whitespace is left.
pub open spec fn piece_of(p: Seq<char>) -> Seq<Seq<char>> {
    if trim(p).len() == 0 {
        seq![]
    } else {
        seq![trim(p)]
    }
}

/// The statements of a template: the pieces between `;` delimiters, each
/// trimmed, empty pieces dropped, source order kept.
pub open spec fn statements(s: Seq<char>) -> Seq<Seq<char>>
    decreases s.len(),
{
    let i = find_semi(s);
    if i < s.len() {
        piece_of(s.take(i as int)) + statements(s.skip(i as int + 1))
    } else {
        piece_of(s)
    }
}

/// Whether `c` is trimmed away as whitespace.
fn space_char(c: char) -> (r: bool)
    ensures
        r == is_space(c),
{
    let u = c as u32;
    (9 <= u && u <= 13) || u == 32 || u == 0x85 || u == 0xA0 || u == 0x1680 || (0x2000 <= u && u
        <= 0x200A) || u == 0x2028 || u == 0x2029 || u == 0x202F || u == 0x205F || u == 0x3000
}

/// The offset of the first `;` at or after `from`, or the length if none.
fn find_semi_from(v: &Vec<char>, from: usize) -> (j: usize)
    requires
        from <= v@.len(),
    ensures
        from <= j <= v@.len(),
        j == from + find_semi(v@.skip(from as int)),
{
    let tl = v.len();
    let mut j: usize = from;
    while j < tl && v[j] != ';'
        invariant
            from <= j <= tl,
            tl == v@.len(),
            find_semi(v@.skip(from as int)) == j - from + find_semi(v@.skip(j as int)),
        decreases tl - j,
    {
        proof {
            let s = v@.skip(j as int);
            assert(s.len() > 0 && s[0] == v@[j as int]);
            assert(s.drop_first() =~= v@.skip(j as int + 1));
        }
        j = j + 1;
    }
    proof {
        let s = v@.skip(j as int);
        if j < tl {
            assert(s.len() > 0 && s[0] == ';');
            assert(find_semi(s) == 0);
        } else {
            assert(s.len() == 0);
        }
    }
    j
}

/// The bounds of the trimmed text inside `v[from..to]`: trimming yields
/// exactly `v[r.0..r.1]`, an empty range when everything is whitespace.
fn trim_bounds(v: &Vec<char>, from: usize, to: usize) -> (r: (usize, usize))
    requires
        from <= to <= v@.len(),
    ensures
        from <= r.0 <= r.1 <= to,
        v@.subrange(r.0 as int, r.1 as int) == trim(v@.subrange(from as int, to as int)),
    decreases to - from,
{
    if from == to {
        proof {
            assert(v@.subrange(from as int, to as int) =~= Seq::<char>::empty());
        }
        (from, from)
    } else if space_char(v[from]) {
        let r = trim_bounds(v, from + 1, to);
        proof {
            let s = v@.subrange(from as int, to as int);
            assert(s.drop_first() =~= v@.subrange(from as int + 1, to as int));
        }
        r
    } else if space_char(v[to - 1]) {
        let r = trim_bounds(v, from, to - 1);
        proof {
            let s = v@.subrange(from as int, to as int);
            assert(s.drop_last() =~= v@.subrange(from as int, to as int - 1));
        }
        r
    } else {
        proof {
            let s = v@.subrange(from as int, to as int);
            assert(!is_space(s[0]));
            assert(!is_space(s[s.len() - 1]));
            assert(trim(s) == s);
        }
        (from, to)
    }
}

/// The statements of `v[from..]`, each given by the bounds of its text inside
/// `v`.  The `k`-th pair of bounds delimits the `k`-th statement, and the
/// bounded ranges stand in the template in source order, without overlap:
/// statement order equals source order.
pub fn split_bounds(v: &Vec<char>, from: usize) -> (r: Vec<(usize, usize)>)
    requires
        from <= v@.len(),
    ensures
        r@.len() == statements(v@.skip(from as int)).len(),
        forall|k: int|
            0 <= k < r@.len() ==> from <= (#[trigger] r@[k]).0 <= r@[k].1 <= v@.len(),
        forall|k: int|
            0 <= k < r@.len() ==> v@.subrange((#[trigger] r@[k]).0 as int, r@[k].1 as int)
                == statements(v@.skip(from as int))[k],
        forall|k: int| 0 <= k < r@.len() - 1 ==> (#[trigger] r@[k]).1 < r@[k + 1].0,
    decreases v@.len() - from,
{
    let ghost s = v@.skip(from as int);
    let tl = v.len();
    let j = find_semi_from(v, from);
    if j < tl {
        proof {
            assert(s.take((j - from) as int) =~= v@.subrange(from as int, j as int));
            assert(s.skip(j - from + 1) =~= v@.skip(j as int + 1));
        }
        let (a, b) = trim_bounds(v, from, j);
        let mut rest = split_bounds(v, j + 1);
        let ghost old_rest = rest@;
        if a < b {
            rest.insert(0, (a, b));
            proof {
                assert(rest@ =~= seq![(a, b)].add(old_rest));
                assert(statements(s) =~= seq![trim(s.take((j - from) as int))] + statements(
                    s.skip(j - from + 1),
                ));
                assert forall|k: int| 0 <= k < rest@.len() - 1 implies (#[trigger] rest@[k]).1
                    < rest@[k + 1].0 by {
                    if k > 0 {
                        assert(old_rest[k - 1].1 < old_rest[k].0);
                    }
                }
            }
            rest
        } else {
            proof {
                assert(trim(s.take((j - from) as int)).len() == 0);
                assert(statements(s) =~= statements(s.skip(j - from + 1)));
            }
            rest
        }
    } else {
        proof {
            assert(j == tl);
            assert(find_semi(s) == s.len());
            assert(s =~= v@.subrange(from as int, tl as int));
        }
        let (a, b) = trim_bounds(v, from, tl);
        let mut r: Vec<(usize, usize)> = Vec::new();
        if a < b {
            r.push((a, b));
        }
        proof {
            if a < b {
                assert(statements(s) =~= seq![trim(s)]);
                assert(r@ =~= seq![(a, b)]);
            } else {
                assert(trim(s).len() == 0);
                assert(statements(s) =~= Seq::<Seq<char>>::empty());
            }
        }
        r
    }
}

/// Splits a template on `;`, trims each piece, drops empty pieces, and keeps
/// source order.  A trailing delimiter and whitespace produce no spurious
/// final statement.  A `;` inside a string literal is split on all the same:
/// statement boundaries are found by this plain scan, not by parsing.
pub fn split_statements(sql: &str) -> (r: Vec<String>)
    ensures
        r@.len() == statements(sql@).len(),
        forall|k: int| 0 <= k < r@.len() ==> (#[trigger] r@[k])@ == statements(sql@)[k],
{
    let v = chars_of(sql);
    proof {
        assert(v@.skip(0) =~= sql@);
    }
    let bounds = split_bounds(&v, 0);
    let mut r: Vec<String> = Vec::new();
    let mut k: usize = 0;
    let bl = bounds.len();
    while k < bl
        invariant
            bl == bounds@.len(),
            k <= bl,
            v@ == sql@,
            bounds@.len() == statements(sql@).len(),
            forall|t: int|
                0 <= t < bounds@.len() ==> 0 <= (#[trigger] bounds@[t]).0 <= bounds@[t].1
                    <= sql@.len(),
            forall|t: int|
                0 <= t < bounds@.len() ==> sql@.subrange(
                    (#[trigger] bounds@[t]).0 as int,
                    bounds@[t].1 as int,
                ) == statements(sql@)[t],
            r@.len() == k,
            forall|t: int| 0 <= t < k ==> (#[trigger] r@[t])@ == statements(sql@)[t],
        decreases bl - k,
    {
        let (a, b) = bounds[k];
        let piece = sql.substring_char(a, b);
        r.push(piece.to_owned());
        k = k + 1;
    }
    r
}

} // verus!
