//! The transaction code synthesizer: per-statement bind-and-run operations
//! inside a begin/commit block, with strict arity validation.

use vstd::prelude::*;
use vstd::slice::slice_index_get;
use vstd::string::StrSliceExecFns;
use vstd::string::StringExecFns;
use crate::markers::dec_seq;
use crate::markers::dec_string;
use crate::markers::has_marker;
use crate::markers::marker_seq;
use crate::scan::chars_of;
use crate::scan::contains_seq;
use crate::scan::folded_contains;
use crate::scan::folded_contains_exec;
use crate::split::split_bounds;
use crate::split::statements;

verus! {

/// A fatal generation-time failure.
#[derive(Clone, Copy, Debug, PartialEq, Eq, Structural)]
pub enum GenError {
    /// The number of positional markers consumed does not equal the number of
    /// binding names supplied.  Both counts are reported.  When the template
    /// asks for a marker beyond the last binding, scanning stops at that first
    /// unmatched marker, so `markers` is then one more than `bindings`.
    ArityMismatch { markers: usize, bindings: usize },
}

/// The views of the supplied binding names.
pub open spec fn names_of(bs: Seq<String>) -> Seq<Seq<char>> {
    bs.map_values(|s: String| s@)
}

/// Whether a statement produces a row: the output keyword occurs somewhere in
/// its text, compared case-insensitively.  A plain keyword scan, not parsing:
/// the word inside a string literal or comment counts all the same.
pub open spec fn is_output(q: Seq<char>) -> bool {
    folded_contains(q, "returning"@)
}

/// The counter value after one statement is scanned, starting from `c`: the
/// counter steps while the statement holds the marker for its current value,
/// and is never stepped past `nb + 1`, the first value with no binding left.
pub open spec fn scan_to(q: Seq<char>, c: nat, nb: nat) -> nat
    decreases nb + 1 - c,
{
    if c <= nb && contains_seq(q, marker_seq(c)) {
        scan_to(q, c + 1, nb)
    } else {
        c
    }
}

/// The counter value after all statements are scanned in order, starting from
/// `c`.  The counter is never reset between statements.
pub open spec fn final_counter(stmts: Seq<Seq<char>>, c: nat, nb: nat) -> nat
    decreases stmts.len(),
{
    if stmts.len() == 0 {
        c
    } else {
        final_counter(stmts.drop_first(), scan_to(stmts[0], c, nb), nb)
    }
}

/// Whether some statement still holds the marker for the first counter value
/// that has no binding left: the template asks for more bindings than were
/// supplied.
pub open spec fn stmts_overflow(stmts: Seq<Seq<char>>, c: nat, nb: nat) -> bool
    decreases stmts.len(),
{
    if stmts.len() == 0 {
        false
    } else {
        let c2 = scan_to(stmts[0], c, nb);
        (c2 == nb + 1 && contains_seq(stmts[0], marker_seq(c2))) || stmts_overflow(
            stmts.drop_first(),
            c2,
            nb,
        )
    }
}

/// One when the statement produces a row, zero otherwise.
pub open spec fn out_flag(q: Seq<char>) -> nat {
    if is_output(q) {
        1
    } else {
        0
    }
}

/// How many statements produce a row.
pub open spec fn n_outputs(stmts: Seq<Seq<char>>) -> nat
    decreases stmts.len(),
{
    if stmts.len() == 0 {
        0
    } else {
        out_flag(stmts[0]) + n_outputs(stmts.drop_first())
    }
}

/// The opening of the generated block: acquire the transaction handle.
pub open spec fn prologue_text() -> Seq<char> {
    "{let mut tx = pool.begin().await?;\n"@
}

/// The opening of a row-producing operation, storing output slot `k`.
pub open spec fn out_open_text(k: nat) -> Seq<char> {
    "let var"@ + dec_seq(k) + " = sqlx::query_as::<_, _>(\""@
}

/// The opening of an operation that produces no row.
pub open spec fn plain_open_text() -> Seq<char> {
    "sqlx::query(\""@
}

/// The end of the quoted statement text.
pub open spec fn stmt_close_text() -> Seq<char> {
    ";\")"@
}

/// One bind operation for one binding name.
pub open spec fn bind_text(name: Seq<char>) -> Seq<char> {
    ".bind("@ + name + ")"@
}

/// The closing of a row-producing operation: fetch exactly one row.
pub open spec fn fetch_text() -> Seq<char> {
    ".fetch_one(&mut *tx).await?;\n"@
}

/// The closing of an operation that produces no row.
pub open spec fn execute_text() -> Seq<char> {
    ".execute(&mut *tx).await?;\n"@
}

/// The commit step, after every statement has run.
pub open spec fn commit_text() -> Seq<char> {
    "tx.commit().await?;\n"@
}

/// The name of output slot `k`.
pub open spec fn var_text(k: nat) -> Seq<char> {
    "var"@ + dec_seq(k)
}

/// The bind operations for counter values `from` up to but not including
/// `to`, in increasing order; counter value `c` uses binding name `b[c - 1]`.
pub open spec fn binds_code(b: Seq<Seq<char>>, from: nat, to: nat) -> Seq<char>
    decreases to - from,
{
    if from >= to {
        Seq::empty()
    } else {
        binds_code(b, from, (to - 1) as nat) + bind_text(b[to - 2])
    }
}

/// The code of one statement, entered with counter value `c` and output slot
/// `k`: prepare the statement text, apply its binds in increasing order, then
/// fetch one row or execute without output.
pub open spec fn stmt_code(q: Seq<char>, c: nat, k: nat, b: Seq<Seq<char>>, nb: nat) -> Seq<char> {
    let c2 = scan_to(q, c, nb);
    if is_output(q) {
        out_open_text(k) + q + stmt_close_text() + binds_code(b, c, c2) + fetch_text()
    } else {
        plain_open_text() + q + stmt_close_text() + binds_code(b, c, c2) + execute_text()
    }
}

/// The code of all statements in source order, threading the running counter
/// and the output-slot index through them.
pub open spec fn body_code(stmts: Seq<Seq<char>>, c: nat, k: nat, b: Seq<Seq<char>>, nb: nat) -> Seq<
    char,
>
    decreases stmts.len(),
{
    if stmts.len() == 0 {
        Seq::empty()
    } else {
        stmt_code(stmts[0], c, k, b, nb) + body_code(
            stmts.drop_first(),
            scan_to(stmts[0], c, nb),
            k + out_flag(stmts[0]),
            b,
            nb,
        )
    }
}

/// The inside of the result tuple: the first `n` output slot names, in order,
/// separated by commas.
pub open spec fn tuple_inner(n: nat) -> Seq<char>
    decreases n,
{
    if n == 0 {
        Seq::empty()
    } else if n == 1 {
        var_text(0)
    } else {
        tuple_inner((n - 1) as nat) + ", "@ + var_text((n - 1) as nat)
    }
}

/// The result tuple over `n` output slots; the empty tuple when `n` is zero.
pub open spec fn tuple_text(n: nat) -> Seq<char> {
    "("@ + tuple_inner(n) + ")"@
}

/// The whole generated block for a template and its binding names.
pub open spec fn gen_code(sql: Seq<char>, b: Seq<Seq<char>>) -> Seq<char> {
    let stmts = statements(sql);
    prologue_text() + body_code(stmts, 1, 0, b, b.len()) + commit_text() + tuple_text(
        n_outputs(stmts),
    ) + "}"@
}

/// The arity-mismatch error reporting `m` markers against `nb` bindings.
pub open spec fn arity_error(m: nat, nb: nat) -> GenError {
    GenError::ArityMismatch { markers: m as usize, bindings: nb as usize }
}

/// The message of the arity-mismatch error; both counts appear in it.
pub open spec fn arity_message(m: nat, nb: nat) -> Seq<char> {
    "expected "@ + dec_seq(m) + " input variables, got "@ + dec_seq(nb)
}

impl GenError {
    /// The error rendered for reporting, with both counts in the text.
    pub fn message(&self) -> (r: String)
        ensures
            *self matches GenError::ArityMismatch { markers, bindings } ==> r@ == arity_message(
                markers as nat,
                bindings as nat,
            ),
    {
        match self {
            GenError::ArityMismatch { markers, bindings } => {
                let mut r = ("expected ").to_owned();
                let ms = dec_string(*markers);
                r.append(ms.as_str());
                r.append(" input variables, got ");
                let bs = dec_string(*bindings);
                r.append(bs.as_str());
                r
            },
        }
    }
}

/// The emitted statement order equals source order: for any statement
/// position, the generated body is the code of the statements before it, then
/// its own code, entered with the counter and the output slot reached so far,
/// then the code of the statements after it.
pub proof fn lemma_body_code_in_order(
    stmts: Seq<Seq<char>>,
    c: nat,
    k: nat,
    b: Seq<Seq<char>>,
    nb: nat,
    i: int,
)
    requires
        0 <= i < stmts.len(),
    ensures
        ({
            let ci = final_counter(stmts.take(i), c, nb);
            let ki = k + n_outputs(stmts.take(i));
            body_code(stmts, c, k, b, nb) == body_code(stmts.take(i), c, k, b, nb) + stmt_code(
                stmts[i],
                ci,
                ki,
                b,
                nb,
            ) + body_code(
                stmts.skip(i + 1),
                scan_to(stmts[i], ci, nb),
                ki + out_flag(stmts[i]),
                b,
                nb,
            )
        }),
    decreases i,
{
    let tl = stmts.drop_first();
    let c1 = scan_to(stmts[0], c, nb);
    let k1 = k + out_flag(stmts[0]);
    if i == 0 {
        assert(stmts.take(0) =~= Seq::<Seq<char>>::empty());
        assert(stmts.skip(1) =~= tl);
        assert(body_code(stmts, c, k, b, nb) =~= body_code(stmts.take(0), c, k, b, nb)
            + stmt_code(stmts[0], c, k, b, nb) + body_code(stmts.skip(1), c1, k1, b, nb));
    } else {
        lemma_body_code_in_order(tl, c1, k1, b, nb, i - 1);
        assert(stmts.take(i).drop_first() =~= tl.take(i - 1));
        assert(stmts.take(i)[0] == stmts[0]);
        assert(stmts.skip(i + 1) =~= tl.skip(i));
        assert(stmts[i] == tl[i - 1]);
        assert(body_code(stmts.take(i), c, k, b, nb) == stmt_code(stmts[0], c, k, b, nb)
            + body_code(tl.take(i - 1), c1, k1, b, nb));
        assert(final_counter(stmts.take(i), c, nb) == final_counter(tl.take(i - 1), c1, nb));
        assert(n_outputs(stmts.take(i)) == out_flag(stmts[0]) + n_outputs(tl.take(i - 1)));
        let ci = final_counter(stmts.take(i), c, nb);
        let ki = k + n_outputs(stmts.take(i));
        assert(body_code(stmts, c, k, b, nb) =~= body_code(stmts.take(i), c, k, b, nb)
            + stmt_code(stmts[i], ci, ki, b, nb) + body_code(
            stmts.skip(i + 1),
            scan_to(stmts[i], ci, nb),
            ki + out_flag(stmts[i]),
            b,
            nb,
        ));
    }
}

/// Generation is deterministic: the generated text is a function of the
/// template and the binding names alone, so generating twice from the same
/// inputs yields identical text.
pub proof fn lemma_generation_deterministic(
    sql: Seq<char>,
    b: Seq<Seq<char>>,
    r1: Seq<char>,
    r2: Seq<char>,
)
    requires
        r1 == gen_code(sql, b),
        r2 == gen_code(sql, b),
    ensures
        r1 == r2,
{
}

/// The characters of `v[from..to]`.
fn copy_range(v: &Vec<char>, from: usize, to: usize) -> (r: Vec<char>)
    requires
        from <= to <= v@.len(),
    ensures
        r@ == v@.subrange(from as int, to as int),
{
    let mut r: Vec<char> = Vec::new();
    let mut i: usize = from;
    while i < to
        invariant
            from <= i <= to <= v@.len(),
            r@ == v@.subrange(from as int, i as int),
        decreases to - i,
    {
        let c = v[i];
        r.push(c);
        i = i + 1;
        proof {
            assert(r@ =~= v@.subrange(from as int, i as int));
        }
    }
    r
}

/// Whether the statement text produces a row, by the output keyword scan.
pub fn is_output_statement(stmt: &str) -> (r: bool)
    ensures
        r == is_output(stmt@),
{
    crate::scan::caseless_contains(stmt, "returning")
}

/// Generates the transactional code block for the template `sql` and the
/// supplied binding names.
///
/// Success is owed exactly when scanning the statements in source order
/// consumes every binding and asks for no marker past the last one; the
/// result is then the full generated block.  Otherwise the arity-mismatch
/// error reports the markers consumed against the bindings supplied.  The
/// binding list must be shorter than `usize::MAX`, so that the running
/// counter can step one value past it.
pub fn sql_to_code(sql: &str, bindings: &[String]) -> (r: Result<String, GenError>)
    requires
        bindings@.len() < usize::MAX,
    ensures
        ({
            let stmts = statements(sql@);
            let b = names_of(bindings@);
            let nb = b.len();
            let over = stmts_overflow(stmts, 1, nb as nat);
            let fin = final_counter(stmts, 1, nb as nat);
            &&& (r is Ok <==> (!over && fin == nb + 1))
            &&& (over ==> r == Err::<String, GenError>(arity_error(nb + 1, nb as nat)))
            &&& ((!over && fin != nb + 1) ==> r == Err::<String, GenError>(
                arity_error((fin - 1) as nat, nb as nat),
            ))
            &&& (r matches Ok(code) ==> code@ == gen_code(sql@, b))
        }),
{
    let ghost b = names_of(bindings@);
    let ghost stmts = statements(sql@);
    let nb = bindings.len();
    let v = chars_of(sql);
    proof {
        assert(v@.skip(0) =~= sql@);
        assert(stmts.skip(0) =~= stmts);
    }
    let bounds = split_bounds(&v, 0);
    let needle = chars_of("returning");
    let mut code: String = ("{let mut tx = pool.begin().await?;\n").to_owned();
    let mut counter: usize = 1;
    let mut kout: usize = 0;
    let mut i: usize = 0;
    let nstmt = bounds.len();
    while i < nstmt
        invariant
            nstmt == bounds@.len(),
            nstmt == stmts.len(),
            stmts == statements(sql@),
            b == names_of(bindings@),
            nb == b.len(),
            nb < usize::MAX,
            v@ == sql@,
            needle@ == "returning"@,
            i <= nstmt,
            1 <= counter <= nb + 1,
            kout <= i,
            forall|t: int|
                0 <= t < bounds@.len() ==> 0 <= (#[trigger] bounds@[t]).0 <= bounds@[t].1
                    <= sql@.len(),
            forall|t: int|
                0 <= t < bounds@.len() ==> sql@.subrange(
                    (#[trigger] bounds@[t]).0 as int,
                    bounds@[t].1 as int,
                ) == stmts[t],
            final_counter(stmts, 1, nb as nat) == final_counter(
                stmts.skip(i as int),
                counter as nat,
                nb as nat,
            ),
            stmts_overflow(stmts, 1, nb as nat) == stmts_overflow(
                stmts.skip(i as int),
                counter as nat,
                nb as nat,
            ),
            n_outputs(stmts) == kout + n_outputs(stmts.skip(i as int)),
            prologue_text() + body_code(stmts, 1, 0, b, nb as nat) == code@ + body_code(
                stmts.skip(i as int),
                counter as nat,
                kout as nat,
                b,
                nb as nat,
            ),
        decreases nstmt - i,
    {
        let ghost i0 = i as int;
        let ghost c0 = counter as nat;
        let ghost k0 = kout as nat;
        let ghost code0 = code@;
        let (a0, b0) = bounds[i];
        let ghost q = stmts[i as int];
        proof {
            assert(stmts.skip(i0).len() > 0);
            assert(stmts.skip(i0)[0] == q);
            assert(stmts.skip(i0).drop_first() =~= stmts.skip(i0 + 1));
        }
        let qv = copy_range(&v, a0, b0);
        let out = folded_contains_exec(&qv, &needle);
        proof {
            assert(out == is_output(q));
        }
        if out {
            code.append("let var");
            let ks = dec_string(kout);
            code.append(ks.as_str());
            code.append(" = sqlx::query_as::<_, _>(\"");
        } else {
            code.append("sqlx::query(\"");
        }
        let qs = sql.substring_char(a0, b0);
        code.append(qs);
        code.append(";\")");
        let ghost pre = code@;
        while has_marker(&qv, counter)
            invariant
                qv@ == q,
                b == names_of(bindings@),
                nb == b.len(),
                nb == bindings@.len(),
                nb < usize::MAX,
                1 <= counter,
                c0 <= counter as nat <= nb + 1,
                scan_to(q, c0, nb as nat) == scan_to(q, counter as nat, nb as nat),
                code@ == pre + binds_code(b, c0, counter as nat),
                stmts == statements(sql@),
                stmts.skip(i0).len() > 0,
                stmts.skip(i0)[0] == q,
                stmts_overflow(stmts, 1, nb as nat) == stmts_overflow(stmts.skip(i0), c0, nb as nat),
                final_counter(stmts, 1, nb as nat) == final_counter(stmts.skip(i0), c0, nb as nat),
            decreases nb + 1 - counter,
        {
            if counter > nb {
                proof {
                    assert(counter as nat == nb + 1);
                    assert(scan_to(q, counter as nat, nb as nat) == counter as nat);
                    assert(stmts_overflow(stmts.skip(i0), c0, nb as nat));
                }
                return Err(GenError::ArityMismatch { markers: counter, bindings: nb });
            }
            code.append(".bind(");
            let name = slice_index_get(bindings, counter - 1);
            code.append(name.as_str());
            code.append(")");
            proof {
                assert(b[counter as int - 1] == bindings@[counter as int - 1]@);
                assert(binds_code(b, c0, counter as nat + 1) == binds_code(b, c0, counter as nat)
                    + bind_text(b[counter as int - 1]));
                assert(code@ =~= pre + binds_code(b, c0, counter as nat + 1));
            }
            counter = counter + 1;
        }
        proof {
            assert(scan_to(q, counter as nat, nb as nat) == counter as nat);
            assert(scan_to(q, c0, nb as nat) == counter as nat);
        }
        if out {
            code.append(".fetch_one(&mut *tx).await?;\n");
        } else {
            code.append(".execute(&mut *tx).await?;\n");
        }
        proof {
            assert(code@ =~= code0 + stmt_code(q, c0, k0, b, nb as nat));
        }
        if out {
            kout = kout + 1;
        }
        i = i + 1;
        proof {
            let c2 = scan_to(q, c0, nb as nat);
            assert(final_counter(stmts.skip(i0), c0, nb as nat) == final_counter(
                stmts.skip(i0 + 1),
                c2,
                nb as nat,
            ));
            assert(stmts_overflow(stmts.skip(i0), c0, nb as nat) == stmts_overflow(
                stmts.skip(i0 + 1),
                c2,
                nb as nat,
            ));
            assert(n_outputs(stmts.skip(i0)) == out_flag(q) + n_outputs(stmts.skip(i0 + 1)));
            assert(body_code(stmts.skip(i0), c0, k0, b, nb as nat) == stmt_code(q, c0, k0, b, nb as nat)
                + body_code(stmts.skip(i0 + 1), c2, k0 + out_flag(q), b, nb as nat));
            assert(prologue_text() + body_code(stmts, 1, 0, b, nb as nat) =~= code@ + body_code(
                stmts.skip(i as int),
                counter as nat,
                kout as nat,
                b,
                nb as nat,
            ));
        }
    }
    proof {
        assert(stmts.skip(nstmt as int) =~= Seq::<Seq<char>>::empty());
        assert(final_counter(stmts, 1, nb as nat) == counter as nat);
        assert(!stmts_overflow(stmts, 1, nb as nat));
        assert(n_outputs(stmts) == kout as nat);
        assert(code@ =~= prologue_text() + body_code(stmts, 1, 0, b, nb as nat));
    }
    if counter - 1 != nb {
        return Err(GenError::ArityMismatch { markers: counter - 1, bindings: nb });
    }
    code.append("tx.commit().await?;\n");
    code.append("(");
    let ghost code_base = code@;
    let mut t: usize = 0;
    while t < kout
        invariant
            t <= kout,
            code@ == code_base + tuple_inner(t as nat),
        decreases kout - t,
    {
        if t > 0 {
            code.append(", ");
        }
        code.append("var");
        let ts = dec_string(t);
        code.append(ts.as_str());
        t = t + 1;
        proof {
            assert(code@ =~= code_base + tuple_inner(t as nat));
        }
    }
    code.append(")");
    code.append("}");
    proof {
        assert(code@ =~= gen_code(sql@, b));
    }
    Ok(code)
}

} // verus!
