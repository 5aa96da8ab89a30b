//! Reading a compiled tape back gives the program that was compiled.
use vstd::prelude::*;
use crate::dissassembler::{pieces_of, render, render_block, Dissassembler, Rendering, Token};
use crate::error::ExecError;
use crate::expr::Expr;
use crate::globals::{lemma_with_name, slot_of, with_name};
use crate::imsta::{layout, layout_all, ImCompiler};
use crate::laws::{law_table_grows, law_tables_grow};
use crate::opcode::{lemma_words_are_distinct, Operation};
use crate::syntax::{law_pretty_mentions_names, mentioned, pretty, pretty_all};

verus! {

/// Whether `part` stands on the tape from offset `at` on.
pub open spec fn holds_at(words: Seq<u64>, at: int, part: Seq<u64>) -> bool {
    &&& 0 <= at
    &&& at + part.len() <= words.len()
    &&& forall|i: int| 0 <= i < part.len() ==> words[at + i] == #[trigger] part[i]
}

/// Where two parts stand one after the other, each of them stands.
pub proof fn lemma_holds_at_split(words: Seq<u64>, at: int, a: Seq<u64>, b: Seq<u64>)
    requires
        holds_at(words, at, a + b),
    ensures
        holds_at(words, at, a),
        holds_at(words, at + a.len(), b),
{
    assert forall|i: int| 0 <= i < a.len() implies words[at + i] == #[trigger] a[i] by {
        assert((a + b)[i] == a[i]);
    }
    assert forall|i: int| 0 <= i < b.len() implies words[at + a.len() + i] == #[trigger] b[i] by {
        assert((a + b)[a.len() + i] == b[i]);
    }
}

/// Every expression compiles to at least one word.
pub proof fn lemma_layout_is_not_empty(e: Expr, base: int, table: Seq<Seq<char>>)
    ensures
        layout(e, base, table).words.len() >= 1,
{
}

/// The words and names of the first `k` statements start the words and
/// names of all of them.
pub proof fn lemma_layout_all_take(stmts: Seq<Expr>, k: int, base: int, table: Seq<Seq<char>>)
    requires
        0 <= k <= stmts.len(),
    ensures
        layout_all(stmts.take(k), base, table).words.is_prefix_of(
            layout_all(stmts, base, table).words,
        ),
        layout_all(stmts.take(k), base, table).table.is_prefix_of(
            layout_all(stmts, base, table).table,
        ),
    decreases stmts.len() - k,
{
    if k == stmts.len() {
        assert(stmts.take(k) =~= stmts);
    } else {
        lemma_layout_all_take(stmts, k + 1, base, table);
        assert(stmts.take(k + 1).drop_last() =~= stmts.take(k));
        let front = layout_all(stmts.take(k), base, table);
        law_table_grows(stmts[k], base + front.words.len(), front.table);
    }
}

/// Where the statements of a block stand on a tape, the `k`-th of them
/// stands behind the ones before it, and its names have their slots.
pub proof fn lemma_statement_placed(
    stmts: Seq<Expr>,
    k: int,
    words: Seq<u64>,
    names: Seq<Seq<char>>,
    base: int,
    table: Seq<Seq<char>>,
)
    requires
        0 <= k < stmts.len(),
        holds_at(words, base, layout_all(stmts, base, table).words),
        layout_all(stmts, base, table).table.is_prefix_of(names),
    ensures
        ({
            let done = layout_all(stmts.take(k), base, table);
            let here = base + done.words.len();
            let one = layout(stmts[k], here, done.table);
            let next = layout_all(stmts.take(k + 1), base, table);
            &&& holds_at(words, here, one.words)
            &&& one.table.is_prefix_of(names)
            &&& next.words == done.words + one.words
            &&& next.table == one.table
            &&& one.words.len() >= 1
            &&& here + one.words.len() <= base + layout_all(stmts, base, table).words.len()
        }),
{
    let all = layout_all(stmts, base, table);
    let done = layout_all(stmts.take(k), base, table);
    let here = base + done.words.len();
    let one = layout(stmts[k], here, done.table);
    let next = layout_all(stmts.take(k + 1), base, table);
    assert(stmts.take(k + 1).drop_last() =~= stmts.take(k));
    assert(stmts.take(k + 1).last() == stmts[k]);
    lemma_layout_all_take(stmts, k + 1, base, table);
    lemma_layout_is_not_empty(stmts[k], here, done.table);
    assert forall|i: int| 0 <= i < one.words.len() implies words[here + i]
        == #[trigger] one.words[i] by {
        assert(next.words[done.words.len() + i] == one.words[i]);
        assert(all.words[done.words.len() + i] == next.words[done.words.len() + i]);
        assert(words[base + (done.words.len() + i)] == all.words[done.words.len() + i]);
    }
}

/// Reading back the compiled form of `e` where it stands on a tape gives
/// `e` as it is written out, and ends right behind it.
pub proof fn lemma_render_layout(
    e: Expr,
    words: Seq<u64>,
    names: Seq<Seq<char>>,
    at: int,
    table: Seq<Seq<char>>,
    level: nat,
)
    requires
        holds_at(words, at, layout(e, at, table).words),
        layout(e, at, table).table.is_prefix_of(names),
        words.len() <= u64::MAX,
        names.len() <= u64::MAX,
    ensures
        render(words, names, at, level) == Ok::<Rendering, ExecError>(
            Rendering { pieces: pretty(e, level), next: at + layout(e, at, table).words.len() },
        ),
    decreases e, 2nat, 0nat,
{
    match e {
        Expr::Float(_) => lemma_render_literal(e, words, names, at, table, level),
        Expr::Boolean(_) => lemma_render_literal(e, words, names, at, table, level),
        Expr::Var(_) => lemma_render_var(e, words, names, at, table, level),
        Expr::Assign(_, _) => lemma_render_assign(e, words, names, at, table, level),
        Expr::BinaryOp(_, _, _) => lemma_render_binary(e, words, names, at, table, level),
        Expr::Block(_) => lemma_render_braces(e, words, names, at, table, level),
        Expr::While(_, _) => lemma_render_while(e, words, names, at, table, level),
        Expr::Return(_) => lemma_render_return(e, words, names, at, table, level),
    }
}

/// [`lemma_render_layout`] for a literal.
proof fn lemma_render_literal(
    e: Expr,
    words: Seq<u64>,
    names: Seq<Seq<char>>,
    at: int,
    table: Seq<Seq<char>>,
    level: nat,
)
    requires
        e is Float || e is Boolean,
        holds_at(words, at, layout(e, at, table).words),
        layout(e, at, table).table.is_prefix_of(names),
        words.len() <= u64::MAX,
        names.len() <= u64::MAX,
    ensures
        render(words, names, at, level) == Ok::<Rendering, ExecError>(
            Rendering { pieces: pretty(e, level), next: at + layout(e, at, table).words.len() },
        ),
{
    let compiled = layout(e, at, table);
    assert(words[at + 0] == compiled.words[0]);
    if e is Float {
        assert(words[at + 1] == compiled.words[1]);
    }
}

/// [`lemma_render_layout`] for a variable.
proof fn lemma_render_var(
    e: Expr,
    words: Seq<u64>,
    names: Seq<Seq<char>>,
    at: int,
    table: Seq<Seq<char>>,
    level: nat,
)
    requires
        e is Var,
        holds_at(words, at, layout(e, at, table).words),
        layout(e, at, table).table.is_prefix_of(names),
        words.len() <= u64::MAX,
        names.len() <= u64::MAX,
    ensures
        render(words, names, at, level) == Ok::<Rendering, ExecError>(
            Rendering { pieces: pretty(e, level), next: at + layout(e, at, table).words.len() },
        ),
    decreases e, 1nat, 0nat,
{
    let compiled = layout(e, at, table);
    let name = e->Var_0.name();
    assert(words[at + 0] == compiled.words[0]);
    assert(words[at + 1] == compiled.words[1]);
    lemma_with_name(table, name);
    let slot = slot_of(table, name);
    assert(names[slot] == with_name(table, name)[slot]);
}

/// [`lemma_render_layout`] for an assignment.
proof fn lemma_render_assign(
    e: Expr,
    words: Seq<u64>,
    names: Seq<Seq<char>>,
    at: int,
    table: Seq<Seq<char>>,
    level: nat,
)
    requires
        e is Assign,
        holds_at(words, at, layout(e, at, table).words),
        layout(e, at, table).table.is_prefix_of(names),
        words.len() <= u64::MAX,
        names.len() <= u64::MAX,
    ensures
        render(words, names, at, level) == Ok::<Rendering, ExecError>(
            Rendering { pieces: pretty(e, level), next: at + layout(e, at, table).words.len() },
        ),
    decreases e, 1nat, 0nat,
{
    reveal_with_fuel(render, 2);
    let compiled = layout(e, at, table);
    let name = e->Assign_0.name();
    let v = *e->Assign_1;
    lemma_with_name(table, name);
    let inner = with_name(table, name);
    let slot = slot_of(table, name);
    let head = seq![Operation::Assign.word(), slot as u64];
    let value = layout(v, at + 2, inner);
    assert(compiled.words == head + value.words);
    law_table_grows(v, at + 2, inner);
    lemma_holds_at_split(words, at, head, value.words);
    assert(words[at + 0] == head[0]);
    assert(words[at + 1] == head[1]);
    assert(names[slot] == inner[slot]);
    lemma_render_layout(v, words, names, at + 2, inner, level);
}

/// [`lemma_render_layout`] for an operator and its operands.
proof fn lemma_render_binary(
    e: Expr,
    words: Seq<u64>,
    names: Seq<Seq<char>>,
    at: int,
    table: Seq<Seq<char>>,
    level: nat,
)
    requires
        e is BinaryOp,
        holds_at(words, at, layout(e, at, table).words),
        layout(e, at, table).table.is_prefix_of(names),
        words.len() <= u64::MAX,
        names.len() <= u64::MAX,
    ensures
        render(words, names, at, level) == Ok::<Rendering, ExecError>(
            Rendering { pieces: pretty(e, level), next: at + layout(e, at, table).words.len() },
        ),
    decreases e, 1nat, 0nat,
{
    reveal_with_fuel(render, 2);
    let compiled = layout(e, at, table);
    let l = *e->BinaryOp_0;
    let op = e->BinaryOp_1;
    let r = *e->BinaryOp_2;
    lemma_words_are_distinct(Operation::Binary(op), Operation::Binary(op));
    let left = layout(l, at + 1, table);
    let right = layout(r, at + 1 + left.words.len(), left.table);
    let head = seq![Operation::Binary(op).word()];
    assert(compiled.words == head + left.words + right.words);
    law_table_grows(r, at + 1 + left.words.len(), left.table);
    lemma_holds_at_split(words, at, head + left.words, right.words);
    lemma_holds_at_split(words, at, head, left.words);
    assert(words[at + 0] == head[0]);
    lemma_layout_is_not_empty(l, at + 1, table);
    lemma_render_layout(l, words, names, at + 1, table, level);
    lemma_render_layout(r, words, names, at + 1 + left.words.len(), left.table, level);
}

/// [`lemma_render_layout`] for a block.
proof fn lemma_render_braces(
    e: Expr,
    words: Seq<u64>,
    names: Seq<Seq<char>>,
    at: int,
    table: Seq<Seq<char>>,
    level: nat,
)
    requires
        e is Block,
        holds_at(words, at, layout(e, at, table).words),
        layout(e, at, table).table.is_prefix_of(names),
        words.len() <= u64::MAX,
        names.len() <= u64::MAX,
    ensures
        render(words, names, at, level) == Ok::<Rendering, ExecError>(
            Rendering { pieces: pretty(e, level), next: at + layout(e, at, table).words.len() },
        ),
    decreases e, 1nat, 0nat,
{
    reveal_with_fuel(render, 2);
    let compiled = layout(e, at, table);
    let stmts = e->Block_0@;
    let body = layout_all(stmts, at + 2, table);
    let head = seq![compiled.words[0], compiled.words[1]];
    assert(compiled.words =~= head + body.words);
    lemma_holds_at_split(words, at, head, body.words);
    assert(words[at + 0] == head[0]);
    assert(words[at + 1] == head[1]);
    assert(stmts.take(0) =~= Seq::<Expr>::empty());
    lemma_render_statements(e, 0, words, names, at + 2, table, level + 1, words[at + 1]);
    assert(stmts.skip(0) =~= stmts);
}

/// [`lemma_render_layout`] for a loop.
proof fn lemma_render_while(
    e: Expr,
    words: Seq<u64>,
    names: Seq<Seq<char>>,
    at: int,
    table: Seq<Seq<char>>,
    level: nat,
)
    requires
        e is While,
        holds_at(words, at, layout(e, at, table).words),
        layout(e, at, table).table.is_prefix_of(names),
        words.len() <= u64::MAX,
        names.len() <= u64::MAX,
    ensures
        render(words, names, at, level) == Ok::<Rendering, ExecError>(
            Rendering { pieces: pretty(e, level), next: at + layout(e, at, table).words.len() },
        ),
    decreases e, 1nat, 0nat,
{
    reveal_with_fuel(render, 3);
    let compiled = layout(e, at, table);
    let c = *e->While_0;
    let b = *e->While_1;
    let cond = layout(c, at + 3, table);
    let body = layout(b, at + 3 + cond.words.len(), cond.table);
    let head = seq![compiled.words[0], compiled.words[1], compiled.words[2]];
    assert(compiled.words =~= head + cond.words + body.words);
    law_table_grows(b, at + 3 + cond.words.len(), cond.table);
    lemma_holds_at_split(words, at, head + cond.words, body.words);
    lemma_holds_at_split(words, at, head, cond.words);
    assert(words[at + 0] == head[0]);
    assert(words[at + 1] == head[1]);
    assert(words[at + 2] == head[2]);
    lemma_layout_is_not_empty(c, at + 3, table);
    lemma_render_layout(c, words, names, at + 3, table, level);
    lemma_render_layout(b, words, names, at + 3 + cond.words.len(), cond.table, level + 1);
}

/// [`lemma_render_layout`] for a `Return`.
proof fn lemma_render_return(
    e: Expr,
    words: Seq<u64>,
    names: Seq<Seq<char>>,
    at: int,
    table: Seq<Seq<char>>,
    level: nat,
)
    requires
        e is Return,
        holds_at(words, at, layout(e, at, table).words),
        layout(e, at, table).table.is_prefix_of(names),
        words.len() <= u64::MAX,
        names.len() <= u64::MAX,
    ensures
        render(words, names, at, level) == Ok::<Rendering, ExecError>(
            Rendering { pieces: pretty(e, level), next: at + layout(e, at, table).words.len() },
        ),
    decreases e, 1nat, 0nat,
{
    reveal_with_fuel(render, 2);
    let compiled = layout(e, at, table);
    let v = *e->Return_0;
    let value = layout(v, at + 1, table);
    let head = seq![compiled.words[0]];
    assert(compiled.words =~= head + value.words);
    lemma_holds_at_split(words, at, head, value.words);
    assert(words[at + 0] == head[0]);
    lemma_render_layout(v, words, names, at + 1, table, level);
}

/// [`lemma_render_layout`] for the statements of the block `e`, from the
/// `k`-th on.
pub proof fn lemma_render_statements(
    e: Expr,
    k: int,
    words: Seq<u64>,
    names: Seq<Seq<char>>,
    base: int,
    table: Seq<Seq<char>>,
    level: nat,
    end: u64,
)
    requires
        e is Block,
        0 <= k <= e->Block_0@.len(),
        holds_at(words, base, layout_all(e->Block_0@, base, table).words),
        layout_all(e->Block_0@, base, table).table.is_prefix_of(names),
        end == base + layout_all(e->Block_0@, base, table).words.len(),
        words.len() <= u64::MAX,
        names.len() <= u64::MAX,
    ensures
        render_block(
            words,
            names,
            base + layout_all(e->Block_0@.take(k), base, table).words.len(),
            end,
            level,
        ) == Ok::<Rendering, ExecError>(
            Rendering { pieces: pretty_all(e->Block_0@.skip(k), level), next: end as int },
        ),
    decreases e, 0nat, e->Block_0@.len() - k,
{
    let stmts = e->Block_0@;
    let all = layout_all(stmts, base, table);
    let done = layout_all(stmts.take(k), base, table);
    let here = base + done.words.len();
    lemma_layout_all_take(stmts, k, base, table);
    if k == stmts.len() {
        assert(stmts.take(k) =~= stmts);
        assert(stmts.skip(k) =~= Seq::<Expr>::empty());
    } else {
        let stmt = stmts[k];
        lemma_statement_placed(stmts, k, words, names, base, table);
        vstd::std_specs::vec::axiom_vec_index_decreases(e->Block_0, k);
        assert(decreases_to!(e => e->Block_0));
        lemma_render_layout(stmt, words, names, here, done.table, level);
        lemma_render_statements(e, k + 1, words, names, base, table, level, end);
        assert(stmts.skip(k).first() == stmt);
        assert(stmts.skip(k).drop_first() =~= stmts.skip(k + 1));
    }
}

/// Reading back a freshly compiled program gives the program as it is
/// written out, ends at the end of the tape, and so mentions exactly the
/// names the program refers to: every reference once, in the order of the
/// references.
pub proof fn law_names_round_trip(e: Expr, level: nat)
    requires
        layout(e, 0, Seq::empty()).words.len() <= u64::MAX,
        layout(e, 0, Seq::empty()).table.len() <= u64::MAX,
    ensures
        ({
            let compiled = layout(e, 0, Seq::empty());
            &&& render(compiled.words, compiled.table, 0, level) == Ok::<Rendering, ExecError>(
                Rendering { pieces: pretty(e, level), next: compiled.words.len() as int },
            )
            &&& mentioned(pretty(e, level)) == e.names()
        }),
{
    let compiled = layout(e, 0, Seq::empty());
    lemma_render_layout(e, compiled.words, compiled.table, 0, Seq::empty(), level);
    law_pretty_mentions_names(e, level);
}

/// The written form of `program`, got by compiling it and reading the
/// tape back.  Reading back never fails on a tape that was just compiled,
/// and what is read is the program as [`pretty`] writes it.
pub fn listing(program: Expr) -> (tokens: Vec<Token>)
    ensures
        pieces_of(tokens@) == pretty(program, 0),
        mentioned(pieces_of(tokens@)) == program.names(),
{
    let mut compiler = ImCompiler::new();
    compiler.compile_expr(program);
    let words = compiler.future_tape.len();
    let names = compiler.globals.len();
    proof {
        let compiled = layout(program, 0, Seq::empty());
        assert(compiler.future_tape@ =~= compiled.words);
        assert(compiled.words.len() == words && compiled.table.len() == names);
        law_names_round_trip(program, 0);
    }
    proof {
        Dissassembler::lemma_from(compiler);
    }
    let mut reader = Dissassembler::from(compiler);
    match reader.dissassemble() {
        Ok(tokens) => tokens,
        Err(_) => Vec::new(),
    }
}

} // verus!
