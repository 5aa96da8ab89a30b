//! How a program is written out: the pieces of its surface syntax.
use vstd::prelude::*;
use crate::dissassembler::Piece;
use crate::expr::Expr;

verus! {

/// The pieces of `e` written at nesting depth `level`.
///
/// A literal, a variable and an operator with its operands stand in the
/// line; an assignment, a loop and a `Return` start with an indentation; a
/// block puts each of its statements on a line of its own, one level
/// deeper.
pub open spec fn pretty(e: Expr, level: nat) -> Seq<Piece>
    decreases e,
{
    match e {
        Expr::Float(bits) => seq![Piece::Float(bits)],
        Expr::Boolean(b) => seq![
            if b {
                Piece::True
            } else {
                Piece::False
            },
        ],
        Expr::Var(b) => seq![Piece::Name(b.name())],
        Expr::Assign(b, v) => seq![
            Piece::Indent(level),
            Piece::Global,
            Piece::Name(b.name()),
            Piece::Equals,
        ] + pretty(*v, level),
        Expr::BinaryOp(l, op, r) => pretty(*l, level) + seq![Piece::Operator(op)] + pretty(
            *r,
            level,
        ),
        Expr::Block(stmts) => seq![
            Piece::Newline,
            Piece::Indent(level),
            Piece::Open,
            Piece::Newline,
        ] + pretty_all(stmts@, level + 1) + seq![Piece::Indent(level), Piece::Close],
        Expr::While(c, b) => seq![Piece::Indent(level), Piece::While] + pretty(*c, level) + seq![
            Piece::Space,
            Piece::Open,
            Piece::Newline,
        ] + pretty(*b, level + 1) + seq![Piece::Newline, Piece::Indent(level), Piece::Close],
        Expr::Return(v) => seq![Piece::Indent(level), Piece::Return] + pretty(*v, level),
    }
}

/// The pieces of the statements of a block, each followed by the end of
/// its line.
pub open spec fn pretty_all(stmts: Seq<Expr>, level: nat) -> Seq<Piece>
    decreases stmts,
{
    if stmts.len() == 0 {
        Seq::empty()
    } else {
        pretty(stmts.first(), level) + seq![Piece::Newline] + pretty_all(stmts.drop_first(), level)
    }
}

/// The names that a sequence of pieces mentions, one entry per mention, in
/// the order of the pieces.
pub open spec fn mentioned(pieces: Seq<Piece>) -> Seq<Seq<char>>
    decreases pieces.len(),
{
    if pieces.len() == 0 {
        Seq::empty()
    } else {
        match pieces.last() {
            Piece::Name(name) => mentioned(pieces.drop_last()).push(name),
            _ => mentioned(pieces.drop_last()),
        }
    }
}

/// The mentions of two sequences of pieces put together are the mentions of
/// the first followed by those of the second.
pub proof fn lemma_mentioned_concat(a: Seq<Piece>, b: Seq<Piece>)
    ensures
        mentioned(a + b) == mentioned(a) + mentioned(b),
    decreases b.len(),
{
    if b.len() == 0 {
        assert(a + b =~= a);
        assert(mentioned(a) + mentioned(b) =~= mentioned(a));
    } else {
        assert((a + b).drop_last() =~= a + b.drop_last());
        assert((a + b).last() == b.last());
        lemma_mentioned_concat(a, b.drop_last());
        match b.last() {
            Piece::Name(name) => {
                assert((mentioned(a) + mentioned(b.drop_last())).push(name) =~= mentioned(a)
                    + mentioned(b.drop_last()).push(name));
            },
            _ => {},
        }
    }
}

/// Pieces that are no names mention nothing.
pub proof fn lemma_mentioned_none(pieces: Seq<Piece>)
    requires
        forall|i: int| 0 <= i < pieces.len() ==> !(#[trigger] pieces[i] is Name),
    ensures
        mentioned(pieces) == Seq::<Seq<char>>::empty(),
    decreases pieces.len(),
{
    if pieces.len() > 0 {
        assert forall|i: int| 0 <= i < pieces.drop_last().len() implies !(
        #[trigger] pieces.drop_last()[i] is Name) by {
            assert(pieces.drop_last()[i] == pieces[i]);
        }
        lemma_mentioned_none(pieces.drop_last());
    }
}

/// Written out, a program mentions exactly the names it refers to: every
/// reference once, in the order of the references.
pub proof fn law_pretty_mentions_names(e: Expr, level: nat)
    ensures
        mentioned(pretty(e, level)) == e.names(),
    decreases e,
{
    match e {
        Expr::Float(bits) => {
            lemma_mentioned_none(pretty(e, level));
        },
        Expr::Boolean(b) => {
            lemma_mentioned_none(pretty(e, level));
        },
        Expr::Var(b) => {
            let p = pretty(e, level);
            assert(p.drop_last() =~= Seq::<Piece>::empty());
            assert(mentioned(p) =~= seq![b.name()]) by {
                reveal_with_fuel(mentioned, 2);
            }
        },
        Expr::Assign(b, v) => {
            let head = seq![
                Piece::Indent(level),
                Piece::Global,
                Piece::Name(b.name()),
                Piece::Equals,
            ];
            assert(head.drop_last() =~= seq![
                Piece::Indent(level),
                Piece::Global,
                Piece::Name(b.name()),
            ]);
            assert(head.drop_last().drop_last() =~= seq![Piece::Indent(level), Piece::Global]);
            lemma_mentioned_none(head.drop_last().drop_last());
            assert(mentioned(head) =~= seq![b.name()]) by {
                reveal_with_fuel(mentioned, 3);
            }
            lemma_mentioned_concat(head, pretty(*v, level));
            law_pretty_mentions_names(*v, level);
        },
        Expr::BinaryOp(l, op, r) => {
            let mid = seq![Piece::Operator(op)];
            lemma_mentioned_none(mid);
            lemma_mentioned_concat(pretty(*l, level) + mid, pretty(*r, level));
            lemma_mentioned_concat(pretty(*l, level), mid);
            law_pretty_mentions_names(*l, level);
            law_pretty_mentions_names(*r, level);
            assert(e.names() =~= l.names() + Seq::<Seq<char>>::empty() + r.names());
        },
        Expr::Block(stmts) => {
            let head = seq![Piece::Newline, Piece::Indent(level), Piece::Open, Piece::Newline];
            let tail = seq![Piece::Indent(level), Piece::Close];
            let body = pretty_all(stmts@, level + 1);
            lemma_mentioned_none(head);
            lemma_mentioned_none(tail);
            lemma_mentioned_concat(head + body, tail);
            lemma_mentioned_concat(head, body);
            law_pretty_all_mentions_names(stmts@, level + 1);
            assert(e.names() =~= Seq::<Seq<char>>::empty() + Expr::names_of_all(stmts@)
                + Seq::<Seq<char>>::empty());
        },
        Expr::While(c, b) => {
            let head = seq![Piece::Indent(level), Piece::While];
            let mid = seq![Piece::Space, Piece::Open, Piece::Newline];
            let tail = seq![Piece::Newline, Piece::Indent(level), Piece::Close];
            let pc = pretty(*c, level);
            let pb = pretty(*b, level + 1);
            lemma_mentioned_none(head);
            lemma_mentioned_none(mid);
            lemma_mentioned_none(tail);
            lemma_mentioned_concat(head + pc + mid + pb, tail);
            lemma_mentioned_concat(head + pc + mid, pb);
            lemma_mentioned_concat(head + pc, mid);
            lemma_mentioned_concat(head, pc);
            law_pretty_mentions_names(*c, level);
            law_pretty_mentions_names(*b, level + 1);
            assert(e.names() =~= Seq::<Seq<char>>::empty() + c.names() + Seq::<Seq<char>>::empty()
                + b.names() + Seq::<Seq<char>>::empty());
        },
        Expr::Return(v) => {
            let head = seq![Piece::Indent(level), Piece::Return];
            lemma_mentioned_none(head);
            lemma_mentioned_concat(head, pretty(*v, level));
            law_pretty_mentions_names(*v, level);
            assert(e.names() =~= Seq::<Seq<char>>::empty() + v.names());
        },
    }
}

/// [`law_pretty_mentions_names`] for the statements of a block.
pub proof fn law_pretty_all_mentions_names(stmts: Seq<Expr>, level: nat)
    ensures
        mentioned(pretty_all(stmts, level)) == Expr::names_of_all(stmts),
    decreases stmts,
{
    if stmts.len() > 0 {
        let first = pretty(stmts.first(), level);
        let mid = seq![Piece::Newline];
        let rest = pretty_all(stmts.drop_first(), level);
        lemma_mentioned_none(mid);
        lemma_mentioned_concat(first + mid, rest);
        lemma_mentioned_concat(first, mid);
        law_pretty_mentions_names(stmts.first(), level);
        law_pretty_all_mentions_names(stmts.drop_first(), level);
        assert(Expr::names_of_all(stmts) =~= stmts.first().names() + Seq::<Seq<char>>::empty()
            + Expr::names_of_all(stmts.drop_first()));
    }
}

} // verus!
