//! Reads a tape back into the shape of the program it was compiled from.
//!
//! The result is a sequence of tokens rather than text, so that the caller
//! decides how a number, a name or an indentation is written out.
use vstd::prelude::*;
use crate::error::ExecError;
use crate::expr::Operator;
use crate::globals::names_of;
use crate::imsta::ImCompiler;
use crate::opcode::Operation;

verus! {

/// One piece of a rendered program.
#[derive(Debug, Clone)]
pub enum Token {
    /// The start of a line at this depth of nesting.
    Indent(usize),
    /// The end of a line.
    Newline,
    /// A blank between a loop's condition and its body.
    Space,
    /// An opening brace.
    Open,
    /// A closing brace.
    Close,
    /// The word that starts an assignment.
    Global,
    /// The sign between the variable and the value of an assignment.
    Equals,
    /// The word that starts a loop.
    While,
    /// The word that starts a `Return`.
    Return,
    /// A number, as its bit pattern.
    Float(u64),
    True,
    False,
    /// The name of a variable.
    Name(String),
    /// An operator between its operands.
    Operator(Operator),
}

/// A token as a mathematical value: a name is its characters.
pub enum Piece {
    Indent(nat),
    Newline,
    Space,
    Open,
    Close,
    Global,
    Equals,
    While,
    Return,
    Float(u64),
    True,
    False,
    Name(Seq<char>),
    Operator(Operator),
}

impl View for Token {
    type V = Piece;

    open spec fn view(&self) -> Piece {
        match self {
            Token::Indent(n) => Piece::Indent(*n as nat),
            Token::Newline => Piece::Newline,
            Token::Space => Piece::Space,
            Token::Open => Piece::Open,
            Token::Close => Piece::Close,
            Token::Global => Piece::Global,
            Token::Equals => Piece::Equals,
            Token::While => Piece::While,
            Token::Return => Piece::Return,
            Token::Float(bits) => Piece::Float(*bits),
            Token::True => Piece::True,
            Token::False => Piece::False,
            Token::Name(name) => Piece::Name(name@),
            Token::Operator(op) => Piece::Operator(*op),
        }
    }
}

/// The pieces a sequence of tokens stands for.
pub open spec fn pieces_of(tokens: Seq<Token>) -> Seq<Piece> {
    Seq::new(tokens.len(), |i: int| tokens[i]@)
}

/// What reading one construct yields: its pieces, and the offset of the
/// first word after it.
pub struct Rendering {
    pub pieces: Seq<Piece>,
    pub next: int,
}

/// The rendering of the construct that starts at offset `at` of `words`,
/// written at nesting depth `level`, with `names` giving the name of every
/// slot.
///
/// A literal, a variable and an operator with its operands stand in the
/// line; an assignment, a loop and a `Return` start with an indentation; a
/// block puts each of its statements on a line of its own, one level
/// deeper.  The marker of a loop is passed over.
pub open spec fn render(words: Seq<u64>, names: Seq<Seq<char>>, at: int, level: nat) -> Result<
    Rendering,
    ExecError,
>
    decreases words.len() - at, 0int,
{
    if !(0 <= at < words.len()) {
        Err(ExecError::OutOfRange)
    } else {
        match Operation::of_word(words[at]) {
            None => Err(ExecError::InvalidOpcode),
            Some(Operation::Conditional) => Err(ExecError::InvalidOpcode),
            Some(Operation::BreakMarker) => Err(ExecError::UnknownHint),
            Some(Operation::True) => Ok(Rendering { pieces: seq![Piece::True], next: at + 1 }),
            Some(Operation::False) => Ok(Rendering { pieces: seq![Piece::False], next: at + 1 }),
            Some(Operation::Float) => render_float(words, at + 1),
            Some(Operation::Var) => render_var(words, names, at + 1),
            Some(Operation::Assign) => render_assign(words, names, at + 1, level),
            Some(Operation::Binary(op)) => render_binary(words, names, op, at + 1, level),
            Some(Operation::Block) => render_braces(words, names, at + 1, level),
            Some(Operation::BlockChecked) => render_braces(words, names, at + 1, level),
            Some(Operation::WhileLoop) => render_while(words, names, at + 1, level),
            Some(Operation::ReturnMarker) => render_return(words, names, at + 1, level),
            Some(Operation::LoopMarker) => render(words, names, at + 1, level),
        }
    }
}

/// A number literal whose bit pattern stands at `at`.
pub open spec fn render_float(words: Seq<u64>, at: int) -> Result<Rendering, ExecError> {
    if !(0 <= at < words.len()) {
        Err(ExecError::OutOfRange)
    } else {
        Ok(Rendering { pieces: seq![Piece::Float(words[at])], next: at + 1 })
    }
}

/// A variable whose slot stands at `at`.
pub open spec fn render_var(words: Seq<u64>, names: Seq<Seq<char>>, at: int) -> Result<
    Rendering,
    ExecError,
> {
    if !(0 <= at < words.len()) {
        Err(ExecError::OutOfRange)
    } else if words[at] >= names.len() {
        Err(ExecError::InvalidSlot)
    } else {
        Ok(Rendering { pieces: seq![Piece::Name(names[words[at] as int])], next: at + 1 })
    }
}

/// An assignment whose slot stands at `at`, the value following it.
pub open spec fn render_assign(
    words: Seq<u64>,
    names: Seq<Seq<char>>,
    at: int,
    level: nat,
) -> Result<Rendering, ExecError>
    decreases words.len() - at, 1int,
{
    if !(0 <= at < words.len()) {
        Err(ExecError::OutOfRange)
    } else if words[at] >= names.len() {
        Err(ExecError::InvalidSlot)
    } else {
        match render(words, names, at + 1, level) {
            Err(e) => Err(e),
            Ok(value) => Ok(
                Rendering {
                    pieces: seq![
                        Piece::Indent(level),
                        Piece::Global,
                        Piece::Name(names[words[at] as int]),
                        Piece::Equals,
                    ] + value.pieces,
                    next: value.next,
                },
            ),
        }
    }
}

/// The two operands of `op`, the left one starting at `at`.
pub open spec fn render_binary(
    words: Seq<u64>,
    names: Seq<Seq<char>>,
    op: Operator,
    at: int,
    level: nat,
) -> Result<Rendering, ExecError>
    decreases words.len() - at, 1int,
{
    match render(words, names, at, level) {
        Err(e) => Err(e),
        Ok(lhs) => if !(at < lhs.next <= words.len()) {
            Err(ExecError::OutOfRange)
        } else {
            match render(words, names, lhs.next, level) {
                Err(e) => Err(e),
                Ok(rhs) => Ok(
                    Rendering {
                        pieces: lhs.pieces + seq![Piece::Operator(op)] + rhs.pieces,
                        next: rhs.next,
                    },
                ),
            }
        },
    }
}

/// A block whose end offset stands at `at`, its statements following it.
pub open spec fn render_braces(
    words: Seq<u64>,
    names: Seq<Seq<char>>,
    at: int,
    level: nat,
) -> Result<Rendering, ExecError>
    decreases words.len() - at, 2int,
{
    if !(0 <= at < words.len()) {
        Err(ExecError::OutOfRange)
    } else {
        match render_block(words, names, at + 1, words[at], level + 1) {
            Err(e) => Err(e),
            Ok(body) => Ok(
                Rendering {
                    pieces: seq![Piece::Newline, Piece::Indent(level), Piece::Open, Piece::Newline]
                        + body.pieces + seq![Piece::Indent(level), Piece::Close],
                    next: body.next,
                },
            ),
        }
    }
}

/// A loop whose end offset stands at `at`; the condition and the body
/// follow it.
pub open spec fn render_while(
    words: Seq<u64>,
    names: Seq<Seq<char>>,
    at: int,
    level: nat,
) -> Result<Rendering, ExecError>
    decreases words.len() - at, 1int,
{
    if !(0 <= at < words.len()) {
        Err(ExecError::OutOfRange)
    } else {
        match render(words, names, at + 1, level) {
            Err(e) => Err(e),
            Ok(cond) => if !(at < cond.next <= words.len()) {
                Err(ExecError::OutOfRange)
            } else {
                match render(words, names, cond.next, level + 1) {
                    Err(e) => Err(e),
                    Ok(body) => Ok(
                        Rendering {
                            pieces: seq![Piece::Indent(level), Piece::While] + cond.pieces + seq![
                                Piece::Space,
                                Piece::Open,
                                Piece::Newline,
                            ] + body.pieces + seq![
                                Piece::Newline,
                                Piece::Indent(level),
                                Piece::Close,
                            ],
                            next: body.next,
                        },
                    ),
                }
            },
        }
    }
}

/// A `Return` whose value starts at `at`.
pub open spec fn render_return(
    words: Seq<u64>,
    names: Seq<Seq<char>>,
    at: int,
    level: nat,
) -> Result<Rendering, ExecError>
    decreases words.len() - at, 1int,
{
    match render(words, names, at, level) {
        Err(e) => Err(e),
        Ok(value) => Ok(
            Rendering {
                pieces: seq![Piece::Indent(level), Piece::Return] + value.pieces,
                next: value.next,
            },
        ),
    }
}

/// The rendering of the statements of a block: construct after construct,
/// each followed by the end of its line, until the cursor stands at `end`.
pub open spec fn render_block(
    words: Seq<u64>,
    names: Seq<Seq<char>>,
    at: int,
    end: u64,
    level: nat,
) -> Result<Rendering, ExecError>
    decreases words.len() - at, 1int,
{
    if at == end {
        Ok(Rendering { pieces: Seq::empty(), next: at })
    } else {
        match render(words, names, at, level) {
            Err(e) => Err(e),
            Ok(item) => if !(at < item.next <= words.len()) {
                Err(ExecError::OutOfRange)
            } else {
                match render_block(words, names, item.next, end, level) {
                    Err(e) => Err(e),
                    Ok(rest) => Ok(
                        Rendering {
                            pieces: item.pieces + seq![Piece::Newline] + rest.pieces,
                            next: rest.next,
                        },
                    ),
                }
            },
        }
    }
}

/// A construct that renders ends after the word it starts at and within
/// the tape.
pub proof fn lemma_render_advances(words: Seq<u64>, names: Seq<Seq<char>>, at: int, level: nat)
    ensures
        render(words, names, at, level) matches Ok(r) ==> at < r.next <= words.len(),
    decreases words.len() - at, 0int,
{
    reveal_with_fuel(render, 2);
    if 0 <= at < words.len() {
        match Operation::of_word(words[at]) {
            Some(Operation::Assign) => {
                if at + 1 < words.len() {
                    lemma_render_advances(words, names, at + 2, level);
                }
            },
            Some(Operation::Binary(op)) => {
                lemma_render_advances(words, names, at + 1, level);
                if let Ok(lhs) = render(words, names, at + 1, level) {
                    lemma_render_advances(words, names, lhs.next, level);
                }
            },
            Some(Operation::Block) => {
                if at + 1 < words.len() {
                    lemma_render_block_advances(words, names, at + 2, words[at + 1], level + 1);
                }
            },
            Some(Operation::BlockChecked) => {
                if at + 1 < words.len() {
                    lemma_render_block_advances(words, names, at + 2, words[at + 1], level + 1);
                }
            },
            Some(Operation::WhileLoop) => {
                if at + 1 < words.len() {
                    lemma_render_advances(words, names, at + 2, level);
                    if let Ok(cond) = render(words, names, at + 2, level) {
                        lemma_render_advances(words, names, cond.next, level + 1);
                    }
                }
            },
            Some(Operation::ReturnMarker) => {
                lemma_render_advances(words, names, at + 1, level);
            },
            Some(Operation::LoopMarker) => {
                lemma_render_advances(words, names, at + 1, level);
            },
            _ => {},
        }
    }
}

/// A run of statements that renders ends at `end`, and within the tape if
/// it started there.
pub proof fn lemma_render_block_advances(
    words: Seq<u64>,
    names: Seq<Seq<char>>,
    at: int,
    end: u64,
    level: nat,
)
    requires
        0 <= at <= words.len(),
    ensures
        render_block(words, names, at, end, level) matches Ok(r) ==> at <= r.next <= words.len()
            && r.next == end,
    decreases words.len() - at, 1int,
{
    if at != end {
        lemma_render_advances(words, names, at, level);
        if let Ok(item) = render(words, names, at, level) {
            lemma_render_block_advances(words, names, item.next, end, level);
        }
    }
}

/// What a rendering step has to leave behind when `expected` is what the
/// tape holds: on success the pieces appended to the output and the cursor
/// behind the construct, on failure the failure itself.
pub open spec fn rendered(
    before: DissassemblerView,
    out_before: Seq<Token>,
    after: DissassemblerView,
    out_after: Seq<Token>,
    r: Result<(), ExecError>,
    expected: Result<Rendering, ExecError>,
) -> bool {
    &&& after.words == before.words
    &&& after.names == before.names
    &&& match expected {
        Ok(rendering) => r is Ok && pieces_of(out_after) == pieces_of(out_before)
            + rendering.pieces && after.offset == rendering.next && after.level == before.level,
        Err(e) => r == Err::<(), ExecError>(e),
    }
}

/// The state of a disassembler, as mathematical values.
pub struct DissassemblerView {
    pub words: Seq<u64>,
    pub names: Seq<Seq<char>>,
    pub offset: nat,
    pub level: nat,
}

/// Walks a tape from its start and renders what it reads.
pub struct Dissassembler {
    offset: u64,
    tape: Vec<u64>,
    globals: Vec<String>,
    level: usize,
}

impl View for Dissassembler {
    type V = DissassemblerView;

    closed spec fn view(&self) -> DissassemblerView {
        DissassemblerView {
            words: self.tape@,
            names: names_of(self.globals@),
            offset: self.offset as nat,
            level: self.level as nat,
        }
    }
}

impl From<ImCompiler> for Dissassembler {
    fn from(value: ImCompiler) -> (r: Self) {
        Dissassembler { offset: 0, level: 0, tape: value.future_tape, globals: value.globals }
    }
}

impl vstd::std_specs::convert::FromSpecImpl<ImCompiler> for Dissassembler {
    open spec fn obeys_from_spec() -> bool {
        true
    }

    closed spec fn from_spec(value: ImCompiler) -> Self {
        Dissassembler { offset: 0, level: 0, tape: value.future_tape, globals: value.globals }
    }
}

/// Appends a token.
fn put(out: &mut Vec<Token>, token: Token)
    ensures
        pieces_of(final(out)@) == pieces_of(old(out)@).push(token@),
{
    out.push(token);
    assert(pieces_of(out@) =~= pieces_of(old(out)@).push(token@));
}

impl Dissassembler {
    #[verifier::type_invariant]
    spec fn inv(self) -> bool {
        self.offset <= self.tape.len() && self.level <= self.offset
    }

    /// What `from` makes of a compiler: a disassembler at the start of the
    /// words it has emitted, at no depth, with its names.
    pub proof fn lemma_from(compiler: ImCompiler)
        ensures
            <Dissassembler as vstd::std_specs::convert::FromSpec<ImCompiler>>::from_spec(compiler)@
                == (DissassemblerView {
                words: compiler.future_tape@,
                names: compiler.names(),
                offset: 0,
                level: 0,
            }),
    {
    }

    /// The offset of the cursor.
    pub fn offset(&self) -> (r: u64)
        ensures
            r == self@.offset,
            self@.offset <= self@.words.len(),
            self@.level <= self@.offset,
    {
        proof {
            use_type_invariant(self);
        }
        self.offset
    }

    /// Reads the word under the cursor and moves one word on.
    pub fn read(&mut self) -> (r: Result<u64, ExecError>)
        ensures
            final(self)@.words == old(self)@.words,
            final(self)@.names == old(self)@.names,
            final(self)@.level == old(self)@.level,
            old(self)@.offset < old(self)@.words.len() ==> r == Ok::<u64, ExecError>(
                old(self)@.words[old(self)@.offset as int],
            ) && final(self)@.offset == old(self)@.offset + 1,
            old(self)@.offset >= old(self)@.words.len() ==> r == Err::<u64, ExecError>(
                ExecError::OutOfRange,
            ) && final(self)@.offset == old(self)@.offset,
    {
        proof {
            use_type_invariant(&*self);
        }
        if self.offset >= self.tape.len() as u64 {
            return Err(ExecError::OutOfRange);
        }
        let value = self.tape[self.offset as usize];
        self.offset = self.offset + 1;
        Ok(value)
    }

    /// The word after the one under the cursor, which stays where it is.
    pub fn peek(&self) -> (r: Result<u64, ExecError>)
        ensures
            self@.offset + 1 < self@.words.len() ==> r == Ok::<u64, ExecError>(
                self@.words[self@.offset as int + 1],
            ),
            self@.offset + 1 >= self@.words.len() ==> r == Err::<u64, ExecError>(
                ExecError::OutOfRange,
            ),
    {
        proof {
            use_type_invariant(self);
        }
        if self.offset >= self.tape.len() as u64 || self.offset + 1 >= self.tape.len() as u64 {
            return Err(ExecError::OutOfRange);
        }
        Ok(self.tape[(self.offset + 1) as usize])
    }

    /// Goes one level of nesting deeper.
    fn scope_in(&mut self)
        requires
            old(self)@.level < old(self)@.offset,
        ensures
            final(self)@ == (DissassemblerView { level: old(self)@.level + 1, ..old(self)@ }),
    {
        proof {
            use_type_invariant(&*self);
        }
        self.level = self.level + 1;
    }

    /// Comes one level of nesting back.
    fn scope_out(&mut self)
        requires
            old(self)@.level > 0,
        ensures
            final(self)@ == (DissassemblerView {
                level: (old(self)@.level - 1) as nat,
                ..old(self)@
            }),
    {
        proof {
            use_type_invariant(&*self);
        }
        self.level = self.level - 1;
    }

    /// Renders the whole program under the cursor and ends its line.
    pub fn dissassemble_program(&mut self) -> (r: Result<Vec<Token>, ExecError>)
        ensures
            final(self)@.words == old(self)@.words,
            final(self)@.names == old(self)@.names,
            match render(old(self)@.words, old(self)@.names, old(self)@.offset as int, old(self)@.level) {
                Ok(rendering) => r matches Ok(tokens) && pieces_of(tokens@)
                    == rendering.pieces.push(Piece::Newline) && final(self)@.offset
                    == rendering.next && final(self)@.level == old(self)@.level,
                Err(e) => r == Err::<Vec<Token>, ExecError>(e),
            },
    {
        match self.dissassemble() {
            Ok(tokens) => {
                let mut tokens = tokens;
                put(&mut tokens, Token::Newline);
                Ok(tokens)
            },
            Err(e) => Err(e),
        }
    }

    /// Renders the construct under the cursor and leaves the cursor behind
    /// it: see [`render`].  After a failure the cursor stands where the
    /// failure was met.
    pub fn dissassemble(&mut self) -> (r: Result<Vec<Token>, ExecError>)
        ensures
            final(self)@.words == old(self)@.words,
            final(self)@.names == old(self)@.names,
            match render(old(self)@.words, old(self)@.names, old(self)@.offset as int, old(self)@.level) {
                Ok(rendering) => r matches Ok(tokens) && pieces_of(tokens@) == rendering.pieces
                    && final(self)@.offset == rendering.next && final(self)@.level == old(self)@.level,
                Err(e) => r == Err::<Vec<Token>, ExecError>(e),
            },
    {
        let mut out: Vec<Token> = Vec::new();
        assert(pieces_of(out@) =~= Seq::<Piece>::empty());
        match self.item(&mut out) {
            Ok(()) => Ok(out),
            Err(e) => Err(e),
        }
    }

    /// Renders the construct under the cursor onto the end of `out`.
    fn item(&mut self, out: &mut Vec<Token>) -> (r: Result<(), ExecError>)
        ensures
            rendered(
                old(self)@,
                old(out)@,
                final(self)@,
                final(out)@,
                r,
                render(old(self)@.words, old(self)@.names, old(self)@.offset as int, old(self)@.level),
            ),
        decreases old(self)@.words.len() - old(self)@.offset, 0int,
    {
        let ghost start = pieces_of(out@);
        proof {
            use_type_invariant(&*self);
        }
        let element = match self.read() {
            Ok(w) => w,
            Err(e) => {
                return Err(e);
            },
        };
        let op = match Operation::decode(element) {
            Some(op) => op,
            None => {
                return Err(ExecError::InvalidOpcode);
            },
        };
        match op {
            Operation::Conditional => Err(ExecError::InvalidOpcode),
            Operation::BreakMarker => Err(ExecError::UnknownHint),
            Operation::True => {
                put(out, Token::True);
                assert(pieces_of(out@) =~= start + seq![Piece::True]);
                Ok(())
            },
            Operation::False => {
                put(out, Token::False);
                assert(pieces_of(out@) =~= start + seq![Piece::False]);
                Ok(())
            },
            Operation::Float => self.handle_literal(out),
            Operation::Var => self.handle_var(out),
            Operation::Assign => self.handle_operation(out),
            Operation::Binary(operator) => self.handle_binary(operator, out),
            Operation::Block => self.handle_fn(out),
            Operation::BlockChecked => self.handle_fn(out),
            Operation::WhileLoop => self.handle_while(out),
            Operation::ReturnMarker => self.handle_return(out),
            Operation::LoopMarker => self.item(out),
        }
    }

    /// Renders a number literal whose bit pattern is under the cursor.
    fn handle_literal(&mut self, out: &mut Vec<Token>) -> (r: Result<(), ExecError>)
        ensures
            rendered(
                old(self)@,
                old(out)@,
                final(self)@,
                final(out)@,
                r,
                render_float(old(self)@.words, old(self)@.offset as int),
            ),
    {
        let ghost start = pieces_of(out@);
        let value = match self.read() {
            Ok(w) => w,
            Err(e) => {
                return Err(e);
            },
        };
        put(out, Token::Float(value));
        assert(pieces_of(out@) =~= start + seq![Piece::Float(value)]);
        Ok(())
    }

    /// Renders a variable whose slot is under the cursor.
    fn handle_var(&mut self, out: &mut Vec<Token>) -> (r: Result<(), ExecError>)
        ensures
            rendered(
                old(self)@,
                old(out)@,
                final(self)@,
                final(out)@,
                r,
                render_var(old(self)@.words, old(self)@.names, old(self)@.offset as int),
            ),
    {
        let ghost start = pieces_of(out@);
        let idx = match self.read() {
            Ok(w) => w,
            Err(e) => {
                return Err(e);
            },
        };
        if idx >= self.globals.len() as u64 {
            return Err(ExecError::InvalidSlot);
        }
        let name = self.globals[idx as usize].clone();
        put(out, Token::Name(name));
        assert(pieces_of(out@) =~= start + seq![Piece::Name(self@.names[idx as int])]);
        Ok(())
    }

    /// Renders an assignment whose slot is under the cursor.
    fn handle_operation(&mut self, out: &mut Vec<Token>) -> (r: Result<(), ExecError>)
        ensures
            rendered(
                old(self)@,
                old(out)@,
                final(self)@,
                final(out)@,
                r,
                render_assign(
                    old(self)@.words,
                    old(self)@.names,
                    old(self)@.offset as int,
                    old(self)@.level,
                ),
            ),
        decreases old(self)@.words.len() - old(self)@.offset, 1int,
    {
        let ghost start = pieces_of(out@);
        let ghost level = self@.level;
        let idx = match self.read() {
            Ok(w) => w,
            Err(e) => {
                return Err(e);
            },
        };
        if idx >= self.globals.len() as u64 {
            return Err(ExecError::InvalidSlot);
        }
        put(out, Token::Indent(self.level));
        put(out, Token::Global);
        let name = self.globals[idx as usize].clone();
        put(out, Token::Name(name));
        put(out, Token::Equals);
        let ghost head = seq![
            Piece::Indent(level),
            Piece::Global,
            Piece::Name(self@.names[idx as int]),
            Piece::Equals,
        ];
        assert(pieces_of(out@) =~= start + head);
        let ghost value = render(self@.words, self@.names, self@.offset as int, level);
        match self.item(out) {
            Ok(()) => {
                assert(pieces_of(out@) =~= start + (head + value->Ok_0.pieces));
                Ok(())
            },
            Err(e) => Err(e),
        }
    }

    /// Renders the two operands of `operator`, the left one being under the
    /// cursor.
    fn handle_binary(&mut self, operator: Operator, out: &mut Vec<Token>) -> (r: Result<
        (),
        ExecError,
    >)
        ensures
            rendered(
                old(self)@,
                old(out)@,
                final(self)@,
                final(out)@,
                r,
                render_binary(
                    old(self)@.words,
                    old(self)@.names,
                    operator,
                    old(self)@.offset as int,
                    old(self)@.level,
                ),
            ),
        decreases old(self)@.words.len() - old(self)@.offset, 1int,
    {
        let ghost start = pieces_of(out@);
        let ghost level = self@.level;
        let ghost lhs = render(self@.words, self@.names, self@.offset as int, level);
        proof {
            lemma_render_advances(self@.words, self@.names, self@.offset as int, level);
        }
        match self.item(out) {
            Ok(()) => {},
            Err(e) => {
                return Err(e);
            },
        }
        put(out, Token::Operator(operator));
        let ghost rhs = render(self@.words, self@.names, self@.offset as int, level);
        match self.item(out) {
            Ok(()) => {
                assert(pieces_of(out@) =~= start + (lhs->Ok_0.pieces + seq![
                    Piece::Operator(operator),
                ] + rhs->Ok_0.pieces));
                Ok(())
            },
            Err(e) => Err(e),
        }
    }

    /// Renders a `Return` whose value is under the cursor.
    fn handle_return(&mut self, out: &mut Vec<Token>) -> (r: Result<(), ExecError>)
        ensures
            rendered(
                old(self)@,
                old(out)@,
                final(self)@,
                final(out)@,
                r,
                render_return(
                    old(self)@.words,
                    old(self)@.names,
                    old(self)@.offset as int,
                    old(self)@.level,
                ),
            ),
        decreases old(self)@.words.len() - old(self)@.offset, 1int,
    {
        let ghost start = pieces_of(out@);
        let ghost level = self@.level;
        let ghost value = render(self@.words, self@.names, self@.offset as int, level);
        put(out, Token::Indent(self.level));
        put(out, Token::Return);
        match self.item(out) {
            Ok(()) => {
                assert(pieces_of(out@) =~= start + (seq![Piece::Indent(level), Piece::Return]
                    + value->Ok_0.pieces));
                Ok(())
            },
            Err(e) => Err(e),
        }
    }

    /// Renders a loop whose end offset is under the cursor.
    fn handle_while(&mut self, out: &mut Vec<Token>) -> (r: Result<(), ExecError>)
        ensures
            rendered(
                old(self)@,
                old(out)@,
                final(self)@,
                final(out)@,
                r,
                render_while(
                    old(self)@.words,
                    old(self)@.names,
                    old(self)@.offset as int,
                    old(self)@.level,
                ),
            ),
        decreases old(self)@.words.len() - old(self)@.offset, 1int,
    {
        let ghost start = pieces_of(out@);
        let ghost level = self@.level;
        proof {
            use_type_invariant(&*self);
        }
        put(out, Token::Indent(self.level));
        put(out, Token::While);
        match self.read() {
            Ok(_) => {},
            Err(e) => {
                return Err(e);
            },
        }
        let ghost cond = render(self@.words, self@.names, self@.offset as int, level);
        proof {
            lemma_render_advances(self@.words, self@.names, self@.offset as int, level);
        }
        match self.item(out) {
            Ok(()) => {},
            Err(e) => {
                return Err(e);
            },
        }
        put(out, Token::Space);
        put(out, Token::Open);
        put(out, Token::Newline);
        self.scope_in();
        let ghost body = render(self@.words, self@.names, self@.offset as int, level + 1);
        match self.item(out) {
            Ok(()) => {},
            Err(e) => {
                return Err(e);
            },
        }
        self.scope_out();
        put(out, Token::Newline);
        put(out, Token::Indent(self.level));
        put(out, Token::Close);
        assert(pieces_of(out@) =~= start + (seq![Piece::Indent(level), Piece::While]
            + cond->Ok_0.pieces + seq![Piece::Space, Piece::Open, Piece::Newline]
            + body->Ok_0.pieces + seq![Piece::Newline, Piece::Indent(level), Piece::Close]));
        Ok(())
    }

    /// Renders a block whose end offset is under the cursor.
    #[verifier::loop_isolation(false)]
    fn handle_fn(&mut self, out: &mut Vec<Token>) -> (r: Result<(), ExecError>)
        ensures
            rendered(
                old(self)@,
                old(out)@,
                final(self)@,
                final(out)@,
                r,
                render_braces(
                    old(self)@.words,
                    old(self)@.names,
                    old(self)@.offset as int,
                    old(self)@.level,
                ),
            ),
        decreases old(self)@.words.len() - old(self)@.offset, 2int,
    {
        let ghost start = pieces_of(out@);
        let ghost level = self@.level;
        let ghost words = self@.words;
        let ghost names = self@.names;
        let ghost at = self@.offset as int;
        proof {
            use_type_invariant(&*self);
        }
        let next_instr_idx = match self.read() {
            Ok(w) => w,
            Err(e) => {
                return Err(e);
            },
        };
        put(out, Token::Newline);
        put(out, Token::Indent(self.level));
        put(out, Token::Open);
        put(out, Token::Newline);
        self.scope_in();
        let ghost head = seq![Piece::Newline, Piece::Indent(level), Piece::Open, Piece::Newline];
        assert(pieces_of(out@) =~= start + head);
        let ghost whole = render_block(words, names, at + 1, next_instr_idx, level + 1);
        while self.offset != next_instr_idx
            invariant
                self@.words == words,
                self@.names == names,
                self@.level == level + 1,
                at + 1 <= self@.offset <= words.len(),
                match render_block(
                    words,
                    names,
                    self@.offset as int,
                    next_instr_idx,
                    (level + 1) as nat,
                ) {
                    Ok(rest) => whole matches Ok(all) && all.next == rest.next && pieces_of(out@)
                        + rest.pieces == start + head + all.pieces,
                    Err(e) => whole == Err::<Rendering, ExecError>(e),
                },
            decreases words.len() - self@.offset,
        {
            let ghost here = self@.offset as int;
            let ghost so_far = pieces_of(out@);
            let ghost item = render(words, names, here, (level + 1) as nat);
            proof {
                lemma_render_advances(words, names, here, (level + 1) as nat);
            }
            match self.item(out) {
                Ok(()) => {},
                Err(e) => {
                    return Err(e);
                },
            }
            put(out, Token::Newline);
            proof {
                use_type_invariant(&*self);
                let rest = render_block(
                    words,
                    names,
                    item->Ok_0.next,
                    next_instr_idx,
                    (level + 1) as nat,
                );
                if let Ok(rest) = rest {
                    assert(pieces_of(out@) + rest.pieces =~= so_far + (item->Ok_0.pieces + seq![
                        Piece::Newline,
                    ] + rest.pieces));
                }
            }
        }
        self.scope_out();
        put(out, Token::Indent(self.level));
        put(out, Token::Close);
        assert(pieces_of(out@) =~= start + (head + whole->Ok_0.pieces + seq![
            Piece::Indent(level),
            Piece::Close,
        ]));
        Ok(())
    }
}

} // verus!
