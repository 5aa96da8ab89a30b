//! The words that stand for operations on a tape.
use vstd::prelude::*;
use crate::expr::Operator;

verus! {

/// The word that marks a `Return`.
pub const HINT_RETURN: u64 = 1001;

/// The word reserved for leaving a loop; no program uses it.
pub const HINT_BREAK: u64 = 1002;

/// The word that marks a `While`.
pub const HINT_WHILE: u64 = 1003;

/// The first word of the range reserved for markers.
pub const HINT_FIRST: u64 = 1001;

/// The last word of the range reserved for markers.
pub const HINT_LAST: u64 = 2000;

/// Whether a word lies in the range reserved for markers.
pub open spec fn is_hint(word: u64) -> bool {
    HINT_FIRST <= word <= HINT_LAST
}

/// Executable form of [`is_hint`].
pub fn word_is_hint(word: u64) -> (r: bool)
    ensures
        r == is_hint(word),
{
    HINT_FIRST <= word && word <= HINT_LAST
}

/// What an operation hands back to the one that started it.
#[derive(Debug, Clone, Copy, PartialEq, Eq, Structural)]
pub enum Shape {
    /// A value.
    Value,
    /// Nothing when a loop ran to its end, a value when something inside it
    /// returned.
    Optional,
    /// Nothing of its own: the word only announces what follows.
    Marker,
}

/// One operation of the machine.  On a tape it is the word
/// [`Operation::word`]; the words after it are its operands.
#[derive(Debug, Clone, Copy, PartialEq, Eq, Structural)]
pub enum Operation {
    True,
    False,
    Float,
    Var,
    Assign,
    Binary(Operator),
    Block,
    BlockChecked,
    WhileLoop,
    Conditional,
    ReturnMarker,
    BreakMarker,
    LoopMarker,
}

/// The word of a binary operator.
pub open spec fn operator_word(op: Operator) -> u64 {
    match op {
        Operator::Add => 6,
        Operator::Sub => 7,
        Operator::Mul => 8,
        Operator::Div => 9,
        Operator::Rem => 10,
        Operator::Eq => 11,
        Operator::Neq => 12,
        Operator::Lt => 13,
        Operator::Lte => 14,
        Operator::Gt => 15,
        Operator::Gte => 16,
    }
}

impl Operation {
    /// The word that stands for the operation.
    pub open spec fn word(self) -> u64 {
        match self {
            Operation::True => 1,
            Operation::False => 2,
            Operation::Float => 3,
            Operation::Var => 4,
            Operation::Assign => 5,
            Operation::Binary(op) => operator_word(op),
            Operation::Block => 17,
            Operation::BlockChecked => 18,
            Operation::WhileLoop => 19,
            Operation::Conditional => 20,
            Operation::ReturnMarker => HINT_RETURN,
            Operation::BreakMarker => HINT_BREAK,
            Operation::LoopMarker => HINT_WHILE,
        }
    }

    /// The operation a word stands for, if it stands for one.
    pub open spec fn of_word(word: u64) -> Option<Operation> {
        if word == 1 {
            Some(Operation::True)
        } else if word == 2 {
            Some(Operation::False)
        } else if word == 3 {
            Some(Operation::Float)
        } else if word == 4 {
            Some(Operation::Var)
        } else if word == 5 {
            Some(Operation::Assign)
        } else if word == 6 {
            Some(Operation::Binary(Operator::Add))
        } else if word == 7 {
            Some(Operation::Binary(Operator::Sub))
        } else if word == 8 {
            Some(Operation::Binary(Operator::Mul))
        } else if word == 9 {
            Some(Operation::Binary(Operator::Div))
        } else if word == 10 {
            Some(Operation::Binary(Operator::Rem))
        } else if word == 11 {
            Some(Operation::Binary(Operator::Eq))
        } else if word == 12 {
            Some(Operation::Binary(Operator::Neq))
        } else if word == 13 {
            Some(Operation::Binary(Operator::Lt))
        } else if word == 14 {
            Some(Operation::Binary(Operator::Lte))
        } else if word == 15 {
            Some(Operation::Binary(Operator::Gt))
        } else if word == 16 {
            Some(Operation::Binary(Operator::Gte))
        } else if word == 17 {
            Some(Operation::Block)
        } else if word == 18 {
            Some(Operation::BlockChecked)
        } else if word == 19 {
            Some(Operation::WhileLoop)
        } else if word == 20 {
            Some(Operation::Conditional)
        } else if word == HINT_RETURN {
            Some(Operation::ReturnMarker)
        } else if word == HINT_BREAK {
            Some(Operation::BreakMarker)
        } else if word == HINT_WHILE {
            Some(Operation::LoopMarker)
        } else {
            None
        }
    }

    /// What the operation hands back.
    pub open spec fn shape_of(self) -> Shape {
        match self {
            Operation::WhileLoop => Shape::Optional,
            Operation::ReturnMarker | Operation::BreakMarker | Operation::LoopMarker => Shape::Marker,
            _ => Shape::Value,
        }
    }

    /// The word to write on a tape for this operation.
    pub fn encode(self) -> (r: u64)
        ensures
            r == self.word(),
            Operation::of_word(r) == Some(self),
            r != 0,
    {
        match self {
            Operation::True => 1,
            Operation::False => 2,
            Operation::Float => 3,
            Operation::Var => 4,
            Operation::Assign => 5,
            Operation::Binary(op) => match op {
                Operator::Add => 6,
                Operator::Sub => 7,
                Operator::Mul => 8,
                Operator::Div => 9,
                Operator::Rem => 10,
                Operator::Eq => 11,
                Operator::Neq => 12,
                Operator::Lt => 13,
                Operator::Lte => 14,
                Operator::Gt => 15,
                Operator::Gte => 16,
            },
            Operation::Block => 17,
            Operation::BlockChecked => 18,
            Operation::WhileLoop => 19,
            Operation::Conditional => 20,
            Operation::ReturnMarker => HINT_RETURN,
            Operation::BreakMarker => HINT_BREAK,
            Operation::LoopMarker => HINT_WHILE,
        }
    }

    /// Reads a word back into the operation it stands for.
    pub fn decode(word: u64) -> (r: Option<Operation>)
        ensures
            r == Operation::of_word(word),
            r matches Some(op) ==> op.word() == word,
    {
        match word {
            1 => Some(Operation::True),
            2 => Some(Operation::False),
            3 => Some(Operation::Float),
            4 => Some(Operation::Var),
            5 => Some(Operation::Assign),
            6 => Some(Operation::Binary(Operator::Add)),
            7 => Some(Operation::Binary(Operator::Sub)),
            8 => Some(Operation::Binary(Operator::Mul)),
            9 => Some(Operation::Binary(Operator::Div)),
            10 => Some(Operation::Binary(Operator::Rem)),
            11 => Some(Operation::Binary(Operator::Eq)),
            12 => Some(Operation::Binary(Operator::Neq)),
            13 => Some(Operation::Binary(Operator::Lt)),
            14 => Some(Operation::Binary(Operator::Lte)),
            15 => Some(Operation::Binary(Operator::Gt)),
            16 => Some(Operation::Binary(Operator::Gte)),
            17 => Some(Operation::Block),
            18 => Some(Operation::BlockChecked),
            19 => Some(Operation::WhileLoop),
            20 => Some(Operation::Conditional),
            1001 => Some(Operation::ReturnMarker),
            1002 => Some(Operation::BreakMarker),
            1003 => Some(Operation::LoopMarker),
            _ => None,
        }
    }

    /// What the operation hands back to the one that started it.
    pub fn shape(&self) -> (r: Shape)
        ensures
            r == self.shape_of(),
    {
        match self {
            Operation::WhileLoop => Shape::Optional,
            Operation::ReturnMarker | Operation::BreakMarker | Operation::LoopMarker => Shape::Marker,
            _ => Shape::Value,
        }
    }

    /// Whether the operation is the marker of a `Return`: the one word that
    /// makes the enclosing block or loop give up the rest of its body.
    pub fn is_return(&self) -> (r: bool)
        ensures
            r == (*self == Operation::ReturnMarker),
    {
        match self {
            Operation::ReturnMarker => true,
            _ => false,
        }
    }
}

/// A word stands for at most one operation, and every operation for its
/// own word: writing an operation and reading it back gives it again, and
/// only markers lie in the marker range.
pub proof fn lemma_words_are_distinct(a: Operation, b: Operation)
    ensures
        Operation::of_word(a.word()) == Some(a),
        a.word() == b.word() ==> a == b,
        a.word() != 0,
        is_hint(a.word()) <==> a.shape_of() == Shape::Marker,
{
}

} // verus!
