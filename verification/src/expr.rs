//! The abstract syntax of the expression language.
use vstd::prelude::*;

verus! {

/// A variable, identified by name.  Names become dense slots when compiled.
#[derive(Debug)]
pub enum Binding {
    Global(String),
}

impl Clone for Binding {
    fn clone(&self) -> (r: Self)
        ensures
            r == *self,
    {
        match self {
            Binding::Global(name) => Binding::Global(name.clone()),
        }
    }
}

/// The binary operators.  The first five compute a number, the other six
/// compare two numbers.
#[derive(Debug, Clone, Copy, PartialEq, Eq, Structural)]
pub enum Operator {
    Add,
    Sub,
    Mul,
    Div,
    Rem,
    Lt,
    Lte,
    Gt,
    Gte,
    Eq,
    Neq,
}

/// An expression.  A number literal holds the bit pattern of a binary64
/// value.
#[derive(Debug)]
pub enum Expr {
    Float(u64),
    Boolean(bool),
    Var(Binding),
    Assign(Binding, Box<Expr>),
    BinaryOp(Box<Expr>, Operator, Box<Expr>),
    Block(Vec<Expr>),
    While(Box<Expr>, Box<Expr>),
    Return(Box<Expr>),
}

impl Clone for Expr {
    fn clone(&self) -> (r: Self)
        ensures
            self.alike(r),
        decreases self,
    {
        match self {
            Expr::Float(bits) => Expr::Float(*bits),
            Expr::Boolean(b) => Expr::Boolean(*b),
            Expr::Var(binding) => Expr::Var(binding.clone()),
            Expr::Assign(binding, value) => {
                let value: &Expr = value;
                Expr::Assign(binding.clone(), Box::new(value.clone()))
            },
            Expr::BinaryOp(lhs, op, rhs) => {
                let lhs: &Expr = lhs;
                let rhs: &Expr = rhs;
                Expr::BinaryOp(Box::new(lhs.clone()), *op, Box::new(rhs.clone()))
            },
            Expr::Block(stmts) => {
                let mut copies: Vec<Expr> = Vec::new();
                let mut i: usize = 0;
                while i < stmts.len()
                    invariant
                        i <= stmts.len(),
                        *self == Expr::Block(*stmts),
                        copies@.len() == i,
                        forall|j: int| 0 <= j < i ==> (#[trigger] stmts@[j]).alike(copies@[j]),
                    decreases stmts.len() - i,
                {
                    proof {
                        vstd::std_specs::vec::axiom_vec_index_decreases(*stmts, i as int);
                        assert(decreases_to!(*self => self->Block_0));
                    }
                    let copy = stmts[i].clone();
                    copies.push(copy);
                    i = i + 1;
                }
                Expr::Block(copies)
            },
            Expr::While(cond, body) => {
                let cond: &Expr = cond;
                let body: &Expr = body;
                Expr::While(Box::new(cond.clone()), Box::new(body.clone()))
            },
            Expr::Return(value) => {
                let value: &Expr = value;
                Expr::Return(Box::new(value.clone()))
            },
        }
    }
}

impl Operator {
    /// Whether the operator computes a number from two numbers.
    pub open spec fn is_arithmetic(self) -> bool {
        self is Add || self is Sub || self is Mul || self is Div || self is Rem
    }

    /// Executable form of [`Operator::is_arithmetic`].
    pub fn arithmetic(self) -> (r: bool)
        ensures
            r == self.is_arithmetic(),
    {
        match self {
            Operator::Add | Operator::Sub | Operator::Mul | Operator::Div | Operator::Rem => true,
            _ => false,
        }
    }
}

impl Binding {
    /// The name the binding stands for.
    pub open spec fn name(self) -> Seq<char> {
        match self {
            Binding::Global(n) => n@,
        }
    }

    /// The expression that stores `value` in this variable.
    pub fn assign(self, value: Expr) -> (r: Expr)
        ensures
            r == Expr::Assign(self, Box::new(value)),
    {
        Expr::Assign(self, Box::new(value))
    }

    /// The expression that reads this variable.
    pub fn var(self) -> (r: Expr)
        ensures
            r == Expr::Var(self),
    {
        Expr::Var(self)
    }
}

impl Expr {
    /// A read of the global variable called `name`.
    pub fn global(name: &str) -> (r: Expr)
        ensures
            r matches Expr::Var(Binding::Global(n)) && n@ == name@,
    {
        Expr::Var(Binding::Global(name.to_owned()))
    }

    /// The sum of `self` and `rhs`.
    pub fn add(self, rhs: Expr) -> (r: Expr)
        ensures
            r == Expr::BinaryOp(Box::new(self), Operator::Add, Box::new(rhs)),
    {
        Expr::BinaryOp(Box::new(self), Operator::Add, Box::new(rhs))
    }

    /// `self` combined with `rhs` by `operator`.
    pub fn op(self, operator: Operator, rhs: Expr) -> (r: Expr)
        ensures
            r == Expr::BinaryOp(Box::new(self), operator, Box::new(rhs)),
    {
        Expr::BinaryOp(Box::new(self), operator, Box::new(rhs))
    }

    /// Whether two expressions are the same program: the same node for
    /// node, names being compared by their characters.
    pub open spec fn alike(self, other: Expr) -> bool
        decreases self,
    {
        match (self, other) {
            (Expr::Float(a), Expr::Float(b)) => a == b,
            (Expr::Boolean(a), Expr::Boolean(b)) => a == b,
            (Expr::Var(a), Expr::Var(b)) => a.name() == b.name(),
            (Expr::Assign(a, v), Expr::Assign(b, w)) => a.name() == b.name() && v.alike(*w),
            (Expr::BinaryOp(l, op, r), Expr::BinaryOp(m, oq, s)) => op == oq && l.alike(*m)
                && r.alike(*s),
            (Expr::Block(a), Expr::Block(b)) => a@.len() == b@.len() && forall|j: int|
                0 <= j < a@.len() ==> (#[trigger] a@[j]).alike(b@[j]),
            (Expr::While(c, b), Expr::While(d, a)) => c.alike(*d) && b.alike(*a),
            (Expr::Return(v), Expr::Return(w)) => v.alike(*w),
            _ => false,
        }
    }

    /// Whether the node is a `Return` or a `While`: the two forms that a
    /// block has to watch for among its own statements.
    pub open spec fn diverts(self) -> bool {
        self is Return || self is While
    }

    /// The names the expression refers to, one entry per reference, in the
    /// order in which the references are written.
    pub open spec fn names(self) -> Seq<Seq<char>>
        decreases self,
    {
        match self {
            Expr::Float(_) => Seq::empty(),
            Expr::Boolean(_) => Seq::empty(),
            Expr::Var(b) => seq![b.name()],
            Expr::Assign(b, v) => seq![b.name()] + v.names(),
            Expr::BinaryOp(l, _, r) => l.names() + r.names(),
            Expr::Block(stmts) => Expr::names_of_all(stmts@),
            Expr::While(c, b) => c.names() + b.names(),
            Expr::Return(v) => v.names(),
        }
    }

    /// The names a list of statements refers to, statement after statement.
    pub open spec fn names_of_all(stmts: Seq<Expr>) -> Seq<Seq<char>>
        decreases stmts,
    {
        if stmts.len() == 0 {
            Seq::empty()
        } else {
            stmts.first().names() + Expr::names_of_all(stmts.drop_first())
        }
    }
}

} // verus!
