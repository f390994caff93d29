//! The small parts of the syntax tree: operators, names and parameters.

use vstd::prelude::*;
use vstd::string::StringExecFns;
use crate::frontend::position::WithSpan;
use crate::frontend::text::{join_path, joined, texts};

verus! {

pub type Identifier = String;

/// One part of the path of a url declaration.
#[derive(Debug, PartialEq, Eq, Clone)]
pub enum UrlComponent {
    Identifier(WithSpan<Identifier>),
    String(WithSpan<String>),
}

#[derive(Debug, PartialEq, Eq, Copy, Clone, Structural)]
pub enum UnaryOperator {
    Bang,
    Minus,
}

#[derive(Debug, PartialEq, Eq, Copy, Clone, Structural)]
pub enum BinaryOperator {
    Slash,
    Star,
    Plus,
    Minus,
    Greater,
    GreaterEqual,
    Less,
    LessEqual,
    BangEqual,
    EqualEqual,
}

#[derive(Debug, PartialEq, Eq, Copy, Clone, Structural)]
pub enum LogicalOperator {
    And,
    Or,
}

impl UnaryOperator {
    /// The operator as it is written.
    pub open spec fn symbol(self) -> Seq<char> {
        match self {
            UnaryOperator::Bang => seq!['!'],
            UnaryOperator::Minus => seq!['-'],
        }
    }

    /// The operator as it is written.
    pub fn to_string(&self) -> (s: String)
        ensures
            s@ == self.symbol(),
    {
        proof {
            reveal_strlit("!");
            reveal_strlit("-");
        }
        match self {
            UnaryOperator::Bang => {
                assert("!"@ == seq!['!']);
                String::from_str("!")
            },
            UnaryOperator::Minus => {
                assert("-"@ == seq!['-']);
                String::from_str("-")
            },
        }
    }
}

impl BinaryOperator {
    /// The operator as it is written.
    pub open spec fn symbol(self) -> Seq<char> {
        match self {
            BinaryOperator::Slash => seq!['/'],
            BinaryOperator::Star => seq!['*'],
            BinaryOperator::Plus => seq!['+'],
            BinaryOperator::Minus => seq!['-'],
            BinaryOperator::Greater => seq!['>'],
            BinaryOperator::GreaterEqual => seq!['>', '='],
            BinaryOperator::Less => seq!['<'],
            BinaryOperator::LessEqual => seq!['<', '='],
            BinaryOperator::BangEqual => seq!['!', '='],
            BinaryOperator::EqualEqual => seq!['=', '='],
        }
    }

    /// The operator as it is written.
    pub fn to_string(&self) -> (s: String)
        ensures
            s@ == self.symbol(),
    {
        proof {
            reveal_strlit("/");
            reveal_strlit("*");
            reveal_strlit("+");
            reveal_strlit("-");
            reveal_strlit(">");
            reveal_strlit(">=");
            reveal_strlit("<");
            reveal_strlit("<=");
            reveal_strlit("!=");
            reveal_strlit("==");
        }
        match self {
            BinaryOperator::Slash => {
                assert("/"@ == seq!['/']);
                String::from_str("/")
            },
            BinaryOperator::Star => {
                assert("*"@ == seq!['*']);
                String::from_str("*")
            },
            BinaryOperator::Plus => {
                assert("+"@ == seq!['+']);
                String::from_str("+")
            },
            BinaryOperator::Minus => {
                assert("-"@ == seq!['-']);
                String::from_str("-")
            },
            BinaryOperator::Greater => {
                assert(">"@ == seq!['>']);
                String::from_str(">")
            },
            BinaryOperator::GreaterEqual => {
                assert(">="@ == seq!['>', '=']);
                String::from_str(">=")
            },
            BinaryOperator::Less => {
                assert("<"@ == seq!['<']);
                String::from_str("<")
            },
            BinaryOperator::LessEqual => {
                assert("<="@ == seq!['<', '=']);
                String::from_str("<=")
            },
            BinaryOperator::BangEqual => {
                assert("!="@ == seq!['!', '=']);
                String::from_str("!=")
            },
            BinaryOperator::EqualEqual => {
                assert("=="@ == seq!['=', '=']);
                String::from_str("==")
            },
        }
    }
}

impl LogicalOperator {
    /// The operator as it is written.
    pub open spec fn symbol(self) -> Seq<char> {
        match self {
            LogicalOperator::And => seq!['&', '&'],
            LogicalOperator::Or => seq!['|', '|'],
        }
    }

    /// The operator as it is written.
    pub fn to_string(&self) -> (s: String)
        ensures
            s@ == self.symbol(),
    {
        proof {
            reveal_strlit("&&");
            reveal_strlit("||");
        }
        match self {
            LogicalOperator::And => {
                assert("&&"@ == seq!['&', '&']);
                String::from_str("&&")
            },
            LogicalOperator::Or => {
                assert("||"@ == seq!['|', '|']);
                String::from_str("||")
            },
        }
    }
}

/// What a `use` statement brings in: one path, or a path with further items under it.
#[derive(Debug, PartialEq, Eq)]
pub enum UseItem {
    Simple { path: Vec<WithSpan<String>> },
    Nested { path: Vec<WithSpan<String>>, items: Vec<UseItem> },
}

#[derive(Debug, PartialEq, Eq, Copy, Clone, Structural)]
pub enum Visibility {
    Public,
    Private,
}

/// A parameter of a function.
#[derive(Debug, PartialEq, Eq, Clone)]
pub struct Param {
    pub name: WithSpan<Identifier>,
}

/// A name of several parts, as it is written with `::` between them.
#[derive(Debug, Clone, PartialEq, Eq)]
pub struct HierarchicalName {
    pub parts: Vec<WithSpan<String>>,
}

/// The texts of the parts.
pub open spec fn part_texts(parts: Seq<WithSpan<String>>) -> Seq<Seq<char>> {
    parts.map_values(|p: WithSpan<String>| p.value@)
}

impl HierarchicalName {
    /// The name with the given parts.
    pub fn new(parts: Vec<WithSpan<String>>) -> (name: Self)
        ensures
            name.parts == parts,
    {
        Self { parts }
    }

    /// The parts with `::` between them.
    pub fn to_string(&self) -> (s: String)
        ensures
            s@ == joined(part_texts(self.parts@)),
    {
        let mut values: Vec<String> = Vec::new();
        let mut i: usize = 0;
        while i < self.parts.len()
            invariant
                i <= self.parts.len(),
                texts(values@) == part_texts(self.parts@).take(i as int),
            decreases self.parts.len() - i,
        {
            let ghost before = values@;
            values.push(self.parts[i].value.clone());
            proof {
                assert(texts(values@) == texts(before).push(self.parts@[i as int].value@));
            }
            i += 1;
        }
        proof {
            assert(part_texts(self.parts@).take(self.parts@.len() as int) == part_texts(
                self.parts@,
            ));
        }
        join_path(&values)
    }
}

} // verus!
