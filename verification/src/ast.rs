use vstd::prelude::*;

use crate::functions::ModifierKind;
use crate::location::Location;

verus! {

/// `&&` and `||`.
#[derive(PartialEq, Eq, Structural, Debug, Clone, Copy)]
pub enum LogicalAndOrOperator {
    And,
    Or,
}

/// `<<`, `>>` and `%`.
#[derive(PartialEq, Eq, Structural, Debug, Clone, Copy)]
pub enum ModShiftOperator {
    Left,
    Right,
    Mod,
}

/// Comparison operators.
#[derive(PartialEq, Eq, Structural, Debug, Clone, Copy)]
pub enum CmpOperator {
    Eq,
    Ne,
    Gt,
    Gte,
    Lt,
    Lte,
    ExactEq,
    ExactNe,
}

/// `&`, `|` and `~` (xor).
#[derive(PartialEq, Eq, Structural, Debug, Clone, Copy)]
pub enum AndOrOperator {
    And,
    Or,
    Xor,
}

/// `!`, `-` and `+` in front of an operand.
#[derive(PartialEq, Eq, Structural, Debug, Clone, Copy)]
pub enum UnaryOperator {
    Not,
    Neg,
    Pos,
}

/// `=` and the compound assignments.
#[derive(PartialEq, Eq, Structural, Debug, Clone, Copy)]
pub enum AssignmentOperator {
    Assign,
    Add,
    Sub,
    Mul,
    Div,
    Mod,
    Or,
    And,
    Xor,
    Pow,
}

/// A node of the syntax tree with where it stands in the source.
pub struct LocatedAst {
    pub ast: Ast,
    pub location: Location,
}

/// The syntax tree of EEL2 code.
#[allow(inconsistent_fields)]
pub enum Ast {
    Program(Box<LocatedAst>),
    Fun {
        identifier: Box<LocatedAst>,
        modifiers: Option<Vec<LocatedAst>>,
        body: Box<LocatedAst>,
        args: Option<Vec<LocatedAst>>,
        commas: Option<Box<LocatedAst>>,
        parens: bool,
        uuid: u128,
    },
    FunMod {
        kind: ModifierKind,
        args: Option<Vec<LocatedAst>>,
        commas: Option<Box<LocatedAst>>,
    },
    Identifier {
        value: String,
        is_ref: bool,
    },
    StringIdentifier {
        /// The identifier including the leading '#'
        value: String,
        is_ref: bool,
    },
    Arg {
        identifier: Box<LocatedAst>,
        leading_commas: Option<(usize, Location)>,
        trailing_comma: Option<(usize, Location)>,
    },
    Unnecessary {
        lex: String,
    },
    If {
        condition: Box<LocatedAst>,
        yes: Option<Box<LocatedAst>>,
        no: Option<Box<LocatedAst>>,
    },
    LogicalAndOr {
        operator: LogicalAndOrOperator,
        lhs: Box<LocatedAst>,
        rhs: Box<LocatedAst>,
    },
    ModShift {
        operator: ModShiftOperator,
        lhs: Box<LocatedAst>,
        rhs: Box<LocatedAst>,
    },
    Cmp {
        operator: CmpOperator,
        lhs: Box<LocatedAst>,
        rhs: Box<LocatedAst>,
    },
    AndOr {
        operator: AndOrOperator,
        lhs: Box<LocatedAst>,
        rhs: Box<LocatedAst>,
    },
    Add {
        lhs: Box<LocatedAst>,
        rhs: Box<LocatedAst>,
    },
    Sub {
        lhs: Box<LocatedAst>,
        rhs: Box<LocatedAst>,
    },
    Mul {
        lhs: Box<LocatedAst>,
        rhs: Box<LocatedAst>,
    },
    Div {
        lhs: Box<LocatedAst>,
        rhs: Box<LocatedAst>,
    },
    Pow {
        lhs: Box<LocatedAst>,
        rhs: Box<LocatedAst>,
    },
    Unary {
        operator: UnaryOperator,
        operand: Box<LocatedAst>,
    },
    Number(String),
    Void,
    Assignment {
        operator: AssignmentOperator,
        lhs: Box<LocatedAst>,
        rhs: Box<LocatedAst>,
    },
    String {
        value: String,
        next: Option<Box<LocatedAst>>,
    },
    Compound {
        expressions: Vec<LocatedAst>,
        extra_semicolon: Option<(usize, Location)>,
    },
    While {
        condition: Option<Box<LocatedAst>>,
        body: Option<Box<LocatedAst>>,
    },
    FunCall {
        name: Box<LocatedAst>,
        params: Option<Vec<LocatedAst>>,
        uuid: u128,
    },
    MemoryAccess {
        rvalue: Box<LocatedAst>,
        index: Option<Box<LocatedAst>>,
    },
    Loop {
        count: Box<LocatedAst>,
        body: Box<LocatedAst>,
    },
    CharLit(String),
}

/// The number of nodes in a tree.
pub open spec fn size(n: LocatedAst) -> nat
    decreases n,
{
    1 + (match n.ast {
        Ast::Program(e) => size(*e),
        Ast::Fun { identifier, modifiers, body, args, commas, .. } => size(*identifier) + (match args {
            Some(v) => size_list(v@),
            None => 0,
        }) + (match modifiers {
            Some(v) => size_list(v@),
            None => 0,
        }) + size(*body) + (match commas {
            Some(b) => size(*b),
            None => 0,
        }),
        Ast::FunMod { args, commas, .. } => (match args {
            Some(v) => size_list(v@),
            None => 0,
        }) + (match commas {
            Some(b) => size(*b),
            None => 0,
        }),
        Ast::Arg { identifier, .. } => size(*identifier),
        Ast::If { condition, yes, no } => size(*condition) + (match yes {
            Some(b) => size(*b),
            None => 0,
        }) + (match no {
            Some(b) => size(*b),
            None => 0,
        }),
        Ast::LogicalAndOr { lhs, rhs, .. } => size(*lhs) + size(*rhs),
        Ast::ModShift { lhs, rhs, .. } => size(*lhs) + size(*rhs),
        Ast::Cmp { lhs, rhs, .. } => size(*lhs) + size(*rhs),
        Ast::AndOr { lhs, rhs, .. } => size(*lhs) + size(*rhs),
        Ast::Add { lhs, rhs } => size(*lhs) + size(*rhs),
        Ast::Sub { lhs, rhs } => size(*lhs) + size(*rhs),
        Ast::Mul { lhs, rhs } => size(*lhs) + size(*rhs),
        Ast::Div { lhs, rhs } => size(*lhs) + size(*rhs),
        Ast::Pow { lhs, rhs } => size(*lhs) + size(*rhs),
        Ast::Assignment { lhs, rhs, .. } => size(*lhs) + size(*rhs),
        Ast::Unary { operand, .. } => size(*operand),
        Ast::String { next, .. } => (match next {
            Some(b) => size(*b),
            None => 0,
        }),
        Ast::Compound { expressions, .. } => size_list(expressions@),
        Ast::While { condition, body } => (match condition {
            Some(b) => size(*b),
            None => 0,
        }) + (match body {
            Some(b) => size(*b),
            None => 0,
        }),
        Ast::FunCall { name, params, .. } => size(*name) + (match params {
            Some(v) => size_list(v@),
            None => 0,
        }),
        Ast::MemoryAccess { rvalue, index } => size(*rvalue) + (match index {
            Some(b) => size(*b),
            None => 0,
        }),
        Ast::Loop { count, body } => size(*count) + size(*body),
        _ => 0,
    })
}

/// The number of nodes in a list of trees.
pub open spec fn size_list(s: Seq<LocatedAst>) -> nat
    decreases s,
{
    if s.len() == 0 {
        0
    } else {
        size(s[0]) + size_list(s.subrange(1, s.len() as int))
    }
}

} // verus!

verus! {

/// The tree held by an optional box, as a list of zero or one tree.
pub open spec fn opt_box(o: Option<Box<LocatedAst>>) -> Seq<LocatedAst> {
    match o {
        Some(b) => seq![*b],
        None => Seq::empty(),
    }
}

/// The trees held by an optional vector.
pub open spec fn opt_vec(o: Option<Vec<LocatedAst>>) -> Seq<LocatedAst> {
    match o {
        Some(v) => v@,
        None => Seq::empty(),
    }
}

/// The children of a node, in the order an interpreter visits them.
pub open spec fn children(n: LocatedAst) -> Seq<LocatedAst> {
    match n.ast {
        Ast::Program(e) => seq![*e],
        Ast::Fun { identifier, modifiers, body, args, .. } => seq![*identifier] + opt_vec(args)
            + opt_vec(modifiers) + seq![*body],
        Ast::FunMod { args, commas, .. } => opt_vec(args) + opt_box(commas),
        Ast::Arg { identifier, .. } => seq![*identifier],
        Ast::If { condition, yes, no } => seq![*condition] + opt_box(yes) + opt_box(no),
        Ast::LogicalAndOr { lhs, rhs, .. } => seq![*lhs, *rhs],
        Ast::ModShift { lhs, rhs, .. } => seq![*lhs, *rhs],
        Ast::Cmp { lhs, rhs, .. } => seq![*lhs, *rhs],
        Ast::AndOr { lhs, rhs, .. } => seq![*lhs, *rhs],
        Ast::Add { lhs, rhs } => seq![*lhs, *rhs],
        Ast::Sub { lhs, rhs } => seq![*lhs, *rhs],
        Ast::Mul { lhs, rhs } => seq![*lhs, *rhs],
        Ast::Div { lhs, rhs } => seq![*lhs, *rhs],
        Ast::Pow { lhs, rhs } => seq![*lhs, *rhs],
        Ast::Assignment { lhs, rhs, .. } => seq![*lhs, *rhs],
        Ast::Unary { operand, .. } => seq![*operand],
        Ast::String { next, .. } => opt_box(next),
        Ast::Compound { expressions, .. } => expressions@,
        Ast::While { condition, body } => opt_box(condition) + opt_box(body),
        Ast::FunCall { name, params, .. } => seq![*name] + opt_vec(params),
        Ast::MemoryAccess { rvalue, index } => seq![*rvalue] + opt_box(index),
        Ast::Loop { count, body } => seq![*count, *body],
        _ => Seq::empty(),
    }
}

pub proof fn lemma_size_list_concat(a: Seq<LocatedAst>, b: Seq<LocatedAst>)
    ensures
        size_list(a + b) == size_list(a) + size_list(b),
    decreases a.len(),
{
    if a.len() == 0 {
        assert(a + b =~= b);
    } else {
        assert((a + b).subrange(1, (a + b).len() as int) =~= a.subrange(1, a.len() as int) + b);
        lemma_size_list_concat(a.subrange(1, a.len() as int), b);
    }
}

pub proof fn lemma_size_list_one(x: LocatedAst)
    ensures
        size_list(seq![x]) == size(x),
{
    assert(seq![x].subrange(1, 1) =~= Seq::<LocatedAst>::empty());
    assert(size_list(Seq::<LocatedAst>::empty()) == 0);
    assert(size_list(seq![x]) == size(x) + size_list(seq![x].subrange(1, 1)));
}

pub proof fn lemma_size_positive(n: LocatedAst)
    ensures
        size(n) >= 1,
{
}

/// The children of a node hold fewer nodes than the node.
pub proof fn lemma_children_smaller(n: LocatedAst)
    ensures
        size_list(children(n)) < size(n),
{
    let e = Seq::<LocatedAst>::empty();
    match n.ast {
        Ast::Program(x) => { lemma_size_list_one(*x); },
        Ast::Fun { identifier, modifiers, body, args, .. } => {
            lemma_size_list_one(*identifier);
            lemma_size_list_one(*body);
            lemma_size_list_concat(seq![*identifier], opt_vec(args));
            lemma_size_list_concat(seq![*identifier] + opt_vec(args), opt_vec(modifiers));
            lemma_size_list_concat(seq![*identifier] + opt_vec(args) + opt_vec(modifiers), seq![*body]);
            assert(size_list(e) == 0);
        },
        Ast::FunMod { args, commas, .. } => {
            lemma_size_list_concat(opt_vec(args), opt_box(commas));
            if let Some(b) = commas { lemma_size_list_one(*b); }
            assert(size_list(e) == 0);
        },
        Ast::Arg { identifier, .. } => { lemma_size_list_one(*identifier); },
        Ast::If { condition, yes, no } => {
            lemma_size_list_one(*condition);
            if let Some(b) = yes { lemma_size_list_one(*b); }
            if let Some(b) = no { lemma_size_list_one(*b); }
            lemma_size_list_concat(seq![*condition], opt_box(yes));
            lemma_size_list_concat(seq![*condition] + opt_box(yes), opt_box(no));
            assert(size_list(e) == 0);
        },
        Ast::LogicalAndOr { lhs, rhs, .. } => { lemma_pair(*lhs, *rhs); },
        Ast::ModShift { lhs, rhs, .. } => { lemma_pair(*lhs, *rhs); },
        Ast::Cmp { lhs, rhs, .. } => { lemma_pair(*lhs, *rhs); },
        Ast::AndOr { lhs, rhs, .. } => { lemma_pair(*lhs, *rhs); },
        Ast::Add { lhs, rhs } => { lemma_pair(*lhs, *rhs); },
        Ast::Sub { lhs, rhs } => { lemma_pair(*lhs, *rhs); },
        Ast::Mul { lhs, rhs } => { lemma_pair(*lhs, *rhs); },
        Ast::Div { lhs, rhs } => { lemma_pair(*lhs, *rhs); },
        Ast::Pow { lhs, rhs } => { lemma_pair(*lhs, *rhs); },
        Ast::Assignment { lhs, rhs, .. } => { lemma_pair(*lhs, *rhs); },
        Ast::Unary { operand, .. } => { lemma_size_list_one(*operand); },
        Ast::String { next, .. } => {
            if let Some(b) = next { lemma_size_list_one(*b); }
            assert(size_list(e) == 0);
        },
        Ast::Compound { .. } => {},
        Ast::While { condition, body } => {
            if let Some(b) = condition { lemma_size_list_one(*b); }
            if let Some(b) = body { lemma_size_list_one(*b); }
            lemma_size_list_concat(opt_box(condition), opt_box(body));
            assert(size_list(e) == 0);
        },
        Ast::FunCall { name, params, .. } => {
            lemma_size_list_one(*name);
            lemma_size_list_concat(seq![*name], opt_vec(params));
            assert(size_list(e) == 0);
        },
        Ast::MemoryAccess { rvalue, index } => {
            lemma_size_list_one(*rvalue);
            if let Some(b) = index { lemma_size_list_one(*b); }
            lemma_size_list_concat(seq![*rvalue], opt_box(index));
            assert(size_list(e) == 0);
        },
        Ast::Loop { count, body } => { lemma_pair(*count, *body); },
        _ => { assert(size_list(e) == 0); },
    }
}

proof fn lemma_pair(a: LocatedAst, b: LocatedAst)
    ensures
        size_list(seq![a, b]) == size(a) + size(b),
{
    assert(seq![a, b] =~= seq![a] + seq![b]);
    lemma_size_list_concat(seq![a], seq![b]);
    lemma_size_list_one(a);
    lemma_size_list_one(b);
}

/// A step of a walk through a tree: entering or leaving a node.
pub enum SpecSignal {
    Enter(LocatedAst),
    Exit(LocatedAst),
}

/// What entering `n` gives: `n` itself, then, for each child, the walk of the child
/// followed by leaving the child.
pub open spec fn walk(n: LocatedAst) -> Seq<SpecSignal>
    decreases size(n), 0nat,
{
    proof {
        lemma_children_smaller(n);
    }
    seq![SpecSignal::Enter(n)] + walk_list(children(n))
}

/// The walk of each tree of `s`, each followed by leaving that tree.
pub open spec fn walk_list(s: Seq<LocatedAst>) -> Seq<SpecSignal>
    decreases size_list(s), 1nat,
{
    if s.len() == 0 {
        Seq::empty()
    } else {
        proof {
            lemma_size_positive(s[0]);
        }
        walk(s[0]) + seq![SpecSignal::Exit(s[0])] + walk_list(s.subrange(1, s.len() as int))
    }
}

} // verus!

verus! {

/// The name of an identifier node (plain or string identifier).
pub open spec fn identifier_of(a: Ast) -> Option<Seq<char>> {
    match a {
        Ast::Identifier { value, .. } => Some(value@),
        Ast::StringIdentifier { value, .. } => Some(value@),
        _ => None,
    }
}

/// The text of a chain of string literals starting at `a`: the values of the string
/// nodes linked by `next`, up to the first node that is not a string.
pub open spec fn string_chain(a: Ast) -> Seq<char>
    decreases a,
{
    match a {
        Ast::String { value, next } => value@ + match next {
            Some(n) => if n.ast is String {
                string_chain(n.ast)
            } else {
                Seq::empty()
            },
            None => Seq::empty(),
        },
        _ => Seq::empty(),
    }
}

/// The word that names a node's kind when it is shown.
pub open spec fn kind_word(a: Ast) -> Seq<char> {
    match a {
        Ast::Program(_) => "Program"@,
        Ast::Fun { .. } => "Fn"@,
        Ast::FunMod { .. } => "FnMod"@,
        Ast::Identifier { .. } => "Identifier"@,
        Ast::StringIdentifier { .. } => "StringIdentifier"@,
        Ast::Arg { .. } => "Arg"@,
        Ast::Unnecessary { .. } => "Unnecessary"@,
        Ast::If { .. } => "If"@,
        Ast::LogicalAndOr { .. } => "LogicalAndOr"@,
        Ast::ModShift { .. } => "ModShift"@,
        Ast::Cmp { .. } => "Cmp"@,
        Ast::AndOr { .. } => "AndOr"@,
        Ast::Add { .. } => "Add"@,
        Ast::Sub { .. } => "Sub"@,
        Ast::Mul { .. } => "Mul"@,
        Ast::Div { .. } => "Div"@,
        Ast::Pow { .. } => "Pow"@,
        Ast::Unary { .. } => "Unary"@,
        Ast::Number(_) => "Number"@,
        Ast::Void => "Void"@,
        Ast::Assignment { .. } => "Assignment"@,
        Ast::String { .. } => "String"@,
        Ast::Compound { .. } => "Compound"@,
        Ast::While { .. } => "While"@,
        Ast::FunCall { .. } => "FnCall"@,
        Ast::MemoryAccess { .. } => "MemoryAccess"@,
        Ast::Loop { .. } => "Loop"@,
        Ast::CharLit(_) => "CharLit"@,
    }
}

/// How a node is shown: its kind, followed for a function or an argument by its name,
/// for a modifier by its kind, for an identifier by its name (and `*` for a reference).
pub open spec fn describe_spec(a: Ast) -> Seq<char> {
    match a {
        Ast::Fun { identifier, .. } => "Fn "@ + match identifier_of(identifier.ast) {
            Some(n) => n,
            None => Seq::empty(),
        },
        Ast::Arg { identifier, .. } => "Arg "@ + match identifier_of(identifier.ast) {
            Some(n) => n,
            None => Seq::empty(),
        },
        Ast::FunMod { kind, .. } => "FnMod "@ + crate::functions::modifier_name(kind),
        Ast::Identifier { value, is_ref } => "Identifier "@ + value@ + if is_ref {
            "*"@
        } else {
            Seq::empty()
        },
        Ast::StringIdentifier { value, is_ref } => "StringIdentifier "@ + value@ + if is_ref {
            "*"@
        } else {
            Seq::empty()
        },
        _ => kind_word(a),
    }
}

impl Ast {
    /// The name of an identifier node (plain or string identifier).
    pub fn identifier(&self) -> (r: Option<&String>)
        ensures
            match identifier_of(*self) {
                Some(n) => r matches Some(x) && x@ == n,
                None => r is None,
            },
    {
        match self {
            Ast::Identifier { value, .. } => Some(value),
            Ast::StringIdentifier { value, .. } => Some(value),
            _ => None,
        }
    }

    /// The text of a chain of string literals (see `string_chain`).
    pub fn get_entire_string(&self) -> (r: String)
        requires
            *self is String,
        ensures
            r@ == string_chain(*self),
        decreases *self,
    {
        match self {
            Ast::String { value, next } => {
                let mut ret = value.clone();
                match next {
                    Some(n) => {
                        if let Ast::String { .. } = &n.ast {
                            let rest = n.ast.get_entire_string();
                            ret.append(rest.as_str());
                        }
                    },
                    None => {},
                }
                ret
            },
            _ => String::new(),
        }
    }

    /// How the node is shown (see `describe_spec`).
    pub fn describe(&self) -> (r: String)
        ensures
            r@ == describe_spec(*self),
    {
        match self {
            Ast::Fun { identifier, .. } => {
                let mut s = String::from_str("Fn ");
                if let Some(n) = identifier.ast.identifier() {
                    s.append(n.as_str());
                }
                s
            },
            Ast::Arg { identifier, .. } => {
                let mut s = String::from_str("Arg ");
                if let Some(n) = identifier.ast.identifier() {
                    s.append(n.as_str());
                }
                s
            },
            Ast::FunMod { kind, .. } => {
                let mut s = String::from_str("FnMod ");
                s.append(kind.name());
                s
            },
            Ast::Identifier { value, is_ref } => {
                let mut s = String::from_str("Identifier ");
                s.append(value.as_str());
                if *is_ref {
                    s.append("*");
                }
                s
            },
            Ast::StringIdentifier { value, is_ref } => {
                let mut s = String::from_str("StringIdentifier ");
                s.append(value.as_str());
                if *is_ref {
                    s.append("*");
                }
                s
            },
            Ast::Program(_) => String::from_str("Program"),
            Ast::Unnecessary { .. } => String::from_str("Unnecessary"),
            Ast::If { .. } => String::from_str("If"),
            Ast::LogicalAndOr { .. } => String::from_str("LogicalAndOr"),
            Ast::ModShift { .. } => String::from_str("ModShift"),
            Ast::Cmp { .. } => String::from_str("Cmp"),
            Ast::AndOr { .. } => String::from_str("AndOr"),
            Ast::Add { .. } => String::from_str("Add"),
            Ast::Sub { .. } => String::from_str("Sub"),
            Ast::Mul { .. } => String::from_str("Mul"),
            Ast::Div { .. } => String::from_str("Div"),
            Ast::Pow { .. } => String::from_str("Pow"),
            Ast::Unary { .. } => String::from_str("Unary"),
            Ast::Number(_) => String::from_str("Number"),
            Ast::Void => String::from_str("Void"),
            Ast::Assignment { .. } => String::from_str("Assignment"),
            Ast::String { .. } => String::from_str("String"),
            Ast::Compound { .. } => String::from_str("Compound"),
            Ast::While { .. } => String::from_str("While"),
            Ast::FunCall { .. } => String::from_str("FnCall"),
            Ast::MemoryAccess { .. } => String::from_str("MemoryAccess"),
            Ast::Loop { .. } => String::from_str("Loop"),
            Ast::CharLit(_) => String::from_str("CharLit"),
        }
    }
}

} // verus!
