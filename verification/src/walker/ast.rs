//! The syntax tree.
use crate::shared::scanner::{Lexeme, Token};
use crate::shared::text::{join, joined, texts_of};
use vstd::prelude::*;

verus! {

/// An expression.
///
/// The three kinds that refer to a variable carry an `id` that tells one such
/// expression of a program from every other: the depth table is keyed by it.
#[derive(Debug, PartialEq, Eq)]
#[allow(inconsistent_fields)]
pub enum Expr {
    Assign { id: usize, name: Token, value: Box<Expr> },
    Binary { left: Box<Expr>, op: Token, right: Box<Expr> },
    Call { callee: Box<Expr>, args: Vec<Expr> },
    Get { object: Box<Expr>, name: Token },
    Unary { op: Token, right: Box<Expr> },
    Grouping { expr: Box<Expr> },
    Literal { value: Token },
    Logical { left: Box<Expr>, op: Token, right: Box<Expr> },
    SetProperty { object: Box<Expr>, name: Token, value: Box<Expr> },
    This { id: usize, keyword: Token },
    Variable { id: usize, name: Token },
}

/// A statement.
///
/// A function or class declaration carries an `id` that tells it from every
/// other declaration of the program.
#[derive(Debug, PartialEq, Eq)]
#[allow(inconsistent_fields)]
pub enum Stmt {
    Block { stmts: Vec<Stmt> },
    Break,
    Class { id: usize, name: Token, methods: Vec<Stmt> },
    Expression { expr: Box<Expr> },
    Function { id: usize, name: Token, params: Vec<Token>, body: Vec<Stmt> },
    If { condition: Box<Expr>, then_branch: Box<Stmt>, els: Option<Box<Stmt>> },
    Print { expr: Box<Expr> },
    Return { value: Option<Box<Expr>> },
    Var { name: Token, initializer: Option<Box<Expr>> },
    While { condition: Box<Expr>, body: Box<Stmt> },
}

/// An expression as a tree of values: its tokens are texts, its lists are
/// sequences.
#[allow(inconsistent_fields)]
pub enum Expression {
    Assign { id: usize, name: Lexeme, value: Box<Expression> },
    Binary { left: Box<Expression>, op: Lexeme, right: Box<Expression> },
    Call { callee: Box<Expression>, args: Seq<Expression> },
    Get { object: Box<Expression>, name: Lexeme },
    Unary { op: Lexeme, right: Box<Expression> },
    Grouping { expr: Box<Expression> },
    Literal { value: Lexeme },
    Logical { left: Box<Expression>, op: Lexeme, right: Box<Expression> },
    SetProperty { object: Box<Expression>, name: Lexeme, value: Box<Expression> },
    This { id: usize, keyword: Lexeme },
    Variable { id: usize, name: Lexeme },
}

/// A statement as a tree of values.
#[allow(inconsistent_fields)]
pub enum Statement {
    Block { stmts: Seq<Statement> },
    Break,
    Class { id: usize, name: Lexeme, methods: Seq<Statement> },
    Expression { expr: Expression },
    Function { id: usize, name: Lexeme, params: Seq<Lexeme>, body: Seq<Statement> },
    If { condition: Expression, then_branch: Box<Statement>, els: Option<Box<Statement>> },
    Print { expr: Expression },
    Return { value: Option<Expression> },
    Var { name: Lexeme, initializer: Option<Expression> },
    While { condition: Expression, body: Box<Statement> },
}

/// The expression as a tree of values.
pub open spec fn expression_of(e: Expr) -> Expression
    decreases e,
{
    match e {
        Expr::Assign { id, name, value } => Expression::Assign {
            id,
            name: name@,
            value: Box::new(expression_of(*value)),
        },
        Expr::Binary { left, op, right } => Expression::Binary {
            left: Box::new(expression_of(*left)),
            op: op@,
            right: Box::new(expression_of(*right)),
        },
        Expr::Call { callee, args } => Expression::Call {
            callee: Box::new(expression_of(*callee)),
            args: Seq::new(
                args@.len(),
                |i: int|
                    if 0 <= i < args@.len() {
                        expression_of(args@[i])
                    } else {
                        arbitrary()
                    },
            ),
        },
        Expr::Get { object, name } => Expression::Get {
            object: Box::new(expression_of(*object)),
            name: name@,
        },
        Expr::Unary { op, right } => Expression::Unary {
            op: op@,
            right: Box::new(expression_of(*right)),
        },
        Expr::Grouping { expr } => Expression::Grouping { expr: Box::new(expression_of(*expr)) },
        Expr::Literal { value } => Expression::Literal { value: value@ },
        Expr::Logical { left, op, right } => Expression::Logical {
            left: Box::new(expression_of(*left)),
            op: op@,
            right: Box::new(expression_of(*right)),
        },
        Expr::SetProperty { object, name, value } => Expression::SetProperty {
            object: Box::new(expression_of(*object)),
            name: name@,
            value: Box::new(expression_of(*value)),
        },
        Expr::This { id, keyword } => Expression::This { id, keyword: keyword@ },
        Expr::Variable { id, name } => Expression::Variable { id, name: name@ },
    }
}

impl View for Expr {
    type V = Expression;

    open spec fn view(&self) -> Expression {
        expression_of(*self)
    }
}

/// The expression, if there is one, as a tree of values.
pub open spec fn optional_expression(e: Option<Box<Expr>>) -> Option<Expression> {
    match e {
        Some(e) => Some(expression_of(*e)),
        None => None,
    }
}

/// The tokens with their texts as sequences of characters.
pub open spec fn lexemes_of(tokens: Seq<Token>) -> Seq<Lexeme> {
    Seq::new(tokens.len(), |i: int| tokens[i]@)
}

/// The statement as a tree of values.
pub open spec fn statement_of(s: Stmt) -> Statement
    decreases s,
{
    match s {
        Stmt::Block { stmts } => Statement::Block {
            stmts: Seq::new(
                stmts@.len(),
                |i: int|
                    if 0 <= i < stmts@.len() {
                        statement_of(stmts@[i])
                    } else {
                        arbitrary()
                    },
            ),
        },
        Stmt::Break => Statement::Break,
        Stmt::Class { id, name, methods } => Statement::Class {
            id,
            name: name@,
            methods: Seq::new(
                methods@.len(),
                |i: int|
                    if 0 <= i < methods@.len() {
                        statement_of(methods@[i])
                    } else {
                        arbitrary()
                    },
            ),
        },
        Stmt::Expression { expr } => Statement::Expression { expr: expression_of(*expr) },
        Stmt::Function { id, name, params, body } => Statement::Function {
            id,
            name: name@,
            params: lexemes_of(params@),
            body: Seq::new(
                body@.len(),
                |i: int|
                    if 0 <= i < body@.len() {
                        statement_of(body@[i])
                    } else {
                        arbitrary()
                    },
            ),
        },
        Stmt::If { condition, then_branch, els } => Statement::If {
            condition: expression_of(*condition),
            then_branch: Box::new(statement_of(*then_branch)),
            els: match els {
                Some(e) => Some(Box::new(statement_of(*e))),
                None => None,
            },
        },
        Stmt::Print { expr } => Statement::Print { expr: expression_of(*expr) },
        Stmt::Return { value } => Statement::Return { value: optional_expression(value) },
        Stmt::Var { name, initializer } => Statement::Var {
            name: name@,
            initializer: optional_expression(initializer),
        },
        Stmt::While { condition, body } => Statement::While {
            condition: expression_of(*condition),
            body: Box::new(statement_of(*body)),
        },
    }
}

impl View for Stmt {
    type V = Statement;

    open spec fn view(&self) -> Statement {
        statement_of(*self)
    }
}

/// The expressions as trees of values.
pub open spec fn expressions_of(es: Seq<Expr>) -> Seq<Expression> {
    Seq::new(es.len(), |i: int| es[i]@)
}

/// The statements as trees of values.
pub open spec fn statements_of(ss: Seq<Stmt>) -> Seq<Statement> {
    Seq::new(ss.len(), |i: int| ss[i]@)
}

/// The tree of a call holds the trees of its arguments.
pub proof fn lemma_call_view(callee: Box<Expr>, args: Vec<Expr>)
    ensures
        (Expr::Call { callee, args })@ == (Expression::Call {
            callee: Box::new(callee@),
            args: expressions_of(args@),
        }),
{
    let whole = Expr::Call { callee, args };
    assert(whole@->Call_args =~= expressions_of(args@));
}

/// The tree of a block holds the trees of its statements.
pub proof fn lemma_block_view(stmts: Vec<Stmt>)
    ensures
        (Stmt::Block { stmts })@ == (Statement::Block { stmts: statements_of(stmts@) }),
{
    let whole = Stmt::Block { stmts };
    assert(whole@->Block_stmts =~= statements_of(stmts@));
}

/// The tree of a function holds the texts of its parameters and the trees of
/// its body.
pub proof fn lemma_function_view(id: usize, name: Token, params: Vec<Token>, body: Vec<Stmt>)
    ensures
        (Stmt::Function { id, name, params, body })@ == (Statement::Function {
            id,
            name: name@,
            params: lexemes_of(params@),
            body: statements_of(body@),
        }),
{
    let whole = Stmt::Function { id, name, params, body };
    assert(whole@->Function_body =~= statements_of(body@));
}

/// The tree of a class holds the trees of its methods.
pub proof fn lemma_class_view(id: usize, name: Token, methods: Vec<Stmt>)
    ensures
        (Stmt::Class { id, name, methods })@ == (Statement::Class {
            id,
            name: name@,
            methods: statements_of(methods@),
        }),
{
    let whole = Stmt::Class { id, name, methods };
    assert(whole@->Class_methods =~= statements_of(methods@));
}

impl Expression {
    /// The expression written out, each operation in parentheses before its
    /// operands.
    pub open spec fn text(self) -> Seq<char>
        decreases self,
    {
        match self {
            Expression::Assign { name, value, .. } => "(assign "@ + name.text + " "@ + value.text()
                + ")"@,
            Expression::Binary { left, op, right } => "("@ + op.text + " "@ + left.text() + " "@
                + right.text() + ")"@,
            Expression::Call { callee, args } => "("@ + callee.text() + " "@ + joined(
                expression_texts(args),
                ", "@,
            ) + ")"@,
            Expression::Get { object, name } => "(get "@ + object.text() + " "@ + name.text + ")"@,
            Expression::Unary { op, right } => "("@ + op.text + " "@ + right.text() + ")"@,
            Expression::Grouping { expr } => "(grouping "@ + expr.text() + ")"@,
            Expression::Literal { value } => value.text,
            Expression::Logical { left, op, right } => "("@ + op.text + " "@ + left.text() + " "@
                + right.text() + ")"@,
            Expression::SetProperty { object, name, value } => "(set "@ + object.text() + " "@
                + name.text + " "@ + value.text() + ")"@,
            Expression::This { .. } => "this"@,
            Expression::Variable { name, .. } => name.text,
        }
    }
}

/// The expressions written out.
pub open spec fn expression_texts(es: Seq<Expression>) -> Seq<Seq<char>>
    decreases es,
{
    Seq::new(
        es.len(),
        |i: int|
            if 0 <= i < es.len() {
                es[i].text()
            } else {
                arbitrary()
            },
    )
}

/// The statements written out.
pub open spec fn statement_texts(ss: Seq<Statement>) -> Seq<Seq<char>>
    decreases ss,
{
    Seq::new(
        ss.len(),
        |i: int|
            if 0 <= i < ss.len() {
                ss[i].text()
            } else {
                arbitrary()
            },
    )
}

/// The names of the tokens.
pub open spec fn names(tokens: Seq<Lexeme>) -> Seq<Seq<char>> {
    Seq::new(tokens.len(), |i: int| tokens[i].text)
}

/// The names of the methods, each in parentheses. What is no function among
/// them has no name.
pub open spec fn method_names(ms: Seq<Statement>) -> Seq<Seq<char>> {
    Seq::new(
        ms.len(),
        |i: int|
            "("@ + (match ms[i] {
                Statement::Function { name, .. } => name.text,
                _ => Seq::empty(),
            }) + ")"@,
    )
}

impl Statement {
    /// The statement written out, its kind in parentheses before its parts.
    pub open spec fn text(self) -> Seq<char>
        decreases self,
    {
        match self {
            Statement::Block { stmts } => "(block "@ + joined(statement_texts(stmts), " "@)
                + ")"@,
            Statement::Break => "(break)"@,
            Statement::Class { name, methods, .. } => "(class "@ + name.text + " "@ + joined(
                method_names(methods),
                " "@,
            ) + ")"@,
            Statement::Expression { expr } => "(expression "@ + expr.text() + ")"@,
            Statement::Function { name, params, body, .. } => "(function "@ + name.text + " ("@
                + joined(names(params), " "@) + ") ("@ + joined(statement_texts(body), " "@)
                + "))"@,
            Statement::If { condition, then_branch, els } => match els {
                Some(e) => "(if "@ + condition.text() + " then "@ + then_branch.text() + " else "@
                    + e.text() + ")"@,
                None => "(if "@ + condition.text() + " then "@ + then_branch.text() + ")"@,
            },
            Statement::Print { expr } => "(print "@ + expr.text() + ")"@,
            Statement::Return { value } => match value {
                Some(v) => "(return "@ + v.text() + ")"@,
                None => "(return)"@,
            },
            Statement::Var { name, initializer } => match initializer {
                Some(i) => "(var "@ + name.text + " "@ + i.text() + ")"@,
                None => "(var "@ + name.text + ")"@,
            },
            Statement::While { condition, body } => "(while "@ + condition.text() + " "@
                + body.text() + ")"@,
        }
    }
}

fn three(a: &str, b: &str, c: &str) -> (r: String)
    ensures
        r@ == a@ + b@ + c@,
{
    let mut out = String::from_str(a);
    out.append(b);
    out.append(c);
    out
}

impl Expr {
    /// The expression written out, each operation in parentheses before its
    /// operands.
    pub fn to_string(&self) -> (r: String)
        ensures
            r@ == self@.text(),
        decreases self,
    {
        match self {
            Expr::Assign { name, value, .. } => {
                let mut out = three("(assign ", name.lexeme.as_str(), " ");
                out.append(value.to_string().as_str());
                out.append(")");
                out
            },
            Expr::Binary { left, op, right } => {
                let mut out = three("(", op.lexeme.as_str(), " ");
                out.append(left.to_string().as_str());
                out.append(" ");
                out.append(right.to_string().as_str());
                out.append(")");
                out
            },
            Expr::Call { callee, args } => {
                let mut parts: Vec<String> = Vec::new();
                let mut i: usize = 0;
                while i < args.len()
                    invariant
                        i <= args.len(),
                        decreases_to!(self => args),
                        texts_of(parts@) == expression_texts(expressions_of(args@)).take(i as int),
                    decreases args.len() - i,
                {
                    let ghost before = texts_of(parts@);
                    let part = args[i].to_string();
                    parts.push(part);
                    i += 1;
                    assert(texts_of(parts@) =~= before.push(part@));
                    assert(texts_of(parts@) =~= expression_texts(expressions_of(args@)).take(
                        i as int,
                    ));
                }
                proof {
                    lemma_call_view(*callee, *args);
                    let all = expression_texts(expressions_of(args@));
                    assert(all.take(args@.len() as int) =~= all);
                }
                let mut out = three("(", callee.to_string().as_str(), " ");
                out.append(join(&parts, ", ").as_str());
                out.append(")");
                out
            },
            Expr::Get { object, name } => {
                let mut out = three("(get ", object.to_string().as_str(), " ");
                out.append(name.lexeme.as_str());
                out.append(")");
                out
            },
            Expr::Unary { op, right } => {
                let mut out = three("(", op.lexeme.as_str(), " ");
                out.append(right.to_string().as_str());
                out.append(")");
                out
            },
            Expr::Grouping { expr } => three("(grouping ", expr.to_string().as_str(), ")"),
            Expr::Literal { value } => value.lexeme.clone(),
            Expr::Logical { left, op, right } => {
                let mut out = three("(", op.lexeme.as_str(), " ");
                out.append(left.to_string().as_str());
                out.append(" ");
                out.append(right.to_string().as_str());
                out.append(")");
                out
            },
            Expr::SetProperty { object, name, value } => {
                let mut out = three("(set ", object.to_string().as_str(), " ");
                out.append(name.lexeme.as_str());
                out.append(" ");
                out.append(value.to_string().as_str());
                out.append(")");
                out
            },
            Expr::This { .. } => String::from_str("this"),
            Expr::Variable { name, .. } => name.lexeme.clone(),
        }
    }
}

/// The expression written out, each operation in parentheses before its
/// operands.
pub fn format_ast(expression: &Expr) -> (r: String)
    ensures
        r@ == expression@.text(),
{
    expression.to_string()
}

fn written(stmts: &Vec<Stmt>) -> (r: Vec<String>)
    ensures
        texts_of(r@) == statement_texts(statements_of(stmts@)),
    decreases stmts,
{
    let mut parts: Vec<String> = Vec::new();
    let mut i: usize = 0;
    while i < stmts.len()
        invariant
            i <= stmts.len(),
            texts_of(parts@) == statement_texts(statements_of(stmts@)).take(i as int),
        decreases stmts.len() - i,
    {
        let ghost before = texts_of(parts@);
        let part = stmts[i].to_string();
        parts.push(part);
        i += 1;
        assert(texts_of(parts@) =~= before.push(part@));
        assert(texts_of(parts@) =~= statement_texts(statements_of(stmts@)).take(i as int));
    }
    proof {
        let all = statement_texts(statements_of(stmts@));
        assert(all.take(stmts@.len() as int) =~= all);
    }
    parts
}

fn named(tokens: &Vec<Token>) -> (r: Vec<String>)
    ensures
        texts_of(r@) == names(lexemes_of(tokens@)),
{
    let mut parts: Vec<String> = Vec::new();
    let mut i: usize = 0;
    while i < tokens.len()
        invariant
            i <= tokens.len(),
            texts_of(parts@) == names(lexemes_of(tokens@)).take(i as int),
        decreases tokens.len() - i,
    {
        let ghost before = texts_of(parts@);
        let part = tokens[i].lexeme.clone();
        parts.push(part);
        i += 1;
        assert(texts_of(parts@) =~= before.push(part@));
        assert(texts_of(parts@) =~= names(lexemes_of(tokens@)).take(i as int));
    }
    proof {
        let all = names(lexemes_of(tokens@));
        assert(all.take(tokens@.len() as int) =~= all);
    }
    parts
}

fn method_named(methods: &Vec<Stmt>) -> (r: Vec<String>)
    ensures
        texts_of(r@) == method_names(statements_of(methods@)),
{
    let mut parts: Vec<String> = Vec::new();
    let mut i: usize = 0;
    while i < methods.len()
        invariant
            i <= methods.len(),
            texts_of(parts@) == method_names(statements_of(methods@)).take(i as int),
        decreases methods.len() - i,
    {
        let ghost before = texts_of(parts@);
        let part = match &methods[i] {
            Stmt::Function { name, .. } => three("(", name.lexeme.as_str(), ")"),
            _ => {
                assert("("@ + Seq::<char>::empty() + ")"@ =~= "("@ + ")"@);
                let mut out = String::from_str("(");
                out.append(")");
                out
            },
        };
        parts.push(part);
        i += 1;
        assert(texts_of(parts@) =~= before.push(part@));
        assert(texts_of(parts@) =~= method_names(statements_of(methods@)).take(i as int));
    }
    proof {
        let all = method_names(statements_of(methods@));
        assert(all.take(methods@.len() as int) =~= all);
    }
    parts
}

impl Stmt {
    /// The statement written out, its kind in parentheses before its parts.
    pub fn to_string(&self) -> (r: String)
        ensures
            r@ == self@.text(),
        decreases self,
    {
        match self {
            Stmt::Block { stmts } => {
                proof {
                    lemma_block_view(*stmts);
                }
                three("(block ", join(&written(stmts), " ").as_str(), ")")
            },
            Stmt::Break => String::from_str("(break)"),
            Stmt::Class { id, name, methods } => {
                proof {
                    lemma_class_view(*id, *name, *methods);
                }
                let mut out = three("(class ", name.lexeme.as_str(), " ");
                out.append(join(&method_named(methods), " ").as_str());
                out.append(")");
                out
            },
            Stmt::Expression { expr } => three("(expression ", expr.to_string().as_str(), ")"),
            Stmt::Function { id, name, params, body } => {
                proof {
                    lemma_function_view(*id, *name, *params, *body);
                }
                let mut out = three("(function ", name.lexeme.as_str(), " (");
                out.append(join(&named(params), " ").as_str());
                out.append(") (");
                out.append(join(&written(body), " ").as_str());
                out.append("))");
                out
            },
            Stmt::If { condition, then_branch, els } => {
                let mut out = three("(if ", condition.to_string().as_str(), " then ");
                out.append(then_branch.to_string().as_str());
                match els {
                    Some(e) => {
                        out.append(" else ");
                        out.append(e.to_string().as_str());
                    },
                    None => {},
                }
                out.append(")");
                out
            },
            Stmt::Print { expr } => three("(print ", expr.to_string().as_str(), ")"),
            Stmt::Return { value } => match value {
                Some(v) => three("(return ", v.to_string().as_str(), ")"),
                None => String::from_str("(return)"),
            },
            Stmt::Var { name, initializer } => match initializer {
                Some(i) => {
                    let mut out = three("(var ", name.lexeme.as_str(), " ");
                    out.append(i.to_string().as_str());
                    out.append(")");
                    out
                },
                None => three("(var ", name.lexeme.as_str(), ")"),
            },
            Stmt::While { condition, body } => {
                let mut out = three("(while ", condition.to_string().as_str(), " ");
                out.append(body.to_string().as_str());
                out.append(")");
                out
            },
        }
    }
}

} // verus!
