//! The static resolver: one pass over the syntax tree before execution, which
//! finds for every variable reference how many scopes lie between it and the
//! scope that declares the variable.
use crate::shared::scanner::Token;
use crate::shared::table::Table;
use crate::walker::ast::{Expr, Stmt};
use std::collections::HashMap;
use vstd::prelude::*;

verus! {

broadcast use vstd::std_specs::hash::group_hash_axioms;

/// Why a program was refused before execution.
#[derive(Clone, Debug, PartialEq, Eq)]
pub enum ResolutionError {
    Error { msg: String },
}

impl ResolutionError {
    /// The message of the error.
    pub open spec fn text(self) -> Seq<char> {
        match self {
            ResolutionError::Error { msg } => msg@,
        }
    }

    /// The message of the error.
    pub fn to_string(&self) -> (r: String)
        ensures
            r@ == self.text(),
    {
        match self {
            ResolutionError::Error { msg } => msg.clone(),
        }
    }
}

/// The depth table: from the `id` of an expression that refers to a variable
/// to the number of scopes between the expression and the variable's scope.
/// An expression without an entry refers to a global: its name is looked up
/// in the global frame.
pub type Locals = HashMap<usize, usize>;

/// What kind of function body the resolver is in.
#[derive(Clone, Copy, Debug, PartialEq, Eq, Structural)]
pub enum FunctionType {
    Function,
    Method,
}

/// The scopes that are open at a point of the program, outermost first. Each
/// maps the names declared in it to whether they are defined yet.
pub struct ScopeStack(Vec<Table<bool>>);

/// The open scopes as maps, outermost first.
pub type Scopes = Seq<Map<Seq<char>, bool>>;

impl View for ScopeStack {
    type V = Scopes;

    closed spec fn view(&self) -> Scopes {
        Seq::new(self.0.len() as nat, |i: int| self.0[i]@)
    }
}

/// What the innermost scope says of `name`: nothing, declared, or defined.
pub open spec fn innermost_of(scopes: Scopes, name: Seq<char>) -> Option<bool> {
    if scopes.len() > 0 && scopes.last().contains_key(name) {
        Some(scopes.last()[name])
    } else {
        None
    }
}

/// The scopes after `name` is marked in the innermost one.
pub open spec fn mark_scopes(scopes: Scopes, name: Seq<char>, defined: bool) -> Scopes {
    if scopes.len() > 0 {
        scopes.update(scopes.len() - 1, scopes.last().insert(name, defined))
    } else {
        scopes
    }
}

/// The number of scopes to leave, going outward from the innermost, to reach
/// the first one that holds `name`.
pub open spec fn depth_of(scopes: Scopes, name: Seq<char>) -> Option<nat>
    decreases scopes.len(),
{
    if scopes.len() == 0 {
        None
    } else if scopes.last().contains_key(name) {
        Some(0nat)
    } else {
        match depth_of(scopes.drop_last(), name) {
            Some(d) => Some(d + 1),
            None => None,
        }
    }
}

impl ScopeStack {
    /// No scope at all.
    pub fn new() -> (r: Self)
        ensures
            r@ == Scopes::empty(),
    {
        let r = ScopeStack(Vec::new());
        assert(r@ =~= Scopes::empty());
        r
    }

    /// The number of open scopes.
    pub fn len(&self) -> (r: usize)
        ensures
            r == self@.len(),
    {
        self.0.len()
    }

    /// Opens a scope inside the innermost one.
    pub fn push(&mut self)
        ensures
            final(self)@ == old(self)@.push(Map::<Seq<char>, bool>::empty()),
    {
        self.0.push(Table::new());
        assert(self@ =~= old(self)@.push(Map::<Seq<char>, bool>::empty()));
    }

    /// Closes the innermost scope, if there is one.
    pub fn pop(&mut self)
        ensures
            final(self)@ == if old(self)@.len() > 0 {
                old(self)@.drop_last()
            } else {
                old(self)@
            },
    {
        self.0.pop();
        assert(self@ =~= if old(self)@.len() > 0 {
            old(self)@.drop_last()
        } else {
            old(self)@
        });
    }

    /// What the innermost scope says of `name`.
    pub fn innermost(&self, name: &str) -> (r: Option<bool>)
        ensures
            r == innermost_of(self@, name@),
    {
        let n = self.0.len();
        if n == 0 {
            None
        } else {
            self.0[n - 1].get(name)
        }
    }

    /// Marks `name` in the innermost scope as declared or as defined.
    pub fn mark(&mut self, name: String, defined: bool)
        ensures
            final(self)@ == mark_scopes(old(self)@, name@, defined),
    {
        let n = self.0.len();
        if n > 0 {
            self.0[n - 1].insert(name, defined);
            assert(self@ =~= mark_scopes(old(self)@, name@, defined));
        }
    }

    /// The number of scopes between the innermost one and the first that holds
    /// `name`.
    pub fn depth_of(&self, name: &str) -> (r: Option<usize>)
        ensures
            match r {
                Some(d) => depth_of(self@, name@) == Some(d as nat),
                None => depth_of(self@, name@) is None,
            },
    {
        let n = self.0.len();
        let mut k: usize = 0;
        assert(self@.take(n as int) =~= self@);
        while k < n
            invariant
                n == self.0.len(),
                k <= n,
                depth_of(self@, name@) == match depth_of(self@.take(n - k), name@) {
                    Some(d) => Some((d + k) as nat),
                    None => None,
                },
            decreases n - k,
        {
            let ghost inner = self@.take(n - k);
            assert(inner.last() == self.0[n - k - 1]@);
            assert(inner.drop_last() =~= self@.take(n - k - 1));
            if self.0[n - 1 - k].contains_key(name) {
                return Some(k);
            }
            k += 1;
        }
        assert(self@.take(0).len() == 0);
        None
    }
}

/// What the resolver knows at a point of its pass.
pub struct ResolverView {
    /// The open scopes, outermost first; the first is the global scope.
    pub scopes: Scopes,
    /// The depth table so far.
    pub locals: Map<usize, usize>,
    /// The kind of function body the pass is in, if it is in one.
    pub function: Option<FunctionType>,
}

/// The message for a second declaration of `name` in one scope.
pub open spec fn already_defined(name: Seq<char>) -> Seq<char> {
    "Variable "@ + name + " was already defined in this scope"@
}

/// The message for a variable read in its own initializer.
pub open spec fn own_initializer() -> Seq<char> {
    "Cannot read local variable in its own initializer"@
}

/// The message for a `return` outside every function.
pub open spec fn return_outside() -> Seq<char> {
    "Cannot return from global scope"@
}

/// Whether the innermost scope is a block or a body, not the global scope.
pub open spec fn in_local_scope(st: ResolverView) -> bool {
    st.scopes.len() > 1
}

/// Declares `name` in the innermost scope: it is there, and not yet defined.
/// In a block or a body a name can be declared only once; in the global
/// scope a later declaration takes the place of an earlier one.
pub open spec fn declare(st: ResolverView, name: Seq<char>) -> Result<ResolverView, Seq<char>> {
    if in_local_scope(st) && innermost_of(st.scopes, name) is Some {
        Err(already_defined(name))
    } else {
        Ok(ResolverView { scopes: mark_scopes(st.scopes, name, false), ..st })
    }
}

/// Marks `name` as defined in the innermost scope.
pub open spec fn define(st: ResolverView, name: Seq<char>) -> ResolverView {
    ResolverView { scopes: mark_scopes(st.scopes, name, true), ..st }
}

/// Declares and at once defines `name`.
pub open spec fn introduce(st: ResolverView, name: Seq<char>) -> Result<ResolverView, Seq<char>> {
    match declare(st, name) {
        Ok(s) => Ok(define(s, name)),
        Err(e) => Err(e),
    }
}

/// Records for the expression `id` the depth at which `name` is found, where
/// the scope that holds it is a block or a body. Nothing is recorded where
/// the first scope that holds `name` is the global scope, or where no scope
/// holds it: such a reference is to a global.
pub open spec fn resolve_local(st: ResolverView, id: usize, name: Seq<char>) -> ResolverView {
    match depth_of(st.scopes, name) {
        Some(d) => if d + 1 < st.scopes.len() && d <= usize::MAX {
            ResolverView { locals: st.locals.insert(id, d as usize), ..st }
        } else {
            st
        },
        None => st,
    }
}

/// Opens a scope.
pub open spec fn enter(st: ResolverView) -> ResolverView {
    ResolverView { scopes: st.scopes.push(Map::empty()), ..st }
}

/// Closes the innermost scope.
pub open spec fn leave(st: ResolverView) -> ResolverView {
    ResolverView {
        scopes: if st.scopes.len() > 0 {
            st.scopes.drop_last()
        } else {
            st.scopes
        },
        ..st
    }
}

/// The pass over an expression.
pub open spec fn resolve_expr(st: ResolverView, expr: Expr) -> Result<ResolverView, Seq<char>>
    decreases expr,
{
    match expr {
        Expr::Assign { id, name, value } => match resolve_expr(st, *value) {
            Ok(s) => Ok(resolve_local(s, id, name.lexeme@)),
            Err(e) => Err(e),
        },
        Expr::Binary { left, right, .. } => match resolve_expr(st, *left) {
            Ok(s) => resolve_expr(s, *right),
            Err(e) => Err(e),
        },
        Expr::Call { callee, args } => match resolve_expr(st, *callee) {
            Ok(s) => resolve_exprs(s, args@, 0),
            Err(e) => Err(e),
        },
        Expr::Get { object, .. } => resolve_expr(st, *object),
        Expr::Unary { right, .. } => resolve_expr(st, *right),
        Expr::Grouping { expr } => resolve_expr(st, *expr),
        Expr::Literal { .. } => Ok(st),
        Expr::Logical { left, right, .. } => match resolve_expr(st, *left) {
            Ok(s) => resolve_expr(s, *right),
            Err(e) => Err(e),
        },
        Expr::SetProperty { object, value, .. } => match resolve_expr(st, *object) {
            Ok(s) => resolve_expr(s, *value),
            Err(e) => Err(e),
        },
        Expr::This { id, keyword } => Ok(resolve_local(st, id, keyword.lexeme@)),
        Expr::Variable { id, name } => if innermost_of(st.scopes, name.lexeme@) == Some(false) {
            Err(own_initializer())
        } else {
            Ok(resolve_local(st, id, name.lexeme@))
        },
    }
}

/// The pass over the expressions `exprs[from..]`, in order.
pub open spec fn resolve_exprs(st: ResolverView, exprs: Seq<Expr>, from: int) -> Result<
    ResolverView,
    Seq<char>,
>
    decreases exprs, exprs.len() - from,
{
    if 0 <= from < exprs.len() {
        match resolve_expr(st, exprs[from]) {
            Ok(s) => resolve_exprs(s, exprs, from + 1),
            Err(e) => Err(e),
        }
    } else {
        Ok(st)
    }
}

/// Declares and defines the parameters `params[from..]`, in order.
pub open spec fn introduce_all(st: ResolverView, params: Seq<Token>, from: int) -> Result<
    ResolverView,
    Seq<char>,
>
    decreases params.len() - from,
{
    if 0 <= from < params.len() {
        match introduce(st, params[from].lexeme@) {
            Ok(s) => introduce_all(s, params, from + 1),
            Err(e) => Err(e),
        }
    } else {
        Ok(st)
    }
}

/// The pass over a statement.
pub open spec fn resolve_stmt(st: ResolverView, stmt: Stmt) -> Result<ResolverView, Seq<char>>
    decreases stmt, 0nat, 0nat,
{
    match stmt {
        Stmt::Block { stmts } => match resolve_stmts(enter(st), stmts@, 0) {
            Ok(s) => Ok(leave(s)),
            Err(e) => Err(e),
        },
        Stmt::Break => Ok(st),
        Stmt::Class { name, methods, .. } => match introduce(st, name.lexeme@) {
            Ok(s) => match resolve_methods(define(enter(s), "this"@), methods@, 0) {
                Ok(t) => Ok(leave(t)),
                Err(e) => Err(e),
            },
            Err(e) => Err(e),
        },
        Stmt::Expression { expr } => resolve_expr(st, *expr),
        Stmt::Function { name, params, body, .. } => match introduce(st, name.lexeme@) {
            Ok(s) => resolve_function(s, FunctionType::Function, params@, body@),
            Err(e) => Err(e),
        },
        Stmt::If { condition, then_branch, els } => match resolve_expr(st, *condition) {
            Ok(s) => match resolve_stmt(s, *then_branch) {
                Ok(t) => match els {
                    Some(e) => resolve_stmt(t, *e),
                    None => Ok(t),
                },
                Err(e) => Err(e),
            },
            Err(e) => Err(e),
        },
        Stmt::Print { expr } => resolve_expr(st, *expr),
        Stmt::Return { value } => if st.function is None {
            Err(return_outside())
        } else {
            match value {
                Some(v) => resolve_expr(st, *v),
                None => Ok(st),
            }
        },
        Stmt::Var { name, initializer } => match declare(st, name.lexeme@) {
            Ok(s) => match initializer {
                Some(i) => match resolve_expr(s, *i) {
                    Ok(t) => Ok(define(t, name.lexeme@)),
                    Err(e) => Err(e),
                },
                None => Ok(define(s, name.lexeme@)),
            },
            Err(e) => Err(e),
        },
        Stmt::While { condition, body } => match resolve_expr(st, *condition) {
            Ok(s) => resolve_stmt(s, *body),
            Err(e) => Err(e),
        },
    }
}

/// The pass over the statements `stmts[from..]`, in order.
pub open spec fn resolve_stmts(st: ResolverView, stmts: Seq<Stmt>, from: int) -> Result<
    ResolverView,
    Seq<char>,
>
    decreases stmts, stmts.len() - from, 0nat,
{
    if 0 <= from < stmts.len() {
        match resolve_stmt(st, stmts[from]) {
            Ok(s) => resolve_stmts(s, stmts, from + 1),
            Err(e) => Err(e),
        }
    } else {
        Ok(st)
    }
}

/// The pass over a function: its parameters and its body stand in a scope of
/// their own, and `return` is allowed in the body.
pub open spec fn resolve_function(
    st: ResolverView,
    kind: FunctionType,
    params: Seq<Token>,
    body: Seq<Stmt>,
) -> Result<ResolverView, Seq<char>>
    decreases body, body.len() + 1, 0nat,
{
    match introduce_all(ResolverView { function: Some(kind), ..enter(st) }, params, 0) {
        Ok(s) => match resolve_stmts(s, body, 0) {
            Ok(t) => Ok(ResolverView { function: st.function, ..leave(t) }),
            Err(e) => Err(e),
        },
        Err(e) => Err(e),
    }
}

/// The pass over the methods `methods[from..]` of a class, in order. What is
/// no function among them is passed over.
pub open spec fn resolve_methods(st: ResolverView, methods: Seq<Stmt>, from: int) -> Result<
    ResolverView,
    Seq<char>,
>
    decreases methods, methods.len() - from, 1nat,
{
    if 0 <= from < methods.len() {
        match methods[from] {
            Stmt::Function { params, body, .. } => match resolve_function(
                st,
                FunctionType::Method,
                params@,
                body@,
            ) {
                Ok(s) => resolve_methods(s, methods, from + 1),
                Err(e) => Err(e),
            },
            _ => resolve_methods(st, methods, from + 1),
        }
    } else {
        Ok(st)
    }
}

/// The state in which the pass begins: the global scope is open and empty.
pub open spec fn initial() -> ResolverView {
    ResolverView {
        scopes: seq![Map::<Seq<char>, bool>::empty()],
        locals: Map::empty(),
        function: None,
    }
}

/// The depth table of a program, or the message of the first error.
pub open spec fn resolve_program(stmts: Seq<Stmt>) -> Result<Map<usize, usize>, Seq<char>> {
    match resolve_stmts(initial(), stmts, 0) {
        Ok(s) => Ok(s.locals),
        Err(e) => Err(e),
    }
}

/// Whether what the pass did, `r` and the state `after` it, is what `expected`
/// says: the same state, or an error with the same message.
pub open spec fn agrees(
    r: Result<(), ResolutionError>,
    after: ResolverView,
    expected: Result<ResolverView, Seq<char>>,
) -> bool {
    match r {
        Ok(()) => expected == Ok::<ResolverView, Seq<char>>(after),
        Err(e) => expected == Err::<ResolverView, Seq<char>>(e.text()),
    }
}

struct Resolver {
    scopes: ScopeStack,
    locals: Locals,
    current_function_type: Option<FunctionType>,
}

impl View for Resolver {
    type V = ResolverView;

    closed spec fn view(&self) -> ResolverView {
        ResolverView {
            scopes: self.scopes@,
            locals: self.locals@,
            function: self.current_function_type,
        }
    }
}

impl Resolver {
    fn new() -> (r: Self)
        ensures
            r@ == initial(),
    {
        let mut scopes = ScopeStack::new();
        scopes.push();
        let r = Resolver { scopes, locals: HashMap::new(), current_function_type: None };
        assert(r@.scopes =~= initial().scopes);
        r
    }

    fn declare(&mut self, name: &Token) -> (r: Result<(), ResolutionError>)
        ensures
            agrees(r, final(self)@, declare(old(self)@, name.lexeme@)),
    {
        if self.scopes.len() > 1 && self.scopes.innermost(name.lexeme.as_str()).is_some() {
            let mut msg = String::from_str("Variable ");
            msg.append(name.lexeme.as_str());
            msg.append(" was already defined in this scope");
            Err(ResolutionError::Error { msg })
        } else {
            self.scopes.mark(name.lexeme.clone(), false);
            Ok(())
        }
    }

    fn define(&mut self, name: &Token)
        ensures
            final(self)@ == define(old(self)@, name.lexeme@),
    {
        self.scopes.mark(name.lexeme.clone(), true);
    }

    fn introduce(&mut self, name: &Token) -> (r: Result<(), ResolutionError>)
        ensures
            agrees(r, final(self)@, introduce(old(self)@, name.lexeme@)),
    {
        self.declare(name)?;
        self.define(name);
        Ok(())
    }

    fn resolve_local(&mut self, id: usize, name: &String)
        ensures
            final(self)@ == resolve_local(old(self)@, id, name@),
    {
        proof {
            lemma_depth_is_innermost(self.scopes@, name@);
        }
        match self.scopes.depth_of(name.as_str()) {
            Some(d) => {
                if d + 1 < self.scopes.len() {
                    self.locals.insert(id, d);
                }
            },
            None => {},
        }
    }

    fn enter(&mut self)
        ensures
            final(self)@ == enter(old(self)@),
    {
        self.scopes.push();
    }

    fn leave(&mut self)
        ensures
            final(self)@ == leave(old(self)@),
    {
        self.scopes.pop();
    }

    fn resolve_expression(&mut self, expr: &Expr) -> (r: Result<(), ResolutionError>)
        ensures
            agrees(r, final(self)@, resolve_expr(old(self)@, *expr)),
        decreases expr,
    {
        match expr {
            Expr::Assign { id, name, value } => {
                self.resolve_expression(value)?;
                self.resolve_local(*id, &name.lexeme);
            },
            Expr::Binary { left, right, .. } => {
                self.resolve_expression(left)?;
                self.resolve_expression(right)?;
            },
            Expr::Call { callee, args } => {
                self.resolve_expression(callee)?;
                let ghost start = self@;
                let mut i: usize = 0;
                while i < args.len()
                    invariant
                        i <= args.len(),
                        decreases_to!(expr => args),
                        resolve_expr(old(self)@, *expr) == resolve_exprs(start, args@, 0),
                        resolve_exprs(start, args@, 0) == resolve_exprs(self@, args@, i as int),
                    decreases args.len() - i,
                {
                    self.resolve_expression(&args[i])?;
                    i += 1;
                }
            },
            Expr::Get { object, .. } => {
                self.resolve_expression(object)?;
            },
            Expr::Unary { right, .. } => {
                self.resolve_expression(right)?;
            },
            Expr::Grouping { expr } => {
                self.resolve_expression(expr)?;
            },
            Expr::Literal { .. } => {},
            Expr::Logical { left, right, .. } => {
                self.resolve_expression(left)?;
                self.resolve_expression(right)?;
            },
            Expr::SetProperty { object, value, .. } => {
                self.resolve_expression(object)?;
                self.resolve_expression(value)?;
            },
            Expr::This { id, keyword } => {
                self.resolve_local(*id, &keyword.lexeme);
            },
            Expr::Variable { id, name } => {
                match self.scopes.innermost(name.lexeme.as_str()) {
                    Some(false) => {
                        return Err(
                            ResolutionError::Error {
                                msg: String::from_str(
                                    "Cannot read local variable in its own initializer",
                                ),
                            },
                        );
                    },
                    _ => {},
                }
                self.resolve_local(*id, &name.lexeme);
            },
        }
        Ok(())
    }

    fn resolve_statements(&mut self, stmts: &Vec<Stmt>) -> (r: Result<(), ResolutionError>)
        ensures
            agrees(r, final(self)@, resolve_stmts(old(self)@, stmts@, 0)),
        decreases stmts, 1nat,
    {
        let mut i: usize = 0;
        while i < stmts.len()
            invariant
                i <= stmts.len(),
                resolve_stmts(old(self)@, stmts@, 0) == resolve_stmts(self@, stmts@, i as int),
            decreases stmts.len() - i,
        {
            self.resolve_statement(&stmts[i])?;
            i += 1;
        }
        Ok(())
    }

    fn resolve_function(
        &mut self,
        kind: FunctionType,
        params: &Vec<Token>,
        body: &Vec<Stmt>,
    ) -> (r: Result<(), ResolutionError>)
        ensures
            agrees(r, final(self)@, resolve_function(old(self)@, kind, params@, body@)),
        decreases body, 2nat,
    {
        let enclosing = self.current_function_type;
        self.enter();
        self.current_function_type = Some(kind);
        let ghost start = self@;
        let mut i: usize = 0;
        while i < params.len()
            invariant
                i <= params.len(),
                start == (ResolverView { function: Some(kind), ..enter(old(self)@) }),
                introduce_all(start, params@, 0) == introduce_all(self@, params@, i as int),
            decreases params.len() - i,
        {
            self.introduce(&params[i])?;
            i += 1;
        }
        self.resolve_statements(body)?;
        self.leave();
        self.current_function_type = enclosing;
        Ok(())
    }

    fn resolve_methods(&mut self, methods: &Vec<Stmt>) -> (r: Result<(), ResolutionError>)
        ensures
            agrees(r, final(self)@, resolve_methods(old(self)@, methods@, 0)),
        decreases methods, 3nat,
    {
        let mut i: usize = 0;
        while i < methods.len()
            invariant
                i <= methods.len(),
                resolve_methods(old(self)@, methods@, 0) == resolve_methods(
                    self@,
                    methods@,
                    i as int,
                ),
            decreases methods.len() - i,
        {
            match &methods[i] {
                Stmt::Function { params, body, .. } => {
                    self.resolve_function(FunctionType::Method, params, body)?;
                },
                _ => {},
            }
            i += 1;
        }
        Ok(())
    }

    fn resolve_statement(&mut self, stmt: &Stmt) -> (r: Result<(), ResolutionError>)
        ensures
            agrees(r, final(self)@, resolve_stmt(old(self)@, *stmt)),
        decreases stmt, 0nat,
    {
        match stmt {
            Stmt::Block { stmts } => {
                self.enter();
                self.resolve_statements(stmts)?;
                self.leave();
            },
            Stmt::Break => {},
            Stmt::Class { name, methods, .. } => {
                self.introduce(name)?;
                self.enter();
                self.scopes.mark(String::from_str("this"), true);
                self.resolve_methods(methods)?;
                self.leave();
            },
            Stmt::Expression { expr } => {
                self.resolve_expression(expr)?;
            },
            Stmt::Function { name, params, body, .. } => {
                self.introduce(name)?;
                self.resolve_function(FunctionType::Function, params, body)?;
            },
            Stmt::If { condition, then_branch, els } => {
                self.resolve_expression(condition)?;
                self.resolve_statement(then_branch)?;
                if let Some(e) = els {
                    self.resolve_statement(e)?;
                }
            },
            Stmt::Print { expr } => {
                self.resolve_expression(expr)?;
            },
            Stmt::Return { value } => {
                if self.current_function_type.is_none() {
                    return Err(
                        ResolutionError::Error {
                            msg: String::from_str("Cannot return from global scope"),
                        },
                    );
                }
                if let Some(v) = value {
                    self.resolve_expression(v)?;
                }
            },
            Stmt::Var { name, initializer } => {
                self.declare(name)?;
                if let Some(i) = initializer {
                    self.resolve_expression(i)?;
                }
                self.define(name);
            },
            Stmt::While { condition, body } => {
                self.resolve_expression(condition)?;
                self.resolve_statement(body)?;
            },
        }
        Ok(())
    }

    fn locals(self) -> (r: Locals)
        ensures
            r@ == self@.locals,
    {
        self.locals
    }
}

/// Resolves a program: the depth table of its variable references, or the
/// first error, after which nothing of the program may run.
pub fn resolve(stmts: &[Stmt]) -> (r: Result<Locals, ResolutionError>)
    ensures
        match r {
            Ok(locals) => resolve_program(stmts@) == Ok::<Map<usize, usize>, Seq<char>>(locals@),
            Err(e) => resolve_program(stmts@) == Err::<Map<usize, usize>, Seq<char>>(e.text()),
        },
{
    let mut resolver = Resolver::new();
    let mut i: usize = 0;
    while i < stmts.len()
        invariant
            i <= stmts.len(),
            resolve_stmts(initial(), stmts@, 0) == resolve_stmts(resolver@, stmts@, i as int),
        decreases stmts.len() - i,
    {
        resolver.resolve_statement(&stmts[i])?;
        i += 1;
    }
    Ok(resolver.locals())
}

/// A resolved depth names the innermost scope that holds the name: the scope
/// at that distance holds it and no nearer one does; and a name gets no depth
/// exactly when no open scope holds it.
pub proof fn lemma_depth_is_innermost(scopes: Scopes, name: Seq<char>)
    ensures
        match depth_of(scopes, name) {
            Some(d) => {
                &&& d < scopes.len()
                &&& scopes[scopes.len() - 1 - d].contains_key(name)
                &&& forall|e: int| 0 <= e < d ==> !(#[trigger] scopes[scopes.len() - 1 - e]).contains_key(name)
            },
            None => forall|i: int| 0 <= i < scopes.len() ==> !(#[trigger] scopes[i]).contains_key(name),
        },
    decreases scopes.len(),
{
    if scopes.len() > 0 && !scopes.last().contains_key(name) {
        let outer = scopes.drop_last();
        lemma_depth_is_innermost(outer, name);
        match depth_of(outer, name) {
            Some(d) => {
                assert(outer[outer.len() - 1 - d] == scopes[scopes.len() - 1 - (d + 1)]);
                assert forall|e: int| 0 <= e < d + 1 implies !(#[trigger] scopes[scopes.len() - 1
                    - e]).contains_key(name) by {
                    if e > 0 {
                        assert(outer[outer.len() - 1 - (e - 1)] == scopes[scopes.len() - 1 - e]);
                    }
                }
            },
            None => {
                assert forall|i: int| 0 <= i < scopes.len() implies !(#[trigger] scopes[i]).contains_key(
                    name,
                ) by {
                    if i < scopes.len() - 1 {
                        assert(outer[i] == scopes[i]);
                    }
                }
            },
        }
    }
}

/// A reference gets a depth exactly when an open scope other than the global
/// one holds its name: a name that only the global scope holds, or none,
/// gets no entry in the depth table. No other entry of the table comes or
/// goes.
pub proof fn lemma_entry_means_local(st: ResolverView, id: usize, name: Seq<char>)
    requires
        !st.locals.contains_key(id),
        st.scopes.len() <= usize::MAX,
    ensures
        resolve_local(st, id, name).locals.contains_key(id) <==> exists|i: int|
            1 <= i < st.scopes.len() && (#[trigger] st.scopes[i]).contains_key(name),
        forall|other: usize|
            other != id ==> (resolve_local(st, id, name).locals.contains_key(other)
                <==> st.locals.contains_key(other)),
{
    lemma_depth_is_innermost(st.scopes, name);
    match depth_of(st.scopes, name) {
        Some(d) => {
            let found = st.scopes.len() - 1 - d;
            if d + 1 < st.scopes.len() {
                assert(1 <= found < st.scopes.len() && st.scopes[found].contains_key(name));
            } else {
                assert forall|i: int| 1 <= i < st.scopes.len() implies !(#[trigger] st.scopes[i]).contains_key(
                    name,
                ) by {
                    let e = st.scopes.len() - 1 - i;
                    assert(0 <= e < d);
                    assert(!st.scopes[st.scopes.len() - 1 - e].contains_key(name));
                }
            }
        },
        None => {},
    }
}

/// A second declaration of a name in the global scope is taken: it is the
/// same scope, and the later declaration stands.
pub proof fn lemma_global_redeclaration_is_taken(st: ResolverView, name: Seq<char>)
    requires
        st.scopes.len() == 1,
    ensures
        declare(st, name) is Ok,
        introduce(st, name) is Ok,
{
}

/// A variable declaration whose initializer is the variable itself is refused
/// wherever a scope is open, the global scope included: the read is bound
/// neither to nil nor to a variable of the same name further out.
pub proof fn lemma_own_initializer_is_refused(
    st: ResolverView,
    name: Token,
    id: usize,
    reference: Token,
)
    requires
        st.scopes.len() > 0,
        reference.lexeme@ == name.lexeme@,
    ensures
        resolve_stmt(
            st,
            Stmt::Var {
                name,
                initializer: Some(Box::new(Expr::Variable { id, name: reference })),
            },
        ) is Err,
{
    let read = Expr::Variable { id, name: reference };
    match declare(st, name.lexeme@) {
        Ok(s) => {
            assert(s.scopes.last().contains_key(name.lexeme@));
            assert(innermost_of(s.scopes, reference.lexeme@) == Some(false));
            assert(resolve_expr(s, read) is Err);
        },
        Err(_) => {},
    }
}

/// The pass has left as many scopes open as it found, and stands in the same
/// kind of function body.
pub open spec fn balanced(before: ResolverView, after: Result<ResolverView, Seq<char>>) -> bool {
    after matches Ok(s) ==> s.scopes.len() == before.scopes.len() && s.function == before.function
}

/// An expression opens and closes no scope: it can only add to the depth
/// table.
pub proof fn lemma_expression_keeps_scopes(st: ResolverView, expr: Expr)
    ensures
        resolve_expr(st, expr) matches Ok(s) ==> s.scopes == st.scopes && s.function == st.function,
    decreases expr,
{
    match expr {
        Expr::Assign { value, .. } => {
            lemma_expression_keeps_scopes(st, *value);
        },
        Expr::Binary { left, right, .. } => {
            lemma_expression_keeps_scopes(st, *left);
            if let Ok(s) = resolve_expr(st, *left) {
                lemma_expression_keeps_scopes(s, *right);
            }
        },
        Expr::Call { callee, args } => {
            lemma_expression_keeps_scopes(st, *callee);
            if let Ok(s) = resolve_expr(st, *callee) {
                lemma_expressions_keep_scopes(s, args@, 0);
            }
        },
        Expr::Get { object, .. } => {
            lemma_expression_keeps_scopes(st, *object);
        },
        Expr::Unary { right, .. } => {
            lemma_expression_keeps_scopes(st, *right);
        },
        Expr::Grouping { expr } => {
            lemma_expression_keeps_scopes(st, *expr);
        },
        Expr::Literal { .. } => {},
        Expr::Logical { left, right, .. } => {
            lemma_expression_keeps_scopes(st, *left);
            if let Ok(s) = resolve_expr(st, *left) {
                lemma_expression_keeps_scopes(s, *right);
            }
        },
        Expr::SetProperty { object, value, .. } => {
            lemma_expression_keeps_scopes(st, *object);
            if let Ok(s) = resolve_expr(st, *object) {
                lemma_expression_keeps_scopes(s, *value);
            }
        },
        Expr::This { .. } => {},
        Expr::Variable { .. } => {},
    }
}

/// As `lemma_expression_keeps_scopes`, for a list of expressions.
pub proof fn lemma_expressions_keep_scopes(st: ResolverView, exprs: Seq<Expr>, from: int)
    ensures
        resolve_exprs(st, exprs, from) matches Ok(s) ==> s.scopes == st.scopes && s.function
            == st.function,
    decreases exprs, exprs.len() - from,
{
    if 0 <= from < exprs.len() {
        lemma_expression_keeps_scopes(st, exprs[from]);
        if let Ok(s) = resolve_expr(st, exprs[from]) {
            lemma_expressions_keep_scopes(s, exprs, from + 1);
        }
    }
}

/// Declaring the parameters opens and closes no scope.
pub proof fn lemma_parameters_keep_scopes(st: ResolverView, params: Seq<Token>, from: int)
    ensures
        balanced(st, introduce_all(st, params, from)),
    decreases params.len() - from,
{
    if 0 <= from < params.len() {
        if let Ok(s) = introduce(st, params[from].lexeme@) {
            lemma_parameters_keep_scopes(s, params, from + 1);
        }
    }
}

/// Every scope that a statement opens it closes again: after a statement
/// that the resolver accepts, as many scopes are open as before it, and the
/// pass stands in the same kind of function body.
pub proof fn lemma_statement_is_balanced(st: ResolverView, stmt: Stmt)
    ensures
        balanced(st, resolve_stmt(st, stmt)),
    decreases stmt, 0nat, 0nat,
{
    match stmt {
        Stmt::Block { stmts } => {
            lemma_statements_are_balanced(enter(st), stmts@, 0);
        },
        Stmt::Break => {},
        Stmt::Class { name, methods, .. } => {
            if let Ok(s) = introduce(st, name.lexeme@) {
                lemma_methods_are_balanced(define(enter(s), "this"@), methods@, 0);
            }
        },
        Stmt::Expression { expr } => {
            lemma_expression_keeps_scopes(st, *expr);
        },
        Stmt::Function { name, params, body, .. } => {
            if let Ok(s) = introduce(st, name.lexeme@) {
                lemma_function_is_balanced(s, FunctionType::Function, params@, body@);
            }
        },
        Stmt::If { condition, then_branch, els } => {
            lemma_expression_keeps_scopes(st, *condition);
            if let Ok(s) = resolve_expr(st, *condition) {
                lemma_statement_is_balanced(s, *then_branch);
                if let Ok(t) = resolve_stmt(s, *then_branch) {
                    if let Some(e) = els {
                        lemma_statement_is_balanced(t, *e);
                    }
                }
            }
        },
        Stmt::Print { expr } => {
            lemma_expression_keeps_scopes(st, *expr);
        },
        Stmt::Return { value } => {
            if let Some(v) = value {
                lemma_expression_keeps_scopes(st, *v);
            }
        },
        Stmt::Var { name, initializer } => {
            if let Ok(s) = declare(st, name.lexeme@) {
                if let Some(i) = initializer {
                    lemma_expression_keeps_scopes(s, *i);
                }
            }
        },
        Stmt::While { condition, body } => {
            lemma_expression_keeps_scopes(st, *condition);
            if let Ok(s) = resolve_expr(st, *condition) {
                lemma_statement_is_balanced(s, *body);
            }
        },
    }
}

/// As `lemma_statement_is_balanced`, for a list of statements.
pub proof fn lemma_statements_are_balanced(st: ResolverView, stmts: Seq<Stmt>, from: int)
    ensures
        balanced(st, resolve_stmts(st, stmts, from)),
    decreases stmts, stmts.len() - from, 0nat,
{
    if 0 <= from < stmts.len() {
        lemma_statement_is_balanced(st, stmts[from]);
        if let Ok(s) = resolve_stmt(st, stmts[from]) {
            lemma_statements_are_balanced(s, stmts, from + 1);
        }
    }
}

/// As `lemma_statement_is_balanced`, for a function: the scope of its
/// parameters is closed at its end.
pub proof fn lemma_function_is_balanced(
    st: ResolverView,
    kind: FunctionType,
    params: Seq<Token>,
    body: Seq<Stmt>,
)
    ensures
        balanced(st, resolve_function(st, kind, params, body)),
    decreases body, body.len() + 1, 0nat,
{
    let inner = ResolverView { function: Some(kind), ..enter(st) };
    lemma_parameters_keep_scopes(inner, params, 0);
    if let Ok(s) = introduce_all(inner, params, 0) {
        lemma_statements_are_balanced(s, body, 0);
    }
}

/// As `lemma_statement_is_balanced`, for the methods of a class.
pub proof fn lemma_methods_are_balanced(st: ResolverView, methods: Seq<Stmt>, from: int)
    ensures
        balanced(st, resolve_methods(st, methods, from)),
    decreases methods, methods.len() - from, 1nat,
{
    if 0 <= from < methods.len() {
        match methods[from] {
            Stmt::Function { params, body, .. } => {
                lemma_function_is_balanced(st, FunctionType::Method, params@, body@);
                if let Ok(s) = resolve_function(st, FunctionType::Method, params@, body@) {
                    lemma_methods_are_balanced(s, methods, from + 1);
                }
            },
            _ => {
                lemma_methods_are_balanced(st, methods, from + 1);
            },
        }
    }
}

} // verus!
