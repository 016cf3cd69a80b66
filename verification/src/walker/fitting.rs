//! The resolver's table fits the program: where no two references of a
//! program share an `id`, every depth that the resolver records is less than
//! the number of scopes that are open around its reference.
use crate::shared::scanner::Token;
use crate::walker::ast::{Expr, Stmt};
use crate::walker::depths::{depth_fits, expr_fits, exprs_fit, methods_fit, stmt_fits, stmts_fit};
use crate::walker::resolver::{
    declare, define, enter, introduce, introduce_all, lemma_depth_is_innermost,
    lemma_expression_keeps_scopes, lemma_function_is_balanced, lemma_parameters_keep_scopes,
    lemma_statement_is_balanced, resolve_expr, resolve_exprs, resolve_function, resolve_local,
    resolve_methods, resolve_program, resolve_stmt, resolve_stmts, initial, FunctionType,
    ResolverView,
};
use vstd::prelude::*;

verus! {

/// The `id`s of the references in the expression.
pub open spec fn expr_ids(expr: Expr) -> Set<usize>
    decreases expr,
{
    match expr {
        Expr::Assign { id, value, .. } => expr_ids(*value).insert(id),
        Expr::Binary { left, right, .. } => expr_ids(*left).union(expr_ids(*right)),
        Expr::Call { callee, args } => expr_ids(*callee).union(exprs_ids(args@, 0)),
        Expr::Get { object, .. } => expr_ids(*object),
        Expr::Unary { right, .. } => expr_ids(*right),
        Expr::Grouping { expr } => expr_ids(*expr),
        Expr::Literal { .. } => Set::empty(),
        Expr::Logical { left, right, .. } => expr_ids(*left).union(expr_ids(*right)),
        Expr::SetProperty { object, value, .. } => expr_ids(*object).union(expr_ids(*value)),
        Expr::This { id, .. } => Set::empty().insert(id),
        Expr::Variable { id, .. } => Set::empty().insert(id),
    }
}

/// The `id`s of the references in the expressions `exprs[from..]`.
pub open spec fn exprs_ids(exprs: Seq<Expr>, from: int) -> Set<usize>
    decreases exprs, exprs.len() - from,
{
    if 0 <= from < exprs.len() {
        expr_ids(exprs[from]).union(exprs_ids(exprs, from + 1))
    } else {
        Set::empty()
    }
}

/// Whether no two references in the expression share an `id`.
pub open spec fn expr_distinct(expr: Expr) -> bool
    decreases expr,
{
    match expr {
        Expr::Assign { id, value, .. } => expr_distinct(*value) && !expr_ids(*value).contains(id),
        Expr::Binary { left, right, .. } => expr_distinct(*left) && expr_distinct(*right)
            && expr_ids(*left).disjoint(expr_ids(*right)),
        Expr::Call { callee, args } => expr_distinct(*callee) && exprs_distinct(args@, 0)
            && expr_ids(*callee).disjoint(exprs_ids(args@, 0)),
        Expr::Get { object, .. } => expr_distinct(*object),
        Expr::Unary { right, .. } => expr_distinct(*right),
        Expr::Grouping { expr } => expr_distinct(*expr),
        Expr::Literal { .. } => true,
        Expr::Logical { left, right, .. } => expr_distinct(*left) && expr_distinct(*right)
            && expr_ids(*left).disjoint(expr_ids(*right)),
        Expr::SetProperty { object, value, .. } => expr_distinct(*object) && expr_distinct(*value)
            && expr_ids(*object).disjoint(expr_ids(*value)),
        Expr::This { .. } => true,
        Expr::Variable { .. } => true,
    }
}

/// Whether no two references in the expressions `exprs[from..]` share an
/// `id`.
pub open spec fn exprs_distinct(exprs: Seq<Expr>, from: int) -> bool
    decreases exprs, exprs.len() - from,
{
    if 0 <= from < exprs.len() {
        expr_distinct(exprs[from]) && exprs_distinct(exprs, from + 1) && expr_ids(
            exprs[from],
        ).disjoint(exprs_ids(exprs, from + 1))
    } else {
        true
    }
}

/// Whether the two tables say the same of every `id` in `ids`.
pub open spec fn agree(a: Map<usize, usize>, b: Map<usize, usize>, ids: Set<usize>) -> bool {
    forall|id: usize| #[trigger]
        ids.contains(id) ==> (a.contains_key(id) == b.contains_key(id) && (a.contains_key(id)
            ==> a[id] == b[id]))
}

/// Whether the table says nothing of any `id` in `ids`.
pub open spec fn fresh(a: Map<usize, usize>, ids: Set<usize>) -> bool {
    forall|id: usize| #[trigger] ids.contains(id) ==> !a.contains_key(id)
}

/// A table that says nothing of a set says nothing of any part of it.
pub proof fn lemma_fresh_part(a: Map<usize, usize>, all: Set<usize>, part: Set<usize>)
    requires
        fresh(a, all),
        part.subset_of(all),
    ensures
        fresh(a, part),
{
    assert forall|id: usize| #[trigger] part.contains(id) implies !a.contains_key(id) by {
        assert(all.contains(id));
    }
}

/// A table stays fresh for a set when it is written apart from the set.
pub proof fn lemma_fresh_stays(
    a: Map<usize, usize>,
    b: Map<usize, usize>,
    written: Set<usize>,
    ids: Set<usize>,
)
    requires
        fresh(a, ids),
        agree_outside(a, b, written),
        ids.disjoint(written),
    ensures
        fresh(b, ids),
{
    assert forall|id: usize| #[trigger] ids.contains(id) implies !b.contains_key(id) by {
        assert(!written.contains(id));
    }
}

/// Tables that agree on a set agree on every part of it.
pub proof fn lemma_agree_on_part(
    a: Map<usize, usize>,
    b: Map<usize, usize>,
    all: Set<usize>,
    part: Set<usize>,
)
    requires
        agree(a, b, all),
        part.subset_of(all),
    ensures
        agree(a, b, part),
{
    assert forall|id: usize| #[trigger] part.contains(id) implies (a.contains_key(id)
        == b.contains_key(id) && (a.contains_key(id) ==> a[id] == b[id])) by {
        assert(all.contains(id));
    }
}

/// Tables that agree outside a set agree on every set apart from it.
pub proof fn lemma_agree_apart(
    a: Map<usize, usize>,
    b: Map<usize, usize>,
    written: Set<usize>,
    ids: Set<usize>,
)
    requires
        agree_outside(a, b, written),
        ids.disjoint(written),
    ensures
        agree(a, b, ids),
{
    assert forall|id: usize| #[trigger] ids.contains(id) implies (a.contains_key(id)
        == b.contains_key(id) && (a.contains_key(id) ==> a[id] == b[id])) by {
        assert(!written.contains(id));
    }
}

/// Tables of which the second agrees with the first, and the third with the
/// second, outside two sets, agree outside the two sets together.
pub proof fn lemma_agree_outside_both(
    a: Map<usize, usize>,
    b: Map<usize, usize>,
    c: Map<usize, usize>,
    first: Set<usize>,
    second: Set<usize>,
)
    requires
        agree_outside(a, b, first),
        agree_outside(b, c, second),
    ensures
        agree_outside(a, c, first.union(second)),
{
    assert forall|id: usize| !(#[trigger] first.union(second).contains(id)) implies (a.contains_key(
        id,
    ) == c.contains_key(id) && (a.contains_key(id) ==> a[id] == c[id])) by {
        assert(!first.contains(id));
        assert(!second.contains(id));
    }
}

/// Whether the two tables say the same of every `id` that is not in `ids`.
pub open spec fn agree_outside(a: Map<usize, usize>, b: Map<usize, usize>, ids: Set<usize>) -> bool {
    forall|id: usize|
        !(#[trigger] ids.contains(id)) ==> (a.contains_key(id) == b.contains_key(id) && (
        a.contains_key(id) ==> a[id] == b[id]))
}

/// A table that fits an expression still fits it when it changes at other
/// `id`s only.
pub proof fn lemma_expr_fits_stays(a: Map<usize, usize>, b: Map<usize, usize>, expr: Expr, n: nat)
    requires
        expr_fits(a, expr, n),
        agree(a, b, expr_ids(expr)),
    ensures
        expr_fits(b, expr, n),
    decreases expr,
{
    match expr {
        Expr::Assign { id, value, .. } => {
            assert(expr_ids(expr).contains(id));
            lemma_agree_on_part(a, b, expr_ids(expr), expr_ids(*value));
            lemma_expr_fits_stays(a, b, *value, n);
        },
        Expr::Binary { left, right, .. } => {
            lemma_agree_on_part(a, b, expr_ids(expr), expr_ids(*left));
            lemma_agree_on_part(a, b, expr_ids(expr), expr_ids(*right));
            lemma_expr_fits_stays(a, b, *left, n);
            lemma_expr_fits_stays(a, b, *right, n);
        },
        Expr::Call { callee, args } => {
            lemma_agree_on_part(a, b, expr_ids(expr), expr_ids(*callee));
            lemma_agree_on_part(a, b, expr_ids(expr), exprs_ids(args@, 0));
            lemma_expr_fits_stays(a, b, *callee, n);
            lemma_exprs_fit_stay(a, b, args@, 0, n);
        },
        Expr::Get { object, .. } => {
            lemma_expr_fits_stays(a, b, *object, n);
        },
        Expr::Unary { right, .. } => {
            lemma_expr_fits_stays(a, b, *right, n);
        },
        Expr::Grouping { expr } => {
            lemma_expr_fits_stays(a, b, *expr, n);
        },
        Expr::Literal { .. } => {},
        Expr::Logical { left, right, .. } => {
            lemma_agree_on_part(a, b, expr_ids(expr), expr_ids(*left));
            lemma_agree_on_part(a, b, expr_ids(expr), expr_ids(*right));
            lemma_expr_fits_stays(a, b, *left, n);
            lemma_expr_fits_stays(a, b, *right, n);
        },
        Expr::SetProperty { object, value, .. } => {
            lemma_agree_on_part(a, b, expr_ids(expr), expr_ids(*object));
            lemma_agree_on_part(a, b, expr_ids(expr), expr_ids(*value));
            lemma_expr_fits_stays(a, b, *object, n);
            lemma_expr_fits_stays(a, b, *value, n);
        },
        Expr::This { id, .. } => {
            assert(expr_ids(expr).contains(id));
        },
        Expr::Variable { id, .. } => {
            assert(expr_ids(expr).contains(id));
        },
    }
}

/// As `lemma_expr_fits_stays`, for a list of expressions.
pub proof fn lemma_exprs_fit_stay(
    a: Map<usize, usize>,
    b: Map<usize, usize>,
    exprs: Seq<Expr>,
    from: int,
    n: nat,
)
    requires
        exprs_fit(a, exprs, from, n),
        agree(a, b, exprs_ids(exprs, from)),
    ensures
        exprs_fit(b, exprs, from, n),
    decreases exprs, exprs.len() - from,
{
    if 0 <= from < exprs.len() {
        lemma_agree_on_part(a, b, exprs_ids(exprs, from), expr_ids(exprs[from]));
        lemma_agree_on_part(a, b, exprs_ids(exprs, from), exprs_ids(exprs, from + 1));
        lemma_expr_fits_stays(a, b, exprs[from], n);
        lemma_exprs_fit_stay(a, b, exprs, from + 1, n);
    }
}

/// The resolver writes the table at the `id`s of the expression only.
pub proof fn lemma_expr_writes_own(st: ResolverView, expr: Expr)
    ensures
        resolve_expr(st, expr) matches Ok(s) ==> agree_outside(st.locals, s.locals, expr_ids(expr)),
    decreases expr,
{
    match expr {
        Expr::Assign { value, .. } => {
            lemma_expr_writes_own(st, *value);
        },
        Expr::Binary { left, right, .. } => {
            lemma_expr_writes_own(st, *left);
            if let Ok(s) = resolve_expr(st, *left) {
                lemma_expr_writes_own(s, *right);
                if let Ok(t) = resolve_expr(s, *right) {
                    lemma_agree_outside_both(
                        st.locals,
                        s.locals,
                        t.locals,
                        expr_ids(*left),
                        expr_ids(*right),
                    );
                }
            }
        },
        Expr::Call { callee, args } => {
            lemma_expr_writes_own(st, *callee);
            if let Ok(s) = resolve_expr(st, *callee) {
                lemma_exprs_write_own(s, args@, 0);
                if let Ok(t) = resolve_exprs(s, args@, 0) {
                    lemma_agree_outside_both(
                        st.locals,
                        s.locals,
                        t.locals,
                        expr_ids(*callee),
                        exprs_ids(args@, 0),
                    );
                }
            }
        },
        Expr::Get { object, .. } => {
            lemma_expr_writes_own(st, *object);
        },
        Expr::Unary { right, .. } => {
            lemma_expr_writes_own(st, *right);
        },
        Expr::Grouping { expr } => {
            lemma_expr_writes_own(st, *expr);
        },
        Expr::Literal { .. } => {},
        Expr::Logical { left, right, .. } => {
            lemma_expr_writes_own(st, *left);
            if let Ok(s) = resolve_expr(st, *left) {
                lemma_expr_writes_own(s, *right);
                if let Ok(t) = resolve_expr(s, *right) {
                    lemma_agree_outside_both(
                        st.locals,
                        s.locals,
                        t.locals,
                        expr_ids(*left),
                        expr_ids(*right),
                    );
                }
            }
        },
        Expr::SetProperty { object, value, .. } => {
            lemma_expr_writes_own(st, *object);
            if let Ok(s) = resolve_expr(st, *object) {
                lemma_expr_writes_own(s, *value);
                if let Ok(t) = resolve_expr(s, *value) {
                    lemma_agree_outside_both(
                        st.locals,
                        s.locals,
                        t.locals,
                        expr_ids(*object),
                        expr_ids(*value),
                    );
                }
            }
        },
        Expr::This { .. } => {},
        Expr::Variable { .. } => {},
    }
}

/// As `lemma_expr_writes_own`, for a list of expressions.
pub proof fn lemma_exprs_write_own(st: ResolverView, exprs: Seq<Expr>, from: int)
    ensures
        resolve_exprs(st, exprs, from) matches Ok(s) ==> agree_outside(
            st.locals,
            s.locals,
            exprs_ids(exprs, from),
        ),
    decreases exprs, exprs.len() - from,
{
    if 0 <= from < exprs.len() {
        lemma_expr_writes_own(st, exprs[from]);
        if let Ok(s) = resolve_expr(st, exprs[from]) {
            lemma_exprs_write_own(s, exprs, from + 1);
            if let Ok(t) = resolve_exprs(s, exprs, from + 1) {
                lemma_agree_outside_both(
                    st.locals,
                    s.locals,
                    t.locals,
                    expr_ids(exprs[from]),
                    exprs_ids(exprs, from + 1),
                );
            }
        }
    }
}

/// What the resolver records for a reference is less than the number of open
/// scopes.
pub proof fn lemma_local_fits(st: ResolverView, id: usize, name: Seq<char>)
    requires
        !st.locals.contains_key(id),
    ensures
        depth_fits(resolve_local(st, id, name).locals, id, st.scopes.len()),
        agree_outside(st.locals, resolve_local(st, id, name).locals, Set::empty().insert(id)),
{
    lemma_depth_is_innermost(st.scopes, name);
}

/// The table that the resolver makes of an expression fits the expression.
pub proof fn lemma_expr_resolves_fit(st: ResolverView, expr: Expr)
    requires
        expr_distinct(expr),
        fresh(st.locals, expr_ids(expr)),
    ensures
        resolve_expr(st, expr) matches Ok(s) ==> expr_fits(s.locals, expr, st.scopes.len()),
    decreases expr,
{
    let n = st.scopes.len();
    match expr {
        Expr::Assign { id, name, value } => {
            lemma_fresh_part(st.locals, expr_ids(expr), expr_ids(*value));
            lemma_expr_resolves_fit(st, *value);
            lemma_expression_keeps_scopes(st, *value);
            lemma_expr_writes_own(st, *value);
            assert(expr_ids(expr).contains(id));
            if let Ok(s) = resolve_expr(st, *value) {
                lemma_local_fits(s, id, name.lexeme@);
                lemma_agree_apart(
                    s.locals,
                    resolve_local(s, id, name.lexeme@).locals,
                    Set::empty().insert(id),
                    expr_ids(*value),
                );
                lemma_expr_fits_stays(s.locals, resolve_local(s, id, name.lexeme@).locals, *value, n);
            }
        },
        Expr::Binary { left, right, .. } => {
            lemma_fresh_part(st.locals, expr_ids(expr), expr_ids(*left));
            lemma_fresh_part(st.locals, expr_ids(expr), expr_ids(*right));
            lemma_expr_resolves_fit(st, *left);
            lemma_expression_keeps_scopes(st, *left);
            lemma_expr_writes_own(st, *left);
            if let Ok(s) = resolve_expr(st, *left) {
                lemma_fresh_stays(st.locals, s.locals, expr_ids(*left), expr_ids(*right));
                lemma_expr_resolves_fit(s, *right);
                lemma_expr_writes_own(s, *right);
                if let Ok(t) = resolve_expr(s, *right) {
                    lemma_agree_apart(s.locals, t.locals, expr_ids(*right), expr_ids(*left));
                    lemma_expr_fits_stays(s.locals, t.locals, *left, n);
                }
            }
        },
        Expr::Call { callee, args } => {
            lemma_fresh_part(st.locals, expr_ids(expr), expr_ids(*callee));
            lemma_fresh_part(st.locals, expr_ids(expr), exprs_ids(args@, 0));
            lemma_expr_resolves_fit(st, *callee);
            lemma_expression_keeps_scopes(st, *callee);
            lemma_expr_writes_own(st, *callee);
            if let Ok(s) = resolve_expr(st, *callee) {
                lemma_fresh_stays(st.locals, s.locals, expr_ids(*callee), exprs_ids(args@, 0));
                lemma_exprs_resolve_fit(s, args@, 0);
                lemma_exprs_write_own(s, args@, 0);
                if let Ok(t) = resolve_exprs(s, args@, 0) {
                    lemma_agree_apart(s.locals, t.locals, exprs_ids(args@, 0), expr_ids(*callee));
                    lemma_expr_fits_stays(s.locals, t.locals, *callee, n);
                }
            }
        },
        Expr::Get { object, .. } => {
            lemma_expr_resolves_fit(st, *object);
        },
        Expr::Unary { right, .. } => {
            lemma_expr_resolves_fit(st, *right);
        },
        Expr::Grouping { expr } => {
            lemma_expr_resolves_fit(st, *expr);
        },
        Expr::Literal { .. } => {},
        Expr::Logical { left, right, .. } => {
            lemma_fresh_part(st.locals, expr_ids(expr), expr_ids(*left));
            lemma_fresh_part(st.locals, expr_ids(expr), expr_ids(*right));
            lemma_expr_resolves_fit(st, *left);
            lemma_expression_keeps_scopes(st, *left);
            lemma_expr_writes_own(st, *left);
            if let Ok(s) = resolve_expr(st, *left) {
                lemma_fresh_stays(st.locals, s.locals, expr_ids(*left), expr_ids(*right));
                lemma_expr_resolves_fit(s, *right);
                lemma_expr_writes_own(s, *right);
                if let Ok(t) = resolve_expr(s, *right) {
                    lemma_agree_apart(s.locals, t.locals, expr_ids(*right), expr_ids(*left));
                    lemma_expr_fits_stays(s.locals, t.locals, *left, n);
                }
            }
        },
        Expr::SetProperty { object, value, .. } => {
            lemma_fresh_part(st.locals, expr_ids(expr), expr_ids(*object));
            lemma_fresh_part(st.locals, expr_ids(expr), expr_ids(*value));
            lemma_expr_resolves_fit(st, *object);
            lemma_expression_keeps_scopes(st, *object);
            lemma_expr_writes_own(st, *object);
            if let Ok(s) = resolve_expr(st, *object) {
                lemma_fresh_stays(st.locals, s.locals, expr_ids(*object), expr_ids(*value));
                lemma_expr_resolves_fit(s, *value);
                lemma_expr_writes_own(s, *value);
                if let Ok(t) = resolve_expr(s, *value) {
                    lemma_agree_apart(s.locals, t.locals, expr_ids(*value), expr_ids(*object));
                    lemma_expr_fits_stays(s.locals, t.locals, *object, n);
                }
            }
        },
        Expr::This { id, keyword } => {
            assert(expr_ids(expr).contains(id));
            lemma_local_fits(st, id, keyword.lexeme@);
        },
        Expr::Variable { id, name } => {
            assert(expr_ids(expr).contains(id));
            lemma_local_fits(st, id, name.lexeme@);
        },
    }
}

/// As `lemma_expr_resolves_fit`, for a list of expressions.
pub proof fn lemma_exprs_resolve_fit(st: ResolverView, exprs: Seq<Expr>, from: int)
    requires
        exprs_distinct(exprs, from),
        fresh(st.locals, exprs_ids(exprs, from)),
    ensures
        resolve_exprs(st, exprs, from) matches Ok(s) ==> exprs_fit(
            s.locals,
            exprs,
            from,
            st.scopes.len(),
        ),
    decreases exprs, exprs.len() - from,
{
    if 0 <= from < exprs.len() {
        lemma_fresh_part(st.locals, exprs_ids(exprs, from), expr_ids(exprs[from]));
        lemma_fresh_part(st.locals, exprs_ids(exprs, from), exprs_ids(exprs, from + 1));
        lemma_expr_resolves_fit(st, exprs[from]);
        lemma_expression_keeps_scopes(st, exprs[from]);
        lemma_expr_writes_own(st, exprs[from]);
        if let Ok(s) = resolve_expr(st, exprs[from]) {
            lemma_fresh_stays(
                st.locals,
                s.locals,
                expr_ids(exprs[from]),
                exprs_ids(exprs, from + 1),
            );
            lemma_exprs_resolve_fit(s, exprs, from + 1);
            lemma_exprs_write_own(s, exprs, from + 1);
            if let Ok(t) = resolve_exprs(s, exprs, from + 1) {
                lemma_agree_apart(
                    s.locals,
                    t.locals,
                    exprs_ids(exprs, from + 1),
                    expr_ids(exprs[from]),
                );
                lemma_expr_fits_stays(s.locals, t.locals, exprs[from], st.scopes.len());
            }
        }
    }
}

/// The `id`s of the references in the expression, if there is one.
pub open spec fn optional_ids(expr: Option<Box<Expr>>) -> Set<usize> {
    match expr {
        Some(e) => expr_ids(*e),
        None => Set::empty(),
    }
}

/// Whether no two references in the expression, if there is one, share an
/// `id`.
pub open spec fn optional_distinct(expr: Option<Box<Expr>>) -> bool {
    match expr {
        Some(e) => expr_distinct(*e),
        None => true,
    }
}

/// The `id`s of the references in the statement.
pub open spec fn stmt_ids(stmt: Stmt) -> Set<usize>
    decreases stmt, 0nat,
{
    match stmt {
        Stmt::Block { stmts } => stmts_ids(stmts@, 0),
        Stmt::Break => Set::empty(),
        Stmt::Class { methods, .. } => methods_ids(methods@, 0),
        Stmt::Expression { expr } => expr_ids(*expr),
        Stmt::Function { body, .. } => stmts_ids(body@, 0),
        Stmt::If { condition, then_branch, els } => expr_ids(*condition).union(
            stmt_ids(*then_branch),
        ).union(
            match els {
                Some(e) => stmt_ids(*e),
                None => Set::empty(),
            },
        ),
        Stmt::Print { expr } => expr_ids(*expr),
        Stmt::Return { value } => optional_ids(value),
        Stmt::Var { initializer, .. } => optional_ids(initializer),
        Stmt::While { condition, body } => expr_ids(*condition).union(stmt_ids(*body)),
    }
}

/// The `id`s of the references in the statements `stmts[from..]`.
pub open spec fn stmts_ids(stmts: Seq<Stmt>, from: int) -> Set<usize>
    decreases stmts, stmts.len() - from, 0nat,
{
    if 0 <= from < stmts.len() {
        stmt_ids(stmts[from]).union(stmts_ids(stmts, from + 1))
    } else {
        Set::empty()
    }
}

/// The `id`s of the references in the bodies of the method `method`.
pub open spec fn method_ids(method: Stmt) -> Set<usize>
    decreases method, 1nat,
{
    match method {
        Stmt::Function { body, .. } => stmts_ids(body@, 0),
        _ => Set::empty(),
    }
}

/// The `id`s of the references in the bodies of the methods
/// `methods[from..]`.
pub open spec fn methods_ids(methods: Seq<Stmt>, from: int) -> Set<usize>
    decreases methods, methods.len() - from, 2nat,
{
    if 0 <= from < methods.len() {
        method_ids(methods[from]).union(methods_ids(methods, from + 1))
    } else {
        Set::empty()
    }
}

/// Whether no two references in the statement share an `id`.
pub open spec fn stmt_distinct(stmt: Stmt) -> bool
    decreases stmt, 0nat,
{
    match stmt {
        Stmt::Block { stmts } => stmts_distinct(stmts@, 0),
        Stmt::Break => true,
        Stmt::Class { methods, .. } => methods_distinct(methods@, 0),
        Stmt::Expression { expr } => expr_distinct(*expr),
        Stmt::Function { body, .. } => stmts_distinct(body@, 0),
        Stmt::If { condition, then_branch, els } => {
            &&& expr_distinct(*condition)
            &&& stmt_distinct(*then_branch)
            &&& expr_ids(*condition).disjoint(stmt_ids(*then_branch))
            &&& match els {
                Some(e) => stmt_distinct(*e) && expr_ids(*condition).union(
                    stmt_ids(*then_branch),
                ).disjoint(stmt_ids(*e)),
                None => true,
            }
        },
        Stmt::Print { expr } => expr_distinct(*expr),
        Stmt::Return { value } => optional_distinct(value),
        Stmt::Var { initializer, .. } => optional_distinct(initializer),
        Stmt::While { condition, body } => expr_distinct(*condition) && stmt_distinct(*body)
            && expr_ids(*condition).disjoint(stmt_ids(*body)),
    }
}

/// Whether no two references in the statements `stmts[from..]` share an
/// `id`.
pub open spec fn stmts_distinct(stmts: Seq<Stmt>, from: int) -> bool
    decreases stmts, stmts.len() - from, 0nat,
{
    if 0 <= from < stmts.len() {
        stmt_distinct(stmts[from]) && stmts_distinct(stmts, from + 1) && stmt_ids(
            stmts[from],
        ).disjoint(stmts_ids(stmts, from + 1))
    } else {
        true
    }
}

/// Whether no two references in the body of the method share an `id`.
pub open spec fn method_distinct(method: Stmt) -> bool
    decreases method, 1nat,
{
    match method {
        Stmt::Function { body, .. } => stmts_distinct(body@, 0),
        _ => true,
    }
}

/// Whether no two references in the bodies of the methods `methods[from..]`
/// share an `id`.
pub open spec fn methods_distinct(methods: Seq<Stmt>, from: int) -> bool
    decreases methods, methods.len() - from, 2nat,
{
    if 0 <= from < methods.len() {
        method_distinct(methods[from]) && methods_distinct(methods, from + 1) && method_ids(
            methods[from],
        ).disjoint(methods_ids(methods, from + 1))
    } else {
        true
    }
}

/// A table that fits a statement still fits it when it changes at other
/// `id`s only.
pub proof fn lemma_stmt_fits_stays(a: Map<usize, usize>, b: Map<usize, usize>, stmt: Stmt, n: nat)
    requires
        stmt_fits(a, stmt, n),
        agree(a, b, stmt_ids(stmt)),
    ensures
        stmt_fits(b, stmt, n),
    decreases stmt, 0nat,
{
    let ids = stmt_ids(stmt);
    match stmt {
        Stmt::Block { stmts } => {
            lemma_stmts_fit_stay(a, b, stmts@, 0, n + 1);
        },
        Stmt::Break => {},
        Stmt::Class { methods, .. } => {
            lemma_methods_fit_stay(a, b, methods@, 0, n + 2);
        },
        Stmt::Expression { expr } => {
            lemma_expr_fits_stays(a, b, *expr, n);
        },
        Stmt::Function { body, .. } => {
            lemma_stmts_fit_stay(a, b, body@, 0, n + 1);
        },
        Stmt::If { condition, then_branch, els } => {
            lemma_agree_on_part(a, b, ids, expr_ids(*condition));
            lemma_agree_on_part(a, b, ids, stmt_ids(*then_branch));
            lemma_expr_fits_stays(a, b, *condition, n);
            lemma_stmt_fits_stays(a, b, *then_branch, n);
            if let Some(e) = els {
                lemma_agree_on_part(a, b, ids, stmt_ids(*e));
                lemma_stmt_fits_stays(a, b, *e, n);
            }
        },
        Stmt::Print { expr } => {
            lemma_expr_fits_stays(a, b, *expr, n);
        },
        Stmt::Return { value } => {
            if let Some(v) = value {
                lemma_expr_fits_stays(a, b, *v, n);
            }
        },
        Stmt::Var { initializer, .. } => {
            if let Some(i) = initializer {
                lemma_expr_fits_stays(a, b, *i, n);
            }
        },
        Stmt::While { condition, body } => {
            lemma_agree_on_part(a, b, ids, expr_ids(*condition));
            lemma_agree_on_part(a, b, ids, stmt_ids(*body));
            lemma_expr_fits_stays(a, b, *condition, n);
            lemma_stmt_fits_stays(a, b, *body, n);
        },
    }
}

/// As `lemma_stmt_fits_stays`, for a list of statements.
pub proof fn lemma_stmts_fit_stay(
    a: Map<usize, usize>,
    b: Map<usize, usize>,
    stmts: Seq<Stmt>,
    from: int,
    n: nat,
)
    requires
        stmts_fit(a, stmts, from, n),
        agree(a, b, stmts_ids(stmts, from)),
    ensures
        stmts_fit(b, stmts, from, n),
    decreases stmts, stmts.len() - from, 0nat,
{
    if 0 <= from < stmts.len() {
        lemma_agree_on_part(a, b, stmts_ids(stmts, from), stmt_ids(stmts[from]));
        lemma_agree_on_part(a, b, stmts_ids(stmts, from), stmts_ids(stmts, from + 1));
        lemma_stmt_fits_stays(a, b, stmts[from], n);
        lemma_stmts_fit_stay(a, b, stmts, from + 1, n);
    }
}

/// As `lemma_stmt_fits_stays`, for the methods of a class.
pub proof fn lemma_methods_fit_stay(
    a: Map<usize, usize>,
    b: Map<usize, usize>,
    methods: Seq<Stmt>,
    from: int,
    n: nat,
)
    requires
        methods_fit(a, methods, from, n),
        agree(a, b, methods_ids(methods, from)),
    ensures
        methods_fit(b, methods, from, n),
    decreases methods, methods.len() - from, 2nat,
{
    if 0 <= from < methods.len() {
        lemma_agree_on_part(a, b, methods_ids(methods, from), method_ids(methods[from]));
        lemma_agree_on_part(a, b, methods_ids(methods, from), methods_ids(methods, from + 1));
        match methods[from] {
            Stmt::Function { body, .. } => {
                lemma_stmts_fit_stay(a, b, body@, 0, n);
            },
            _ => {},
        }
        lemma_methods_fit_stay(a, b, methods, from + 1, n);
    }
}

/// Declaring the parameters writes nothing into the table.
pub proof fn lemma_parameters_write_nothing(st: ResolverView, params: Seq<Token>, from: int)
    ensures
        introduce_all(st, params, from) matches Ok(s) ==> s.locals == st.locals,
    decreases params.len() - from,
{
    if 0 <= from < params.len() {
        if let Ok(s) = introduce(st, params[from].lexeme@) {
            lemma_parameters_write_nothing(s, params, from + 1);
        }
    }
}

/// The resolver writes the table at the `id`s of the statement only.
pub proof fn lemma_stmt_writes_own(st: ResolverView, stmt: Stmt)
    ensures
        resolve_stmt(st, stmt) matches Ok(s) ==> agree_outside(st.locals, s.locals, stmt_ids(stmt)),
    decreases stmt, 0nat, 0nat,
{
    match stmt {
        Stmt::Block { stmts } => {
            lemma_stmts_write_own(enter(st), stmts@, 0);
        },
        Stmt::Break => {},
        Stmt::Class { name, methods, .. } => {
            if let Ok(s) = introduce(st, name.lexeme@) {
                lemma_methods_write_own(define(enter(s), "this"@), methods@, 0);
            }
        },
        Stmt::Expression { expr } => {
            lemma_expr_writes_own(st, *expr);
        },
        Stmt::Function { name, params, body, .. } => {
            if let Ok(s) = introduce(st, name.lexeme@) {
                lemma_function_writes_own(s, FunctionType::Function, params@, body@);
            }
        },
        Stmt::If { condition, then_branch, els } => {
            lemma_expr_writes_own(st, *condition);
            if let Ok(s) = resolve_expr(st, *condition) {
                lemma_stmt_writes_own(s, *then_branch);
                if let Ok(t) = resolve_stmt(s, *then_branch) {
                    lemma_agree_outside_both(
                        st.locals,
                        s.locals,
                        t.locals,
                        expr_ids(*condition),
                        stmt_ids(*then_branch),
                    );
                    if let Some(e) = els {
                        lemma_stmt_writes_own(t, *e);
                        if let Ok(u) = resolve_stmt(t, *e) {
                            lemma_agree_outside_both(
                                st.locals,
                                t.locals,
                                u.locals,
                                expr_ids(*condition).union(stmt_ids(*then_branch)),
                                stmt_ids(*e),
                            );
                        }
                    } else {
                        assert(stmt_ids(stmt) =~= expr_ids(*condition).union(stmt_ids(*then_branch)));
                    }
                }
            }
        },
        Stmt::Print { expr } => {
            lemma_expr_writes_own(st, *expr);
        },
        Stmt::Return { value } => {
            if let Some(v) = value {
                lemma_expr_writes_own(st, *v);
            }
        },
        Stmt::Var { name, initializer } => {
            if let Ok(s) = declare(st, name.lexeme@) {
                if let Some(i) = initializer {
                    lemma_expr_writes_own(s, *i);
                }
            }
        },
        Stmt::While { condition, body } => {
            lemma_expr_writes_own(st, *condition);
            if let Ok(s) = resolve_expr(st, *condition) {
                lemma_stmt_writes_own(s, *body);
                if let Ok(t) = resolve_stmt(s, *body) {
                    lemma_agree_outside_both(
                        st.locals,
                        s.locals,
                        t.locals,
                        expr_ids(*condition),
                        stmt_ids(*body),
                    );
                }
            }
        },
    }
}

/// As `lemma_stmt_writes_own`, for a list of statements.
pub proof fn lemma_stmts_write_own(st: ResolverView, stmts: Seq<Stmt>, from: int)
    ensures
        resolve_stmts(st, stmts, from) matches Ok(s) ==> agree_outside(
            st.locals,
            s.locals,
            stmts_ids(stmts, from),
        ),
    decreases stmts, stmts.len() - from, 0nat,
{
    if 0 <= from < stmts.len() {
        lemma_stmt_writes_own(st, stmts[from]);
        if let Ok(s) = resolve_stmt(st, stmts[from]) {
            lemma_stmts_write_own(s, stmts, from + 1);
            if let Ok(t) = resolve_stmts(s, stmts, from + 1) {
                lemma_agree_outside_both(
                    st.locals,
                    s.locals,
                    t.locals,
                    stmt_ids(stmts[from]),
                    stmts_ids(stmts, from + 1),
                );
            }
        }
    }
}

/// As `lemma_stmt_writes_own`, for a function.
pub proof fn lemma_function_writes_own(
    st: ResolverView,
    kind: FunctionType,
    params: Seq<Token>,
    body: Seq<Stmt>,
)
    ensures
        resolve_function(st, kind, params, body) matches Ok(s) ==> agree_outside(
            st.locals,
            s.locals,
            stmts_ids(body, 0),
        ),
    decreases body, body.len() + 1, 0nat,
{
    let inner = ResolverView { function: Some(kind), ..enter(st) };
    lemma_parameters_write_nothing(inner, params, 0);
    if let Ok(s) = introduce_all(inner, params, 0) {
        lemma_stmts_write_own(s, body, 0);
    }
}

/// As `lemma_stmt_writes_own`, for the methods of a class.
pub proof fn lemma_methods_write_own(st: ResolverView, methods: Seq<Stmt>, from: int)
    ensures
        resolve_methods(st, methods, from) matches Ok(s) ==> agree_outside(
            st.locals,
            s.locals,
            methods_ids(methods, from),
        ),
    decreases methods, methods.len() - from, 1nat,
{
    if 0 <= from < methods.len() {
        match methods[from] {
            Stmt::Function { params, body, .. } => {
                lemma_function_writes_own(st, FunctionType::Method, params@, body@);
                if let Ok(s) = resolve_function(st, FunctionType::Method, params@, body@) {
                    lemma_methods_write_own(s, methods, from + 1);
                    if let Ok(t) = resolve_methods(s, methods, from + 1) {
                        lemma_agree_outside_both(
                            st.locals,
                            s.locals,
                            t.locals,
                            method_ids(methods[from]),
                            methods_ids(methods, from + 1),
                        );
                    }
                }
            },
            _ => {
                lemma_methods_write_own(st, methods, from + 1);
                if let Ok(t) = resolve_methods(st, methods, from + 1) {
                    assert(method_ids(methods[from]) =~= Set::<usize>::empty());
                    assert(methods_ids(methods, from) =~= methods_ids(methods, from + 1));
                }
            },
        }
    }
}

/// The table that the resolver makes of a statement fits the statement.
pub proof fn lemma_stmt_resolves_fit(st: ResolverView, stmt: Stmt)
    requires
        stmt_distinct(stmt),
        fresh(st.locals, stmt_ids(stmt)),
    ensures
        resolve_stmt(st, stmt) matches Ok(s) ==> stmt_fits(s.locals, stmt, st.scopes.len()),
    decreases stmt, 0nat, 0nat,
{
    let n = st.scopes.len();
    let ids = stmt_ids(stmt);
    match stmt {
        Stmt::Block { stmts } => {
            lemma_stmts_resolve_fit(enter(st), stmts@, 0);
        },
        Stmt::Break => {},
        Stmt::Class { name, methods, .. } => {
            if let Ok(s) = introduce(st, name.lexeme@) {
                lemma_methods_resolve_fit(define(enter(s), "this"@), methods@, 0);
            }
        },
        Stmt::Expression { expr } => {
            lemma_expr_resolves_fit(st, *expr);
        },
        Stmt::Function { name, params, body, .. } => {
            if let Ok(s) = introduce(st, name.lexeme@) {
                lemma_function_resolves_fit(s, FunctionType::Function, params@, body@);
            }
        },
        Stmt::If { condition, then_branch, els } => {
            lemma_fresh_part(st.locals, ids, expr_ids(*condition));
            lemma_fresh_part(st.locals, ids, stmt_ids(*then_branch));
            lemma_expr_resolves_fit(st, *condition);
            lemma_expression_keeps_scopes(st, *condition);
            lemma_expr_writes_own(st, *condition);
            if let Ok(s) = resolve_expr(st, *condition) {
                lemma_fresh_stays(st.locals, s.locals, expr_ids(*condition), stmt_ids(*then_branch));
                lemma_stmt_resolves_fit(s, *then_branch);
                lemma_statement_is_balanced(s, *then_branch);
                lemma_stmt_writes_own(s, *then_branch);
                if let Ok(t) = resolve_stmt(s, *then_branch) {
                    lemma_agree_apart(s.locals, t.locals, stmt_ids(*then_branch), expr_ids(*condition));
                    lemma_expr_fits_stays(s.locals, t.locals, *condition, n);
                    if let Some(e) = els {
                        lemma_fresh_part(st.locals, ids, stmt_ids(*e));
                        lemma_agree_outside_both(
                            st.locals,
                            s.locals,
                            t.locals,
                            expr_ids(*condition),
                            stmt_ids(*then_branch),
                        );
                        lemma_fresh_stays(
                            st.locals,
                            t.locals,
                            expr_ids(*condition).union(stmt_ids(*then_branch)),
                            stmt_ids(*e),
                        );
                        lemma_stmt_resolves_fit(t, *e);
                        lemma_stmt_writes_own(t, *e);
                        if let Ok(u) = resolve_stmt(t, *e) {
                            lemma_agree_apart(t.locals, u.locals, stmt_ids(*e), expr_ids(*condition));
                            lemma_agree_apart(
                                t.locals,
                                u.locals,
                                stmt_ids(*e),
                                stmt_ids(*then_branch),
                            );
                            lemma_expr_fits_stays(t.locals, u.locals, *condition, n);
                            lemma_stmt_fits_stays(t.locals, u.locals, *then_branch, n);
                        }
                    }
                }
            }
        },
        Stmt::Print { expr } => {
            lemma_expr_resolves_fit(st, *expr);
        },
        Stmt::Return { value } => {
            if let Some(v) = value {
                lemma_expr_resolves_fit(st, *v);
            }
        },
        Stmt::Var { name, initializer } => {
            if let Ok(s) = declare(st, name.lexeme@) {
                if let Some(i) = initializer {
                    lemma_expr_resolves_fit(s, *i);
                }
            }
        },
        Stmt::While { condition, body } => {
            lemma_fresh_part(st.locals, ids, expr_ids(*condition));
            lemma_fresh_part(st.locals, ids, stmt_ids(*body));
            lemma_expr_resolves_fit(st, *condition);
            lemma_expression_keeps_scopes(st, *condition);
            lemma_expr_writes_own(st, *condition);
            if let Ok(s) = resolve_expr(st, *condition) {
                lemma_fresh_stays(st.locals, s.locals, expr_ids(*condition), stmt_ids(*body));
                lemma_stmt_resolves_fit(s, *body);
                lemma_stmt_writes_own(s, *body);
                if let Ok(t) = resolve_stmt(s, *body) {
                    lemma_agree_apart(s.locals, t.locals, stmt_ids(*body), expr_ids(*condition));
                    lemma_expr_fits_stays(s.locals, t.locals, *condition, n);
                }
            }
        },
    }
}

/// As `lemma_stmt_resolves_fit`, for a list of statements.
pub proof fn lemma_stmts_resolve_fit(st: ResolverView, stmts: Seq<Stmt>, from: int)
    requires
        stmts_distinct(stmts, from),
        fresh(st.locals, stmts_ids(stmts, from)),
    ensures
        resolve_stmts(st, stmts, from) matches Ok(s) ==> stmts_fit(
            s.locals,
            stmts,
            from,
            st.scopes.len(),
        ),
    decreases stmts, stmts.len() - from, 0nat,
{
    if 0 <= from < stmts.len() {
        let ids = stmts_ids(stmts, from);
        lemma_fresh_part(st.locals, ids, stmt_ids(stmts[from]));
        lemma_fresh_part(st.locals, ids, stmts_ids(stmts, from + 1));
        lemma_stmt_resolves_fit(st, stmts[from]);
        lemma_statement_is_balanced(st, stmts[from]);
        lemma_stmt_writes_own(st, stmts[from]);
        if let Ok(s) = resolve_stmt(st, stmts[from]) {
            lemma_fresh_stays(st.locals, s.locals, stmt_ids(stmts[from]), stmts_ids(stmts, from + 1));
            lemma_stmts_resolve_fit(s, stmts, from + 1);
            lemma_stmts_write_own(s, stmts, from + 1);
            if let Ok(t) = resolve_stmts(s, stmts, from + 1) {
                lemma_agree_apart(
                    s.locals,
                    t.locals,
                    stmts_ids(stmts, from + 1),
                    stmt_ids(stmts[from]),
                );
                lemma_stmt_fits_stays(s.locals, t.locals, stmts[from], st.scopes.len());
            }
        }
    }
}

/// As `lemma_stmt_resolves_fit`, for a function: the table fits its body
/// where one scope more is open.
pub proof fn lemma_function_resolves_fit(
    st: ResolverView,
    kind: FunctionType,
    params: Seq<Token>,
    body: Seq<Stmt>,
)
    requires
        stmts_distinct(body, 0),
        fresh(st.locals, stmts_ids(body, 0)),
    ensures
        resolve_function(st, kind, params, body) matches Ok(s) ==> stmts_fit(
            s.locals,
            body,
            0,
            st.scopes.len() + 1,
        ),
    decreases body, body.len() + 1, 0nat,
{
    let inner = ResolverView { function: Some(kind), ..enter(st) };
    lemma_parameters_write_nothing(inner, params, 0);
    lemma_parameters_keep_scopes(inner, params, 0);
    if let Ok(s) = introduce_all(inner, params, 0) {
        lemma_stmts_resolve_fit(s, body, 0);
    }
}

/// As `lemma_stmt_resolves_fit`, for the methods of a class: the table fits
/// their bodies where one scope more is open than where the methods stand.
pub proof fn lemma_methods_resolve_fit(st: ResolverView, methods: Seq<Stmt>, from: int)
    requires
        methods_distinct(methods, from),
        fresh(st.locals, methods_ids(methods, from)),
    ensures
        resolve_methods(st, methods, from) matches Ok(s) ==> methods_fit(
            s.locals,
            methods,
            from,
            st.scopes.len() + 1,
        ),
    decreases methods, methods.len() - from, 1nat,
{
    if 0 <= from < methods.len() {
        let ids = methods_ids(methods, from);
        lemma_fresh_part(st.locals, ids, method_ids(methods[from]));
        lemma_fresh_part(st.locals, ids, methods_ids(methods, from + 1));
        match methods[from] {
            Stmt::Function { params, body, .. } => {
                assert(method_distinct(methods[from]));
                assert(method_ids(methods[from]) == stmts_ids(body@, 0));
                lemma_function_resolves_fit(st, FunctionType::Method, params@, body@);
                lemma_function_is_balanced(st, FunctionType::Method, params@, body@);
                lemma_function_writes_own(st, FunctionType::Method, params@, body@);
                if let Ok(s) = resolve_function(st, FunctionType::Method, params@, body@) {
                    lemma_fresh_stays(
                        st.locals,
                        s.locals,
                        method_ids(methods[from]),
                        methods_ids(methods, from + 1),
                    );
                    lemma_methods_resolve_fit(s, methods, from + 1);
                    lemma_methods_write_own(s, methods, from + 1);
                    if let Ok(t) = resolve_methods(s, methods, from + 1) {
                        lemma_agree_apart(
                            s.locals,
                            t.locals,
                            methods_ids(methods, from + 1),
                            stmts_ids(body@, 0),
                        );
                        lemma_stmts_fit_stay(s.locals, t.locals, body@, 0, st.scopes.len() + 1);
                    }
                }
            },
            _ => {
                lemma_methods_resolve_fit(st, methods, from + 1);
            },
        }
    }
}

/// The resolver's table fits the program: where no two references of the
/// program share an `id`, every depth in the table that the resolver makes
/// is less than the number of scopes that are open around its reference,
/// the global scope counted.
pub proof fn lemma_program_resolves_fit(stmts: Seq<Stmt>)
    requires
        stmts_distinct(stmts, 0),
    ensures
        resolve_program(stmts) matches Ok(locals) ==> stmts_fit(locals, stmts, 0, 1),
{
    lemma_stmts_resolve_fit(initial(), stmts, 0);
}

/// The depth table of a program holds entries for references of the program
/// only: every key of the table is the `id` of an expression of the program
/// that reads or assigns a variable or says `this`.
pub proof fn lemma_table_holds_references_only(stmts: Seq<Stmt>)
    ensures
        resolve_program(stmts) matches Ok(locals) ==> forall|id: usize|
            locals.contains_key(id) ==> #[trigger] stmts_ids(stmts, 0).contains(id),
{
    lemma_stmts_write_own(initial(), stmts, 0);
}

/// Whether every `id` of the set lies from `lo` up to, not including, `hi`.
pub open spec fn ids_within(ids: Set<usize>, lo: int, hi: int) -> bool {
    forall|id: usize| #[trigger] ids.contains(id) ==> lo <= id < hi
}

/// Whether the references of the expression have `id`s of their own, all
/// from `lo` up to `hi`.
pub open spec fn expr_within(expr: Expr, lo: int, hi: int) -> bool {
    expr_distinct(expr) && ids_within(expr_ids(expr), lo, hi)
}

/// As `expr_within`, for the expressions `exprs[from..]`.
pub open spec fn exprs_within(exprs: Seq<Expr>, from: int, lo: int, hi: int) -> bool {
    exprs_distinct(exprs, from) && ids_within(exprs_ids(exprs, from), lo, hi)
}

/// As `expr_within`, for a statement.
pub open spec fn stmt_within(stmt: Stmt, lo: int, hi: int) -> bool {
    stmt_distinct(stmt) && ids_within(stmt_ids(stmt), lo, hi)
}

/// As `expr_within`, for the statements `stmts[from..]`.
pub open spec fn stmts_within(stmts: Seq<Stmt>, from: int, lo: int, hi: int) -> bool {
    stmts_distinct(stmts, from) && ids_within(stmts_ids(stmts, from), lo, hi)
}

/// As `expr_within`, for the methods `methods[from..]`.
pub open spec fn methods_within(methods: Seq<Stmt>, from: int, lo: int, hi: int) -> bool {
    methods_distinct(methods, from) && ids_within(methods_ids(methods, from), lo, hi)
}

/// Sets of `id`s from ranges that lie one behind the other share no `id`.
pub proof fn lemma_ranges_apart(a: Set<usize>, b: Set<usize>, lo: int, mid: int, next: int, hi: int)
    requires
        ids_within(a, lo, mid),
        ids_within(b, next, hi),
        mid <= next,
    ensures
        a.disjoint(b),
        b.disjoint(a),
        ids_within(a.union(b), lo, hi) || lo > mid || next > hi,
        lo <= mid && next <= hi ==> ids_within(a.union(b), lo, hi),
{
    assert forall|id: usize| a.contains(id) implies !b.contains(id) by {}
    if lo <= mid && next <= hi {
        assert forall|id: usize| #[trigger] a.union(b).contains(id) implies lo <= id < hi by {
            if a.contains(id) {
            } else {
                assert(b.contains(id));
            }
        }
    }
}

/// `id`s within a range are within every wider range.
pub proof fn lemma_within_wider(ids: Set<usize>, lo: int, hi: int, lower: int, higher: int)
    requires
        ids_within(ids, lo, hi),
        lower <= lo,
        hi <= higher,
    ensures
        ids_within(ids, lower, higher),
{
}

/// The `id`s of a list with one more expression behind it.
pub proof fn lemma_exprs_push_ids(exprs: Seq<Expr>, from: int, e: Expr)
    requires
        0 <= from <= exprs.len(),
    ensures
        exprs_ids(exprs.push(e), from) =~= exprs_ids(exprs, from).union(expr_ids(e)),
    decreases exprs.len() - from,
{
    let more = exprs.push(e);
    if from < exprs.len() {
        lemma_exprs_push_ids(exprs, from + 1, e);
        assert(more[from] == exprs[from]);
    } else {
        assert(exprs_ids(more, from + 1) =~= Set::<usize>::empty());
        assert(more[from] == e);
    }
}

/// The `id`s of a list with one more statement behind it.
pub proof fn lemma_stmts_push_ids(stmts: Seq<Stmt>, from: int, s: Stmt)
    requires
        0 <= from <= stmts.len(),
    ensures
        stmts_ids(stmts.push(s), from) =~= stmts_ids(stmts, from).union(stmt_ids(s)),
    decreases stmts.len() - from,
{
    let more = stmts.push(s);
    if from < stmts.len() {
        lemma_stmts_push_ids(stmts, from + 1, s);
        assert(more[from] == stmts[from]);
    } else {
        assert(stmts_ids(more, from + 1) =~= Set::<usize>::empty());
        assert(more[from] == s);
    }
}

/// The `id`s of a list of methods with one more behind it.
pub proof fn lemma_methods_push_ids(methods: Seq<Stmt>, from: int, m: Stmt)
    requires
        0 <= from <= methods.len(),
    ensures
        methods_ids(methods.push(m), from) =~= methods_ids(methods, from).union(method_ids(m)),
    decreases methods.len() - from,
{
    let more = methods.push(m);
    if from < methods.len() {
        lemma_methods_push_ids(methods, from + 1, m);
        assert(more[from] == methods[from]);
    } else {
        assert(methods_ids(more, from + 1) =~= Set::<usize>::empty());
        assert(more[from] == m);
    }
}

/// `id`s within a range: so is every part of them.
pub proof fn lemma_ids_within_part(all: Set<usize>, part: Set<usize>, lo: int, hi: int)
    requires
        ids_within(all, lo, hi),
        part.subset_of(all),
    ensures
        ids_within(part, lo, hi),
{
    assert forall|id: usize| #[trigger] part.contains(id) implies lo <= id < hi by {
        assert(all.contains(id));
    }
}

/// The expressions with one more behind them have `id`s of their own, where
/// the `id`s of the new one lie behind those of the others.
pub proof fn lemma_exprs_push_within(
    exprs: Seq<Expr>,
    from: int,
    e: Expr,
    lo: int,
    mid: int,
    next: int,
    hi: int,
)
    requires
        0 <= from <= exprs.len(),
        exprs_within(exprs, from, lo, mid),
        expr_within(e, next, hi),
        lo <= mid <= next <= hi,
    ensures
        exprs_within(exprs.push(e), from, lo, hi),
    decreases exprs.len() - from,
{
    let more = exprs.push(e);
    lemma_exprs_push_ids(exprs, from, e);
    lemma_ranges_apart(exprs_ids(exprs, from), expr_ids(e), lo, mid, next, hi);
    if from < exprs.len() {
        let all = exprs_ids(exprs, from);
        lemma_ids_within_part(all, expr_ids(exprs[from]), lo, mid);
        lemma_ids_within_part(all, exprs_ids(exprs, from + 1), lo, mid);
        lemma_exprs_push_within(exprs, from + 1, e, lo, mid, next, hi);
        lemma_exprs_push_ids(exprs, from + 1, e);
        assert(more[from] == exprs[from]);
        lemma_ranges_apart(expr_ids(exprs[from]), expr_ids(e), lo, mid, next, hi);
        assert forall|id: usize| expr_ids(more[from]).contains(id) implies !exprs_ids(
            more,
            from + 1,
        ).contains(id) by {
            if exprs_ids(more, from + 1).contains(id) {
                assert(exprs_ids(exprs, from + 1).union(expr_ids(e)).contains(id));
            }
        }
    } else {
        assert(exprs_ids(more, from + 1) =~= Set::<usize>::empty());
        assert(exprs_distinct(more, from + 1));
        assert(more[from] == e);
    }
}

/// As `lemma_exprs_push_within`, for statements.
pub proof fn lemma_stmts_push_within(
    stmts: Seq<Stmt>,
    from: int,
    s: Stmt,
    lo: int,
    mid: int,
    next: int,
    hi: int,
)
    requires
        0 <= from <= stmts.len(),
        stmts_within(stmts, from, lo, mid),
        stmt_within(s, next, hi),
        lo <= mid <= next <= hi,
    ensures
        stmts_within(stmts.push(s), from, lo, hi),
    decreases stmts.len() - from,
{
    let more = stmts.push(s);
    lemma_stmts_push_ids(stmts, from, s);
    lemma_ranges_apart(stmts_ids(stmts, from), stmt_ids(s), lo, mid, next, hi);
    if from < stmts.len() {
        let all = stmts_ids(stmts, from);
        lemma_ids_within_part(all, stmt_ids(stmts[from]), lo, mid);
        lemma_ids_within_part(all, stmts_ids(stmts, from + 1), lo, mid);
        lemma_stmts_push_within(stmts, from + 1, s, lo, mid, next, hi);
        lemma_stmts_push_ids(stmts, from + 1, s);
        assert(more[from] == stmts[from]);
        lemma_ranges_apart(stmt_ids(stmts[from]), stmt_ids(s), lo, mid, next, hi);
        assert forall|id: usize| stmt_ids(more[from]).contains(id) implies !stmts_ids(
            more,
            from + 1,
        ).contains(id) by {
            if stmts_ids(more, from + 1).contains(id) {
                assert(stmts_ids(stmts, from + 1).union(stmt_ids(s)).contains(id));
            }
        }
    } else {
        assert(stmts_ids(more, from + 1) =~= Set::<usize>::empty());
        assert(stmts_distinct(more, from + 1));
        assert(more[from] == s);
    }
}

/// As `lemma_exprs_push_within`, for the methods of a class.
pub proof fn lemma_methods_push_within(
    methods: Seq<Stmt>,
    from: int,
    m: Stmt,
    lo: int,
    mid: int,
    next: int,
    hi: int,
)
    requires
        0 <= from <= methods.len(),
        methods_within(methods, from, lo, mid),
        method_distinct(m),
        ids_within(method_ids(m), next, hi),
        lo <= mid <= next <= hi,
    ensures
        methods_within(methods.push(m), from, lo, hi),
    decreases methods.len() - from,
{
    let more = methods.push(m);
    lemma_methods_push_ids(methods, from, m);
    lemma_ranges_apart(methods_ids(methods, from), method_ids(m), lo, mid, next, hi);
    if from < methods.len() {
        let all = methods_ids(methods, from);
        lemma_ids_within_part(all, method_ids(methods[from]), lo, mid);
        lemma_ids_within_part(all, methods_ids(methods, from + 1), lo, mid);
        lemma_methods_push_within(methods, from + 1, m, lo, mid, next, hi);
        lemma_methods_push_ids(methods, from + 1, m);
        assert(more[from] == methods[from]);
        lemma_ranges_apart(method_ids(methods[from]), method_ids(m), lo, mid, next, hi);
        assert forall|id: usize| method_ids(more[from]).contains(id) implies !methods_ids(
            more,
            from + 1,
        ).contains(id) by {
            if methods_ids(more, from + 1).contains(id) {
                assert(methods_ids(methods, from + 1).union(method_ids(m)).contains(id));
            }
        }
    } else {
        assert(methods_ids(more, from + 1) =~= Set::<usize>::empty());
        assert(methods_distinct(more, from + 1));
        assert(more[from] == m);
    }
}

/// A call has `id`s of its own where its callee has and its arguments have,
/// and the `id`s of the arguments lie behind those of the callee.
pub proof fn lemma_call_within(
    callee: Box<Expr>,
    args: Vec<Expr>,
    lo: int,
    mid: int,
    next: int,
    hi: int,
    end: int,
)
    requires
        expr_within(*callee, lo, mid),
        exprs_within(args@, 0, next, hi),
        lo <= mid <= next <= hi <= end,
    ensures
        expr_within(Expr::Call { callee, args }, lo, end),
{
    lemma_ranges_apart(expr_ids(*callee), exprs_ids(args@, 0), lo, mid, next, hi);
    lemma_within_wider(expr_ids(*callee).union(exprs_ids(args@, 0)), lo, hi, lo, end);
}

/// Two expressions one behind the other, each with `id`s of its own, share
/// no `id`, and their `id`s together lie in the range of both.
pub proof fn lemma_two_within(
    first: Expr,
    second: Expr,
    lo: int,
    mid: int,
    next: int,
    hi: int,
)
    requires
        expr_within(first, lo, mid),
        expr_within(second, next, hi),
        lo <= mid <= next <= hi,
    ensures
        expr_ids(first).disjoint(expr_ids(second)),
        ids_within(expr_ids(first).union(expr_ids(second)), lo, hi),
{
    lemma_ranges_apart(expr_ids(first), expr_ids(second), lo, mid, next, hi);
}

/// A statement with `id`s of its own has them as a method too.
pub proof fn lemma_method_within(m: Stmt, lo: int, hi: int)
    requires
        stmt_within(m, lo, hi),
    ensures
        method_distinct(m),
        ids_within(method_ids(m), lo, hi),
{
    match m {
        Stmt::Function { .. } => {},
        _ => {
            assert(method_ids(m) =~= Set::<usize>::empty());
        },
    }
}

/// Two statements with `id`s of their own that share none make a list with
/// `id`s of its own.
pub proof fn lemma_pair_within(list: Seq<Stmt>, lo: int, hi: int)
    requires
        list.len() == 2,
        stmt_within(list[0], lo, hi),
        stmt_within(list[1], lo, hi),
        stmt_ids(list[0]).disjoint(stmt_ids(list[1])),
    ensures
        stmts_within(list, 0, lo, hi),
        stmts_ids(list, 0) =~= stmt_ids(list[0]).union(stmt_ids(list[1])),
{
    assert(stmts_ids(list, 2) =~= Set::<usize>::empty());
    assert(stmts_distinct(list, 2));
    assert(stmts_ids(list, 1) =~= stmt_ids(list[1]));
    assert(stmts_distinct(list, 1));
    assert(stmts_ids(list, 0) =~= stmt_ids(list[0]).union(stmt_ids(list[1])));
    assert forall|id: usize| #[trigger] stmts_ids(list, 0).contains(id) implies lo <= id < hi by {
        if stmt_ids(list[0]).contains(id) {
        } else {
            assert(stmt_ids(list[1]).contains(id));
        }
    }
}

} // verus!
