//! Drawing the syntax tree as a graph in the DOT language.
use crate::ast::ast::{
    Arguments, Expr, Fun, Name, Operation, ParamList, Program, Stmt, Type, UOperation, Value,
};
use crate::ast::view::{ExprV, FunV, ParamV, StmtV};
use crate::display::{append_bool, append_int, append_nat, bool_text, int_text, nat_text};
use crate::visit::visit::{
    around, expr_walk, exprs_walk, fun_walk, funs_walk, lemma_around, lemma_run_append, leaf,
    opt_expr_walk, param_list_walk, params_walk, program_walk, run, stmt_walk, stmts_walk, type_walk,
    NodeV, Traverse, Visit, Visitor, element_type,
};
use vstd::prelude::*;

verus! {

pub open spec fn operation_name(op: Operation) -> Seq<char> {
    match op {
        Operation::Add => "Add"@,
        Operation::Mult => "Mult"@,
        Operation::Sub => "Sub"@,
        Operation::Div => "Div"@,
        Operation::Rem => "Rem"@,
        Operation::Eq => "Eq"@,
        Operation::Neq => "Neq"@,
        Operation::Lt => "Lt"@,
        Operation::Gt => "Gt"@,
        Operation::Lte => "Lte"@,
        Operation::Gte => "Gte"@,
    }
}

pub open spec fn uoperation_name(op: UOperation) -> Seq<char> {
    match op {
        UOperation::Neg => "Neg"@,
        UOperation::Not => "Not"@,
    }
}

pub open spec fn value_label(v: Value) -> Seq<char> {
    match v {
        Value::IntV(n) => "Value::IntV("@ + int_text(n as int) + ")"@,
        Value::BoolV(b) => "Value::BoolV("@ + bool_text(b) + ")"@,
        Value::UnitV => "Value::UnitV"@,
        Value::ArrayV { size, .. } => "Array(size: "@ + nat_text(size as nat) + ")"@,
        Value::AddrV(a) => "Addr("@ + nat_text(a.a as nat) + ")"@,
    }
}

pub open spec fn expr_label(e: ExprV) -> Seq<char> {
    match e {
        ExprV::Val(_) => "Expr::Literal"@,
        ExprV::BinaryOp(_, op, _) => "Expr::Binary("@ + operation_name(op) + ")"@,
        ExprV::UnaryOp(op, _) => "Expr::Unary("@ + uoperation_name(op) + ")"@,
        ExprV::Var(_) => "Expr::Identifier"@,
        ExprV::CallName(_, _) => "Expr::CallName"@,
        ExprV::CallRef(_, _) => "Expr::CallRef"@,
        ExprV::Array(_) => "Expr::Array"@,
        ExprV::Index(_, _) => "Expr::Index"@,
    }
}

pub open spec fn type_label(t: Type) -> Seq<char> {
    match t {
        Type::IntT => "Type::IntT"@,
        Type::BoolT => "Type::BoolT"@,
        Type::UnitT => "Type::UnitT"@,
        Type::ArrayT(_) => "Type::ArrayT"@,
    }
}

pub open spec fn stmt_label(s: StmtV) -> Seq<char> {
    match s {
        StmtV::ForD(_, _, _, _) => "Stmt::ForD"@,
        StmtV::If(_, _, _) => "Stmt::If"@,
        StmtV::Assign(_, _) => "Stmt::Assign"@,
        StmtV::ExprStmt(_) => "Stmt::ExprStmt"@,
        StmtV::Decl(_, _, _) => "Stmt::Decl"@,
        StmtV::Return(_) => "Stmt::Return"@,
        StmtV::Block(_) => "Stmt::Block"@,
        StmtV::Continue => "Stmt::Continue"@,
        StmtV::Break => "Stmt::Break"@,
        StmtV::While(_, _) => "Stmt::While"@,
    }
}

/// The label of the graph node drawn for a node of the tree.
pub open spec fn node_label(n: NodeV) -> Seq<char> {
    match n {
        NodeV::Program(_) => "Program"@,
        NodeV::Name(x) => "Name("@ + x + ")"@,
        NodeV::Value(v) => value_label(v),
        NodeV::Operation(op) => "Operation::"@ + operation_name(op),
        NodeV::UOperation(op) => "UOperation::"@ + uoperation_name(op),
        NodeV::Expr(e) => expr_label(e),
        NodeV::Type(t) => type_label(t),
        NodeV::Stmt(s) => stmt_label(s),
        NodeV::Arguments(_) => "Arguments"@,
        NodeV::ParamList(_) => "Paramlist"@,
        NodeV::Fun(_) => "Function"@,
    }
}

/// What a graph drawer holds: the number of the next node, the text so far, and the
/// numbers of the nodes entered and not yet left.
pub struct GraphV {
    pub next_id: usize,
    pub output: Seq<char>,
    pub stack: Seq<usize>,
}

pub open spec fn node_line(id: usize, label: Seq<char>) -> Seq<char> {
    "   n"@ + nat_text(id as nat) + " [label=\""@ + label + "\"];\n"@
}

pub open spec fn edge_line(parent: usize, id: usize) -> Seq<char> {
    "   n"@ + nat_text(parent as nat) + " -> n"@ + nat_text(id as nat) + "; \n"@
}

/// The number after `id`; numbering starts over after the largest.
pub open spec fn next_number(id: usize) -> usize {
    if id < usize::MAX {
        (id + 1) as usize
    } else {
        0
    }
}

/// A node is drawn with its label, and an edge from the node entered last, if any.
pub open spec fn enter(g: GraphV, label: Seq<char>) -> GraphV {
    GraphV {
        next_id: next_number(g.next_id),
        output: g.output + node_line(g.next_id, label) + if g.stack.len() > 0 {
            edge_line(g.stack.last(), g.next_id)
        } else {
            Seq::empty()
        },
        stack: g.stack.push(g.next_id),
    }
}

pub open spec fn leave(g: GraphV) -> GraphV {
    GraphV {
        stack: if g.stack.len() > 0 {
            g.stack.drop_last()
        } else {
            g.stack
        },
        ..g
    }
}

pub open spec fn graph_header() -> Seq<char> {
    "digraph AST {\n"@ + "  node [shape=box];\n"@
}

/// A graph drawer that has drawn nothing yet.
pub open spec fn empty_graph() -> GraphV {
    GraphV { next_id: 0, output: graph_header(), stack: Seq::empty() }
}

/// The DOT text of a graph drawer when it is done.
pub open spec fn finished(g: GraphV) -> Seq<char> {
    g.output + "}\n"@
}

/// Draws the tree in the DOT language: one node per node of the tree, and an edge from
/// each node to each of its children.
pub struct GraphVizVisitor {
    next_id: usize,
    output: String,
    stack: Vec<usize>,
}

impl View for GraphVizVisitor {
    type V = GraphV;

    closed spec fn view(&self) -> GraphV {
        GraphV { next_id: self.next_id, output: self.output@, stack: self.stack@ }
    }
}

impl GraphVizVisitor {
    pub fn new() -> (r: Self)
        ensures
            r@ == empty_graph(),
    {
        let mut output = String::new();
        output.append("digraph AST {\n");
        output.append("  node [shape=box];\n");
        let r = Self { next_id: 0, output, stack: Vec::new() };
        assert(r@.output =~= graph_header());
        r
    }

    pub fn finish(self) -> (r: String)
        ensures
            r@ == finished(self@),
    {
        let mut output = self.output;
        output.append("}\n");
        output
    }

    fn enter_node(&mut self, label: &str)
        ensures
            final(self)@ == enter(old(self)@, label@),
    {
        let id = self.next_id;
        self.next_id = if id < usize::MAX {
            id + 1
        } else {
            0
        };
        let ghost out0 = self.output@;
        self.output.append("   n");
        append_nat(&mut self.output, id as u64);
        self.output.append(" [label=\"");
        self.output.append(label);
        self.output.append("\"];\n");
        assert(self.output@ =~= out0 + node_line(id, label@));
        let n = self.stack.len();
        if n > 0 {
            let parent = self.stack[n - 1];
            let ghost out1 = self.output@;
            self.output.append("   n");
            append_nat(&mut self.output, parent as u64);
            self.output.append(" -> n");
            append_nat(&mut self.output, id as u64);
            self.output.append("; \n");
            assert(self.output@ =~= out1 + edge_line(parent, id));
        }
        self.stack.push(id);
    }

    fn exit_node(&mut self)
        ensures
            final(self)@ == leave(old(self)@),
    {
        let _ = self.stack.pop();
        assert(self@.stack =~= leave(old(self)@).stack);
    }
}

fn operation_text(op: &Operation) -> (r: &'static str)
    ensures
        r@ == operation_name(*op),
{
    match op {
        Operation::Add => "Add",
        Operation::Mult => "Mult",
        Operation::Sub => "Sub",
        Operation::Div => "Div",
        Operation::Rem => "Rem",
        Operation::Eq => "Eq",
        Operation::Neq => "Neq",
        Operation::Lt => "Lt",
        Operation::Gt => "Gt",
        Operation::Lte => "Lte",
        Operation::Gte => "Gte",
    }
}

fn uoperation_text(op: &UOperation) -> (r: &'static str)
    ensures
        r@ == uoperation_name(*op),
{
    match op {
        UOperation::Neg => "Neg",
        UOperation::Not => "Not",
    }
}

fn value_label_text(v: &Value) -> (r: String)
    ensures
        r@ == value_label(*v),
{
    let mut l = String::new();
    match v {
        Value::IntV(n) => {
            l.append("Value::IntV(");
            append_int(&mut l, *n as i64);
            l.append(")");
        },
        Value::BoolV(b) => {
            l.append("Value::BoolV(");
            append_bool(&mut l, *b);
            l.append(")");
        },
        Value::UnitV => {
            l.append("Value::UnitV");
        },
        Value::ArrayV { size, .. } => {
            l.append("Array(size: ");
            append_nat(&mut l, *size as u64);
            l.append(")");
        },
        Value::AddrV(a) => {
            l.append("Addr(");
            append_nat(&mut l, a.a as u64);
            l.append(")");
        },
    }
    assert(l@ =~= value_label(*v));
    l
}

fn expr_label_text(e: &Expr) -> (r: String)
    ensures
        r@ == expr_label(e@),
{
    let mut l = String::new();
    match e {
        Expr::Val { .. } => l.append("Expr::Literal"),
        Expr::BinaryOp { op, .. } => {
            l.append("Expr::Binary(");
            l.append(operation_text(op));
            l.append(")");
        },
        Expr::UnaryOp { op, .. } => {
            l.append("Expr::Unary(");
            l.append(uoperation_text(op));
            l.append(")");
        },
        Expr::Var { .. } => l.append("Expr::Identifier"),
        Expr::CallName { .. } => l.append("Expr::CallName"),
        Expr::CallRef { .. } => l.append("Expr::CallRef"),
        Expr::Array { .. } => l.append("Expr::Array"),
        Expr::Index { .. } => l.append("Expr::Index"),
    }
    assert(l@ =~= expr_label(e@));
    l
}

fn type_label_text(t: &Type) -> (r: &'static str)
    ensures
        r@ == type_label(*t),
{
    match t {
        Type::IntT => "Type::IntT",
        Type::BoolT => "Type::BoolT",
        Type::UnitT => "Type::UnitT",
        Type::ArrayT(_) => "Type::ArrayT",
    }
}

fn stmt_label_text(s: &Stmt) -> (r: &'static str)
    ensures
        r@ == stmt_label(s@),
{
    match s {
        Stmt::ForD { .. } => "Stmt::ForD",
        Stmt::If { .. } => "Stmt::If",
        Stmt::Assign { .. } => "Stmt::Assign",
        Stmt::ExprStmt { .. } => "Stmt::ExprStmt",
        Stmt::Decl { .. } => "Stmt::Decl",
        Stmt::Return { .. } => "Stmt::Return",
        Stmt::Block { .. } => "Stmt::Block",
        Stmt::Continue => "Stmt::Continue",
        Stmt::Break => "Stmt::Break",
        Stmt::While { .. } => "Stmt::While",
    }
}

impl Visitor for GraphVizVisitor {
    /// Entering a node draws it; leaving it goes back to its parent.
    open spec fn step(g: GraphV, ev: Visit) -> GraphV {
        match ev {
            Visit::Pre(n) => enter(g, node_label(n)),
            Visit::Post(_) => leave(g),
        }
    }

    fn previsit_program(&mut self, node: &Program) {
        self.enter_node("Program");
    }

    fn previsit_name(&mut self, node: &Name) {
        let mut l = String::new();
        l.append("Name(");
        l.append(node.as_str());
        l.append(")");
        assert(l@ =~= node_label(NodeV::Name(node@)));
        self.enter_node(l.as_str());
    }

    fn previsit_value(&mut self, node: &Value) {
        let l = value_label_text(node);
        self.enter_node(l.as_str());
    }

    fn previsit_operation(&mut self, node: &Operation) {
        let mut l = String::new();
        l.append("Operation::");
        l.append(operation_text(node));
        assert(l@ =~= node_label(NodeV::Operation(*node)));
        self.enter_node(l.as_str());
    }

    fn previsit_uoperation(&mut self, node: &UOperation) {
        let mut l = String::new();
        l.append("UOperation::");
        l.append(uoperation_text(node));
        assert(l@ =~= node_label(NodeV::UOperation(*node)));
        self.enter_node(l.as_str());
    }

    fn previsit_expr(&mut self, node: &Expr) {
        let l = expr_label_text(node);
        self.enter_node(l.as_str());
    }

    fn previsit_type(&mut self, node: &Type) {
        self.enter_node(type_label_text(node));
    }

    fn previsit_stmt(&mut self, node: &Stmt) {
        self.enter_node(stmt_label_text(node));
    }

    fn previsit_arguments(&mut self, node: &Arguments) {
        self.enter_node("Arguments");
    }

    fn previsit_paramlist(&mut self, node: &ParamList) {
        self.enter_node("Paramlist");
    }

    fn previsit_fun(&mut self, node: &Fun) {
        self.enter_node("Function");
    }

    fn postvisit_name(&mut self, node: &Name) {
        self.exit_node();
    }

    fn postvisit_value(&mut self, node: &Value) {
        self.exit_node();
    }

    fn postvisit_operation(&mut self, node: &Operation) {
        self.exit_node();
    }

    fn postvisit_uoperation(&mut self, node: &UOperation) {
        self.exit_node();
    }

    fn postvisit_expr(&mut self, node: &Expr) {
        self.exit_node();
    }

    fn postvisit_type(&mut self, node: &Type) {
        self.exit_node();
    }

    fn postvisit_stmt(&mut self, node: &Stmt) {
        self.exit_node();
    }

    fn postvisit_arguments(&mut self, node: &Arguments) {
        self.exit_node();
    }

    fn postvisit_paramlist(&mut self, node: &ParamList) {
        self.exit_node();
    }

    fn postvisit_fun(&mut self, node: &Fun) {
        self.exit_node();
    }

    fn postvisit_program(&mut self, node: &Program) {
        self.exit_node();
    }
}

/// The DOT text of a program's tree.
pub fn program_to_dot(program: &Program) -> (r: String)
    ensures
        r@ == finished(run::<GraphVizVisitor>(empty_graph(), program_walk(program@))),
{
    let mut viz = GraphVizVisitor::new();
    program.traverse(&mut viz);
    viz.finish()
}

/// The DOT text of an expression's tree.
pub fn expr_to_dot(program: &Expr) -> (r: String)
    ensures
        r@ == finished(run::<GraphVizVisitor>(empty_graph(), expr_walk(program@))),
{
    let mut viz = GraphVizVisitor::new();
    program.traverse(&mut viz);
    viz.finish()
}

/// A node whose children's visits leave the open nodes as they found them is left as it
/// was entered.
proof fn lemma_graph_around(g: GraphV, n: NodeV, inner: Seq<Visit>)
    requires
        run::<GraphVizVisitor>(enter(g, node_label(n)), inner).stack == enter(
            g,
            node_label(n),
        ).stack,
    ensures
        run::<GraphVizVisitor>(g, around(n, inner)).stack == g.stack,
{
    lemma_around::<GraphVizVisitor>(g, n, inner);
    assert(g.stack.push(g.next_id).drop_last() =~= g.stack);
}

proof fn lemma_graph_leaf(g: GraphV, n: NodeV)
    ensures
        run::<GraphVizVisitor>(g, leaf(n)).stack == g.stack,
{
    lemma_graph_around(g, n, Seq::empty());
}

/// Visits `a` then `b`, each of which leaves the open nodes as it found them, together
/// leave them so too.
proof fn lemma_graph_seq(g: GraphV, a: Seq<Visit>, b: Seq<Visit>)
    requires
        run::<GraphVizVisitor>(g, a).stack == g.stack,
        run::<GraphVizVisitor>(run::<GraphVizVisitor>(g, a), b).stack == run::<GraphVizVisitor>(
            g,
            a,
        ).stack,
    ensures
        run::<GraphVizVisitor>(g, a + b).stack == g.stack,
{
    lemma_run_append::<GraphVizVisitor>(g, a, b);
}

proof fn lemma_graph_type(g: GraphV, t: Type)
    ensures
        run::<GraphVizVisitor>(g, type_walk(t)).stack == g.stack,
    decreases t,
{
    let g1 = enter(g, node_label(NodeV::Type(t)));
    if t is ArrayT {
        let x = element_type(t);
        assert(decreases_to!(t => x));
        lemma_graph_type(g1, x);
        lemma_graph_around(g, NodeV::Type(t), type_walk(x));
    } else {
        lemma_graph_around(g, NodeV::Type(t), Seq::empty());
    }
}

proof fn lemma_graph_expr(g: GraphV, e: ExprV)
    ensures
        run::<GraphVizVisitor>(g, expr_walk(e)).stack == g.stack,
    decreases e, 0nat,
{
    let g1 = enter(g, node_label(NodeV::Expr(e)));
    let inner = match e {
        ExprV::Val(v) => leaf(NodeV::Value(v)),
        ExprV::BinaryOp(l, op, r) => expr_walk(*l) + leaf(NodeV::Operation(op)) + expr_walk(*r),
        ExprV::UnaryOp(op, x) => leaf(NodeV::UOperation(op)) + expr_walk(*x),
        ExprV::Var(n) => leaf(NodeV::Name(n)),
        ExprV::CallName(c, args) => leaf(NodeV::Name(c)) + exprs_walk(args),
        ExprV::CallRef(_, args) => exprs_walk(args),
        ExprV::Array(es) => exprs_walk(es),
        ExprV::Index(_, i) => expr_walk(*i),
    };
    match e {
        ExprV::Val(v) => lemma_graph_leaf(g1, NodeV::Value(v)),
        ExprV::BinaryOp(l, op, r) => {
            let a = expr_walk(*l);
            let b = leaf(NodeV::Operation(op));
            let c = expr_walk(*r);
            lemma_graph_expr(g1, *l);
            let g2 = run::<GraphVizVisitor>(g1, a);
            lemma_graph_leaf(g2, NodeV::Operation(op));
            lemma_graph_seq(g1, a, b);
            lemma_graph_expr(run::<GraphVizVisitor>(g1, a + b), *r);
            lemma_graph_seq(g1, a + b, c);
        },
        ExprV::UnaryOp(op, x) => {
            let a = leaf(NodeV::UOperation(op));
            lemma_graph_leaf(g1, NodeV::UOperation(op));
            lemma_graph_expr(run::<GraphVizVisitor>(g1, a), *x);
            lemma_graph_seq(g1, a, expr_walk(*x));
        },
        ExprV::Var(n) => lemma_graph_leaf(g1, NodeV::Name(n)),
        ExprV::CallName(c, args) => {
            let a = leaf(NodeV::Name(c));
            lemma_graph_leaf(g1, NodeV::Name(c));
            lemma_graph_exprs(run::<GraphVizVisitor>(g1, a), args);
            lemma_graph_seq(g1, a, exprs_walk(args));
        },
        ExprV::CallRef(_, args) => lemma_graph_exprs(g1, args),
        ExprV::Array(es) => lemma_graph_exprs(g1, es),
        ExprV::Index(_, i) => lemma_graph_expr(g1, *i),
    }
    lemma_graph_around(g, NodeV::Expr(e), inner);
}

proof fn lemma_graph_exprs(g: GraphV, es: Seq<ExprV>)
    ensures
        run::<GraphVizVisitor>(g, exprs_walk(es)).stack == g.stack,
    decreases es, 1nat,
{
    if es.len() > 0 {
        let a = exprs_walk(es.drop_last());
        lemma_graph_exprs(g, es.drop_last());
        lemma_graph_expr(run::<GraphVizVisitor>(g, a), es.last());
        lemma_graph_seq(g, a, expr_walk(es.last()));
    }
}

proof fn lemma_graph_opt_expr(g: GraphV, e: Option<Box<ExprV>>)
    ensures
        run::<GraphVizVisitor>(g, opt_expr_walk(e)).stack == g.stack,
{
    match e {
        Some(x) => lemma_graph_expr(g, *x),
        None => {},
    }
}

proof fn lemma_graph_stmt(g: GraphV, st: StmtV)
    ensures
        run::<GraphVizVisitor>(g, stmt_walk(st)).stack == g.stack,
    decreases st, 0nat,
{
    let g1 = enter(g, node_label(NodeV::Stmt(st)));
    let inner = match st {
        StmtV::ForD(init, cond, upd, body) => opt_expr_walk(init) + expr_walk(*cond) + stmt_walk(
            *body,
        ) + opt_expr_walk(upd),
        StmtV::While(cond, body) => expr_walk(*cond) + stmt_walk(*body),
        StmtV::If(cond, t, f) => expr_walk(*cond) + stmt_walk(*t) + match f {
            Some(x) => stmt_walk(*x),
            None => Seq::empty(),
        },
        StmtV::Assign(l, r) => expr_walk(*l) + expr_walk(*r),
        StmtV::ExprStmt(e) => expr_walk(*e),
        StmtV::Decl(_, name, _) => leaf(NodeV::Name(name)),
        StmtV::Return(e) => expr_walk(*e),
        StmtV::Block(ss) => stmts_walk(ss),
        StmtV::Continue => Seq::empty(),
        StmtV::Break => Seq::empty(),
    };
    match st {
        StmtV::ForD(init, cond, upd, body) => {
            let a = opt_expr_walk(init);
            let b = expr_walk(*cond);
            let c = stmt_walk(*body);
            let d = opt_expr_walk(upd);
            lemma_graph_opt_expr(g1, init);
            lemma_graph_expr(run::<GraphVizVisitor>(g1, a), *cond);
            lemma_graph_seq(g1, a, b);
            lemma_graph_stmt(run::<GraphVizVisitor>(g1, a + b), *body);
            lemma_graph_seq(g1, a + b, c);
            lemma_graph_opt_expr(run::<GraphVizVisitor>(g1, a + b + c), upd);
            lemma_graph_seq(g1, a + b + c, d);
        },
        StmtV::While(cond, body) => {
            let a = expr_walk(*cond);
            lemma_graph_expr(g1, *cond);
            lemma_graph_stmt(run::<GraphVizVisitor>(g1, a), *body);
            lemma_graph_seq(g1, a, stmt_walk(*body));
        },
        StmtV::If(cond, t, f) => {
            let a = expr_walk(*cond);
            let b = stmt_walk(*t);
            let c = match f {
                Some(x) => stmt_walk(*x),
                None => Seq::<Visit>::empty(),
            };
            lemma_graph_expr(g1, *cond);
            lemma_graph_stmt(run::<GraphVizVisitor>(g1, a), *t);
            lemma_graph_seq(g1, a, b);
            match f {
                Some(x) => lemma_graph_stmt(run::<GraphVizVisitor>(g1, a + b), *x),
                None => {},
            }
            lemma_graph_seq(g1, a + b, c);
        },
        StmtV::Assign(l, r) => {
            let a = expr_walk(*l);
            lemma_graph_expr(g1, *l);
            lemma_graph_expr(run::<GraphVizVisitor>(g1, a), *r);
            lemma_graph_seq(g1, a, expr_walk(*r));
        },
        StmtV::ExprStmt(e) => lemma_graph_expr(g1, *e),
        StmtV::Decl(_, name, _) => lemma_graph_leaf(g1, NodeV::Name(name)),
        StmtV::Return(e) => lemma_graph_expr(g1, *e),
        StmtV::Block(ss) => lemma_graph_stmts(g1, ss),
        _ => {},
    }
    lemma_graph_around(g, NodeV::Stmt(st), inner);
}

proof fn lemma_graph_stmts(g: GraphV, ss: Seq<StmtV>)
    ensures
        run::<GraphVizVisitor>(g, stmts_walk(ss)).stack == g.stack,
    decreases ss, 1nat,
{
    if ss.len() > 0 {
        let a = stmts_walk(ss.drop_last());
        lemma_graph_stmts(g, ss.drop_last());
        lemma_graph_stmt(run::<GraphVizVisitor>(g, a), ss.last());
        lemma_graph_seq(g, a, stmt_walk(ss.last()));
    }
}

proof fn lemma_graph_params(g: GraphV, ps: Seq<ParamV>)
    ensures
        run::<GraphVizVisitor>(g, params_walk(ps)).stack == g.stack,
    decreases ps.len(),
{
    if ps.len() > 0 {
        let a = params_walk(ps.drop_last());
        let b = type_walk(ps.last().typ);
        let c = leaf(NodeV::Name(ps.last().name));
        lemma_graph_params(g, ps.drop_last());
        lemma_graph_type(run::<GraphVizVisitor>(g, a), ps.last().typ);
        lemma_graph_seq(g, a, b);
        lemma_graph_leaf(run::<GraphVizVisitor>(g, a + b), NodeV::Name(ps.last().name));
        lemma_graph_seq(g, a + b, c);
    }
}

proof fn lemma_graph_fun(g: GraphV, f: FunV)
    ensures
        run::<GraphVizVisitor>(g, fun_walk(f)).stack == g.stack,
{
    let g1 = enter(g, node_label(NodeV::Fun(f)));
    let a = type_walk(f.typ);
    let b = leaf(NodeV::Name(f.name));
    let c = param_list_walk(f.params);
    let d = stmt_walk(f.body);
    lemma_graph_type(g1, f.typ);
    lemma_graph_leaf(run::<GraphVizVisitor>(g1, a), NodeV::Name(f.name));
    lemma_graph_seq(g1, a, b);
    let g2 = run::<GraphVizVisitor>(g1, a + b);
    lemma_graph_params(enter(g2, node_label(NodeV::ParamList(f.params))), f.params);
    lemma_graph_around(g2, NodeV::ParamList(f.params), params_walk(f.params));
    lemma_graph_seq(g1, a + b, c);
    lemma_graph_stmt(run::<GraphVizVisitor>(g1, a + b + c), f.body);
    lemma_graph_seq(g1, a + b + c, d);
    lemma_graph_around(g, NodeV::Fun(f), a + b + c + d);
}

proof fn lemma_graph_funs(g: GraphV, fs: Seq<FunV>)
    ensures
        run::<GraphVizVisitor>(g, funs_walk(fs)).stack == g.stack,
    decreases fs.len(),
{
    if fs.len() > 0 {
        let a = funs_walk(fs.drop_last());
        lemma_graph_funs(g, fs.drop_last());
        lemma_graph_fun(run::<GraphVizVisitor>(g, a), fs.last());
        lemma_graph_seq(g, a, fun_walk(fs.last()));
    }
}

/// Drawing a tree leaves every node it enters: after an expression, a statement or a
/// program is drawn, the nodes still open are those open before.
pub proof fn law_drawing_is_balanced(g: GraphV, e: ExprV, st: StmtV, fs: Seq<FunV>)
    ensures
        run::<GraphVizVisitor>(g, expr_walk(e)).stack == g.stack,
        run::<GraphVizVisitor>(g, stmt_walk(st)).stack == g.stack,
        run::<GraphVizVisitor>(g, program_walk(fs)).stack == g.stack,
{
    lemma_graph_expr(g, e);
    lemma_graph_stmt(g, st);
    lemma_graph_funs(enter(g, node_label(NodeV::Program(fs))), fs);
    lemma_graph_around(g, NodeV::Program(fs), funs_walk(fs));
}

/// The number of visits in `evs` that enter a node.
pub open spec fn pre_count(evs: Seq<Visit>) -> nat
    decreases evs.len(),
{
    if evs.len() == 0 {
        0
    } else {
        pre_count(evs.drop_last()) + if evs.last() is Pre {
            1nat
        } else {
            0nat
        }
    }
}

proof fn lemma_graph_prefix(g: GraphV, evs: Seq<Visit>)
    ensures
        g.output.is_prefix_of(run::<GraphVizVisitor>(g, evs).output),
    decreases evs.len(),
{
    if evs.len() > 0 {
        lemma_graph_prefix(g, evs.drop_last());
        let g1 = run::<GraphVizVisitor>(g, evs.drop_last());
        let g2 = run::<GraphVizVisitor>(g, evs);
        assert(g.output.is_prefix_of(g1.output));
        assert(g1.output.is_prefix_of(g2.output)) by {
            if let Visit::Pre(n) = evs.last() {
                let extra = node_line(g1.next_id, node_label(n)) + if g1.stack.len() > 0 {
                    edge_line(g1.stack.last(), g1.next_id)
                } else {
                    Seq::empty()
                };
                assert(g2.output == g1.output + extra);
                assert(g2.output.take(g1.output.len() as int) =~= g1.output);
            } else {
                assert(g2.output == g1.output);
                assert(g2.output.take(g1.output.len() as int) =~= g1.output);
            }
        }
        assert(g2.output.take(g.output.len() as int) =~= g1.output.take(g.output.len() as int));
    } else {
        assert(g.output.take(g.output.len() as int) =~= g.output);
    }
}

proof fn lemma_graph_count(g: GraphV, evs: Seq<Visit>)
    requires
        g.next_id + pre_count(evs) <= usize::MAX,
    ensures
        run::<GraphVizVisitor>(g, evs).next_id == g.next_id + pre_count(evs),
    decreases evs.len(),
{
    if evs.len() > 0 {
        lemma_graph_count(g, evs.drop_last());
    }
}

/// What a drawing writes: every visit keeps the text written so far and adds to its end;
/// each node entered gets the next number, one after the other; and the drawing of a
/// program starts with the graph header and the node `n0` labelled `Program`, and ends
/// with `}`.
pub proof fn law_drawing_shape(g: GraphV, evs: Seq<Visit>, fs: Seq<FunV>)
    ensures
        g.output.is_prefix_of(run::<GraphVizVisitor>(g, evs).output),
        g.next_id + pre_count(evs) <= usize::MAX ==> run::<GraphVizVisitor>(g, evs).next_id
            == g.next_id + pre_count(evs),
        exists|rest: Seq<char>|
            finished(run::<GraphVizVisitor>(empty_graph(), program_walk(fs))) == graph_header()
                + node_line(0, "Program"@) + rest + "}\n"@,
{
    lemma_graph_prefix(g, evs);
    if g.next_id + pre_count(evs) <= usize::MAX {
        lemma_graph_count(g, evs);
    }
    let e = empty_graph();
    let pre = seq![Visit::Pre(NodeV::Program(fs))];
    let tail = funs_walk(fs) + seq![Visit::Post(NodeV::Program(fs))];
    assert(program_walk(fs) =~= pre + tail);
    lemma_run_append::<GraphVizVisitor>(e, pre, tail);
    let g1 = run::<GraphVizVisitor>(e, pre);
    assert(pre.drop_last() =~= Seq::<Visit>::empty());
    assert(run::<GraphVizVisitor>(e, Seq::<Visit>::empty()) == e);
    assert(g1 == enter(e, node_label(NodeV::Program(fs))));
    assert(g1.output =~= graph_header() + node_line(0, "Program"@));
    lemma_graph_prefix(g1, tail);
    let g2 = run::<GraphVizVisitor>(g1, tail);
    let rest = g2.output.skip(g1.output.len() as int);
    assert(g2.output =~= g1.output + rest);
}

} // verus!
