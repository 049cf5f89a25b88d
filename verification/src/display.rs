//! The text in which values, operators, types and the syntax tree are shown.
use crate::ast::ast::{Arguments, Expr, Fun, Operation, ParamList, Stmt, Type, UOperation, Value};
use crate::ast::view::{exprs_view, lemma_stmts_view, params_view, stmts_view, ExprV, FunV, ParamV, StmtV};
use crate::parser::lexer::token::{LexemeV, Token, TokenLexeme, TokenTag, TokenV};
use std::rc::Rc;
use crate::conf::parts::address::Address;
use crate::parser::grammar::{add_sub_op_at, equality_op_at, mul_div_op_at, relational_op_at, unary_op_at};
use crate::parser::lexer::lexer::{lemma_lex_punct1, lemma_lex_punct2, lex_spec};
use vstd::prelude::*;

verus! {

/// The decimal digit `d` (`d < 10`).
pub open spec fn digit_text(d: nat) -> Seq<char> {
    if d == 0 {
        "0"@
    } else if d == 1 {
        "1"@
    } else if d == 2 {
        "2"@
    } else if d == 3 {
        "3"@
    } else if d == 4 {
        "4"@
    } else if d == 5 {
        "5"@
    } else if d == 6 {
        "6"@
    } else if d == 7 {
        "7"@
    } else if d == 8 {
        "8"@
    } else {
        "9"@
    }
}

/// The decimal numeral of `n`, without leading zeros.
pub open spec fn nat_text(n: nat) -> Seq<char>
    decreases n,
{
    if n < 10 {
        digit_text(n)
    } else {
        nat_text(n / 10) + digit_text(n % 10)
    }
}

/// The decimal numeral of `x`, with a minus sign when it is negative.
pub open spec fn int_text(x: int) -> Seq<char> {
    if x < 0 {
        "-"@ + nat_text((-x) as nat)
    } else {
        nat_text(x as nat)
    }
}

pub open spec fn bool_text(b: bool) -> Seq<char> {
    if b {
        "true"@
    } else {
        "false"@
    }
}

pub(crate) fn append_digit(out: &mut String, d: u64)
    requires
        d < 10,
    ensures
        final(out)@ == old(out)@ + digit_text(d as nat),
{
    let t = if d == 0 {
        "0"
    } else if d == 1 {
        "1"
    } else if d == 2 {
        "2"
    } else if d == 3 {
        "3"
    } else if d == 4 {
        "4"
    } else if d == 5 {
        "5"
    } else if d == 6 {
        "6"
    } else if d == 7 {
        "7"
    } else if d == 8 {
        "8"
    } else {
        "9"
    };
    out.append(t);
}

pub(crate) fn append_nat(out: &mut String, n: u64)
    ensures
        final(out)@ == old(out)@ + nat_text(n as nat),
    decreases n,
{
    if n < 10 {
        append_digit(out, n);
    } else {
        append_nat(out, n / 10);
        append_digit(out, n % 10);
        assert(old(out)@ + nat_text(n as nat) =~= old(out)@ + nat_text((n / 10) as nat) + digit_text(
            (n % 10) as nat,
        ));
    }
}

pub(crate) fn append_int(out: &mut String, x: i64)
    ensures
        final(out)@ == old(out)@ + int_text(x as int),
{
    if x < 0 {
        out.append("-");
        let m: u64 = if x == i64::MIN {
            9223372036854775808u64
        } else {
            (0 - x) as u64
        };
        append_nat(out, m);
        assert(old(out)@ + int_text(x as int) =~= old(out)@ + "-"@ + nat_text(m as nat));
    } else {
        append_nat(out, x as u64);
    }
}

pub(crate) fn append_bool(out: &mut String, b: bool)
    ensures
        final(out)@ == old(out)@ + bool_text(b),
{
    if b {
        out.append("true");
    } else {
        out.append("false");
    }
}

pub open spec fn address_text(a: Address) -> Seq<char> {
    nat_text(a.a as nat)
}

pub open spec fn value_text(v: Value) -> Seq<char> {
    match v {
        Value::IntV(x) => int_text(x as int),
        Value::BoolV(b) => bool_text(b),
        Value::UnitV => "()"@,
        Value::ArrayV { size, .. } => "Array(size: "@ + nat_text(size as nat) + ")"@,
        Value::AddrV(a) => "Addr("@ + address_text(a) + ")"@,
    }
}

pub open spec fn operation_text(op: Operation) -> Seq<char> {
    match op {
        Operation::Add => "+"@,
        Operation::Mult => "*"@,
        Operation::Sub => "-"@,
        Operation::Div => "/"@,
        Operation::Rem => "%"@,
        Operation::Eq => "=="@,
        Operation::Neq => "!="@,
        Operation::Lt => "<"@,
        Operation::Gt => ">"@,
        Operation::Lte => "<="@,
        Operation::Gte => ">="@,
    }
}

pub open spec fn uoperation_text(op: UOperation) -> Seq<char> {
    match op {
        UOperation::Neg => "-"@,
        UOperation::Not => "!"@,
    }
}

/// The binary operator that the token at `p` stands for, whichever level of the grammar
/// reads it.
pub open spec fn binary_operator_at(t: Seq<TokenV>, p: int) -> Option<Operation> {
    if mul_div_op_at(t, p) is Some {
        mul_div_op_at(t, p)
    } else if add_sub_op_at(t, p) is Some {
        add_sub_op_at(t, p)
    } else if relational_op_at(t, p) is Some {
        relational_op_at(t, p)
    } else {
        equality_op_at(t, p)
    }
}

/// The text of a binary operator lexes to a single token, which the grammar reads back as
/// the same operator.
pub proof fn law_operation_text_round_trip(op: Operation)
    ensures
        lex_spec(operation_text(op)) matches Some(ts) && ts.len() == 1 && binary_operator_at(ts, 0)
            == Some(op),
{
    match op {
        Operation::Add => {
            reveal_strlit("+");
            lemma_lex_punct1(operation_text(op));
        },
        Operation::Mult => {
            reveal_strlit("*");
            lemma_lex_punct1(operation_text(op));
        },
        Operation::Sub => {
            reveal_strlit("-");
            lemma_lex_punct1(operation_text(op));
        },
        Operation::Div => {
            reveal_strlit("/");
            lemma_lex_punct1(operation_text(op));
        },
        Operation::Rem => {
            reveal_strlit("%");
            lemma_lex_punct1(operation_text(op));
        },
        Operation::Eq => {
            reveal_strlit("==");
            lemma_lex_punct2(operation_text(op));
        },
        Operation::Neq => {
            reveal_strlit("!=");
            lemma_lex_punct2(operation_text(op));
        },
        Operation::Lt => {
            reveal_strlit("<");
            lemma_lex_punct1(operation_text(op));
        },
        Operation::Gt => {
            reveal_strlit(">");
            lemma_lex_punct1(operation_text(op));
        },
        Operation::Lte => {
            reveal_strlit("<=");
            lemma_lex_punct2(operation_text(op));
        },
        Operation::Gte => {
            reveal_strlit(">=");
            lemma_lex_punct2(operation_text(op));
        },
    }
}

/// Different binary operators are shown by different texts.
pub proof fn law_operation_texts_distinct(a: Operation, b: Operation)
    ensures
        a != b ==> operation_text(a) != operation_text(b),
{
    law_operation_text_round_trip(a);
    law_operation_text_round_trip(b);
}

/// The text of a unary operator lexes to a single token, which the grammar reads back as
/// the same operator.
pub proof fn law_uoperation_text_round_trip(op: UOperation)
    ensures
        lex_spec(uoperation_text(op)) matches Some(ts) && ts.len() == 1 && unary_op_at(ts, 0) == Some(
            op,
        ),
{
    match op {
        UOperation::Neg => {
            reveal_strlit("-");
            lemma_lex_punct1(uoperation_text(op));
        },
        UOperation::Not => {
            reveal_strlit("!");
            lemma_lex_punct1(uoperation_text(op));
        },
    }
}

pub open spec fn type_text(t: Type) -> Seq<char>
    decreases t,
{
    match t {
        Type::IntT => "int"@,
        Type::BoolT => "bool"@,
        Type::UnitT => "unit"@,
        Type::ArrayT(inner) => type_text(*inner) + "[]"@,
    }
}

impl Address {
    /// The address as its number.
    pub fn to_string(&self) -> (r: String)
        ensures
            r@ == address_text(*self),
    {
        let mut out = String::new();
        append_nat(&mut out, self.a as u64);
        out
    }
}

impl Value {
    /// The value as the language writes it: an integer, `true`, `false`, `()`, or a
    /// description of an array or an address.
    pub fn to_string(&self) -> (r: String)
        ensures
            r@ == value_text(*self),
    {
        let mut out = String::new();
        match self {
            Value::IntV(x) => append_int(&mut out, *x as i64),
            Value::BoolV(b) => append_bool(&mut out, *b),
            Value::UnitV => out.append("()"),
            Value::ArrayV { size, .. } => {
                out.append("Array(size: ");
                append_nat(&mut out, *size as u64);
                out.append(")");
            },
            Value::AddrV(a) => {
                out.append("Addr(");
                append_nat(&mut out, a.a as u64);
                out.append(")");
            },
        }
        assert(out@ =~= value_text(*self));
        out
    }
}

impl Operation {
    /// The operator's symbol.
    pub fn to_str(&self) -> (r: &'static str)
        ensures
            r@ == operation_text(*self),
    {
        match self {
            Operation::Add => "+",
            Operation::Mult => "*",
            Operation::Sub => "-",
            Operation::Div => "/",
            Operation::Rem => "%",
            Operation::Eq => "==",
            Operation::Neq => "!=",
            Operation::Lt => "<",
            Operation::Gt => ">",
            Operation::Lte => "<=",
            Operation::Gte => ">=",
        }
    }

    pub fn to_string(&self) -> (r: String)
        ensures
            r@ == operation_text(*self),
    {
        String::from_str(self.to_str())
    }
}

impl UOperation {
    /// The operator's symbol.
    pub fn to_str(&self) -> (r: &'static str)
        ensures
            r@ == uoperation_text(*self),
    {
        match self {
            UOperation::Neg => "-",
            UOperation::Not => "!",
        }
    }

    pub fn to_string(&self) -> (r: String)
        ensures
            r@ == uoperation_text(*self),
    {
        String::from_str(self.to_str())
    }
}

fn append_type(out: &mut String, t: &Type)
    ensures
        final(out)@ == old(out)@ + type_text(*t),
    decreases t,
{
    match t {
        Type::IntT => out.append("int"),
        Type::BoolT => out.append("bool"),
        Type::UnitT => out.append("unit"),
        Type::ArrayT(inner) => {
            append_type(out, inner);
            out.append("[]");
        },
    }
    assert(out@ =~= old(out)@ + type_text(*t));
}

impl Type {
    /// The type as the language writes it: `int`, `bool`, `unit`, or an element type
    /// followed by `[]`.
    pub fn to_string(&self) -> (r: String)
        ensures
            r@ == type_text(*self),
    {
        let mut out = String::new();
        append_type(&mut out, self);
        assert(out@ =~= type_text(*self));
        out
    }
}

/// The text `derive(Debug)` writes for an argument list with these arguments.
pub uninterp spec fn arguments_debug(args: Seq<ExprV>) -> Seq<char>;

/// The text `derive(Debug)` writes for a vector of these expressions.
pub uninterp spec fn exprs_debug(es: Seq<ExprV>) -> Seq<char>;

/// The text `derive(Debug)` writes for a parameter list with these parameters.
pub uninterp spec fn param_list_debug(ps: Seq<ParamV>) -> Seq<char>;

/// `format!("{:?}", ..)` of std on an argument list, through the `Debug` that `derive`
/// writes for it. Claimed: the text is a function of the arguments' content. What the text
/// is, is left unsaid.
#[verifier::external_body]
fn debug_arguments(a: &Arguments) -> (r: String)
    ensures
        r@ == arguments_debug(exprs_view(a.args@)),
{
    format!("{:?}", a)
}

/// `format!("{:?}", ..)` of std on a vector of expressions, through the `Debug` that
/// `derive` writes for `Expr`. Claimed: the text is a function of the expressions' content.
/// What the text is, is left unsaid.
#[verifier::external_body]
fn debug_exprs(es: &Vec<Rc<Expr>>) -> (r: String)
    ensures
        r@ == exprs_debug(exprs_view(es@)),
{
    format!("{:?}", es)
}

/// `format!("{:?}", ..)` of std on a parameter list, through the `Debug` that `derive`
/// writes for it. Claimed: the text is a function of the parameters' content. What the
/// text is, is left unsaid.
#[verifier::external_body]
fn debug_param_list(p: &ParamList) -> (r: String)
    ensures
        r@ == param_list_debug(params_view(p.params@)),
{
    format!("{:?}", p)
}

/// An expression as text: operands around their operator, a call with the text `Debug`
/// gives of its arguments.
pub open spec fn expr_text(e: ExprV) -> Seq<char>
    decreases e, 0nat,
{
    match e {
        ExprV::Val(v) => value_text(v),
        ExprV::BinaryOp(l, op, r) => expr_text(*l) + " "@ + operation_text(op) + " "@ + expr_text(
            *r,
        ),
        ExprV::Var(n) => n,
        ExprV::CallRef(f, args) => fun_text(*f) + " ("@ + arguments_debug(args) + ")"@,
        ExprV::CallName(c, args) => c + " ("@ + arguments_debug(args) + ")"@,
        ExprV::Array(es) => "["@ + exprs_debug(es) + "]"@,
        ExprV::Index(a, i) => a + "["@ + expr_text(*i) + "]"@,
        ExprV::UnaryOp(op, x) => uoperation_text(op) + expr_text(*x),
    }
}

/// A function as text: its name, the `Debug` text of its parameters, and its body.
pub open spec fn fun_text(f: FunV) -> Seq<char>
    decreases f, 0nat,
{
    f.name + "("@ + param_list_debug(f.params) + "){ "@ + stmt_text(f.body) + " }"@
}

/// A statement as text; loops show as nothing.
pub open spec fn stmt_text(s: StmtV) -> Seq<char>
    decreases s, 0nat,
{
    match s {
        StmtV::If(c, t, f) => match f {
            Some(x) => "if("@ + expr_text(*c) + "){ "@ + stmt_text(*t) + " } else{ "@ + stmt_text(
                *x,
            ) + " }"@,
            None => "if("@ + expr_text(*c) + ") "@ + stmt_text(*t),
        },
        StmtV::Assign(l, r) => expr_text(*l) + " = "@ + expr_text(*r) + ";"@,
        StmtV::ExprStmt(e) => expr_text(*e) + ";"@,
        StmtV::Decl(t, n, e) => match e {
            Some(x) => type_text(t) + " "@ + n + " "@ + expr_text(*x),
            None => type_text(t) + " "@ + n,
        },
        StmtV::Return(e) => "return "@ + expr_text(*e),
        StmtV::Block(ss) => "{"@ + stmts_text(ss) + "}"@,
        StmtV::Break => "break;"@,
        StmtV::Continue => "continue;"@,
        StmtV::ForD(_, _, _, _) => Seq::empty(),
        StmtV::While(_, _) => Seq::empty(),
    }
}

pub open spec fn stmts_text(ss: Seq<StmtV>) -> Seq<char>
    decreases ss, 1nat,
{
    if ss.len() == 0 {
        Seq::empty()
    } else {
        stmts_text(ss.drop_last()) + stmt_text(ss.last())
    }
}

fn append_expr(out: &mut String, e: &Expr)
    ensures
        final(out)@ == old(out)@ + expr_text(e@),
    decreases e, 0nat,
{
    let ghost o = out@;
    match e {
        Expr::Val { value } => {
            let t = value.to_string();
            out.append(t.as_str());
        },
        Expr::BinaryOp { lhs, op, rhs } => {
            append_expr(out, lhs);
            out.append(" ");
            out.append(op.to_str());
            out.append(" ");
            append_expr(out, rhs);
        },
        Expr::Var { name } => out.append(name.as_str()),
        Expr::CallRef { fun, args } => {
            append_fun(out, fun);
            out.append(" (");
            let t = debug_arguments(args);
            out.append(t.as_str());
            out.append(")");
        },
        Expr::CallName { callee, args } => {
            out.append(callee.as_str());
            out.append(" (");
            let t = debug_arguments(args);
            out.append(t.as_str());
            out.append(")");
        },
        Expr::Array { elements } => {
            out.append("[");
            let t = debug_exprs(elements);
            out.append(t.as_str());
            out.append("]");
        },
        Expr::Index { array, index } => {
            out.append(array.as_str());
            out.append("[");
            append_expr(out, index);
            out.append("]");
        },
        Expr::UnaryOp { op, expr } => {
            out.append(op.to_str());
            append_expr(out, expr);
        },
    }
    assert(out@ =~= o + expr_text(e@));
}

fn append_fun(out: &mut String, f: &Fun)
    ensures
        final(out)@ == old(out)@ + fun_text(f@),
    decreases f, 0nat,
{
    let ghost o = out@;
    out.append(f.name.as_str());
    out.append("(");
    let t = debug_param_list(&f.params);
    out.append(t.as_str());
    out.append("){ ");
    append_stmt(out, &f.body);
    out.append(" }");
    assert(out@ =~= o + fun_text(f@));
}

#[verifier::loop_isolation(false)]
fn append_stmt(out: &mut String, s: &Stmt)
    ensures
        final(out)@ == old(out)@ + stmt_text(s@),
    decreases s, 0nat,
{
    let ghost o = out@;
    match s {
        Stmt::If { condition, then_branch, else_branch } => match else_branch {
            Some(x) => {
                out.append("if(");
                append_expr(out, condition);
                out.append("){ ");
                append_stmt(out, then_branch);
                out.append(" } else{ ");
                append_stmt(out, x);
                out.append(" }");
            },
            None => {
                out.append("if(");
                append_expr(out, condition);
                out.append(") ");
                append_stmt(out, then_branch);
            },
        },
        Stmt::Assign { lhs, rhs } => {
            append_expr(out, lhs);
            out.append(" = ");
            append_expr(out, rhs);
            out.append(";");
        },
        Stmt::ExprStmt { expr } => {
            append_expr(out, expr);
            out.append(";");
        },
        Stmt::Decl { typ, name, expr } => {
            append_type(out, typ);
            out.append(" ");
            out.append(name.as_str());
            match expr {
                Some(x) => {
                    out.append(" ");
                    append_expr(out, x);
                },
                None => {},
            }
        },
        Stmt::Return { expr } => {
            out.append("return ");
            append_expr(out, expr);
        },
        Stmt::Block { stmts } => {
            out.append("{");
            let ghost o1 = out@;
            let ghost v = stmts_view(stmts@);
            proof {
                lemma_stmts_view(stmts@);
                assert(v.take(0) =~= Seq::<StmtV>::empty());
            }
            let mut k: usize = 0;
            while k < stmts.len()
                invariant
                    k <= stmts.len(),
                    out@ == o1 + stmts_text(v.take(k as int)),
                decreases stmts.len() - k,
            {
                proof {
                    assert(decreases_to!(stmts@ => stmts@[k as int]));
                }
                append_stmt(out, &stmts[k]);
                proof {
                    assert(v.take(k + 1).drop_last() =~= v.take(k as int));
                    assert(v.take(k + 1).last() == v[k as int]);
                }
                k = k + 1;
            }
            assert(v.take(stmts.len() as int) =~= v);
            out.append("}");
        },
        Stmt::Break => out.append("break;"),
        Stmt::Continue => out.append("continue;"),
        Stmt::ForD { .. } => {},
        Stmt::While { .. } => {},
    }
    assert(out@ =~= o + stmt_text(s@));
}

impl Expr {
    /// The expression as text; see `expr_text`.
    pub fn to_string(&self) -> (r: String)
        ensures
            r@ == expr_text(self@),
    {
        let mut out = String::new();
        append_expr(&mut out, self);
        assert(out@ =~= expr_text(self@));
        out
    }
}

impl Stmt {
    /// The statement as text; see `stmt_text`.
    pub fn to_string(&self) -> (r: String)
        ensures
            r@ == stmt_text(self@),
    {
        let mut out = String::new();
        append_stmt(&mut out, self);
        assert(out@ =~= stmt_text(self@));
        out
    }
}

impl Fun {
    /// The function as text; see `fun_text`.
    pub fn to_string(&self) -> (r: String)
        ensures
            r@ == fun_text(self@),
    {
        let mut out = String::new();
        append_fun(&mut out, self);
        assert(out@ =~= fun_text(self@));
        out
    }
}

/// The name of a token tag, as its variant is written.
pub open spec fn tag_text(t: TokenTag) -> Seq<char> {
    match t {
        TokenTag::INTLIT => "INTLIT"@,
        TokenTag::NAME => "NAME"@,
        TokenTag::UNKNOWN => "UNKNOWN"@,
        TokenTag::EOF => "EOF"@,
        TokenTag::SEMICOLON => "SEMICOLON"@,
        TokenTag::COMMA => "COMMA"@,
        TokenTag::LCURLY => "LCURLY"@,
        TokenTag::RCURLY => "RCURLY"@,
        TokenTag::LPAREN => "LPAREN"@,
        TokenTag::RPAREN => "RPAREN"@,
        TokenTag::LSQUARE => "LSQUARE"@,
        TokenTag::RSQUARE => "RSQUARE"@,
        TokenTag::EQ => "EQ"@,
        TokenTag::EQEQ => "EQEQ"@,
        TokenTag::NOTEQ => "NOTEQ"@,
        TokenTag::GEQ => "GEQ"@,
        TokenTag::LEQ => "LEQ"@,
        TokenTag::GT => "GT"@,
        TokenTag::LT => "LT"@,
        TokenTag::AND => "AND"@,
        TokenTag::OR => "OR"@,
        TokenTag::NOT => "NOT"@,
        TokenTag::PLUS => "PLUS"@,
        TokenTag::MINUS => "MINUS"@,
        TokenTag::TIMES => "TIMES"@,
        TokenTag::DIVIDE => "DIVIDE"@,
        TokenTag::MOD => "MOD"@,
        TokenTag::BOOL => "BOOL"@,
        TokenTag::INT => "INT"@,
        TokenTag::UNIT => "UNIT"@,
        TokenTag::TRUE => "TRUE"@,
        TokenTag::FALSE => "FALSE"@,
        TokenTag::CONTINUE => "CONTINUE"@,
        TokenTag::IF => "IF"@,
        TokenTag::ELSE => "ELSE"@,
        TokenTag::WHILE => "WHILE"@,
        TokenTag::FOR => "FOR"@,
        TokenTag::BREAK => "BREAK"@,
        TokenTag::RETURN => "RETURN"@,
        TokenTag::MAIN => "MAIN"@,
    }
}

/// `n` spaces.
pub open spec fn spaces(n: nat) -> Seq<char>
    decreases n,
{
    if n == 0 {
        Seq::empty()
    } else {
        spaces((n - 1) as nat) + " "@
    }
}

/// `s` followed by spaces up to width `w`; a longer `s` is kept whole.
pub open spec fn pad_right(s: Seq<char>, w: nat) -> Seq<char> {
    if s.len() >= w {
        s
    } else {
        s + spaces((w - s.len()) as nat)
    }
}

pub open spec fn lexeme_text(l: LexemeV) -> Seq<char> {
    match l {
        LexemeV::Int(n) => int_text(n as int),
        LexemeV::Name(s) => s,
        LexemeV::Unknown(c) => seq![c],
    }
}

/// A token as a line of a listing: its tag padded to 20 characters, its row padded to 4,
/// and its lexeme or `NONE`, separated by ` | `.
pub open spec fn token_text(t: TokenV) -> Seq<char> {
    pad_right(tag_text(t.tag), 20) + " | "@ + pad_right(nat_text(t.location.row as nat), 4) + " | "@
        + match t.lexeme {
        Some(l) => lexeme_text(l),
        None => "NONE"@,
    }
}

/// `String::from(char)` of std: a string holding just that character.
#[verifier::external_body]
fn char_string(c: char) -> (r: String)
    ensures
        r@ == seq![c],
{
    String::from(c)
}

fn append_padded(out: &mut String, s: &str, w: usize)
    ensures
        final(out)@ == old(out)@ + pad_right(s@, w as nat),
{
    let ghost o = out@;
    out.append(s);
    let n = s.unicode_len();
    let mut k = n;
    assert(o + s@ + spaces(0) =~= o + s@);
    while k < w
        invariant
            n == s@.len(),
            n <= k,
            k <= w || k == n,
            out@ == o + s@ + spaces((k - n) as nat),
        decreases w - k,
    {
        out.append(" ");
        k = k + 1;
        assert(spaces((k - n) as nat) == spaces((k - 1 - n) as nat) + " "@);
        assert(out@ =~= o + s@ + spaces((k - n) as nat));
    }
    assert(out@ =~= o + pad_right(s@, w as nat));
}

impl TokenTag {
    /// The tag's name.
    pub fn to_str(&self) -> (r: &'static str)
        ensures
            r@ == tag_text(*self),
    {
        match self {
            TokenTag::INTLIT => "INTLIT",
            TokenTag::NAME => "NAME",
            TokenTag::UNKNOWN => "UNKNOWN",
            TokenTag::EOF => "EOF",
            TokenTag::SEMICOLON => "SEMICOLON",
            TokenTag::COMMA => "COMMA",
            TokenTag::LCURLY => "LCURLY",
            TokenTag::RCURLY => "RCURLY",
            TokenTag::LPAREN => "LPAREN",
            TokenTag::RPAREN => "RPAREN",
            TokenTag::LSQUARE => "LSQUARE",
            TokenTag::RSQUARE => "RSQUARE",
            TokenTag::EQ => "EQ",
            TokenTag::EQEQ => "EQEQ",
            TokenTag::NOTEQ => "NOTEQ",
            TokenTag::GEQ => "GEQ",
            TokenTag::LEQ => "LEQ",
            TokenTag::GT => "GT",
            TokenTag::LT => "LT",
            TokenTag::AND => "AND",
            TokenTag::OR => "OR",
            TokenTag::NOT => "NOT",
            TokenTag::PLUS => "PLUS",
            TokenTag::MINUS => "MINUS",
            TokenTag::TIMES => "TIMES",
            TokenTag::DIVIDE => "DIVIDE",
            TokenTag::MOD => "MOD",
            TokenTag::BOOL => "BOOL",
            TokenTag::INT => "INT",
            TokenTag::UNIT => "UNIT",
            TokenTag::TRUE => "TRUE",
            TokenTag::FALSE => "FALSE",
            TokenTag::CONTINUE => "CONTINUE",
            TokenTag::IF => "IF",
            TokenTag::ELSE => "ELSE",
            TokenTag::WHILE => "WHILE",
            TokenTag::FOR => "FOR",
            TokenTag::BREAK => "BREAK",
            TokenTag::RETURN => "RETURN",
            TokenTag::MAIN => "MAIN",
        }
    }

    pub fn to_string(&self) -> (r: String)
        ensures
            r@ == tag_text(*self),
    {
        String::from_str(self.to_str())
    }
}

impl TokenLexeme {
    /// The lexeme as it stood in the text: the number, the name, or the character.
    pub fn to_string(&self) -> (r: String)
        ensures
            r@ == lexeme_text(self@),
    {
        match self {
            TokenLexeme::Int(n) => {
                let mut out = String::new();
                append_int(&mut out, *n);
                assert(out@ =~= lexeme_text(self@));
                out
            },
            TokenLexeme::Name(s) => s.clone(),
            TokenLexeme::Unknown(c) => char_string(*c),
        }
    }
}

impl Token {
    /// The token as a line of a listing; see `token_text`.
    pub fn to_string(&self) -> (r: String)
        ensures
            r@ == token_text(self@),
    {
        let mut out = String::new();
        append_padded(&mut out, self.kind().to_str(), 20);
        out.append(" | ");
        let mut row = String::new();
        append_nat(&mut row, self.row() as u64);
        append_padded(&mut out, row.as_str(), 4);
        out.append(" | ");
        match self.lexeme() {
            Some(l) => {
                let t = l.to_string();
                out.append(t.as_str());
            },
            None => out.append("NONE"),
        }
        assert(out@ =~= token_text(self@));
        out
    }
}

} // verus!
