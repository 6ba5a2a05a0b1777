//! Debug rendering of the stack-machine representation: each instruction by
//! its mnemonic, blocks with their labels, one statement per line. Not on
//! the critical path of the pipeline.

use vstd::prelude::*;
use vstd::string::StringExecFns;

use crate::ast_to_mir::fun_views;
use crate::mir::{Binop, Block, BlockV, Control, Function, FunctionV, Local, Parametric, Program,
    Relop, Statement, StmtV, Type, Unop, Value};
use crate::store::Identifier;

verus! {

broadcast use vstd::std_specs::vec::axiom_vec_index_decreases,
    vstd::std_specs::vec::axiom_vec_decreases_to_view, vstd::seq::axiom_seq_index_decreases,
    vstd::seq::axiom_seq_subrange_decreases;

/// The decimal digit for one value below ten.
pub open spec fn dec_digit(d: u64) -> char {
    if d == 0 {
        '0'
    } else if d == 1 {
        '1'
    } else if d == 2 {
        '2'
    } else if d == 3 {
        '3'
    } else if d == 4 {
        '4'
    } else if d == 5 {
        '5'
    } else if d == 6 {
        '6'
    } else if d == 7 {
        '7'
    } else if d == 8 {
        '8'
    } else {
        '9'
    }
}

/// The decimal digits of a number, most significant first.
pub open spec fn dec_str(n: u64) -> Seq<char>
    decreases n,
{
    if n < 10 {
        seq![dec_digit(n)]
    } else {
        dec_str(n / 10).push(dec_digit(n % 10))
    }
}

/// One decimal digit as text.
fn digit_text(d: u64) -> (r: &'static str)
    requires
        d < 10,
    ensures
        r@ == seq![dec_digit(d)],
{
    let r = if d == 0 {
        "0"
    } else if d == 1 {
        "1"
    } else if d == 2 {
        "2"
    } else if d == 3 {
        "3"
    } else if d == 4 {
        "4"
    } else if d == 5 {
        "5"
    } else if d == 6 {
        "6"
    } else if d == 7 {
        "7"
    } else if d == 8 {
        "8"
    } else {
        "9"
    };
    proof {
        reveal_strlit("0");
        reveal_strlit("1");
        reveal_strlit("2");
        reveal_strlit("3");
        reveal_strlit("4");
        reveal_strlit("5");
        reveal_strlit("6");
        reveal_strlit("7");
        reveal_strlit("8");
        reveal_strlit("9");
        assert(r@ =~= seq![dec_digit(d)]);
    }
    r
}

/// A number rendered in decimal.
pub fn u64_text(n: u64) -> (r: String)
    ensures
        r@ == dec_str(n),
    decreases n,
{
    if n < 10 {
        String::from_str(digit_text(n))
    } else {
        let mut s = u64_text(n / 10);
        s.append(digit_text(n % 10));
        proof {
            assert(s@ =~= dec_str(n / 10).push(dec_digit(n % 10)));
        }
        s
    }
}

impl Unop {
    /// The mnemonic of a unary operator.
    pub open spec fn text_spec(&self) -> Seq<char> {
        match self {
            Unop::I32Neg => "i32.neg"@,
            Unop::I64Neg => "i64.neg"@,
            Unop::F32Neg => "f32.neg"@,
            Unop::F64Neg => "f64.neg"@,
        }
    }

    /// The mnemonic of a unary operator: negation renders as `neg`.
    pub fn text(&self) -> (r: &'static str)
        ensures
            r@ == self.text_spec(),
    {
        match self {
            Unop::I32Neg => "i32.neg",
            Unop::I64Neg => "i64.neg",
            Unop::F32Neg => "f32.neg",
            Unop::F64Neg => "f64.neg",
        }
    }
}

impl Binop {
    /// The mnemonic of a binary operator.
    pub open spec fn text_spec(&self) -> Seq<char> {
        match self {
            Binop::I32Xor => "i32.xor"@,
            Binop::I32Add => "i32.add"@,
            Binop::I32Sub => "i32.sub"@,
            Binop::I32Mul => "i32.mul"@,
            Binop::I32Div => "i32.div"@,
            Binop::I32Rem => "i32.rem"@,
            Binop::I64Add => "i64.add"@,
            Binop::I64Sub => "i64.sub"@,
            Binop::I64Mul => "i64.mul"@,
            Binop::I64Div => "i64.div"@,
            Binop::I64Rem => "i64.rem"@,
            Binop::F32Add => "f32.add"@,
            Binop::F32Sub => "f32.sub"@,
            Binop::F32Mul => "f32.mul"@,
            Binop::F32Div => "f32.div"@,
            Binop::F64Add => "f64.add"@,
            Binop::F64Sub => "f64.sub"@,
            Binop::F64Mul => "f64.mul"@,
            Binop::F64Div => "f64.div"@,
        }
    }

    /// The mnemonic of a binary operator.
    pub fn text(&self) -> (r: &'static str)
        ensures
            r@ == self.text_spec(),
    {
        match self {
            Binop::I32Xor => "i32.xor",
            Binop::I32Add => "i32.add",
            Binop::I32Sub => "i32.sub",
            Binop::I32Mul => "i32.mul",
            Binop::I32Div => "i32.div",
            Binop::I32Rem => "i32.rem",
            Binop::I64Add => "i64.add",
            Binop::I64Sub => "i64.sub",
            Binop::I64Mul => "i64.mul",
            Binop::I64Div => "i64.div",
            Binop::I64Rem => "i64.rem",
            Binop::F32Add => "f32.add",
            Binop::F32Sub => "f32.sub",
            Binop::F32Mul => "f32.mul",
            Binop::F32Div => "f32.div",
            Binop::F64Add => "f64.add",
            Binop::F64Sub => "f64.sub",
            Binop::F64Mul => "f64.mul",
            Binop::F64Div => "f64.div",
        }
    }
}

impl Relop {
    /// The mnemonic of a comparison operator.
    pub open spec fn text_spec(&self) -> Seq<char> {
        match self {
            Relop::I32Eq => "i32.eq"@,
            Relop::I32Ne => "i32.ne"@,
            Relop::I32Lt => "i32.lt"@,
            Relop::I32Gt => "i32.gt"@,
            Relop::I32Le => "i32.le"@,
            Relop::I32Ge => "i32.ge"@,
            Relop::I64Eq => "i64.eq"@,
            Relop::I64Ne => "i64.ne"@,
            Relop::I64Lt => "i64.lt"@,
            Relop::I64Gt => "i64.gt"@,
            Relop::I64Le => "i64.le"@,
            Relop::I64Ge => "i64.ge"@,
            Relop::F32Eq => "f32.eq"@,
            Relop::F32Ne => "f32.ne"@,
            Relop::F32Lt => "f32.lt"@,
            Relop::F32Gt => "f32.gt"@,
            Relop::F32Le => "f32.le"@,
            Relop::F32Ge => "f32.ge"@,
            Relop::F64Eq => "f64.eq"@,
            Relop::F64Ne => "f64.ne"@,
            Relop::F64Lt => "f64.lt"@,
            Relop::F64Gt => "f64.gt"@,
            Relop::F64Le => "f64.le"@,
            Relop::F64Ge => "f64.ge"@,
        }
    }

    /// The mnemonic of a comparison operator.
    pub fn text(&self) -> (r: &'static str)
        ensures
            r@ == self.text_spec(),
    {
        match self {
            Relop::I32Eq => "i32.eq",
            Relop::I32Ne => "i32.ne",
            Relop::I32Lt => "i32.lt",
            Relop::I32Gt => "i32.gt",
            Relop::I32Le => "i32.le",
            Relop::I32Ge => "i32.ge",
            Relop::I64Eq => "i64.eq",
            Relop::I64Ne => "i64.ne",
            Relop::I64Lt => "i64.lt",
            Relop::I64Gt => "i64.gt",
            Relop::I64Le => "i64.le",
            Relop::I64Ge => "i64.ge",
            Relop::F32Eq => "f32.eq",
            Relop::F32Ne => "f32.ne",
            Relop::F32Lt => "f32.lt",
            Relop::F32Gt => "f32.gt",
            Relop::F32Le => "f32.le",
            Relop::F32Ge => "f32.ge",
            Relop::F64Eq => "f64.eq",
            Relop::F64Ne => "f64.ne",
            Relop::F64Lt => "f64.lt",
            Relop::F64Gt => "f64.gt",
            Relop::F64Le => "f64.le",
            Relop::F64Ge => "f64.ge",
        }
    }
}

impl Type {
    /// The name of a machine type.
    pub open spec fn text_spec(&self) -> Seq<char> {
        match self {
            Type::I32 => "i32"@,
            Type::I64 => "i64"@,
            Type::F32 => "f32"@,
            Type::F64 => "f64"@,
        }
    }

    /// The name of a machine type.
    pub fn text(&self) -> (r: &'static str)
        ensures
            r@ == self.text_spec(),
    {
        match self {
            Type::I32 => "i32",
            Type::I64 => "i64",
            Type::F32 => "f32",
            Type::F64 => "f64",
        }
    }
}

impl Parametric {
    /// The mnemonic of a parametric instruction.
    pub open spec fn text_spec(&self) -> Seq<char> {
        match self {
            Parametric::Drop => "drop"@,
        }
    }

    /// The mnemonic of a parametric instruction.
    pub fn text(&self) -> (r: &'static str)
        ensures
            r@ == self.text_spec(),
    {
        match self {
            Parametric::Drop => "drop",
        }
    }
}

/// The text of a control instruction: its mnemonic, and its target label.
pub open spec fn control_text(c: Control) -> Seq<char> {
    match c {
        Control::Return => "return"@,
        Control::Br(id) => "br "@ + dec_str(id),
        Control::BrIf(id) => "br_if "@ + dec_str(id),
    }
}

/// The text of a constant: its type name and its value in decimal, floats
/// by their IEEE bit patterns.
pub open spec fn value_text(v: Value) -> Seq<char> {
    match v {
        Value::I32(x) => if x >= 0 {
            "i32 "@ + dec_str(x as u64)
        } else {
            "i32 "@ + "-"@ + dec_str((-(x as int)) as u64)
        },
        Value::I64(x) => if x >= 0 {
            "i64 "@ + dec_str(x as u64)
        } else {
            "i64 "@ + "-"@ + dec_str((-(x as int)) as u64)
        },
        Value::F32(bits) => "f32 bits "@ + dec_str(bits as u64),
        Value::F64(bits) => "f64 bits "@ + dec_str(bits),
    }
}

/// The text of one statement: blocks nest their bodies.
pub open spec fn stmt_text(st: StmtV) -> Seq<char>
    decreases st,
{
    match st {
        StmtV::GetLocal { l_id } => "get _"@ + dec_str(l_id.id_spec()),
        StmtV::SetLocal { l_id } => "set _"@ + dec_str(l_id.id_spec()),
        StmtV::Const { val } => value_text(val),
        StmtV::Block { block } => block_text(block),
        StmtV::Unop { unop } => unop.text_spec(),
        StmtV::Binop { binop } => binop.text_spec(),
        StmtV::Relop { relop } => relop.text_spec(),
        StmtV::Call { call } => match call {
            crate::mir::Call::Direct(fun_id) => "call "@ + dec_str(fun_id.id_spec()),
        },
        StmtV::Parametric { param } => param.text_spec(),
        StmtV::Control { cntrl } => control_text(cntrl),
    }
}

/// The text of a list of statements, one per indented line.
pub open spec fn stmts_text(ss: Seq<StmtV>) -> Seq<char>
    decreases ss,
{
    if ss.len() == 0 {
        Seq::empty()
    } else {
        stmts_text(ss.drop_last()) + "  "@ + stmt_text(ss.last()) + "
"@
    }
}

/// The text of a block: its kind, its label and its body; an if-else shows
/// both branches.
pub open spec fn block_text(b: BlockV) -> Seq<char>
    decreases b,
{
    match b {
        BlockV::Block { id, stmts, .. } => "block "@ + dec_str(id) + " {
"@
            + stmts_text(stmts) + "}"@,
        BlockV::Loop { id, stmts, .. } => "loop "@ + dec_str(id) + " {
"@
            + stmts_text(stmts) + "}"@,
        BlockV::If { id, then_stmts, else_stmts, .. } => "if "@ + dec_str(id) + " {
"@
            + stmts_text(then_stmts) + "} else {
"@ + stmts_text(else_stmts) + "}"@,
    }
}

/// The text of a signature's type list, comma separated.
pub open spec fn type_list_text(ts: Seq<Type>) -> Seq<char>
    decreases ts,
{
    if ts.len() == 0 {
        Seq::empty()
    } else if ts.len() == 1 {
        ts.last().text_spec()
    } else {
        type_list_text(ts.drop_last()) + ", "@ + ts.last().text_spec()
    }
}

/// The text of the local declarations, one per line.
pub open spec fn locals_text(ls: Seq<Local>) -> Seq<char>
    decreases ls,
{
    if ls.len() == 0 {
        Seq::empty()
    } else {
        locals_text(ls.drop_last()) + "    _"@ + dec_str(ls.last().id.id_spec()) + "
"@
    }
}

/// The text of one function: its identifier, signature, locals and body.
pub open spec fn fun_text(f: FunctionV) -> Seq<char> {
    "  "@ + f.ident + "("@ + type_list_text(f.param_types) + ") "@ + type_list_text(
        f.ret_types,
    ) + " {
"@ + locals_text(f.locals) + "    "@ + block_text(f.body) + "
  }"@
}

/// The text of a list of functions, blank lines between.
pub open spec fn funs_text(fs: Seq<FunctionV>) -> Seq<char>
    decreases fs,
{
    if fs.len() == 0 {
        Seq::empty()
    } else {
        funs_text(fs.drop_last()) + fun_text(fs.last()) + "

"@
    }
}

impl Control {
    /// A control instruction rendered with its target label.
    pub fn render(&self) -> (r: String)
        ensures
            r@ == control_text(*self),
    {
        match self {
            Control::Return => String::from_str("return"),
            Control::Br(bb_id) => {
                let mut s = String::from_str("br ");
                let t = u64_text(*bb_id);
                s.append(t.as_str());
                s
            },
            Control::BrIf(bb_id) => {
                let mut s = String::from_str("br_if ");
                let t = u64_text(*bb_id);
                s.append(t.as_str());
                s
            },
        }
    }
}

impl Statement {
    /// One statement rendered on its own lines, blocks nested inside.
    pub fn render(&self) -> (r: String)
        ensures
            r@ == stmt_text(self@),
        decreases self,
    {
        match self {
            Statement::GetLocal { l_id } => {
                let mut s = String::from_str("get _");
                let t = u64_text(l_id.raw());
                s.append(t.as_str());
                s
            },
            Statement::SetLocal { l_id } => {
                let mut s = String::from_str("set _");
                let t = u64_text(l_id.raw());
                s.append(t.as_str());
                s
            },
            Statement::Const { val } => {
                match val {
                    Value::I32(x) => {
                        let mut s = String::from_str("i32 ");
                        let mag: u64 = if *x >= 0 {
                            *x as u64
                        } else {
                            s.append("-");
                            (-(*x as i64)) as u64
                        };
                        proof {
                            if *x < 0 {
                                assert(mag == (-((*x) as int)) as u64);
                            }
                        }
                        let t = u64_text(mag);
                        s.append(t.as_str());
                        proof {
                            assert(s@ =~= value_text(Value::I32(*x)));
                        }
                        s
                    },
                    Value::I64(x) => {
                        let mut s = String::from_str("i64 ");
                        let mag: u64 = if *x >= 0 {
                            *x as u64
                        } else if *x == i64::MIN {
                            s.append("-");
                            9223372036854775808u64
                        } else {
                            s.append("-");
                            (-*x) as u64
                        };
                        proof {
                            if *x < 0 {
                                assert(mag == (-((*x) as int)) as u64);
                            }
                        }
                        let t = u64_text(mag);
                        s.append(t.as_str());
                        proof {
                            assert(s@ =~= value_text(Value::I64(*x)));
                        }
                        s
                    },
                    Value::F32(bits) => {
                        let mut s = String::from_str("f32 bits ");
                        let t = u64_text(*bits as u64);
                        s.append(t.as_str());
                        s
                    },
                    Value::F64(bits) => {
                        let mut s = String::from_str("f64 bits ");
                        let t = u64_text(*bits);
                        s.append(t.as_str());
                        s
                    },
                }
            },
            Statement::Block { block } => (**block).render(),
            Statement::Unop { unop } => String::from_str(unop.text()),
            Statement::Binop { binop } => String::from_str(binop.text()),
            Statement::Relop { relop } => String::from_str(relop.text()),
            Statement::Call { call } => {
                match call {
                    crate::mir::Call::Direct(fun_id) => {
                        let mut s = String::from_str("call ");
                        let t = u64_text(fun_id.raw());
                        s.append(t.as_str());
                        s
                    },
                }
            },
            Statement::Parametric { param } => String::from_str(param.text()),
            Statement::Control { cntrl } => cntrl.render(),
        }
    }
}

/// A list of statements, one per line.
#[verifier::loop_isolation(false)]
fn render_stmts(stmts: &Vec<Statement>) -> (r: String)
    ensures
        r@ == stmts_text(crate::mir::stmt_views(stmts@)),
    decreases stmts,
{
    let ghost sv = crate::mir::stmt_views(stmts@);
    proof {
        crate::mir::lemma_stmt_views(stmts@);
    }
    let mut s = String::new();
    let n = stmts.len();
    let mut i: usize = 0;
    proof {
        assert(sv.take(0) =~= Seq::<StmtV>::empty());
        assert(s@ =~= stmts_text(sv.take(0)));
    }
    while i < n
        invariant
            i <= n,
            n == stmts@.len(),
            sv.len() == n,
            forall|j: int| 0 <= j < n ==> sv[j] == (#[trigger] stmts@[j])@,
            s@ == stmts_text(sv.take(i as int)),
        decreases n - i,
    {
        let line = stmts[i].render();
        s.append("  ");
        s.append(line.as_str());
        s.append("\n");
        proof {
            assert(sv.take(i as int + 1).drop_last() =~= sv.take(i as int));
            assert(sv.take(i as int + 1).last() == sv[i as int]);
            assert(s@ =~= stmts_text(sv.take(i as int + 1)));
        }
        i = i + 1;
    }
    proof {
        assert(sv.take(n as int) =~= sv);
    }
    s
}

impl Block {
    /// A block rendered with its label and body; an if-else shows both
    /// branches.
    pub fn render(&self) -> (r: String)
        ensures
            r@ == block_text(self@),
        decreases self,
    {
        match self {
            Block::Block { id, stmts, .. } => {
                let mut s = String::from_str("block ");
                let t = u64_text(*id);
                s.append(t.as_str());
                s.append(" {\n");
                let body = render_stmts(stmts);
                s.append(body.as_str());
                s.append("}");
                proof {
                    assert(s@ =~= block_text(self@));
                }
                s
            },
            Block::Loop { id, stmts, .. } => {
                let mut s = String::from_str("loop ");
                let t = u64_text(*id);
                s.append(t.as_str());
                s.append(" {\n");
                let body = render_stmts(stmts);
                s.append(body.as_str());
                s.append("}");
                proof {
                    assert(s@ =~= block_text(self@));
                }
                s
            },
            Block::If { id, then_stmts, else_stmts, .. } => {
                let mut s = String::from_str("if ");
                let t = u64_text(*id);
                s.append(t.as_str());
                s.append(" {\n");
                let body = render_stmts(then_stmts);
                s.append(body.as_str());
                s.append("} else {\n");
                let els = render_stmts(else_stmts);
                s.append(els.as_str());
                s.append("}");
                proof {
                    assert(s@ =~= block_text(self@));
                }
                s
            },
        }
    }
}

impl Function {
    /// A function rendered with its identifier, signature, locals and body.
    #[verifier::loop_isolation(false)]
    pub fn render(&self) -> (r: String)
        ensures
            r@ == fun_text(self@),
    {
        let mut s = String::from_str("  ");
        s.append(self.ident.as_str());
        s.append("(");
        let ghost base1 = s@;
        let n = self.param_types.len();
        let mut i: usize = 0;
        proof {
            assert(self.param_types@.take(0) =~= Seq::<Type>::empty());
            assert(s@ =~= base1 + type_list_text(self.param_types@.take(0)));
        }
        while i < n
            invariant
                i <= n,
                n == self.param_types@.len(),
                s@ == base1 + type_list_text(self.param_types@.take(i as int)),
            decreases n - i,
        {
            if i > 0 {
                s.append(", ");
            }
            s.append(self.param_types[i].text());
            proof {
                let ts = self.param_types@;
                assert(ts.take(i as int + 1).drop_last() =~= ts.take(i as int));
                assert(ts.take(i as int + 1).last() == ts[i as int]);
                assert(s@ =~= base1 + type_list_text(ts.take(i as int + 1)));
            }
            i = i + 1;
        }
        proof {
            assert(self.param_types@.take(n as int) =~= self.param_types@);
        }
        s.append(") ");
        let ghost base2 = s@;
        let nr = self.ret_types.len();
        let mut j: usize = 0;
        proof {
            assert(self.ret_types@.take(0) =~= Seq::<Type>::empty());
            assert(s@ =~= base2 + type_list_text(self.ret_types@.take(0)));
        }
        while j < nr
            invariant
                j <= nr,
                nr == self.ret_types@.len(),
                s@ == base2 + type_list_text(self.ret_types@.take(j as int)),
            decreases nr - j,
        {
            if j > 0 {
                s.append(", ");
            }
            s.append(self.ret_types[j].text());
            proof {
                let ts = self.ret_types@;
                assert(ts.take(j as int + 1).drop_last() =~= ts.take(j as int));
                assert(ts.take(j as int + 1).last() == ts[j as int]);
                assert(s@ =~= base2 + type_list_text(ts.take(j as int + 1)));
            }
            j = j + 1;
        }
        proof {
            assert(self.ret_types@.take(nr as int) =~= self.ret_types@);
        }
        s.append(" {\n");
        let ghost base3 = s@;
        let nl = self.locals.len();
        let mut k: usize = 0;
        proof {
            assert(self.locals@.take(0) =~= Seq::<Local>::empty());
            assert(s@ =~= base3 + locals_text(self.locals@.take(0)));
        }
        while k < nl
            invariant
                k <= nl,
                nl == self.locals@.len(),
                s@ == base3 + locals_text(self.locals@.take(k as int)),
            decreases nl - k,
        {
            s.append("    _");
            let t = u64_text(self.locals[k].id.raw());
            s.append(t.as_str());
            s.append("\n");
            proof {
                let ls = self.locals@;
                assert(ls.take(k as int + 1).drop_last() =~= ls.take(k as int));
                assert(ls.take(k as int + 1).last() == ls[k as int]);
                assert(s@ =~= base3 + locals_text(ls.take(k as int + 1)));
            }
            k = k + 1;
        }
        proof {
            assert(self.locals@.take(nl as int) =~= self.locals@);
        }
        let body = self.body.render();
        s.append("    ");
        s.append(body.as_str());
        s.append("\n  }");
        proof {
            assert(s@ =~= fun_text(self@));
        }
        s
    }
}

impl Program {
    /// The whole program rendered for inspection.
    #[verifier::loop_isolation(false)]
    pub fn render(&self) -> (r: String)
        ensures
            r@ == "MIR {\n"@ + funs_text(fun_views(self.funs@)) + "}"@,
    {
        let ghost fv = fun_views(self.funs@);
        proof {
            crate::ast_to_mir::lemma_fun_views(self.funs@);
        }
        let mut s = String::from_str("MIR {\n");
        let ghost base = s@;
        let n = self.funs.len();
        let mut i: usize = 0;
        proof {
            assert(fv.take(0) =~= Seq::<FunctionV>::empty());
            assert(s@ =~= base + funs_text(fv.take(0)));
        }
        while i < n
            invariant
                i <= n,
                n == self.funs@.len(),
                fv.len() == n,
                forall|j: int| 0 <= j < n ==> fv[j] == (#[trigger] self.funs@[j])@,
                s@ == base + funs_text(fv.take(i as int)),
            decreases n - i,
        {
            let f = self.funs[i].render();
            s.append(f.as_str());
            s.append("\n\n");
            proof {
                assert(fv.take(i as int + 1).drop_last() =~= fv.take(i as int));
                assert(fv.take(i as int + 1).last() == fv[i as int]);
                assert(s@ =~= base + funs_text(fv.take(i as int + 1)));
            }
            i = i + 1;
        }
        proof {
            assert(fv.take(n as int) =~= fv);
        }
        s.append("}");
        s
    }
}

} // verus!
