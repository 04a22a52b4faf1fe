//! The evaluator: trees to closed numeric programs.
//!
//! The engine itself never computes with machine reals, so evaluating a tree
//! here means reducing it to a closed numeric program: a postfix instruction
//! sequence over numeric literals and the free variable, which a host runs
//! with a floating-point stack machine. Every variable reference is resolved
//! at evaluation time by splicing in the program stored under the variable's
//! name, so a produced program depends on nothing but the free variable.
//!
//! Whether evaluation succeeds never depends on arithmetic: it fails exactly
//! when the tree reads a variable the session does not hold, when it reads
//! the free variable with no binding in sight, or when its shape could not
//! have come out of the tree builder (an unknown function name, a wrong
//! argument count). That makes success and failure fully decidable here,
//! and [`compile_spec`] decides it.

use vstd::prelude::*;

use crate::lexer::cos_name;
use crate::lexer::int_name;
use crate::lexer::ln_name;
use crate::lexer::log_name;
use crate::lexer::sin_name;
use crate::lexer::sqrt_name;
use crate::lexer::tan_name;
use crate::parser::ParseTree;
use crate::parser::SpecNodeOp;
use crate::parser::SpecTreeNode;

verus! {

broadcast use vstd::std_specs::vec::axiom_vec_decreases_to_view, vstd::seq::axiom_seq_index_decreases;

/// Failure of evaluation: a variable absent from the session, the free
/// variable read where none is bound, or a tree shape the builder cannot
/// produce.
#[derive(Debug)]
pub struct EvaluateError;

/// Model of one instruction.
pub enum SpecInstr {
    /// Push the numeric value of a literal.
    PushNum(Seq<char>),
    /// Push the free variable's current value.
    PushX,
    Add,
    Sub,
    Mul,
    Div,
    /// Natural logarithm of the top value.
    Ln,
    /// Base-10 logarithm of the top value.
    Log10,
    /// Pops the base, then the value: logarithm in that base.
    LogBase,
    Sin,
    Cos,
    Tan,
    Sqrt,
    /// Pops the upper bound, then the lower bound, and integrates the body
    /// program over the free variable between them by the trapezoid rule
    /// with 10000 subdivisions.
    Integrate(Seq<SpecInstr>),
}

/// One instruction of a closed numeric program, run by the host's
/// floating-point stack machine.
#[derive(Debug)]
pub enum Instr {
    PushNum(Vec<char>),
    PushX,
    Add,
    Sub,
    Mul,
    Div,
    Ln,
    Log10,
    LogBase,
    Sin,
    Cos,
    Tan,
    Sqrt,
    Integrate(Vec<Instr>),
}

pub open spec fn spec_instr_of(i: Instr) -> SpecInstr
    decreases i,
{
    match i {
        Instr::PushNum(cs) => SpecInstr::PushNum(cs@),
        Instr::PushX => SpecInstr::PushX,
        Instr::Add => SpecInstr::Add,
        Instr::Sub => SpecInstr::Sub,
        Instr::Mul => SpecInstr::Mul,
        Instr::Div => SpecInstr::Div,
        Instr::Ln => SpecInstr::Ln,
        Instr::Log10 => SpecInstr::Log10,
        Instr::LogBase => SpecInstr::LogBase,
        Instr::Sin => SpecInstr::Sin,
        Instr::Cos => SpecInstr::Cos,
        Instr::Tan => SpecInstr::Tan,
        Instr::Sqrt => SpecInstr::Sqrt,
        Instr::Integrate(body) => SpecInstr::Integrate(
            Seq::new(
                body@.len(),
                |m: int|
                    if 0 <= m < body@.len() {
                        spec_instr_of(body@[m])
                    } else {
                        arbitrary()
                    },
            ),
        ),
    }
}

impl View for Instr {
    type V = SpecInstr;

    open spec fn view(&self) -> SpecInstr {
        spec_instr_of(*self)
    }
}

/// The model of a program: each instruction's model, in order.
pub open spec fn view_instrs(p: Seq<Instr>) -> Seq<SpecInstr> {
    Seq::new(p.len(), |m: int| p[m]@)
}

pub proof fn lemma_view_instrs_concat(a: Seq<Instr>, b: Seq<Instr>)
    ensures
        view_instrs(a + b) == view_instrs(a) + view_instrs(b),
{
    assert(view_instrs(a + b) =~= view_instrs(a) + view_instrs(b));
}

/// An instruction body's model is the model of its instructions.
pub proof fn lemma_integrate_view(body: Vec<Instr>)
    ensures
        spec_instr_of(Instr::Integrate(body)) == SpecInstr::Integrate(view_instrs(body@)),
{
    let direct = spec_instr_of(Instr::Integrate(body));
    assert(direct->Integrate_0 =~= view_instrs(body@));
}

// ---------------------------------------------------------------------------
// the stored variables
// ---------------------------------------------------------------------------

/// The session's variables. A variable holds the closed program its
/// defining expression evaluated to, fixed at assignment time; the latest
/// assignment to a name shadows the ones before it.
#[derive(Debug)]
pub struct VarStore {
    entries: Vec<(char, Vec<Instr>)>,
}

/// The map a list of name/program entries denotes: a later entry wins.
pub closed spec fn var_map(entries: Seq<(char, Vec<Instr>)>) -> Map<char, Seq<SpecInstr>>
    decreases entries.len(),
{
    if entries.len() == 0 {
        Map::empty()
    } else {
        var_map(entries.drop_last()).insert(entries.last().0, view_instrs(entries.last().1@))
    }
}

proof fn lemma_var_lookup(entries: Seq<(char, Vec<Instr>)>, j: int, k: char)
    requires
        0 <= j < entries.len(),
        entries[j].0 == k,
        forall|m: int| j < m < entries.len() ==> (#[trigger] entries[m]).0 != k,
    ensures
        var_map(entries).contains_key(k),
        var_map(entries)[k] == view_instrs(entries[j].1@),
    decreases entries.len(),
{
    if j == entries.len() - 1 {
    } else {
        assert(entries.drop_last()[j] == entries[j]);
        lemma_var_lookup(entries.drop_last(), j, k);
    }
}

proof fn lemma_var_no_match(entries: Seq<(char, Vec<Instr>)>, k: char)
    requires
        forall|m: int| 0 <= m < entries.len() ==> (#[trigger] entries[m]).0 != k,
    ensures
        !var_map(entries).contains_key(k),
    decreases entries.len(),
{
    if entries.len() > 0 {
        lemma_var_no_match(entries.drop_last(), k);
    }
}

/// Replacing the latest entry of a name in place is what inserting into the
/// denoted map means.
proof fn lemma_var_update_last(entries: Seq<(char, Vec<Instr>)>, j: int, v: Vec<Instr>)
    requires
        0 <= j < entries.len(),
        forall|m: int| j < m < entries.len() ==> (#[trigger] entries[m]).0 != entries[j].0,
    ensures
        var_map(entries.update(j, (entries[j].0, v))) == var_map(entries).insert(
            entries[j].0,
            view_instrs(v@),
        ),
    decreases entries.len(),
{
    let k = entries[j].0;
    let upd = entries.update(j, (k, v));
    if j == entries.len() - 1 {
        assert(upd.drop_last() =~= entries.drop_last());
        assert(upd.last() == (k, v));
        assert(var_map(entries).insert(k, view_instrs(v@)) =~= var_map(
            entries.drop_last(),
        ).insert(k, view_instrs(v@)));
    } else {
        assert(upd.drop_last() =~= entries.drop_last().update(j, (k, v)));
        assert(entries.drop_last()[j] == entries[j]);
        assert forall|m: int| j < m < entries.drop_last().len() implies (#[trigger] entries.drop_last()[m]).0
            != k by {
            assert(entries.drop_last()[m] == entries[m]);
        }
        lemma_var_update_last(entries.drop_last(), j, v);
        assert(upd.last() == entries.last());
        assert(var_map(upd) =~= var_map(entries).insert(k, view_instrs(v@)));
    }
}

impl VarStore {
    /// A session starts with no variables.
    pub fn new() -> (s: Self)
        ensures
            s@ == Map::<char, Seq<SpecInstr>>::empty(),
    {
        VarStore { entries: Vec::new() }
    }

    /// The program stored under a name, if the name is bound.
    pub fn get(&self, name: char) -> (r: Option<&Vec<Instr>>)
        ensures
            r is Some <==> self@.contains_key(name),
            r matches Some(p) ==> view_instrs(p@) == self@[name],
    {
        let mut found: Option<usize> = None;
        let mut j: usize = 0;
        while j < self.entries.len()
            invariant
                j <= self.entries@.len(),
                match found {
                    Some(p) => {
                        &&& (p as int) < j
                        &&& self.entries@[p as int].0 == name
                        &&& forall|m: int| p < m < j ==> (#[trigger] self.entries@[m]).0 != name
                    },
                    None => forall|m: int| 0 <= m < j ==> (#[trigger] self.entries@[m]).0 != name,
                },
            decreases self.entries@.len() - j,
        {
            if self.entries[j].0 == name {
                found = Some(j);
            }
            j += 1;
        }
        match found {
            Some(p) => {
                proof {
                    lemma_var_lookup(self.entries@, p as int, name);
                }
                Some(&self.entries[p].1)
            },
            None => {
                proof {
                    lemma_var_no_match(self.entries@, name);
                }
                None
            },
        }
    }

    /// Binds a name to a program. An earlier binding of the name is
    /// replaced in place, so no superseded program is retained.
    pub fn insert(&mut self, name: char, prog: Vec<Instr>)
        ensures
            final(self)@ == old(self)@.insert(name, view_instrs(prog@)),
    {
        let ghost oldentries = self.entries@;
        let ghost oldmap = var_map(self.entries@);
        let ghost pv = view_instrs(prog@);
        let mut found: Option<usize> = None;
        let mut j: usize = 0;
        while j < self.entries.len()
            invariant
                j <= self.entries@.len(),
                self.entries@ == oldentries,
                match found {
                    Some(p) => {
                        &&& (p as int) < j
                        &&& self.entries@[p as int].0 == name
                        &&& forall|m: int| p < m < j ==> (#[trigger] self.entries@[m]).0 != name
                    },
                    None => forall|m: int| 0 <= m < j ==> (#[trigger] self.entries@[m]).0 != name,
                },
            decreases self.entries@.len() - j,
        {
            if self.entries[j].0 == name {
                found = Some(j);
            }
            j += 1;
        }
        match found {
            Some(p) => {
                let ghost p0 = prog;
                self.entries.set(p, (name, prog));
                proof {
                    lemma_var_update_last(oldentries, p as int, p0);
                    assert(self.entries@ == oldentries.update(p as int, (name, p0)));
                }
            },
            None => {
                self.entries.push((name, prog));
                proof {
                    assert(self.entries@.drop_last() =~= oldentries);
                    assert(var_map(self.entries@) == oldmap.insert(name, pv));
                }
            },
        }
    }
}

impl View for VarStore {
    type V = Map<char, Seq<SpecInstr>>;

    closed spec fn view(&self) -> Map<char, Seq<SpecInstr>> {
        var_map(self.entries@)
    }
}

// ---------------------------------------------------------------------------
// compilation
// ---------------------------------------------------------------------------

/// What evaluating a tree yields: the closed program, or the evaluation
/// error. `x_bound` says whether a free-variable value will be supplied when
/// the program runs; inside an `int` body it always is, since integration
/// itself binds the free variable for each sample.
pub open spec fn compile_spec(
    n: SpecTreeNode,
    x_bound: bool,
    vars: Map<char, Seq<SpecInstr>>,
) -> Result<Seq<SpecInstr>, EvaluateError>
    decreases n,
{
    match n.token_type {
        SpecNodeOp::Num(lit) => Ok(seq![SpecInstr::PushNum(lit)]),
        SpecNodeOp::Var(c) => if vars.contains_key(c) {
            Ok(vars[c])
        } else {
            Err(EvaluateError)
        },
        SpecNodeOp::X => if x_bound {
            Ok(seq![SpecInstr::PushX])
        } else {
            Err(EvaluateError)
        },
        SpecNodeOp::IndefiniteFunction(_) => Err(EvaluateError),
        SpecNodeOp::Func(name) => {
            let args = n.function_args;
            if name == ln_name() {
                if args.len() != 1 {
                    Err(EvaluateError)
                } else {
                    match compile_spec(args[0], x_bound, vars) {
                        Err(e) => Err(e),
                        Ok(p) => Ok(p.push(SpecInstr::Ln)),
                    }
                }
            } else if name == log_name() {
                if args.len() == 1 {
                    match compile_spec(args[0], x_bound, vars) {
                        Err(e) => Err(e),
                        Ok(p) => Ok(p.push(SpecInstr::Log10)),
                    }
                } else if args.len() == 2 {
                    match compile_spec(args[0], x_bound, vars) {
                        Err(e) => Err(e),
                        Ok(p) => match compile_spec(args[1], x_bound, vars) {
                            Err(e) => Err(e),
                            Ok(q) => Ok(p + q + seq![SpecInstr::LogBase]),
                        },
                    }
                } else {
                    Err(EvaluateError)
                }
            } else if name == sin_name() || name == cos_name() || name == tan_name() || name
                == sqrt_name() {
                if args.len() != 1 {
                    Err(EvaluateError)
                } else {
                    match compile_spec(args[0], x_bound, vars) {
                        Err(e) => Err(e),
                        Ok(p) => Ok(
                            p.push(
                                if name == sin_name() {
                                    SpecInstr::Sin
                                } else if name == cos_name() {
                                    SpecInstr::Cos
                                } else if name == tan_name() {
                                    SpecInstr::Tan
                                } else {
                                    SpecInstr::Sqrt
                                },
                            ),
                        ),
                    }
                }
            } else if name == int_name() {
                if args.len() != 3 {
                    Err(EvaluateError)
                } else {
                    match compile_spec(args[0], true, vars) {
                        Err(e) => Err(e),
                        Ok(body) => match compile_spec(args[1], x_bound, vars) {
                            Err(e) => Err(e),
                            Ok(lo) => match compile_spec(args[2], x_bound, vars) {
                                Err(e) => Err(e),
                                Ok(hi) => Ok(lo + hi + seq![SpecInstr::Integrate(body)]),
                            },
                        },
                    }
                }
            } else {
                Err(EvaluateError)
            }
        },
        _ => {
            // a binary arithmetic node
            match (n.left, n.right) {
                (Some(l), Some(r)) => match compile_spec(*l, x_bound, vars) {
                    Err(e) => Err(e),
                    Ok(pl) => match compile_spec(*r, x_bound, vars) {
                        Err(e) => Err(e),
                        Ok(pr) => Ok(
                            pl + pr + seq![
                                match n.token_type {
                                    SpecNodeOp::Add => SpecInstr::Add,
                                    SpecNodeOp::Sub => SpecInstr::Sub,
                                    SpecNodeOp::Mul => SpecInstr::Mul,
                                    _ => SpecInstr::Div,
                                },
                            ],
                        ),
                    },
                },
                _ => Err(EvaluateError),
            }
        },
    }
}

/// A tree can be evaluated exactly when every variable it reads is bound and
/// the free variable, where read outside an integration body, has a value
/// coming.
pub open spec fn evaluable(n: SpecTreeNode, x_bound: bool, vars: Map<char, Seq<SpecInstr>>) -> bool {
    compile_spec(n, x_bound, vars) is Ok
}

/// Whether two character buffers hold the same characters.
pub(crate) fn chars_eq(a: &Vec<char>, b: &Vec<char>) -> (r: bool)
    ensures
        r == (a@ == b@),
{
    if a.len() != b.len() {
        return false;
    }
    let n = a.len();
    let mut j: usize = 0;
    while j < n
        invariant
            j <= n,
            n == a@.len() == b@.len(),
            forall|m: int| 0 <= m < j ==> a@[m] == b@[m],
        decreases n - j,
    {
        if a[j] != b[j] {
            return false;
        }
        j += 1;
    }
    proof {
        assert(a@ =~= b@);
    }
    true
}

/// An owned copy of a program, for splicing a stored variable's program into
/// the one being produced.
pub fn clone_program(p: &Vec<Instr>) -> (r: Vec<Instr>)
    ensures
        view_instrs(r@) == view_instrs(p@),
    decreases *p,
{
    let mut out: Vec<Instr> = Vec::new();
    let mut j: usize = 0;
    while j < p.len()
        invariant
            j <= p@.len(),
            out@.len() == j as int,
            forall|m: int| 0 <= m < j ==> (#[trigger] out@[m])@ == p@[m]@,
        decreases p@.len() - j,
    {
        let c: Instr = match &p[j] {
            Instr::PushNum(cs) => Instr::PushNum(crate::tokens::copy_chars(cs)),
            Instr::PushX => Instr::PushX,
            Instr::Add => Instr::Add,
            Instr::Sub => Instr::Sub,
            Instr::Mul => Instr::Mul,
            Instr::Div => Instr::Div,
            Instr::Ln => Instr::Ln,
            Instr::Log10 => Instr::Log10,
            Instr::LogBase => Instr::LogBase,
            Instr::Sin => Instr::Sin,
            Instr::Cos => Instr::Cos,
            Instr::Tan => Instr::Tan,
            Instr::Sqrt => Instr::Sqrt,
            Instr::Integrate(body) => {
                proof {
                    assert(decreases_to!(*p => p@[j as int]));
                    assert(decreases_to!(p@[j as int] => *body));
                }
                let cb = clone_program(body);
                proof {
                    lemma_integrate_view(cb);
                }
                let ci = Instr::Integrate(cb);
                proof {
                    lemma_integrate_view(p@[j as int]->Integrate_0);
                }
                ci
            },
        };
        out.push(c);
        j += 1;
    }
    proof {
        assert(view_instrs(out@) =~= view_instrs(p@));
    }
    out
}

} // verus!
