//! The session: persistent variables and named curves, driven by
//! single-line textual commands.
//!
//! A line with no `=` is either a derivative request — a letter, one or more
//! apostrophes, then the literal `(x)` — answered with the named curve's
//! program and the requested order, or a plain expression evaluated to a
//! scalar program. A line with one `=` defines a curve when its left side is
//! a letter applied to `(x)`, and otherwise assigns the right side's value
//! to the variable named by the left side's first character. Any other `=`
//! count is invalid. A command mutates the session only when its whole
//! lex-build-evaluate pipeline succeeds, and whether it succeeds is decided
//! here exactly; running the produced programs in floating point is the
//! host's part and cannot fail.

use vstd::prelude::*;

use crate::lexer::count_char_from;
use crate::lexer::find_sub_from;
use crate::lexer::is_alpha_char;
use crate::lexer::lex_chars;
use crate::lexer::lex_spec;
use crate::lexer::str_to_chars;
use crate::parser::GraphStore;
use crate::parser::ParseTree;
use crate::parser::SpecNodeOp;
use crate::parser::SpecTreeNode;
use crate::parser::build_spec;
use crate::program::Instr;
use crate::program::SpecInstr;
use crate::program::VarStore;
use crate::program::clone_program;
use crate::program::compile_spec;
use crate::program::view_instrs;
use crate::tokens::char_at;

verus! {

// ---------------------------------------------------------------------------
// command patterns
// ---------------------------------------------------------------------------

/// A derivative request: a letter, one or more apostrophes, then the literal
/// `(x)`.
pub open spec fn is_derivative_request(s: Seq<char>) -> bool {
    &&& s.len() >= 5
    &&& is_alpha_char(s[0])
    &&& forall|i: int| 1 <= i < s.len() - 3 ==> s[i] == '\''
    &&& s[s.len() - 3] == '('
    &&& s[s.len() - 2] == 'x'
    &&& s[s.len() - 1] == ')'
}

/// A curve definition's left side: a letter applied to the literal `(x)`.
pub open spec fn is_curve_header(s: Seq<char>) -> bool {
    s.len() == 4 && is_alpha_char(s[0]) && s[1] == '(' && s[2] == 'x' && s[3] == ')'
}

/// A command part with its spaces removed, scanning from `i` up to `hi`.
pub open spec fn strip_spaces_range(s: Seq<char>, i: int, hi: int) -> Seq<char>
    decreases hi - i,
{
    if i < 0 || i >= hi || i >= s.len() {
        seq![]
    } else if s[i] == ' ' {
        strip_spaces_range(s, i + 1, hi)
    } else {
        seq![s[i]] + strip_spaces_range(s, i + 1, hi)
    }
}

fn is_derivative_request_exec(cs: &Vec<char>) -> (r: bool)
    ensures
        r == is_derivative_request(cs@),
{
    let n = cs.len();
    if n < 5 {
        return false;
    }
    let c0 = char_at(cs, 0);
    if !(('a' <= c0 && c0 <= 'z') || ('A' <= c0 && c0 <= 'Z')) {
        return false;
    }
    if char_at(cs, n - 3) != '(' || char_at(cs, n - 2) != 'x' || char_at(cs, n - 1) != ')' {
        return false;
    }
    let mut i: usize = 1;
    while i < n - 3
        invariant
            1 <= i <= n - 3,
            n == cs@.len(),
            n >= 5,
            forall|m: int| 1 <= m < i ==> cs@[m] == '\'',
        decreases n - 3 - i,
    {
        if char_at(cs, i) != '\'' {
            return false;
        }
        i += 1;
    }
    true
}

fn is_curve_header_exec(cs: &Vec<char>) -> (r: bool)
    ensures
        r == is_curve_header(cs@),
{
    if cs.len() != 4 {
        return false;
    }
    let c0 = char_at(cs, 0);
    (('a' <= c0 && c0 <= 'z') || ('A' <= c0 && c0 <= 'Z')) && char_at(cs, 1) == '(' && char_at(
        cs,
        2,
    ) == 'x' && char_at(cs, 3) == ')'
}

fn strip_spaces_exec(cs: &Vec<char>, lo: usize, hi: usize) -> (r: Vec<char>)
    requires
        lo <= hi <= cs@.len(),
    ensures
        r@ == strip_spaces_range(cs@, lo as int, hi as int),
    decreases hi - lo,
{
    if lo >= hi {
        Vec::new()
    } else {
        let c = char_at(cs, lo);
        if c == ' ' {
            strip_spaces_exec(cs, lo + 1, hi)
        } else {
            let rest = strip_spaces_exec(cs, lo + 1, hi);
            let ghost rv = rest@;
            let mut out: Vec<char> = Vec::new();
            out.push(c);
            let mut rest2 = rest;
            out.append(&mut rest2);
            proof {
                assert(out@ =~= seq![c] + rv);
            }
            out
        }
    }
}

/// A positive count of a character means the character can be found.
proof fn lemma_count_pos_finds(s: Seq<char>, c: char, i: int)
    requires
        0 <= i <= s.len(),
        count_char_from(s, i, c) > 0,
    ensures
        find_sub_from(s, seq![c], i) is Some,
    decreases s.len() - i,
{
    if i < s.len() {
        if s[i] == c {
            assert(s.subrange(i, i + 1) =~= seq![c]);
        } else {
            assert(s.subrange(i, i + 1) != seq![c]) by {
                assert(s.subrange(i, i + 1)[0] == s[i]);
            }
            lemma_count_pos_finds(s, c, i + 1);
        }
    }
}

/// Where the character is found, it stands.
proof fn lemma_find_char_at(s: Seq<char>, c: char, i: int)
    ensures
        find_sub_from(s, seq![c], i) matches Some(p) ==> 0 <= p < s.len() && s[p] == c,
    decreases s.len() - i,
{
    if !(i < 0 || i >= s.len() || i + 1 > s.len()) {
        if s.subrange(i, i + 1) == seq![c] {
            assert(s[i] == s.subrange(i, i + 1)[0]);
        } else {
            lemma_find_char_at(s, c, i + 1);
        }
    }
}

// ---------------------------------------------------------------------------
// the session's one-step model
// ---------------------------------------------------------------------------

/// Model of a session answer.
pub enum SpecResponse {
    /// A scalar: the closed program that computes it, and the variable name
    /// when the command was an assignment.
    Value { program: Seq<SpecInstr>, var_name: Option<char> },
    /// A curve to sample over the free variable, differentiated
    /// `derivative_order` times first.
    Graph { program: Seq<SpecInstr>, derivative_order: nat },
}

/// The program a whole line evaluates to as a plain expression, with no
/// free-variable binding, if every stage accepts it.
pub open spec fn scalar_program(
    line: Seq<char>,
    vars: Map<char, Seq<SpecInstr>>,
    graphs: Map<char, SpecTreeNode>,
) -> Option<Seq<SpecInstr>> {
    match lex_spec(line) {
        Err(_) => None,
        Ok(toks) => match build_spec(toks, graphs) {
            Err(_) => None,
            Ok(tree) => match compile_spec(tree, false, vars) {
                Err(_) => None,
                Ok(p) => Some(p),
            },
        },
    }
}

/// One command against one session state: the variables and curves after the
/// command, and the answer, `None` standing for failure at any stage. No
/// failing command changes any state.
pub open spec fn session_step(
    vars: Map<char, Seq<SpecInstr>>,
    graphs: Map<char, SpecTreeNode>,
    line: Seq<char>,
) -> (Map<char, Seq<SpecInstr>>, Map<char, SpecTreeNode>, Option<SpecResponse>) {
    let eqs = count_char_from(line, 0, '=');
    if eqs == 0 {
        if is_derivative_request(line) {
            let name = line[0];
            let order = (line.len() - 4) as nat;
            if !graphs.contains_key(name) {
                (vars, graphs, None)
            } else {
                match compile_spec(graphs[name], true, vars) {
                    Err(_) => (vars, graphs, None),
                    Ok(p) => (
                        vars,
                        graphs,
                        Some(SpecResponse::Graph { program: p, derivative_order: order }),
                    ),
                }
            }
        } else {
            match scalar_program(line, vars, graphs) {
                None => (vars, graphs, None),
                Some(p) => (
                    vars,
                    graphs,
                    Some(SpecResponse::Value { program: p, var_name: None }),
                ),
            }
        }
    } else if eqs == 1 {
        let eq = find_sub_from(line, seq!['='], 0)->Some_0;
        let lhs = strip_spaces_range(line, 0, eq);
        let rhs = strip_spaces_range(line, eq + 1, line.len() as int);
        if is_curve_header(lhs) {
            let name = lhs[0];
            match lex_spec(rhs) {
                Err(_) => (vars, graphs, None),
                Ok(toks) => match build_spec(toks, graphs) {
                    Err(_) => (vars, graphs, None),
                    Ok(tree) => match compile_spec(tree, true, vars) {
                        Err(_) => (vars, graphs, None),
                        Ok(p) => (
                            vars,
                            graphs.insert(name, tree),
                            Some(SpecResponse::Graph { program: p, derivative_order: 0 }),
                        ),
                    },
                },
            }
        } else if lhs.len() == 0 {
            (vars, graphs, None)
        } else {
            let name = lhs[0];
            match scalar_program(rhs, vars, graphs) {
                None => (vars, graphs, None),
                Some(p) => (
                    vars.insert(name, p),
                    graphs,
                    Some(SpecResponse::Value { program: p, var_name: Some(name) }),
                ),
            }
        }
    } else {
        (vars, graphs, None)
    }
}

// ---------------------------------------------------------------------------
// the session itself
// ---------------------------------------------------------------------------

/// A session answer handed to the host: either a scalar's program (with the
/// assigned variable's name, for an assignment), or a curve's program to
/// sample over the free variable after differentiating it the given number
/// of times.
#[derive(Debug)]
pub enum EvaluatorResponse {
    Value { program: Vec<Instr>, var_name: Option<char> },
    Graph { program: Vec<Instr>, derivative_order: usize },
}

impl View for EvaluatorResponse {
    type V = SpecResponse;

    open spec fn view(&self) -> SpecResponse {
        match self {
            EvaluatorResponse::Value { program, var_name } => SpecResponse::Value {
                program: view_instrs(program@),
                var_name: *var_name,
            },
            EvaluatorResponse::Graph { program, derivative_order } => SpecResponse::Graph {
                program: view_instrs(program@),
                derivative_order: *derivative_order as nat,
            },
        }
    }
}

/// The session: its variables and its named curves. Commands run to
/// completion one at a time; a failing command leaves both maps as they
/// were.
#[derive(Debug)]
pub struct Evaluator {
    vars: VarStore,
    graphs: GraphStore,
}

impl Evaluator {
    /// The variables' model: name to stored closed program.
    pub closed spec fn vars_model(&self) -> Map<char, Seq<SpecInstr>> {
        self.vars@
    }

    /// The curves' model: name to stored tree.
    pub closed spec fn graphs_model(&self) -> Map<char, SpecTreeNode> {
        self.graphs@
    }

    pub closed spec fn wf(&self) -> bool {
        self.graphs.wf()
    }

    /// A fresh session holds no variables and no curves.
    pub fn new() -> (s: Evaluator)
        ensures
            s.wf(),
            s.vars_model() == Map::<char, Seq<SpecInstr>>::empty(),
            s.graphs_model() == Map::<char, SpecTreeNode>::empty(),
    {
        Evaluator { vars: VarStore::new(), graphs: GraphStore::new() }
    }

    /// Runs one command line: [`session_step`] says exactly which states and
    /// which answer come out, and in particular that a failing command —
    /// two or more `=`, a failing lex or build, an unbound variable — leaves
    /// the session unchanged and answers nothing.
    pub fn evaluate(&mut self, input: &str) -> (r: Option<EvaluatorResponse>)
        requires
            old(self).wf(),
        ensures
            final(self).wf(),
            ({
                let (nv, ng, resp) = session_step(
                    old(self).vars_model(),
                    old(self).graphs_model(),
                    input@,
                );
                &&& final(self).vars_model() == nv
                &&& final(self).graphs_model() == ng
                &&& (r is Some <==> resp is Some)
                &&& r matches Some(er) ==> resp == Some(er@)
            }),
    {
        let cs = str_to_chars(input);
        let eqs = crate::lexer::count_char_exec(&cs, 0, '=');
        if eqs == 0 {
            if is_derivative_request_exec(&cs) {
                let name = char_at(&cs, 0);
                let order = cs.len() - 4;
                match self.graphs.get(name) {
                    None => None,
                    Some(pt) => match pt.evaluate(true, &self.vars) {
                        Err(_) => None,
                        Ok(p) => Some(
                            EvaluatorResponse::Graph { program: p, derivative_order: order },
                        ),
                    },
                }
            } else {
                match evaluate_value_if_valid(&cs, &self.vars, &self.graphs) {
                    None => None,
                    Some(p) => Some(EvaluatorResponse::Value { program: p, var_name: None }),
                }
            }
        } else if eqs == 1 {
            let eq_needle: Vec<char> = vec!['='];
            proof {
                assert(eq_needle@ =~= seq!['=']);
                lemma_count_pos_finds(cs@, '=', 0);
                lemma_find_char_at(cs@, '=', 0);
            }
            let eq = match crate::lexer::find_sub_exec(&cs, &eq_needle, 0) {
                Some(p) => p,
                None => {
                    proof {
                        assert(false);
                    }
                    0
                },
            };
            let lhs = strip_spaces_exec(&cs, 0, eq);
            let rhs = strip_spaces_exec(&cs, eq + 1, cs.len());
            if is_curve_header_exec(&lhs) {
                let name = char_at(&lhs, 0);
                match lex_chars(&rhs) {
                    Err(_) => None,
                    Ok(toks) => match ParseTree::new(&toks, &self.graphs) {
                        Err(_) => None,
                        Ok(tree) => match tree.evaluate(true, &self.vars) {
                            Err(_) => None,
                            Ok(p) => {
                                self.graphs.insert(name, tree);
                                Some(
                                    EvaluatorResponse::Graph { program: p, derivative_order: 0 },
                                )
                            },
                        },
                    },
                }
            } else if lhs.len() == 0 {
                None
            } else {
                let name = char_at(&lhs, 0);
                match evaluate_value_if_valid(&rhs, &self.vars, &self.graphs) {
                    None => None,
                    Some(p) => {
                        let p2 = clone_program(&p);
                        self.vars.insert(name, p);
                        Some(EvaluatorResponse::Value { program: p2, var_name: Some(name) })
                    },
                }
            }
        } else {
            None
        }
    }

    /// The program of the difference of two stored curves, for the host to
    /// scan for roots; nothing when either name is undefined or either curve
    /// cannot be evaluated against the current variables.
    pub fn find_intercepts(&self, fn1_name: char, fn2_name: char) -> (r: Option<Vec<Instr>>)
        requires
            self.wf(),
        ensures
            r is Some <==> (self.graphs_model().contains_key(fn1_name)
                && self.graphs_model().contains_key(fn2_name) && compile_spec(
                self.graphs_model()[fn1_name],
                true,
                self.vars_model(),
            ) is Ok && compile_spec(self.graphs_model()[fn2_name], true, self.vars_model()) is Ok),
            r matches Some(p) ==> view_instrs(p@) == compile_spec(
                self.graphs_model()[fn1_name],
                true,
                self.vars_model(),
            )->Ok_0 + compile_spec(self.graphs_model()[fn2_name], true, self.vars_model())->Ok_0
                + seq![SpecInstr::Sub],
    {
        match self.graphs.get(fn1_name) {
            None => None,
            Some(f1) => match self.graphs.get(fn2_name) {
                None => None,
                Some(f2) => match f1.evaluate(true, &self.vars) {
                    Err(_) => None,
                    Ok(p1) => match f2.evaluate(true, &self.vars) {
                        Err(_) => None,
                        Ok(p2) => {
                            let ghost v1 = view_instrs(p1@);
                            let ghost v2 = view_instrs(p2@);
                            let mut out = p1;
                            let mut p2m = p2;
                            out.append(&mut p2m);
                            out.push(Instr::Sub);
                            proof {
                                assert(view_instrs(out@) =~= v1 + v2 + seq![SpecInstr::Sub]);
                            }
                            Some(out)
                        },
                    },
                },
            },
        }
    }
}

impl Default for Evaluator {
    /// The default session is the fresh one.
    fn default() -> (s: Evaluator)
        ensures
            s.wf(),
            s.vars_model() == Map::<char, Seq<SpecInstr>>::empty(),
            s.graphs_model() == Map::<char, SpecTreeNode>::empty(),
    {
        Evaluator::new()
    }
}

// ---------------------------------------------------------------------------
// laws of the session
// ---------------------------------------------------------------------------

/// A failing command mutates nothing: whenever a command answers nothing,
/// the variables and the curves after it are exactly the ones before it.
pub proof fn lemma_failure_preserves_state(
    vars: Map<char, Seq<SpecInstr>>,
    graphs: Map<char, SpecTreeNode>,
    line: Seq<char>,
)
    ensures
        ({
            let (nv, ng, resp) = session_step(vars, graphs, line);
            resp is None ==> nv == vars && ng == graphs
        }),
{
}

/// Assigning a variable twice overwrites: after two successful assignments
/// to one name, the session's variables are the old ones with only the
/// second program stored under that name — the first is not retained
/// anywhere.
pub proof fn lemma_reassignment_overwrites(
    vars: Map<char, Seq<SpecInstr>>,
    graphs: Map<char, SpecTreeNode>,
    line1: Seq<char>,
    line2: Seq<char>,
    name: char,
)
    requires
        ({
            let (v1, g1, r1) = session_step(vars, graphs, line1);
            let (v2, g2, r2) = session_step(v1, g1, line2);
            &&& r1 matches Some(SpecResponse::Value { var_name: n1, .. }) && n1 == Some(name)
            &&& r2 matches Some(SpecResponse::Value { var_name: n2, .. }) && n2 == Some(name)
        }),
    ensures
        ({
            let (v1, g1, r1) = session_step(vars, graphs, line1);
            let (v2, g2, r2) = session_step(v1, g1, line2);
            &&& v2 == vars.insert(name, r2->Some_0->Value_program)
            &&& v2[name] == r2->Some_0->Value_program
            &&& g2 == graphs
        }),
{
    let (v1, g1, r1) = session_step(vars, graphs, line1);
    let (v2, g2, r2) = session_step(v1, g1, line2);
    assert(v2 =~= vars.insert(name, r2->Some_0->Value_program));
}

/// A tree that reads a variable the session does not hold, along the walk
/// evaluation takes, cannot be evaluated.
pub open spec fn reads_unbound_var(
    n: SpecTreeNode,
    x_bound: bool,
    vars: Map<char, Seq<SpecInstr>>,
) -> bool
    decreases n,
{
    match n.token_type {
        SpecNodeOp::Var(c) => !vars.contains_key(c),
        SpecNodeOp::Func(name) => {
            let args = n.function_args;
            if name == crate::lexer::int_name() && args.len() == 3 {
                ||| reads_unbound_var(args[0], true, vars)
                ||| reads_unbound_var(args[1], x_bound, vars)
                ||| reads_unbound_var(args[2], x_bound, vars)
            } else if (name == crate::lexer::ln_name() || name == crate::lexer::sin_name() || name
                == crate::lexer::cos_name() || name == crate::lexer::tan_name() || name
                == crate::lexer::sqrt_name()) && args.len() == 1 {
                reads_unbound_var(args[0], x_bound, vars)
            } else if name == crate::lexer::log_name() && (args.len() == 1 || args.len() == 2) {
                (exists|i: int| 0 <= i < args.len() && reads_unbound_var(args[i], x_bound, vars))
            } else {
                false
            }
        },
        SpecNodeOp::Add | SpecNodeOp::Sub | SpecNodeOp::Mul | SpecNodeOp::Div => {
            match (n.left, n.right) {
                (Some(l), Some(r)) => reads_unbound_var(*l, x_bound, vars) || reads_unbound_var(
                    *r,
                    x_bound,
                    vars,
                ),
                _ => false,
            }
        },
        _ => false,
    }
}

proof fn lemma_reads_unbound_var_fails(
    n: SpecTreeNode,
    x_bound: bool,
    vars: Map<char, Seq<SpecInstr>>,
)
    requires
        reads_unbound_var(n, x_bound, vars),
    ensures
        compile_spec(n, x_bound, vars) is Err,
    decreases n,
{
    match n.token_type {
        SpecNodeOp::Func(name) => {
            let args = n.function_args;
            if name == crate::lexer::int_name() && args.len() == 3 {
                if reads_unbound_var(args[0], true, vars) {
                    lemma_reads_unbound_var_fails(args[0], true, vars);
                } else if reads_unbound_var(args[1], x_bound, vars) {
                    lemma_reads_unbound_var_fails(args[1], x_bound, vars);
                } else {
                    lemma_reads_unbound_var_fails(args[2], x_bound, vars);
                }
            } else if (name == crate::lexer::ln_name() || name == crate::lexer::sin_name() || name
                == crate::lexer::cos_name() || name == crate::lexer::tan_name() || name
                == crate::lexer::sqrt_name()) && args.len() == 1 {
                lemma_reads_unbound_var_fails(args[0], x_bound, vars);
            } else if name == crate::lexer::log_name() && (args.len() == 1 || args.len() == 2) {
                let i = choose|i: int|
                    0 <= i < args.len() && reads_unbound_var(args[i], x_bound, vars);
                lemma_reads_unbound_var_fails(args[i], x_bound, vars);
            }
        },
        SpecNodeOp::Add | SpecNodeOp::Sub | SpecNodeOp::Mul | SpecNodeOp::Div => {
            match (n.left, n.right) {
                (Some(l), Some(r)) => {
                    if reads_unbound_var(*l, x_bound, vars) {
                        lemma_reads_unbound_var_fails(*l, x_bound, vars);
                    } else {
                        lemma_reads_unbound_var_fails(*r, x_bound, vars);
                    }
                },
                _ => {},
            }
        },
        _ => {},
    }
}

/// An expression that references an undefined variable fails: a plain
/// command line whose tree reads a name the session does not hold answers
/// nothing and leaves the whole session exactly as it was.
pub proof fn lemma_undefined_variable_fails(
    vars: Map<char, Seq<SpecInstr>>,
    graphs: Map<char, SpecTreeNode>,
    line: Seq<char>,
)
    requires
        count_char_from(line, 0, '=') == 0,
        !is_derivative_request(line),
        ({
            &&& lex_spec(line) matches Ok(toks)
            &&& build_spec(lex_spec(line)->Ok_0, graphs) matches Ok(tree)
            &&& reads_unbound_var(build_spec(lex_spec(line)->Ok_0, graphs)->Ok_0, false, vars)
        }),
    ensures
        session_step(vars, graphs, line) == (vars, graphs, Option::<SpecResponse>::None),
{
    let tree = build_spec(lex_spec(line)->Ok_0, graphs)->Ok_0;
    lemma_reads_unbound_var_fails(tree, false, vars);
}

/// Lexes, builds and evaluates one expression as a scalar against the
/// current state, handing back its program only when every stage accepts.
fn evaluate_value_if_valid(cs: &Vec<char>, vars: &VarStore, graphs: &GraphStore) -> (r: Option<
    Vec<Instr>,
>)
    requires
        graphs.wf(),
    ensures
        r is Some <==> scalar_program(cs@, vars@, graphs@) is Some,
        r matches Some(p) ==> scalar_program(cs@, vars@, graphs@) == Some(view_instrs(p@)),
{
    match lex_chars(cs) {
        Err(_) => None,
        Ok(toks) => match ParseTree::new(&toks, graphs) {
            Err(_) => None,
            Ok(tree) => match tree.evaluate(false, vars) {
                Err(_) => None,
                Ok(p) => Some(p),
            },
        },
    }
}

} // verus!
