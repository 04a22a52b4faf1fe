//! The precedence resolver and the tree builder.
//!
//! Given a token slice, the resolver finds the one token where the tree must
//! split: every operator-class token gets the key (nesting depth, operator
//! class, position), and the resolver picks the key that is smallest on
//! depth, then largest on class (`+ -` bind loosest, `* /` tighter, function
//! calls tightest), then largest on position (rightmost, which makes binary
//! operators left-associative). The builder recurses on that split: a binary
//! token becomes a node over the left and right sub-slices; a lone function
//! token becomes a node with one child per argument group, with a referenced
//! curve's tree spliced in as an implicit leading argument; a lone leaf
//! token becomes a leaf node. A slice with no split and more than one token
//! is adjacent leaves with nothing connecting them: a parse error.

use vstd::prelude::*;

use crate::lexer::cos_name;
use crate::lexer::int_name;
use crate::lexer::ln_name;
use crate::lexer::log_name;
use crate::lexer::sin_name;
use crate::lexer::sqrt_name;
use crate::lexer::tan_name;
use crate::program::EvaluateError;
use crate::program::Instr;
use crate::program::SpecInstr;
use crate::program::VarStore;
use crate::program::chars_eq;
use crate::program::clone_program;
use crate::program::compile_spec;
use crate::program::evaluable;
use crate::program::lemma_integrate_view;
use crate::program::view_instrs;
use crate::tokens::LexerToken;
use crate::tokens::LexerTokenType;
use crate::tokens::SpecToken;
use crate::tokens::SpecTokenType;
use crate::tokens::char_at;
use crate::tokens::copy_chars;
use crate::tokens::lemma_func_token_view;
use crate::tokens::view_groups;
use crate::tokens::view_tokens;

verus! {

broadcast use vstd::seq::axiom_seq_index_decreases, vstd::seq::axiom_seq_subrange_decreases, vstd::std_specs::vec::axiom_vec_decreases_to_view;

/// Failure of the tree builder: adjacent tokens with no operator between
/// them, a binary operator missing an operand, a function token standing
/// beside other tokens, or a curve reference naming no stored curve.
#[derive(Debug)]
pub struct ParseError;

// ---------------------------------------------------------------------------
// operator classes and the precedence order
// ---------------------------------------------------------------------------

/// Operator-class tokens anchor splits; leaves and the synthetic curve
/// reference never do.
pub open spec fn is_operator_token(t: SpecTokenType) -> bool {
    match t {
        SpecTokenType::Add => true,
        SpecTokenType::Sub => true,
        SpecTokenType::Mul => true,
        SpecTokenType::Div => true,
        SpecTokenType::Func(_, _) => true,
        _ => false,
    }
}

/// How tightly an operator binds: function calls tightest, then `* /`,
/// then `+ -`.
pub open spec fn op_class(t: SpecTokenType) -> int {
    match t {
        SpecTokenType::Func(_, _) => 0,
        SpecTokenType::Mul => 1,
        SpecTokenType::Div => 1,
        SpecTokenType::Add => 2,
        SpecTokenType::Sub => 2,
        _ => 3,
    }
}

/// The split order on two operator positions of one token sequence: prefer
/// shallower nesting, then the loosest-binding class, then the rightmost
/// position.
pub open spec fn token_lower_precedence(ts: Seq<SpecToken>, a: int, b: int) -> bool {
    if ts[a].bracket_depth != ts[b].bracket_depth {
        ts[a].bracket_depth < ts[b].bracket_depth
    } else if op_class(ts[a].token_type) != op_class(ts[b].token_type) {
        op_class(ts[a].token_type) > op_class(ts[b].token_type)
    } else {
        a > b
    }
}

/// The resolver's scan from position `i` with `best` the winning position so
/// far: a later operator takes over exactly when it stands strictly lower in
/// the split order.
pub open spec fn find_next_op_from(ts: Seq<SpecToken>, i: int, best: Option<int>) -> Option<int>
    decreases ts.len() - i,
{
    if i < 0 || i >= ts.len() {
        best
    } else if !is_operator_token(ts[i].token_type) {
        find_next_op_from(ts, i + 1, best)
    } else {
        let take = match best {
            None => true,
            Some(b) => token_lower_precedence(ts, i, b),
        };
        find_next_op_from(ts, i + 1, if take {
            Some(i)
        } else {
            best
        })
    }
}

/// Where a token sequence splits, if anywhere: there is no split when no
/// operator-class token exists (a pure leaf) or when the sequence is
/// exactly one function token, which the builder turns into a function
/// node of its own before consulting the resolver.
pub open spec fn find_next_op_spec(ts: Seq<SpecToken>) -> Option<int> {
    if ts.len() == 1 && ts[0].token_type matches SpecTokenType::Func(_, _) {
        None
    } else {
        find_next_op_from(ts, 0, None)
    }
}

proof fn lemma_find_next_op_from_minimal(ts: Seq<SpecToken>, i: int, best: Option<int>)
    requires
        0 <= i <= ts.len(),
        best matches Some(b) ==> 0 <= b < i && is_operator_token(ts[b].token_type) && forall|q: int|
            0 <= q < i && is_operator_token(ts[q].token_type) && q != b ==> token_lower_precedence(
                ts,
                b,
                q,
            ),
        best is None ==> forall|q: int| 0 <= q < i ==> !is_operator_token(ts[q].token_type),
    ensures
        find_next_op_from(ts, i, best) is None ==> forall|q: int|
            0 <= q < ts.len() ==> !is_operator_token(ts[q].token_type),
        find_next_op_from(ts, i, best) matches Some(p) ==> 0 <= p < ts.len() && is_operator_token(
            ts[p].token_type,
        ) && forall|q: int|
            0 <= q < ts.len() && is_operator_token(ts[q].token_type) && q != p
                ==> token_lower_precedence(ts, p, q),
    decreases ts.len() - i,
{
    if i < ts.len() {
        if !is_operator_token(ts[i].token_type) {
            lemma_find_next_op_from_minimal(ts, i + 1, best);
        } else {
            let take = match best {
                None => true,
                Some(b) => token_lower_precedence(ts, i, b),
            };
            if take {
                assert forall|q: int|
                    0 <= q < i + 1 && is_operator_token(ts[q].token_type) && q != i implies token_lower_precedence(
                    ts,
                    i,
                    q,
                ) by {
                    match best {
                        Some(b) => {
                            if q != b {
                                assert(token_lower_precedence(ts, b, q));
                                assert(token_lower_precedence(ts, i, b));
                            }
                        },
                        None => {},
                    }
                }
                lemma_find_next_op_from_minimal(ts, i + 1, Some(i));
            } else {
                let b = best->Some_0;
                assert forall|q: int|
                    0 <= q < i + 1 && is_operator_token(ts[q].token_type) && q != b implies token_lower_precedence(
                    ts,
                    b,
                    q,
                ) by {
                    if q == i {
                        assert(!token_lower_precedence(ts, i, b));
                    }
                }
                lemma_find_next_op_from_minimal(ts, i + 1, best);
            }
        }
    }
}

/// The resolver's pick is the unique minimum of the split order: no other
/// operator token stands lower, and a pick exists exactly when an
/// operator-class token does — except for a lone function token, which is
/// no split.
pub proof fn lemma_find_next_op_minimal(ts: Seq<SpecToken>)
    ensures
        find_next_op_spec(ts) is None ==> (ts.len() == 1 && ts[0].token_type matches
            SpecTokenType::Func(_, _)) || forall|q: int|
            0 <= q < ts.len() ==> !is_operator_token(ts[q].token_type),
        find_next_op_spec(ts) matches Some(p) ==> 0 <= p < ts.len() && is_operator_token(
            ts[p].token_type,
        ) && forall|q: int|
            0 <= q < ts.len() && is_operator_token(ts[q].token_type) && q != p
                ==> token_lower_precedence(ts, p, q),
{
    if !(ts.len() == 1 && ts[0].token_type matches SpecTokenType::Func(_, _)) {
        lemma_find_next_op_from_minimal(ts, 0, None);
    }
}

// ---------------------------------------------------------------------------
// the executable resolver
// ---------------------------------------------------------------------------

/// A split candidate's key while the scan runs.
#[derive(Debug)]
struct OperatorOrdering {
    bracket_depth: usize,
    operator_val: u32,
    position: usize,
}

impl OperatorOrdering {
    /// The split order itself: shallower depth first, then the weaker
    /// operator class, then the rightmost position.
    fn is_lower_precedence_than(&self, other: &Self) -> (r: bool)
        ensures
            r == (if self.bracket_depth != other.bracket_depth {
                self.bracket_depth < other.bracket_depth
            } else if self.operator_val != other.operator_val {
                self.operator_val > other.operator_val
            } else {
                self.position > other.position
            }),
    {
        if self.bracket_depth != other.bracket_depth {
            return self.bracket_depth < other.bracket_depth;
        }
        if self.operator_val != other.operator_val {
            return self.operator_val > other.operator_val;
        }
        self.position > other.position
    }
}

/// The class key of one operator token, as the resolver ranks it.
fn value_operator(t: &LexerToken) -> (r: u32)
    requires
        is_operator_token(t@.token_type),
    ensures
        r as int == op_class(t@.token_type),
{
    match &t.token_type {
        LexerTokenType::Func(_, _) => 0,
        LexerTokenType::Mul => 1,
        LexerTokenType::Div => 1,
        _ => 2,
    }
}

fn is_operator_token_exec(t: &LexerToken) -> (r: bool)
    ensures
        r == is_operator_token(t@.token_type),
{
    match &t.token_type {
        LexerTokenType::Add => true,
        LexerTokenType::Sub => true,
        LexerTokenType::Mul => true,
        LexerTokenType::Div => true,
        LexerTokenType::Func(_, _) => true,
        _ => false,
    }
}

/// Scans `items[lo..hi]` for the split position; the returned index is
/// relative to `lo`. A slice that is exactly one function token yields no
/// split: the builder has already turned that shape into a function node.
fn find_next_op(items: &Vec<LexerToken>, lo: usize, hi: usize) -> (r: Option<usize>)
    requires
        lo <= hi <= items@.len(),
    ensures
        ({
            let ts = view_tokens(items@).subrange(lo as int, hi as int);
            &&& r is Some <==> find_next_op_spec(ts) is Some
            &&& r matches Some(p) ==> find_next_op_spec(ts) == Some(p as int) && p < hi - lo
        }),
{
    let ghost ts = view_tokens(items@).subrange(lo as int, hi as int);
    if hi - lo == 1 {
        if let LexerTokenType::Func(_, _) = &items[lo].token_type {
            proof {
                assert(ts[0] == items@[lo as int]@);
            }
            return None;
        }
    }
    proof {
        if ts.len() == 1 {
            assert(ts[0] == items@[lo as int]@);
        }
        assert(find_next_op_spec(ts) == find_next_op_from(ts, 0, None));
    }
    let mut next_op_pos: Option<usize> = None;
    let mut lowest: Option<OperatorOrdering> = None;
    let mut j: usize = lo;
    while j < hi
        invariant
            lo <= j <= hi <= items@.len(),
            ts == view_tokens(items@).subrange(lo as int, hi as int),
            ts.len() == hi - lo,
            match (next_op_pos, &lowest) {
                (Some(p), Some(o)) => {
                    &&& (p as int) < j - lo
                    &&& o.position == p
                    &&& o.bracket_depth as nat == ts[p as int].bracket_depth
                    &&& o.operator_val as int == op_class(ts[p as int].token_type)
                    &&& find_next_op_from(ts, (j - lo) as int, Some(p as int)) == find_next_op_spec(
                        ts,
                    )
                },
                (None, None) => find_next_op_from(ts, (j - lo) as int, None) == find_next_op_spec(
                    ts,
                ),
                _ => false,
            },
        decreases hi - j,
    {
        proof {
            assert(ts[(j - lo) as int] == items@[j as int]@);
        }
        let skip = !is_operator_token_exec(&items[j]);
        if !skip {
            let op_val = value_operator(&items[j]);
            let precedence = OperatorOrdering {
                bracket_depth: items[j].bracket_depth,
                operator_val: op_val,
                position: j - lo,
            };
            let should_swap: bool = match &lowest {
                Some(last_val) => precedence.is_lower_precedence_than(last_val),
                None => true,
            };
            if should_swap {
                next_op_pos = Some(j - lo);
                lowest = Some(precedence);
            }
        }
        j += 1;
    }
    next_op_pos
}

// ---------------------------------------------------------------------------
// expression trees
// ---------------------------------------------------------------------------

/// What one tree node computes. A `Func` node keeps only the function's
/// name: its argument groups have become the node's children.
pub enum SpecNodeOp {
    Add,
    Sub,
    Mul,
    Div,
    X,
    Var(char),
    Num(Seq<char>),
    Func(Seq<char>),
    IndefiniteFunction(char),
}

/// Model of a tree node: the same shape as [`TreeNode`], over `Seq`.
pub struct SpecTreeNode {
    pub token_type: SpecNodeOp,
    pub function_args: Seq<SpecTreeNode>,
    pub left: Option<Box<SpecTreeNode>>,
    pub right: Option<Box<SpecTreeNode>>,
}

/// What one executable tree node computes.
#[derive(Debug)]
pub enum NodeOp {
    Add,
    Sub,
    Mul,
    Div,
    X,
    Var(char),
    Num(Vec<char>),
    Func(Vec<char>),
    IndefiniteFunction(char),
}

/// One node of an expression tree: a binary operator owns `left` and
/// `right`; a function call owns `function_args`, one child per resolved
/// argument group; a leaf owns neither.
#[derive(Debug)]
pub struct TreeNode {
    token_type: NodeOp,
    function_args: Vec<TreeNode>,
    left: Option<Box<TreeNode>>,
    right: Option<Box<TreeNode>>,
}

pub open spec fn spec_node_op_of(op: NodeOp) -> SpecNodeOp {
    match op {
        NodeOp::Add => SpecNodeOp::Add,
        NodeOp::Sub => SpecNodeOp::Sub,
        NodeOp::Mul => SpecNodeOp::Mul,
        NodeOp::Div => SpecNodeOp::Div,
        NodeOp::X => SpecNodeOp::X,
        NodeOp::Var(c) => SpecNodeOp::Var(c),
        NodeOp::Num(cs) => SpecNodeOp::Num(cs@),
        NodeOp::Func(name) => SpecNodeOp::Func(name@),
        NodeOp::IndefiniteFunction(c) => SpecNodeOp::IndefiniteFunction(c),
    }
}

impl View for NodeOp {
    type V = SpecNodeOp;

    open spec fn view(&self) -> SpecNodeOp {
        spec_node_op_of(*self)
    }
}

/// The node kind a token turns into when it becomes a tree node.
pub open spec fn node_op_of_token(t: SpecTokenType) -> SpecNodeOp {
    match t {
        SpecTokenType::Add => SpecNodeOp::Add,
        SpecTokenType::Sub => SpecNodeOp::Sub,
        SpecTokenType::Mul => SpecNodeOp::Mul,
        SpecTokenType::Div => SpecNodeOp::Div,
        SpecTokenType::X => SpecNodeOp::X,
        SpecTokenType::Var(c) => SpecNodeOp::Var(c),
        SpecTokenType::Num(cs) => SpecNodeOp::Num(cs),
        SpecTokenType::Func(_, name) => SpecNodeOp::Func(name),
        SpecTokenType::IndefiniteFunction(c) => SpecNodeOp::IndefiniteFunction(c),
    }
}

pub closed spec fn tree_view(t: TreeNode) -> SpecTreeNode
    decreases t,
{
    SpecTreeNode {
        token_type: spec_node_op_of(t.token_type),
        function_args: Seq::new(
            t.function_args@.len(),
            |i: int|
                if 0 <= i < t.function_args@.len() {
                    tree_view(t.function_args@[i])
                } else {
                    arbitrary()
                },
        ),
        left: match t.left {
            Some(b) => Some(Box::new(tree_view(*b))),
            None => None,
        },
        right: match t.right {
            Some(b) => Some(Box::new(tree_view(*b))),
            None => None,
        },
    }
}

impl View for TreeNode {
    type V = SpecTreeNode;

    closed spec fn view(&self) -> SpecTreeNode {
        tree_view(*self)
    }
}

/// The models of a node list, in order.
pub open spec fn view_nodes(ts: Seq<TreeNode>) -> Seq<SpecTreeNode> {
    Seq::new(ts.len(), |i: int| tree_view(ts[i]))
}

/// A whole expression tree: one owned root.
#[derive(Debug)]
pub struct ParseTree {
    inner_tree: Option<Box<TreeNode>>,
}

impl ParseTree {
    /// A tree built by [`ParseTree::new`] always has a root.
    pub closed spec fn wf(&self) -> bool {
        self.inner_tree is Some
    }
}

impl View for ParseTree {
    type V = SpecTreeNode;

    closed spec fn view(&self) -> SpecTreeNode {
        match self.inner_tree {
            Some(b) => tree_view(*b),
            None => arbitrary(),
        }
    }
}

// ---------------------------------------------------------------------------
// the stored curves
// ---------------------------------------------------------------------------

/// The session's named curves: one tree per single-letter name, the latest
/// definition of a name shadowing the ones before it.
#[derive(Debug)]
pub struct GraphStore {
    entries: Vec<(char, ParseTree)>,
}

/// The map a list of name/tree entries denotes: a later entry wins.
pub closed spec fn store_map(entries: Seq<(char, ParseTree)>) -> Map<char, SpecTreeNode>
    decreases entries.len(),
{
    if entries.len() == 0 {
        Map::empty()
    } else {
        store_map(entries.drop_last()).insert(entries.last().0, entries.last().1@)
    }
}

proof fn lemma_store_lookup(entries: Seq<(char, ParseTree)>, j: int, k: char)
    requires
        0 <= j < entries.len(),
        entries[j].0 == k,
        forall|m: int| j < m < entries.len() ==> (#[trigger] entries[m]).0 != k,
    ensures
        store_map(entries).contains_key(k),
        store_map(entries)[k] == entries[j].1@,
    decreases entries.len(),
{
    if j == entries.len() - 1 {
    } else {
        assert(entries.drop_last()[j] == entries[j]);
        lemma_store_lookup(entries.drop_last(), j, k);
    }
}

proof fn lemma_store_no_match(entries: Seq<(char, ParseTree)>, k: char)
    requires
        forall|m: int| 0 <= m < entries.len() ==> (#[trigger] entries[m]).0 != k,
    ensures
        !store_map(entries).contains_key(k),
    decreases entries.len(),
{
    if entries.len() > 0 {
        lemma_store_no_match(entries.drop_last(), k);
    }
}

/// Replacing the latest entry of a name in place is what inserting into the
/// denoted map means.
proof fn lemma_store_update_last(entries: Seq<(char, ParseTree)>, j: int, v: ParseTree)
    requires
        0 <= j < entries.len(),
        forall|m: int| j < m < entries.len() ==> (#[trigger] entries[m]).0 != entries[j].0,
    ensures
        store_map(entries.update(j, (entries[j].0, v))) == store_map(entries).insert(
            entries[j].0,
            v@,
        ),
    decreases entries.len(),
{
    let k = entries[j].0;
    let upd = entries.update(j, (k, v));
    if j == entries.len() - 1 {
        assert(upd.drop_last() =~= entries.drop_last());
        assert(upd.last() == (k, v));
        assert(store_map(entries).insert(k, v@) =~= store_map(entries.drop_last()).insert(k, v@));
    } else {
        assert(upd.drop_last() =~= entries.drop_last().update(j, (k, v)));
        assert(entries.drop_last()[j] == entries[j]);
        assert forall|m: int| j < m < entries.drop_last().len() implies (#[trigger] entries.drop_last()[m]).0
            != k by {
            assert(entries.drop_last()[m] == entries[m]);
        }
        lemma_store_update_last(entries.drop_last(), j, v);
        assert(upd.last() == entries.last());
        assert(store_map(upd) =~= store_map(entries).insert(k, v@));
    }
}

impl GraphStore {
    /// Every stored tree has a root.
    pub closed spec fn wf(&self) -> bool {
        forall|m: int| 0 <= m < self.entries@.len() ==> (#[trigger] self.entries@[m]).1.wf()
    }

    /// A session starts with no curves.
    pub fn new() -> (s: Self)
        ensures
            s@ == Map::<char, SpecTreeNode>::empty(),
            s.wf(),
    {
        GraphStore { entries: Vec::new() }
    }

    /// The stored tree under a name, if the name is defined.
    pub fn get(&self, name: char) -> (r: Option<&ParseTree>)
        requires
            self.wf(),
        ensures
            r is Some <==> self@.contains_key(name),
            r matches Some(pt) ==> pt@ == self@[name] && pt.wf(),
    {
        let mut found: Option<usize> = None;
        let mut j: usize = 0;
        while j < self.entries.len()
            invariant
                j <= self.entries@.len(),
                match found {
                    Some(p) => {
                        &&& (p as int) < j
                        &&& self.entries@[p as int].0 == name
                        &&& forall|m: int|
                            p < m < j ==> (#[trigger] self.entries@[m]).0 != name
                    },
                    None => forall|m: int| 0 <= m < j ==> (#[trigger] self.entries@[m]).0 != name,
                },
            decreases self.entries@.len() - j,
        {
            if self.entries[j].0 == name {
                found = Some(j);
            }
            j += 1;
        }
        match found {
            Some(p) => {
                proof {
                    lemma_store_lookup(self.entries@, p as int, name);
                }
                Some(&self.entries[p].1)
            },
            None => {
                proof {
                    lemma_store_no_match(self.entries@, name);
                }
                None
            },
        }
    }

    /// Stores a curve under a name. An earlier definition of the name is
    /// replaced in place, so no superseded tree is retained.
    pub fn insert(&mut self, name: char, tree: ParseTree)
        requires
            old(self).wf(),
            tree.wf(),
        ensures
            final(self).wf(),
            final(self)@ == old(self)@.insert(name, tree@),
    {
        let ghost oldentries = self.entries@;
        let ghost oldmap = store_map(self.entries@);
        let ghost tv = tree@;
        let mut found: Option<usize> = None;
        let mut j: usize = 0;
        while j < self.entries.len()
            invariant
                j <= self.entries@.len(),
                self.entries@ == oldentries,
                match found {
                    Some(p) => {
                        &&& (p as int) < j
                        &&& self.entries@[p as int].0 == name
                        &&& forall|m: int|
                            p < m < j ==> (#[trigger] self.entries@[m]).0 != name
                    },
                    None => forall|m: int| 0 <= m < j ==> (#[trigger] self.entries@[m]).0 != name,
                },
            decreases self.entries@.len() - j,
        {
            if self.entries[j].0 == name {
                found = Some(j);
            }
            j += 1;
        }
        match found {
            Some(p) => {
                let ghost t0 = tree;
                self.entries.set(p, (name, tree));
                proof {
                    lemma_store_update_last(oldentries, p as int, t0);
                    assert(self.entries@ == oldentries.update(p as int, (name, t0)));
                    assert forall|m: int| 0 <= m < self.entries@.len() implies (#[trigger] self.entries@[m]).1.wf() by {
                        if m != p {
                            assert(self.entries@[m] == oldentries[m]);
                        }
                    }
                }
            },
            None => {
                self.entries.push((name, tree));
                proof {
                    assert(self.entries@.drop_last() =~= oldentries);
                    assert(store_map(self.entries@) == oldmap.insert(name, tv));
                }
            },
        }
    }
}

impl View for GraphStore {
    type V = Map<char, SpecTreeNode>;

    closed spec fn view(&self) -> Map<char, SpecTreeNode> {
        store_map(self.entries@)
    }
}

// ---------------------------------------------------------------------------
// building trees from tokens
// ---------------------------------------------------------------------------

/// What the tree builder makes of a token sequence under the stored curves.
/// A sequence that is exactly one function token becomes a function node
/// before the resolver is consulted; otherwise the resolver's split, where
/// there is one, becomes a binary node over the two sub-sequences, and a
/// split-less sequence must be one leaf token. A function token standing
/// beside other tokens never builds: adjacent values with nothing
/// connecting them.
pub open spec fn build_spec(toks: Seq<SpecToken>, graphs: Map<char, SpecTreeNode>) -> Result<
    SpecTreeNode,
    ParseError,
>
    decreases toks, 0int,
    via build_spec_decreases
{
    if toks.len() == 1 && toks[0].token_type matches SpecTokenType::Func(_, _) {
        let groups = toks[0].token_type->Func_0;
        let name = toks[0].token_type->Func_1;
        if groups.len() > 0 && groups[0].len() == 1 && groups[0][0].token_type matches
            SpecTokenType::IndefiniteFunction(_) {
            let c = groups[0][0].token_type->IndefiniteFunction_0;
            if !graphs.contains_key(c) {
                Err(ParseError)
            } else {
                match build_groups_spec(groups, 1, graphs) {
                    Err(e) => Err(e),
                    Ok(args) => Ok(
                        SpecTreeNode {
                            token_type: SpecNodeOp::Func(name),
                            function_args: seq![graphs[c]] + args,
                            left: None,
                            right: None,
                        },
                    ),
                }
            }
        } else {
            match build_groups_spec(groups, 0, graphs) {
                Err(e) => Err(e),
                Ok(args) => Ok(
                    SpecTreeNode {
                        token_type: SpecNodeOp::Func(name),
                        function_args: args,
                        left: None,
                        right: None,
                    },
                ),
            }
        }
    } else {
        match find_next_op_spec(toks) {
            Some(p) => {
                if toks[p].token_type matches SpecTokenType::Func(_, _) {
                    Err(ParseError)
                } else {
                    match build_spec(toks.subrange(0, p), graphs) {
                        Err(e) => Err(e),
                        Ok(l) => match build_spec(toks.subrange(p + 1, toks.len() as int), graphs) {
                            Err(e) => Err(e),
                            Ok(r) => Ok(
                                SpecTreeNode {
                                    token_type: node_op_of_token(toks[p].token_type),
                                    function_args: seq![],
                                    left: Some(Box::new(l)),
                                    right: Some(Box::new(r)),
                                },
                            ),
                        },
                    }
                }
            },
            None => {
                if toks.len() != 1 {
                    Err(ParseError)
                } else {
                    Ok(
                        SpecTreeNode {
                            token_type: node_op_of_token(toks[0].token_type),
                            function_args: seq![],
                            left: None,
                            right: None,
                        },
                    )
                }
            },
        }
    }
}

#[via_fn]
proof fn build_spec_decreases(toks: Seq<SpecToken>, graphs: Map<char, SpecTreeNode>) {
    if toks.len() == 1 && toks[0].token_type matches SpecTokenType::Func(_, _) {
        let groups = toks[0].token_type->Func_0;
        assert(decreases_to!(toks => toks[0]));
        assert(decreases_to!(toks[0] => toks[0].token_type));
        assert(decreases_to!(toks[0].token_type => groups));
        assert(decreases_to!(toks => groups));
    } else {
        lemma_find_next_op_minimal(toks);
        match find_next_op_spec(toks) {
            Some(p) => {
                if !(toks[p].token_type matches SpecTokenType::Func(_, _)) {
                    assert(decreases_to!(toks => toks.subrange(0, p)));
                    assert(decreases_to!(toks => toks.subrange(p + 1, toks.len() as int)));
                }
            },
            None => {},
        }
    }
}

#[via_fn]
proof fn build_groups_spec_decreases(
    groups: Seq<Seq<SpecToken>>,
    idx: int,
    graphs: Map<char, SpecTreeNode>,
) {
    if 0 <= idx < groups.len() {
        assert(decreases_to!(groups => groups[idx]));
    }
}

/// One built child per argument group from `idx` on.
pub open spec fn build_groups_spec(
    groups: Seq<Seq<SpecToken>>,
    idx: int,
    graphs: Map<char, SpecTreeNode>,
) -> Result<Seq<SpecTreeNode>, ParseError>
    decreases groups, groups.len() - idx,
    via build_groups_spec_decreases
{
    if idx < 0 || idx >= groups.len() {
        Ok(seq![])
    } else {
        match build_spec(groups[idx], graphs) {
            Err(e) => Err(e),
            Ok(t) => match build_groups_spec(groups, idx + 1, graphs) {
                Err(e) => Err(e),
                Ok(rest) => Ok(seq![t] + rest),
            },
        }
    }
}

// ---------------------------------------------------------------------------
// the executable builder
// ---------------------------------------------------------------------------

/// The node a token heads: operators and leaves carry over; a function
/// token keeps its name and sheds its groups, which become children.
fn node_op_exec(t: &LexerTokenType) -> (r: NodeOp)
    ensures
        r@ == node_op_of_token(t@),
{
    match t {
        LexerTokenType::Add => NodeOp::Add,
        LexerTokenType::Sub => NodeOp::Sub,
        LexerTokenType::Mul => NodeOp::Mul,
        LexerTokenType::Div => NodeOp::Div,
        LexerTokenType::X => NodeOp::X,
        LexerTokenType::Var(c) => NodeOp::Var(*c),
        LexerTokenType::Num(cs) => NodeOp::Num(copy_chars(cs)),
        LexerTokenType::Func(_, name) => NodeOp::Func(copy_chars(name)),
        LexerTokenType::IndefiniteFunction(c) => NodeOp::IndefiniteFunction(*c),
    }
}

fn clone_node_op(op: &NodeOp) -> (r: NodeOp)
    ensures
        r@ == op@,
{
    match op {
        NodeOp::Add => NodeOp::Add,
        NodeOp::Sub => NodeOp::Sub,
        NodeOp::Mul => NodeOp::Mul,
        NodeOp::Div => NodeOp::Div,
        NodeOp::X => NodeOp::X,
        NodeOp::Var(c) => NodeOp::Var(*c),
        NodeOp::Num(cs) => NodeOp::Num(copy_chars(cs)),
        NodeOp::Func(name) => NodeOp::Func(copy_chars(name)),
        NodeOp::IndefiniteFunction(c) => NodeOp::IndefiniteFunction(*c),
    }
}

/// An independent copy of a tree, for splicing a stored curve into a new
/// tree without giving up the stored one.
fn clone_tree(t: &TreeNode) -> (r: TreeNode)
    ensures
        r@ == t@,
    decreases *t,
{
    let mut args: Vec<TreeNode> = Vec::new();
    let mut i: usize = 0;
    while i < t.function_args.len()
        invariant
            i <= t.function_args@.len(),
            args@.len() == i as int,
            forall|m: int| 0 <= m < i ==> tree_view(#[trigger] args@[m]) == tree_view(
                t.function_args@[m],
            ),
        decreases t.function_args@.len() - i,
    {
        proof {
            assert(decreases_to!(*t => t.function_args));
            assert(decreases_to!(t.function_args => t.function_args@[i as int]));
        }
        args.push(clone_tree(&t.function_args[i]));
        i += 1;
    }
    let left: Option<Box<TreeNode>> = match &t.left {
        Some(b) => Some(Box::new(clone_tree(b))),
        None => None,
    };
    let right: Option<Box<TreeNode>> = match &t.right {
        Some(b) => Some(Box::new(clone_tree(b))),
        None => None,
    };
    let r = TreeNode { token_type: clone_node_op(&t.token_type), function_args: args, left, right };
    proof {
        assert(tree_view(r).function_args =~= tree_view(*t).function_args);
    }
    r
}

/// An owned copy of a stored curve's root.
fn clone_tree_root(pt: &ParseTree) -> (r: TreeNode)
    requires
        pt.wf(),
    ensures
        r@ == pt@,
{
    match &pt.inner_tree {
        Some(b) => clone_tree(b),
        None => {
            proof {
                assert(false);
            }
            TreeNode { token_type: NodeOp::X, function_args: Vec::new(), left: None, right: None }
        },
    }
}

impl TreeNode {
    /// Builds the tree of `items[lo..hi]` against the stored curves,
    /// following the resolver's splits.
    fn new_from_tokens(items: &Vec<LexerToken>, lo: usize, hi: usize, graphs: &GraphStore) -> (r:
        Result<TreeNode, ParseError>)
        requires
            lo <= hi <= items@.len(),
            graphs.wf(),
        ensures
            ({
                let ts = view_tokens(items@).subrange(lo as int, hi as int);
                &&& r is Ok <==> build_spec(ts, graphs@) is Ok
                &&& r matches Ok(t) ==> build_spec(ts, graphs@) == Ok::<_, ParseError>(t@)
            }),
        decreases view_tokens(items@).subrange(lo as int, hi as int), 0int,
    {
        let ghost ts = view_tokens(items@).subrange(lo as int, hi as int);
        proof {
            lemma_find_next_op_minimal(ts);
        }
        // a slice that is exactly one function token becomes a function
        // node of its own, before the resolver is consulted
        if hi - lo == 1 {
            if let LexerTokenType::Func(groups, name) = &items[lo].token_type {
                proof {
                    assert(ts[0] == items@[lo as int]@);
                    lemma_func_token_view(*groups, *name);
                }
                let ghost gs = view_groups(groups@);
                let mut ref_char: Option<char> = None;
                if groups.len() > 0 && groups[0].len() == 1 {
                    if let LexerTokenType::IndefiniteFunction(cc) = &groups[0][0].token_type {
                        ref_char = Some(*cc);
                    }
                }
                proof {
                    if groups@.len() > 0 && groups@[0]@.len() == 1 {
                        assert(gs[0][0] == groups@[0]@[0]@);
                    }
                    assert(decreases_to!(ts => ts[0]));
                    assert(decreases_to!(ts[0] => ts[0].token_type));
                    assert(decreases_to!(ts[0].token_type => gs));
                }
                return match ref_char {
                    Some(c) => {
                        match graphs.get(c) {
                            None => Err(ParseError),
                            Some(pt) => {
                                match Self::build_args(groups, 1, graphs) {
                                    Err(_) => Err(ParseError),
                                    Ok(args) => {
                                        let root = clone_tree_root(pt);
                                        let ghost argsv = view_nodes(args@);
                                        let mut args2 = args;
                                        args2.insert(0, root);
                                        let node = TreeNode {
                                            token_type: NodeOp::Func(copy_chars(name)),
                                            function_args: args2,
                                            left: None,
                                            right: None,
                                        };
                                        proof {
                                            assert(tree_view(node).function_args =~= seq![
                                                graphs@[c],
                                            ] + argsv);
                                        }
                                        Ok(node)
                                    },
                                }
                            },
                        }
                    },
                    None => {
                        match Self::build_args(groups, 0, graphs) {
                            Err(_) => Err(ParseError),
                            Ok(args) => {
                                let ghost argsv = view_nodes(args@);
                                let node = TreeNode {
                                    token_type: NodeOp::Func(copy_chars(name)),
                                    function_args: args,
                                    left: None,
                                    right: None,
                                };
                                proof {
                                    assert(tree_view(node).function_args =~= argsv);
                                }
                                Ok(node)
                            },
                        }
                    },
                };
            }
        }
        proof {
            if ts.len() == 1 {
                assert(ts[0] == items@[lo as int]@);
            }
        }
        let next = find_next_op(items, lo, hi);
        match next {
            Some(p) => {
                let pos = lo + p;
                proof {
                    assert(ts[p as int] == items@[pos as int]@);
                }
                if let LexerTokenType::Func(_, _) = &items[pos].token_type {
                    // a function token beside other tokens: adjacent
                    // values with nothing connecting them
                    Err(ParseError)
                } else {
                    proof {
                        assert(view_tokens(items@).subrange(lo as int, pos as int) =~= ts.subrange(
                            0,
                            p as int,
                        ));
                        assert(view_tokens(items@).subrange(pos + 1, hi as int) =~= ts.subrange(
                            p + 1,
                            ts.len() as int,
                        ));
                        assert(decreases_to!(ts => ts.subrange(0, p as int)));
                        assert(decreases_to!(ts => ts.subrange(p + 1, ts.len() as int)));
                    }
                    match Self::new_from_tokens(items, lo, pos, graphs) {
                        Err(e) => Err(e),
                        Ok(l) => match Self::new_from_tokens(items, pos + 1, hi, graphs) {
                            Err(e) => Err(e),
                            Ok(rn) => {
                                let tt = node_op_exec(&items[pos].token_type);
                                let node = TreeNode {
                                    token_type: tt,
                                    function_args: Vec::new(),
                                    left: Some(Box::new(l)),
                                    right: Some(Box::new(rn)),
                                };
                                proof {
                                    assert(tree_view(node).function_args =~= Seq::<
                                        SpecTreeNode,
                                    >::empty());
                                }
                                Ok(node)
                            },
                        },
                    }
                }
            },
            None => {
                if hi - lo != 1 {
                    Err(ParseError)
                } else {
                    proof {
                        assert(ts[0] == items@[lo as int]@);
                    }
                    let tt = node_op_exec(&items[lo].token_type);
                    let node = TreeNode {
                        token_type: tt,
                        function_args: Vec::new(),
                        left: None,
                        right: None,
                    };
                    proof {
                        assert(tree_view(node).function_args =~= Seq::<SpecTreeNode>::empty());
                    }
                    Ok(node)
                }
            },
        }
    }

    /// Builds one child per argument group from `idx` on.
    fn build_args(groups: &Vec<Vec<LexerToken>>, idx: usize, graphs: &GraphStore) -> (r: Result<
        Vec<TreeNode>,
        ParseError,
    >)
        requires
            idx <= groups@.len(),
            graphs.wf(),
        ensures
            ({
                let gs = view_groups(groups@);
                &&& r is Ok <==> build_groups_spec(gs, idx as int, graphs@) is Ok
                &&& r matches Ok(v) ==> build_groups_spec(gs, idx as int, graphs@) == Ok::<
                    _,
                    ParseError,
                >(view_nodes(v@))
            }),
        decreases view_groups(groups@), groups@.len() - idx,
    {
        let ghost gs = view_groups(groups@);
        if idx >= groups.len() {
            proof {
                assert(view_nodes(Seq::<TreeNode>::empty()) =~= Seq::<SpecTreeNode>::empty());
            }
            Ok(Vec::new())
        } else {
            proof {
                assert(decreases_to!(gs => gs[idx as int]));
                assert(gs[idx as int] == view_tokens(groups@[idx as int]@));
                assert(view_tokens(groups@[idx as int]@).subrange(
                    0,
                    groups@[idx as int]@.len() as int,
                ) =~= view_tokens(groups@[idx as int]@));
            }
            match TreeNode::new_from_tokens(&groups[idx], 0, groups[idx].len(), graphs) {
                Err(_) => Err(ParseError),
                Ok(t) => match Self::build_args(groups, idx + 1, graphs) {
                    Err(_) => Err(ParseError),
                    Ok(rest) => {
                        let ghost tv = tree_view(t);
                        let ghost restv = view_nodes(rest@);
                        let mut out = rest;
                        out.insert(0, t);
                        proof {
                            assert(view_nodes(out@) =~= seq![tv] + restv);
                        }
                        Ok(out)
                    },
                },
            }
        }
    }
}

// ---------------------------------------------------------------------------
// laws of precedence
// ---------------------------------------------------------------------------

/// The instruction a binary operator token turns into.
pub open spec fn binary_instr(op: SpecTokenType) -> SpecInstr {
    match op {
        SpecTokenType::Add => SpecInstr::Add,
        SpecTokenType::Sub => SpecInstr::Sub,
        SpecTokenType::Mul => SpecInstr::Mul,
        _ => SpecInstr::Div,
    }
}

/// A literal token at a depth.
pub open spec fn num_tok(lit: Seq<char>, d: nat) -> SpecToken {
    SpecToken { token_type: SpecTokenType::Num(lit), bracket_depth: d }
}

/// An operator token at a depth.
pub open spec fn op_tok(op: SpecTokenType, d: nat) -> SpecToken {
    SpecToken { token_type: op, bracket_depth: d }
}

/// A leaf tree node of one literal.
pub open spec fn leaf_node(lit: Seq<char>) -> SpecTreeNode {
    SpecTreeNode {
        token_type: SpecNodeOp::Num(lit),
        function_args: seq![],
        left: None,
        right: None,
    }
}

/// A binary tree node over two subtrees.
pub open spec fn binary_node(op: SpecTokenType, l: SpecTreeNode, r: SpecTreeNode) -> SpecTreeNode {
    SpecTreeNode {
        token_type: node_op_of_token(op),
        function_args: seq![],
        left: Some(Box::new(l)),
        right: Some(Box::new(r)),
    }
}

proof fn lemma_build_leaf(lit: Seq<char>, d: nat, graphs: Map<char, SpecTreeNode>)
    ensures
        build_spec(seq![num_tok(lit, d)], graphs) == Ok::<_, ParseError>(leaf_node(lit)),
{
    reveal_with_fuel(find_next_op_from, 3);
}

proof fn lemma_compile_leaf(
    lit: Seq<char>,
    x_bound: bool,
    vars: Map<char, Seq<SpecInstr>>,
)
    ensures
        compile_spec(leaf_node(lit), x_bound, vars) == Ok::<
            _,
            EvaluateError,
        >(seq![SpecInstr::PushNum(lit)]),
{
}

/// Standard precedence: in `a ⊕ b ⊗ c` with `⊕` additive and `⊗`
/// multiplicative, all at one nesting depth, the multiplication binds
/// first — the built tree evaluates to the program that computes `b ⊗ c`
/// before applying `⊕`, whatever the literals.
pub proof fn lemma_multiplication_binds_first(
    a: Seq<char>,
    b: Seq<char>,
    c: Seq<char>,
    d: nat,
    op1: SpecTokenType,
    op2: SpecTokenType,
    graphs: Map<char, SpecTreeNode>,
    vars: Map<char, Seq<SpecInstr>>,
)
    requires
        op1 == SpecTokenType::Add || op1 == SpecTokenType::Sub,
        op2 == SpecTokenType::Mul || op2 == SpecTokenType::Div,
    ensures
        ({
            let toks = seq![num_tok(a, d), op_tok(op1, d), num_tok(b, d), op_tok(op2, d), num_tok(c, d)];
            &&& build_spec(toks, graphs) is Ok
            &&& compile_spec(build_spec(toks, graphs)->Ok_0, false, vars) == Ok::<
                _,
                EvaluateError,
            >(
                seq![
                    SpecInstr::PushNum(a),
                    SpecInstr::PushNum(b),
                    SpecInstr::PushNum(c),
                    binary_instr(op2),
                    binary_instr(op1),
                ],
            )
        }),
{
    let toks = seq![num_tok(a, d), op_tok(op1, d), num_tok(b, d), op_tok(op2, d), num_tok(c, d)];
    reveal_with_fuel(find_next_op_from, 7);
    assert(find_next_op_spec(toks) == Some(1int));
    let right = toks.subrange(2, 5);
    assert(toks.subrange(0, 1) =~= seq![num_tok(a, d)]);
    assert(right =~= seq![num_tok(b, d), op_tok(op2, d), num_tok(c, d)]);
    assert(find_next_op_spec(right) == Some(1int));
    assert(right.subrange(0, 1) =~= seq![num_tok(b, d)]);
    assert(right.subrange(2, 3) =~= seq![num_tok(c, d)]);
    lemma_build_leaf(a, d, graphs);
    lemma_build_leaf(b, d, graphs);
    lemma_build_leaf(c, d, graphs);
    let node2 = binary_node(op2, leaf_node(b), leaf_node(c));
    assert(build_spec(right, graphs) == Ok::<_, ParseError>(node2));
    let root = binary_node(op1, leaf_node(a), node2);
    assert(build_spec(toks, graphs) == Ok::<_, ParseError>(root));
    lemma_compile_leaf(a, false, vars);
    lemma_compile_leaf(b, false, vars);
    lemma_compile_leaf(c, false, vars);
    assert(compile_spec(node2, false, vars) == Ok::<
        _,
        EvaluateError,
    >(
        seq![
            SpecInstr::PushNum(b),
            SpecInstr::PushNum(c),
            binary_instr(op2),
        ],
    )) by {
        assert(seq![SpecInstr::PushNum(b)] + seq![
            SpecInstr::PushNum(c),
        ] + seq![binary_instr(op2)] =~= seq![
            SpecInstr::PushNum(b),
            SpecInstr::PushNum(c),
            binary_instr(op2),
        ]);
    }
    assert(seq![SpecInstr::PushNum(a)] + seq![
        SpecInstr::PushNum(b),
        SpecInstr::PushNum(c),
        binary_instr(op2),
    ] + seq![binary_instr(op1)] =~= seq![
        SpecInstr::PushNum(a),
        SpecInstr::PushNum(b),
        SpecInstr::PushNum(c),
        binary_instr(op2),
        binary_instr(op1),
    ]);
}

/// Left associativity: in `a ⊕ b ⊕' c` with both operators of one class,
/// all at one nesting depth, the left pair binds first — the built tree
/// evaluates to the program that computes `a ⊕ b` before applying `⊕'`,
/// whatever the literals.
pub proof fn lemma_equal_class_left_associates(
    a: Seq<char>,
    b: Seq<char>,
    c: Seq<char>,
    d: nat,
    op1: SpecTokenType,
    op2: SpecTokenType,
    graphs: Map<char, SpecTreeNode>,
    vars: Map<char, Seq<SpecInstr>>,
)
    requires
        is_operator_token(op1),
        is_operator_token(op2),
        !(op1 matches SpecTokenType::Func(_, _)),
        !(op2 matches SpecTokenType::Func(_, _)),
        op_class(op1) == op_class(op2),
    ensures
        ({
            let toks = seq![num_tok(a, d), op_tok(op1, d), num_tok(b, d), op_tok(op2, d), num_tok(c, d)];
            &&& build_spec(toks, graphs) is Ok
            &&& compile_spec(build_spec(toks, graphs)->Ok_0, false, vars) == Ok::<
                _,
                EvaluateError,
            >(
                seq![
                    SpecInstr::PushNum(a),
                    SpecInstr::PushNum(b),
                    binary_instr(op1),
                    SpecInstr::PushNum(c),
                    binary_instr(op2),
                ],
            )
        }),
{
    let toks = seq![num_tok(a, d), op_tok(op1, d), num_tok(b, d), op_tok(op2, d), num_tok(c, d)];
    reveal_with_fuel(find_next_op_from, 7);
    assert(find_next_op_spec(toks) == Some(3int));
    let left = toks.subrange(0, 3);
    assert(left =~= seq![num_tok(a, d), op_tok(op1, d), num_tok(b, d)]);
    assert(toks.subrange(4, 5) =~= seq![num_tok(c, d)]);
    assert(find_next_op_spec(left) == Some(1int));
    assert(left.subrange(0, 1) =~= seq![num_tok(a, d)]);
    assert(left.subrange(2, 3) =~= seq![num_tok(b, d)]);
    lemma_build_leaf(a, d, graphs);
    lemma_build_leaf(b, d, graphs);
    lemma_build_leaf(c, d, graphs);
    let node1 = binary_node(op1, leaf_node(a), leaf_node(b));
    assert(build_spec(left, graphs) == Ok::<_, ParseError>(node1));
    let root = binary_node(op2, node1, leaf_node(c));
    assert(build_spec(toks, graphs) == Ok::<_, ParseError>(root));
    lemma_compile_leaf(a, false, vars);
    lemma_compile_leaf(b, false, vars);
    lemma_compile_leaf(c, false, vars);
    assert(compile_spec(node1, false, vars) == Ok::<
        _,
        EvaluateError,
    >(
        seq![
            SpecInstr::PushNum(a),
            SpecInstr::PushNum(b),
            binary_instr(op1),
        ],
    )) by {
        assert(seq![SpecInstr::PushNum(a)] + seq![
            SpecInstr::PushNum(b),
        ] + seq![binary_instr(op1)] =~= seq![
            SpecInstr::PushNum(a),
            SpecInstr::PushNum(b),
            binary_instr(op1),
        ]);
    }
    assert(seq![
        SpecInstr::PushNum(a),
        SpecInstr::PushNum(b),
        binary_instr(op1),
    ] + seq![SpecInstr::PushNum(c)] + seq![binary_instr(op2)] =~= seq![
        SpecInstr::PushNum(a),
        SpecInstr::PushNum(b),
        binary_instr(op1),
        SpecInstr::PushNum(c),
        binary_instr(op2),
    ]);
}

/// Explicit grouping wins: in `(a ⊕ b) ⊗ c`, where the bracketed pair sits
/// one nesting level deeper, the shallower operator splits last whatever
/// the two operator classes are — the built tree evaluates to the program
/// that computes `a ⊕ b` before applying `⊗`, whatever the literals.
pub proof fn lemma_brackets_bind_first(
    a: Seq<char>,
    b: Seq<char>,
    c: Seq<char>,
    d: nat,
    op1: SpecTokenType,
    op2: SpecTokenType,
    graphs: Map<char, SpecTreeNode>,
    vars: Map<char, Seq<SpecInstr>>,
)
    requires
        is_operator_token(op1),
        is_operator_token(op2),
        !(op1 matches SpecTokenType::Func(_, _)),
        !(op2 matches SpecTokenType::Func(_, _)),
    ensures
        ({
            let toks = seq![
                num_tok(a, d + 1),
                op_tok(op1, d + 1),
                num_tok(b, d + 1),
                op_tok(op2, d),
                num_tok(c, d),
            ];
            &&& build_spec(toks, graphs) is Ok
            &&& compile_spec(build_spec(toks, graphs)->Ok_0, false, vars) == Ok::<
                _,
                EvaluateError,
            >(
                seq![
                    SpecInstr::PushNum(a),
                    SpecInstr::PushNum(b),
                    binary_instr(op1),
                    SpecInstr::PushNum(c),
                    binary_instr(op2),
                ],
            )
        }),
{
    let toks = seq![
        num_tok(a, d + 1),
        op_tok(op1, d + 1),
        num_tok(b, d + 1),
        op_tok(op2, d),
        num_tok(c, d),
    ];
    reveal_with_fuel(find_next_op_from, 7);
    assert(find_next_op_spec(toks) == Some(3int));
    let left = toks.subrange(0, 3);
    assert(left =~= seq![num_tok(a, d + 1), op_tok(op1, d + 1), num_tok(b, d + 1)]);
    assert(toks.subrange(4, 5) =~= seq![num_tok(c, d)]);
    assert(find_next_op_spec(left) == Some(1int));
    assert(left.subrange(0, 1) =~= seq![num_tok(a, d + 1)]);
    assert(left.subrange(2, 3) =~= seq![num_tok(b, d + 1)]);
    lemma_build_leaf(a, (d + 1) as nat, graphs);
    lemma_build_leaf(b, (d + 1) as nat, graphs);
    lemma_build_leaf(c, d, graphs);
    let node1 = binary_node(op1, leaf_node(a), leaf_node(b));
    assert(build_spec(left, graphs) == Ok::<_, ParseError>(node1));
    let root = binary_node(op2, node1, leaf_node(c));
    assert(build_spec(toks, graphs) == Ok::<_, ParseError>(root));
    lemma_compile_leaf(a, false, vars);
    lemma_compile_leaf(b, false, vars);
    lemma_compile_leaf(c, false, vars);
    assert(compile_spec(node1, false, vars) == Ok::<
        _,
        EvaluateError,
    >(
        seq![
            SpecInstr::PushNum(a),
            SpecInstr::PushNum(b),
            binary_instr(op1),
        ],
    )) by {
        assert(seq![SpecInstr::PushNum(a)] + seq![
            SpecInstr::PushNum(b),
        ] + seq![binary_instr(op1)] =~= seq![
            SpecInstr::PushNum(a),
            SpecInstr::PushNum(b),
            binary_instr(op1),
        ]);
    }
    assert(seq![
        SpecInstr::PushNum(a),
        SpecInstr::PushNum(b),
        binary_instr(op1),
    ] + seq![SpecInstr::PushNum(c)] + seq![binary_instr(op2)] =~= seq![
        SpecInstr::PushNum(a),
        SpecInstr::PushNum(b),
        binary_instr(op1),
        SpecInstr::PushNum(c),
        binary_instr(op2),
    ]);
}

// ---------------------------------------------------------------------------
// the executable evaluator
// ---------------------------------------------------------------------------

/// Evaluates one node to a program: literals push themselves, variables
/// splice in their stored programs, the free variable pushes its supplied
/// value, known functions append their operation behind their evaluated
/// arguments, and binary nodes append their operator behind both sides.
fn evaluate_node(t: &TreeNode, x_bound: bool, vars: &VarStore) -> (r: Result<
    Vec<Instr>,
    EvaluateError,
>)
    ensures
        r is Ok <==> compile_spec(t@, x_bound, vars@) is Ok,
        r matches Ok(p) ==> compile_spec(t@, x_bound, vars@) == Ok::<
            _,
            EvaluateError,
        >(view_instrs(p@)),
    decreases *t, 2int,
{
    let ghost n = tree_view(*t);
    match &t.token_type {
        NodeOp::Num(cs) => {
            let mut p: Vec<Instr> = Vec::new();
            p.push(Instr::PushNum(copy_chars(cs)));
            proof {
                assert(view_instrs(p@) =~= seq![
                    SpecInstr::PushNum(cs@),
                ]);
            }
            Ok(p)
        },
        NodeOp::Var(c) => match vars.get(*c) {
            Some(prog) => Ok(clone_program(prog)),
            None => Err(EvaluateError),
        },
        NodeOp::X => {
            if x_bound {
                let mut p: Vec<Instr> = Vec::new();
                p.push(Instr::PushX);
                proof {
                    assert(view_instrs(p@) =~= seq![
                        SpecInstr::PushX,
                    ]);
                }
                Ok(p)
            } else {
                Err(EvaluateError)
            }
        },
        NodeOp::IndefiniteFunction(_) => Err(EvaluateError),
        NodeOp::Func(name) => evaluate_func_node(t, name, x_bound, vars),
        _ => {
            // a binary arithmetic node
            match (&t.left, &t.right) {
                (Some(lb), Some(rb)) => {
                    match evaluate_node(lb, x_bound, vars) {
                        Err(e) => Err(e),
                        Ok(pl) => match evaluate_node(rb, x_bound, vars) {
                            Err(e) => Err(e),
                            Ok(pr) => {
                                let ghost plv = view_instrs(pl@);
                                let ghost prv = view_instrs(pr@);
                                let op = match &t.token_type {
                                    NodeOp::Add => Instr::Add,
                                    NodeOp::Sub => Instr::Sub,
                                    NodeOp::Mul => Instr::Mul,
                                    _ => Instr::Div,
                                };
                                let mut out = pl;
                                let mut pr2 = pr;
                                out.append(&mut pr2);
                                out.push(op);
                                proof {
                                    assert(view_instrs(out@) =~= plv + prv + seq![
                                        out@[out@.len() - 1]@,
                                    ]);
                                }
                                Ok(out)
                            },
                        },
                    }
                },
                _ => Err(EvaluateError),
            }
        },
    }
}

/// Evaluates a function node: dispatch on the scanned name with the arity
/// the builder produced; an unknown name or a wrong arity is an evaluation
/// error, since no built tree has one.
fn evaluate_func_node(
    t: &TreeNode,
    name: &Vec<char>,
    x_bound: bool,
    vars: &VarStore,
) -> (r: Result<Vec<Instr>, EvaluateError>)
    requires
        t.token_type == NodeOp::Func(*name),
    ensures
        r is Ok <==> compile_spec(t@, x_bound, vars@) is Ok,
        r matches Ok(p) ==> compile_spec(t@, x_bound, vars@) == Ok::<
            _,
            EvaluateError,
        >(view_instrs(p@)),
    decreases *t, 1int,
{
    let ghost n = tree_view(*t);
    proof {
        assert forall|m: int| 0 <= m < t.function_args@.len() implies n.function_args[m]
            == tree_view(#[trigger] t.function_args@[m]) by {}
    }
    let ln_v: Vec<char> = vec!['l', 'n'];
    let log_v: Vec<char> = vec!['l', 'o', 'g'];
    let sin_v: Vec<char> = vec!['s', 'i', 'n'];
    let cos_v: Vec<char> = vec!['c', 'o', 's'];
    let tan_v: Vec<char> = vec!['t', 'a', 'n'];
    let sqrt_v: Vec<char> = vec!['s', 'q', 'r', 't'];
    let int_v: Vec<char> = vec!['i', 'n', 't'];
    proof {
        assert(ln_v@ =~= ln_name());
        assert(log_v@ =~= log_name());
        assert(sin_v@ =~= sin_name());
        assert(cos_v@ =~= cos_name());
        assert(tan_v@ =~= tan_name());
        assert(sqrt_v@ =~= sqrt_name());
        assert(int_v@ =~= int_name());
    }
    let argc = t.function_args.len();
    if chars_eq(name, &ln_v) {
        if argc != 1 {
            Err(EvaluateError)
        } else {
            match evaluate_arg(t, 0, x_bound, vars) {
                Err(e) => Err(e),
                Ok(p) => Ok(push_op(p, Instr::Ln)),
            }
        }
    } else if chars_eq(name, &log_v) {
        if argc == 1 {
            match evaluate_arg(t, 0, x_bound, vars) {
                Err(e) => Err(e),
                Ok(p) => Ok(push_op(p, Instr::Log10)),
            }
        } else if argc == 2 {
            match evaluate_arg(t, 0, x_bound, vars) {
                Err(e) => Err(e),
                Ok(p) => match evaluate_arg(t, 1, x_bound, vars) {
                    Err(e) => Err(e),
                    Ok(q) => {
                        let ghost pv = view_instrs(p@);
                        let ghost qv = view_instrs(q@);
                        let mut out = p;
                        let mut q2 = q;
                        out.append(&mut q2);
                        out.push(Instr::LogBase);
                        proof {
                            assert(view_instrs(out@) =~= pv + qv + seq![
                                SpecInstr::LogBase,
                            ]);
                        }
                        Ok(out)
                    },
                },
            }
        } else {
            Err(EvaluateError)
        }
    } else if chars_eq(name, &sin_v) {
        if argc != 1 {
            Err(EvaluateError)
        } else {
            match evaluate_arg(t, 0, x_bound, vars) {
                Err(e) => Err(e),
                Ok(p) => Ok(push_op(p, Instr::Sin)),
            }
        }
    } else if chars_eq(name, &cos_v) {
        if argc != 1 {
            Err(EvaluateError)
        } else {
            match evaluate_arg(t, 0, x_bound, vars) {
                Err(e) => Err(e),
                Ok(p) => Ok(push_op(p, Instr::Cos)),
            }
        }
    } else if chars_eq(name, &tan_v) {
        if argc != 1 {
            Err(EvaluateError)
        } else {
            match evaluate_arg(t, 0, x_bound, vars) {
                Err(e) => Err(e),
                Ok(p) => Ok(push_op(p, Instr::Tan)),
            }
        }
    } else if chars_eq(name, &sqrt_v) {
        if argc != 1 {
            Err(EvaluateError)
        } else {
            match evaluate_arg(t, 0, x_bound, vars) {
                Err(e) => Err(e),
                Ok(p) => Ok(push_op(p, Instr::Sqrt)),
            }
        }
    } else if chars_eq(name, &int_v) {
        if argc != 3 {
            Err(EvaluateError)
        } else {
            match evaluate_arg(t, 0, true, vars) {
                Err(e) => Err(e),
                Ok(body) => match evaluate_arg(t, 1, x_bound, vars) {
                    Err(e) => Err(e),
                    Ok(lo) => match evaluate_arg(t, 2, x_bound, vars) {
                        Err(e) => Err(e),
                        Ok(hi) => {
                            let ghost lov = view_instrs(lo@);
                            let ghost hiv = view_instrs(hi@);
                            proof {
                                lemma_integrate_view(body);
                            }
                            let ghost bv = view_instrs(body@);
                            let mut out = lo;
                            let mut hi2 = hi;
                            out.append(&mut hi2);
                            out.push(Instr::Integrate(body));
                            proof {
                                assert(view_instrs(out@) =~= lov + hiv + seq![
                                    SpecInstr::Integrate(bv),
                                ]);
                            }
                            Ok(out)
                        },
                    },
                },
            }
        }
    } else {
        Err(EvaluateError)
    }
}

/// Evaluates one argument child of a function node.
fn evaluate_arg(t: &TreeNode, i: usize, x_bound: bool, vars: &VarStore) -> (r:
    Result<Vec<Instr>, EvaluateError>)
    requires
        i < t.function_args@.len(),
    ensures
        r is Ok <==> compile_spec(t@.function_args[i as int], x_bound, vars@) is Ok,
        r matches Ok(p) ==> compile_spec(t@.function_args[i as int], x_bound, vars@)
            == Ok::<_, EvaluateError>(view_instrs(p@)),
    decreases *t, 0int,
{
    proof {
        assert(decreases_to!(*t => t.function_args));
        assert(decreases_to!(t.function_args => t.function_args@[i as int]));
        assert(t@.function_args[i as int] == tree_view(t.function_args@[i as int]));
    }
    evaluate_node(&t.function_args[i], x_bound, vars)
}

/// Appends one operation behind an evaluated argument's program.
fn push_op(p: Vec<Instr>, op: Instr) -> (r: Vec<
    Instr,
>)
    ensures
        view_instrs(r@) == view_instrs(p@).push(op@),
{
    let ghost pv = view_instrs(p@);
    let ghost opv = op@;
    let mut out = p;
    out.push(op);
    proof {
        assert(view_instrs(out@) =~= pv.push(opv));
    }
    out
}

impl ParseTree {
    /// Evaluates the whole tree to a closed numeric program against the
    /// stored variables. `x_bound` says whether the host will bind the free
    /// variable when it runs the program; evaluation fails exactly when the
    /// tree reads an unbound variable, reads the free variable without a
    /// binding in sight, or has a shape the builder cannot produce.
    pub fn evaluate(&self, x_bound: bool, vars: &VarStore) -> (r: Result<
        Vec<Instr>,
        EvaluateError,
    >)
        requires
            self.wf(),
        ensures
            r is Ok <==> evaluable(self@, x_bound, vars@),
            r matches Ok(p) ==> compile_spec(self@, x_bound, vars@) == Ok::<
                _,
                EvaluateError,
            >(view_instrs(p@)),
    {
        match &self.inner_tree {
            Some(b) => evaluate_node(b, x_bound, vars),
            None => {
                proof {
                    assert(false);
                }
                Err(EvaluateError)
            },
        }
    }
}

impl ParseTree {
    /// Builds the expression tree of a whole token list against the stored
    /// curves.
    pub fn new(lexed: &Vec<LexerToken>, graphs: &GraphStore) -> (r: Result<ParseTree, ParseError>)
        requires
            graphs.wf(),
        ensures
            r is Ok <==> build_spec(view_tokens(lexed@), graphs@) is Ok,
            r matches Ok(pt) ==> pt.wf() && build_spec(view_tokens(lexed@), graphs@) == Ok::<
                _,
                ParseError,
            >(pt@),
    {
        proof {
            assert(view_tokens(lexed@).subrange(0, lexed@.len() as int) =~= view_tokens(lexed@));
        }
        match TreeNode::new_from_tokens(lexed, 0, lexed.len(), graphs) {
            Err(e) => Err(e),
            Ok(node) => Ok(ParseTree { inner_tree: Some(Box::new(node)) }),
        }
    }
}

} // verus!
