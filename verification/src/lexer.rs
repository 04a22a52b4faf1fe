//! The lexer: text to depth-annotated tokens.
//!
//! `lex` rejects bracket-unbalanced input outright, then scans left to right:
//! spaces are skipped; `(` and `)` adjust the running depth and are never
//! emitted; `+ - * /` become operator tokens; a maximal run of ASCII digits
//! and `.` becomes a numeric literal (a leading `.` gains a leading `0`, and
//! a run with two or more `.` is rejected); anything else starts an
//! identifier run. While an identifier run is open and the next character is
//! `(`, the run is searched for a registered function name — first match by
//! registry order {ln, log, sin, cos, tan, sqrt, int}, as a substring, not a
//! whole word — and on a hit the characters before the match become
//! single-character variable tokens while the rest of the run names a
//! function whose parenthesised, comma-separated argument groups are each
//! lexed recursively. After the scan, every lone variable `x` is
//! reclassified as the free variable.
//!
//! The specification functions here mirror that scan exactly; every
//! executable function is proved equal to its specification.

use vstd::prelude::*;

use crate::tokens::LexerToken;
use crate::tokens::LexerTokenType;
use crate::tokens::SpecToken;
use crate::tokens::SpecTokenType;
use crate::tokens::view_tokens;
use crate::tokens::view_groups;
use crate::tokens::view_char_groups;
use crate::tokens::lemma_func_token_view;

verus! {

/// Failure of the lexer: unbalanced brackets, an unterminated argument list,
/// a malformed literal or `int` argument shape, or the same inside a
/// recursively lexed argument group.
#[derive(Debug)]
pub struct LexError;

// ---------------------------------------------------------------------------
// character classes
// ---------------------------------------------------------------------------

pub open spec fn is_op_char(c: char) -> bool {
    c == '+' || c == '-' || c == '*' || c == '/'
}

/// ASCII digits and the decimal point start and extend a numeric literal.
pub open spec fn is_num_char(c: char) -> bool {
    ('0' <= c && c <= '9') || c == '.'
}

/// ASCII letters extend an identifier run.
pub open spec fn is_alpha_char(c: char) -> bool {
    ('a' <= c && c <= 'z') || ('A' <= c && c <= 'Z')
}

pub open spec fn op_token_type(c: char) -> SpecTokenType {
    if c == '+' {
        SpecTokenType::Add
    } else if c == '-' {
        SpecTokenType::Sub
    } else if c == '*' {
        SpecTokenType::Mul
    } else {
        SpecTokenType::Div
    }
}

// ---------------------------------------------------------------------------
// bracket validity
// ---------------------------------------------------------------------------

/// Scanning from `i` at open-bracket surplus `depth`, the brackets of the
/// rest of `s` close properly and end at surplus zero.
pub open spec fn brackets_ok_from(s: Seq<char>, i: int, depth: int) -> bool
    decreases s.len() - i,
{
    if i < 0 || i >= s.len() {
        depth == 0
    } else if s[i] == '(' {
        brackets_ok_from(s, i + 1, depth + 1)
    } else if s[i] == ')' {
        depth > 0 && brackets_ok_from(s, i + 1, depth - 1)
    } else {
        brackets_ok_from(s, i + 1, depth)
    }
}

/// Every prefix of `s` has at least as many `(` as `)`, and the totals agree.
pub open spec fn brackets_valid(s: Seq<char>) -> bool {
    brackets_ok_from(s, 0, 0)
}

/// How many times `c` occurs in `s` from position `i` on.
pub open spec fn count_char_from(s: Seq<char>, i: int, c: char) -> int
    decreases s.len() - i,
{
    if i < 0 || i >= s.len() {
        0
    } else if s[i] == c {
        1 + count_char_from(s, i + 1, c)
    } else {
        count_char_from(s, i + 1, c)
    }
}

/// A bracket-valid suffix balances its `(` and `)` counts against the
/// incoming surplus.
proof fn lemma_brackets_ok_counts(s: Seq<char>, i: int, depth: int)
    requires
        brackets_ok_from(s, i, depth),
    ensures
        depth + count_char_from(s, i, '(') == count_char_from(s, i, ')'),
    decreases s.len() - i,
{
    if 0 <= i < s.len() {
        if s[i] == '(' {
            lemma_brackets_ok_counts(s, i + 1, depth + 1);
        } else if s[i] == ')' {
            lemma_brackets_ok_counts(s, i + 1, depth - 1);
        } else {
            lemma_brackets_ok_counts(s, i + 1, depth);
        }
    }
}

/// Unequal `(` and `)` counts make the brackets invalid.
pub proof fn lemma_unbalanced_counts_invalid(s: Seq<char>)
    requires
        count_char_from(s, 0, '(') != count_char_from(s, 0, ')'),
    ensures
        !brackets_valid(s),
{
    if brackets_valid(s) {
        lemma_brackets_ok_counts(s, 0, 0);
    }
}

/// A string with unequal `(` and `)` counts never lexes: the answer is
/// always the lexer's error.
pub proof fn lemma_unbalanced_lex_fails(s: Seq<char>)
    requires
        count_char_from(s, 0, '(') != count_char_from(s, 0, ')'),
    ensures
        lex_spec(s) is Err,
{
    lemma_unbalanced_counts_invalid(s);
}

// ---------------------------------------------------------------------------
// substring search and the function-name registry
// ---------------------------------------------------------------------------

/// The needle matches inside the haystack at position `i`.
pub open spec fn match_at(hay: Seq<char>, needle: Seq<char>, i: int) -> bool {
    &&& 0 <= i
    &&& i + needle.len() <= hay.len()
    &&& hay.subrange(i, i + needle.len() as int) == needle
}

/// The leftmost position at or after `i` where the needle occurs.
pub open spec fn find_sub_from(hay: Seq<char>, needle: Seq<char>, i: int) -> Option<int>
    decreases hay.len() - i,
{
    if i < 0 || i >= hay.len() || i + needle.len() > hay.len() {
        None
    } else if match_at(hay, needle, i) {
        Some(i)
    } else {
        find_sub_from(hay, needle, i + 1)
    }
}

pub open spec fn ln_name() -> Seq<char> {
    seq!['l', 'n']
}

pub open spec fn log_name() -> Seq<char> {
    seq!['l', 'o', 'g']
}

pub open spec fn sin_name() -> Seq<char> {
    seq!['s', 'i', 'n']
}

pub open spec fn cos_name() -> Seq<char> {
    seq!['c', 'o', 's']
}

pub open spec fn tan_name() -> Seq<char> {
    seq!['t', 'a', 'n']
}

pub open spec fn sqrt_name() -> Seq<char> {
    seq!['s', 'q', 'r', 't']
}

pub open spec fn int_name() -> Seq<char> {
    seq!['i', 'n', 't']
}

/// Where an identifier run hides a function name: the position of the first
/// registered name found as a substring, trying the registry in order
/// {ln, log, sin, cos, tan, sqrt, int} and taking the leftmost occurrence of
/// the first name that occurs at all. The characters before that position
/// are implicit-multiplication variables; the suffix from it onward is the
/// function's name as scanned.
pub open spec fn find_function_spec(buf: Seq<char>) -> Option<int> {
    if buf.len() == 0 {
        None
    } else if find_sub_from(buf, ln_name(), 0) is Some {
        find_sub_from(buf, ln_name(), 0)
    } else if find_sub_from(buf, log_name(), 0) is Some {
        find_sub_from(buf, log_name(), 0)
    } else if find_sub_from(buf, sin_name(), 0) is Some {
        find_sub_from(buf, sin_name(), 0)
    } else if find_sub_from(buf, cos_name(), 0) is Some {
        find_sub_from(buf, cos_name(), 0)
    } else if find_sub_from(buf, tan_name(), 0) is Some {
        find_sub_from(buf, tan_name(), 0)
    } else if find_sub_from(buf, sqrt_name(), 0) is Some {
        find_sub_from(buf, sqrt_name(), 0)
    } else if find_sub_from(buf, int_name(), 0) is Some {
        find_sub_from(buf, int_name(), 0)
    } else {
        None
    }
}

// ---------------------------------------------------------------------------
// numeric literal runs
// ---------------------------------------------------------------------------

/// The first position at or after `j` that does not extend a numeric run.
pub open spec fn num_run_end(s: Seq<char>, j: int) -> int
    decreases s.len() - j,
{
    if j < 0 || j >= s.len() {
        j
    } else if is_num_char(s[j]) {
        num_run_end(s, j + 1)
    } else {
        j
    }
}

proof fn lemma_num_run_end_bounds(s: Seq<char>, j: int)
    requires
        0 <= j <= s.len(),
    ensures
        j <= num_run_end(s, j) <= s.len(),
    decreases s.len() - j,
{
    if j < s.len() && is_num_char(s[j]) {
        lemma_num_run_end_bounds(s, j + 1);
    }
}

// ---------------------------------------------------------------------------
// argument-group scanning
// ---------------------------------------------------------------------------

/// Scanning from `i` inside a function's argument list at bracket surplus
/// `bd` (starting at 1 just after the opening bracket), with `cur` the
/// characters of the group being collected and `acc` the groups already
/// collected: splits on top-level commas, keeps nested brackets inside the
/// groups, and ends just after the bracket that closes the list. Running out
/// of input first is an error (unterminated argument list).
pub open spec fn gen_groups_spec(
    s: Seq<char>,
    i: int,
    bd: int,
    cur: Seq<char>,
    acc: Seq<Seq<char>>,
) -> Result<(Seq<Seq<char>>, int), LexError>
    decreases s.len() - i,
{
    if i < 0 || i >= s.len() {
        Err(LexError)
    } else {
        let c = s[i];
        if c == ')' && bd == 1 {
            Ok((acc.push(cur), i + 1))
        } else if c == ',' && bd == 1 {
            gen_groups_spec(s, i + 1, bd, seq![], acc.push(cur))
        } else if c == '(' {
            gen_groups_spec(s, i + 1, bd + 1, cur.push(c), acc)
        } else if c == ')' {
            gen_groups_spec(s, i + 1, bd - 1, cur.push(c), acc)
        } else {
            gen_groups_spec(s, i + 1, bd, cur.push(c), acc)
        }
    }
}

/// Total character count of a suffix of a group list.
pub open spec fn sum_len_from(gs: Seq<Seq<char>>, idx: int) -> int
    decreases gs.len() - idx,
{
    if idx < 0 || idx >= gs.len() {
        0
    } else {
        gs[idx].len() + sum_len_from(gs, idx + 1)
    }
}

proof fn lemma_sum_len_from_nonneg(gs: Seq<Seq<char>>, idx: int)
    ensures
        sum_len_from(gs, idx) >= 0,
    decreases gs.len() - idx,
{
    if 0 <= idx < gs.len() {
        lemma_sum_len_from_nonneg(gs, idx + 1);
    }
}

proof fn lemma_sum_len_push(gs: Seq<Seq<char>>, g: Seq<char>, idx: int)
    requires
        0 <= idx <= gs.len(),
    ensures
        sum_len_from(gs.push(g), idx) == sum_len_from(gs, idx) + g.len(),
    decreases gs.len() - idx,
{
    if idx < gs.len() {
        assert(gs.push(g)[idx] == gs[idx]);
        lemma_sum_len_push(gs, g, idx + 1);
    } else {
        assert(gs.push(g)[idx] == g);
        assert(sum_len_from(gs.push(g), idx + 1) == 0);
    }
}

/// What group scanning yields stays inside the scanned range: the
/// continuation index moves strictly forward and the collected characters
/// are fewer than the characters consumed.
pub proof fn lemma_gen_groups_bounds(
    s: Seq<char>,
    i: int,
    bd: int,
    cur: Seq<char>,
    acc: Seq<Seq<char>>,
)
    requires
        0 <= i <= s.len(),
        gen_groups_spec(s, i, bd, cur, acc) is Ok,
    ensures
        ({
            let (groups, next) = gen_groups_spec(s, i, bd, cur, acc)->Ok_0;
            &&& i < next <= s.len()
            &&& sum_len_from(groups, 0) <= sum_len_from(acc, 0) + cur.len() + (next - 1 - i)
            &&& groups.len() > acc.len()
        }),
    decreases s.len() - i,
{
    let c = s[i];
    if c == ')' && bd == 1 {
        lemma_sum_len_push(acc, cur, 0);
    } else if c == ',' && bd == 1 {
        lemma_gen_groups_bounds(s, i + 1, bd, seq![], acc.push(cur));
        lemma_sum_len_push(acc, cur, 0);
    } else if c == '(' {
        lemma_gen_groups_bounds(s, i + 1, bd + 1, cur.push(c), acc);
    } else if c == ')' {
        lemma_gen_groups_bounds(s, i + 1, bd - 1, cur.push(c), acc);
    } else {
        lemma_gen_groups_bounds(s, i + 1, bd, cur.push(c), acc);
    }
}

// ---------------------------------------------------------------------------
// token constructors
// ---------------------------------------------------------------------------

pub open spec fn var_token(c: char, depth: nat) -> SpecToken {
    SpecToken { token_type: SpecTokenType::Var(c), bracket_depth: depth }
}

/// An identifier run flushes as one single-character variable per character.
pub open spec fn vars_of(buf: Seq<char>, depth: nat) -> Seq<SpecToken> {
    Seq::new(buf.len(), |i: int| var_token(buf[i], depth))
}

pub open spec fn op_token(c: char, depth: nat) -> SpecToken {
    SpecToken { token_type: op_token_type(c), bracket_depth: depth }
}

pub open spec fn num_token(lit: Seq<char>, depth: nat) -> SpecToken {
    SpecToken { token_type: SpecTokenType::Num(lit), bracket_depth: depth }
}

pub open spec fn func_token(groups: Seq<Seq<SpecToken>>, name: Seq<char>, depth: nat) -> SpecToken {
    SpecToken { token_type: SpecTokenType::Func(groups, name), bracket_depth: depth }
}

/// The synthetic curve reference spliced into an `int` call; it is produced
/// after the argument list closes, where the running list depth is zero.
pub open spec fn indef_token(c: char) -> SpecToken {
    SpecToken { token_type: SpecTokenType::IndefiniteFunction(c), bracket_depth: 0 }
}

/// An `int` first argument that names a curve: a single letter applied to
/// the literal `(x)`.
pub open spec fn is_int_ref_group(g: Seq<char>) -> bool {
    g.len() == 4 && is_alpha_char(g[0]) && g[1] == '(' && g[2] == 'x' && g[3] == ')'
}

/// After the scan, every lone variable `x` becomes the free variable.
pub open spec fn reclass_x(t: SpecToken) -> SpecToken {
    if t.token_type == SpecTokenType::Var('x') {
        SpecToken { token_type: SpecTokenType::X, bracket_depth: t.bracket_depth }
    } else {
        t
    }
}

pub open spec fn map_x_tokens(ts: Seq<SpecToken>) -> Seq<SpecToken> {
    Seq::new(ts.len(), |i: int| reclass_x(ts[i]))
}

// ---------------------------------------------------------------------------
// the scan itself
// ---------------------------------------------------------------------------

/// Lexing a whole input: brackets first, then the scan from the left end at
/// depth zero, then the `x` reclassification over the emitted tokens.
pub open spec fn lex_spec(s: Seq<char>) -> Result<Seq<SpecToken>, LexError>
    decreases s.len(), s.len() + 1, 0int,
{
    if !brackets_valid(s) {
        Err(LexError)
    } else {
        match scan_spec(s, 0, 0) {
            Err(e) => Err(e),
            Ok(toks) => Ok(map_x_tokens(toks)),
        }
    }
}

/// The main scan from position `i` at bracket depth `depth`, yielding all
/// tokens of the rest of the input.
pub open spec fn scan_spec(s: Seq<char>, i: int, depth: nat) -> Result<Seq<SpecToken>, LexError>
    decreases s.len(), s.len() - i, 1int,
    when 0 <= i <= s.len()
    via scan_spec_decreases
{
    if i >= s.len() {
        Ok(seq![])
    } else {
        let c = s[i];
        if c == ' ' {
            scan_spec(s, i + 1, depth)
        } else if c == '(' {
            scan_spec(s, i + 1, depth + 1)
        } else if c == ')' {
            scan_spec(s, i + 1, if depth > 0 { (depth - 1) as nat } else { 0 })
        } else if is_op_char(c) {
            match scan_spec(s, i + 1, depth) {
                Err(e) => Err(e),
                Ok(rest) => Ok(seq![op_token(c, depth)] + rest),
            }
        } else if is_num_char(c) {
            let j = num_run_end(s, i + 1);
            let raw = s.subrange(i, j);
            let lit = if c == '.' {
                seq!['0'] + raw
            } else {
                raw
            };
            if count_char_from(lit, 0, '.') > 1 {
                Err(LexError)
            } else {
                match scan_spec(s, j, depth) {
                    Err(e) => Err(e),
                    Ok(rest) => Ok(seq![num_token(lit, depth)] + rest),
                }
            }
        } else {
            ident_spec(s, i + 1, seq![c], depth)
        }
    }
}

/// An open identifier run: `buf` holds the characters taken so far and `k`
/// is the next position. A space, a non-letter, or the end of input flushes
/// the run as variables; a `(` after a run hiding a registered function name
/// turns the run's tail into a function call with recursively lexed groups.
/// Either way the rest of the input is scanned on and the whole remaining
/// token stream is returned.
pub open spec fn ident_spec(s: Seq<char>, k: int, buf: Seq<char>, depth: nat) -> Result<
    Seq<SpecToken>,
    LexError,
>
    decreases s.len(), s.len() - k, 2int,
    when 0 <= k <= s.len()
    via ident_spec_decreases
{
    if k >= s.len() || s[k] == ' ' {
        match scan_spec(s, k, depth) {
            Err(e) => Err(e),
            Ok(rest) => Ok(vars_of(buf, depth) + rest),
        }
    } else if s[k] == '(' && find_function_spec(buf) is Some {
        let pos = find_function_spec(buf)->Some_0;
        let fname = buf.subrange(pos, buf.len() as int);
        let leading = vars_of(buf.subrange(0, pos), depth);
        match gen_groups_spec(s, k + 1, 1, seq![], seq![]) {
            Err(e) => Err(e),
            Ok((raw_groups, next)) => {
                if fname == int_name() && raw_groups.len() != 3 {
                    Err(LexError)
                } else {
                    let is_ref = fname == int_name() && is_int_ref_group(raw_groups[0]);
                    let start: int = if is_ref {
                        1
                    } else {
                        0
                    };
                    match lex_groups_spec(raw_groups, start) {
                        Err(e) => Err(e),
                        Ok(gs) => {
                            let groups = if is_ref {
                                seq![seq![indef_token(raw_groups[0][0])]] + gs
                            } else {
                                gs
                            };
                            match scan_spec(s, next, depth) {
                                Err(e) => Err(e),
                                Ok(rest) => Ok(
                                    leading.push(func_token(groups, fname, depth)) + rest,
                                ),
                            }
                        },
                    }
                }
            },
        }
    } else if !is_alpha_char(s[k]) {
        match scan_spec(s, k, depth) {
            Err(e) => Err(e),
            Ok(rest) => Ok(vars_of(buf, depth) + rest),
        }
    } else {
        ident_spec(s, k + 1, buf.push(s[k]), depth)
    }
}

/// Each argument group from `idx` on, lexed as a whole input of its own.
pub open spec fn lex_groups_spec(gs: Seq<Seq<char>>, idx: int) -> Result<
    Seq<Seq<SpecToken>>,
    LexError,
>
    decreases sum_len_from(gs, idx) + 1, gs.len() - idx, 0int,
    when 0 <= idx <= gs.len()
    via lex_groups_spec_decreases
{
    if idx >= gs.len() {
        Ok(seq![])
    } else {
        match lex_spec(gs[idx]) {
            Err(e) => Err(e),
            Ok(t) => match lex_groups_spec(gs, idx + 1) {
                Err(e) => Err(e),
                Ok(rest) => Ok(seq![t] + rest),
            },
        }
    }
}

// ---------------------------------------------------------------------------
// executable helpers, each proved equal to its specification
// ---------------------------------------------------------------------------

fn is_op_char_exec(c: char) -> (r: bool)
    ensures
        r == is_op_char(c),
{
    c == '+' || c == '-' || c == '*' || c == '/'
}

fn is_num_char_exec(c: char) -> (r: bool)
    ensures
        r == is_num_char(c),
{
    ('0' <= c && c <= '9') || c == '.'
}

fn is_alpha_char_exec(c: char) -> (r: bool)
    ensures
        r == is_alpha_char(c),
{
    ('a' <= c && c <= 'z') || ('A' <= c && c <= 'Z')
}

fn brackets_from_exec(cs: &Vec<char>, i: usize, depth: usize) -> (r: bool)
    requires
        i <= cs@.len(),
        depth <= i,
    ensures
        r == brackets_ok_from(cs@, i as int, depth as int),
    decreases cs@.len() - i,
{
    if i >= cs.len() {
        depth == 0
    } else {
        let c = cs[i];
        if c == '(' {
            brackets_from_exec(cs, i + 1, depth + 1)
        } else if c == ')' {
            if depth == 0 {
                false
            } else {
                brackets_from_exec(cs, i + 1, depth - 1)
            }
        } else {
            brackets_from_exec(cs, i + 1, depth)
        }
    }
}

/// Brackets must pair up before any tokenisation is attempted.
fn is_valid_brackets(cs: &Vec<char>) -> (r: bool)
    ensures
        r == brackets_valid(cs@),
{
    brackets_from_exec(cs, 0, 0)
}

pub(crate) fn count_char_exec(v: &Vec<char>, i: usize, c: char) -> (r: usize)
    requires
        i <= v@.len(),
    ensures
        r as int == count_char_from(v@, i as int, c),
        r as int <= v@.len() - i,
    decreases v@.len() - i,
{
    if i >= v.len() {
        0
    } else {
        let rest = count_char_exec(v, i + 1, c);
        if v[i] == c {
            rest + 1
        } else {
            rest
        }
    }
}

fn match_at_exec(hay: &Vec<char>, needle: &Vec<char>, i: usize) -> (r: bool)
    requires
        i + needle@.len() <= hay@.len(),
    ensures
        r == match_at(hay@, needle@, i as int),
{
    let hay_len = hay.len();
    let needle_len = needle.len();
    let mut j: usize = 0;
    while j < needle_len
        invariant
            j <= needle@.len(),
            needle_len == needle@.len(),
            hay_len == hay@.len(),
            i + needle@.len() <= hay@.len(),
            forall|m: int| 0 <= m < j ==> hay@[i + m] == needle@[m],
        decreases needle@.len() - j,
    {
        if hay[i + j] != needle[j] {
            proof {
                assert(hay@.subrange(i as int, i + needle@.len())[j as int] != needle@[j as int]);
            }
            return false;
        }
        j += 1;
    }
    proof {
        assert(hay@.subrange(i as int, i + needle@.len()) =~= needle@);
    }
    true
}

pub(crate) fn find_sub_exec(hay: &Vec<char>, needle: &Vec<char>, i: usize) -> (r: Option<usize>)
    requires
        i <= hay@.len(),
    ensures
        r is Some <==> find_sub_from(hay@, needle@, i as int) is Some,
        r matches Some(p) ==> find_sub_from(hay@, needle@, i as int) == Some(p as int),
    decreases hay@.len() - i,
{
    if i >= hay.len() || needle.len() > hay.len() - i {
        None
    } else if match_at_exec(hay, needle, i) {
        Some(i)
    } else {
        find_sub_exec(hay, needle, i + 1)
    }
}

fn find_function_exec(buf: &Vec<char>) -> (r: Option<usize>)
    ensures
        r is Some <==> find_function_spec(buf@) is Some,
        r matches Some(p) ==> find_function_spec(buf@) == Some(p as int),
{
    if buf.len() == 0 {
        return None;
    }
    let ln: Vec<char> = vec!['l', 'n'];
    proof {
        assert(ln@ =~= ln_name());
    }
    if let Some(p) = find_sub_exec(buf, &ln, 0) {
        return Some(p);
    }
    let log: Vec<char> = vec!['l', 'o', 'g'];
    proof {
        assert(log@ =~= log_name());
    }
    if let Some(p) = find_sub_exec(buf, &log, 0) {
        return Some(p);
    }
    let sin: Vec<char> = vec!['s', 'i', 'n'];
    proof {
        assert(sin@ =~= sin_name());
    }
    if let Some(p) = find_sub_exec(buf, &sin, 0) {
        return Some(p);
    }
    let cos: Vec<char> = vec!['c', 'o', 's'];
    proof {
        assert(cos@ =~= cos_name());
    }
    if let Some(p) = find_sub_exec(buf, &cos, 0) {
        return Some(p);
    }
    let tan: Vec<char> = vec!['t', 'a', 'n'];
    proof {
        assert(tan@ =~= tan_name());
    }
    if let Some(p) = find_sub_exec(buf, &tan, 0) {
        return Some(p);
    }
    let sqrt: Vec<char> = vec!['s', 'q', 'r', 't'];
    proof {
        assert(sqrt@ =~= sqrt_name());
    }
    if let Some(p) = find_sub_exec(buf, &sqrt, 0) {
        return Some(p);
    }
    let int_fn: Vec<char> = vec!['i', 'n', 't'];
    proof {
        assert(int_fn@ =~= int_name());
    }
    if let Some(p) = find_sub_exec(buf, &int_fn, 0) {
        return Some(p);
    }
    None
}

fn num_run_end_exec(cs: &Vec<char>, j: usize) -> (r: usize)
    requires
        j <= cs@.len(),
    ensures
        r as int == num_run_end(cs@, j as int),
        j <= r <= cs@.len(),
    decreases cs@.len() - j,
{
    if j >= cs.len() {
        j
    } else if is_num_char_exec(cs[j]) {
        num_run_end_exec(cs, j + 1)
    } else {
        j
    }
}

fn is_int_name_exec(name: &Vec<char>) -> (r: bool)
    ensures
        r == (name@ == int_name()),
{
    if name.len() == 3 && name[0] == 'i' && name[1] == 'n' && name[2] == 't' {
        proof {
            assert(name@ =~= int_name());
        }
        true
    } else {
        proof {
            if name@ == int_name() {
                assert(name@.len() == 3);
                assert(name@[0] == 'i' && name@[1] == 'n' && name@[2] == 't');
            }
        }
        false
    }
}

fn is_int_ref_exec(g: &Vec<char>) -> (r: bool)
    ensures
        r == is_int_ref_group(g@),
{
    g.len() == 4 && is_alpha_char_exec(g[0]) && g[1] == '(' && g[2] == 'x' && g[3] == ')'
}

/// Flush an identifier run: one variable token per buffered character.
fn vars_of_exec(buf: &Vec<char>, depth: usize) -> (r: Vec<LexerToken>)
    ensures
        view_tokens(r@) == vars_of(buf@, depth as nat),
{
    let mut out: Vec<LexerToken> = Vec::new();
    let mut i: usize = 0;
    while i < buf.len()
        invariant
            i <= buf@.len(),
            out@.len() == i as int,
            forall|m: int| 0 <= m < i ==> out@[m]@ == var_token(buf@[m], depth as nat),
        decreases buf@.len() - i,
    {
        let c = crate::tokens::char_at(buf, i);
        out.push(LexerToken { token_type: LexerTokenType::Var(c), bracket_depth: depth });
        i += 1;
    }
    proof {
        assert(view_tokens(out@) =~= vars_of(buf@, depth as nat));
    }
    out
}

/// After the scan, reclassify every lone variable `x` as the free variable.
fn map_x_exec(toks: Vec<LexerToken>) -> (r: Vec<LexerToken>)
    ensures
        view_tokens(r@) == map_x_tokens(view_tokens(toks@)),
{
    let ghost orig = toks@;
    let mut rest = toks;
    let mut out: Vec<LexerToken> = Vec::new();
    while rest.len() > 0
        invariant
            out@.len() + rest@.len() == orig.len(),
            rest@ == orig.subrange(out@.len() as int, orig.len() as int),
            forall|m: int| 0 <= m < out@.len() ==> out@[m]@ == reclass_x(orig[m]@),
        decreases rest@.len(),
    {
        let t = rest.remove(0);
        proof {
            assert(t == orig[out@.len() as int]);
            assert(rest@ =~= orig.subrange(out@.len() as int + 1, orig.len() as int));
        }
        let is_x = match &t.token_type {
            LexerTokenType::Var(c) => *c == 'x',
            _ => false,
        };
        let t2 = if is_x {
            LexerToken { token_type: LexerTokenType::X, bracket_depth: t.bracket_depth }
        } else {
            t
        };
        out.push(t2);
    }
    proof {
        assert(view_tokens(out@) =~= map_x_tokens(view_tokens(orig)));
    }
    out
}

// ---------------------------------------------------------------------------
// the executable scan
// ---------------------------------------------------------------------------

/// Bounds of a successful substring search.
proof fn lemma_find_sub_bounds(hay: Seq<char>, needle: Seq<char>, i: int)
    ensures
        find_sub_from(hay, needle, i) matches Some(p) ==> i <= p && 0 <= p && p + needle.len()
            <= hay.len(),
    decreases hay.len() - i,
{
    if !(i < 0 || i >= hay.len() || i + needle.len() > hay.len()) && !match_at(hay, needle, i) {
        lemma_find_sub_bounds(hay, needle, i + 1);
    }
}

/// A found function name starts strictly inside the identifier run.
proof fn lemma_find_function_bounds(buf: Seq<char>)
    ensures
        find_function_spec(buf) matches Some(p) ==> 0 <= p < buf.len(),
{
    lemma_find_sub_bounds(buf, ln_name(), 0);
    lemma_find_sub_bounds(buf, log_name(), 0);
    lemma_find_sub_bounds(buf, sin_name(), 0);
    lemma_find_sub_bounds(buf, cos_name(), 0);
    lemma_find_sub_bounds(buf, tan_name(), 0);
    lemma_find_sub_bounds(buf, sqrt_name(), 0);
    lemma_find_sub_bounds(buf, int_name(), 0);
}

fn gen_groups_exec(cs: &Vec<char>, i: usize, bd: usize, cur: Vec<char>, acc: Vec<Vec<char>>) -> (r:
    Result<(Vec<Vec<char>>, usize), LexError>)
    requires
        i <= cs@.len(),
        1 <= bd <= i,
    ensures
        r is Ok <==> gen_groups_spec(cs@, i as int, bd as int, cur@, view_char_groups(acc@)) is Ok,
        r matches Ok((groups, next)) ==> gen_groups_spec(
            cs@,
            i as int,
            bd as int,
            cur@,
            view_char_groups(acc@),
        ) == Ok::<_, LexError>((view_char_groups(groups@), next as int)),
    decreases cs@.len() - i,
{
    if i >= cs.len() {
        Err(LexError)
    } else {
        let c = crate::tokens::char_at(cs, i);
        if c == ')' && bd == 1 {
            let ghost accv = view_char_groups(acc@);
            let mut acc2 = acc;
            acc2.push(cur);
            proof {
                assert(view_char_groups(acc2@) =~= accv.push(acc2@[acc2@.len() - 1]@));
            }
            Ok((acc2, i + 1))
        } else if c == ',' && bd == 1 {
            let ghost accv = view_char_groups(acc@);
            let ghost curv = cur@;
            let mut acc2 = acc;
            acc2.push(cur);
            proof {
                assert(view_char_groups(acc2@) =~= accv.push(curv));
            }
            gen_groups_exec(cs, i + 1, bd, Vec::new(), acc2)
        } else if c == '(' {
            let mut cur2 = cur;
            cur2.push(c);
            gen_groups_exec(cs, i + 1, bd + 1, cur2, acc)
        } else if c == ')' {
            let mut cur2 = cur;
            cur2.push(c);
            gen_groups_exec(cs, i + 1, bd - 1, cur2, acc)
        } else {
            let mut cur2 = cur;
            cur2.push(c);
            gen_groups_exec(cs, i + 1, bd, cur2, acc)
        }
    }
}

/// Lexes a whole input. The characters come in as a buffer; [`lex`] is the
/// string-facing wrapper.
pub fn lex_chars(cs: &Vec<char>) -> (r: Result<Vec<LexerToken>, LexError>)
    ensures
        r is Ok <==> lex_spec(cs@) is Ok,
        r matches Ok(v) ==> lex_spec(cs@) == Ok::<_, LexError>(view_tokens(v@)),
    decreases cs@.len(), cs@.len() + 1, 0int,
{
    if !is_valid_brackets(cs) {
        Err(LexError)
    } else {
        match scan_exec(cs, 0, 0) {
            Err(e) => Err(e),
            Ok(toks) => Ok(map_x_exec(toks)),
        }
    }
}

fn scan_exec(cs: &Vec<char>, i: usize, depth: usize) -> (r: Result<Vec<LexerToken>, LexError>)
    requires
        i <= cs@.len(),
        depth <= i,
    ensures
        r is Ok <==> scan_spec(cs@, i as int, depth as nat) is Ok,
        r matches Ok(v) ==> scan_spec(cs@, i as int, depth as nat) == Ok::<_, LexError>(
            view_tokens(v@),
        ),
    decreases cs@.len(), cs@.len() - i, 1int,
{
    if i >= cs.len() {
        proof {
            assert(view_tokens(Seq::<LexerToken>::empty()) =~= Seq::<SpecToken>::empty());
        }
        return Ok(Vec::new());
    }
    let c = crate::tokens::char_at(cs, i);
    if c == ' ' {
        scan_exec(cs, i + 1, depth)
    } else if c == '(' {
        scan_exec(cs, i + 1, depth + 1)
    } else if c == ')' {
        scan_exec(cs, i + 1, if depth > 0 { depth - 1 } else { 0 })
    } else if is_op_char_exec(c) {
        match scan_exec(cs, i + 1, depth) {
            Err(e) => Err(e),
            Ok(rest) => {
                let tt = if c == '+' {
                    LexerTokenType::Add
                } else if c == '-' {
                    LexerTokenType::Sub
                } else if c == '*' {
                    LexerTokenType::Mul
                } else {
                    LexerTokenType::Div
                };
                let ghost rv = view_tokens(rest@);
                let mut out: Vec<LexerToken> = Vec::new();
                out.push(LexerToken { token_type: tt, bracket_depth: depth });
                let mut rest2 = rest;
                out.append(&mut rest2);
                proof {
                    assert(view_tokens(out@) =~= seq![op_token(c, depth as nat)] + rv);
                }
                Ok(out)
            },
        }
    } else if is_num_char_exec(c) {
        let j = num_run_end_exec(cs, i + 1);
        let mut raw: Vec<char> = Vec::new();
        let mut m: usize = i;
        while m < j
            invariant
                i <= m <= j <= cs@.len(),
                raw@ == cs@.subrange(i as int, m as int),
            decreases j - m,
        {
            raw.push(crate::tokens::char_at(cs, m));
            m += 1;
            proof {
                assert(raw@ =~= cs@.subrange(i as int, m as int));
            }
        }
        let lit: Vec<char> = if c == '.' {
            let ghost rv = raw@;
            let mut l: Vec<char> = Vec::new();
            l.push('0');
            let mut raw2 = raw;
            l.append(&mut raw2);
            proof {
                assert(l@ =~= seq!['0'] + rv);
            }
            l
        } else {
            raw
        };
        if count_char_exec(&lit, 0, '.') > 1 {
            Err(LexError)
        } else {
            match scan_exec(cs, j, depth) {
                Err(e) => Err(e),
                Ok(rest) => {
                    let ghost lv = lit@;
                    let ghost rv = view_tokens(rest@);
                    let mut out: Vec<LexerToken> = Vec::new();
                    out.push(LexerToken { token_type: LexerTokenType::Num(lit), bracket_depth: depth });
                    let mut rest2 = rest;
                    out.append(&mut rest2);
                    proof {
                        assert(view_tokens(out@) =~= seq![num_token(lv, depth as nat)] + rv);
                    }
                    Ok(out)
                },
            }
        }
    } else {
        let mut b: Vec<char> = Vec::new();
        b.push(c);
        proof {
            assert(b@ =~= seq![c]);
        }
        ident_exec(cs, i + 1, b, depth)
    }
}

fn ident_exec(cs: &Vec<char>, k: usize, buf: Vec<char>, depth: usize) -> (r: Result<
    Vec<LexerToken>,
    LexError,
>)
    requires
        k <= cs@.len(),
        depth < k,
    ensures
        r is Ok <==> ident_spec(cs@, k as int, buf@, depth as nat) is Ok,
        r matches Ok(v) ==> ident_spec(cs@, k as int, buf@, depth as nat) == Ok::<_, LexError>(
            view_tokens(v@),
        ),
    decreases cs@.len(), cs@.len() - k, 3int,
{
    if k >= cs.len() || cs[k] == ' ' {
        match scan_exec(cs, k, depth) {
            Err(e) => Err(e),
            Ok(rest) => {
                let mut out = vars_of_exec(&buf, depth);
                let ghost ov = view_tokens(out@);
                let ghost rv = view_tokens(rest@);
                let mut rest2 = rest;
                out.append(&mut rest2);
                proof {
                    assert(view_tokens(out@) =~= ov + rv);
                }
                Ok(out)
            },
        }
    } else {
        let c = crate::tokens::char_at(cs, k);
        if c == '(' {
            let found = find_function_exec(&buf);
            if let Some(pos) = found {
                proof {
                    lemma_find_function_bounds(buf@);
                }
                let mut fname: Vec<char> = Vec::new();
                let mut m: usize = pos;
                while m < buf.len()
                    invariant
                        pos <= m <= buf@.len(),
                        fname@ == buf@.subrange(pos as int, m as int),
                    decreases buf@.len() - m,
                {
                    fname.push(crate::tokens::char_at(&buf, m));
                    m += 1;
                    proof {
                        assert(fname@ =~= buf@.subrange(pos as int, m as int));
                    }
                }
                let mut leading_chars: Vec<char> = Vec::new();
                let mut m2: usize = 0;
                while m2 < pos
                    invariant
                        m2 <= pos <= buf@.len(),
                        leading_chars@ == buf@.subrange(0, m2 as int),
                    decreases pos - m2,
                {
                    leading_chars.push(crate::tokens::char_at(&buf, m2));
                    m2 += 1;
                    proof {
                        assert(leading_chars@ =~= buf@.subrange(0, m2 as int));
                    }
                }
                proof {
                    assert(view_char_groups(Seq::<Vec<char>>::empty()) =~= Seq::<
                        Seq<char>,
                    >::empty());
                }
                match gen_groups_exec(cs, k + 1, 1, Vec::new(), Vec::new()) {
                    Err(_) => Err(LexError),
                    Ok((raw_groups, next)) => {
                        proof {
                            lemma_gen_groups_bounds(cs@, k + 1, 1, seq![], seq![]);
                            lemma_sum_len_from_nonneg(view_char_groups(raw_groups@), 0);
                            lemma_sum_len_from_nonneg(view_char_groups(raw_groups@), 1);
                            if raw_groups@.len() >= 1 {
                                assert(sum_len_from(view_char_groups(raw_groups@), 0)
                                    == view_char_groups(raw_groups@)[0].len() + sum_len_from(
                                    view_char_groups(raw_groups@),
                                    1,
                                ));
                            }
                        }
                        let is_int = is_int_name_exec(&fname);
                        if is_int && raw_groups.len() != 3 {
                            Err(LexError)
                        } else {
                            let is_ref = is_int && is_int_ref_exec(&raw_groups[0]);
                            let start: usize = if is_ref {
                                1
                            } else {
                                0
                            };
                            match lex_groups_exec(&raw_groups, start) {
                                Err(_) => Err(LexError),
                                Ok(gs) => {
                                    let ghost gsv = view_groups(gs@);
                                    let mut groups = gs;
                                    if is_ref {
                                        let rc = crate::tokens::char_at(&raw_groups[0], 0);
                                        let mut refg: Vec<LexerToken> = Vec::new();
                                        refg.push(
                                            LexerToken {
                                                token_type: LexerTokenType::IndefiniteFunction(rc),
                                                bracket_depth: 0,
                                            },
                                        );
                                        proof {
                                            assert(view_tokens(refg@) =~= seq![indef_token(rc)]);
                                        }
                                        groups.insert(0, refg);
                                        proof {
                                            assert(view_groups(groups@) =~= seq![
                                                seq![indef_token(rc)],
                                            ] + gsv);
                                        }
                                    }
                                    match scan_exec(cs, next, depth) {
                                        Err(_) => Err(LexError),
                                        Ok(rest) => {
                                            proof {
                                                lemma_func_token_view(groups, fname);
                                            }
                                            let ghost gv = view_groups(groups@);
                                            let ghost fv = fname@;
                                            let ftok = LexerToken {
                                                token_type: LexerTokenType::Func(groups, fname),
                                                bracket_depth: depth,
                                            };
                                            let mut out = vars_of_exec(&leading_chars, depth);
                                            let ghost lv = view_tokens(out@);
                                            out.push(ftok);
                                            let ghost rv = view_tokens(rest@);
                                            let mut rest2 = rest;
                                            out.append(&mut rest2);
                                            proof {
                                                assert(view_tokens(out@) =~= lv.push(
                                                    func_token(gv, fv, depth as nat),
                                                ) + rv);
                                            }
                                            Ok(out)
                                        },
                                    }
                                },
                            }
                        }
                    },
                }
            } else {
                // a bracket with no function name in the run flushes the run
                match scan_exec(cs, k, depth) {
                    Err(e) => Err(e),
                    Ok(rest) => {
                        let mut out = vars_of_exec(&buf, depth);
                        let ghost ov = view_tokens(out@);
                        let ghost rv = view_tokens(rest@);
                        let mut rest2 = rest;
                        out.append(&mut rest2);
                        proof {
                            assert(view_tokens(out@) =~= ov + rv);
                        }
                        Ok(out)
                    },
                }
            }
        } else if !is_alpha_char_exec(c) {
            match scan_exec(cs, k, depth) {
                Err(e) => Err(e),
                Ok(rest) => {
                    let mut out = vars_of_exec(&buf, depth);
                    let ghost ov = view_tokens(out@);
                    let ghost rv = view_tokens(rest@);
                    let mut rest2 = rest;
                    out.append(&mut rest2);
                    proof {
                        assert(view_tokens(out@) =~= ov + rv);
                    }
                    Ok(out)
                },
            }
        } else {
            let mut buf2 = buf;
            buf2.push(c);
            ident_exec(cs, k + 1, buf2, depth)
        }
    }
}

fn lex_groups_exec(gs: &Vec<Vec<char>>, idx: usize) -> (r: Result<Vec<Vec<LexerToken>>, LexError>)
    requires
        idx <= gs@.len(),
    ensures
        r is Ok <==> lex_groups_spec(view_char_groups(gs@), idx as int) is Ok,
        r matches Ok(out) ==> lex_groups_spec(view_char_groups(gs@), idx as int) == Ok::<
            _,
            LexError,
        >(view_groups(out@)),
    decreases sum_len_from(view_char_groups(gs@), idx as int) + 1, gs@.len() - idx, 0int,
{
    if idx >= gs.len() {
        proof {
            assert(view_groups(Seq::<Vec<LexerToken>>::empty()) =~= Seq::<Seq<SpecToken>>::empty());
        }
        Ok(Vec::new())
    } else {
        proof {
            lemma_sum_len_from_nonneg(view_char_groups(gs@), idx + 1);
            assert(sum_len_from(view_char_groups(gs@), idx as int) == view_char_groups(
                gs@,
            )[idx as int].len() + sum_len_from(view_char_groups(gs@), idx + 1));
        }
        match lex_chars(&gs[idx]) {
            Err(e) => Err(e),
            Ok(toks) => match lex_groups_exec(gs, idx + 1) {
                Err(e) => Err(e),
                Ok(rest) => {
                    let ghost tv = view_tokens(toks@);
                    let ghost restv = view_groups(rest@);
                    let mut out = rest;
                    out.insert(0, toks);
                    proof {
                        assert(view_groups(out@) =~= seq![tv] + restv);
                    }
                    Ok(out)
                },
            },
        }
    }
}

/// The lexer: text in, depth-annotated tokens out, or the error that names
/// why the text cannot be tokenised. Bracket-unbalanced input is always
/// rejected.
pub fn lex(input: &str) -> (r: Result<Vec<LexerToken>, LexError>)
    ensures
        r is Ok <==> lex_spec(input@) is Ok,
        r matches Ok(v) ==> lex_spec(input@) == Ok::<_, LexError>(view_tokens(v@)),
        !brackets_valid(input@) ==> r is Err,
{
    let cs = str_to_chars(input);
    lex_chars(&cs)
}

/// Collects a string's characters into a buffer.
pub fn str_to_chars(s: &str) -> (r: Vec<char>)
    ensures
        r@ == s@,
{
    let len = s.unicode_len();
    let mut out: Vec<char> = Vec::new();
    let mut i: usize = 0;
    while i < len
        invariant
            i <= len,
            len == s@.len(),
            out@ == s@.take(i as int),
        decreases len - i,
    {
        out.push(s.get_char(i));
        i += 1;
        proof {
            assert(out@ =~= s@.take(i as int));
        }
    }
    proof {
        assert(out@ =~= s@);
    }
    out
}

#[via_fn]
proof fn scan_spec_decreases(s: Seq<char>, i: int, depth: nat) {
    if 0 <= i < s.len() {
        let c = s[i];
        if is_num_char(c) && !(c == ' ' || c == '(' || c == ')' || is_op_char(c)) {
            lemma_num_run_end_bounds(s, i + 1);
        }
    }
}

#[via_fn]
proof fn ident_spec_decreases(s: Seq<char>, k: int, buf: Seq<char>, depth: nat) {
    if 0 <= k < s.len() && s[k] != ' ' && s[k] == '(' && find_function_spec(buf) is Some {
        if gen_groups_spec(s, k + 1, 1, seq![], seq![]) is Ok {
            lemma_gen_groups_bounds(s, k + 1, 1, seq![], seq![]);
            let (raw_groups, next) = gen_groups_spec(s, k + 1, 1, seq![], seq![])->Ok_0;
            lemma_sum_len_from_nonneg(raw_groups, 0);
            lemma_sum_len_from_nonneg(raw_groups, 1);
            if raw_groups.len() >= 1 {
                assert(sum_len_from(raw_groups, 0) == raw_groups[0].len() + sum_len_from(
                    raw_groups,
                    1,
                ));
            }
        }
    }
}

#[via_fn]
proof fn lex_groups_spec_decreases(gs: Seq<Seq<char>>, idx: int) {
    if 0 <= idx < gs.len() {
        lemma_sum_len_from_nonneg(gs, idx + 1);
        assert(sum_len_from(gs, idx) == gs[idx].len() + sum_len_from(gs, idx + 1));
    }
}

} // verus!
