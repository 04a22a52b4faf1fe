//! A textual math-expression engine.
//!
//! Text is lexed into depth-annotated tokens, built into a precedence-ordered
//! expression tree, and evaluated against a session's variables and named
//! curves. Because the engine itself never touches machine reals, evaluating
//! a tree here means reducing it to a closed numeric program: a postfix
//! instruction sequence over literals and the free variable, which a host
//! carries out in floating point. Everything that can fail — unbalanced
//! brackets, dangling tokens, unbound variables, malformed commands — is
//! decided here, exactly, and a failing command never changes the session.

use vstd::prelude::*;

pub mod lexer;
pub mod parser;
pub mod program;
pub mod session;
pub mod tokens;

pub use lexer::LexError;
pub use lexer::lex;
pub use parser::GraphStore;
pub use parser::ParseError;
pub use parser::ParseTree;
pub use parser::TreeNode;
pub use program::EvaluateError;
pub use program::Instr;
pub use program::VarStore;
pub use session::Evaluator;
pub use session::EvaluatorResponse;
pub use tokens::LexerToken;
pub use tokens::LexerTokenType;

verus! {

} // verus!
