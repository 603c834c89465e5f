//! Verified core of an LSP daemon that surfaces a Python linter's
//! diagnostics: the document buffer (rope + order-statistic tree),
//! the transport codec, the JSON-RPC envelope model, the check
//! registry, and the dispatch and lock-planning rules.

pub mod agg_avl_tree;
pub mod checks;
pub mod codec;
pub mod dispatch;
pub mod document;
pub mod error;
pub mod handlers;
pub mod rope;
pub mod rpc;
pub mod state;
