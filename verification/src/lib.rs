//! Decomposes a composite GraphQL query document into standalone
//! single-field queries, records the outcome and latency of executing
//! each one, and ranks the recorded results.
//!
//! The three components are the flattener (`flatten`), which walks a
//! parsed document and emits one standalone query per leaf field; the
//! execution engine (`engine`), which prepares request bodies and
//! classifies response bodies while the surrounding program performs
//! the actual network exchanges; and the ranker (`rank`), which orders
//! the accumulated results: successes before failures, each group by
//! ascending duration, ties kept in execution order.

pub mod ast;
pub mod engine;
pub mod flatten;
pub mod gql;
pub mod rank;
pub mod render;
