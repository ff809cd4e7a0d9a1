//! The query-backend contract: anything that, given query options, returns
//! a normalized response. Concrete backends live outside the library and
//! plug in by implementing the trait.

use vstd::prelude::*;
use crate::error::Error;
use crate::options::QueryOptions;
use crate::value::CommonValue;

verus! {

/// A query backend: issues the query described by `options` against the
/// named server and returns the normalized answer.
pub trait QueryImplementation {
    fn query_server(&self, options: &QueryOptions) -> Result<CommonValue, Error>;
}

/// Configuration of the subprocess backend: the interpreter, the script it
/// runs, and extra interpreter arguments.
#[derive(Clone, Debug)]
pub struct NodeImpl {
    pub node_path: String,
    pub gamedig_path: String,
    pub node_args: Option<Vec<String>>,
}

impl Default for NodeImpl {
    /// The stock configuration: `node` from the search path, running the
    /// bundled query script, with no extra arguments.
    fn default() -> (r: NodeImpl)
        ensures
            r.node_path@ == "node"@,
            r.gamedig_path@ == "./node-gamedig/bin/gamedig.js"@,
            r.node_args is None,
    {
        NodeImpl {
            node_path: String::from_str("node"),
            gamedig_path: String::from_str("./node-gamedig/bin/gamedig.js"),
            node_args: None,
        }
    }
}

/// The reference backends a caller can pick between.
#[derive(Clone, Debug, Hash, PartialEq, Eq)]
pub enum Implementations {
    Node,
    Rust,
}

} // verus!
