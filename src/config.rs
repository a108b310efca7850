//! The invocation's settings and the choice of the active context.

use vstd::prelude::*;

verus! {

/// What one invocation asks for: an optional context name and the query.
#[derive(Clone, Debug)]
pub struct Args {
    pub context: Option<String>,
    pub query: String,
}

/// No context was given and the configuration names no current one.
#[derive(Clone, Copy, Debug, PartialEq, Eq)]
pub enum ContextError {
    CurrentContextNotSet,
}

impl ContextError {
    pub fn message(&self) -> (r: String)
        ensures
            r@ == "current_context is not set"@,
    {
        String::from_str("current_context is not set")
    }
}

/// The active context: the one named in `args`, else `current_context`, the
/// configuration's current context.
pub fn detect_context(args: &Args, current_context: Option<String>) -> (r: Result<
    String,
    ContextError,
>)
    ensures
        match args.context {
            Some(c) => r is Ok && r->Ok_0@ == c@,
            None => match current_context {
                Some(c) => r is Ok && r->Ok_0@ == c@,
                None => r == Err::<String, ContextError>(ContextError::CurrentContextNotSet),
            },
        },
{
    match &args.context {
        Some(context) => Ok(context.clone()),
        None => match current_context {
            Some(c) => Ok(c),
            None => Err(ContextError::CurrentContextNotSet),
        },
    }
}

} // verus!
