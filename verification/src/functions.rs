//! Handles on the interpreter's shell functions.  Executing one runs the
//! interpreter's own evaluator; this side only names the function.

use vstd::prelude::*;

verus! {

/// A named shell function of the interpreter.
#[derive(Debug)]
pub struct Function {
    pub name: String,
}

impl Function {
    /// A handle on the shell function called `name`.
    pub fn new(name: &str) -> (r: Function)
        ensures
            r.name@ == name@,
    {
        Function { name: name.to_owned() }
    }

    /// The function's name.
    pub fn name(&self) -> (r: &str)
        ensures
            r@ == self.name@,
    {
        self.name.as_str()
    }
}

} // verus!
