//! Tools behind the hook.
//!
//! A [`Guarded`] tool runs on a [`Permit`], and only [`decide`] gives permits: so
//! no tool runs before the hook has allowed its call.

use vstd::prelude::*;

use crate::json::{Json, JsonValue};
use crate::text::text_result;
use crate::tools::{PreToolHook, ToolHandler};

verus! {

/// The message of a denial, where a call was denied.
pub open spec fn denial_in<T>(decision: Result<T, String>) -> Option<Seq<char>> {
    match decision {
        Ok(_) => None,
        Err(message) => Some(message@),
    }
}

/// Whether `hook` can decide about a call with `denial`; without a hook nothing is
/// denied.
pub open spec fn is_decision(
    hook: Option<Box<dyn PreToolHook>>,
    name: Seq<char>,
    input: JsonValue,
    denial: Option<Seq<char>>,
) -> bool {
    match hook {
        Some(hook) => hook.may_decide(name, input, denial),
        None => denial is None,
    }
}

/// The leave to run one call.
pub struct Permit {
    name: Ghost<Seq<char>>,
    input: Ghost<JsonValue>,
}

impl Permit {
    /// Whether this is the leave for the call of `name` on `input`.
    pub closed spec fn covers(&self, name: Seq<char>, input: JsonValue) -> bool {
        self.name@ == name && self.input@ == input
    }
}

/// Asks `hook` about a call, if there is one: the permit for the call, or the
/// message of the denial.
pub fn decide(hook: &Option<Box<dyn PreToolHook>>, name: &str, input: &Json) -> (decision: Result<
    Permit,
    String,
>)
    ensures
        is_decision(*hook, name@, input.value(), denial_in(decision)),
        decision matches Ok(permit) ==> permit.covers(name@, input.value()),
{
    if let Some(hook) = hook {
        if let Err(message) = hook.authorize(name, input) {
            return Err(message);
        }
    }
    Ok(Permit { name: Ghost(name@), input: Ghost(input.value()) })
}

/// A tool that runs on a permit alone.
pub struct Guarded<H> {
    handler: H,
}

impl<H> Guarded<H> {
    /// The tool.
    pub closed spec fn handler(&self) -> H {
        self.handler
    }

    /// Puts `handler` behind the hook.
    pub fn new(handler: H) -> (guarded: Self)
        ensures
            guarded.handler() == handler,
    {
        Guarded { handler }
    }
}

impl Guarded<Box<dyn ToolHandler>> {
    /// Runs the tool on the call that `permit` is for.
    pub fn run(&self, name: &str, input: &Json, permit: &Permit) -> (result: Result<String, String>)
        requires
            permit.covers(name@, input.value()),
        ensures
            self.handler().may_return(input.value(), text_result(result)),
    {
        self.handler.call(input)
    }
}

} // verus!
