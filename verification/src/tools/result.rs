//! What a tool answers.
use vstd::prelude::*;

verus! {

/// A tool's answer: its text, as a success or as an error.
pub struct ToolResult {
    pub success: bool,
    pub text: String,
}

/// A tool's answer, as values.
pub enum Reply {
    Success(Seq<char>),
    Error(Seq<char>),
}

impl View for ToolResult {
    type V = Reply;

    open spec fn view(&self) -> Reply {
        if self.success {
            Reply::Success(self.text@)
        } else {
            Reply::Error(self.text@)
        }
    }
}

impl ToolResult {
    pub fn success(text: String) -> (r: Self)
        ensures
            r@ == Reply::Success(text@),
    {
        ToolResult { success: true, text }
    }

    pub fn error(text: String) -> (r: Self)
        ensures
            r@ == Reply::Error(text@),
    {
        ToolResult { success: false, text }
    }
}

/// What a tool tells a client of its effects.
#[derive(Clone, Copy, Debug, PartialEq, Eq, Structural)]
pub struct ToolHints {
    pub read_only: bool,
    pub destructive: bool,
    pub idempotent: bool,
    pub open_world: bool,
}

} // verus!
