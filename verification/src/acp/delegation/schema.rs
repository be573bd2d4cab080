//! The one tool that the companion offers.

use vstd::prelude::*;

verus! {

/// The tool's name, description and arguments, as JSON.
pub const TOOL_SCHEMA_JSON: &'static str = "{\"name\":\"delegate_to_agent\",\"description\":\"Delegate a self-contained task to another agent and wait for its result.\",\"inputSchema\":{\"type\":\"object\",\"properties\":{\"agent_type\":{\"type\":\"string\",\"description\":\"The agent that takes the task.\",\"enum\":[\"claude_code\",\"codex\",\"open_code\",\"gemini\",\"open_claw\",\"cline\"]},\"task\":{\"type\":\"string\",\"description\":\"The task, complete in itself.\"},\"working_dir\":{\"type\":\"string\",\"description\":\"The directory to work in; that of the caller where it is left out.\"}},\"required\":[\"agent_type\",\"task\"]}}";

} // verus!
