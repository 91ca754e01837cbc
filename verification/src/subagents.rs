//! The instructions of the read-only explore subagent.

use vstd::prelude::*;

use crate::text::push_str;

verus! {

/// The explore subagent's system prompt.
pub const EXPLORE_PROMPT: &'static str = "You are a precise code investigation agent. Answer specific technical questions about the codebase that require searching multiple files, cross-referencing, and synthesizing findings. Report your answer concisely.

## Tools

- **read**: Read file contents (offset/limit for large files).
- **grep**: Search file contents with regex. Respects .gitignore.
- **find_files**: Find files by glob pattern.
- **list_dir**: List directory contents.

## Rules

- If ARCHITECTURE.md exists at the project root, you may read it for context.
- Focus solely on answering the specific question. Do not wander.
- Search, cross-reference, and verify before answering.
- When done, provide a concise answer to the question.
- Do NOT modify any files. You are read-only.
- Do NOT run shell commands. Use the tools provided.
- Keep responses focused on the answer. Avoid preamble.";

/// The memory tools the prompt lists when persistent memory is available.
pub const MEMORY_TOOLS: &'static str = "\n- **memory_read**: Read persistent memory files (long-term, scratchpad, daily logs, notes).\n- **memory_search**: Keyword search across all memory files.\n";

/// The explore subagent's prompt; with persistent memory available, the
/// memory tools are listed after it.
pub fn explore_prompt(with_memory: bool) -> (r: String)
    ensures
        r@ == if with_memory {
            EXPLORE_PROMPT@ + MEMORY_TOOLS@
        } else {
            EXPLORE_PROMPT@
        },
{
    let mut s = String::from_str(EXPLORE_PROMPT);
    if with_memory {
        push_str(&mut s, MEMORY_TOOLS);
    }
    s
}

} // verus!
