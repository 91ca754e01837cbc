//! The brainstorm → plan → code → review chain: which prompt follows which,
//! and how the user's answer to "continue?" is read.

use vstd::prelude::*;

use crate::config::ChainConfig;
use crate::text::{
    ascii_lower_chars, ascii_lower_seq, chars_equal, chars_of, chars_start_with, slice_range,
    starts_with, str_eq, string_from_chars, trim_chars, trim_seq,
};

verus! {

/// A phase of the prompt chain.
#[derive(Debug, Clone, Copy, PartialEq, Eq, Structural)]
pub enum ChainPhase {
    Brainstorm,
    Plan,
    Code,
}

impl ChainPhase {
    /// The phase a prompt name starts, if any.
    pub open spec fn spec_from_prompt_name(name: Seq<char>) -> Option<ChainPhase> {
        if name == "brainstorm"@ {
            Some(ChainPhase::Brainstorm)
        } else if name == "plan"@ {
            Some(ChainPhase::Plan)
        } else if name == "code"@ {
            Some(ChainPhase::Code)
        } else {
            None
        }
    }

    /// The phase started by the prompt called `name`: `brainstorm`, `plan`
    /// or `code`; `None` for any other name.
    pub fn from_prompt_name(name: &str) -> (r: Option<Self>)
        ensures
            r == Self::spec_from_prompt_name(name@),
    {
        if str_eq(name, "brainstorm") {
            Some(ChainPhase::Brainstorm)
        } else if str_eq(name, "plan") {
            Some(ChainPhase::Plan)
        } else if str_eq(name, "code") {
            Some(ChainPhase::Code)
        } else {
            None
        }
    }

    /// The prompt that follows this phase.
    pub open spec fn spec_next_prompt_name(self) -> Seq<char> {
        match self {
            ChainPhase::Brainstorm => "plan"@,
            ChainPhase::Plan => "code"@,
            ChainPhase::Code => "review"@,
        }
    }

    /// The prompt that follows this phase: plan after brainstorm, code after
    /// plan, review after code.
    pub fn next_prompt_name(self) -> (r: &'static str)
        ensures
            r@ == self.spec_next_prompt_name(),
    {
        match self {
            ChainPhase::Brainstorm => "plan",
            ChainPhase::Plan => "code",
            ChainPhase::Code => "review",
        }
    }

    /// The chain runs brainstorm, plan, code and ends: the prompt after
    /// brainstorm starts the plan phase, the one after plan starts the code
    /// phase, and the review after code starts no phase.
    pub proof fn lemma_chain_advances(self)
        ensures
            Self::spec_from_prompt_name(self.spec_next_prompt_name()) == match self {
                ChainPhase::Brainstorm => Some(ChainPhase::Plan),
                ChainPhase::Plan => Some(ChainPhase::Code),
                ChainPhase::Code => None::<ChainPhase>,
            },
    {
        reveal_strlit("brainstorm");
        reveal_strlit("plan");
        reveal_strlit("code");
        reveal_strlit("review");
        assert("plan"@.len() != "brainstorm"@.len());
        assert("code"@.len() != "brainstorm"@.len() && "code"@[0] != "plan"@[0]);
        assert("review"@.len() != "brainstorm"@.len() && "review"@.len() != "plan"@.len()
            && "review"@.len() != "code"@.len());
    }

    /// The message sent to start the next phase.
    pub open spec fn spec_transition_message(self) -> Seq<char> {
        match self {
            ChainPhase::Brainstorm =>
                "Based on the brainstorm above, create a detailed implementation plan."@,
            ChainPhase::Plan => "Implement the plan above. Write code, tests, and verify."@,
            ChainPhase::Code => "Review the changes for correctness, design, testing, and security."@,
        }
    }

    /// The message sent to the agent to start the next phase.
    pub fn transition_message(self) -> (r: &'static str)
        ensures
            r@ == self.spec_transition_message(),
    {
        match self {
            ChainPhase::Brainstorm => {
                "Based on the brainstorm above, create a detailed implementation plan."
            },
            ChainPhase::Plan => "Implement the plan above. Write code, tests, and verify.",
            ChainPhase::Code => {
                "Review the changes for correctness, design, testing, and security."
            },
        }
    }

    /// Whether the configuration enables the step out of this phase.
    pub open spec fn spec_is_enabled(self, cfg: ChainConfig) -> bool {
        match self {
            ChainPhase::Brainstorm => cfg.brainstorm_to_plan,
            ChainPhase::Plan => cfg.plan_to_code,
            ChainPhase::Code => cfg.code_to_review,
        }
    }

    /// Whether `cfg` enables the step out of this phase.
    pub fn is_enabled(self, cfg: &ChainConfig) -> (r: bool)
        ensures
            r == self.spec_is_enabled(*cfg),
    {
        match self {
            ChainPhase::Brainstorm => cfg.brainstorm_to_plan,
            ChainPhase::Plan => cfg.plan_to_code,
            ChainPhase::Code => cfg.code_to_review,
        }
    }

    /// The question shown to the user at the end of this phase.
    pub open spec fn spec_chain_label(self) -> Seq<char> {
        match self {
            ChainPhase::Brainstorm => "Continue to plan? [Y/N/B]"@,
            ChainPhase::Plan => "Continue to code? [Y/N/B]"@,
            ChainPhase::Code => "Run /review? [Y/N/B]"@,
        }
    }

    /// The question shown to the user at the end of this phase.
    pub fn chain_label(self) -> (r: &'static str)
        ensures
            r@ == self.spec_chain_label(),
    {
        match self {
            ChainPhase::Brainstorm => "Continue to plan? [Y/N/B]",
            ChainPhase::Plan => "Continue to code? [Y/N/B]",
            ChainPhase::Code => "Run /review? [Y/N/B]",
        }
    }
}

/// The user's answer to a chain question.
#[derive(Debug, Clone, PartialEq, Eq)]
pub enum ChainDecision {
    Decline,
    /// Go on, optionally with extra instructions.
    Accept(Option<String>),
    /// The input is not an answer to the question.
    NotChain,
}

/// The mathematical form of a [`ChainDecision`].
pub enum SpecChainDecision {
    Decline,
    Accept(Option<Seq<char>>),
    NotChain,
}

impl View for ChainDecision {
    type V = SpecChainDecision;

    open spec fn view(&self) -> SpecChainDecision {
        match self {
            ChainDecision::Decline => SpecChainDecision::Decline,
            ChainDecision::Accept(None) => SpecChainDecision::Accept(None),
            ChainDecision::Accept(Some(s)) => SpecChainDecision::Accept(Some(s@)),
            ChainDecision::NotChain => SpecChainDecision::NotChain,
        }
    }
}

/// The accepted "yes, but ..." prefixes, tried in this order.
pub open spec fn but_prefix(i: int) -> Seq<char> {
    if i == 0 {
        seq!['b', 'u', 't', ' ']
    } else if i == 1 {
        seq!['b', ' ']
    } else if i == 2 {
        seq!['y', 'e', 's', ' ', 'b', 'u', 't', ' ']
    } else if i == 3 {
        seq!['y', 'e', 's', ' ', 'b', ' ']
    } else if i == 4 {
        seq!['y', ' ', 'b', 'u', 't', ' ']
    } else {
        seq!['y', ' ', 'b', ' ']
    }
}

/// The number of "yes, but ..." prefixes.
pub open spec fn n_but_prefixes() -> int {
    6
}

/// The decision for the trimmed answer `t` (with `lower` its ASCII lower
/// case) once the first `i` prefixes have been tried and failed.
pub open spec fn but_decision(t: Seq<char>, lower: Seq<char>, i: int) -> SpecChainDecision
    decreases n_but_prefixes() - i,
{
    if i >= n_but_prefixes() {
        SpecChainDecision::NotChain
    } else if starts_with(lower, but_prefix(i)) {
        let extra = trim_seq(t.skip(but_prefix(i).len() as int));
        if extra.len() == 0 {
            SpecChainDecision::NotChain
        } else {
            SpecChainDecision::Accept(Some(extra))
        }
    } else {
        but_decision(t, lower, i + 1)
    }
}

/// How an answer to a chain question is read, ignoring surrounding
/// whitespace and ASCII case: `n`/`no` declines, `y`/`yes` accepts, and
/// `but <msg>`, `b <msg>`, `yes but <msg>`, `yes b <msg>`, `y but <msg>` or
/// `y b <msg>` accepts with the (trimmed, case-preserved) message; anything
/// else, an empty message included, is not an answer.
pub open spec fn spec_parse_chain_decision(input: Seq<char>) -> SpecChainDecision {
    let t = trim_seq(input);
    let lower = ascii_lower_seq(t);
    if lower == seq!['n'] || lower == seq!['n', 'o'] {
        SpecChainDecision::Decline
    } else if lower == seq!['y'] || lower == seq!['y', 'e', 's'] {
        SpecChainDecision::Accept(None)
    } else {
        but_decision(t, lower, 0)
    }
}

/// The exec form of [`but_prefix`].
fn but_prefix_chars(i: usize) -> (r: Vec<char>)
    requires
        i < 6,
    ensures
        r@ == but_prefix(i as int),
{
    let r = if i == 0 {
        vec!['b', 'u', 't', ' ']
    } else if i == 1 {
        vec!['b', ' ']
    } else if i == 2 {
        vec!['y', 'e', 's', ' ', 'b', 'u', 't', ' ']
    } else if i == 3 {
        vec!['y', 'e', 's', ' ', 'b', ' ']
    } else if i == 4 {
        vec!['y', ' ', 'b', 'u', 't', ' ']
    } else {
        vec!['y', ' ', 'b', ' ']
    };
    assert(r@ =~= but_prefix(i as int));
    r
}

/// Reads the user's answer to a chain question.
pub fn parse_chain_decision(input: &str) -> (r: ChainDecision)
    ensures
        r@ == spec_parse_chain_decision(input@),
{
    let cs = chars_of(input);
    let t = trim_chars(cs.as_slice());
    let lower = ascii_lower_chars(t.as_slice());
    let n = vec!['n'];
    let no = vec!['n', 'o'];
    let y = vec!['y'];
    let yes = vec!['y', 'e', 's'];
    assert(n@ =~= seq!['n'] && no@ =~= seq!['n', 'o'] && y@ =~= seq!['y'] && yes@ =~= seq![
        'y',
        'e',
        's',
    ]);
    if chars_equal(lower.as_slice(), n.as_slice()) || chars_equal(
        lower.as_slice(),
        no.as_slice(),
    ) {
        return ChainDecision::Decline;
    }
    if chars_equal(lower.as_slice(), y.as_slice()) || chars_equal(
        lower.as_slice(),
        yes.as_slice(),
    ) {
        return ChainDecision::Accept(None);
    }
    let mut i: usize = 0;
    while i < 6
        invariant
            0 <= i <= 6,
            t@ == trim_seq(input@),
            lower@ == ascii_lower_seq(t@),
            but_decision(t@, lower@, 0) == but_decision(t@, lower@, i as int),
        decreases 6 - i,
    {
        let p = but_prefix_chars(i);
        if chars_start_with(lower.as_slice(), p.as_slice()) {
            let rest = slice_range(t.as_slice(), p.len(), t.len());
            assert(rest@ == t@.skip(p.len() as int));
            let extra = trim_chars(rest.as_slice());
            if extra.len() == 0 {
                return ChainDecision::NotChain;
            }
            return ChainDecision::Accept(Some(string_from_chars(extra.as_slice())));
        }
        i = i + 1;
    }
    ChainDecision::NotChain
}

} // verus!
