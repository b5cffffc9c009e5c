//! A finished job, whatever dialect asked for it.
use vstd::prelude::*;

use crate::json::{pairs, Json, Tree};
use crate::protocol::{calls, opt, reported, Call, TokenUsage, ToolCall};
use crate::text::same;

verus! {

broadcast use vstd::string::group_string_axioms;

// -------------------------------------------------------------- the answer

/// Token counts billed for a completion: counted here, then raised to what
/// the worker reported where that is higher.
#[derive(Debug, Clone, Copy, PartialEq, Eq, Structural)]
pub struct Usage {
    pub input: u64,
    pub output: u64,
    pub cached: u64,
    pub reasoning: u64,
}

impl Default for Usage {
    fn default() -> (r: Usage)
        ensures
            r == (Usage { input: 0, output: 0, cached: 0, reasoning: 0 }),
    {
        Usage { input: 0, output: 0, cached: 0, reasoning: 0 }
    }
}

/// A finished job, whatever dialect asked for it.
#[derive(Debug, PartialEq)]
pub struct Answer {
    pub text: String,
    pub tool_calls: Vec<ToolCall>,
    pub usage: Usage,
    /// What the inference server said ended the generation: `stop`,
    /// `length`, `tool_calls`. Absent when it did not say.
    pub finish: Option<String>,
}

/// What an answer says.
pub struct Reply {
    pub text: Seq<char>,
    pub calls: Seq<Call>,
    pub usage: Usage,
    pub finish: Option<Seq<char>>,
}

impl View for Answer {
    type V = Reply;

    open spec fn view(&self) -> Reply {
        Reply {
            text: self.text@,
            calls: calls(self.tool_calls@),
            usage: self.usage,
            finish: opt(self.finish),
        }
    }
}

/// The counts of a job in the names a reply uses.
pub open spec fn usage_of(u: TokenUsage) -> Usage {
    Usage { input: u.prompt, output: u.completion, cached: u.cached, reasoning: u.reasoning }
}

impl From<TokenUsage> for Usage {
    fn from(u: TokenUsage) -> (r: Usage) {
        Usage { input: u.prompt, output: u.completion, cached: u.cached, reasoning: u.reasoning }
    }
}

impl vstd::std_specs::convert::FromSpecImpl<TokenUsage> for Usage {
    open spec fn obeys_from_spec() -> bool {
        true
    }

    open spec fn from_spec(u: TokenUsage) -> Usage {
        usage_of(u)
    }
}

impl Usage {
    /// The bill: what was measured here, raised to the worker's own figures
    /// where those are higher. Cache hits are the worker's to report.
    pub fn billed(measured: TokenUsage, meta: &Json) -> (r: Usage)
        ensures
            r == usage_of(measured.reconciled(reported(meta@))),
    {
        Usage::from(measured.reconcile(TokenUsage::from_meta(meta)))
    }

    /// The worker's claim, unchallenged; zeroes when it made none.
    pub fn from_meta(meta: &Json) -> (r: Usage)
        ensures
            r == (match reported(meta@) {
                Some(u) => usage_of(u),
                None => (Usage { input: 0, output: 0, cached: 0, reasoning: 0 }),
            }),
    {
        match TokenUsage::from_meta(meta) {
            Some(u) => Usage::from(u),
            None => Usage::default(),
        }
    }

    /// The total can be stated.
    pub open spec fn fits(self) -> bool {
        self.input + self.output <= u64::MAX
    }

    /// Whether the total can be stated.
    pub fn can_be_summed(&self) -> (r: bool)
        ensures
            r == self.fits(),
    {
        self.input <= u64::MAX - self.output
    }

    pub open spec fn openai(self) -> Tree {
        Tree::record().with("prompt_tokens"@, Tree::Number(self.input)).with(
            "completion_tokens"@,
            Tree::Number(self.output),
        ).with("total_tokens"@, Tree::Number((self.input + self.output) as u64)).with(
            "prompt_tokens_details"@,
            Tree::record().with("cached_tokens"@, Tree::Number(self.cached)),
        ).with(
            "completion_tokens_details"@,
            Tree::record().with("reasoning_tokens"@, Tree::Number(self.reasoning)),
        )
    }

    pub open spec fn anthropic(self) -> Tree {
        Tree::record().with("input_tokens"@, Tree::Number(self.input)).with(
            "output_tokens"@,
            Tree::Number(self.output),
        ).with("cache_read_input_tokens"@, Tree::Number(self.cached))
    }

    pub open spec fn responses(self) -> Tree {
        Tree::record().with("input_tokens"@, Tree::Number(self.input)).with(
            "output_tokens"@,
            Tree::Number(self.output),
        ).with("total_tokens"@, Tree::Number((self.input + self.output) as u64)).with(
            "input_tokens_details"@,
            Tree::record().with("cached_tokens"@, Tree::Number(self.cached)),
        ).with(
            "output_tokens_details"@,
            Tree::record().with("reasoning_tokens"@, Tree::Number(self.reasoning)),
        )
    }

    pub fn openai_json(&self) -> (r: Json)
        requires
            self.fits(),
        ensures
            r@ == self.openai(),
    {
        Json::record().with("prompt_tokens", Json::Number(self.input)).with(
            "completion_tokens",
            Json::Number(self.output),
        ).with("total_tokens", Json::Number(self.input + self.output)).with(
            "prompt_tokens_details",
            Json::record().with("cached_tokens", Json::Number(self.cached)),
        ).with(
            "completion_tokens_details",
            Json::record().with("reasoning_tokens", Json::Number(self.reasoning)),
        )
    }

    pub fn anthropic_json(&self) -> (r: Json)
        ensures
            r@ == self.anthropic(),
    {
        Json::record().with("input_tokens", Json::Number(self.input)).with(
            "output_tokens",
            Json::Number(self.output),
        ).with("cache_read_input_tokens", Json::Number(self.cached))
    }

    pub fn responses_json(&self) -> (r: Json)
        requires
            self.fits(),
        ensures
            r@ == self.responses(),
    {
        Json::record().with("input_tokens", Json::Number(self.input)).with(
            "output_tokens",
            Json::Number(self.output),
        ).with("total_tokens", Json::Number(self.input + self.output)).with(
            "input_tokens_details",
            Json::record().with("cached_tokens", Json::Number(self.cached)),
        ).with(
            "output_tokens_details",
            Json::record().with("reasoning_tokens", Json::Number(self.reasoning)),
        )
    }
}

impl Reply {
    /// The model ran out of room rather than finishing.
    pub open spec fn truncated(self) -> bool {
        self.finish == Some("length"@)
    }

    /// The model called a tool.
    pub open spec fn acted(self) -> bool {
        self.calls.len() > 0
    }

    /// Why the generation ended, in Anthropic's words.
    pub open spec fn stop_reason(self) -> Seq<char> {
        if self.acted() {
            "tool_use"@
        } else if self.truncated() {
            "max_tokens"@
        } else {
            "end_turn"@
        }
    }

    /// The same in OpenAI's words.
    pub open spec fn finish_reason(self) -> Seq<char> {
        if self.acted() {
            "tool_calls"@
        } else if self.truncated() {
            "length"@
        } else {
            "stop"@
        }
    }

    /// The same in the words of Responses.
    pub open spec fn status(self) -> Seq<char> {
        if self.truncated() {
            "incomplete"@
        } else {
            "completed"@
        }
    }
}

/// An answer cut short is never reported as a finished one, in any dialect.
pub proof fn law_cut_short_says_so(r: Reply)
    requires
        r.truncated(),
    ensures
        r.stop_reason() != "end_turn"@,
        r.finish_reason() != "stop"@,
        r.status() == "incomplete"@,
        !r.acted() ==> r.stop_reason() == "max_tokens"@ && r.finish_reason() == "length"@,
{
    reveal_strlit("end_turn");
    reveal_strlit("tool_use");
    reveal_strlit("max_tokens");
    reveal_strlit("stop");
    reveal_strlit("length");
    reveal_strlit("tool_calls");
    assert("end_turn"@[0] != "tool_use"@[0]);
    assert("end_turn"@[0] != "max_tokens"@[0]);
    assert("stop"@[0] != "length"@[0]);
    assert("stop"@[0] != "tool_calls"@[0]);
}

impl Answer {
    pub fn truncated(&self) -> (r: bool)
        ensures
            r == self@.truncated(),
    {
        match &self.finish {
            Some(f) => same(f.as_str(), "length"),
            None => false,
        }
    }

    pub fn acted(&self) -> (r: bool)
        ensures
            r == self@.acted(),
    {
        self.tool_calls.len() > 0
    }

    pub fn stop_reason(&self) -> (r: &'static str)
        ensures
            r@ == self@.stop_reason(),
    {
        if self.acted() {
            "tool_use"
        } else if self.truncated() {
            "max_tokens"
        } else {
            "end_turn"
        }
    }

    pub fn finish_reason(&self) -> (r: &'static str)
        ensures
            r@ == self@.finish_reason(),
    {
        if self.acted() {
            "tool_calls"
        } else if self.truncated() {
            "length"
        } else {
            "stop"
        }
    }

    pub fn status(&self) -> (r: &'static str)
        ensures
            r@ == self@.status(),
    {
        if self.truncated() {
            "incomplete"
        } else {
            "completed"
        }
    }
}

/// Adds a named event.
pub fn push_event(out: &mut Vec<(String, Json)>, name: &str, body: Json)
    ensures
        pairs(final(out)@) == pairs(old(out)@).push((name@, body@)),
{
    let ghost before = out@;
    out.push((name.to_string(), body));
    assert(pairs(out@) =~= pairs(before).push((name@, body@)));
}

} // verus!
