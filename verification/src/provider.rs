//! Turning provider configuration into an executable command.

use crate::config::Provider;
use crate::lines::{law_every_pattern_is_replaced,
    law_replacing_what_is_not_there_changes_nothing, replace, replaced, stands_at};
use crate::text::texts;
use vstd::prelude::*;

verus! {

/// The placeholder a provider's `args` use to receive the job's prompt.
pub const PROMPT_PLACEHOLDER: &'static str = "{prompt}";

/// A command as the OS takes it: a program and an argument vector.
///
/// Deliberately not a shell string. A prompt contains quotes, newlines and
/// `$`; substituting it into a shell string would be an injection bug.
#[derive(Debug, Clone, PartialEq, Eq)]
pub struct CommandSpec {
    pub program: String,
    pub args: Vec<String>,
}

/// Arguments with the prompt put where the placeholder stands.
pub open spec fn rendered_args(args: Seq<Seq<char>>, prompt: Seq<char>) -> Seq<Seq<char>> {
    Seq::new(args.len(), |i: int| replaced(args[i], PROMPT_PLACEHOLDER@, prompt))
}

/// The command that puts `prompt` to this provider.
pub fn render_command(provider: &Provider, prompt: &str) -> (spec: CommandSpec)
    ensures
        spec.program@ == provider.cmd@,
        texts(spec.args@) == rendered_args(texts(provider.args@), prompt@),
{
    let mut args: Vec<String> = Vec::new();
    let mut at: usize = 0;
    proof {
        reveal_strlit("{prompt}");
    }
    while at < provider.args.len()
        invariant
            at <= provider.args.len(),
            PROMPT_PLACEHOLDER@.len() > 0,
            args.len() == at,
            forall|i: int|
                0 <= i < at ==> (#[trigger] args@[i])@ == rendered_args(
                    texts(provider.args@),
                    prompt@,
                )[i],
        decreases provider.args.len() - at,
    {
        args.push(replace(provider.args[at].as_str(), PROMPT_PLACEHOLDER, prompt));
        at = at + 1;
    }
    assert(texts(args@) =~= rendered_args(texts(provider.args@), prompt@));
    CommandSpec { program: provider.cmd.clone(), args }
}

/// Whatever a prompt holds, it cannot add an argument or take one away, and an
/// argument without the placeholder is not touched.
pub proof fn law_prompt_stays_inside_its_argument(
    args: Seq<Seq<char>>,
    prompt: Seq<char>,
    at: int,
)
    requires
        0 <= at < args.len(),
    ensures
        rendered_args(args, prompt).len() == args.len(),
        (forall|i: int| !#[trigger] stands_at(args[at], PROMPT_PLACEHOLDER@, i))
            ==> rendered_args(args, prompt)[at] == args[at],
{
    if forall|i: int| !#[trigger] stands_at(args[at], PROMPT_PLACEHOLDER@, i) {
        law_replacing_what_is_not_there_changes_nothing(args[at], PROMPT_PLACEHOLDER@, prompt);
    }
}

/// The placeholder alone becomes the prompt alone, character for character.
pub proof fn law_placeholder_becomes_the_prompt(
    before: Seq<char>,
    after: Seq<char>,
    prompt: Seq<char>,
)
    requires
        forall|i: int| 0 <= i < before.len() ==> #[trigger] before[i] != '{',
        forall|i: int| 0 <= i < after.len() ==> #[trigger] after[i] != '{',
    ensures
        replaced(before + PROMPT_PLACEHOLDER@ + after, PROMPT_PLACEHOLDER@, prompt) == before
            + prompt + after,
    decreases before.len(),
{
    reveal_strlit("{prompt}");
    let holder = PROMPT_PLACEHOLDER@;
    let text = before + holder + after;
    if before.len() > 0 {
        let rest = before.skip(1);
        assert(text.take(holder.len() as int)[0] == before[0]);
        assert(text.take(holder.len() as int) != holder);
        assert(text.skip(1) =~= rest + holder + after);
        assert forall|i: int| 0 <= i < rest.len() implies #[trigger] rest[i] != '{' by {
            assert(rest[i] == before[i + 1]);
        }
        law_placeholder_becomes_the_prompt(rest, after, prompt);
        assert(seq![before[0]] + (rest + prompt + after) =~= before + prompt + after);
    } else {
        assert(text.take(holder.len() as int) =~= holder);
        assert(text.skip(holder.len() as int) =~= after);
        assert forall|i: int| !#[trigger] stands_at(after, holder, i) by {
            if stands_at(after, holder, i) {
                assert(after.subrange(i, i + holder.len())[0] == after[i]);
            }
        }
        law_replacing_what_is_not_there_changes_nothing(after, holder, prompt);
        assert(prompt + after =~= before + prompt + after);
    }
}

/// Every argument reaches the agent with the prompt in the place of each
/// placeholder, from the first on, and the rest of it as it was.
pub proof fn law_each_placeholder_receives_the_prompt(
    args: Seq<Seq<char>>,
    prompt: Seq<char>,
    at: int,
    before: Seq<char>,
    after: Seq<char>,
)
    requires
        0 <= at < args.len(),
        args[at] == before + PROMPT_PLACEHOLDER@ + after,
        forall|i: int|
            0 <= i < before.len() ==> !#[trigger] stands_at(args[at], PROMPT_PLACEHOLDER@, i),
    ensures
        rendered_args(args, prompt)[at] == before + prompt + rendered_args(
            args.update(at, after),
            prompt,
        )[at],
        forall|i: int|
            0 <= i < args.len() && i != at ==> #[trigger] rendered_args(args, prompt)[i]
                == rendered_args(args.update(at, after), prompt)[i],
{
    reveal_strlit("{prompt}");
    law_every_pattern_is_replaced(before, PROMPT_PLACEHOLDER@, after, prompt);
}

} // verus!
