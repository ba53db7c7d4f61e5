//! Running the cipher over the lines of an input stream.
//!
//! The stream hands over one line after another; a line that could not be
//! read arrives as `None`. Every readable line is ciphered on its own, with
//! the key cursor back at the first key character, and the results keep the
//! order of the lines they came from. A line that could not be read gives no
//! output and does not disturb the lines after it.

use vstd::prelude::*;
use crate::cipher::{vigenere, vigenere_line};
use crate::context::{AsterContextView, AsterExecutionContext};

verus! {

/// One item of the input stream as a sequence of characters.
pub open spec fn line_view(line: Option<String>) -> Option<Seq<char>> {
    match line {
        Some(text) => Some(text@),
        None => None,
    }
}

/// The items of the input stream as sequences of characters.
pub open spec fn line_views(lines: Seq<Option<String>>) -> Seq<Option<Seq<char>>> {
    lines.map_values(|line: Option<String>| line_view(line))
}

/// The output lines as sequences of characters.
pub open spec fn output_views(lines: Seq<String>) -> Seq<Seq<char>> {
    lines.map_values(|line: String| line@)
}

/// What one item of the input stream gives: the ciphered line for a line
/// that was read, and nothing for one that was not.
pub open spec fn line_output(ctx: AsterContextView, line: Option<Seq<char>>) -> Option<Seq<char>> {
    match line {
        Some(text) => Some(vigenere_line(text, ctx.key, ctx.decrypt)),
        None => None,
    }
}

/// What a whole input stream gives: the output of each item that gives one,
/// in the order of the input.
pub open spec fn execution_output(ctx: AsterContextView, lines: Seq<Option<Seq<char>>>) -> Seq<
    Seq<char>,
> {
    lines.filter_map(|line: Option<Seq<char>>| line_output(ctx, line))
}

/// Handles one item of the input stream: ciphers the line if there is one.
pub fn handle_aster_line(ctx: &AsterExecutionContext, line: Option<String>) -> (out: Option<
    String,
>)
    requires
        ctx.valid(),
    ensures
        line_view(out) == line_output(ctx@, line_view(line)),
{
    match line {
        Some(text) => Some(vigenere(text, &ctx.key, ctx.decrypt)),
        None => None,
    }
}

/// Handles a whole input stream and returns the output lines in order.
pub fn handle_aster_execution(ctx: &AsterExecutionContext, lines: Vec<Option<String>>) -> (out:
    Vec<String>)
    requires
        ctx.valid(),
    ensures
        output_views(out@) == execution_output(ctx@, line_views(lines@)),
{
    let ghost input = line_views(lines@);
    let ghost step = |line: Option<Seq<char>>| line_output(ctx@, line);
    let mut out: Vec<String> = Vec::new();
    for line in it: lines
        invariant
            ctx.valid(),
            it.seq() == lines@,
            input == line_views(lines@),
            step == |line: Option<Seq<char>>| line_output(ctx@, line),
            output_views(out@) == input.take(it.index() as int).filter_map(step),
    {
        proof {
            input.lemma_filter_map_take_succ(step, it.index() as int);
        }
        match handle_aster_line(ctx, line) {
            Some(text) => {
                out.push(text);
            },
            None => {},
        }
    }
    assert(input.take(input.len() as int) =~= input);
    out
}

/// Ordering: where every line of the input was read, there is one output
/// line per input line, and the output line at each position is the ciphered
/// input line at that position.
pub proof fn lemma_every_line_answered(ctx: AsterContextView, lines: Seq<Option<Seq<char>>>)
    requires
        forall|i: int| 0 <= i < lines.len() ==> (#[trigger] lines[i]) is Some,
    ensures
        execution_output(ctx, lines).len() == lines.len(),
        forall|i: int|
            0 <= i < lines.len() ==> #[trigger] execution_output(ctx, lines)[i] == vigenere_line(
                lines[i]->0,
                ctx.key,
                ctx.decrypt,
            ),
    decreases lines.len(),
{
    if lines.len() > 0 {
        let rest = lines.drop_last();
        assert forall|i: int| 0 <= i < rest.len() implies (#[trigger] rest[i]) is Some by {
            assert(rest[i] == lines[i]);
        }
        lemma_every_line_answered(ctx, rest);
    }
}

/// The output of a stream is the output of its first part followed by the
/// output of the rest: lines are answered in the order they arrive, and what
/// came before a line has no part in its answer.
pub proof fn lemma_execution_in_order(
    ctx: AsterContextView,
    first: Seq<Option<Seq<char>>>,
    rest: Seq<Option<Seq<char>>>,
)
    ensures
        execution_output(ctx, first + rest) == execution_output(ctx, first) + execution_output(
            ctx,
            rest,
        ),
    decreases rest.len(),
{
    if rest.len() == 0 {
        assert(first + rest =~= first);
    } else {
        let shorter = rest.drop_last();
        lemma_execution_in_order(ctx, first, shorter);
        assert((first + rest).drop_last() =~= first + shorter);
        assert((first + rest).last() == rest.last());
    }
}

} // verus!
