//! Rendering of a submitted prompt into the transcript, and the
//! transcript separator.

use vstd::prelude::*;
use vstd::string::*;
use crate::text::push_char;

verus! {

/// How one prompt character appears in the quoted echo: a newline
/// restarts the quote prefix on the next line.
pub open spec fn spec_quote_char(c: char) -> Seq<char> {
    if c == '\n' {
        seq!['\n', '>', ' ']
    } else {
        seq![c]
    }
}

/// The body of the quoted echo: every character of the prompt in order,
/// each expanded by [`spec_quote_char`].
pub open spec fn spec_quote_body(s: Seq<char>) -> Seq<char>
    decreases s.len(),
{
    if s.len() == 0 {
        Seq::empty()
    } else {
        spec_quote_body(s.drop_last()) + spec_quote_char(s.last())
    }
}

/// The full quoted rendering of a prompt: a leading quote prefix, the
/// expanded prompt, and a closing newline.
pub open spec fn spec_quoted_prompt(s: Seq<char>) -> Seq<char> {
    seq!['>', ' '] + spec_quote_body(s) + seq!['\n']
}

/// Renders a submitted prompt as a Markdown quotation for the transcript:
/// `"> "` starts the first line and follows every newline, and the result
/// ends with a newline.
pub fn format_input_to_output(inp: &str) -> (out: String)
    ensures
        out@ == spec_quoted_prompt(inp@),
{
    let n: usize = inp.unicode_len();
    let mut out = String::new();
    push_char(&mut out, '>');
    push_char(&mut out, ' ');
    proof {
        assert(out@ =~= seq!['>', ' '] + spec_quote_body(inp@.take(0)));
    }
    let mut i: usize = 0;
    while i < n
        invariant
            n == inp@.len(),
            i <= n,
            out@ == seq!['>', ' '] + spec_quote_body(inp@.take(i as int)),
        decreases n - i,
    {
        let c = inp.get_char(i);
        push_char(&mut out, c);
        if c == '\n' {
            push_char(&mut out, '>');
            push_char(&mut out, ' ');
        }
        i = i + 1;
        proof {
            assert(inp@.take(i as int).drop_last() =~= inp@.take(i - 1));
            assert(inp@.take(i as int).last() == c);
            assert(out@ =~= seq!['>', ' '] + spec_quote_body(inp@.take(i as int)));
        }
    }
    push_char(&mut out, '\n');
    proof {
        assert(inp@.take(n as int) =~= inp@);
        assert(out@ =~= spec_quoted_prompt(inp@));
    }
    out
}

/// The separator appended to the transcript when a turn finishes.
pub open spec fn spec_hr() -> Seq<char> {
    "\n\n-----\n"@
}

/// Executable counterpart of [`spec_hr`].
pub fn hr() -> (r: &'static str)
    ensures
        r@ == spec_hr(),
{
    "\n\n-----\n"
}

} // verus!
