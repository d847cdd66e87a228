use vstd::prelude::*;

use crate::model::{
    char_at, count_newlines, decimal_digit, digits_end, dispatch, errors_of, first_from,
    lemma_digits_end, lemma_dispatch_advances, lemma_first_from, number_end,
    scan_errors, scan_steps, scan_tokens, tokens_of, word_char, word_end, Step,
};

verus! {

/// How many characters `steps` read in all.
pub open spec fn consumed(steps: Seq<Step>) -> int
    decreases steps.len(),
{
    if steps.len() == 0 {
        0
    } else {
        (steps[0].end - steps[0].start) + consumed(steps.drop_first())
    }
}

/// Every character of the text is read by exactly one dispatch step: the
/// steps begin at the start, each reads at least one character, each begins
/// where the one before ended, the last ends at the end of the text, and
/// together they read as many characters as the text holds.
pub proof fn lemma_steps_cover_text(src: Seq<char>)
    ensures
        consumed(scan_steps(src, 0, 1)) == src.len(),
        ({
            let steps = scan_steps(src, 0, 1);
            &&& steps.len() > 0 ==> steps[0].start == 0
            &&& steps.len() > 0 ==> steps.last().end == src.len()
            &&& forall|i: int| 0 <= i < steps.len() ==> steps[i].start < steps[i].end
            &&& forall|i: int| 0 <= i < steps.len() - 1 ==> steps[i].end == steps[i + 1].start
        }),
{
    lemma_steps_cover_from(src, 0, 1);
}

proof fn lemma_steps_cover_from(src: Seq<char>, pos: int, line: nat)
    requires
        0 <= pos <= src.len(),
    ensures
        consumed(scan_steps(src, pos, line)) == src.len() - pos,
        ({
            let steps = scan_steps(src, pos, line);
            &&& steps.len() > 0 ==> steps[0].start == pos
            &&& steps.len() > 0 ==> steps.last().end == src.len()
            &&& forall|i: int| 0 <= i < steps.len() ==> steps[i].start < steps[i].end
            &&& forall|i: int| 0 <= i < steps.len() - 1 ==> steps[i].end == steps[i + 1].start
        }),
    decreases src.len() - pos,
{
    if pos < src.len() {
        let d = dispatch(src, pos, line);
        lemma_dispatch_advances(src, pos, line);
        let rest = scan_steps(src, d.end, d.line);
        lemma_steps_cover_from(src, d.end, d.line);
        let steps = scan_steps(src, pos, line);
        assert(steps == seq![d] + rest);
        assert(steps.drop_first() =~= rest);
        assert forall|i: int| 0 <= i < steps.len() - 1 implies steps[i].end == steps[i
            + 1].start by {
            if i > 0 {
                assert(steps[i] == rest[i - 1]);
            }
        }
        if rest.len() == 0 {
            assert(consumed(rest) == 0);
        }
    }
}

/// A text built only of whitespace and line comments.
pub open spec fn blank_from(src: Seq<char>, i: int) -> bool
    decreases src.len() - i,
    via blank_from_decreases
{
    if 0 <= i < src.len() {
        let c = src[i];
        if c == ' ' || c == '\r' || c == '\t' || c == '\n' {
            blank_from(src, i + 1)
        } else if c == '/' && char_at(src, i + 1) == '/' {
            blank_from(src, first_from(src, i + 2, '\n'))
        } else {
            false
        }
    } else {
        true
    }
}

#[via_fn]
proof fn blank_from_decreases(src: Seq<char>, i: int) {
    if 0 <= i < src.len() && src[i] == '/' && char_at(src, i + 1) == '/' {
        lemma_first_from(src, i + 2, '\n');
    }
}

proof fn lemma_tokens_of_concat(a: Seq<Step>, b: Seq<Step>)
    ensures
        tokens_of(a + b) == tokens_of(a) + tokens_of(b),
        errors_of(a + b) == errors_of(a) + errors_of(b),
    decreases b.len(),
{
    if b.len() == 0 {
        assert(a + b =~= a);
        assert(tokens_of(a) + tokens_of(b) =~= tokens_of(a));
        assert(errors_of(a) + errors_of(b) =~= errors_of(a));
    } else {
        lemma_tokens_of_concat(a, b.drop_last());
        assert((a + b).drop_last() =~= a + b.drop_last());
        assert((a + b).last() == b.last());
        assert(tokens_of(a + b) =~= tokens_of(a) + tokens_of(b));
        assert(errors_of(a + b) =~= errors_of(a) + errors_of(b));
    }
}

/// A text of whitespace and comments alone yields no token and no diagnostic.
pub proof fn lemma_blank_text_is_silent(src: Seq<char>)
    requires
        blank_from(src, 0),
    ensures
        scan_tokens(src) == Seq::<crate::token::TokenView>::empty(),
        scan_errors(src) == Seq::<crate::error::ErrorView>::empty(),
{
    lemma_blank_from(src, 0, 1);
}

proof fn lemma_blank_from(src: Seq<char>, pos: int, line: nat)
    requires
        0 <= pos <= src.len(),
        blank_from(src, pos),
    ensures
        tokens_of(scan_steps(src, pos, line)) == Seq::<crate::token::TokenView>::empty(),
        errors_of(scan_steps(src, pos, line)) == Seq::<crate::error::ErrorView>::empty(),
    decreases src.len() - pos,
{
    if pos < src.len() {
        let d = dispatch(src, pos, line);
        lemma_dispatch_advances(src, pos, line);
        if src[pos] == '/' {
            lemma_first_from(src, pos + 2, '\n');
        }
        lemma_blank_from(src, d.end, d.line);
        let rest = scan_steps(src, d.end, d.line);
        lemma_tokens_of_concat(seq![d], rest);
        assert(d.outcome is Skip);
        assert(seq![d].drop_last() =~= Seq::<Step>::empty());
        assert(seq![d].last() == d);
        assert(tokens_of(Seq::<Step>::empty()) =~= Seq::<crate::token::TokenView>::empty());
        assert(errors_of(Seq::<Step>::empty()) =~= Seq::<crate::error::ErrorView>::empty());
        assert(crate::model::emitted(d) =~= Seq::<crate::token::TokenView>::empty());
        assert(crate::model::raised(d) =~= Seq::<crate::error::ErrorView>::empty());
        assert(tokens_of(seq![d]) =~= Seq::<crate::token::TokenView>::empty());
        assert(errors_of(seq![d]) =~= Seq::<crate::error::ErrorView>::empty());
        assert(tokens_of(seq![d]) + tokens_of(rest) =~= Seq::<crate::token::TokenView>::empty());
        assert(errors_of(seq![d]) + errors_of(rest) =~= Seq::<crate::error::ErrorView>::empty());
    }
}

/// Each emitted token's lexeme is exactly the text that its step read.
pub proof fn lemma_lexeme_is_source_text(src: Seq<char>)
    ensures
        forall|i: int|
            0 <= i < scan_steps(src, 0, 1).len() && (#[trigger] scan_steps(src, 0, 1)[i]).outcome is Emit
                ==> scan_steps(src, 0, 1)[i].outcome->Emit_0.lexeme == src.subrange(
                scan_steps(src, 0, 1)[i].start,
                scan_steps(src, 0, 1)[i].end,
            ),
{
    lemma_lexeme_from(src, 0, 1);
}

proof fn lemma_lexeme_from(src: Seq<char>, pos: int, line: nat)
    requires
        0 <= pos <= src.len(),
    ensures
        forall|i: int|
            0 <= i < scan_steps(src, pos, line).len() && (#[trigger] scan_steps(
                src,
                pos,
                line,
            )[i]).outcome is Emit ==> scan_steps(src, pos, line)[i].outcome->Emit_0.lexeme
                == src.subrange(scan_steps(src, pos, line)[i].start, scan_steps(src, pos, line)[i].end),
    decreases src.len() - pos,
{
    if pos < src.len() {
        let d = dispatch(src, pos, line);
        lemma_dispatch_advances(src, pos, line);
        lemma_lexeme_from(src, d.end, d.line);
        let rest = scan_steps(src, d.end, d.line);
        let steps = scan_steps(src, pos, line);
        assert(steps == seq![d] + rest);
        assert forall|i: int|
            0 <= i < steps.len() && (#[trigger] steps[i]).outcome is Emit implies steps[i].outcome->Emit_0.lexeme
                == src.subrange(steps[i].start, steps[i].end) by {
            if i > 0 {
                assert(steps[i] == rest[i - 1]);
            }
        }
    }
}

proof fn lemma_count_concat(a: Seq<char>, b: Seq<char>)
    ensures
        count_newlines(a + b) == count_newlines(a) + count_newlines(b),
    decreases b.len(),
{
    if b.len() == 0 {
        assert(a + b =~= a);
    } else {
        lemma_count_concat(a, b.drop_last());
        assert((a + b).drop_last() =~= a + b.drop_last());
    }
}

proof fn lemma_no_newlines(src: Seq<char>, a: int, b: int)
    requires
        0 <= a <= b <= src.len(),
        forall|k: int| a <= k < b ==> src[k] != '\n',
    ensures
        count_newlines(src.subrange(a, b)) == 0,
    decreases b - a,
{
    if a < b {
        lemma_no_newlines(src, a, b - 1);
        assert(src.subrange(a, b).drop_last() =~= src.subrange(a, b - 1));
    }
}

proof fn lemma_digits_run(src: Seq<char>, i: int)
    requires
        0 <= i <= src.len(),
    ensures
        forall|k: int| i <= k < digits_end(src, i) ==> decimal_digit(src[k]),
    decreases src.len() - i,
{
    if i < src.len() && decimal_digit(src[i]) {
        lemma_digits_run(src, i + 1);
    }
}

proof fn lemma_word_run(src: Seq<char>, i: int)
    requires
        0 <= i <= src.len(),
    ensures
        forall|k: int| i <= k < word_end(src, i) ==> word_char(src[k]),
    decreases src.len() - i,
{
    if i < src.len() && word_char(src[i]) {
        lemma_word_run(src, i + 1);
    }
}

/// One step moves the line counter by the newlines it reads, and the token
/// it emits carries the line on which the step began.
proof fn lemma_dispatch_lines(src: Seq<char>, pos: int, line: nat)
    requires
        0 <= pos < src.len(),
    ensures
        dispatch(src, pos, line).line == line + count_newlines(
            src.subrange(pos, dispatch(src, pos, line).end),
        ),
        dispatch(src, pos, line).outcome is Emit ==> dispatch(src, pos, line).outcome->Emit_0.line
            == line,
{
    let d = dispatch(src, pos, line);
    let c = src[pos];
    lemma_dispatch_advances(src, pos, line);
    if c == '\n' {
        assert(src.subrange(pos, pos + 1).drop_last() =~= Seq::<char>::empty());
        assert(count_newlines(Seq::<char>::empty()) == 0);
    } else if c == '"' {
        let q = first_from(src, pos + 1, '"');
        lemma_first_from(src, pos + 1, '"');
        lemma_no_newlines(src, pos, pos + 1);
        lemma_no_newlines(src, q, d.end);
        assert(src.subrange(pos, d.end) =~= src.subrange(pos, pos + 1) + src.subrange(pos + 1, q)
            + src.subrange(q, d.end));
        lemma_count_concat(src.subrange(pos, pos + 1), src.subrange(pos + 1, q));
        lemma_count_concat(
            src.subrange(pos, pos + 1) + src.subrange(pos + 1, q),
            src.subrange(q, d.end),
        );
    } else {
        if c == '/' && char_at(src, pos + 1) == '/' {
            lemma_first_from(src, pos + 2, '\n');
        }
        if decimal_digit(c) {
            lemma_digits_end(src, pos + 1);
            lemma_digits_run(src, pos + 1);
            let a = digits_end(src, pos + 1);
            if char_at(src, a) == '.' && decimal_digit(char_at(src, a + 1)) {
                lemma_digits_end(src, a + 1);
                lemma_digits_run(src, a + 1);
            }
            assert(d.end == number_end(src, pos + 1));
        }
        if crate::model::word_start(c) {
            lemma_word_run(src, pos + 1);
        }
        lemma_no_newlines(src, pos, d.end);
    }
}

/// Line numbering: after each step the line counter is one more than the
/// number of newlines read so far, string literals included; so each token
/// reports one more than the number of newlines before its first character,
/// and a string literal spanning lines reports the line of its opening quote.
pub proof fn lemma_token_lines(src: Seq<char>)
    ensures
        forall|i: int|
            0 <= i < scan_steps(src, 0, 1).len() ==> (#[trigger] scan_steps(src, 0, 1)[i]).line
                == 1 + count_newlines(src.subrange(0, scan_steps(src, 0, 1)[i].end)),
        forall|i: int|
            0 <= i < scan_steps(src, 0, 1).len() && (#[trigger] scan_steps(src, 0, 1)[i]).outcome is Emit
                ==> scan_steps(src, 0, 1)[i].outcome->Emit_0.line == 1 + count_newlines(
                src.subrange(0, scan_steps(src, 0, 1)[i].start),
            ),
{
    assert(src.subrange(0, 0) =~= Seq::<char>::empty());
    lemma_lines_from(src, 0, 1);
}

proof fn lemma_lines_from(src: Seq<char>, pos: int, line: nat)
    requires
        0 <= pos <= src.len(),
        line == 1 + count_newlines(src.subrange(0, pos)),
    ensures
        forall|i: int|
            0 <= i < scan_steps(src, pos, line).len() ==> (#[trigger] scan_steps(src, pos, line)[i]).line
                == 1 + count_newlines(src.subrange(0, scan_steps(src, pos, line)[i].end)),
        forall|i: int|
            0 <= i < scan_steps(src, pos, line).len() && (#[trigger] scan_steps(
                src,
                pos,
                line,
            )[i]).outcome is Emit ==> scan_steps(src, pos, line)[i].outcome->Emit_0.line == 1
                + count_newlines(src.subrange(0, scan_steps(src, pos, line)[i].start)),
    decreases src.len() - pos,
{
    if pos < src.len() {
        let d = dispatch(src, pos, line);
        lemma_dispatch_advances(src, pos, line);
        lemma_dispatch_lines(src, pos, line);
        assert(src.subrange(0, d.end) =~= src.subrange(0, pos) + src.subrange(pos, d.end));
        lemma_count_concat(src.subrange(0, pos), src.subrange(pos, d.end));
        lemma_lines_from(src, d.end, d.line);
        let rest = scan_steps(src, d.end, d.line);
        let steps = scan_steps(src, pos, line);
        assert(steps == seq![d] + rest);
        assert forall|i: int| 0 <= i < steps.len() implies (#[trigger] steps[i]).line == 1
            + count_newlines(src.subrange(0, steps[i].end)) by {
            if i > 0 {
                assert(steps[i] == rest[i - 1]);
            }
        }
        assert forall|i: int|
            0 <= i < steps.len() && (#[trigger] steps[i]).outcome is Emit implies steps[i].outcome->Emit_0.line
                == 1 + count_newlines(src.subrange(0, steps[i].start)) by {
            if i > 0 {
                assert(steps[i] == rest[i - 1]);
            }
        }
    }
}

} // verus!
