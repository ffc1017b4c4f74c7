//! Laws of the translation, proved once and for all inputs: comment lines
//! emit nothing, untouched statements pass the substitution unchanged, and
//! a program of well-formed statements with matched block delimiters scans
//! to completion with the nesting depth back at zero.

use vstd::prelude::*;

use crate::rules::decl_body;
use crate::rules::init_state;
use crate::rules::is_if_open;
use crate::rules::is_print_stmt;
use crate::rules::is_var_decl;
use crate::rules::is_while_open;
use crate::rules::preamble;
use crate::rules::replace_rand;
use crate::rules::spec_step;
use crate::rules::LineAct;
use crate::rules::ScanState;
use crate::text::contains_pat;
use crate::text::has_prefix;
use crate::text::has_suffix;
use crate::text::lemma_replace_absent;
use crate::text::spec_trim;
use crate::transpile::scan_from;
use crate::transpile::spec_encode;
use crate::transpile::ScanOut;

verus! {

/// A statement that carries no occurrence of the random-call token is
/// passed through the substitution exactly as it stands.
pub proof fn lemma_rand_free_unchanged(s: Seq<char>)
    requires
        !contains_pat(s, "rand("@),
    ensures
        replace_rand(s) == s,
{
    reveal_strlit("rand(");
    lemma_replace_absent(s, "rand("@, "simple_rand("@);
}

/// Every successful translation opens with the fixed preamble, which is
/// where the pseudo-random helper is defined — once, whatever the number
/// of call sites in the program.
pub proof fn lemma_output_opens_with_preamble(src: Seq<char>)
    requires
        spec_encode(src) is Done,
    ensures
        spec_encode(src) matches ScanOut::Done { text, .. } && text.len() >= preamble().len()
            && text.take(preamble().len() as int) == preamble(),
{
    match scan_from(crate::text::spec_split_lines(src), 0, init_state()) {
        ScanOut::Done { text, state } => {
            assert((preamble() + text + "}\n"@).take(preamble().len() as int) =~= preamble());
        },
        ScanOut::Stopped { .. } => {},
    }
}

/// A line handled as a comment — one inside a block comment span, one
/// opening or closing such a span, a line comment — or a blank line
/// contributes no output and leaves the nesting depth unchanged.
pub proof fn lemma_comment_emits_nothing(st: ScanState, raw: Seq<char>)
    requires
        ({
            let l = spec_trim(raw);
            st.in_comment || l.len() == 0 || has_prefix(l, "/*"@) || has_prefix(l, "//"@)
                || has_prefix(l, "#"@)
        }),
    ensures
        spec_step(st, raw) matches LineAct::Emit { text, next } && text == Seq::<char>::empty()
            && next.depth == st.depth,
{
}

/// The last character of a sequence with a non-empty suffix.
proof fn lemma_suffix_last_char(l: Seq<char>, pat: Seq<char>)
    requires
        has_suffix(l, pat),
        pat.len() > 0,
    ensures
        l[l.len() - 1] == pat[pat.len() - 1],
{
    assert(l.subrange(l.len() - pat.len(), l.len() as int)[pat.len() - 1] == l[l.len() - 1]);
}

/// The first character of a sequence with a non-empty prefix.
proof fn lemma_prefix_first_char(l: Seq<char>, pat: Seq<char>)
    requires
        has_prefix(l, pat),
        pat.len() > 0,
    ensures
        l[0] == pat[0],
{
    assert(l.subrange(0, pat.len() as int)[0] == l[0]);
}

/// A trimmed line that the scan accepts without touching the nesting
/// depth: an output statement, a declaration (prompted input included,
/// with its split marker in place), a plain assignment or a bare
/// statement — anything completed by the terminator, as long as it is not
/// a comment and not a declaration with a malformed input call.
pub open spec fn is_plain_stmt_line(l: Seq<char>) -> bool {
    &&& l.len() > 0
    &&& !has_prefix(l, "/*"@)
    &&& !has_prefix(l, "//"@)
    &&& !has_prefix(l, "#"@)
    &&& has_suffix(l, "--"@)
    &&& (is_var_decl(l) ==> (contains_pat(decl_body(l), "= input("@) || !contains_pat(
        decl_body(l),
        "input("@,
    )))
}

/// A trimmed line that opens a block.
pub open spec fn is_opener_line(l: Seq<char>) -> bool {
    is_if_open(l) || is_while_open(l)
}

/// A trimmed line that closes a block.
pub open spec fn is_closer_line(l: Seq<char>) -> bool {
    l == "}"@
}

/// A trimmed line that joins an else branch to its block.
pub open spec fn is_else_line(l: Seq<char>) -> bool {
    l == "} else {"@ || l == "else {"@
}

/// A trimmed line of a well-bracketed program: a statement, a block
/// delimiter, an else joint, or nothing at all.
pub open spec fn is_well_bracketed_line(l: Seq<char>) -> bool {
    is_plain_stmt_line(l) || is_opener_line(l) || is_closer_line(l) || is_else_line(l) || l.len()
        == 0
}

/// The nesting depth the scan reaches after `i` lines: openers add one,
/// closers take one away, everything else leaves it alone.
pub open spec fn depth_after(lines: Seq<Seq<char>>, i: int) -> int
    decreases i,
{
    if i <= 0 {
        0
    } else {
        let l = spec_trim(lines[i - 1]);
        depth_after(lines, i - 1) + if is_opener_line(l) {
            1int
        } else if is_closer_line(l) {
            -1int
        } else {
            0int
        }
    }
}

proof fn reveal_tokens()
    ensures
        "print("@.len() == 6 && "print("@[0] == 'p',
        "var "@.len() == 4 && "var "@[0] == 'v',
        "--"@.len() == 2 && "--"@[1] == '-',
        ")--"@.len() == 3,
        "if "@.len() == 3 && "if "@[0] == 'i',
        "while "@.len() == 6 && "while "@[0] == 'w',
        "{"@.len() == 1 && "{"@[0] == '{',
        "}"@.len() == 1 && "}"@[0] == '}',
        "} else {"@.len() == 8 && "} else {"@[0] == '}' && "} else {"@[7] == '{',
        "else {"@.len() == 6 && "else {"@[0] == 'e' && "else {"@[5] == '{',
        "/*"@.len() == 2 && "/*"@[0] == '/',
        "//"@.len() == 2 && "//"@[0] == '/',
        "#"@.len() == 1 && "#"@[0] == '#',
{
    reveal_strlit("print(");
    reveal_strlit("var ");
    reveal_strlit("--");
    reveal_strlit(")--");
    reveal_strlit("if ");
    reveal_strlit("while ");
    reveal_strlit("{");
    reveal_strlit("}");
    reveal_strlit("} else {");
    reveal_strlit("else {");
    reveal_strlit("/*");
    reveal_strlit("//");
    reveal_strlit("#");
}

/// A statement line is accepted and leaves the scan state as it was.
pub proof fn lemma_step_statement(st: ScanState, raw: Seq<char>)
    requires
        !st.in_comment,
        is_plain_stmt_line(spec_trim(raw)),
    ensures
        spec_step(st, raw) matches LineAct::Emit { next, .. } && next == st,
{
    reveal_tokens();
    let l = spec_trim(raw);
    lemma_suffix_last_char(l, "--"@);
    if is_if_open(l) {
        lemma_suffix_last_char(l, "{"@);
    }
    if is_while_open(l) {
        lemma_suffix_last_char(l, "{"@);
    }
    assert(l != "} else {"@) by {
        if l == "} else {"@ {
            assert(l[l.len() - 1] == '{');
        }
    }
    assert(l != "else {"@) by {
        if l == "else {"@ {
            assert(l[l.len() - 1] == '{');
        }
    }
    assert(l != "}"@) by {
        if l == "}"@ {
            assert(l.len() == 1);
        }
    }
}

/// An opening line is accepted and deepens the nesting by exactly one.
pub proof fn lemma_step_opener(st: ScanState, raw: Seq<char>)
    requires
        !st.in_comment,
        is_opener_line(spec_trim(raw)),
    ensures
        spec_step(st, raw) matches LineAct::Emit { next, .. } && next.depth == st.depth + 1
            && next.in_comment == st.in_comment,
{
    reveal_tokens();
    let l = spec_trim(raw);
    if is_if_open(l) {
        lemma_prefix_first_char(l, "if "@);
    } else {
        lemma_prefix_first_char(l, "while "@);
    }
    if has_prefix(l, "/*"@) {
        lemma_prefix_first_char(l, "/*"@);
    }
    if has_prefix(l, "//"@) {
        lemma_prefix_first_char(l, "//"@);
    }
    if has_prefix(l, "#"@) {
        lemma_prefix_first_char(l, "#"@);
    }
    if is_print_stmt(l) {
        lemma_prefix_first_char(l, "print("@);
    }
    if is_var_decl(l) {
        lemma_prefix_first_char(l, "var "@);
    }
    assert(l != "} else {"@) by {
        if l == "} else {"@ {
            assert(l[0] == '}');
        }
    }
    assert(l != "else {"@) by {
        if l == "else {"@ {
            assert(l[0] == 'e');
        }
    }
    assert(l != "}"@) by {
        if l == "}"@ {
            assert(l[0] == '}');
        }
    }
}

/// With a block open, a closing line is accepted and shallows the nesting
/// by exactly one.
pub proof fn lemma_step_closer(st: ScanState, raw: Seq<char>)
    requires
        !st.in_comment,
        st.depth >= 1,
        is_closer_line(spec_trim(raw)),
    ensures
        spec_step(st, raw) matches LineAct::Emit { next, .. } && next.depth == st.depth - 1
            && next.in_comment == st.in_comment,
{
    reveal_tokens();
    let l = spec_trim(raw);
    assert(l.len() == 1 && l[0] == '}');
    if has_prefix(l, "/*"@) {
        lemma_prefix_first_char(l, "/*"@);
    }
    if has_prefix(l, "//"@) {
        lemma_prefix_first_char(l, "//"@);
    }
    if has_prefix(l, "#"@) {
        lemma_prefix_first_char(l, "#"@);
    }
    if is_print_stmt(l) {
        lemma_prefix_first_char(l, "print("@);
    }
    if is_var_decl(l) {
        lemma_prefix_first_char(l, "var "@);
    }
    if is_if_open(l) {
        lemma_prefix_first_char(l, "if "@);
    }
    if is_while_open(l) {
        lemma_prefix_first_char(l, "while "@);
    }
}

/// With a block open, an else joint is accepted and leaves the nesting
/// depth as it was.
pub proof fn lemma_step_else(st: ScanState, raw: Seq<char>)
    requires
        !st.in_comment,
        st.depth >= 1,
        is_else_line(spec_trim(raw)),
    ensures
        spec_step(st, raw) matches LineAct::Emit { next, .. } && next.depth == st.depth
            && next.in_comment == st.in_comment,
{
    reveal_tokens();
    let l = spec_trim(raw);
    assert(l[0] == '}' || l[0] == 'e');
    if has_prefix(l, "/*"@) {
        lemma_prefix_first_char(l, "/*"@);
    }
    if has_prefix(l, "//"@) {
        lemma_prefix_first_char(l, "//"@);
    }
    if has_prefix(l, "#"@) {
        lemma_prefix_first_char(l, "#"@);
    }
    if is_print_stmt(l) {
        lemma_prefix_first_char(l, "print("@);
    }
    if is_var_decl(l) {
        lemma_prefix_first_char(l, "var "@);
    }
    if is_if_open(l) {
        lemma_prefix_first_char(l, "if "@);
    }
    if is_while_open(l) {
        lemma_prefix_first_char(l, "while "@);
    }
}

proof fn lemma_matched_scan_from(lines: Seq<Seq<char>>, i: int, st: ScanState)
    requires
        0 <= i <= lines.len(),
        !st.in_comment,
        st.depth == depth_after(lines, i),
        forall|j: int| 0 <= j < lines.len() ==> is_well_bracketed_line(spec_trim(#[trigger] lines[j])),
        forall|j: int|
            0 <= j < lines.len() && (is_closer_line(spec_trim(#[trigger] lines[j])) || is_else_line(
                spec_trim(lines[j]),
            )) ==> depth_after(lines, j) >= 1,
    ensures
        scan_from(lines, i, st) matches ScanOut::Done { state, .. } && state.depth == depth_after(
            lines,
            lines.len() as int,
        ) && !state.in_comment,
    decreases lines.len() - i,
{
    reveal_tokens();
    if i == lines.len() {
    } else {
        let l = spec_trim(lines[i]);
        if l.len() == 0 {
            assert(spec_step(st, lines[i]) matches LineAct::Emit { next, .. } && next == st);
            assert(depth_after(lines, i + 1) == depth_after(lines, i));
            lemma_matched_scan_from(lines, i + 1, st);
        } else if is_plain_stmt_line(l) {
            lemma_step_statement(st, lines[i]);
            lemma_suffix_last_char(l, "--"@);
            if is_if_open(l) {
                lemma_suffix_last_char(l, "{"@);
            }
            if is_while_open(l) {
                lemma_suffix_last_char(l, "{"@);
            }
            assert(l != "}"@) by {
                if l == "}"@ {
                    assert(l.len() == 1);
                }
            }
            assert(depth_after(lines, i + 1) == depth_after(lines, i));
            lemma_matched_scan_from(lines, i + 1, st);
        } else if is_opener_line(l) {
            lemma_step_opener(st, lines[i]);
            match spec_step(st, lines[i]) {
                LineAct::Emit { next, .. } => {
                    lemma_matched_scan_from(lines, i + 1, next);
                },
                LineAct::Fail { .. } => {},
            }
        } else if is_closer_line(l) {
            assert(depth_after(lines, i) >= 1);
            lemma_step_closer(st, lines[i]);
            match spec_step(st, lines[i]) {
                LineAct::Emit { next, .. } => {
                    lemma_matched_scan_from(lines, i + 1, next);
                },
                LineAct::Fail { .. } => {},
            }
        } else {
            assert(is_else_line(l));
            assert(depth_after(lines, i) >= 1);
            lemma_step_else(st, lines[i]);
            lemma_matched_scan_from(lines, i + 1, st);
        }
    }
}

/// For an input consisting only of well-formed statements and matched
/// block delimiters — every closer and every else joint has an open block
/// to act on, and openers and closers balance over the whole text — the
/// scan succeeds and the nesting depth returns to zero at the end.
pub proof fn lemma_matched_blocks_scan_to_zero(lines: Seq<Seq<char>>)
    requires
        forall|j: int| 0 <= j < lines.len() ==> is_well_bracketed_line(spec_trim(#[trigger] lines[j])),
        forall|j: int|
            0 <= j < lines.len() && (is_closer_line(spec_trim(#[trigger] lines[j])) || is_else_line(
                spec_trim(lines[j]),
            )) ==> depth_after(lines, j) >= 1,
        depth_after(lines, lines.len() as int) == 0,
    ensures
        scan_from(lines, 0, init_state()) matches ScanOut::Done { state, .. } && state.depth == 0
            && !state.in_comment,
{
    lemma_matched_scan_from(lines, 0, init_state());
}

proof fn lemma_depth_constant_without_blocks(lines: Seq<Seq<char>>, i: int)
    requires
        0 <= i <= lines.len(),
        forall|j: int|
            0 <= j < lines.len() ==> is_plain_stmt_line(spec_trim(#[trigger] lines[j])) || spec_trim(
                lines[j],
            ).len() == 0,
    ensures
        depth_after(lines, i) == 0,
    decreases i,
{
    reveal_tokens();
    if i > 0 {
        lemma_depth_constant_without_blocks(lines, i - 1);
        let l = spec_trim(lines[i - 1]);
        if l.len() > 0 {
            lemma_suffix_last_char(l, "--"@);
            if is_if_open(l) {
                lemma_suffix_last_char(l, "{"@);
            }
            if is_while_open(l) {
                lemma_suffix_last_char(l, "{"@);
            }
            assert(l != "}"@) by {
                if l == "}"@ {
                    assert(l.len() == 1);
                }
            }
        }
    }
}

/// For an input consisting only of well-formed statements — no block
/// delimiters at all — the scan succeeds with the depth still zero.
pub proof fn lemma_statements_scan_to_zero(lines: Seq<Seq<char>>)
    requires
        forall|j: int|
            0 <= j < lines.len() ==> is_plain_stmt_line(spec_trim(#[trigger] lines[j])) || spec_trim(
                lines[j],
            ).len() == 0,
    ensures
        scan_from(lines, 0, init_state()) matches ScanOut::Done { state, .. } && state.depth == 0
            && !state.in_comment,
{
    reveal_tokens();
    assert forall|j: int| 0 <= j < lines.len() implies is_well_bracketed_line(
        spec_trim(#[trigger] lines[j]),
    ) by {}
    assert forall|j: int|
        0 <= j < lines.len() && (is_closer_line(spec_trim(#[trigger] lines[j])) || is_else_line(
            spec_trim(lines[j]),
        )) implies depth_after(lines, j) >= 1 by {
        let l = spec_trim(lines[j]);
        if l.len() > 0 {
            lemma_suffix_last_char(l, "--"@);
            assert(l != "}"@) by {
                if l == "}"@ {
                    assert(l.len() == 1);
                }
            }
            assert(l != "} else {"@) by {
                if l == "} else {"@ {
                    assert(l[l.len() - 1] == '{');
                }
            }
            assert(l != "else {"@) by {
                if l == "else {"@ {
                    assert(l[l.len() - 1] == '{');
                }
            }
        }
    }
    lemma_depth_constant_without_blocks(lines, lines.len() as int);
    lemma_matched_blocks_scan_to_zero(lines);
}

} // verus!
