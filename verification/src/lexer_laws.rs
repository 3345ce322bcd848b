//! What holds of the text form's tokens as a whole: what skipping passes
//! over, where tokens stand, and where the end token comes.

use vstd::prelude::*;
use crate::lexer::{
    lemma_ident_end_bounds, lemma_number_end_bounds, lemma_skip_ignored_bounds,
    lemma_string_rest_bounds,
};
use crate::token_model::{
    column_at, is_white_space, line_at, line_end, next_token, skip_ignored, tokens_from,
};

verus! {

/// Whether a comment opens at `q`: `#`, or `//`.
pub open spec fn opens_comment(s: Seq<char>, q: int) -> bool {
    s[q] == '#' || (s[q] == '/' && q + 1 < s.len() && s[q + 1] == '/')
}

/// Whether position `p` lies in a comment: one opens at or before it, with
/// no line break from there up to `p`.
pub open spec fn in_comment(s: Seq<char>, p: int) -> bool {
    exists|q: int|
        0 <= q <= p && #[trigger] opens_comment(s, q) && forall|r: int|
            q <= r <= p ==> s[r] != '\n'
}

proof fn lemma_line_end_no_break(s: Seq<char>, i: int)
    requires
        0 <= i <= s.len(),
    ensures
        i <= line_end(s, i) <= s.len(),
        forall|r: int| i <= r < line_end(s, i) ==> s[r] != '\n',
    decreases s.len() - i,
{
    if i < s.len() && s[i] != '\n' {
        lemma_line_end_no_break(s, i + 1);
    }
}

/// Skipping white space and comments stops where neither is: at the end, or
/// at a character that is not white space and opens no comment; and what it
/// passes over is white space and comments only.
pub proof fn skip_ignored_passes_blanks_and_comments(s: Seq<char>, i: int)
    requires
        0 <= i <= s.len(),
    ensures
        i <= skip_ignored(s, i) <= s.len(),
        skip_ignored(s, i) < s.len() ==> !is_white_space(s[skip_ignored(s, i)]) && !opens_comment(
            s,
            skip_ignored(s, i),
        ),
        forall|p: int|
            i <= p < skip_ignored(s, i) ==> is_white_space(#[trigger] s[p]) || in_comment(s, p),
    decreases s.len() - i,
{
    lemma_skip_ignored_bounds(s, i);
    if i < s.len() {
        if is_white_space(s[i]) {
            skip_ignored_passes_blanks_and_comments(s, i + 1);
        } else if opens_comment(s, i) {
            lemma_line_end_no_break(s, i + 1);
            let e = line_end(s, i + 1);
            skip_ignored_passes_blanks_and_comments(s, e);
            assert forall|p: int| i <= p < skip_ignored(s, i) implies is_white_space(
                #[trigger] s[p],
            ) || in_comment(s, p) by {
                if p < e {
                    assert(forall|r: int| i <= r <= p ==> s[r] != '\n');
                    assert(opens_comment(s, i));
                }
            }
        }
    }
}

/// Whether position `(l1, c1)` comes before `(l2, c2)`: an earlier line, or
/// the same line and an earlier column.
pub open spec fn before(l1: nat, c1: nat, l2: nat, c2: nat) -> bool {
    l1 < l2 || (l1 == l2 && c1 < c2)
}

proof fn lemma_position_step(s: Seq<char>, a: int)
    requires
        0 <= a < s.len(),
    ensures
        before(line_at(s, a), column_at(s, a), line_at(s, a + 1), column_at(s, a + 1)),
{
}

proof fn lemma_position_order(s: Seq<char>, a: int, b: int)
    requires
        0 <= a < b <= s.len(),
    ensures
        before(line_at(s, a), column_at(s, a), line_at(s, b), column_at(s, b)),
    decreases b - a,
{
    lemma_position_step(s, b - 1);
    if a < b - 1 {
        lemma_position_order(s, a, b - 1);
    }
}

proof fn lemma_position_start(s: Seq<char>, a: int)
    requires
        0 <= a <= s.len(),
    ensures
        line_at(s, a) >= 1,
        column_at(s, a) >= 1,
    decreases a,
{
    if a > 0 {
        lemma_position_start(s, a - 1);
    }
}

/// A token that is not the end token starts where skipping stopped and
/// ends after it.
proof fn lemma_token_span(s: Seq<char>, i: int, dec: spec_fn(Seq<char>) -> u64)
    requires
        0 <= i <= s.len(),
    ensures
        next_token(s, i, dec) matches Ok((t, k)) ==> t.line == line_at(s, skip_ignored(s, i))
            && t.column == column_at(s, skip_ignored(s, i)) && k <= s.len() && (!(t.kind is Eof)
            ==> skip_ignored(s, i) < k),
{
    lemma_skip_ignored_bounds(s, i);
    let j = skip_ignored(s, i);
    if j < s.len() {
        lemma_number_end_bounds(s, j);
        lemma_ident_end_bounds(s, j + 1);
        lemma_string_rest_bounds(s, j + 1, Seq::empty(), j);
    }
}

/// The tokens of a text come in order of where they start, each at or
/// after the position reading began; lines and columns count from 1; and
/// the end token, where there is one, is the last token, after which no
/// error comes.
pub proof fn tokens_in_order(s: Seq<char>, i: int, dec: spec_fn(Seq<char>) -> u64)
    requires
        0 <= i <= s.len(),
    ensures
        forall|m: int|
            0 <= m < tokens_from(s, i, dec).0.len() ==> {
                let t = #[trigger] tokens_from(s, i, dec).0[m];
                &&& t.line >= 1 && t.column >= 1
                &&& t.line == line_at(s, i) && t.column == column_at(s, i) || before(
                    line_at(s, i),
                    column_at(s, i),
                    t.line,
                    t.column,
                )
            },
        forall|m1: int, m2: int|
            0 <= m1 < m2 < tokens_from(s, i, dec).0.len() ==> before(
                (#[trigger] tokens_from(s, i, dec).0[m1]).line,
                tokens_from(s, i, dec).0[m1].column,
                (#[trigger] tokens_from(s, i, dec).0[m2]).line,
                tokens_from(s, i, dec).0[m2].column,
            ),
        forall|m: int|
            0 <= m < tokens_from(s, i, dec).0.len() && (#[trigger] tokens_from(
                s,
                i,
                dec,
            ).0[m]).kind is Eof ==> m == tokens_from(s, i, dec).0.len() - 1 && tokens_from(
                s,
                i,
                dec,
            ).1 is None,
        tokens_from(s, i, dec).1 is None ==> tokens_from(s, i, dec).0.len() > 0 && tokens_from(
            s,
            i,
            dec,
        ).0.last().kind is Eof,
    decreases s.len() - i,
{
    lemma_token_span(s, i, dec);
    lemma_skip_ignored_bounds(s, i);
    let j = skip_ignored(s, i);
    lemma_position_start(s, j);
    if i < j {
        lemma_position_order(s, i, j);
    }
    if let Ok((t, k)) = next_token(s, i, dec) {
        if !(t.kind is Eof) && i < k <= s.len() {
            tokens_in_order(s, k, dec);
            lemma_position_order(s, j, k);
            let rest = tokens_from(s, k, dec).0;
            let all = tokens_from(s, i, dec).0;
            assert(all == seq![t] + rest);
            assert forall|m: int| 0 < m < all.len() implies all[m] == rest[m - 1] by {}
            assert forall|m: int| 0 <= m < all.len() implies {
                let u = #[trigger] all[m];
                &&& u.line >= 1 && u.column >= 1
                &&& u.line == line_at(s, i) && u.column == column_at(s, i) || before(
                    line_at(s, i),
                    column_at(s, i),
                    u.line,
                    u.column,
                )
            } by {
                if m > 0 {
                    assert(all[m] == rest[m - 1]);
                }
            }
            assert forall|m1: int, m2: int| 0 <= m1 < m2 < all.len() implies before(
                (#[trigger] all[m1]).line,
                all[m1].column,
                (#[trigger] all[m2]).line,
                all[m2].column,
            ) by {
                assert(all[m2] == rest[m2 - 1]);
                if m1 > 0 {
                    assert(all[m1] == rest[m1 - 1]);
                }
            }
            assert forall|m: int| 0 <= m < all.len() && (#[trigger] all[m]).kind is Eof implies m
                == all.len() - 1 && tokens_from(s, i, dec).1 is None by {
                if m > 0 {
                    assert(all[m] == rest[m - 1]);
                }
            }
        }
    }
}

} // verus!
