//! Unified diffs for the `--diff` log: the diff text itself comes from
//! the similar crate; colouring picks a style per line.
use vstd::prelude::*;

use colored::Colorize;

use crate::strutil::{lemma_split_no_sep, push_char, split_char, split_spec};

verus! {

/// The unified diff of two texts under two header lines; a function of
/// those four texts alone.
pub uninterp spec fn unified_diff_of(
    old_text: Seq<char>,
    new_text: Seq<char>,
    old_header: Seq<char>,
    new_header: Seq<char>,
) -> Seq<char>;

/// Relies on similar::TextDiff: a line-wise unified diff with the given
/// headers, a function of its four arguments.
#[verifier::external_body]
fn unified_diff(old_text: &str, new_text: &str, old_header: &str, new_header: &str) -> (r: String)
    ensures
        r@ == unified_diff_of(old_text@, new_text@, old_header@, new_header@),
{
    similar::TextDiff::from_lines(old_text, new_text)
        .unified_diff()
        .header(old_header, new_header)
        .to_string()
}

/// Relies on colored's Colorize::green: the text comes back styled for a
/// terminal, or bare where colouring is off, and a reset sequence inside
/// the text may be rewritten — but the styling never holds a line break,
/// so a text without one stays on one line. Which form comes back
/// depends on the terminal environment.
#[verifier::external_body]
fn paint_green(s: &str) -> (r: String)
    ensures
        !s@.contains('\n') ==> !r@.contains('\n'),
{
    s.green().to_string()
}

/// Relies on colored's Colorize::red: as with the green paint, the
/// styling never holds a line break.
#[verifier::external_body]
fn paint_red(s: &str) -> (r: String)
    ensures
        !s@.contains('\n') ==> !r@.contains('\n'),
{
    s.red().to_string()
}

/// Relies on colored's Colorize::yellow: as with the green paint, the
/// styling never holds a line break.
#[verifier::external_body]
fn paint_yellow(s: &str) -> (r: String)
    ensures
        !s@.contains('\n') ==> !r@.contains('\n'),
{
    s.yellow().to_string()
}

/// Relies on colored's Colorize::clear: an unstyled string is written
/// back verbatim, so in particular no line break appears.
#[verifier::external_body]
fn paint_clear(s: &str) -> (r: String)
    ensures
        !s@.contains('\n') ==> !r@.contains('\n'),
{
    s.clear().to_string()
}

/// The lines of a diff text: the pieces between newlines, without the
/// empty piece a trailing newline leaves behind.
pub open spec fn diff_lines(s: Seq<char>) -> Seq<Seq<char>> {
    let p = split_spec(s, '\n');
    if p.len() > 0 && p.last().len() == 0 {
        p.drop_last()
    } else {
        p
    }
}

/// Painted lines joined back into a text, one newline after each.
pub open spec fn joined_lines(pieces: Seq<Seq<char>>) -> Seq<char>
    decreases pieces.len(),
{
    if pieces.len() == 0 {
        Seq::empty()
    } else {
        joined_lines(pieces.drop_last()) + pieces.last() + seq!['\n']
    }
}

/// How a coloured diff relates to the plain one: one painted piece per
/// diff line, no piece holding a line break, rejoined with one newline
/// after each — so the coloured log has exactly one output line per
/// diff line. What the styling itself looks like depends on the
/// terminal environment, so the pieces are not pinned further.
pub open spec fn diff_colored(colored_text: Seq<char>, plain: Seq<char>) -> bool {
    exists|pieces: Seq<Seq<char>>|
        {
            &&& pieces.len() == diff_lines(plain).len()
            &&& (forall|l: int| 0 <= l < pieces.len() ==> !(#[trigger] pieces[l]).contains('\n'))
            &&& colored_text == joined_lines(pieces)
        }
}

/// Colour a unified diff line by line: additions green, removals red,
/// hunk headers yellow, the rest unstyled.
pub fn colorize_diff(diff: &mut String)
    ensures
        diff_colored(final (diff)@, old(diff)@),
{
    let ghost original = diff@;
    let ghost klines = diff_lines(original);
    let pieces = split_char(diff.as_str(), '\n');
    let ghost model = pieces@.map_values(|p: String| p@);
    let mut out = String::new();
    let mut i: usize = 0;
    proof {
        assert(model == split_spec(original, '\n'));
        lemma_split_no_sep(original, '\n');
        if model.len() > 0 && model.last().len() == 0 {
            assert(klines =~= model.drop_last());
        } else {
            assert(klines =~= model);
        }
    }
    let ghost mut acc = Seq::<Seq<char>>::empty();
    while i < pieces.len()
        invariant
            i <= pieces@.len(),
            model == pieces@.map_values(|p: String| p@),
            model == split_spec(original, '\n'),
            klines == diff_lines(original),
            klines == if model.len() > 0 && model.last().len() == 0 {
                model.drop_last()
            } else {
                model
            },
            forall|l: int| 0 <= l < model.len() ==> !(#[trigger] model[l]).contains('\n'),
            acc.len() == if i as int <= klines.len() {
                i as int
            } else {
                klines.len() as int
            },
            forall|l: int| 0 <= l < acc.len() ==> !(#[trigger] acc[l]).contains('\n'),
            out@ == joined_lines(acc),
        decreases pieces@.len() - i,
    {
        let line = &pieces[i];
        let empty_tail = i + 1 == pieces.len() && line.as_str().unicode_len() == 0;
        if !empty_tail {
            proof {
                assert(i < klines.len());
                assert(klines[i as int] == line@);
                assert(!model[i as int].contains('\n'));
            }
            let painted: String = if line.as_str().unicode_len() == 0 {
                paint_clear(line.as_str())
            } else {
                let c = line.as_str().get_char(0);
                if c == '+' {
                    paint_green(line.as_str())
                } else if c == '-' {
                    paint_red(line.as_str())
                } else if c == '@' {
                    paint_yellow(line.as_str())
                } else {
                    paint_clear(line.as_str())
                }
            };
            out.append(painted.as_str());
            push_char(&mut out, '\n');
            proof {
                let next = acc.push(painted@);
                assert(next.drop_last() =~= acc);
                assert(next.last() == painted@);
                assert(out@ =~= joined_lines(next));
                acc = next;
            }
        } else {
            proof {
                assert(i as int == klines.len());
            }
        }
        i = i + 1;
    }
    proof {
        assert(acc.len() == klines.len());
    }
    *diff = out;
}

/// The diff text to log for a changed destination: the unified diff of
/// the old and new content, coloured when the stream is a terminal. The
/// plain diff is the named unified diff exactly; the coloured one is
/// that diff's lines painted and rejoined, one output line per diff
/// line.
pub fn render_diff(
    old_text: &str,
    new_text: &str,
    old_header: &str,
    new_header: &str,
    color: bool,
) -> (r: String)
    ensures
        !color ==> r@ == unified_diff_of(old_text@, new_text@, old_header@, new_header@),
        color ==> diff_colored(
            r@,
            unified_diff_of(old_text@, new_text@, old_header@, new_header@),
        ),
{
    let mut d = unified_diff(old_text, new_text, old_header, new_header);
    if color {
        colorize_diff(&mut d);
    }
    d
}

} // verus!
