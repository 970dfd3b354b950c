//! Render a list of text lines with a uniform-width box around them.

use vstd::prelude::*;
use vstd::pervasive::VecAdditionalExecFns;
use vstd::string::StrSliceExecFns;
use vstd::string::StringExecFns;

verus! {

/// The character `c` repeated `n` times.
pub open spec fn repeat_char(c: char, n: nat) -> Seq<char>
    decreases n,
{
    if n == 0 {
        Seq::empty()
    } else {
        repeat_char(c, (n - 1) as nat).push(c)
    }
}

/// The greatest length among the first `k` lines, in characters.
pub open spec fn spec_max_len_prefix(lines: Seq<Seq<char>>, k: int) -> nat
    decreases k,
{
    if k <= 0 {
        0
    } else {
        let rest = spec_max_len_prefix(lines, k - 1);
        if lines[k - 1].len() >= rest {
            lines[k - 1].len()
        } else {
            rest
        }
    }
}

/// The greatest line length, in characters; 0 for no lines.
pub open spec fn spec_max_len(lines: Seq<Seq<char>>) -> nat {
    spec_max_len_prefix(lines, lines.len() as int)
}

/// One content line framed for a box of inner width `width`: a border, the
/// line, filler spaces up to the width, a border.
pub open spec fn boxed_line(line: Seq<char>, width: nat) -> Seq<char> {
    seq!['│', ' '] + line + repeat_char(' ', (width - line.len()) as nat) + seq![' ', '│']
}

/// The box's top border for inner width `width`.
pub open spec fn top_border(width: nat) -> Seq<char> {
    seq!['┌', '─'] + repeat_char('─', width) + seq!['─', '┐']
}

/// The box's bottom border for inner width `width`.
pub open spec fn bottom_border(width: nat) -> Seq<char> {
    seq!['└', '─'] + repeat_char('─', width) + seq!['─', '┘']
}

/// The views of a sequence of strings.
pub open spec fn lines_view(v: Seq<String>) -> Seq<Seq<char>> {
    Seq::new(v.len(), |i: int| v[i]@)
}

/// What the box renderer produces: the top border, every line framed and
/// padded to the width of the longest, and the bottom border.
pub open spec fn spec_surrounding_box(lines: Seq<Seq<char>>) -> Seq<Seq<char>> {
    let width = spec_max_len(lines);
    seq![top_border(width)] + Seq::new(lines.len(), |i: int| boxed_line(lines[i], width)) + seq![
        bottom_border(width),
    ]
}

proof fn lemma_max_len_prefix_bound(lines: Seq<Seq<char>>, j: int, k: int)
    requires
        0 <= j < k,
    ensures
        lines[j].len() <= spec_max_len_prefix(lines, k),
    decreases k,
{
    if j < k - 1 {
        lemma_max_len_prefix_bound(lines, j, k - 1);
    }
}

/// Append `n` copies of the single-character string `piece` to `s`.
fn append_repeated(s: &mut String, piece: &str, n: usize)
    requires
        piece@.len() == 1,
    ensures
        final(s)@ == old(s)@ + repeat_char(piece@[0], n as nat),
{
    let ghost base = s@;
    let ghost c = piece@[0];
    let mut j: usize = 0;
    proof {
        assert(s@ =~= base + repeat_char(c, 0));
    }
    while j < n
        invariant
            j <= n,
            piece@.len() == 1,
            c == piece@[0],
            s@ == base + repeat_char(c, j as nat),
        decreases n - j,
    {
        s.append(piece);
        j = j + 1;
        proof {
            assert(piece@ =~= seq![c]);
            assert(repeat_char(c, j as nat) == repeat_char(c, (j - 1) as nat).push(c));
            assert(s@ =~= base + repeat_char(c, j as nat));
        }
    }
}

/// Frame the lines with a surrounding box: the first and last line of the
/// result are borders, and every original line is padded with spaces to the
/// width of the longest, with a border on each side. Widths count
/// characters.
pub fn get_surrounding_box(lines_of_text: &mut Vec<String>)
    ensures
        lines_view(final(lines_of_text)@) == spec_surrounding_box(
            lines_view(old(lines_of_text)@),
        ),
{
    let ghost lv = lines_view(lines_of_text@);
    let ghost n0 = lines_of_text@.len();

    // the width of the widest line
    let mut max_len: usize = 0;
    let mut i: usize = 0;
    while i < lines_of_text.len()
        invariant
            i <= lines_of_text@.len(),
            lv == lines_view(lines_of_text@),
            max_len as nat == spec_max_len_prefix(lv, i as int),
        decreases lines_of_text@.len() - i,
    {
        let l = lines_of_text[i].as_str().unicode_len();
        proof {
            assert(lv[i as int] == lines_of_text@[i as int]@);
        }
        if l > max_len {
            max_len = l;
        }
        i = i + 1;
    }
    proof {
        assert(max_len as nat == spec_max_len(lv));
    }
    let ghost width = max_len as nat;

    // the horizontal border segment
    let mut horizontal = String::new();
    proof {
        reveal_strlit("─");
    }
    append_repeated(&mut horizontal, "─", max_len);

    // frame each line, padded to the width
    let mut k: usize = 0;
    while k < lines_of_text.len()
        invariant
            k <= lines_of_text@.len(),
            lines_of_text@.len() == n0,
            lv.len() == n0,
            max_len as nat == width,
            width == spec_max_len(lv),
            forall|j: int| k <= j < n0 ==> (#[trigger] lines_of_text@[j])@ == lv[j],
            forall|j: int|
                0 <= j < k ==> (#[trigger] lines_of_text@[j])@ == boxed_line(lv[j], width),
        decreases lines_of_text@.len() - k,
    {
        proof {
            lemma_max_len_prefix_bound(lv, k as int, n0 as int);
        }
        let line_len = lines_of_text[k].as_str().unicode_len();
        let mut nl = String::new();
        proof {
            reveal_strlit("│ ");
            reveal_strlit(" │");
            reveal_strlit(" ");
        }
        nl.append("│ ");
        nl.append(lines_of_text[k].as_str());
        append_repeated(&mut nl, " ", max_len - line_len);
        nl.append(" │");
        proof {
            assert("│ "@ =~= seq!['│', ' ']);
            assert(" │"@ =~= seq![' ', '│']);
            assert(nl@ =~= boxed_line(lv[k as int], width));
        }
        lines_of_text.set(k, nl);
        k = k + 1;
    }

    // the borders
    let mut top = String::new();
    let mut bottom = String::new();
    proof {
        reveal_strlit("┌─");
        reveal_strlit("─┐");
        reveal_strlit("└─");
        reveal_strlit("─┘");
    }
    top.append("┌─");
    top.append(horizontal.as_str());
    top.append("─┐");
    bottom.append("└─");
    bottom.append(horizontal.as_str());
    bottom.append("─┘");
    proof {
        assert("┌─"@ =~= seq!['┌', '─']);
        assert("─┐"@ =~= seq!['─', '┐']);
        assert("└─"@ =~= seq!['└', '─']);
        assert("─┘"@ =~= seq!['─', '┘']);
        assert(top@ =~= top_border(width));
        assert(bottom@ =~= bottom_border(width));
    }
    lines_of_text.insert(0, top);
    lines_of_text.push(bottom);

    proof {
        assert(lines_view(lines_of_text@) =~= spec_surrounding_box(lv));
    }
}

} // verus!
