//! What holds of the load-path block among the lines of a file, and of a file
//! rewritten around a new block.
use crate::search_paths::{
    block, block_upto, closed, closed_upto, closing_from, collected, has_block, has_marker_upto,
    indented, is_block_text, is_closing, is_marker, lemma_block_nonempty, lemma_closing_bounds,
    lemma_closing_from, patched, patched_parts, rendered, replacement, span, spliced_upto,
};
use crate::text::{
    concat, contents, ending_of, is_ended, join, leading, line_of, lines, raw_lines, repeated,
    split, without, without_cr,
};
use crate::text_laws::{
    is_line, law_concat_of_raw_lines, law_join_of_split, law_raw_lines_of_concat,
    lemma_concat_add, lemma_line_and_ending, lemma_prefix_keeps_char, lemma_prefix_keeps_infix,
    lemma_split_holds, lemma_without_holds,
};
use vstd::prelude::*;

verus! {

/// Line `j` lies in the span that the marker line `i` opens.
pub open spec fn in_span(lines: Seq<Seq<char>>, i: int, j: int) -> bool {
    &&& 0 <= i < lines.len()
    &&& is_marker(lines[i])
    &&& i <= j <= closing_from(lines, i + 1)
}

/// Line `j` lies in the span of one of the marker lines among the first `n`.
pub open spec fn in_block_upto(lines: Seq<Seq<char>>, n: int, j: int) -> bool {
    exists|i: int| 0 <= i < n && #[trigger] in_span(lines, i, j)
}

/// The index of the first marker line at or behind `from`, or the number of
/// lines where there is none.
pub open spec fn marker_from(lines: Seq<Seq<char>>, from: int) -> int
    decreases lines.len() - from,
{
    if from >= lines.len() {
        lines.len() as int
    } else if is_marker(lines[from]) {
        from
    } else {
        marker_from(lines, from + 1)
    }
}

/// The index of the first marker line of the file.
pub open spec fn first_marker(lines: Seq<Seq<char>>) -> int {
    marker_from(lines, 0)
}

/// The parts among the first `n` that do not belong to the block, in order.
/// There is one part for every line, and `lines` says which of them belong
/// to the block.
pub open spec fn kept_upto(lines: Seq<Seq<char>>, parts: Seq<Seq<char>>, n: int) -> Seq<Seq<char>>
    decreases n,
{
    if n <= 0 {
        Seq::<Seq<char>>::empty()
    } else if block(lines).contains(n - 1) {
        kept_upto(lines, parts, n - 1)
    } else {
        kept_upto(lines, parts, n - 1).push(parts[n - 1])
    }
}

/// The parts that do not belong to the block, in order.
pub open spec fn kept(lines: Seq<Seq<char>>, parts: Seq<Seq<char>>) -> Seq<Seq<char>> {
    kept_upto(lines, parts, lines.len() as int)
}

/// Where the first marker line stands: no marker line before it, and a
/// marker line there unless the file has none.
pub proof fn lemma_marker_from(lines: Seq<Seq<char>>, from: int)
    requires
        0 <= from <= lines.len(),
    ensures
        from <= marker_from(lines, from) <= lines.len(),
        marker_from(lines, from) < lines.len() ==> is_marker(lines[marker_from(lines, from)]),
        forall|k: int| from <= k < marker_from(lines, from) ==> !is_marker(#[trigger] lines[k]),
    decreases lines.len() - from,
{
    if from < lines.len() && !is_marker(lines[from]) {
        lemma_marker_from(lines, from + 1);
    }
}

/// A line belongs to the spans of the first `n` lines exactly where it lies
/// in the span of a marker line among them.
pub proof fn lemma_block_membership(lines: Seq<Seq<char>>, n: int, j: int)
    requires
        0 <= n <= lines.len(),
    ensures
        block_upto(lines, n).contains(j) <==> in_block_upto(lines, n, j),
    decreases n,
{
    if n > 0 {
        lemma_block_membership(lines, n - 1, j);
        lemma_closing_bounds(lines, n);
        let before = block_upto(lines, n - 1);
        let all = block_upto(lines, n);
        if is_marker(lines[n - 1]) {
            let own = span(lines, n - 1);
            assert(all == before + own);
            if in_span(lines, n - 1, j) {
                assert(own[j - (n - 1)] == j);
                assert(all[before.len() + j - (n - 1)] == j);
            }
            if before.contains(j) {
                let k = choose|k: int| 0 <= k < before.len() && before[k] == j;
                assert(all[k] == j);
            }
            if all.contains(j) {
                let k = choose|k: int| 0 <= k < all.len() && all[k] == j;
                if k < before.len() {
                    assert(before[k] == j);
                } else {
                    assert(own[k - before.len()] == j);
                    assert(in_span(lines, n - 1, j));
                }
            }
        }
        if in_block_upto(lines, n, j) {
            let i = choose|i: int| 0 <= i < n && #[trigger] in_span(lines, i, j);
            if i < n - 1 {
                assert(in_block_upto(lines, n - 1, j));
            }
        }
        if in_block_upto(lines, n - 1, j) {
            let i = choose|i: int| 0 <= i < n - 1 && #[trigger] in_span(lines, i, j);
            assert(in_span(lines, i, j));
        }
    }
}

/// The block starts with the first marker line.
pub proof fn lemma_block_head(lines: Seq<Seq<char>>, n: int)
    requires
        0 <= n <= lines.len(),
        first_marker(lines) < n,
    ensures
        block_upto(lines, n).len() > 0,
        block_upto(lines, n)[0] == first_marker(lines),
    decreases n,
{
    lemma_marker_from(lines, 0);
    let m = first_marker(lines);
    lemma_closing_bounds(lines, n);
    if m == n - 1 {
        assert(has_marker_upto(lines, n - 1) ==> false) by {
            if has_marker_upto(lines, n - 1) {
                let i = choose|i: int|
                    0 <= i < n - 1 && i < lines.len() && is_marker(#[trigger] lines[i]);
                assert(!is_marker(lines[i]));
            }
        }
        lemma_block_nonempty(lines, n - 1);
        assert(block_upto(lines, n - 1) =~= Seq::<int>::empty());
        assert(span(lines, n - 1)[0] == n - 1);
        assert(block_upto(lines, n) =~= span(lines, n - 1));
    } else {
        lemma_block_head(lines, n - 1);
        if is_marker(lines[n - 1]) {
            assert(block_upto(lines, n)[0] == block_upto(lines, n - 1)[0]);
        }
    }
}

/// A file with a marker line has its first marker line inside the file, and
/// the block starts there.
pub proof fn lemma_first_marker(lines: Seq<Seq<char>>)
    requires
        has_block(lines),
    ensures
        0 <= first_marker(lines) < lines.len(),
        is_marker(lines[first_marker(lines)]),
        forall|k: int| 0 <= k < first_marker(lines) ==> !is_marker(#[trigger] lines[k]),
        block(lines).len() > 0,
        block(lines)[0] == first_marker(lines),
{
    lemma_marker_from(lines, 0);
    let i = choose|i: int| 0 <= i < lines.len() && i < lines.len() && is_marker(#[trigger] lines[i]);
    if first_marker(lines) >= lines.len() {
        assert(!is_marker(lines[i]));
    }
    lemma_block_head(lines, lines.len() as int);
}

/// No line before the first marker line belongs to the block, and every
/// marker line does.
pub proof fn lemma_block_lines(lines: Seq<Seq<char>>, j: int)
    requires
        0 <= j < lines.len(),
    ensures
        j < first_marker(lines) ==> !block(lines).contains(j),
        is_marker(lines[j]) ==> block(lines).contains(j),
{
    lemma_marker_from(lines, 0);
    lemma_block_membership(lines, lines.len() as int, j);
    lemma_closing_bounds(lines, j + 1);
    if is_marker(lines[j]) {
        assert(in_span(lines, j, j));
    }
    if j < first_marker(lines) && in_block_upto(lines, lines.len() as int, j) {
        let i = choose|i: int| 0 <= i < lines.len() && #[trigger] in_span(lines, i, j);
        assert(!is_marker(lines[i]));
    }
}

/// The first `n` parts around a new block, told by where the block starts:
/// before that line they are the parts of the file, and behind it they are
/// the kept parts with the new text put in at that place.
pub proof fn lemma_spliced(lines: Seq<Seq<char>>, parts: Seq<Seq<char>>, text: Seq<char>, n: int)
    requires
        has_block(lines),
        parts.len() == lines.len(),
        0 <= n <= lines.len(),
    ensures
        n <= first_marker(lines) ==> spliced_upto(lines, parts, text, n) == parts.take(n),
        n <= first_marker(lines) ==> kept_upto(lines, parts, n) == parts.take(n),
        n > first_marker(lines) ==> kept_upto(lines, parts, n).len() >= first_marker(lines),
        n > first_marker(lines) ==> kept_upto(lines, parts, n).take(first_marker(lines))
            == parts.take(first_marker(lines)),
        n > first_marker(lines) ==> spliced_upto(lines, parts, text, n) == kept_upto(
            lines,
            parts,
            n,
        ).insert(first_marker(lines), text),
    decreases n,
{
    lemma_first_marker(lines);
    let m = first_marker(lines);
    if n > 0 {
        lemma_spliced(lines, parts, text, n - 1);
        lemma_block_lines(lines, n - 1);
        let before = spliced_upto(lines, parts, text, n - 1);
        let kept_before = kept_upto(lines, parts, n - 1);
        if n <= m {
            assert(parts.take(n) =~= parts.take(n - 1).push(parts[n - 1]));
        } else if n - 1 == m {
            assert(kept_upto(lines, parts, n) == kept_before);
            assert(before.push(text) =~= kept_before.insert(m, text));
            assert(kept_before.take(m) =~= parts.take(m));
        } else if block(lines).contains(n - 1) {
        } else {
            assert(before.push(parts[n - 1]) =~= kept_before.push(parts[n - 1]).insert(m, text));
            assert(kept_before.push(parts[n - 1]).take(m) =~= kept_before.take(m));
        }
    } else {
        assert(parts.take(0) =~= Seq::<Seq<char>>::empty());
    }
}

/// Whether `written` is the file `content` with a new block in place of the
/// old one and every other character kept. Up to the line where the block
/// began the two are the same text. There `written` has the new block, with
/// the ending of the line that closed the first span. Behind it `written`
/// has the lines of `content` that did not belong to the block, each with
/// its own ending, in their order, and nothing else.
pub open spec fn is_patch_around_block(
    content: Seq<char>,
    serialized: Seq<char>,
    written: Seq<char>,
) -> bool {
    let raw = raw_lines(content);
    let first = block(lines(content))[0];
    let before = concat(raw.take(first));
    &&& content == before + concat(raw.skip(first))
    &&& written == before + replacement(raw, serialized) + concat(
        kept(lines(content), raw).skip(first),
    )
}

/// Rewriting a file around a new block keeps every character outside the
/// old block. The lines of the file with their endings, written one after
/// another, are the file. In the new file the lines before the block stand
/// as they were, then comes the new block, so the file is the same up to
/// the line where the block began; and behind the new block stand the lines
/// that did not belong to the old block, each with its own ending, in their
/// order. Nothing else is in the new file.
pub proof fn law_patch_keeps_other_lines(content: Seq<char>, serialized: Seq<char>)
    requires
        has_block(lines(content)),
    ensures
        ({
            let raw = raw_lines(content);
            let first = block(lines(content))[0];
            let new = patched_parts(raw, serialized);
            let others = kept(lines(content), raw);
            &&& concat(raw) == content
            &&& 0 <= first < new.len()
            &&& new[first] == replacement(raw, serialized)
            &&& new.take(first) == raw.take(first)
            &&& new.remove(first) == others
            &&& is_patch_around_block(content, serialized, patched(content, serialized))
        }),
{
    let raw = raw_lines(content);
    let all = lines(content);
    let text = replacement(raw, serialized);
    law_concat_of_raw_lines(content);
    lemma_first_marker(all);
    let m = first_marker(all);
    lemma_spliced(all, raw, text, all.len() as int);
    let new = patched_parts(raw, serialized);
    let others = kept(all, raw);
    assert(new == others.insert(m, text));
    assert(new.remove(m) =~= others);
    assert(new.take(m) =~= others.take(m));
    assert(raw =~= raw.take(m) + raw.skip(m));
    lemma_concat_add(raw.take(m), raw.skip(m));
    assert(new =~= raw.take(m) + seq![text] + others.skip(m));
    lemma_concat_add(raw.take(m) + seq![text], others.skip(m));
    lemma_concat_add(raw.take(m), seq![text]);
    let one = seq![text];
    assert(one.len() == 1 && one.last() == text);
    assert(one.drop_last().len() == 0);
    assert(concat(one.drop_last()) =~= Seq::<char>::empty());
    assert(concat(one) =~= text);
}

/// A file whose only marker line is line `m`, closed behind it: the block
/// is the span of that line.
pub proof fn lemma_single_block(lines: Seq<Seq<char>>, m: int, n: int)
    requires
        0 <= m < lines.len(),
        0 <= n <= lines.len(),
        is_marker(lines[m]),
        forall|k: int| 0 <= k < lines.len() && k != m ==> !is_marker(#[trigger] lines[k]),
    ensures
        n <= m ==> block_upto(lines, n) == Seq::<int>::empty(),
        n > m ==> block_upto(lines, n) == span(lines, m),
        closing_from(lines, m + 1) < lines.len() ==> closed_upto(lines, n),
    decreases n,
{
    if n > 0 {
        lemma_single_block(lines, m, n - 1);
        if n - 1 == m {
            assert(Seq::<int>::empty() + span(lines, m) =~= span(lines, m));
        }
    }
}

/// The parts kept of a file with one span, from line `m` to line `c`: the
/// parts before the span, and the parts behind it.
pub proof fn lemma_kept_around_span(lines: Seq<Seq<char>>, parts: Seq<Seq<char>>, m: int, n: int)
    requires
        0 <= m < lines.len(),
        0 <= n <= lines.len(),
        parts.len() == lines.len(),
        is_marker(lines[m]),
        forall|k: int| 0 <= k < lines.len() && k != m ==> !is_marker(#[trigger] lines[k]),
        closing_from(lines, m + 1) < lines.len(),
    ensures
        kept_upto(lines, parts, n) == if n <= m {
            parts.take(n)
        } else if n <= closing_from(lines, m + 1) + 1 {
            parts.take(m)
        } else {
            parts.take(m) + parts.subrange(closing_from(lines, m + 1) + 1, n)
        },
    decreases n,
{
    let c = closing_from(lines, m + 1);
    lemma_closing_bounds(lines, m + 1);
    lemma_single_block(lines, m, lines.len() as int);
    let at = block(lines);
    assert(at == span(lines, m));
    if n > 0 {
        lemma_kept_around_span(lines, parts, m, n - 1);
        let j = n - 1;
        if m <= j <= c {
            assert(at[j - m] == j);
            if j == m {
                assert(parts.take(j) =~= parts.take(m));
            }
        } else {
            if at.contains(j) {
                let i = choose|i: int| 0 <= i < at.len() && at[i] == j;
                assert(at[i] == m + i);
            }
            if j < m {
                assert(parts.take(n) =~= parts.take(j).push(parts[j]));
            } else if j == c + 1 {
                assert(parts.take(m).push(parts[j]) =~= parts.take(m) + parts.subrange(c + 1, n));
            } else {
                assert((parts.take(m) + parts.subrange(c + 1, j)).push(parts[j]) =~= parts.take(m)
                    + parts.subrange(c + 1, n));
            }
        }
    } else {
        assert(parts.take(0) =~= Seq::<Seq<char>>::empty());
    }
}

/// For a file with one block in one span, rewriting changes the span and
/// nothing else: the file is what stands before the span, the lines of the
/// span, and what stands behind it; and the new file is what stood before
/// the span, the new block with the ending of the line that closed the
/// span, and what stood behind the span. Line endings outside the span stay
/// as they are, a line feed at the end of the file too.
pub proof fn law_patch_changes_the_span_alone(content: Seq<char>, serialized: Seq<char>)
    requires
        has_block(lines(content)),
        closed(lines(content)),
        forall|k: int|
            0 <= k < lines(content).len() && k != block(lines(content))[0] ==> !is_marker(
                #[trigger] lines(content)[k],
            ),
    ensures
        ({
            let raw = raw_lines(content);
            let all = lines(content);
            let first = block(all)[0];
            let last = closing_from(all, first + 1);
            let before = concat(raw.take(first));
            let behind = concat(raw.skip(last + 1));
            &&& first < last < raw.len()
            &&& content == before + concat(raw.subrange(first, last + 1)) + behind
            &&& patched(content, serialized) == before + rendered(
                serialized,
                leading(all[first], '\t'),
            ) + ending_of(raw[last]) + behind
        }),
{
    let raw = raw_lines(content);
    let all = lines(content);
    law_patch_keeps_other_lines(content, serialized);
    lemma_first_marker(all);
    let m = first_marker(all);
    let c = closing_from(all, m + 1);
    lemma_closing_bounds(all, m + 1);
    assert(c < all.len());
    lemma_kept_around_span(all, raw, m, all.len() as int);
    let others = kept(all, raw);
    assert(others.skip(m) =~= raw.skip(c + 1));
    assert(raw =~= raw.take(m) + raw.subrange(m, c + 1) + raw.skip(c + 1));
    lemma_concat_add(raw.take(m) + raw.subrange(m, c + 1), raw.skip(c + 1));
    lemma_concat_add(raw.take(m), raw.subrange(m, c + 1));
    let before = concat(raw.take(m));
    let behind = concat(raw.skip(c + 1));
    let new_block = rendered(serialized, leading(all[m], '\t'));
    assert(before + (new_block + ending_of(raw[c])) + behind =~= before + new_block + ending_of(
        raw[c],
    ) + behind);
}

/// Every kept part is the part of a line that does not belong to the block,
/// and only the last kept part can be the part of the last line.
pub proof fn lemma_kept_parts(lines: Seq<Seq<char>>, parts: Seq<Seq<char>>, n: int, k: int) -> (j:
    int)
    requires
        0 <= n <= lines.len(),
        0 <= k < kept_upto(lines, parts, n).len(),
    ensures
        0 <= j < n,
        kept_upto(lines, parts, n)[k] == parts[j],
        !block(lines).contains(j),
        j < n - 1 || k == kept_upto(lines, parts, n).len() - 1,
    decreases n,
{
    if block(lines).contains(n - 1) {
        lemma_kept_parts(lines, parts, n - 1, k)
    } else if k < kept_upto(lines, parts, n - 1).len() {
        lemma_kept_parts(lines, parts, n - 1, k)
    } else {
        n - 1
    }
}

/// No part of the span of the first marker line is kept.
pub proof fn lemma_kept_skips_span(lines: Seq<Seq<char>>, parts: Seq<Seq<char>>, n: int)
    requires
        has_block(lines),
        first_marker(lines) <= n <= closing_from(lines, first_marker(lines) + 1) + 1,
        n <= lines.len(),
    ensures
        kept_upto(lines, parts, n) == kept_upto(lines, parts, first_marker(lines)),
    decreases n,
{
    let m = first_marker(lines);
    lemma_first_marker(lines);
    if n > m {
        lemma_kept_skips_span(lines, parts, n - 1);
        lemma_block_membership(lines, lines.len() as int, n - 1);
        assert(in_span(lines, m, n - 1));
    }
}

/// The marker word neither holds a carriage return nor starts with a tab.
pub proof fn lemma_marker_word()
    ensures
        "SearchPaths"@.len() == 11,
        "SearchPaths"@[0] == 'S',
        !"SearchPaths"@.contains('\r'),
{
    reveal_strlit("SearchPaths");
    let word = "SearchPaths"@;
    assert forall|i: int| 0 <= i < word.len() implies word[i] != '\r' by {
        if i == 0 {
        } else if i == 1 {
        } else if i == 2 {
        } else if i == 3 {
        } else if i == 4 {
        } else if i == 5 {
        } else if i == 6 {
        } else if i == 7 {
        } else if i == 8 {
        } else if i == 9 {
        } else {
            assert(i == 10);
        }
    }
}

/// The pieces of a text as lines: every piece but the last with `sep` behind
/// it, and the last with `end` behind it.
pub open spec fn with_endings(pieces: Seq<Seq<char>>, sep: Seq<char>, end: Seq<char>) -> Seq<
    Seq<char>,
> {
    Seq::new(
        pieces.len(),
        |k: int|
            if k < pieces.len() - 1 {
                pieces[k] + sep
            } else {
                pieces[k] + end
            },
    )
}

/// Pieces joined by a separator, with an ending behind them, are the pieces
/// with their endings written one after another.
pub proof fn lemma_join_with_endings(pieces: Seq<Seq<char>>, sep: Seq<char>, end: Seq<char>)
    requires
        pieces.len() >= 1,
    ensures
        concat(with_endings(pieces, sep, end)) == join(pieces, sep) + end,
    decreases pieces.len(),
{
    let all = with_endings(pieces, sep, end);
    if pieces.len() == 1 {
        assert(all.drop_last().len() == 0);
        assert(concat(all.drop_last()) =~= Seq::<char>::empty());
        assert(concat(all) =~= pieces[0] + end);
    } else {
        let front = pieces.drop_last();
        lemma_join_with_endings(front, sep, sep);
        assert(all.drop_last() =~= with_endings(front, sep, sep));
        assert(all.last() == pieces.last() + end);
        assert(join(front, sep) + sep + (pieces.last() + end) =~= join(front, sep) + sep
            + pieces.last() + end);
    }
}

/// The pieces of a serialized text without carriage returns, indented: each
/// is a marker line or a closing line exactly where the piece it was made
/// from is one, holds no line feed, and does not end in a carriage return.
pub proof fn lemma_indented_pieces(serialized: Seq<char>, tabs: nat)
    requires
        !serialized.contains('\r'),
    ensures
        ({
            let cut = split(without(serialized, '"'), '\n');
            let pieces = indented(cut, tabs);
            &&& pieces.len() == cut.len()
            &&& pieces.len() >= 1
            &&& forall|k: int|
                0 <= k < pieces.len() ==> {
                    &&& is_marker(#[trigger] pieces[k]) == is_marker(cut[k])
                    &&& is_closing(pieces[k]) == is_closing(cut[k])
                    &&& !pieces[k].contains('\n')
                    &&& without_cr(pieces[k]) == pieces[k]
                }
        }),
{
    let bare = without(serialized, '"');
    let cut = split(bare, '\n');
    let pieces = indented(cut, tabs);
    lemma_marker_word();
    law_join_of_split(bare, '\n');
    assert forall|k: int| 0 <= k < pieces.len() implies {
        &&& is_marker(#[trigger] pieces[k]) == is_marker(cut[k])
        &&& is_closing(pieces[k]) == is_closing(cut[k])
        &&& !pieces[k].contains('\n')
        &&& without_cr(pieces[k]) == pieces[k]
    } by {
        lemma_prefix_keeps_infix(cut[k], "SearchPaths"@, '\t', tabs);
        lemma_prefix_keeps_char(cut[k], '}', '\t', tabs);
        lemma_prefix_keeps_char(cut[k], '\n', '\t', tabs);
        lemma_prefix_keeps_char(cut[k], '\r', '\t', tabs);
        assert(!cut[k].contains('\n'));
        if cut[k].contains('\r') {
            lemma_split_holds(bare, '\n', k, '\r');
            lemma_without_holds(serialized, '"', '\r');
        }
        let piece = pieces[k];
        if piece.len() > 0 && piece.last() == '\r' {
            assert(piece[piece.len() - 1] == '\r');
        }
    }
}

/// Pieces without line feeds, with their endings: each is a line that holds
/// its piece. Every one but the last has its line feed, and the last has it
/// where the ending is not empty.
pub proof fn lemma_pieces_as_lines(pieces: Seq<Seq<char>>, end: Seq<char>, k: int)
    requires
        0 <= k < pieces.len(),
        !pieces[k].contains('\n'),
        without_cr(pieces[k]) == pieces[k],
        end == Seq::<char>::empty() || end == seq!['\n'] || end == seq!['\r', '\n'],
    ensures
        ({
            let full = with_endings(pieces, seq!['\n'], end)[k];
            &&& line_of(full) == pieces[k]
            &&& forall|i: int| 0 <= i < full.len() - 1 ==> full[i] != '\n'
            &&& (k < pieces.len() - 1 || end.len() > 0) ==> is_line(full) && is_ended(full)
        }),
{
    let nl = seq!['\n'];
    let piece = pieces[k];
    let full = with_endings(pieces, nl, end)[k];
    assert forall|i: int| 0 <= i < piece.len() implies piece[i] != '\n' by {
        if piece[i] == '\n' {
            assert(piece.contains('\n'));
        }
    }
    if k < pieces.len() - 1 {
        assert(full == piece + nl);
        assert(full.drop_last() =~= piece);
    } else if end == seq!['\n'] {
        assert(full.drop_last() =~= piece);
    } else if end == seq!['\r', '\n'] {
        assert(full.drop_last() =~= piece.push('\r'));
        assert(piece.push('\r').drop_last() =~= piece);
    } else {
        assert(full =~= piece);
        if piece.len() > 0 {
            assert(piece[piece.len() - 1] != '\n');
        }
    }
}

/// The pieces of the new block in a file: the pieces of the serialized
/// text, indented as deep as the first marker line.
pub open spec fn new_pieces(content: Seq<char>, serialized: Seq<char>) -> Seq<Seq<char>> {
    let old_lines = lines(content);
    indented(
        split(without(serialized, '"'), '\n'),
        leading(old_lines[block(old_lines)[0]], '\t'),
    )
}

/// The parts that the rewritten file is made of: the lines before the block,
/// the pieces of the new block as lines, and the kept lines behind the
/// block. Written one after another they are the new file. Every part but
/// the last is a line with its line feed, and the last holds no line feed
/// but at its end. The parts of the new block hold its pieces, and no other
/// part holds a marker line.
#[verifier::rlimit(40)]
pub proof fn lemma_parts_of_patched(content: Seq<char>, serialized: Seq<char>) -> (all: Seq<
    Seq<char>,
>)
    requires
        has_block(lines(content)),
        closed(lines(content)),
        !serialized.contains('\r'),
    ensures
        ({
            let m = block(lines(content))[0];
            let pieces = new_pieces(content, serialized);
            &&& patched(content, serialized) == concat(all)
            &&& 0 <= m
            &&& all.len() >= m + pieces.len()
            &&& pieces.len() >= 1
            &&& forall|k: int|
                0 <= k < all.len() ==> {
                    &&& forall|i: int| 0 <= i < (#[trigger] all[k]).len() - 1 ==> all[k][i] != '\n'
                    &&& k < all.len() - 1 ==> is_line(all[k]) && is_ended(all[k])
                    &&& (k < m || k >= m + pieces.len()) ==> !is_marker(line_of(all[k]))
                        && all[k].len() > 0
                    &&& m <= k < m + pieces.len() ==> line_of(all[k]) == pieces[k - m]
                }
        }),
{
    let nl = seq!['\n'];
    let raw = raw_lines(content);
    let old_lines = lines(content);
    law_concat_of_raw_lines(content);
    lemma_first_marker(old_lines);
    let m = first_marker(old_lines);
    let c = closing_from(old_lines, m + 1);
    lemma_closing_bounds(old_lines, m + 1);
    assert(c < old_lines.len());
    let end = ending_of(raw[c]);
    lemma_line_and_ending(raw[c]);
    let tabs = leading(old_lines[m], '\t');
    let pieces = new_pieces(content, serialized);
    lemma_indented_pieces(serialized, tabs);
    let last = pieces.len() - 1;
    let text = rendered(serialized, tabs) + end;
    assert(text == replacement(raw, serialized));
    let others = kept(old_lines, raw);
    law_patch_keeps_other_lines(content, serialized);
    lemma_spliced(old_lines, raw, text, old_lines.len() as int);
    let a = raw.take(m);
    assert(others.take(m) == a);
    let b = others.skip(m);
    let mid = with_endings(pieces, nl, end);
    lemma_join_with_endings(pieces, nl, end);
    let all = a + mid + b;
    lemma_concat_add(a + mid, b);
    lemma_concat_add(a, mid);
    assert(patched(content, serialized) == concat(all));
    if b.len() > 0 && !is_ended(raw[c]) {
        assert(c == raw.len() - 1);
        lemma_kept_skips_span(old_lines, raw, old_lines.len() as int);
        lemma_spliced(old_lines, raw, text, m);
        assert(others.len() == m);
    }
    assert forall|k: int| 0 <= k < others.len() implies {
        &&& !is_marker(line_of(#[trigger] others[k]))
        &&& is_line(others[k])
        &&& k < others.len() - 1 ==> is_ended(others[k])
    } by {
        let j = lemma_kept_parts(old_lines, raw, old_lines.len() as int, k);
        lemma_block_lines(old_lines, j);
        assert(old_lines[j] == line_of(raw[j]));
    }
    assert forall|k: int| 0 <= k < all.len() implies {
        &&& forall|i: int| 0 <= i < (#[trigger] all[k]).len() - 1 ==> all[k][i] != '\n'
        &&& k < all.len() - 1 ==> is_line(all[k]) && is_ended(all[k])
        &&& (k < m || k >= m + pieces.len()) ==> !is_marker(line_of(all[k])) && all[k].len() > 0
        &&& m <= k < m + pieces.len() ==> line_of(all[k]) == pieces[k - m]
    } by {
        if k < m {
            assert(all[k] == others[k]);
        } else if k < m + pieces.len() {
            assert(all[k] == mid[k - m]);
            lemma_pieces_as_lines(pieces, end, k - m);
            if k - m == last && k < all.len() - 1 {
                assert(b.len() > 0);
            }
        } else {
            assert(all[k] == b[k - m - pieces.len()]);
            assert(all[k] == others[k - pieces.len()]);
        }
    }
    all
}

/// The lines of a rewritten file: the lines before the block as they were,
/// then the pieces of the new block, then lines that are no marker lines.
/// Only where the new block ends the file with an empty piece is that piece
/// no line.
pub proof fn lemma_lines_of_patched(content: Seq<char>, serialized: Seq<char>)
    requires
        has_block(lines(content)),
        closed(lines(content)),
        !serialized.contains('\r'),
    ensures
        ({
            let m = block(lines(content))[0];
            let pieces = new_pieces(content, serialized);
            let new_lines = lines(patched(content, serialized));
            &&& 0 <= m
            &&& pieces.len() >= 1
            &&& new_lines.len() >= m + pieces.len() - 1
            &&& new_lines.len() < m + pieces.len() ==> pieces.last().len() == 0
            &&& forall|k: int|
                0 <= k < new_lines.len() ==> {
                    &&& (k < m || k >= m + pieces.len()) ==> !is_marker(#[trigger] new_lines[k])
                    &&& m <= k < m + pieces.len() ==> new_lines[k] == pieces[k - m]
                }
        }),
{
    let all = lemma_parts_of_patched(content, serialized);
    let m = block(lines(content))[0];
    let pieces = new_pieces(content, serialized);
    law_raw_lines_of_concat(all);
    let new_raw = raw_lines(concat(all));
    let new_lines = lines(patched(content, serialized));
    assert(new_lines == contents(new_raw));
    if all.last().len() == 0 {
        assert(all[all.len() - 1].len() == 0);
        assert(all.len() == m + pieces.len());
        assert(line_of(all[all.len() - 1]) == pieces[pieces.len() - 1]);
    }
    assert forall|k: int| 0 <= k < new_lines.len() implies {
        &&& (k < m || k >= m + pieces.len()) ==> !is_marker(#[trigger] new_lines[k])
        &&& m <= k < m + pieces.len() ==> new_lines[k] == pieces[k - m]
    } by {
        assert(new_raw[k] == all[k]);
    }
}

/// A block that was written is the block that is read: once a file is
/// rewritten around the text of one block, the load-path block of the new
/// file starts where the old one started, is closed, and is that text, piece
/// by piece and indented, up to the piece that closes it.
#[verifier::rlimit(40)]
pub proof fn law_written_block_is_read_back(content: Seq<char>, serialized: Seq<char>)
    requires
        has_block(lines(content)),
        closed(lines(content)),
        is_block_text(serialized),
    ensures
        ({
            let old_lines = lines(content);
            let tabs = leading(old_lines[block(old_lines)[0]], '\t');
            let pieces = indented(split(without(serialized, '"'), '\n'), tabs);
            let new_lines = lines(patched(content, serialized));
            &&& has_block(new_lines)
            &&& closed(new_lines)
            &&& block(new_lines)[0] == block(old_lines)[0]
            &&& collected(new_lines) == join(
                pieces.take(closing_from(pieces, 1) + 1),
                seq!['\n'],
            )
        }),
{
    let old_lines = lines(content);
    let m = block(old_lines)[0];
    let tabs = leading(old_lines[m], '\t');
    let cut = split(without(serialized, '"'), '\n');
    let pieces = new_pieces(content, serialized);
    let new_lines = lines(patched(content, serialized));
    lemma_lines_of_patched(content, serialized);
    lemma_indented_pieces(serialized, tabs);
    let shut = closing_from(cut, 1);
    lemma_closing_bounds(cut, 1);
    assert(is_closing(pieces[shut]));
    assert(new_lines.len() > m + shut) by {
        if new_lines.len() < m + pieces.len() && shut == pieces.len() - 1 {
            assert(pieces[shut].contains('}'));
        }
    }
    assert(new_lines[m] == pieces[0]);
    assert(is_marker(new_lines[m]));
    assert forall|k: int| 0 <= k < new_lines.len() && k != m implies !is_marker(
        #[trigger] new_lines[k],
    ) by {
        if m < k < m + pieces.len() {
            assert(new_lines[k] == pieces[k - m]);
            assert(!is_marker(cut[k - m]));
        }
    }
    assert forall|k: int| m + 1 <= k < m + shut implies !is_closing(#[trigger] new_lines[k]) by {
        assert(new_lines[k] == pieces[k - m]);
        assert(!is_closing(cut[k - m]));
    }
    assert(new_lines[m + shut] == pieces[shut]);
    lemma_closing_from(new_lines, m + 1, m + shut);
    lemma_single_block(new_lines, m, new_lines.len() as int);
    assert(has_block(new_lines)) by {
        assert(is_marker(new_lines[m]));
    }
    assert forall|k: int| 1 <= k < shut implies !is_closing(#[trigger] pieces[k]) by {
        assert(!is_closing(cut[k]));
    }
    lemma_closing_from(pieces, 1, shut);
    let at = block(new_lines);
    assert(at == span(new_lines, m));
    assert(at[0] == m);
    let read = Seq::new(at.len(), |k: int| new_lines[at[k]]);
    assert(read =~= pieces.take(shut + 1)) by {
        assert forall|k: int| 0 <= k <= shut implies read[k] == pieces[k] by {
            assert(at[k] == m + k);
            assert(new_lines[m + k] == pieces[k]);
        }
    }
}

} // verus!
