//! What holds of splitting and joining, whatever the text.
use crate::text::{
    concat, ending_of, has_infix, is_ended, join, line_of, lines, occurs_at, raw_lines, repeated,
    split, without, without_cr,
};
use vstd::prelude::*;

verus! {

/// A text without the separator is one piece.
pub proof fn lemma_split_whole(b: Seq<char>, sep: char)
    requires
        !b.contains(sep),
    ensures
        split(b, sep) == seq![b],
    decreases b.len(),
{
    if b.len() == 0 {
        assert(b =~= Seq::<char>::empty());
    } else {
        let front = b.drop_last();
        assert(b[b.len() - 1] != sep);
        assert forall|i: int| 0 <= i < front.len() implies front[i] != sep by {
            assert(b[i] == front[i]);
        }
        lemma_split_whole(front, sep);
        assert(seq![front].drop_last().push(front.push(b.last())) =~= seq![b]) by {
            assert(front.push(b.last()) =~= b);
        }
    }
}

/// Behind a separator, a text without the separator is one more piece.
pub proof fn lemma_split_append(a: Seq<char>, b: Seq<char>, sep: char)
    requires
        !b.contains(sep),
    ensures
        split(a + seq![sep] + b, sep) == split(a, sep).push(b),
    decreases b.len(),
{
    let whole = a + seq![sep] + b;
    if b.len() == 0 {
        assert(whole.drop_last() =~= a);
        assert(whole.last() == sep);
        assert(b =~= Seq::<char>::empty());
    } else {
        let front = b.drop_last();
        assert(b[b.len() - 1] != sep);
        assert forall|i: int| 0 <= i < front.len() implies front[i] != sep by {
            assert(b[i] == front[i]);
        }
        lemma_split_append(a, front, sep);
        assert(whole.drop_last() =~= a + seq![sep] + front);
        assert(whole.last() == b.last());
        assert(front.push(b.last()) =~= b);
        assert(split(a, sep).push(front).drop_last() =~= split(a, sep));
    }
}

/// Splitting what was joined gives the parts back, where there is at least
/// one part and no part holds the separator.
pub proof fn law_split_of_join(parts: Seq<Seq<char>>, sep: char)
    requires
        parts.len() >= 1,
        forall|k: int| 0 <= k < parts.len() ==> !(#[trigger] parts[k]).contains(sep),
    ensures
        split(join(parts, seq![sep]), sep) == parts,
    decreases parts.len(),
{
    if parts.len() == 1 {
        lemma_split_whole(parts[0], sep);
        assert(seq![parts[0]] =~= parts);
    } else {
        let front = parts.drop_last();
        assert forall|k: int| 0 <= k < front.len() implies !(#[trigger] front[k]).contains(sep) by {
            assert(front[k] == parts[k]);
        }
        law_split_of_join(front, sep);
        lemma_split_append(join(front, seq![sep]), parts.last(), sep);
        assert(front.push(parts.last()) =~= parts);
    }
}

/// Joining what was split gives the text back, and no piece holds the
/// separator: `split` cuts at every separator and nowhere else.
pub proof fn law_join_of_split(s: Seq<char>, sep: char)
    ensures
        split(s, sep).len() >= 1,
        join(split(s, sep), seq![sep]) == s,
        forall|k: int| 0 <= k < split(s, sep).len() ==> !(#[trigger] split(s, sep)[k]).contains(sep),
    decreases s.len(),
{
    if s.len() == 0 {
        assert(s =~= Seq::<char>::empty());
        assert(split(s, sep)[0] =~= Seq::<char>::empty());
    } else {
        let front = s.drop_last();
        law_join_of_split(front, sep);
        let before = split(front, sep);
        let all = split(s, sep);
        assert(front.push(s.last()) =~= s);
        if s.last() == sep {
            assert(all.drop_last() =~= before);
            assert(join(all, seq![sep]) =~= front + seq![sep] + Seq::<char>::empty());
            assert forall|k: int| 0 <= k < all.len() implies !(#[trigger] all[k]).contains(sep) by {
                if k < before.len() {
                    assert(all[k] == before[k]);
                }
            }
        } else {
            let last = before.last().push(s.last());
            assert(all == before.drop_last().push(last));
            assert(all.drop_last() =~= before.drop_last());
            assert forall|k: int| 0 <= k < all.len() implies !(#[trigger] all[k]).contains(sep) by {
                if k < before.len() - 1 {
                    assert(all[k] == before[k]);
                } else {
                    assert(all[k] == last);
                    assert(!before[before.len() - 1].contains(sep));
                    if last.contains(sep) {
                        let i = choose|i: int| 0 <= i < last.len() && last[i] == sep;
                        assert(before.last()[i] == sep);
                    }
                }
            }
            if before.len() == 1 {
                assert(join(all, seq![sep]) =~= s);
            } else {
                assert(join(before, seq![sep]) == join(before.drop_last(), seq![sep]) + seq![sep]
                    + before.last());
                assert(join(all, seq![sep]) =~= (join(before.drop_last(), seq![sep]) + seq![sep]
                    + before.last()).push(s.last()));
            }
        }
    }
}

/// A line with its ending: it is not empty and holds no line feed but at
/// its end.
pub open spec fn is_line(raw: Seq<char>) -> bool {
    &&& raw.len() > 0
    &&& forall|i: int| 0 <= i < raw.len() - 1 ==> raw[i] != '\n'
}

/// Two lists of parts written one after the other are the two written texts
/// one after the other.
pub proof fn lemma_concat_add(a: Seq<Seq<char>>, b: Seq<Seq<char>>)
    ensures
        concat(a + b) == concat(a) + concat(b),
    decreases b.len(),
{
    if b.len() == 0 {
        assert(a + b =~= a);
        assert(concat(a) + concat(b) =~= concat(a));
    } else {
        assert((a + b).drop_last() =~= a + b.drop_last());
        assert((a + b).last() == b.last());
        lemma_concat_add(a, b.drop_last());
        assert(concat(a) + concat(b.drop_last()) + b.last() =~= concat(a) + (concat(
            b.drop_last(),
        ) + b.last()));
    }
}

/// A line falls into what it holds and its ending. The ending is a line
/// feed, a carriage return and a line feed, or nothing, and what the line
/// holds has no line feed.
pub proof fn lemma_line_and_ending(raw: Seq<char>)
    requires
        raw.len() == 0 || is_line(raw),
    ensures
        raw == line_of(raw) + ending_of(raw),
        !line_of(raw).contains('\n'),
        is_ended(raw) ==> ending_of(raw) == seq!['\n'] || ending_of(raw) == seq!['\r', '\n'],
        !is_ended(raw) ==> ending_of(raw) == Seq::<char>::empty(),
{
    let inner = line_of(raw);
    assert(raw =~= inner + ending_of(raw));
    if inner.contains('\n') {
        let i = choose|i: int| 0 <= i < inner.len() && inner[i] == '\n';
        assert(raw[i] == '\n');
        if !is_ended(raw) {
            assert(raw[raw.len() - 1] != '\n');
        }
    }
    if is_ended(raw) {
        let body = raw.drop_last();
        if body.len() > 0 && body.last() == '\r' {
            assert(ending_of(raw) =~= seq!['\r', '\n']);
        } else {
            assert(ending_of(raw) =~= seq!['\n']);
        }
    } else {
        assert(ending_of(raw) =~= Seq::<char>::empty());
    }
}

/// The lines of a text with their endings: written one after another they
/// are the text, every one is a line, and every one but the last has its
/// line feed.
pub proof fn law_concat_of_raw_lines(s: Seq<char>)
    ensures
        concat(raw_lines(s)) == s,
        forall|k: int| 0 <= k < raw_lines(s).len() ==> is_line(#[trigger] raw_lines(s)[k]),
        forall|k: int| 0 <= k < raw_lines(s).len() - 1 ==> is_ended(#[trigger] raw_lines(s)[k]),
    decreases s.len(),
{
    if s.len() == 0 {
        assert(s =~= Seq::<char>::empty());
    } else {
        let front = s.drop_last();
        law_concat_of_raw_lines(front);
        let before = raw_lines(front);
        let all = raw_lines(s);
        assert(front.push(s.last()) =~= s);
        if before.len() > 0 && !is_ended(before.last()) {
            let last = before.last().push(s.last());
            assert(all == before.drop_last().push(last));
            assert(all.drop_last() =~= before.drop_last());
            assert(concat(all) =~= (concat(before.drop_last()) + before.last()).push(s.last()));
            assert forall|k: int| 0 <= k < all.len() implies is_line(#[trigger] all[k]) by {
                if k < before.len() - 1 {
                    assert(all[k] == before[k]);
                } else {
                    assert(is_line(before[before.len() - 1]));
                    assert forall|i: int| 0 <= i < last.len() - 1 implies last[i] != '\n' by {
                        assert(last[i] == before.last()[i]);
                    }
                }
            }
            assert forall|k: int| 0 <= k < all.len() - 1 implies is_ended(#[trigger] all[k]) by {
                assert(all[k] == before[k]);
            }
        } else {
            assert(all == before.push(seq![s.last()]));
            assert(all.drop_last() =~= before);
            assert(concat(all) =~= concat(before) + seq![s.last()]);
            assert forall|k: int| 0 <= k < all.len() implies is_line(#[trigger] all[k]) by {
                if k < before.len() {
                    assert(all[k] == before[k]);
                }
            }
            assert forall|k: int| 0 <= k < all.len() - 1 implies is_ended(#[trigger] all[k]) by {
                assert(all[k] == before[k]);
                if k == before.len() - 1 {
                    assert(is_ended(before.last()));
                }
            }
        }
    }
}

/// Behind a text whose last line has its line feed, a text with no line
/// feed but at its end is one more line, unless it is empty.
pub proof fn lemma_raw_lines_append(s: Seq<char>, x: Seq<char>)
    requires
        raw_lines(s).len() == 0 || is_ended(raw_lines(s).last()),
        forall|i: int| 0 <= i < x.len() - 1 ==> x[i] != '\n',
    ensures
        raw_lines(s + x) == if x.len() == 0 {
            raw_lines(s)
        } else {
            raw_lines(s).push(x)
        },
    decreases x.len(),
{
    if x.len() == 0 {
        assert(s + x =~= s);
    } else {
        let front = x.drop_last();
        assert((s + x).drop_last() =~= s + front);
        assert((s + x).last() == x.last());
        assert forall|i: int| 0 <= i < front.len() - 1 implies front[i] != '\n' by {
            assert(front[i] == x[i]);
        }
        lemma_raw_lines_append(s, front);
        if front.len() == 0 {
            assert(x =~= seq![x.last()]);
        } else {
            let before = raw_lines(s).push(front);
            assert(before.last() == front);
            assert(front[front.len() - 1] == x[front.len() - 1]);
            assert(!is_ended(front));
            assert(before.drop_last() =~= raw_lines(s));
            assert(front.push(x.last()) =~= x);
        }
    }
}

/// Cutting what was written out of lines gives the lines back: where every
/// part but the last is a line with its line feed, and the last part holds
/// no line feed but at its end, the parts are the lines of the text they
/// make, but for an empty last part.
pub proof fn law_raw_lines_of_concat(parts: Seq<Seq<char>>)
    requires
        forall|k: int|
            0 <= k < parts.len() - 1 ==> is_line(#[trigger] parts[k]) && is_ended(parts[k]),
        parts.len() > 0 ==> forall|i: int|
            0 <= i < parts.last().len() - 1 ==> parts.last()[i] != '\n',
    ensures
        raw_lines(concat(parts)) == if parts.len() > 0 && parts.last().len() == 0 {
            parts.drop_last()
        } else {
            parts
        },
    decreases parts.len(),
{
    if parts.len() == 0 {
    } else {
        let front = parts.drop_last();
        assert forall|k: int| 0 <= k < front.len() implies is_line(#[trigger] front[k])
            && is_ended(front[k]) by {
            assert(front[k] == parts[k]);
        }
        if front.len() > 0 {
            assert(is_line(front[front.len() - 1]));
        }
        law_raw_lines_of_concat(front);
        assert(raw_lines(concat(front)) == front);
        lemma_raw_lines_append(concat(front), parts.last());
        assert(front.push(parts.last()) =~= parts);
    }
}

/// What stays when a character is taken out was there before, and is not
/// that character.
pub proof fn lemma_without_holds(s: Seq<char>, c: char, x: char)
    ensures
        without(s, c).contains(x) <==> s.contains(x) && x != c,
    decreases s.len(),
{
    if s.len() > 0 {
        let front = s.drop_last();
        lemma_without_holds(front, c, x);
        let rest = without(front, c);
        if s.contains(x) {
            let i = choose|i: int| 0 <= i < s.len() && s[i] == x;
            if i < s.len() - 1 {
                assert(front[i] == x);
            }
        }
        if front.contains(x) {
            let i = choose|i: int| 0 <= i < front.len() && front[i] == x;
            assert(s[i] == x);
        }
        if s.last() == x {
            assert(s[s.len() - 1] == x);
        }
        if s.last() != c {
            let out = rest.push(s.last());
            if rest.contains(x) {
                let i = choose|i: int| 0 <= i < rest.len() && rest[i] == x;
                assert(out[i] == x);
            }
            if s.last() == x {
                assert(out[out.len() - 1] == x);
            }
            if out.contains(x) {
                let i = choose|i: int| 0 <= i < out.len() && out[i] == x;
                if i < rest.len() {
                    assert(rest[i] == x);
                }
            }
        }
    }
}

/// A character of a piece is a character of the text that was split.
pub proof fn lemma_split_holds(s: Seq<char>, sep: char, k: int, x: char)
    requires
        0 <= k < split(s, sep).len(),
        split(s, sep)[k].contains(x),
    ensures
        s.contains(x),
    decreases s.len(),
{
    let piece = split(s, sep)[k];
    let i = choose|i: int| 0 <= i < piece.len() && piece[i] == x;
    if s.len() == 0 {
        assert(piece =~= Seq::<char>::empty());
    } else {
        let front = s.drop_last();
        let before = split(front, sep);
        law_join_of_split(front, sep);
        if s.last() == sep {
            if k < before.len() {
                assert(piece == before[k]);
                lemma_split_holds(front, sep, k, x);
                let j = choose|j: int| 0 <= j < front.len() && front[j] == x;
                assert(s[j] == x);
            }
        } else {
            if k < before.len() - 1 {
                assert(piece == before[k]);
                lemma_split_holds(front, sep, k, x);
                let j = choose|j: int| 0 <= j < front.len() && front[j] == x;
                assert(s[j] == x);
            } else {
                assert(piece == before.last().push(s.last()));
                if i < before.last().len() {
                    assert(before[before.len() - 1][i] == x);
                    lemma_split_holds(front, sep, before.len() - 1, x);
                    let j = choose|j: int| 0 <= j < front.len() && front[j] == x;
                    assert(s[j] == x);
                } else {
                    assert(s[s.len() - 1] == x);
                }
            }
        }
    }
}

/// Putting copies of a character before a text neither makes nor unmakes an
/// occurrence of a pattern that does not start with that character.
pub proof fn lemma_prefix_keeps_infix(p: Seq<char>, pat: Seq<char>, c: char, n: nat)
    requires
        pat.len() > 0,
        pat[0] != c,
    ensures
        has_infix(repeated(c, n) + p, pat) <==> has_infix(p, pat),
{
    let whole = repeated(c, n) + p;
    if has_infix(p, pat) {
        let i = choose|i: int| occurs_at(p, pat, i);
        assert(whole.subrange(n + i, n + i + pat.len()) =~= p.subrange(i, i + pat.len()));
        assert(occurs_at(whole, pat, n + i));
    }
    if has_infix(whole, pat) {
        let i = choose|i: int| occurs_at(whole, pat, i);
        if i < n {
            assert(whole.subrange(i, i + pat.len())[0] == whole[i]);
            assert(whole[i] == c);
        } else {
            assert(p.subrange(i - n, i - n + pat.len()) =~= whole.subrange(i, i + pat.len()));
            assert(occurs_at(p, pat, i - n));
        }
    }
}

/// Putting copies of a character before a text neither makes nor unmakes an
/// occurrence of another character.
pub proof fn lemma_prefix_keeps_char(p: Seq<char>, x: char, c: char, n: nat)
    requires
        x != c,
    ensures
        (repeated(c, n) + p).contains(x) <==> p.contains(x),
{
    let whole = repeated(c, n) + p;
    if p.contains(x) {
        let i = choose|i: int| 0 <= i < p.len() && p[i] == x;
        assert(whole[n + i] == x);
    }
    if whole.contains(x) {
        let i = choose|i: int| 0 <= i < whole.len() && whole[i] == x;
        if i >= n {
            assert(p[i - n] == x);
        }
    }
}

} // verus!
