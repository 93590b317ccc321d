//! Character sequences: splitting, joining and searching, each with the
//! mathematical function it computes.
use vstd::prelude::*;

verus! {

/// The pieces of `s` between occurrences of `sep`. There is always at least
/// one piece; a separator at the very end leaves an empty last piece.
pub open spec fn split(s: Seq<char>, sep: char) -> Seq<Seq<char>>
    decreases s.len(),
{
    if s.len() == 0 {
        seq![Seq::<char>::empty()]
    } else {
        let before = split(s.drop_last(), sep);
        if s.last() == sep {
            before.push(Seq::<char>::empty())
        } else {
            before.drop_last().push(before.last().push(s.last()))
        }
    }
}

/// The parts written one after another with `sep` between neighbours.
pub open spec fn join(parts: Seq<Seq<char>>, sep: Seq<char>) -> Seq<char>
    decreases parts.len(),
{
    if parts.len() == 0 {
        Seq::<char>::empty()
    } else if parts.len() == 1 {
        parts[0]
    } else {
        join(parts.drop_last(), sep) + sep + parts.last()
    }
}

/// `line` without one carriage return at its end, if it has one.
pub open spec fn without_cr(line: Seq<char>) -> Seq<char> {
    if line.len() > 0 && line.last() == '\r' {
        line.drop_last()
    } else {
        line
    }
}

/// Whether a line has its line feed: it ends with one.
pub open spec fn is_ended(raw: Seq<char>) -> bool {
    raw.len() > 0 && raw.last() == '\n'
}

/// A text cut into lines that keep their endings: a cut stands behind every
/// line feed and nowhere else. What follows the last line feed is a line
/// only if it is not empty, so no line is empty, and written one after
/// another the lines are the text.
pub open spec fn raw_lines(s: Seq<char>) -> Seq<Seq<char>>
    decreases s.len(),
{
    if s.len() == 0 {
        Seq::<Seq<char>>::empty()
    } else {
        let before = raw_lines(s.drop_last());
        if before.len() > 0 && !is_ended(before.last()) {
            before.drop_last().push(before.last().push(s.last()))
        } else {
            before.push(seq![s.last()])
        }
    }
}

/// A line without its ending: without its line feed, and without a carriage
/// return just before that line feed. A line that has no line feed is taken
/// as it is.
pub open spec fn line_of(raw: Seq<char>) -> Seq<char> {
    if is_ended(raw) {
        without_cr(raw.drop_last())
    } else {
        raw
    }
}

/// The ending of a line: a line feed, a carriage return and a line feed, or
/// nothing.
pub open spec fn ending_of(raw: Seq<char>) -> Seq<char> {
    raw.skip(line_of(raw).len() as int)
}

/// Every line without its ending.
pub open spec fn contents(raw: Seq<Seq<char>>) -> Seq<Seq<char>> {
    Seq::new(raw.len(), |i: int| line_of(raw[i]))
}

/// The parts written one after another.
pub open spec fn concat(parts: Seq<Seq<char>>) -> Seq<char>
    decreases parts.len(),
{
    if parts.len() == 0 {
        Seq::<char>::empty()
    } else {
        concat(parts.drop_last()) + parts.last()
    }
}

/// The lines of a text, without their endings. A line ends at a line feed; a
/// carriage return just before that line feed belongs to the line ending.
/// What follows the last line feed is a line only if it is not empty.
pub open spec fn lines(s: Seq<char>) -> Seq<Seq<char>> {
    contents(raw_lines(s))
}

/// The views of the vectors of `v`, in order.
pub open spec fn views(v: Seq<Vec<char>>) -> Seq<Seq<char>> {
    Seq::new(v.len(), |i: int| v[i]@)
}

/// The characters of a string slice.
pub fn to_chars(s: &str) -> (out: Vec<char>)
    ensures
        out@ == s@,
{
    let mut out: Vec<char> = Vec::new();
    for c in it: s.chars()
        invariant
            it.seq() == s@,
            out@ == it.seq().take(it.index()),
    {
        out.push(c);
    }
    out
}

/// `String::push` of the standard library: the character is appended and
/// nothing else changes.
pub assume_specification[ String::push ](s: &mut String, ch: char)
    ensures
        final(s)@ == old(s)@.push(ch),
;

/// The string made of the given characters.
pub fn to_string(chars: &Vec<char>) -> (out: String)
    ensures
        out@ == chars@,
{
    let mut out = String::new();
    let mut i: usize = 0;
    while i < chars.len()
        invariant
            i <= chars.len(),
            out@ == chars@.take(i as int),
        decreases chars.len() - i,
    {
        out.push(chars[i]);
        i += 1;
    }
    out
}

/// Cuts a text into lines that keep their endings, as `raw_lines` defines
/// them.
pub fn split_raw_lines(text: &Vec<char>) -> (out: Vec<Vec<char>>)
    ensures
        views(out@) == raw_lines(text@),
{
    let mut out: Vec<Vec<char>> = Vec::new();
    let mut cur: Vec<char> = Vec::new();
    let mut i: usize = 0;
    proof {
        assert(text@.take(0) =~= Seq::<char>::empty());
        assert(views(out@) =~= Seq::<Seq<char>>::empty());
    }
    while i < text.len()
        invariant
            i <= text.len(),
            forall|k: int| 0 <= k < out.len() ==> is_ended(#[trigger] views(out@)[k]),
            forall|k: int| 0 <= k < cur.len() ==> cur[k] != '\n',
            raw_lines(text@.take(i as int)) == if cur.len() == 0 {
                views(out@)
            } else {
                views(out@).push(cur@)
            },
        decreases text.len() - i,
    {
        let c = text[i];
        let ghost before = raw_lines(text@.take(i as int));
        let ghost done = views(out@);
        let ghost open = cur@;
        proof {
            assert(text@.take(i + 1).drop_last() =~= text@.take(i as int));
            assert(text@.take(i + 1).last() == c);
            if open.len() > 0 {
                assert(before.last() == open);
                assert(open[open.len() - 1] != '\n');
                assert(before.drop_last() =~= done);
            } else if done.len() > 0 {
                assert(is_ended(done[done.len() - 1]));
            }
        }
        cur.push(c);
        proof {
            if open.len() == 0 {
                assert(cur@ =~= seq![c]);
            }
        }
        if c == '\n' {
            out.push(cur);
            cur = Vec::new();
            proof {
                assert(views(out@) =~= done.push(out[out.len() - 1]@));
                assert forall|k: int| 0 <= k < out.len() implies is_ended(
                    #[trigger] views(out@)[k],
                ) by {
                    if k < done.len() {
                        assert(views(out@)[k] == done[k]);
                    }
                }
            }
        }
        i += 1;
    }
    proof {
        assert(text@.take(i as int) =~= text@);
    }
    let ghost done = views(out@);
    if cur.len() > 0 {
        out.push(cur);
        proof {
            assert(views(out@) =~= done.push(out[out.len() - 1]@));
        }
    }
    out
}

/// The line without its ending, as `line_of` defines it.
pub fn content_of(raw: &Vec<char>) -> (out: Vec<char>)
    ensures
        out@ == line_of(raw@),
{
    let n: usize = raw.len();
    let mut end: usize = n;
    if n > 0 && raw[n - 1] == '\n' {
        end = n - 1;
        if end > 0 && raw[end - 1] == '\r' {
            end = end - 1;
        }
    }
    let mut out: Vec<char> = Vec::new();
    let mut i: usize = 0;
    while i < end
        invariant
            i <= end <= raw.len(),
            out@ == raw@.take(i as int),
        decreases end - i,
    {
        out.push(raw[i]);
        proof {
            assert(raw@.take(i + 1) =~= raw@.take(i as int).push(raw[i as int]));
        }
        i += 1;
    }
    proof {
        if n > 0 && raw[n - 1] == '\n' {
            let body = raw@.drop_last();
            if body.len() > 0 && body.last() == '\r' {
                assert(raw@.take(end as int) =~= body.drop_last());
            } else {
                assert(raw@.take(end as int) =~= body);
            }
        } else {
            assert(raw@.take(end as int) =~= raw@);
        }
    }
    out
}

/// Every line without its ending.
pub fn contents_of(raw: &Vec<Vec<char>>) -> (out: Vec<Vec<char>>)
    ensures
        views(out@) == contents(views(raw@)),
{
    let mut out: Vec<Vec<char>> = Vec::new();
    let mut i: usize = 0;
    while i < raw.len()
        invariant
            i <= raw.len(),
            out.len() == i,
            forall|k: int| 0 <= k < i ==> out[k]@ == line_of(#[trigger] raw[k]@),
        decreases raw.len() - i,
    {
        out.push(content_of(&raw[i]));
        i += 1;
    }
    proof {
        assert(views(out@) =~= contents(views(raw@)));
    }
    out
}

/// Splits a text into its lines, as `lines` defines them.
pub fn split_lines(text: &Vec<char>) -> (out: Vec<Vec<char>>)
    ensures
        views(out@) == lines(text@),
{
    contents_of(&split_raw_lines(text))
}

/// Writes the parts one after another.
pub fn concat_all(parts: &Vec<Vec<char>>) -> (out: Vec<char>)
    ensures
        out@ == concat(views(parts@)),
{
    let mut out: Vec<char> = Vec::new();
    let mut i: usize = 0;
    proof {
        assert(views(parts@).take(0) =~= Seq::<Seq<char>>::empty());
    }
    while i < parts.len()
        invariant
            i <= parts.len(),
            out@ == concat(views(parts@).take(i as int)),
        decreases parts.len() - i,
    {
        let ghost base = out@;
        let part = &parts[i];
        let mut j: usize = 0;
        while j < part.len()
            invariant
                j <= part.len(),
                out@ == base + part@.take(j as int),
            decreases part.len() - j,
        {
            out.push(part[j]);
            j += 1;
        }
        proof {
            let upto = views(parts@).take(i + 1);
            assert(part@.take(j as int) =~= part@);
            assert(upto.drop_last() =~= views(parts@).take(i as int));
            assert(upto.last() == part@);
        }
        i += 1;
    }
    proof {
        assert(views(parts@).take(i as int) =~= views(parts@));
    }
    out
}

/// Writes the parts one after another with `sep` between neighbours.
pub fn join_with(parts: &Vec<Vec<char>>, sep: char) -> (out: Vec<char>)
    ensures
        out@ == join(views(parts@), seq![sep]),
{
    let mut out: Vec<char> = Vec::new();
    let mut i: usize = 0;
    proof {
        assert(views(parts@).take(0) =~= Seq::<Seq<char>>::empty());
    }
    while i < parts.len()
        invariant
            i <= parts.len(),
            out@ == join(views(parts@).take(i as int), seq![sep]),
        decreases parts.len() - i,
    {
        let ghost before = out@;
        if i > 0 {
            out.push(sep);
        }
        let ghost base = out@;
        let part = &parts[i];
        let mut j: usize = 0;
        while j < part.len()
            invariant
                j <= part.len(),
                out@ == base + part@.take(j as int),
            decreases part.len() - j,
        {
            out.push(part[j]);
            j += 1;
        }
        proof {
            let upto = views(parts@).take(i + 1);
            assert(part@.take(j as int) =~= part@);
            assert(upto.drop_last() =~= views(parts@).take(i as int));
            assert(upto.last() == part@);
            if i > 0 {
                assert(base =~= before + seq![sep]);
            } else {
                assert(out@ =~= part@);
            }
        }
        i += 1;
    }
    proof {
        assert(views(parts@).take(i as int) =~= views(parts@));
    }
    out
}

/// `pat` stands in `s` at position `i`.
pub open spec fn occurs_at(s: Seq<char>, pat: Seq<char>, i: int) -> bool {
    0 <= i && i + pat.len() <= s.len() && s.subrange(i, i + pat.len()) == pat
}

/// `pat` stands somewhere in `s`, as a run of neighbouring characters.
pub open spec fn has_infix(s: Seq<char>, pat: Seq<char>) -> bool {
    exists|i: int| occurs_at(s, pat, i)
}

/// Tells whether `pat` stands in `s` at position `i`.
pub fn matches_at(s: &Vec<char>, pat: &Vec<char>, i: usize) -> (found: bool)
    ensures
        found == occurs_at(s@, pat@, i as int),
{
    if i > s.len() || pat.len() > s.len() - i {
        return false;
    }
    let mut k: usize = 0;
    while k < pat.len()
        invariant
            k <= pat.len(),
            i + pat.len() <= s.len(),
            forall|q: int| 0 <= q < k ==> s[i + q] == pat[q],
        decreases pat.len() - k,
    {
        if s[i + k] != pat[k] {
            proof {
                assert(s@.subrange(i as int, i + pat.len())[k as int] == s[i + k]);
            }
            return false;
        }
        k += 1;
    }
    proof {
        assert(s@.subrange(i as int, i + pat.len()) =~= pat@);
    }
    true
}

/// Tells whether `pat` stands somewhere in `s`.
pub fn contains_seq(s: &Vec<char>, pat: &Vec<char>) -> (found: bool)
    ensures
        found == has_infix(s@, pat@),
{
    if pat.len() > s.len() {
        return false;
    }
    let last: usize = s.len() - pat.len();
    let mut i: usize = 0;
    while i < last
        invariant
            last == s.len() - pat.len(),
            i <= last,
            forall|q: int| 0 <= q < i ==> !occurs_at(s@, pat@, q),
        decreases last - i,
    {
        if matches_at(s, pat, i) {
            return true;
        }
        i += 1;
    }
    matches_at(s, pat, last)
}

/// Tells whether the character `c` stands in `s`.
pub fn contains_char(s: &Vec<char>, c: char) -> (found: bool)
    ensures
        found == s@.contains(c),
{
    let mut i: usize = 0;
    while i < s.len()
        invariant
            i <= s.len(),
            forall|q: int| 0 <= q < i ==> s[q] != c,
        decreases s.len() - i,
    {
        if s[i] == c {
            return true;
        }
        i += 1;
    }
    false
}

/// `s` with every occurrence of `c` taken out.
pub open spec fn without(s: Seq<char>, c: char) -> Seq<char>
    decreases s.len(),
{
    if s.len() == 0 {
        s
    } else if s.last() == c {
        without(s.drop_last(), c)
    } else {
        without(s.drop_last(), c).push(s.last())
    }
}

/// Takes every occurrence of `c` out of `s`.
pub fn remove_char(s: &Vec<char>, c: char) -> (out: Vec<char>)
    ensures
        out@ == without(s@, c),
{
    let mut out: Vec<char> = Vec::new();
    let mut i: usize = 0;
    proof {
        assert(s@.take(0) =~= Seq::<char>::empty());
    }
    while i < s.len()
        invariant
            i <= s.len(),
            out@ == without(s@.take(i as int), c),
        decreases s.len() - i,
    {
        proof {
            assert(s@.take(i + 1).drop_last() =~= s@.take(i as int));
        }
        if s[i] != c {
            out.push(s[i]);
        }
        i += 1;
    }
    proof {
        assert(s@.take(i as int) =~= s@);
    }
    out
}

/// How many times `c` stands at the start of `s` before anything else.
pub open spec fn leading(s: Seq<char>, c: char) -> nat
    decreases s.len(),
{
    if s.len() > 0 && s[0] == c {
        1 + leading(s.drop_first(), c)
    } else {
        0
    }
}

/// A run of `n` copies of `c` at the start of `s`, with something else (or the
/// end) behind it, is what `leading` counts.
pub proof fn lemma_leading(s: Seq<char>, c: char, n: int)
    requires
        0 <= n <= s.len(),
        forall|i: int| 0 <= i < n ==> s[i] == c,
        n < s.len() ==> s[n] != c,
    ensures
        leading(s, c) == n,
    decreases n,
{
    if n > 0 {
        let rest = s.drop_first();
        assert forall|i: int| 0 <= i < n - 1 implies rest[i] == c by {
            assert(rest[i] == s[i + 1]);
        }
        if n - 1 < rest.len() {
            assert(rest[n - 1] == s[n]);
        }
        lemma_leading(rest, c, n - 1);
    }
}

/// Counts the copies of `c` at the start of `s`.
pub fn count_leading(s: &Vec<char>, c: char) -> (n: usize)
    ensures
        n == leading(s@, c),
{
    let mut n: usize = 0;
    while n < s.len() && s[n] == c
        invariant
            n <= s.len(),
            forall|i: int| 0 <= i < n ==> s[i] == c,
        decreases s.len() - n,
    {
        n += 1;
    }
    proof {
        lemma_leading(s@, c, n as int);
    }
    n
}

/// `n` copies of `c`.
pub open spec fn repeated(c: char, n: nat) -> Seq<char> {
    Seq::new(n, |i: int| c)
}

/// `line` behind `n` copies of `c`.
pub fn prefixed(line: &Vec<char>, c: char, n: usize) -> (out: Vec<char>)
    ensures
        out@ == repeated(c, n as nat) + line@,
{
    let mut out: Vec<char> = Vec::new();
    let mut i: usize = 0;
    while i < n
        invariant
            i <= n,
            out@ == repeated(c, i as nat),
        decreases n - i,
    {
        out.push(c);
        proof {
            assert(out@ =~= repeated(c, (i + 1) as nat));
        }
        i += 1;
    }
    let mut j: usize = 0;
    while j < line.len()
        invariant
            j <= line.len(),
            out@ == repeated(c, n as nat) + line@.take(j as int),
        decreases line.len() - j,
    {
        out.push(line[j]);
        proof {
            assert(line@.take(j + 1) =~= line@.take(j as int).push(line[j as int]));
        }
        j += 1;
    }
    proof {
        assert(line@.take(j as int) =~= line@);
    }
    out
}

/// Splits a text at every `sep`, as `split` defines it.
pub fn split_at_char(text: &Vec<char>, sep: char) -> (out: Vec<Vec<char>>)
    ensures
        views(out@) == split(text@, sep),
{
    let mut out: Vec<Vec<char>> = Vec::new();
    let mut cur: Vec<char> = Vec::new();
    let mut i: usize = 0;
    proof {
        assert(text@.take(0) =~= Seq::<char>::empty());
    }
    while i < text.len()
        invariant
            i <= text.len(),
            split(text@.take(i as int), sep) == views(out@).push(cur@),
        decreases text.len() - i,
    {
        let c = text[i];
        proof {
            assert(text@.take(i + 1).drop_last() =~= text@.take(i as int));
            assert(views(out@).push(cur@).drop_last() =~= views(out@));
        }
        let ghost old_views = views(out@);
        if c == sep {
            out.push(cur);
            cur = Vec::new();
            proof {
                assert(views(out@) =~= old_views.push(out[out.len() - 1]@));
            }
        } else {
            cur.push(c);
        }
        i += 1;
    }
    proof {
        assert(text@.take(i as int) =~= text@);
    }
    let ghost old_views = views(out@);
    out.push(cur);
    proof {
        assert(views(out@) =~= old_views.push(out[out.len() - 1]@));
    }
    out
}

} // verus!
