//! The load-path block of the game's configuration file: what it holds, how
//! it is classified, where it stands among the lines of the file, and how the
//! file is rewritten around a new block.
use crate::block_laws::{is_patch_around_block, law_patch_keeps_other_lines};
use crate::error::BlockError;
use crate::text::{
    concat, concat_all, contains_char, contains_seq, content_of, contents, contents_of,
    count_leading, ending_of, has_infix, join, join_with, leading, line_of, lines, prefixed,
    raw_lines, remove_char, repeated, split, split_at_char, split_lines, split_raw_lines, to_chars,
    to_string, views, without,
};
use vstd::prelude::*;

verus! {

/// The load-path block: the directories the game's loader searches, in load
/// order, and the two keys that adapt the block for addon loading.
#[derive(Debug, Clone)]
pub struct SearchPaths {
    pub game: Vec<String>,
    pub mod_key: Option<String>,
    pub write: Option<String>,
}

/// What a `SearchPaths` holds, as sequences of characters.
pub struct SearchPathsView {
    pub game: Seq<Seq<char>>,
    pub mod_key: Option<Seq<char>>,
    pub write: Option<Seq<char>>,
}

/// The view of an optional string.
pub open spec fn option_view(s: Option<String>) -> Option<Seq<char>> {
    match s {
        Some(s) => Some(s@),
        None => None,
    }
}

impl View for SearchPaths {
    type V = SearchPathsView;

    open spec fn view(&self) -> SearchPathsView {
        SearchPathsView {
            game: Seq::new(self.game@.len(), |i: int| self.game@[i]@),
            mod_key: option_view(self.mod_key),
            write: option_view(self.write),
        }
    }
}

/// How the load-path block of a configuration file is classified.
#[derive(Debug, Clone, Copy, PartialEq, Eq, Structural)]
pub enum SearchPathsState {
    Vanilla,
    Modded,
    Custom,
}

/// The block as the game ships it: `citadel`, then `core`, and no keys.
pub open spec fn is_vanilla(block: SearchPathsView) -> bool {
    &&& block.mod_key is None
    &&& block.write is None
    &&& block.game == seq!["citadel"@, "core"@]
}

/// The block adapted for addon loading: `citadel/addons` before the two
/// shipped entries, and both keys set to `citadel`.
pub open spec fn is_modded(block: SearchPathsView) -> bool {
    &&& block.mod_key == Some("citadel"@)
    &&& block.write == Some("citadel"@)
    &&& block.game == seq!["citadel/addons"@, "citadel"@, "core"@]
}

/// The classification of a block: by exact match with one of the two
/// canonical blocks, and `Custom` for everything else.
pub open spec fn state_of(block: SearchPathsView) -> SearchPathsState {
    if is_vanilla(block) {
        SearchPathsState::Vanilla
    } else if is_modded(block) {
        SearchPathsState::Modded
    } else {
        SearchPathsState::Custom
    }
}

/// The shipped block is classified `Vanilla` and the adapted block `Modded`:
/// no block is both.
pub proof fn law_canonical_blocks(block: SearchPathsView)
    ensures
        is_vanilla(block) ==> state_of(block) == SearchPathsState::Vanilla,
        is_modded(block) ==> state_of(block) == SearchPathsState::Modded,
        !(is_vanilla(block) && is_modded(block)),
{
}

/// A block with three entries is `Custom` unless both of its keys are set
/// to `citadel`, whatever the entries are.
pub proof fn law_other_keys_are_custom(block: SearchPathsView)
    requires
        block.game.len() == 3,
        !(block.mod_key == Some("citadel"@) && block.write == Some("citadel"@)),
    ensures
        state_of(block) == SearchPathsState::Custom,
{
    let shipped = seq!["citadel"@, "core"@];
    assert(shipped.len() == 2);
}

/// A block with the entries of a canonical block in another order, or with
/// other entries, is `Custom`: the match is exact.
pub proof fn law_other_entries_are_custom(block: SearchPathsView)
    requires
        block.game != seq!["citadel"@, "core"@],
        block.game != seq!["citadel/addons"@, "citadel"@, "core"@],
    ensures
        state_of(block) == SearchPathsState::Custom,
{
}

fn same(a: &String, b: &str) -> (r: bool)
    ensures
        r == (a@ == b@),
{
    let b = String::from_str(b);
    *a == b
}

impl SearchPaths {
    /// The canonical block of an unadapted game.
    pub fn vanilla() -> (block: SearchPaths)
        ensures
            is_vanilla(block@),
    {
        let mut game: Vec<String> = Vec::new();
        game.push(String::from_str("citadel"));
        game.push(String::from_str("core"));
        let block = SearchPaths { game, mod_key: None, write: None };
        proof {
            assert(block@.game =~= seq!["citadel"@, "core"@]);
        }
        block
    }

    /// The canonical block of a game adapted for addon loading.
    pub fn modded() -> (block: SearchPaths)
        ensures
            is_modded(block@),
    {
        let mut game: Vec<String> = Vec::new();
        game.push(String::from_str("citadel/addons"));
        game.push(String::from_str("citadel"));
        game.push(String::from_str("core"));
        let block = SearchPaths {
            game,
            mod_key: Some(String::from_str("citadel")),
            write: Some(String::from_str("citadel")),
        };
        proof {
            assert(block@.game =~= seq!["citadel/addons"@, "citadel"@, "core"@]);
        }
        block
    }
}

fn matches_vanilla(search_paths: &SearchPaths) -> (r: bool)
    ensures
        r == is_vanilla(search_paths@),
{
    let game = &search_paths.game;
    let ghost want = seq!["citadel"@, "core"@];
    proof {
        assert(want.len() == 2 && want[0] == "citadel"@ && want[1] == "core"@);
    }
    if search_paths.mod_key.is_some() || search_paths.write.is_some() || game.len() != 2 {
        proof {
            assert(search_paths@.game.len() == game.len());
        }
        return false;
    }
    let r = same(&game[0], "citadel") && same(&game[1], "core");
    proof {
        assert(search_paths@.game[0] == game[0]@);
        assert(search_paths@.game[1] == game[1]@);
        if r {
            assert(search_paths@.game =~= want);
        }
    }
    r
}

fn is_citadel(key: &Option<String>) -> (r: bool)
    ensures
        r == (option_view(*key) == Some("citadel"@)),
{
    match key {
        Some(key) => same(key, "citadel"),
        None => false,
    }
}

fn matches_modded(search_paths: &SearchPaths) -> (r: bool)
    ensures
        r == is_modded(search_paths@),
{
    let game = &search_paths.game;
    let ghost want = seq!["citadel/addons"@, "citadel"@, "core"@];
    proof {
        assert(want.len() == 3 && want[0] == "citadel/addons"@ && want[1] == "citadel"@
            && want[2] == "core"@);
        assert(search_paths@.game.len() == game.len());
    }
    if !is_citadel(&search_paths.mod_key) || !is_citadel(&search_paths.write) || game.len() != 3 {
        return false;
    }
    let r = same(&game[0], "citadel/addons") && same(&game[1], "citadel") && same(
        &game[2],
        "core",
    );
    proof {
        assert(search_paths@.game[0] == game[0]@);
        assert(search_paths@.game[1] == game[1]@);
        assert(search_paths@.game[2] == game[2]@);
        if r {
            assert(search_paths@.game =~= want);
        }
    }
    r
}

/// Classifies a parsed load-path block.
pub fn check_search_paths(search_paths: &SearchPaths) -> (state: SearchPathsState)
    ensures
        state == state_of(search_paths@),
{
    if matches_vanilla(search_paths) {
        SearchPathsState::Vanilla
    } else if matches_modded(search_paths) {
        SearchPathsState::Modded
    } else {
        SearchPathsState::Custom
    }
}

/// A line that opens a load-path block: one that holds the word `SearchPaths`.
pub open spec fn is_marker(line: Seq<char>) -> bool {
    has_infix(line, "SearchPaths"@)
}

/// A line that ends a load-path block: one that holds a closing brace.
pub open spec fn is_closing(line: Seq<char>) -> bool {
    line.contains('}')
}

/// The index of the first closing line at or behind `from`, or the number of
/// lines where there is none.
pub open spec fn closing_from(lines: Seq<Seq<char>>, from: int) -> int
    decreases lines.len() - from,
{
    if from >= lines.len() {
        lines.len() as int
    } else if is_closing(lines[from]) {
        from
    } else {
        closing_from(lines, from + 1)
    }
}

/// The span that a marker line at `i` opens: the marker line and every line
/// behind it up to and including the first closing line. The marker line
/// itself is not looked at for a closing brace.
pub open spec fn span(lines: Seq<Seq<char>>, i: int) -> Seq<int> {
    Seq::new((closing_from(lines, i + 1) - i + 1) as nat, |k: int| i + k)
}

/// The spans of the marker lines among the first `n` lines, one after
/// another. A marker line inside an earlier span opens a span of its own, so
/// an index may stand here more than once.
pub open spec fn block_upto(lines: Seq<Seq<char>>, n: int) -> Seq<int>
    decreases n,
{
    if n <= 0 {
        Seq::<int>::empty()
    } else if is_marker(lines[n - 1]) {
        block_upto(lines, n - 1) + span(lines, n - 1)
    } else {
        block_upto(lines, n - 1)
    }
}

/// The indices of the lines that belong to the load-path block.
pub open spec fn block(lines: Seq<Seq<char>>) -> Seq<int> {
    block_upto(lines, lines.len() as int)
}

/// Some line among the first `n` is a marker line.
pub open spec fn has_marker_upto(lines: Seq<Seq<char>>, n: int) -> bool {
    exists|i: int| 0 <= i < n && i < lines.len() && is_marker(#[trigger] lines[i])
}

/// Some line of the file is a marker line.
pub open spec fn has_block(lines: Seq<Seq<char>>) -> bool {
    has_marker_upto(lines, lines.len() as int)
}

/// Every marker line among the first `n` has a closing line behind it.
pub open spec fn closed_upto(lines: Seq<Seq<char>>, n: int) -> bool {
    forall|i: int|
        0 <= i < n && i < lines.len() && is_marker(#[trigger] lines[i]) ==> closing_from(
            lines,
            i + 1,
        ) < lines.len()
}

/// Every marker line of the file has a closing line behind it.
pub open spec fn closed(lines: Seq<Seq<char>>) -> bool {
    closed_upto(lines, lines.len() as int)
}

/// The lines of the block, in the order of `block`, joined by line feeds:
/// the text that is handed to the grammar's parser.
pub open spec fn collected(lines: Seq<Seq<char>>) -> Seq<char> {
    let at = block(lines);
    join(Seq::new(at.len(), |k: int| lines[at[k]]), seq!['\n'])
}

/// The integers that a sequence of machine indices stands for.
pub open spec fn as_ints(v: Seq<usize>) -> Seq<int> {
    Seq::new(v.len(), |k: int| v[k] as int)
}

/// Lines `from` to `to - 1` do not close a block, and line `to` does or is
/// the end: then `to` is where the span that starts at `from` closes.
pub proof fn lemma_closing_from(lines: Seq<Seq<char>>, from: int, to: int)
    requires
        0 <= from <= to <= lines.len(),
        forall|k: int| from <= k < to ==> !is_closing(#[trigger] lines[k]),
        to < lines.len() ==> is_closing(lines[to]),
    ensures
        closing_from(lines, from) == to,
    decreases to - from,
{
    if from < to {
        lemma_closing_from(lines, from + 1, to);
    }
}

/// Finds the first closing line at or behind `from`.
pub(crate) fn find_closing(lines: &Vec<Vec<char>>, from: usize) -> (to: usize)
    requires
        from <= lines.len(),
    ensures
        to == closing_from(views(lines@), from as int),
        from <= to <= lines.len(),
{
    let mut to: usize = from;
    while to < lines.len() && !contains_char(&lines[to], '}')
        invariant
            from <= to <= lines.len(),
            forall|k: int| from <= k < to ==> !is_closing(#[trigger] views(lines@)[k]),
        decreases lines.len() - to,
    {
        to += 1;
    }
    proof {
        lemma_closing_from(views(lines@), from as int, to as int);
    }
    to
}

/// Finds the lines of the load-path block. `Some` holds their indices in the
/// order of `block`; `None` says that a marker line is never closed.
pub fn locate(lines: &Vec<Vec<char>>) -> (found: Option<Vec<usize>>)
    ensures
        found is Some <==> closed(views(lines@)),
        found matches Some(at) ==> as_ints(at@) == block(views(lines@)),
{
    let marker = to_chars("SearchPaths");
    let mut at: Vec<usize> = Vec::new();
    let mut i: usize = 0;
    while i < lines.len()
        invariant
            i <= lines.len(),
            marker@ == "SearchPaths"@,
            closed_upto(views(lines@), i as int),
            as_ints(at@) == block_upto(views(lines@), i as int),
        decreases lines.len() - i,
    {
        if contains_seq(&lines[i], &marker) {
            assert(is_marker(views(lines@)[i as int]));
            let to: usize = find_closing(lines, i + 1);
            if to == lines.len() {
                return None;
            }
            let ghost before = as_ints(at@);
            let mut k: usize = i;
            while k <= to
                invariant
                    i <= k <= to + 1,
                    to < lines.len(),
                    as_ints(at@) == before + Seq::new((k - i) as nat, |q: int| i + q),
                decreases to + 1 - k,
            {
                let ghost sofar = as_ints(at@);
                at.push(k);
                proof {
                    assert(as_ints(at@) =~= sofar.push(k as int));
                    assert(sofar.push(k as int) =~= before + Seq::new(
                        (k + 1 - i) as nat,
                        |q: int| i + q,
                    ));
                }
                k += 1;
            }
        }
        i += 1;
    }
    Some(at)
}

/// Where every marker line among the first `n` is closed, the indices of
/// their spans are indices of lines.
pub proof fn lemma_block_in_range(lines: Seq<Seq<char>>, n: int)
    requires
        0 <= n <= lines.len(),
        closed_upto(lines, n),
    ensures
        forall|k: int|
            0 <= k < block_upto(lines, n).len() ==> 0 <= #[trigger] block_upto(lines, n)[k]
                < lines.len(),
    decreases n,
{
    if n > 0 {
        lemma_block_in_range(lines, n - 1);
        if is_marker(lines[n - 1]) {
            let to = closing_from(lines, n);
            lemma_closing_bounds(lines, n);
            assert(to < lines.len());
            let before = block_upto(lines, n - 1);
            let all = block_upto(lines, n);
            assert(all == before + span(lines, n - 1));
            assert forall|k: int| 0 <= k < all.len() implies 0 <= #[trigger] all[k]
                < lines.len() by {
                if k < before.len() {
                    assert(all[k] == before[k]);
                } else {
                    assert(all[k] == span(lines, n - 1)[k - before.len()]);
                }
            }
        } else {
            assert(block_upto(lines, n) == block_upto(lines, n - 1));
        }
    }
}

/// A span closes at or behind the line where the search starts, and not
/// behind the end.
pub proof fn lemma_closing_bounds(lines: Seq<Seq<char>>, from: int)
    requires
        0 <= from <= lines.len(),
    ensures
        from <= closing_from(lines, from) <= lines.len(),
        closing_from(lines, from) < lines.len() ==> is_closing(
            lines[closing_from(lines, from)],
        ),
        forall|k: int| from <= k < closing_from(lines, from) ==> !is_closing(#[trigger] lines[k]),
    decreases lines.len() - from,
{
    if from < lines.len() && !is_closing(lines[from]) {
        lemma_closing_bounds(lines, from + 1);
    }
}

/// There is a block exactly where there is a marker line.
pub proof fn lemma_block_nonempty(lines: Seq<Seq<char>>, n: int)
    requires
        0 <= n <= lines.len(),
    ensures
        block_upto(lines, n).len() > 0 <==> has_marker_upto(lines, n),
    decreases n,
{
    if n > 0 {
        lemma_block_nonempty(lines, n - 1);
        lemma_closing_bounds(lines, n);
        if is_marker(lines[n - 1]) {
            assert(has_marker_upto(lines, n));
        } else if has_marker_upto(lines, n) {
            let i = choose|i: int| 0 <= i < n && i < lines.len() && is_marker(#[trigger] lines[i]);
            assert(has_marker_upto(lines, n - 1));
        } else {
            if has_marker_upto(lines, n - 1) {
                let i = choose|i: int|
                    0 <= i < n - 1 && i < lines.len() && is_marker(#[trigger] lines[i]);
                assert(is_marker(lines[i]));
            }
        }
    }
}

fn copy_of(line: &Vec<char>) -> (out: Vec<char>)
    ensures
        out@ == line@,
{
    let mut out: Vec<char> = Vec::new();
    let mut i: usize = 0;
    while i < line.len()
        invariant
            i <= line.len(),
            out@ == line@.take(i as int),
        decreases line.len() - i,
    {
        out.push(line[i]);
        i += 1;
    }
    out
}

/// The text of the block's lines, joined by line feeds.
fn collect(lines: &Vec<Vec<char>>, at: &Vec<usize>) -> (out: Vec<char>)
    requires
        closed(views(lines@)),
        as_ints(at@) == block(views(lines@)),
    ensures
        out@ == collected(views(lines@)),
{
    let ghost all = views(lines@);
    let ghost want = Seq::new(block(all).len(), |k: int| all[block(all)[k]]);
    let mut picked: Vec<Vec<char>> = Vec::new();
    let mut k: usize = 0;
    proof {
        lemma_block_in_range(all, all.len() as int);
    }
    while k < at.len()
        invariant
            k <= at.len(),
            all == views(lines@),
            as_ints(at@) == block(all),
            want == Seq::new(block(all).len(), |k: int| all[block(all)[k]]),
            forall|q: int| 0 <= q < block(all).len() ==> 0 <= #[trigger] block(all)[q] < all.len(),
            views(picked@) == want.take(k as int),
        decreases at.len() - k,
    {
        let ghost sofar = views(picked@);
        assert(as_ints(at@)[k as int] == at[k as int]);
        let line = copy_of(&lines[at[k]]);
        picked.push(line);
        proof {
            assert(views(picked@) =~= sofar.push(want[k as int]));
            assert(want.take(k + 1) =~= sofar.push(want[k as int]));
        }
        k += 1;
    }
    proof {
        assert(want.take(k as int) =~= want);
    }
    join_with(&picked, '\n')
}

/// Takes the load-path block out of the text of a configuration file: the
/// lines of every span, in the order of `block`, joined by line feeds. This is
/// the text to hand to the grammar's parser. A file without a marker line
/// gives the empty text. It fails only where a marker line is never closed.
pub fn read_search_paths(content: &str) -> (found: Result<String, BlockError>)
    ensures
        match found {
            Ok(text) => closed(lines(content@)) && text@ == collected(lines(content@)),
            Err(e) => !closed(lines(content@)) && e == BlockError::NotClosed,
        },
{
    let chars = to_chars(content);
    let all = split_lines(&chars);
    match locate(&all) {
        Some(at) => {
            let out = collect(&all, &at);
            Ok(to_string(&out))
        },
        None => Err(BlockError::NotClosed),
    }
}

/// The text of a new block as it is written into the file: the serialized
/// block without its double quotes, split at line feeds, every piece behind
/// `tabs` tab characters, the pieces joined by line feeds.
pub open spec fn rendered(serialized: Seq<char>, tabs: nat) -> Seq<char> {
    join(indented(split(without(serialized, '"'), '\n'), tabs), seq!['\n'])
}

/// Every piece behind `tabs` tab characters.
pub open spec fn indented(pieces: Seq<Seq<char>>, tabs: nat) -> Seq<Seq<char>> {
    Seq::new(pieces.len(), |k: int| repeated('\t', tabs) + pieces[k])
}

/// Pieces that make one block: the first piece is a marker line and the
/// only one, and a piece behind it closes the block.
pub open spec fn is_one_block(pieces: Seq<Seq<char>>) -> bool {
    &&& pieces.len() >= 1
    &&& is_marker(pieces[0])
    &&& forall|k: int| 1 <= k < pieces.len() ==> !is_marker(#[trigger] pieces[k])
    &&& closing_from(pieces, 1) < pieces.len()
}

/// A serialized text that is the text of one block: it holds no carriage
/// return, and without its double quotes and cut at line feeds it makes one
/// block.
pub open spec fn is_block_text(serialized: Seq<char>) -> bool {
    &&& !serialized.contains('\r')
    &&& is_one_block(split(without(serialized, '"'), '\n'))
}

/// Tells whether a serialized text is the text of one block. For such a
/// text, what `write_search_paths` writes is what `read_search_paths` reads
/// from the new file.
pub fn holds_one_block(serialized: &str) -> (ok: bool)
    ensures
        ok == is_block_text(serialized@),
{
    let chars = to_chars(serialized);
    if contains_char(&chars, '\r') {
        return false;
    }
    let pieces = split_at_char(&remove_char(&chars, '"'), '\n');
    let ghost cut = split(without(serialized@, '"'), '\n');
    assert(views(pieces@) == cut);
    let marker = to_chars("SearchPaths");
    if pieces.len() == 0 || !contains_seq(&pieces[0], &marker) {
        assert(cut.len() == 0 || !is_marker(cut[0]));
        return false;
    }
    assert(is_marker(cut[0]));
    let mut k: usize = 1;
    while k < pieces.len()
        invariant
            1 <= k <= pieces.len(),
            marker@ == "SearchPaths"@,
            views(pieces@) == cut,
            cut == split(without(serialized@, '"'), '\n'),
            forall|q: int| 1 <= q < k ==> !is_marker(#[trigger] cut[q]),
        decreases pieces.len() - k,
    {
        if contains_seq(&pieces[k], &marker) {
            assert(is_marker(cut[k as int]));
            return false;
        }
        assert(!is_marker(cut[k as int]));
        k += 1;
    }
    find_closing(&pieces, 1) < pieces.len()
}

/// The first `n` parts with the block replaced. There is one part for every
/// line, and `lines` says which of them belong to the block: `text` stands
/// where the first part of the block stood, every other part of the block is
/// left out, and every other part is kept as it is.
pub open spec fn spliced_upto(
    lines: Seq<Seq<char>>,
    parts: Seq<Seq<char>>,
    text: Seq<char>,
    n: int,
) -> Seq<Seq<char>>
    decreases n,
{
    if n <= 0 {
        Seq::<Seq<char>>::empty()
    } else {
        let before = spliced_upto(lines, parts, text, n - 1);
        if n - 1 == block(lines)[0] {
            before.push(text)
        } else if block(lines).contains(n - 1) {
            before
        } else {
            before.push(parts[n - 1])
        }
    }
}

/// What is written in place of the block, given the lines of the file with
/// their endings: the new block, indented as deep as the first marker line,
/// and behind it the ending of the line that closes the first span. So the
/// new block ends as the old one did, with a line feed, with a carriage
/// return and a line feed, or with the end of the file.
pub open spec fn replacement(raw: Seq<Seq<char>>, serialized: Seq<char>) -> Seq<char> {
    let lines = contents(raw);
    let first = block(lines)[0];
    let tabs = leading(lines[first], '\t');
    rendered(serialized, tabs) + ending_of(raw[closing_from(lines, first + 1)])
}

/// The lines of a file, with their endings, around a new block whose
/// serialized form is `serialized`. Every line outside the block is there as
/// it was, ending included.
pub open spec fn patched_parts(raw: Seq<Seq<char>>, serialized: Seq<char>) -> Seq<Seq<char>> {
    spliced_upto(contents(raw), raw, replacement(raw, serialized), raw.len() as int)
}

/// The text of a configuration file around a new block.
pub open spec fn patched(content: Seq<char>, serialized: Seq<char>) -> Seq<char> {
    concat(patched_parts(raw_lines(content), serialized))
}

fn render(serialized: &Vec<char>, tabs: usize) -> (out: Vec<char>)
    ensures
        out@ == rendered(serialized@, tabs as nat),
{
    let bare = remove_char(serialized, '"');
    let pieces = split_at_char(&bare, '\n');
    let ghost want = indented(views(pieces@), tabs as nat);
    let mut deep: Vec<Vec<char>> = Vec::new();
    let mut k: usize = 0;
    while k < pieces.len()
        invariant
            k <= pieces.len(),
            want == indented(views(pieces@), tabs as nat),
            views(deep@) == want.take(k as int),
        decreases pieces.len() - k,
    {
        let ghost sofar = views(deep@);
        let piece = prefixed(&pieces[k], '\t', tabs);
        deep.push(piece);
        proof {
            assert(views(deep@) =~= sofar.push(want[k as int]));
            assert(want.take(k + 1) =~= sofar.push(want[k as int]));
        }
        k += 1;
    }
    proof {
        assert(want.take(k as int) =~= want);
    }
    join_with(&deep, '\n')
}

fn index_in(at: &Vec<usize>, i: usize) -> (found: bool)
    ensures
        found == as_ints(at@).contains(i as int),
{
    let mut k: usize = 0;
    while k < at.len()
        invariant
            k <= at.len(),
            forall|q: int| 0 <= q < k ==> as_ints(at@)[q] != i,
        decreases at.len() - k,
    {
        if at[k] == i {
            assert(as_ints(at@)[k as int] == i);
            return true;
        }
        k += 1;
    }
    false
}

/// Replaces the block among the parts by `text`.
fn splice(lines: &Vec<Vec<char>>, parts: &Vec<Vec<char>>, at: &Vec<usize>, text: &Vec<char>) -> (out:
    Vec<Vec<char>>)
    requires
        as_ints(at@) == block(views(lines@)),
        at.len() > 0,
        parts.len() == lines.len(),
    ensures
        views(out@) == spliced_upto(views(lines@), views(parts@), text@, lines.len() as int),
{
    let ghost all = views(lines@);
    let ghost kept = views(parts@);
    let first: usize = at[0];
    assert(as_ints(at@)[0] == first);
    let mut out: Vec<Vec<char>> = Vec::new();
    let mut i: usize = 0;
    while i < lines.len()
        invariant
            i <= lines.len(),
            parts.len() == lines.len(),
            all == views(lines@),
            kept == views(parts@),
            as_ints(at@) == block(all),
            first == block(all)[0],
            views(out@) == spliced_upto(all, kept, text@, i as int),
        decreases lines.len() - i,
    {
        let ghost sofar = views(out@);
        if i == first {
            out.push(copy_of(text));
            proof {
                assert(views(out@) =~= sofar.push(text@));
            }
        } else if !index_in(at, i) {
            out.push(copy_of(&parts[i]));
            proof {
                assert(views(out@) =~= sofar.push(kept[i as int]));
            }
        }
        i += 1;
    }
    out
}

/// The new block with the ending of `raw` behind it.
fn with_ending(text: Vec<char>, raw: &Vec<char>) -> (out: Vec<char>)
    ensures
        out@ == text@ + ending_of(raw@),
{
    let mut out = text;
    let from: usize = content_of(raw).len();
    let mut i: usize = from;
    while i < raw.len()
        invariant
            from <= i <= raw.len(),
            from == line_of(raw@).len(),
            out@ == text@ + raw@.subrange(from as int, i as int),
        decreases raw.len() - i,
    {
        out.push(raw[i]);
        proof {
            assert(raw@.subrange(from as int, i + 1) =~= raw@.subrange(from as int, i as int).push(
                raw[i as int],
            ));
        }
        i += 1;
    }
    proof {
        assert(raw@.subrange(from as int, raw.len() as int) =~= raw@.skip(from as int));
    }
    out
}

/// Rewrites the text of a configuration file around a new load-path block,
/// given in the serialized form of the configuration grammar. The new block
/// stands where the first line of the old one stood, as deep as that line was
/// indented by tabs, and ends as the first span of the old block ended; every
/// other line of the old block is gone. Everything else in the file stays as
/// it is, character by character: every line outside the block keeps its
/// place and its ending, and the file ends with a line feed exactly where it
/// did before. It fails where the file has no marker line, or a marker line
/// that is never closed; nothing is to be written then.
pub fn write_search_paths(content: &str, serialized: &str) -> (written: Result<String, BlockError>)
    ensures
        match written {
            Ok(text) => {
                &&& has_block(lines(content@))
                &&& closed(lines(content@))
                &&& text@ == patched(content@, serialized@)
                &&& is_patch_around_block(content@, serialized@, text@)
            },
            Err(e) => if has_block(lines(content@)) {
                !closed(lines(content@)) && e == BlockError::NotClosed
            } else {
                e == BlockError::NotFound
            },
        },
{
    let chars = to_chars(content);
    let raw = split_raw_lines(&chars);
    let all = contents_of(&raw);
    proof {
        lemma_block_nonempty(views(all@), all.len() as int);
        assert(views(all@).len() == views(raw@).len());
    }
    match locate(&all) {
        Some(at) => {
            if at.len() == 0 {
                return Err(BlockError::NotFound);
            }
            proof {
                lemma_block_in_range(views(all@), all.len() as int);
                assert(as_ints(at@)[0] == at[0]);
                lemma_block_start(views(all@), all.len() as int);
            }
            let first: usize = at[0];
            let last: usize = find_closing(&all, first + 1);
            let tabs: usize = count_leading(&all[first], '\t');
            let text = with_ending(render(&to_chars(serialized), tabs), &raw[last]);
            let out = splice(&all, &raw, &at, &text);
            proof {
                law_patch_keeps_other_lines(content@, serialized@);
            }
            Ok(to_string(&concat_all(&out)))
        },
        None => {
            proof {
                let l = views(all@);
                if !has_block(l) {
                    assert(closed(l));
                }
            }
            Err(BlockError::NotClosed)
        },
    }
}

/// The block starts with a marker line, where it is not empty.
pub proof fn lemma_block_start(lines: Seq<Seq<char>>, n: int)
    requires
        0 <= n <= lines.len(),
        block_upto(lines, n).len() > 0,
    ensures
        0 <= block_upto(lines, n)[0] < n,
        is_marker(lines[block_upto(lines, n)[0]]),
    decreases n,
{
    if n > 0 {
        if block_upto(lines, n - 1).len() > 0 {
            lemma_block_start(lines, n - 1);
            if is_marker(lines[n - 1]) {
                assert(block_upto(lines, n)[0] == block_upto(lines, n - 1)[0]);
            }
        } else {
            assert(is_marker(lines[n - 1]));
            assert(block_upto(lines, n) =~= span(lines, n - 1));
            lemma_closing_bounds(lines, n);
            assert(span(lines, n - 1)[0] == n - 1);
        }
    }
}

} // verus!
