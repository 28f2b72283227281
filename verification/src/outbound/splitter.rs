//! Splitting of long messages: by lines with code fences closed and reopened
//! at the boundaries, and by characters at newline boundaries for plain text.

use crate::outbound::markdown;
use crate::text;
use crate::text::CharClass;
use vstd::prelude::*;

verus! {

// ── sizes ──

/// The number of bytes of a character in UTF-8.
pub open spec fn utf8_width(c: char) -> nat {
    let u = c as u32;
    if u < 0x80 {
        1
    } else if u < 0x800 {
        2
    } else if u < 0x1_0000 {
        3
    } else {
        4
    }
}

/// The number of bytes of a text in UTF-8.
pub open spec fn utf8_len(s: Seq<char>) -> nat
    decreases s.len(),
{
    if s.len() == 0 {
        0
    } else {
        utf8_len(s.drop_last()) + utf8_width(s.last())
    }
}

/// A text has at least as many bytes as characters and at most four for each.
proof fn lemma_utf8_len(s: Seq<char>)
    ensures
        s.len() <= utf8_len(s) <= 4 * s.len(),
    decreases s.len(),
{
    if s.len() != 0 {
        lemma_utf8_len(s.drop_last());
    }
}

/// Counts the bytes of a text in UTF-8.
fn byte_len(v: &[char]) -> (r: u128)
    ensures
        r == utf8_len(v@),
        r <= 4 * usize::MAX,
{
    let n: usize = v.len();
    let mut total: u128 = 0;
    let mut i: usize = 0;
    while i < n
        invariant
            n == v@.len(),
            i <= n,
            total == utf8_len(v@.take(i as int)),
            total <= 4 * i,
        decreases n - i,
    {
        assert(v@.take(i + 1).drop_last() =~= v@.take(i as int));
        let u: u32 = v[i] as u32;
        let width: u128 = if u < 0x80 {
            1
        } else if u < 0x800 {
            2
        } else if u < 0x1_0000 {
            3
        } else {
            4
        };
        total += width;
        i += 1;
    }
    assert(v@.take(i as int) =~= v@);
    total
}

// ── fence lines ──

/// ``^```(\w*)$``: the language that a fence line names, which may be empty.
pub open spec fn fence_line(line: Seq<char>) -> Option<Seq<char>> {
    if text::begins(line, markdown::fence_mark()) && text::all_in(line.skip(3), CharClass::Word) {
        Some(line.skip(3))
    } else {
        None
    }
}

/// The open code block after a line: a fence line that names a language opens
/// one, and a bare fence line closes the open one or opens one without a
/// language.
pub open spec fn fence_step(open: Option<Seq<char>>, line: Seq<char>) -> Option<Seq<char>> {
    match fence_line(line) {
        None => open,
        Some(lang) => if lang.len() > 0 {
            Some(lang)
        } else if open is Some {
            None
        } else {
            Some(Seq::empty())
        },
    }
}

/// The open code block after several lines.
pub open spec fn fence_after(open: Option<Seq<char>>, lines: Seq<Seq<char>>) -> Option<Seq<char>>
    decreases lines.len(),
{
    if lines.len() == 0 {
        open
    } else {
        fence_step(fence_after(open, lines.drop_last()), lines.last())
    }
}

/// A heading at any indent.
pub open spec fn heading_line(line: Seq<char>) -> bool {
    markdown::heading(text::trim_start(line, CharClass::Blank))
}

/// Reads a fence line.
fn parse_fence(line: &[char]) -> (r: Option<Vec<char>>)
    ensures
        match r {
            Some(lang) => fence_line(line@) == Some(lang@),
            None => fence_line(line@) is None,
        },
{
    let mark: Vec<char> = vec!['`', '`', '`'];
    assert(mark@ =~= markdown::fence_mark());
    if !text::begins_with(line, &mark) {
        return None;
    }
    let rest = text::slice_of(line, 3, line.len());
    assert(rest@ =~= line@.skip(3));
    if text::all_belong(&rest, CharClass::Word) {
        Some(rest)
    } else {
        None
    }
}

/// Decides `heading_line`.
fn is_heading_line(line: &[char]) -> (r: bool)
    ensures
        r == heading_line(line@),
{
    let t = text::trimmed_start(line, CharClass::Blank);
    markdown::is_heading(&t)
}

// ── groups of lines ──

/// The source lines of one chunk, and the code block that is open where they
/// begin.
pub struct Group {
    pub open: Option<Seq<char>>,
    pub lines: Seq<Seq<char>>,
}

/// The line that reopens a code block.
pub open spec fn reopening(open: Option<Seq<char>>) -> Seq<Seq<char>> {
    match open {
        Some(lang) => seq![markdown::fence_mark() + lang],
        None => Seq::empty(),
    }
}

/// The line that closes a code block.
pub open spec fn closing(open: Option<Seq<char>>) -> Seq<Seq<char>> {
    match open {
        Some(_) => seq![markdown::fence_mark()],
        None => Seq::empty(),
    }
}

/// The lines of a chunk up to the closing mark.
pub open spec fn front_lines(g: Group) -> Seq<Seq<char>> {
    reopening(g.open) + g.lines
}

/// The lines of a chunk: an open code block is reopened in front of the source
/// lines, and one that is still open after them is closed.
pub open spec fn chunk_lines(g: Group) -> Seq<Seq<char>> {
    front_lines(g) + closing(fence_after(g.open, g.lines))
}

/// The text of a chunk.
pub open spec fn chunk_of(g: Group) -> Seq<char> {
    text::join(chunk_lines(g), seq!['\n'])
}

/// What the lines of a group count against the limit, in bytes: the reopening
/// line, and each source line with a line feed, of which the very first line
/// of the text has none.
pub open spec fn weight(g: Group, first: bool) -> nat
    decreases g.lines.len(),
{
    if g.lines.len() == 0 {
        match g.open {
            Some(lang) => utf8_len(markdown::fence_mark() + lang),
            None => 0,
        }
    } else {
        let rest = Group { open: g.open, lines: g.lines.drop_last() };
        let feed: nat = if first && g.lines.len() == 1 {
            0
        } else {
            1
        };
        weight(rest, first) + utf8_len(g.lines.last()) + feed
    }
}

/// Whether the next line starts a new chunk: it no longer fits, or it is a
/// heading and three quarters of the limit are used.
pub open spec fn breaks_before(line: Seq<char>, used: nat, limit: nat) -> bool {
    used + utf8_len(line) + 1 > limit || heading_line(line) && 4 * used > 3 * limit
}

/// The first `n` lines in groups, filled one after another.
pub open spec fn grouped(lines: Seq<Seq<char>>, n: int, limit: nat) -> Seq<Group>
    decreases n,
{
    if n <= 0 {
        Seq::empty()
    } else {
        let gs = grouped(lines, n - 1, limit);
        let line = lines[n - 1];
        if gs.len() == 0 {
            seq![Group { open: None, lines: seq![line] }]
        } else {
            let g = gs.last();
            if breaks_before(line, weight(g, gs.len() == 1), limit) {
                gs.push(Group { open: fence_after(g.open, g.lines), lines: seq![line] })
            } else {
                gs.drop_last().push(Group { open: g.open, lines: g.lines.push(line) })
            }
        }
    }
}

/// A line in pieces of `limit` characters, of which the last may have fewer.
pub open spec fn line_pieces(line: Seq<char>, limit: nat) -> Seq<Seq<char>>
    decreases line.len(),
{
    if limit == 0 || line.len() <= limit {
        seq![line]
    } else {
        seq![line.take(limit as int)] + line_pieces(line.skip(limit as int), limit)
    }
}

/// Lines, each of them in pieces.
pub open spec fn cut_lines(lines: Seq<Seq<char>>, limit: nat) -> Seq<Seq<char>>
    decreases lines.len(),
{
    if lines.len() == 0 {
        Seq::empty()
    } else {
        cut_lines(lines.drop_last(), limit) + line_pieces(lines.last(), limit)
    }
}

/// The lines that the chunks of a text are made of. Where the text holds a code
/// fence they are its lines; else those that are too long are cut.
pub open spec fn lines_within(s: Seq<char>, limit: nat) -> Seq<Seq<char>> {
    if text::occurs(s, markdown::fence_mark()) {
        text::split_on(s, '\n')
    } else {
        cut_lines(text::split_on(s, '\n'), limit)
    }
}

/// The groups that a text is split into.
pub open spec fn groups_of(s: Seq<char>, limit: nat) -> Seq<Group> {
    let lines = lines_within(s, limit);
    grouped(lines, lines.len() as int, limit)
}

/// The chunks of the groups.
pub open spec fn chunks_of(gs: Seq<Group>) -> Seq<Seq<char>> {
    Seq::new(gs.len(), |i: int| chunk_of(gs[i]))
}

/// The chunks that a markdown text is split into: itself where it fits or
/// there is no limit.
pub open spec fn fenced_chunks(s: Seq<char>, limit: nat) -> Seq<Seq<char>> {
    if limit == 0 || s.len() <= limit {
        seq![s]
    } else {
        chunks_of(groups_of(s, limit))
    }
}

// ── what holds of the chunks ──

/// The source lines of all groups, in order.
pub open spec fn source_lines(gs: Seq<Group>) -> Seq<Seq<char>>
    decreases gs.len(),
{
    if gs.len() == 0 {
        Seq::empty()
    } else {
        source_lines(gs.drop_last()) + gs.last().lines
    }
}

/// No line is lost, doubled or moved: the source lines of the first `n` lines'
/// groups are those lines, and no group is without a line.
proof fn lemma_grouped_lines(lines: Seq<Seq<char>>, n: int, limit: nat)
    requires
        0 <= n <= lines.len(),
    ensures
        source_lines(grouped(lines, n, limit)) == lines.take(n),
        n > 0 ==> grouped(lines, n, limit).len() > 0,
        forall|i: int|
            0 <= i < grouped(lines, n, limit).len() ==> (#[trigger] grouped(
                lines,
                n,
                limit,
            )[i]).lines.len() > 0,
    decreases n,
{
    if n > 0 {
        lemma_grouped_lines(lines, n - 1, limit);
        let gs = grouped(lines, n - 1, limit);
        let next = grouped(lines, n, limit);
        let line = lines[n - 1];
        assert(lines.take(n) =~= lines.take(n - 1).push(line));
        if gs.len() == 0 {
            assert(next.drop_last() =~= Seq::<Group>::empty());
            assert(source_lines(next) =~= seq![line]);
            assert(lines.take(n - 1).len() == 0);
        } else {
            let g = gs.last();
            if breaks_before(line, weight(g, gs.len() == 1), limit) {
                assert(next.drop_last() =~= gs);
            } else {
                assert(next.drop_last() =~= gs.drop_last());
                assert(source_lines(next) =~= source_lines(gs.drop_last()) + g.lines.push(line));
            }
        }
        assert(source_lines(next) =~= lines.take(n));
    } else {
        assert(lines.take(0) =~= Seq::<Seq<char>>::empty());
    }
}

/// Nothing of the text is lost: the source lines of the chunks, in order, are
/// the lines of the text, whole where the text holds a code fence and else each
/// in its pieces, and every chunk holds at least one of them.
pub proof fn splitting_keeps_every_line(s: Seq<char>, limit: nat)
    ensures
        source_lines(groups_of(s, limit)) == lines_within(s, limit),
        text::join(text::split_on(s, '\n'), seq!['\n']) == s,
        text::occurs(s, markdown::fence_mark()) ==> text::join(
            source_lines(groups_of(s, limit)),
            seq!['\n'],
        ) == s,
        forall|i: int|
            0 <= i < groups_of(s, limit).len() ==> (#[trigger] groups_of(s, limit)[i]).lines.len()
                > 0,
{
    let lines = lines_within(s, limit);
    lemma_grouped_lines(lines, lines.len() as int, limit);
    assert(lines.take(lines.len() as int) =~= lines);
    text::split_then_join(s, '\n');
}

/// The pieces of a line one after another are the line. None of them is longer
/// than the limit, and all but the last reach it.
pub proof fn pieces_keep_the_line(line: Seq<char>, limit: nat)
    requires
        limit > 0,
    ensures
        line_pieces(line, limit).len() > 0,
        text::concat(line_pieces(line, limit)) == line,
        forall|i: int|
            0 <= i < line_pieces(line, limit).len() ==> (#[trigger] line_pieces(line, limit)[i]).len()
                <= limit,
        forall|i: int|
            0 <= i < line_pieces(line, limit).len() - 1 ==> (#[trigger] line_pieces(
                line,
                limit,
            )[i]).len() == limit,
    decreases line.len(),
{
    let ps = line_pieces(line, limit);
    if line.len() <= limit {
        assert(ps.drop_last() =~= Seq::<Seq<char>>::empty());
        assert(text::concat(Seq::<Seq<char>>::empty()) =~= Seq::<char>::empty());
        assert(text::concat(ps) =~= line);
    } else {
        let front = line.take(limit as int);
        let back = line.skip(limit as int);
        let rest = line_pieces(back, limit);
        pieces_keep_the_line(back, limit);
        lemma_concat_front(front, rest);
        assert(front + back =~= line);
        assert forall|i: int| 0 <= i < ps.len() implies (#[trigger] ps[i]).len() <= limit by {
            if i > 0 {
                assert(ps[i] == rest[i - 1]);
            }
        }
        assert forall|i: int| 0 <= i < ps.len() - 1 implies (#[trigger] ps[i]).len() == limit by {
            if i > 0 {
                assert(ps[i] == rest[i - 1]);
            }
        }
    }
}

/// What occurs in a part of a text occurs in the text.
proof fn lemma_occurs_within(s: Seq<char>, part: Seq<char>, p: Seq<char>)
    requires
        text::occurs(s, part),
        text::occurs(part, p),
    ensures
        text::occurs(s, p),
{
    let a = choose|a: int| #[trigger] text::occurs_at(s, part, a);
    let b = choose|b: int| #[trigger] text::occurs_at(part, p, b);
    assert(s.subrange(a, a + part.len()).subrange(b, b + p.len()) =~= s.subrange(
        a + b,
        a + b + p.len(),
    ));
    assert(text::occurs_at(s, p, a + b));
}

/// A line that can stand in a chunk of plain text.
spec fn plain_line(line: Seq<char>, limit: nat) -> bool {
    line.len() <= limit && fence_line(line) is None
}

/// The pieces of a line without a code fence are plain lines.
proof fn lemma_pieces_plain(line: Seq<char>, limit: nat, i: int)
    requires
        limit > 0,
        !text::occurs(line, markdown::fence_mark()),
        0 <= i < line_pieces(line, limit).len(),
    ensures
        plain_line(line_pieces(line, limit)[i], limit),
    decreases line.len(),
{
    let mark = markdown::fence_mark();
    if line.len() <= limit {
        assert(!text::occurs_at(line, mark, 0));
    } else {
        let front = line.take(limit as int);
        let back = line.skip(limit as int);
        if i == 0 {
            if text::begins(front, mark) {
                assert(front.subrange(0, 3) =~= line.subrange(0, 3));
                assert(text::occurs_at(line, mark, 0));
            }
        } else {
            if text::occurs(back, mark) {
                assert(line.subrange(limit as int, line.len() as int) =~= back);
                assert(text::occurs_at(line, back, limit as int));
                lemma_occurs_within(line, back, mark);
            }
            lemma_pieces_plain(back, limit, i - 1);
        }
    }
}

/// The pieces of lines without a code fence are plain lines.
proof fn lemma_cut_lines_plain(lines: Seq<Seq<char>>, limit: nat, i: int)
    requires
        limit > 0,
        forall|k: int|
            0 <= k < lines.len() ==> !text::occurs(#[trigger] lines[k], markdown::fence_mark()),
        0 <= i < cut_lines(lines, limit).len(),
    ensures
        plain_line(cut_lines(lines, limit)[i], limit),
    decreases lines.len(),
{
    let before = cut_lines(lines.drop_last(), limit);
    if i < before.len() {
        assert forall|k: int| 0 <= k < lines.drop_last().len() implies !text::occurs(
            #[trigger] lines.drop_last()[k],
            markdown::fence_mark(),
        ) by {
            assert(lines.drop_last()[k] == lines[k]);
        }
        lemma_cut_lines_plain(lines.drop_last(), limit, i);
    } else {
        assert(lines.last() == lines[lines.len() - 1]);
        lemma_pieces_plain(lines.last(), limit, i - before.len());
    }
}

/// The lines of a text without a code fence are plain once they are cut.
proof fn lemma_lines_within_plain(s: Seq<char>, limit: nat)
    requires
        limit > 0,
        !text::occurs(s, markdown::fence_mark()),
    ensures
        forall|i: int|
            0 <= i < lines_within(s, limit).len() ==> plain_line(
                #[trigger] lines_within(s, limit)[i],
                limit,
            ),
{
    let lines = text::split_on(s, '\n');
    text::split_then_join(s, '\n');
    assert forall|k: int| 0 <= k < lines.len() implies !text::occurs(
        #[trigger] lines[k],
        markdown::fence_mark(),
    ) by {
        text::joined_text_holds_its_parts(lines, seq!['\n'], k);
        if text::occurs(lines[k], markdown::fence_mark()) {
            lemma_occurs_within(s, lines[k], markdown::fence_mark());
        }
    }
    assert forall|i: int| 0 <= i < lines_within(s, limit).len() implies plain_line(
        #[trigger] lines_within(s, limit)[i],
        limit,
    ) by {
        lemma_cut_lines_plain(lines, limit, i);
    }
}

/// A group of plain lines: no code block is open anywhere in it.
spec fn plain_group(g: Group, limit: nat) -> bool {
    &&& g.open is None
    &&& fence_after(None, g.lines) is None
    &&& g.lines.len() == 1 ==> g.lines[0].len() <= limit
}

proof fn lemma_grouped_plain(lines: Seq<Seq<char>>, n: int, limit: nat)
    requires
        0 <= n <= lines.len(),
        forall|i: int| 0 <= i < lines.len() ==> plain_line(#[trigger] lines[i], limit),
    ensures
        forall|i: int|
            0 <= i < grouped(lines, n, limit).len() ==> plain_group(
                #[trigger] grouped(lines, n, limit)[i],
                limit,
            ),
    decreases n,
{
    if n > 0 {
        lemma_grouped_plain(lines, n - 1, limit);
        lemma_grouped_lines(lines, n - 1, limit);
        let gs = grouped(lines, n - 1, limit);
        let next = grouped(lines, n, limit);
        let line = lines[n - 1];
        assert(plain_line(line, limit));
        assert(seq![line].drop_last() =~= Seq::<Seq<char>>::empty());
        assert(fence_after(None, Seq::<Seq<char>>::empty()) is None);
        assert(fence_after(None, seq![line]) is None);
        if gs.len() > 0 {
            let g = gs.last();
            assert(plain_group(gs[gs.len() - 1], limit));
            assert(gs[gs.len() - 1].lines.len() > 0);
            assert(g.lines.push(line).drop_last() =~= g.lines);
            assert forall|i: int| 0 <= i < next.len() implies plain_group(
                #[trigger] next[i],
                limit,
            ) by {
                if i < gs.len() {
                    assert(plain_group(gs[i], limit));
                }
            }
        }
    }
}

/// The open code block is what follows from all lines before: the first group
/// begins outside a code block and each other group where the one before ends.
pub open spec fn continuous(gs: Seq<Group>) -> bool {
    &&& gs.len() > 0 ==> gs[0].open is None
    &&& forall|i: int|
        0 < i < gs.len() ==> (#[trigger] gs[i]).open == fence_after(
            gs[i - 1].open,
            gs[i - 1].lines,
        )
}

/// A language that a fence line names consists of word characters.
pub open spec fn proper(open: Option<Seq<char>>) -> bool {
    open matches Some(lang) ==> text::all_in(lang, CharClass::Word)
}

proof fn lemma_fence_after_proper(open: Option<Seq<char>>, lines: Seq<Seq<char>>)
    requires
        proper(open),
    ensures
        proper(fence_after(open, lines)),
    decreases lines.len(),
{
    if lines.len() != 0 {
        lemma_fence_after_proper(open, lines.drop_last());
    }
}

proof fn lemma_grouped_continuous(lines: Seq<Seq<char>>, n: int, limit: nat)
    requires
        0 <= n <= lines.len(),
    ensures
        continuous(grouped(lines, n, limit)),
        forall|i: int|
            0 <= i < grouped(lines, n, limit).len() ==> proper(
                (#[trigger] grouped(lines, n, limit)[i]).open,
            ),
    decreases n,
{
    if n > 0 {
        lemma_grouped_continuous(lines, n - 1, limit);
        let gs = grouped(lines, n - 1, limit);
        let next = grouped(lines, n, limit);
        if gs.len() > 0 {
            let g = gs.last();
            assert(proper(gs[gs.len() - 1].open));
            lemma_fence_after_proper(g.open, g.lines);
            assert forall|i: int| 0 < i < next.len() implies (#[trigger] next[i]).open
                == fence_after(next[i - 1].open, next[i - 1].lines) by {
                if i < gs.len() {
                    assert(gs[i].open == fence_after(gs[i - 1].open, gs[i - 1].lines));
                }
            }
            assert forall|i: int| 0 <= i < next.len() implies proper((#[trigger] next[i]).open) by {
                if i < gs.len() {
                    assert(proper(gs[i].open));
                }
            }
        }
    }
}

/// The open code block after two lists of lines.
proof fn lemma_fence_after_concat(
    open: Option<Seq<char>>,
    a: Seq<Seq<char>>,
    b: Seq<Seq<char>>,
)
    ensures
        fence_after(open, a + b) == fence_after(fence_after(open, a), b),
    decreases b.len(),
{
    if b.len() == 0 {
        assert(a + b =~= a);
    } else {
        assert((a + b).drop_last() =~= a + b.drop_last());
        lemma_fence_after_concat(open, a, b.drop_last());
    }
}

/// A line made of the mark and a proper language is a fence line that names it.
proof fn lemma_mark_is_fence_line(lang: Seq<char>)
    requires
        text::all_in(lang, CharClass::Word),
    ensures
        fence_line(markdown::fence_mark() + lang) == Some(lang),
{
    let line = markdown::fence_mark() + lang;
    assert(line.subrange(0, 3) =~= markdown::fence_mark());
    assert(line.skip(3) =~= lang);
}

/// The lines of a chunk leave no code block open.
proof fn lemma_chunk_balanced(g: Group)
    requires
        proper(g.open),
    ensures
        fence_after(None, chunk_lines(g)) is None,
{
    let re = reopening(g.open);
    let end = fence_after(g.open, g.lines);
    lemma_fence_after_concat(None, re + g.lines, closing(end));
    lemma_fence_after_concat(None, re, g.lines);
    match g.open {
        Some(lang) => {
            lemma_mark_is_fence_line(lang);
            assert(re.drop_last() =~= Seq::<Seq<char>>::empty());
            assert(fence_after(None, re.drop_last()) is None);
            assert(fence_after(None, re) == fence_step(None, re.last()));
            assert(lang.len() == 0 ==> lang =~= Seq::<char>::empty());
        },
        None => {
            assert(fence_after(None, re) is None);
        },
    }
    assert(fence_after(None, re) == g.open);
    if end is Some {
        lemma_mark_is_fence_line(Seq::empty());
        assert(markdown::fence_mark() + Seq::<char>::empty() =~= markdown::fence_mark());
        let c = closing(end);
        assert(c.drop_last() =~= Seq::<Seq<char>>::empty());
        assert(fence_after(end, c.drop_last()) == end);
        assert(fence_after(end, c) == fence_step(end, c.last()));
    }
}

/// Code blocks survive the boundaries: every chunk read by itself closes what
/// it opens, and each chunk reopens the block that the chunk before had to
/// close.
pub proof fn chunks_have_balanced_fences(s: Seq<char>, limit: nat)
    ensures
        continuous(groups_of(s, limit)),
        forall|i: int|
            0 <= i < groups_of(s, limit).len() ==> fence_after(
                None,
                chunk_lines(#[trigger] groups_of(s, limit)[i]),
            ) is None,
{
    let lines = lines_within(s, limit);
    lemma_grouped_continuous(lines, lines.len() as int, limit);
    let gs = groups_of(s, limit);
    assert forall|i: int| 0 <= i < gs.len() implies fence_after(
        None,
        chunk_lines(#[trigger] gs[i]),
    ) is None by {
        lemma_chunk_balanced(gs[i]);
    }
}

/// A group of several lines weighs at most the limit.
spec fn fits(gs: Seq<Group>, i: int, limit: nat) -> bool {
    gs[i].lines.len() > 1 ==> weight(gs[i], i == 0) <= limit
}

proof fn lemma_grouped_fits(lines: Seq<Seq<char>>, n: int, limit: nat)
    requires
        0 <= n <= lines.len(),
    ensures
        forall|i: int|
            0 <= i < grouped(lines, n, limit).len() ==> #[trigger] fits(
                grouped(lines, n, limit),
                i,
                limit,
            ),
    decreases n,
{
    if n > 0 {
        lemma_grouped_fits(lines, n - 1, limit);
        lemma_grouped_lines(lines, n - 1, limit);
        let gs = grouped(lines, n - 1, limit);
        let next = grouped(lines, n, limit);
        if gs.len() > 0 {
            let g = gs.last();
            let line = lines[n - 1];
            assert(g.lines.push(line).drop_last() =~= g.lines);
            assert(gs[gs.len() - 1].lines.len() > 0);
            assert forall|i: int| 0 <= i < next.len() implies #[trigger] fits(next, i, limit) by {
                if i < gs.len() {
                    assert(fits(gs, i, limit));
                }
            }
        }
    }
}

/// The length of lines joined by line feeds is at most what they weigh.
proof fn lemma_front_len(g: Group, first: bool)
    requires
        first ==> g.open is None,
    ensures
        text::join(front_lines(g), seq!['\n']).len() <= weight(g, first),
    decreases g.lines.len(),
{
    let sep = seq!['\n'];
    if g.lines.len() == 0 {
        match g.open {
            Some(lang) => {
                lemma_utf8_len(markdown::fence_mark() + lang);
                assert(front_lines(g) =~= seq![markdown::fence_mark() + lang]);
            },
            None => {
                assert(front_lines(g) =~= Seq::<Seq<char>>::empty());
            },
        }
    } else {
        let rest = Group { open: g.open, lines: g.lines.drop_last() };
        lemma_front_len(rest, first);
        lemma_utf8_len(g.lines.last());
        assert(front_lines(g).drop_last() =~= front_lines(rest));
        assert(front_lines(g).last() == g.lines.last());
        if front_lines(g).len() == 1 {
            assert(front_lines(g)[0] == g.lines.last());
        }
    }
}

/// A group weighs at least as much as one of its lines and a line feed for every
/// other one.
proof fn lemma_weight(g: Group, first: bool, k: int)
    requires
        0 <= k < g.lines.len(),
    ensures
        weight(g, first) >= g.lines[k].len() + g.lines.len() - 1,
    decreases g.lines.len(),
{
    let rest = Group { open: g.open, lines: g.lines.drop_last() };
    lemma_utf8_len(g.lines.last());
    if k < rest.lines.len() {
        lemma_weight(rest, first, k);
    } else if rest.lines.len() > 0 {
        lemma_weight(rest, first, 0);
    }
}

/// A line that fills a chunk stands in it alone. So what goes on behind a piece
/// of a line that was cut goes on in the next chunk, with nothing in between.
pub proof fn full_lines_stand_alone(s: Seq<char>, limit: nat)
    ensures
        forall|i: int, k: int|
            0 <= i < groups_of(s, limit).len() && 0 <= k < groups_of(s, limit)[i].lines.len()
                && (#[trigger] groups_of(s, limit)[i].lines[k]).len() >= limit ==> groups_of(
                s,
                limit,
            )[i].lines.len() == 1,
{
    let lines = lines_within(s, limit);
    let gs = groups_of(s, limit);
    lemma_grouped_fits(lines, lines.len() as int, limit);
    assert forall|i: int, k: int|
        0 <= i < gs.len() && 0 <= k < gs[i].lines.len() && (#[trigger] gs[i].lines[k]).len()
            >= limit implies gs[i].lines.len() == 1 by {
        assert(fits(gs, i, limit));
        lemma_weight(gs[i], i == 0, k);
    }
}

/// A chunk of several source lines stays within the limit, apart from the mark
/// that closes a code block: what stands before that mark has at most `limit`
/// characters.
pub proof fn chunks_of_several_lines_fit(s: Seq<char>, limit: nat)
    ensures
        forall|i: int|
            0 <= i < groups_of(s, limit).len() && groups_of(s, limit)[i].lines.len() > 1
                ==> text::join(
                front_lines(#[trigger] groups_of(s, limit)[i]),
                seq!['\n'],
            ).len() <= limit,
{
    let lines = lines_within(s, limit);
    let gs = groups_of(s, limit);
    lemma_grouped_fits(lines, lines.len() as int, limit);
    lemma_grouped_continuous(lines, lines.len() as int, limit);
    assert forall|i: int| 0 <= i < gs.len() && gs[i].lines.len() > 1 implies text::join(
        front_lines(#[trigger] gs[i]),
        seq!['\n'],
    ).len() <= limit by {
        assert(fits(gs, i, limit));
        lemma_front_len(gs[i], i == 0);
    }
}

/// The chunks of a text without a code fence stay within the limit.
pub proof fn plain_chunks_fit(s: Seq<char>, limit: nat)
    requires
        limit > 0,
        !text::occurs(s, markdown::fence_mark()),
    ensures
        forall|i: int|
            0 <= i < fenced_chunks(s, limit).len() ==> (#[trigger] fenced_chunks(
                s,
                limit,
            )[i]).len() <= limit,
{
    let lines = lines_within(s, limit);
    let gs = groups_of(s, limit);
    lemma_lines_within_plain(s, limit);
    lemma_grouped_plain(lines, lines.len() as int, limit);
    splitting_keeps_every_line(s, limit);
    chunks_of_several_lines_fit(s, limit);
    assert forall|i: int| 0 <= i < fenced_chunks(s, limit).len() implies (
    #[trigger] fenced_chunks(s, limit)[i]).len() <= limit by {
        if s.len() > limit {
            let g = gs[i];
            assert(plain_group(g, limit));
            assert(chunk_lines(g) =~= front_lines(g));
            assert(front_lines(g) =~= g.lines);
            assert(g.lines.len() > 0);
        }
    }
}

// ── reading the chunks back ──

/// A chunk taken apart: the language of the code block that it reopens, what it
/// holds of the text, whether it closes a block that goes on, and what follows
/// in the text behind it.
pub struct Part {
    pub reopened: Option<Seq<char>>,
    pub body: Seq<char>,
    pub closed: bool,
    pub behind: Seq<char>,
}

/// The chunk that a part is shown as.
pub open spec fn shown(p: Part) -> Seq<char> {
    (match p.reopened {
        Some(lang) => seq!['`', '`', '`'] + lang + seq!['\n'],
        None => Seq::empty(),
    }) + p.body + (if p.closed {
        seq!['\n', '`', '`', '`']
    } else {
        Seq::empty()
    })
}

/// The text that parts hold, one behind the other.
pub open spec fn read_back(ps: Seq<Part>) -> Seq<char>
    decreases ps.len(),
{
    if ps.len() == 0 {
        Seq::empty()
    } else {
        read_back(ps.drop_last()) + ps.last().body + ps.last().behind
    }
}

/// Parts that fit together: behind each stands a line feed or, where a line was
/// cut, nothing; each begins in the code block in which the one before ended, and
/// is closed where it ends in one.
pub open spec fn fit_together(ps: Seq<Part>, limit: nat) -> bool {
    &&& forall|i: int|
        0 <= i < ps.len() ==> {
            let p = #[trigger] ps[i];
            &&& p.behind == seq!['\n'] || p.behind.len() == 0 && p.body.len() == limit
            &&& p.closed == (fence_after(p.reopened, text::split_on(p.body, '\n')) is Some)
        }
    &&& ps.len() > 0 ==> ps[0].reopened is None
    &&& forall|i: int|
        0 < i < ps.len() ==> (#[trigger] ps[i]).reopened == fence_after(
            ps[i - 1].reopened,
            text::split_on(ps[i - 1].body, '\n'),
        )
}

/// Lines with what stands behind each of them.
spec fn with_seams(lines: Seq<Seq<char>>, seams: Seq<Seq<char>>) -> Seq<char>
    decreases lines.len(),
{
    if lines.len() == 0 {
        Seq::empty()
    } else {
        with_seams(lines.drop_last(), seams.drop_last()) + lines.last() + seams.last()
    }
}

proof fn lemma_seams_concat(
    a: Seq<Seq<char>>,
    sa: Seq<Seq<char>>,
    b: Seq<Seq<char>>,
    sb: Seq<Seq<char>>,
)
    requires
        a.len() == sa.len(),
        b.len() == sb.len(),
    ensures
        with_seams(a + b, sa + sb) == with_seams(a, sa) + with_seams(b, sb),
    decreases b.len(),
{
    if b.len() == 0 {
        assert(a + b =~= a);
        assert(sa + sb =~= sa);
        assert(with_seams(a, sa) + with_seams(b, sb) =~= with_seams(a, sa));
    } else {
        assert((a + b).drop_last() =~= a + b.drop_last());
        assert((sa + sb).drop_last() =~= sa + sb.drop_last());
        lemma_seams_concat(a, sa, b.drop_last(), sb.drop_last());
        assert(with_seams(a + b, sa + sb) =~= with_seams(a, sa) + with_seams(b, sb));
    }
}

/// Lines with a line feed behind each but perhaps the last are joined by them.
proof fn lemma_seams_join(lines: Seq<Seq<char>>, seams: Seq<Seq<char>>)
    requires
        0 < lines.len() == seams.len(),
        forall|k: int| 0 <= k < seams.len() - 1 ==> #[trigger] seams[k] == seq!['\n'],
    ensures
        with_seams(lines, seams) == text::join(lines, seq!['\n']) + seams.last(),
    decreases lines.len(),
{
    if lines.len() == 1 {
        assert(with_seams(lines.drop_last(), seams.drop_last()) =~= Seq::<char>::empty());
        assert(with_seams(lines, seams) =~= text::join(lines, seq!['\n']) + seams.last());
    } else {
        let l = lines.drop_last();
        let s = seams.drop_last();
        assert forall|k: int| 0 <= k < s.len() - 1 implies #[trigger] s[k] == seq!['\n'] by {
            assert(seams[k] == seq!['\n']);
        }
        lemma_seams_join(l, s);
        assert(seams[seams.len() - 2] == seq!['\n']);
        assert(s.last() == seq!['\n']);
        assert(with_seams(lines, seams) =~= text::join(lines, seq!['\n']) + seams.last());
    }
}

/// What stands behind the pieces of a line: nothing, and at last a line feed.
spec fn line_seams(line: Seq<char>, limit: nat) -> Seq<Seq<char>> {
    let n = line_pieces(line, limit).len();
    Seq::new(
        n,
        |k: int|
            if k == n - 1 {
                seq!['\n']
            } else {
                Seq::empty()
            },
    )
}

proof fn lemma_line_seams(line: Seq<char>, limit: nat)
    requires
        limit > 0,
    ensures
        with_seams(line_pieces(line, limit), line_seams(line, limit)) == line.push('\n'),
    decreases line.len(),
{
    let ps = line_pieces(line, limit);
    let ss = line_seams(line, limit);
    pieces_keep_the_line(line, limit);
    if line.len() <= limit {
        assert(ps.drop_last() =~= Seq::<Seq<char>>::empty());
        assert(with_seams(ps.drop_last(), ss.drop_last()) =~= Seq::<char>::empty());
        assert(with_seams(ps, ss) =~= line.push('\n'));
    } else {
        let front = line.take(limit as int);
        let back = line.skip(limit as int);
        let rest = line_pieces(back, limit);
        let rest_seams = line_seams(back, limit);
        pieces_keep_the_line(back, limit);
        lemma_line_seams(back, limit);
        let one = seq![front];
        let none = seq![Seq::<char>::empty()];
        assert(ss =~= none + rest_seams);
        lemma_seams_concat(one, none, rest, rest_seams);
        assert(one.drop_last() =~= Seq::<Seq<char>>::empty());
        assert(with_seams(one.drop_last(), none.drop_last()) =~= Seq::<char>::empty());
        assert(with_seams(one, none) =~= front);
        assert(front + back.push('\n') =~= line.push('\n'));
    }
}

/// What stands behind the pieces of lines.
spec fn cut_seams(lines: Seq<Seq<char>>, limit: nat) -> Seq<Seq<char>>
    decreases lines.len(),
{
    if lines.len() == 0 {
        Seq::empty()
    } else {
        cut_seams(lines.drop_last(), limit) + line_seams(lines.last(), limit)
    }
}

proof fn lemma_cut_seams(lines: Seq<Seq<char>>, limit: nat)
    requires
        limit > 0,
    ensures
        cut_seams(lines, limit).len() == cut_lines(lines, limit).len(),
        lines.len() > 0 ==> with_seams(cut_lines(lines, limit), cut_seams(lines, limit))
            == text::join(lines, seq!['\n']).push('\n'),
        forall|k: int|
            0 <= k < cut_seams(lines, limit).len() ==> (#[trigger] cut_seams(lines, limit)[k])
                == seq!['\n'] || cut_seams(lines, limit)[k].len() == 0 && cut_lines(
                lines,
                limit,
            )[k].len() == limit,
    decreases lines.len(),
{
    if lines.len() > 0 {
        let before = lines.drop_last();
        let last = lines.last();
        lemma_cut_seams(before, limit);
        lemma_line_seams(last, limit);
        pieces_keep_the_line(last, limit);
        lemma_seams_concat(
            cut_lines(before, limit),
            cut_seams(before, limit),
            line_pieces(last, limit),
            line_seams(last, limit),
        );
        if before.len() == 0 {
            assert(with_seams(cut_lines(before, limit), cut_seams(before, limit))
                =~= Seq::<char>::empty());
            assert(text::join(lines, seq!['\n']) == last);
            assert(Seq::<char>::empty() + last.push('\n') =~= last.push('\n'));
        } else {
            assert(text::join(before, seq!['\n']).push('\n') + last.push('\n') =~= (text::join(
                before,
                seq!['\n'],
            ) + seq!['\n'] + last).push('\n'));
        }
        assert forall|k: int| 0 <= k < cut_seams(lines, limit).len() implies (
        #[trigger] cut_seams(lines, limit)[k]) == seq!['\n'] || cut_seams(lines, limit)[k].len()
            == 0 && cut_lines(lines, limit)[k].len() == limit by {
            let n = cut_seams(before, limit).len();
            if k < n {
                assert(cut_seams(lines, limit)[k] == cut_seams(before, limit)[k]);
                assert(cut_lines(lines, limit)[k] == cut_lines(before, limit)[k]);
            } else {
                assert(cut_seams(lines, limit)[k] == line_seams(last, limit)[k - n]);
                assert(cut_lines(lines, limit)[k] == line_pieces(last, limit)[k - n]);
            }
        }
    }
}

/// What stands behind the source lines of the chunks.
spec fn seams_of(s: Seq<char>, limit: nat) -> Seq<Seq<char>> {
    let lines = text::split_on(s, '\n');
    if text::occurs(s, markdown::fence_mark()) {
        Seq::new(lines.len(), |k: int| seq!['\n'])
    } else {
        cut_seams(lines, limit)
    }
}

proof fn lemma_seams_of(s: Seq<char>, limit: nat)
    requires
        limit > 0,
    ensures
        seams_of(s, limit).len() == lines_within(s, limit).len(),
        with_seams(lines_within(s, limit), seams_of(s, limit)) == s.push('\n'),
        forall|k: int|
            0 <= k < seams_of(s, limit).len() ==> (#[trigger] seams_of(s, limit)[k]) == seq!['\n']
                || seams_of(s, limit)[k].len() == 0 && lines_within(s, limit)[k].len() == limit,
{
    let lines = text::split_on(s, '\n');
    text::lemma_split_on(s, '\n');
    text::split_then_join(s, '\n');
    if text::occurs(s, markdown::fence_mark()) {
        lemma_seams_join(lines, seams_of(s, limit));
        assert(s + seq!['\n'] =~= s.push('\n'));
    } else {
        lemma_cut_seams(lines, limit);
    }
}

/// No source line holds a line feed.
proof fn lemma_lines_have_no_feed(s: Seq<char>, limit: nat)
    requires
        limit > 0,
    ensures
        forall|k: int|
            0 <= k < lines_within(s, limit).len() ==> !(#[trigger] lines_within(
                s,
                limit,
            )[k]).contains('\n'),
{
    let lines = text::split_on(s, '\n');
    text::lemma_split_on(s, '\n');
    assert forall|k: int| 0 <= k < lines.len() implies !(#[trigger] lines[k]).contains('\n') by {
        assert forall|j: int| 0 <= j < lines[k].len() implies lines[k][j] != '\n' by {}
    }
    if !text::occurs(s, markdown::fence_mark()) {
        lemma_cut_lines_have_no_feed(lines, limit);
    }
}

proof fn lemma_cut_lines_have_no_feed(lines: Seq<Seq<char>>, limit: nat)
    requires
        limit > 0,
        forall|k: int| 0 <= k < lines.len() ==> !(#[trigger] lines[k]).contains('\n'),
    ensures
        forall|k: int|
            0 <= k < cut_lines(lines, limit).len() ==> !(#[trigger] cut_lines(
                lines,
                limit,
            )[k]).contains('\n'),
    decreases lines.len(),
{
    if lines.len() > 0 {
        let before = lines.drop_last();
        assert forall|k: int| 0 <= k < before.len() implies !(#[trigger] before[k]).contains(
            '\n',
        ) by {
            assert(before[k] == lines[k]);
        }
        lemma_cut_lines_have_no_feed(before, limit);
        assert(lines.last() == lines[lines.len() - 1]);
        lemma_pieces_have_no_feed(lines.last(), limit);
        assert forall|k: int| 0 <= k < cut_lines(lines, limit).len() implies !(
        #[trigger] cut_lines(lines, limit)[k]).contains('\n') by {
            let n = cut_lines(before, limit).len();
            if k < n {
                assert(cut_lines(lines, limit)[k] == cut_lines(before, limit)[k]);
            } else {
                assert(cut_lines(lines, limit)[k] == line_pieces(lines.last(), limit)[k - n]);
            }
        }
    }
}

proof fn lemma_pieces_have_no_feed(line: Seq<char>, limit: nat)
    requires
        limit > 0,
        !line.contains('\n'),
    ensures
        forall|k: int|
            0 <= k < line_pieces(line, limit).len() ==> !(#[trigger] line_pieces(
                line,
                limit,
            )[k]).contains('\n'),
    decreases line.len(),
{
    if line.len() > limit {
        let front = line.take(limit as int);
        let back = line.skip(limit as int);
        assert forall|j: int| 0 <= j < back.len() implies back[j] != '\n' by {
            assert(line.contains(line[j + limit]));
        }
        assert forall|j: int| 0 <= j < front.len() implies front[j] != '\n' by {
            assert(line.contains(line[j]));
        }
        lemma_pieces_have_no_feed(back, limit);
        assert forall|k: int| 0 <= k < line_pieces(line, limit).len() implies !(
        #[trigger] line_pieces(line, limit)[k]).contains('\n') by {
            if k > 0 {
                assert(line_pieces(line, limit)[k] == line_pieces(back, limit)[k - 1]);
            }
        }
    }
}

/// The part that a group of lines is, with what stands behind it.
spec fn part_of(g: Group, behind: Seq<char>) -> Part {
    Part {
        reopened: g.open,
        body: text::join(g.lines, seq!['\n']),
        closed: fence_after(g.open, g.lines) is Some,
        behind,
    }
}

proof fn lemma_part_shown(g: Group, behind: Seq<char>)
    requires
        g.lines.len() > 0,
    ensures
        shown(part_of(g, behind)) == chunk_of(g),
{
    let nl = seq!['\n'];
    let p = part_of(g, behind);
    let mark = markdown::fence_mark();
    let front = front_lines(g);
    match g.open {
        Some(lang) => {
            let head = seq![mark + lang];
            text::joined_lists_are_joined(head, g.lines, nl);
            assert(front =~= head + g.lines);
            assert(text::join(head, nl) == mark + lang);
        },
        None => {
            assert(front =~= g.lines);
        },
    }
    if fence_after(g.open, g.lines) is Some {
        let end = seq![mark];
        text::joined_lists_are_joined(front, end, nl);
        assert(chunk_lines(g) =~= front + end);
        assert(text::join(end, nl) == mark);
    } else {
        assert(chunk_lines(g) =~= front);
    }
    assert(shown(p) =~= chunk_of(g));
}

/// The parts of the first groups, with what stands behind their source lines.
spec fn parts_of(gs: Seq<Group>, seams: Seq<Seq<char>>) -> Seq<Part>
    decreases gs.len(),
{
    if gs.len() == 0 {
        Seq::empty()
    } else {
        let before = source_lines(gs.drop_last()).len() as int;
        parts_of(gs.drop_last(), seams.take(before)).push(part_of(gs.last(), seams.last()))
    }
}

proof fn lemma_parts(gs: Seq<Group>, seams: Seq<Seq<char>>, limit: nat)
    requires
        limit > 0,
        seams.len() == source_lines(gs).len(),
        forall|i: int| 0 <= i < gs.len() ==> (#[trigger] gs[i]).lines.len() > 0,
        forall|i: int, k: int|
            0 <= i < gs.len() && 0 <= k < gs[i].lines.len() && (#[trigger] gs[i].lines[k]).len()
                >= limit ==> gs[i].lines.len() == 1,
        forall|k: int|
            0 <= k < seams.len() ==> #[trigger] seams[k] == seq!['\n'] || seams[k].len() == 0
                && source_lines(gs)[k].len() == limit,
    ensures
        parts_of(gs, seams).len() == gs.len(),
        read_back(parts_of(gs, seams)) == with_seams(source_lines(gs), seams),
        forall|i: int|
            0 <= i < gs.len() ==> {
                let p = #[trigger] parts_of(gs, seams)[i];
                &&& p == part_of(gs[i], p.behind)
                &&& p.behind == seq!['\n'] || p.behind.len() == 0 && p.body.len() == limit
            },
    decreases gs.len(),
{
    if gs.len() > 0 {
        let front = gs.drop_last();
        let g = gs.last();
        let head = source_lines(front);
        let n = head.len() as int;
        let a = seams.take(n);
        let b = seams.skip(n);
        let ps = parts_of(gs, seams);
        assert(g == gs[gs.len() - 1]);
        assert(g.lines.len() > 0);
        assert(a + b =~= seams);
        assert forall|i: int| 0 <= i < front.len() implies (#[trigger] front[i]).lines.len()
            > 0 by {
            assert(front[i] == gs[i]);
        }
        assert forall|i: int, k: int|
            0 <= i < front.len() && 0 <= k < front[i].lines.len() && (
            #[trigger] front[i].lines[k]).len() >= limit implies front[i].lines.len() == 1 by {
            assert(front[i] == gs[i]);
            assert(gs[i].lines[k].len() >= limit);
        }
        assert forall|k: int| 0 <= k < a.len() implies #[trigger] a[k] == seq!['\n']
            || a[k].len() == 0 && head[k].len() == limit by {
            assert(seams[k] == a[k]);
            assert(source_lines(gs)[k] == head[k]);
        }
        lemma_parts(front, a, limit);
        assert forall|k: int| 0 <= k < b.len() - 1 implies #[trigger] b[k] == seq!['\n'] by {
            assert(seams[n + k] == b[k]);
            assert(source_lines(gs)[n + k] == g.lines[k]);
            if b[k].len() == 0 {
                assert(gs[gs.len() - 1].lines[k].len() >= limit);
            }
        }
        lemma_seams_concat(head, a, g.lines, b);
        lemma_seams_join(g.lines, b);
        assert(b.last() == seams.last());
        assert(ps.drop_last() =~= parts_of(front, a));
        assert(read_back(ps) =~= with_seams(source_lines(gs), seams));
        assert forall|i: int| 0 <= i < gs.len() implies {
            let p = #[trigger] ps[i];
            &&& p == part_of(gs[i], p.behind)
            &&& p.behind == seq!['\n'] || p.behind.len() == 0 && p.body.len() == limit
        } by {
            if i < front.len() {
                assert(ps[i] == parts_of(front, a)[i]);
                assert(front[i] == gs[i]);
            } else {
                assert(seams[seams.len() - 1] == seams.last());
                assert(source_lines(gs)[seams.len() - 1] == g.lines.last());
                if seams.last() != seq!['\n'] {
                    assert(gs[gs.len() - 1].lines[g.lines.len() - 1].len() >= limit);
                    assert(text::join(g.lines, seq!['\n']) == g.lines[0]);
                }
            }
        }
    }
}

/// Every group of the split text begins where the one before ended and keeps its
/// lines apart.
proof fn lemma_parts_fit(s: Seq<char>, limit: nat)
    requires
        limit > 0,
    ensures
        ({
            let gs = groups_of(s, limit);
            let ps = parts_of(gs, seams_of(s, limit));
            &&& ps.len() == gs.len()
            &&& fit_together(ps, limit)
            &&& read_back(ps) == s.push('\n')
            &&& forall|i: int| 0 <= i < gs.len() ==> shown(#[trigger] ps[i]) == chunk_of(gs[i])
        }),
{
    let lines = lines_within(s, limit);
    let gs = groups_of(s, limit);
    let seams = seams_of(s, limit);
    let ps = parts_of(gs, seams);
    splitting_keeps_every_line(s, limit);
    full_lines_stand_alone(s, limit);
    lemma_seams_of(s, limit);
    lemma_lines_have_no_feed(s, limit);
    lemma_grouped_continuous(lines, lines.len() as int, limit);
    lemma_grouped_members(lines, lines.len() as int, limit);
    lemma_parts(gs, seams, limit);
    assert forall|i: int| 0 <= i < gs.len() implies text::split_on(
        (#[trigger] ps[i]).body,
        '\n',
    ) == gs[i].lines by {
        let g = gs[i];
        assert(ps[i] == part_of(g, ps[i].behind));
        assert(g.lines.len() > 0);
        assert forall|k: int| 0 <= k < g.lines.len() implies !(#[trigger] g.lines[k]).contains(
            '\n',
        ) by {
            assert(lines.contains(gs[i].lines[k]));
            let j = choose|j: int| 0 <= j < lines.len() && lines[j] == g.lines[k];
            assert(!lines[j].contains('\n'));
        }
        text::join_then_split(g.lines, '\n');
    }
    assert forall|i: int| 0 <= i < gs.len() implies shown(#[trigger] ps[i]) == chunk_of(
        gs[i],
    ) by {
        assert(gs[i].lines.len() > 0);
        lemma_part_shown(gs[i], ps[i].behind);
    }
    assert forall|i: int| 0 < i < ps.len() implies (#[trigger] ps[i]).reopened == fence_after(
        ps[i - 1].reopened,
        text::split_on(ps[i - 1].body, '\n'),
    ) by {
        assert(gs[i].open == fence_after(gs[i - 1].open, gs[i - 1].lines));
        assert(ps[i] == part_of(gs[i], ps[i].behind));
        assert(ps[i - 1] == part_of(gs[i - 1], ps[i - 1].behind));
    }
    assert(fit_together(ps, limit));
}

proof fn lemma_grouped_members(lines: Seq<Seq<char>>, n: int, limit: nat)
    requires
        0 <= n <= lines.len(),
    ensures
        forall|i: int, k: int|
            0 <= i < grouped(lines, n, limit).len() && 0 <= k < grouped(
                lines,
                n,
                limit,
            )[i].lines.len() ==> lines.contains(#[trigger] grouped(lines, n, limit)[i].lines[k]),
    decreases n,
{
    if n > 0 {
        lemma_grouped_members(lines, n - 1, limit);
        let gs = grouped(lines, n - 1, limit);
        let next = grouped(lines, n, limit);
        let line = lines[n - 1];
        assert(lines.contains(line));
        assert forall|i: int, k: int|
            0 <= i < next.len() && 0 <= k < next[i].lines.len() implies lines.contains(
            #[trigger] next[i].lines[k],
        ) by {
            if i < gs.len() && k < gs[i].lines.len() {
                assert(next[i].lines[k] == gs[i].lines[k]);
                assert(lines.contains(gs[i].lines[k]));
            } else {
                assert(next[i].lines[k] == line);
            }
        }
    }
}

/// Nothing of a long text is lost, doubled or moved in its chunks: without the
/// fence lines that a chunk reopens a code block with and closes it with, the
/// chunks one behind the other are the text, with a line feed between two unless
/// a line was cut there.
pub proof fn chunks_are_the_text(s: Seq<char>, limit: nat)
    requires
        0 < limit < s.len(),
    ensures
        exists|ps: Seq<Part>|
            {
                &&& fenced_chunks(s, limit).len() == ps.len()
                &&& forall|i: int|
                    0 <= i < ps.len() ==> fenced_chunks(s, limit)[i] == shown(#[trigger] ps[i])
                &&& fit_together(ps, limit)
                &&& #[trigger] read_back(ps) == s.push('\n')
            },
{
    let ps = parts_of(groups_of(s, limit), seams_of(s, limit));
    lemma_parts_fit(s, limit);
    assert forall|i: int| 0 <= i < ps.len() implies fenced_chunks(s, limit)[i] == shown(
        #[trigger] ps[i],
    ) by {}
    assert(read_back(ps) == s.push('\n'));
}

/// A text within the limit, and any text where there is none, is one chunk.
pub proof fn short_text_is_one_chunk(s: Seq<char>, limit: nat)
    requires
        limit == 0 || s.len() <= limit,
    ensures
        fenced_chunks(s, limit) == seq![s],
        text_chunks(s, limit) == seq![s],
{
}

/// A line of three backticks and a word opens a code block in that language, and
/// three backticks alone close the open one or open one without a language. Every
/// other line leaves things as they are.
pub proof fn fences_open_and_close(open: Option<Seq<char>>, line: Seq<char>, lang: Seq<char>)
    ensures
        lang.len() > 0 && text::all_in(lang, CharClass::Word) ==> fence_after(
            open,
            seq![seq!['`', '`', '`'] + lang],
        ) == Some(lang),
        fence_after(open, seq![seq!['`', '`', '`']]) == (if open is Some {
            None
        } else {
            Some(Seq::<char>::empty())
        }),
        line.len() < 3 || line.subrange(0, 3) != seq!['`', '`', '`'] ==> fence_after(
            open,
            seq![line],
        ) == open,
{
    let mark = seq!['`', '`', '`'];
    let none = Seq::<Seq<char>>::empty();
    assert(fence_after(open, none) == open);
    assert(seq![mark + lang].drop_last() =~= none);
    assert(seq![mark].drop_last() =~= none);
    assert(seq![line].drop_last() =~= none);
    if lang.len() > 0 && text::all_in(lang, CharClass::Word) {
        lemma_mark_is_fence_line(lang);
    }
    lemma_mark_is_fence_line(Seq::empty());
    assert(mark + Seq::<char>::empty() =~= mark);
}

// ── the splitter ──

/// The lines of a group being filled, as the splitter holds them.
struct Filling {
    buf: Vec<Vec<char>>,
    used: u128,
    open: Option<Vec<char>>,
}

/// The contents of an optional language.
spec fn lang_view(open: Option<Vec<char>>) -> Option<Seq<char>> {
    match open {
        Some(v) => Some(v@),
        None => None,
    }
}

/// The chunk text of a filled group.
fn close_chunk(f: &Filling) -> (r: String)
    ensures
        r@ == text::join(text::rows(f.buf@) + closing(lang_view(f.open)), seq!['\n']),
{
    let nl: Vec<char> = vec!['\n'];
    assert(nl@ =~= seq!['\n']);
    let mut lines: Vec<Vec<char>> = Vec::new();
    let mut i: usize = 0;
    while i < f.buf.len()
        invariant
            i <= f.buf@.len(),
            text::rows(lines@) == text::rows(f.buf@).take(i as int),
        decreases f.buf.len() - i,
    {
        let line = text::slice_of(&f.buf[i], 0, f.buf[i].len());
        assert(line@ =~= f.buf@[i as int]@);
        let ghost before = text::rows(lines@);
        lines.push(line);
        assert(text::rows(lines@) =~= before.push(line@));
        i += 1;
        assert(text::rows(f.buf@).take(i as int) =~= text::rows(f.buf@).take(i - 1).push(line@));
    }
    assert(text::rows(f.buf@).take(i as int) =~= text::rows(f.buf@));
    if f.open.is_some() {
        let mark: Vec<char> = vec!['`', '`', '`'];
        assert(mark@ =~= markdown::fence_mark());
        let ghost before = text::rows(lines@);
        lines.push(mark);
        assert(text::rows(lines@) =~= before + closing(lang_view(f.open)));
    } else {
        assert(text::rows(lines@) =~= text::rows(f.buf@) + closing(lang_view(f.open)));
    }
    let joined = text::joined(&lines, &nl);
    text::string_of(&joined)
}

/// The lines that a new group begins with.
fn start_group(open: &Option<Vec<char>>) -> (r: (Vec<Vec<char>>, u128))
    ensures
        text::rows(r.0@) == reopening(lang_view(*open)),
        r.1 == weight(Group { open: lang_view(*open), lines: Seq::empty() }, false),
        r.1 <= 4 * usize::MAX,
{
    let mut buf: Vec<Vec<char>> = Vec::new();
    match open {
        Some(lang) => {
            let mut line: Vec<char> = vec!['`', '`', '`'];
            assert(line@ =~= markdown::fence_mark());
            text::extend(&mut line, lang);
            let used = byte_len(&line);
            buf.push(line);
            assert(text::rows(buf@) =~= reopening(lang_view(*open)));
            (buf, used)
        },
        None => {
            assert(text::rows(buf@) =~= reopening(lang_view(*open)));
            (buf, 0)
        },
    }
}

/// Cuts a line into pieces.
fn pieces_of_line(line: &[char], limit: usize) -> (r: Vec<Vec<char>>)
    requires
        limit > 0,
    ensures
        text::rows(r@) == line_pieces(line@, limit as nat),
        r@.len() > 0,
{
    let n: usize = line.len();
    let ghost lim = limit as nat;
    let mut out: Vec<Vec<char>> = Vec::new();
    let mut pos: usize = 0;
    assert(line@.skip(0) =~= line@);
    assert(text::rows(out@) + line_pieces(line@, lim) =~= line_pieces(line@, lim));
    while n - pos > limit
        invariant
            n == line@.len(),
            pos <= n,
            0 < limit == lim,
            line_pieces(line@, lim) == text::rows(out@) + line_pieces(line@.skip(pos as int), lim),
        decreases n - pos,
    {
        let ghost rest = line@.skip(pos as int);
        let ghost before = text::rows(out@);
        let piece = text::slice_of(line, pos, pos + limit);
        assert(piece@ =~= rest.take(limit as int));
        assert(rest.skip(limit as int) =~= line@.skip(pos + limit));
        out.push(piece);
        assert(text::rows(out@) =~= before.push(piece@));
        pos += limit;
        assert(line_pieces(line@, lim) =~= text::rows(out@) + line_pieces(
            line@.skip(pos as int),
            lim,
        ));
    }
    let ghost before = text::rows(out@);
    let last = text::slice_of(line, pos, n);
    assert(last@ =~= line@.skip(pos as int));
    out.push(last);
    assert(text::rows(out@) =~= before + seq![last@]);
    out
}

/// Cuts every line into pieces.
fn pieces_of_lines(lines: Vec<Vec<char>>, limit: usize) -> (r: Vec<Vec<char>>)
    requires
        limit > 0,
    ensures
        text::rows(r@) == cut_lines(text::rows(lines@), limit as nat),
        lines@.len() > 0 ==> r@.len() > 0,
{
    let ghost all = text::rows(lines@);
    let ghost lim = limit as nat;
    let mut out: Vec<Vec<char>> = Vec::new();
    let mut i: usize = 0;
    assert(text::rows(out@) =~= cut_lines(all.take(0), lim));
    while i < lines.len()
        invariant
            i <= lines@.len(),
            all == text::rows(lines@),
            0 < limit == lim,
            text::rows(out@) == cut_lines(all.take(i as int), lim),
            i > 0 ==> out@.len() > 0,
        decreases lines@.len() - i,
    {
        let mut pieces = pieces_of_line(&lines[i], limit);
        let ghost before = text::rows(out@);
        let ghost added = text::rows(pieces@);
        out.append(&mut pieces);
        proof {
            assert(text::rows(out@) =~= before + added);
            assert(all.take(i + 1).drop_last() =~= all.take(i as int));
            assert(all.take(i + 1).last() == lines@[i as int]@);
        }
        i += 1;
    }
    assert(all.take(i as int) =~= all);
    out
}

/// Splits a long markdown text into chunks by lines. Code blocks that reach
/// across a boundary are closed before it and reopened after it. In a text
/// without a code fence a line that is longer than the limit is cut, and no
/// chunk is longer than the limit.
pub fn split_with_code_fences(s: &str, limit: usize) -> (r: Vec<String>)
    ensures
        text::texts(r@) == fenced_chunks(s@, limit as nat),
        limit > 0 && !text::occurs(s@, markdown::fence_mark()) ==> forall|i: int|
            0 <= i < r@.len() ==> (#[trigger] r@[i])@.len() <= limit,
{
    proof {
        if limit > 0 && !text::occurs(s@, markdown::fence_mark()) {
            plain_chunks_fit(s@, limit as nat);
        }
    }
    let v = text::chars_of(s);
    let mut out: Vec<String> = Vec::new();
    if limit == 0 || v.len() <= limit {
        out.push(text::owned(s));
        assert(text::texts(out@) =~= seq![s@]);
        return out;
    }
    let mark: Vec<char> = vec!['`', '`', '`'];
    assert(mark@ =~= markdown::fence_mark());
    let whole = text::split_at_char(&v, '\n');
    let lines = if text::contains(&v, &mark) {
        whole
    } else {
        pieces_of_lines(whole, limit)
    };
    let ghost all = lines_within(s@, limit as nat);
    let ghost lim = limit as nat;
    let n: usize = lines.len();
    let ghost mut gs: Seq<Group> = Seq::empty();
    let mut f = Filling { buf: Vec::new(), used: 0, open: None };
    let mut i: usize = 0;
    assert(gs =~= grouped(all, 0, lim));
    assert(text::texts(out@) =~= chunks_of(gs));
    while i < n
        invariant
            n == lines@.len(),
            i <= n,
            lim == limit,
            all == text::rows(lines@),
            gs == grouped(all, i as int, lim),
            i > 0 <==> gs.len() > 0,
            i == 0 ==> f.buf@.len() == 0 && f.used == 0 && f.open is None && out@.len() == 0,
            i > 0 ==> {
                &&& text::rows(f.buf@) == front_lines(gs.last())
                &&& f.used == weight(gs.last(), gs.len() == 1)
                &&& lang_view(f.open) == fence_after(gs.last().open, gs.last().lines)
                &&& text::texts(out@) == chunks_of(gs.drop_last())
                &&& gs.last().lines.len() > 0
            },
            f.used <= 16 * 0x1_0000_0000_0000_0000,
        decreases n - i,
    {
        let ghost prev = gs;
        assert(all[i as int] == lines@[i as int]@);
        let line = text::slice_of(&lines[i], 0, lines[i].len());
        assert(line@ =~= all[i as int]);
        let size = byte_len(&line);
        let mark = parse_fence(&line);
        let near_full: bool = 4 * f.used > 3 * (limit as u128);
        let full: bool = f.used + size + 1 > limit as u128;
        let heading: bool = is_heading_line(&line);
        if i == 0 {
            proof {
                gs = seq![Group { open: None, lines: seq![line@] }];
                let empty = Group { open: None::<Seq<char>>, lines: Seq::<Seq<char>>::empty() };
                assert(seq![line@].drop_last() =~= empty.lines);
                assert(weight(empty, true) == 0);
                assert(weight(gs.last(), true) == utf8_len(line@));
                assert(gs.drop_last() =~= Seq::<Group>::empty());
                assert(text::texts(out@) =~= chunks_of(gs.drop_last()));
            }
            f.used = size;
        } else if full || (heading && near_full) {
            let ghost g = prev.last();
            assert(text::rows(f.buf@) + closing(lang_view(f.open)) == chunk_lines(g));
            let chunk = close_chunk(&f);
            let ghost chunks = text::texts(out@);
            out.push(chunk);
            assert(text::texts(out@) =~= chunks.push(chunk@));
            let (buf, used) = start_group(&f.open);
            proof {
                let open = fence_after(g.open, g.lines);
                gs = prev.push(Group { open, lines: seq![line@] });
                assert(gs.drop_last() =~= prev);
                assert(chunks_of(prev) =~= chunks_of(prev.drop_last()).push(chunk_of(g)));
                assert(seq![line@].drop_last() =~= Seq::<Seq<char>>::empty());
                assert(weight(gs.last(), false) == weight(
                    Group { open, lines: Seq::<Seq<char>>::empty() },
                    false,
                ) + utf8_len(line@) + 1);
            }
            f = Filling { buf, used: used + size + 1, open: f.open };
        } else {
            proof {
                let g = prev.last();
                gs = prev.drop_last().push(Group { open: g.open, lines: g.lines.push(line@) });
                assert(gs.drop_last() =~= prev.drop_last());
                assert(g.lines.push(line@).drop_last() =~= g.lines);
            }
            f.used = f.used + size + 1;
        }
        let ghost g = gs.last();
        let ghost before = text::rows(f.buf@);
        assert(g.lines.last() == line@);
        f.buf.push(line);
        assert(text::rows(f.buf@) =~= before.push(line@));
        assert(text::rows(f.buf@) =~= front_lines(g));
        let ghost open_before = fence_after(g.open, g.lines.drop_last());
        proof {
            if i > 0 && prev.len() == gs.len() {
                assert(g.lines.drop_last() =~= prev.last().lines);
            } else {
                assert(g.lines.drop_last() =~= Seq::<Seq<char>>::empty());
            }
        }
        assert(lang_view(f.open) == open_before);
        match mark {
            Some(lang) => {
                if lang.len() > 0 {
                    f.open = Some(lang);
                } else if f.open.is_some() {
                    f.open = None;
                } else {
                    let bare: Vec<char> = Vec::new();
                    assert(bare@ =~= Seq::<char>::empty());
                    f.open = Some(bare);
                }
            },
            None => {},
        }
        assert(lang_view(f.open) == fence_after(g.open, g.lines));
        i += 1;
    }
    let chunk = close_chunk(&f);
    let ghost chunks = text::texts(out@);
    out.push(chunk);
    assert(text::texts(out@) =~= chunks.push(chunk@));
    assert(chunks_of(gs) =~= chunks_of(gs.drop_last()).push(chunk_of(gs.last())));
    assert forall|k: int|
        0 <= k < out@.len() && !text::occurs(s@, markdown::fence_mark()) implies (
    #[trigger] out@[k])@.len() <= limit by {
        assert(text::texts(out@)[k] == fenced_chunks(s@, lim)[k]);
    }
    out
}

// ── plain text ──

/// The cut at the last line feed among positions `lo..=i`: behind it, or none.
pub open spec fn cut_behind_newline(s: Seq<char>, lo: int, i: int) -> Option<int>
    decreases i - lo + 1,
{
    if i < lo {
        None
    } else if s[i] == '\n' {
        Some(i + 1)
    } else {
        cut_behind_newline(s, lo, i - 1)
    }
}

/// Where a text that is too long is cut: behind the last line feed from
/// `limit / 2` up to the limit, or else at the limit.
pub open spec fn cut_at(s: Seq<char>, limit: nat) -> int {
    match cut_behind_newline(s, limit as int / 2, limit - 1) {
        Some(cut) => cut,
        None => limit as int,
    }
}

/// A cut behind a line feed lies among the positions behind those that were
/// looked at.
proof fn lemma_cut(s: Seq<char>, lo: int, i: int)
    requires
        0 <= lo,
        i < s.len(),
    ensures
        cut_behind_newline(s, lo, i) matches Some(cut) ==> lo < cut <= i + 1 && s[cut - 1] == '\n',
    decreases i - lo + 1,
{
    if lo <= i && s[i] != '\n' {
        lemma_cut(s, lo, i - 1);
    }
}

/// The pieces of a plain text.
pub open spec fn plain_pieces(s: Seq<char>, limit: nat) -> Seq<Seq<char>>
    decreases s.len(),
{
    if s.len() == 0 {
        Seq::empty()
    } else if s.len() <= limit {
        seq![s]
    } else {
        let cut = cut_at(s, limit);
        if 0 < cut <= s.len() {
            seq![s.take(cut)] + plain_pieces(s.skip(cut), limit)
        } else {
            seq![s]
        }
    }
}

/// The chunks of a message: itself where it fits or there is no limit, by
/// lines where it holds a code fence, and otherwise in plain pieces.
pub open spec fn text_chunks(s: Seq<char>, limit: nat) -> Seq<Seq<char>> {
    if limit == 0 || s.len() <= limit {
        seq![s]
    } else if text::occurs(s, markdown::fence_mark()) {
        fenced_chunks(s, limit)
    } else {
        plain_pieces(s, limit)
    }
}

/// Whether a piece has at most `limit` characters.
pub open spec fn within_limit(p: Seq<char>, limit: nat) -> bool {
    p.len() <= limit
}

proof fn lemma_concat_front(p: Seq<char>, ps: Seq<Seq<char>>)
    ensures
        text::concat(seq![p] + ps) == p + text::concat(ps),
    decreases ps.len(),
{
    if ps.len() == 0 {
        assert(seq![p] + ps =~= seq![p]);
        assert(seq![p].drop_last() =~= Seq::<Seq<char>>::empty());
        assert(text::concat(Seq::<Seq<char>>::empty()) =~= Seq::<char>::empty());
        assert(text::concat(seq![p]) =~= p + text::concat(ps));
    } else {
        assert((seq![p] + ps).drop_last() =~= seq![p] + ps.drop_last());
        lemma_concat_front(p, ps.drop_last());
        assert(text::concat(seq![p] + ps) =~= p + text::concat(ps));
    }
}

/// Plain text loses nothing: the pieces one after another are the text. No
/// piece is empty, and each stays within the limit.
pub proof fn plain_pieces_keep_the_text(s: Seq<char>, limit: nat)
    requires
        limit > 0,
    ensures
        text::concat(plain_pieces(s, limit)) == s,
        forall|i: int|
            0 <= i < plain_pieces(s, limit).len() ==> (#[trigger] plain_pieces(s, limit)[i]).len()
                > 0 && within_limit(plain_pieces(s, limit)[i], limit),
    decreases s.len(),
{
    let ps = plain_pieces(s, limit);
    if s.len() == 0 {
        assert(text::concat(ps) =~= s);
    } else if s.len() <= limit {
        assert(ps.drop_last() =~= Seq::<Seq<char>>::empty());
        assert(text::concat(Seq::<Seq<char>>::empty()) =~= Seq::<char>::empty());
        assert(text::concat(ps) =~= s);
    } else {
        lemma_cut(s, limit as int / 2, limit - 1);
        let cut = cut_at(s, limit);
        let rest = plain_pieces(s.skip(cut), limit);
        plain_pieces_keep_the_text(s.skip(cut), limit);
        lemma_concat_front(s.take(cut), rest);
        assert(s.take(cut) + s.skip(cut) =~= s);
        assert forall|i: int| 0 <= i < ps.len() implies (#[trigger] ps[i]).len() > 0
            && within_limit(ps[i], limit) by {
            if i > 0 {
                assert(ps[i] == rest[i - 1]);
            }
        }
    }
}

/// Splits a message that is longer than `limit` characters. Without a code fence
/// no chunk is longer than that.
pub fn chunk_text(s: &str, limit: usize) -> (r: Vec<String>)
    ensures
        text::texts(r@) == text_chunks(s@, limit as nat),
        limit > 0 && !text::occurs(s@, markdown::fence_mark()) ==> forall|i: int|
            0 <= i < r@.len() ==> (#[trigger] r@[i])@.len() <= limit,
{
    proof {
        if limit > 0 {
            plain_pieces_keep_the_text(s@, limit as nat);
        }
    }
    let v = text::chars_of(s);
    let mut out: Vec<String> = Vec::new();
    if limit == 0 || v.len() <= limit {
        out.push(text::owned(s));
        assert(text::texts(out@) =~= seq![s@]);
        return out;
    }
    let mark: Vec<char> = vec!['`', '`', '`'];
    assert(mark@ =~= markdown::fence_mark());
    if text::contains(&v, &mark) {
        return split_with_code_fences(s, limit);
    }
    let n: usize = v.len();
    let ghost lim = limit as nat;
    let mut pos: usize = 0;
    assert(v@.skip(0) =~= v@);
    assert(text::texts(out@) + plain_pieces(v@, lim) =~= plain_pieces(v@, lim));
    while pos < n
        invariant
            n == v@.len(),
            pos <= n,
            0 < limit == lim,
            plain_pieces(v@, lim) == text::texts(out@) + plain_pieces(v@.skip(pos as int), lim),
        decreases n - pos,
    {
        let ghost rest = v@.skip(pos as int);
        let ghost before = text::texts(out@);
        let cut: usize = if n - pos <= limit {
            n - pos
        } else {
            let mut i: usize = limit - 1;
            let lo: usize = limit / 2;
            while i >= lo && v[pos + i] != '\n' && i > 0
                invariant
                    n == v@.len(),
                    rest == v@.skip(pos as int),
                    pos + limit < n,
                    i < limit,
                    lo == limit / 2,
                    i + 1 >= lo,
                    cut_behind_newline(rest, lo as int, limit - 1) == cut_behind_newline(
                        rest,
                        lo as int,
                        i as int,
                    ),
                decreases i,
            {
                assert(rest[i as int] == v@[pos + i]);
                i -= 1;
            }
            assert(i >= lo ==> rest[i as int] == v@[pos + i]);
            if i >= lo && v[pos + i] == '\n' {
                i + 1
            } else {
                proof {
                    if i >= lo {
                        assert(cut_behind_newline(rest, lo as int, i - 1) is None);
                    }
                }
                limit
            }
        };
        proof {
            if n - pos > limit {
                lemma_cut(rest, limit as int / 2, limit - 1);
                assert(cut == cut_at(rest, lim));
                assert(rest.skip(cut as int) =~= v@.skip(pos + cut));
                assert(rest.take(cut as int) =~= v@.subrange(pos as int, pos + cut));
            } else {
                assert(rest =~= v@.subrange(pos as int, pos + cut));
                assert(v@.skip(pos + cut) =~= Seq::<char>::empty());
                assert(plain_pieces(rest, lim) =~= seq![rest] + plain_pieces(
                    v@.skip(pos + cut),
                    lim,
                ));
            }
        }
        let piece = text::slice_of(&v, pos, pos + cut);
        out.push(text::string_of(&piece));
        assert(text::texts(out@) =~= before.push(piece@));
        pos += cut;
        assert(plain_pieces(v@, lim) =~= text::texts(out@) + plain_pieces(
            v@.skip(pos as int),
            lim,
        ));
    }
    assert(text::texts(out@) + plain_pieces(v@.skip(pos as int), lim) =~= text::texts(out@));
    assert forall|k: int| 0 <= k < out@.len() implies (#[trigger] out@[k])@.len() <= limit by {
        assert(text::texts(out@)[k] == plain_pieces(s@, lim)[k]);
    }
    out
}

// ── how the chunks are filled ──

proof fn lemma_utf8_len_concat(a: Seq<char>, b: Seq<char>)
    ensures
        utf8_len(a + b) == utf8_len(a) + utf8_len(b),
    decreases b.len(),
{
    if b.len() == 0 {
        assert(a + b =~= a);
    } else {
        assert((a + b).drop_last() =~= a + b.drop_last());
        assert((a + b).last() == b.last());
        lemma_utf8_len_concat(a, b.drop_last());
    }
}

proof fn lemma_width(c: char)
    ensures
        vstd::utf8::encode_scalar(c as u32).len() == utf8_width(c),
{
    let u = c as u32;
    assert(u <= 0x10_ffff);
}

/// What counts against a limit in bytes is what a text takes in UTF-8.
pub proof fn bytes_are_those_of_utf8(s: Seq<char>)
    ensures
        utf8_len(s) == vstd::utf8::encode_utf8(s).len(),
    decreases s.len(),
{
    if s.len() > 0 {
        let first = seq![s[0]];
        let rest = s.drop_first();
        bytes_are_those_of_utf8(rest);
        assert(first + rest =~= s);
        lemma_utf8_len_concat(first, rest);
        assert(first.drop_last() =~= Seq::<char>::empty());
        assert(utf8_len(first.drop_last()) == 0);
        assert(utf8_len(first) == utf8_width(s[0]));
        lemma_width(s[0]);
    }
}

/// What the lines of a chunk count: their bytes and those of the line feeds, and one
/// more where the chunk is not the first.
proof fn lemma_plain_weight(g: Group, first: bool)
    requires
        g.open is None,
        g.lines.len() > 0,
    ensures
        weight(g, first) == utf8_len(text::join(g.lines, seq!['\n'])) + (if first {
            0nat
        } else {
            1nat
        }),
    decreases g.lines.len(),
{
    let sep = seq!['\n'];
    let rest = Group { open: g.open, lines: g.lines.drop_last() };
    assert(sep.drop_last() =~= Seq::<char>::empty());
    assert(utf8_len(sep.drop_last()) == 0);
    assert(utf8_len(sep) == 1);
    if g.lines.len() == 1 {
        assert(weight(rest, first) == 0);
        assert(g.lines[0] == g.lines.last());
    } else {
        lemma_plain_weight(rest, first);
        let before = text::join(rest.lines, sep);
        lemma_utf8_len_concat(before + sep, g.lines.last());
        lemma_utf8_len_concat(before, sep);
    }
}

/// A group begins with a line that did not go to the one before.
spec fn begins_anew(gs: Seq<Group>, i: int, limit: nat) -> bool {
    breaks_before(gs[i].lines[0], weight(gs[i - 1], i == 1), limit)
}

/// A line of a group goes on behind those before it.
spec fn goes_on(gs: Seq<Group>, i: int, k: int, limit: nat) -> bool {
    !breaks_before(
        gs[i].lines[k],
        weight(Group { open: gs[i].open, lines: gs[i].lines.take(k) }, i == 0),
        limit,
    )
}

proof fn lemma_begins_anew(lines: Seq<Seq<char>>, n: int, limit: nat)
    requires
        0 <= n <= lines.len(),
    ensures
        forall|i: int|
            0 < i < grouped(lines, n, limit).len() ==> #[trigger] begins_anew(
                grouped(lines, n, limit),
                i,
                limit,
            ),
    decreases n,
{
    if n > 0 {
        lemma_begins_anew(lines, n - 1, limit);
        lemma_grouped_lines(lines, n - 1, limit);
        let gs = grouped(lines, n - 1, limit);
        let next = grouped(lines, n, limit);
        if gs.len() > 0 {
            assert(gs[gs.len() - 1].lines.len() > 0);
            assert forall|i: int| 0 < i < next.len() implies #[trigger] begins_anew(
                next,
                i,
                limit,
            ) by {
                if i < gs.len() {
                    assert(begins_anew(gs, i, limit));
                    assert(next[i - 1] == gs[i - 1]);
                    assert(next[i].lines[0] == gs[i].lines[0]);
                }
            }
        }
    }
}

proof fn lemma_goes_on(lines: Seq<Seq<char>>, n: int, limit: nat)
    requires
        0 <= n <= lines.len(),
    ensures
        forall|i: int, k: int|
            0 <= i < grouped(lines, n, limit).len() && 0 < k < grouped(
                lines,
                n,
                limit,
            )[i].lines.len() ==> #[trigger] goes_on(grouped(lines, n, limit), i, k, limit),
    decreases n,
{
    if n > 0 {
        lemma_goes_on(lines, n - 1, limit);
        lemma_grouped_lines(lines, n - 1, limit);
        let gs = grouped(lines, n - 1, limit);
        let next = grouped(lines, n, limit);
        if gs.len() > 0 {
            let g = gs.last();
            assert(gs[gs.len() - 1].lines.len() > 0);
            assert forall|i: int, k: int|
                0 <= i < next.len() && 0 < k < next[i].lines.len() implies #[trigger] goes_on(
                next,
                i,
                k,
                limit,
            ) by {
                if i < gs.len() && k < gs[i].lines.len() {
                    assert(goes_on(gs, i, k, limit));
                    assert(next[i].lines[k] == gs[i].lines[k]);
                    assert(next[i].open == gs[i].open);
                    assert(next[i].lines.take(k) =~= gs[i].lines.take(k));
                } else if i < gs.len() {
                    assert(i == gs.len() - 1);
                    assert(next[i].lines.take(k) =~= g.lines);
                    assert(next[i].open == g.open);
                }
            }
        }
    }
}

/// The bytes that a chunk of plain text takes, with the line feed in front of it
/// where it is not the first one.
pub open spec fn taken(c: Seq<char>, first: bool) -> int {
    vstd::utf8::encode_utf8(c).len() + (if first {
        0int
    } else {
        1int
    })
}

proof fn lemma_plain_groups(s: Seq<char>, limit: nat, i: int)
    requires
        0 < limit < s.len(),
        !text::occurs(s, seq!['`', '`', '`']),
        0 <= i < fenced_chunks(s, limit).len(),
    ensures
        ({
            let g = groups_of(s, limit)[i];
            let c = fenced_chunks(s, limit)[i];
            &&& i < groups_of(s, limit).len()
            &&& g.open is None
            &&& g.lines.len() > 0
            &&& c == text::join(g.lines, seq!['\n'])
            &&& text::split_on(c, '\n') == g.lines
            &&& weight(g, i == 0) == taken(c, i == 0)
        }),
{
    let lines = lines_within(s, limit);
    let gs = groups_of(s, limit);
    let g = gs[i];
    lemma_lines_within_plain(s, limit);
    lemma_grouped_plain(lines, lines.len() as int, limit);
    lemma_grouped_lines(lines, lines.len() as int, limit);
    assert(lines.take(lines.len() as int) =~= lines);
    lemma_lines_have_no_feed(s, limit);
    assert(plain_group(g, limit));
    assert(chunk_lines(g) =~= g.lines);
    assert forall|k: int| 0 <= k < g.lines.len() implies !(#[trigger] g.lines[k]).contains(
        '\n',
    ) by {
        lemma_line_of_group(gs, i, k);
        let n = choose|n: int|
            0 <= n < source_lines(gs).len() && source_lines(gs)[n] == g.lines[k];
        assert(lines[n] == g.lines[k]);
    }
    text::join_then_split(g.lines, '\n');
    lemma_plain_weight(g, i == 0);
    bytes_are_those_of_utf8(text::join(g.lines, seq!['\n']));
}

proof fn lemma_line_of_group(gs: Seq<Group>, i: int, k: int)
    requires
        0 <= i < gs.len(),
        0 <= k < gs[i].lines.len(),
    ensures
        source_lines(gs).contains(gs[i].lines[k]),
    decreases gs.len(),
{
    let all = source_lines(gs);
    let before = source_lines(gs.drop_last());
    if i < gs.len() - 1 {
        lemma_line_of_group(gs.drop_last(), i, k);
        let n = choose|n: int| 0 <= n < before.len() && before[n] == gs[i].lines[k];
        assert(all[n] == gs[i].lines[k]);
    } else {
        assert(all[before.len() + k] == gs[i].lines[k]);
    }
}

/// A chunk of plain text is filled: the line behind it would not fit, or it is a
/// heading and more than three quarters are used.
pub proof fn chunks_are_filled(s: Seq<char>, limit: nat, i: int)
    requires
        0 < limit < s.len(),
        !text::occurs(s, seq!['`', '`', '`']),
        0 < i < fenced_chunks(s, limit).len(),
    ensures
        ({
            let used = taken(fenced_chunks(s, limit)[i - 1], i == 1);
            let next = text::split_on(fenced_chunks(s, limit)[i], '\n')[0];
            ||| used + 1 + vstd::utf8::encode_utf8(next).len() > limit
            ||| heading_line(next) && 4 * used > 3 * limit
        }),
{
    let lines = lines_within(s, limit);
    let gs = groups_of(s, limit);
    lemma_begins_anew(lines, lines.len() as int, limit);
    lemma_plain_groups(s, limit, i);
    lemma_plain_groups(s, limit, i - 1);
    assert(begins_anew(gs, i, limit));
    bytes_are_those_of_utf8(gs[i].lines[0]);
}

/// Inside a chunk of plain text no heading stands behind three quarters of the
/// limit, and every line fits.
pub proof fn headings_begin_chunks(s: Seq<char>, limit: nat, i: int, k: int)
    requires
        0 < limit < s.len(),
        !text::occurs(s, seq!['`', '`', '`']),
        0 <= i < fenced_chunks(s, limit).len(),
        0 < k < text::split_on(fenced_chunks(s, limit)[i], '\n').len(),
    ensures
        ({
            let lines = text::split_on(fenced_chunks(s, limit)[i], '\n');
            let used = taken(text::join(lines.take(k), seq!['\n']), i == 0);
            &&& used + 1 + vstd::utf8::encode_utf8(lines[k]).len() <= limit
            &&& heading_line(lines[k]) ==> 4 * used <= 3 * limit
        }),
{
    let all = lines_within(s, limit);
    let gs = groups_of(s, limit);
    lemma_goes_on(all, all.len() as int, limit);
    lemma_plain_groups(s, limit, i);
    let part = Group { open: gs[i].open, lines: gs[i].lines.take(k) };
    assert(goes_on(gs, i, k, limit));
    lemma_plain_weight(part, i == 0);
    bytes_are_those_of_utf8(text::join(part.lines, seq!['\n']));
    bytes_are_those_of_utf8(gs[i].lines[k]);
}

/// A heading is a line of one to six number signs and a blank, at any indent; other
/// lines are none.
pub proof fn signs_make_a_heading(blanks: Seq<char>, signs: Seq<char>, rest: Seq<char>)
    requires
        forall|i: int| 0 <= i < blanks.len() ==> #[trigger] blanks[i] == ' ',
        forall|i: int| 0 <= i < signs.len() ==> #[trigger] signs[i] == '#',
        rest.len() > 0,
        rest[0] != '#',
        signs.len() == 0 ==> !text::is_space(rest[0]),
    ensures
        heading_line(blanks + (signs + rest)) <==> 1 <= signs.len() <= 6 && rest[0] == ' ',
{
    let t = signs + rest;
    let line = blanks + t;
    let n = blanks.len() as int;
    assert forall|i: int| 0 <= i < n implies #[trigger] text::in_class(
        line[i],
        CharClass::Blank,
    ) by {
        assert(line[i] == blanks[i]);
    }
    assert(line[n] == t[0]);
    if signs.len() > 0 {
        assert(t[0] == signs[0]);
    } else {
        assert(t[0] == rest[0]);
    }
    text::run_ends_before_others(line, CharClass::Blank, n);
    assert(line.skip(n) =~= t);
    let h = signs.len() as int;
    assert forall|i: int| 0 <= i < h implies #[trigger] text::in_class(t[i], CharClass::Hash) by {
        assert(t[i] == signs[i]);
    }
    assert(t[h] == rest[0]);
    text::run_ends_before_others(t, CharClass::Hash, h);
}

proof fn lemma_last_feed(s: Seq<char>, lo: int, i: int)
    requires
        0 <= lo,
        i < s.len(),
    ensures
        cut_behind_newline(s, lo, i) matches Some(cut) ==> lo < cut <= i + 1 && s[cut - 1] == '\n'
            && forall|k: int| cut <= k <= i ==> s[k] != '\n',
        cut_behind_newline(s, lo, i) is None ==> forall|k: int| lo <= k <= i ==> s[k] != '\n',
    decreases i - lo + 1,
{
    if lo <= i && s[i] != '\n' {
        lemma_last_feed(s, lo, i - 1);
    }
}

proof fn lemma_rest_has_no_fence(s: Seq<char>, cut: int)
    requires
        0 <= cut <= s.len(),
        !text::occurs(s, markdown::fence_mark()),
    ensures
        !text::occurs(s.skip(cut), markdown::fence_mark()),
{
    let rest = s.skip(cut);
    let mark = markdown::fence_mark();
    if text::occurs(rest, mark) {
        let b = choose|b: int| #[trigger] text::occurs_at(rest, mark, b);
        assert(rest.subrange(b, b + mark.len()) =~= s.subrange(cut + b, cut + b + mark.len()));
        assert(text::occurs_at(s, mark, cut + b));
    }
}

proof fn lemma_first_piece(s: Seq<char>, limit: nat)
    requires
        0 < limit < s.len(),
        !text::occurs(s, markdown::fence_mark()),
    ensures
        0 < cut_at(s, limit) <= limit,
        text_chunks(s, limit) == seq![s.take(cut_at(s, limit))] + text_chunks(
            s.skip(cut_at(s, limit)),
            limit,
        ),
{
    let cut = cut_at(s, limit);
    lemma_cut(s, limit as int / 2, limit - 1);
    let rest = s.skip(cut);
    lemma_rest_has_no_fence(s, cut);
    assert(rest.len() > 0);
    assert(text_chunks(rest, limit) == plain_pieces(rest, limit)) by {
        if rest.len() <= limit {
            assert(plain_pieces(rest, limit) == seq![rest]);
        }
    }
    assert(text_chunks(s, limit) == plain_pieces(s, limit));
}

/// A plain text that is too long is cut behind the last line feed in the second
/// half of what fits, and where there is none, at the limit; what is behind the cut
/// is split likewise.
pub proof fn plain_text_is_cut_behind_a_line_feed(s: Seq<char>, limit: nat)
    requires
        0 < limit < s.len(),
        !text::occurs(s, seq!['`', '`', '`']),
    ensures
        ({
            let chunks = text_chunks(s, limit);
            let n = chunks[0].len() as int;
            let half = limit as int / 2;
            &&& 0 < n <= limit
            &&& chunks == seq![s.take(n)] + text_chunks(s.skip(n), limit)
            &&& (exists|k: int| half <= k < limit && #[trigger] s[k] == '\n') ==> n > half
                && s[n - 1] == '\n' && (forall|k: int| n <= k < limit ==> #[trigger] s[k]
                != '\n')
            &&& (forall|k: int| half <= k < limit ==> #[trigger] s[k] != '\n') ==> n == limit
        }),
{
    let half = limit as int / 2;
    let cut = cut_at(s, limit);
    assert(markdown::fence_mark() =~= seq!['`', '`', '`']);
    lemma_first_piece(s, limit);
    assert(text_chunks(s, limit)[0] == s.take(cut));
    assert(s.take(cut).len() == cut);
    lemma_last_feed(s, half, limit - 1);
    if exists|k: int| half <= k < limit && #[trigger] s[k] == '\n' {
        let k = choose|k: int| half <= k < limit && #[trigger] s[k] == '\n';
        assert(s[k] == '\n');
        assert(cut_behind_newline(s, half, limit - 1) is Some);
    }
}

/// A text with a code fence that is too long is split by its lines.
pub proof fn code_is_split_by_its_lines(front: Seq<char>, back: Seq<char>, limit: nat)
    requires
        0 < limit < front.len() + 3 + back.len(),
    ensures
        ({
            let s = front + seq!['`', '`', '`'] + back;
            text_chunks(s, limit) == fenced_chunks(s, limit)
        }),
{
    text::middle_occurs(front, seq!['`', '`', '`'], back);
}

} // verus!
