//! Markdown normalization for the AI-card renderer.
//!
//! A single line feed becomes `<br>` outside code blocks. Line feeds stay
//! inside code fences and before block-syntax lines (lists, tables, headings,
//! rules). Consecutive quote lines merge into one, joined by `<br>`. A table
//! whose divider row is missing a blank line above its header gets one.

use crate::text;
use crate::text::CharClass;
use vstd::prelude::*;

verus! {

// ── line endings ──

/// Every `\r\n` and every other `\r` as a line feed.
pub open spec fn unify_newlines(s: Seq<char>) -> Seq<char>
    decreases s.len(),
{
    if s.len() == 0 {
        Seq::empty()
    } else if s[0] == '\r' {
        let used: int = if s.len() > 1 && s[1] == '\n' {
            2
        } else {
            1
        };
        seq!['\n'] + unify_newlines(s.skip(used))
    } else {
        seq![s[0]] + unify_newlines(s.skip(1))
    }
}

/// Turns every `\r\n` and every other `\r` into a line feed.
fn crlf_normalize(v: &[char]) -> (r: Vec<char>)
    ensures
        r@ == unify_newlines(v@),
{
    let mut out: Vec<char> = Vec::new();
    let mut i: usize = 0;
    assert(v@.skip(0) =~= v@);
    assert(Seq::<char>::empty() + unify_newlines(v@) =~= unify_newlines(v@));
    while i < v.len()
        invariant
            i <= v@.len(),
            unify_newlines(v@) == out@ + unify_newlines(v@.skip(i as int)),
        decreases v.len() - i,
    {
        let ghost rest = v@.skip(i as int);
        if v[i] == '\r' {
            out.push('\n');
            if i + 1 < v.len() && v[i + 1] == '\n' {
                assert(rest.skip(2) =~= v@.skip(i + 2));
                i += 2;
            } else {
                assert(rest.skip(1) =~= v@.skip(i + 1));
                i += 1;
            }
        } else {
            out.push(v[i]);
            assert(rest.skip(1) =~= v@.skip(i + 1));
            i += 1;
        }
        assert(unify_newlines(v@) =~= out@ + unify_newlines(v@.skip(i as int)));
    }
    assert(out@ + unify_newlines(v@.skip(i as int)) =~= out@);
    out
}

/// No carriage return is left.
pub proof fn no_carriage_return_left(s: Seq<char>)
    ensures
        !unify_newlines(s).contains('\r'),
    decreases s.len(),
{
    if s.len() != 0 {
        let used: int = if s[0] == '\r' && s.len() > 1 && s[1] == '\n' {
            2
        } else {
            1
        };
        no_carriage_return_left(s.skip(used));
        let rest = unify_newlines(s.skip(used));
        assert forall|i: int| 0 <= i < unify_newlines(s).len() implies unify_newlines(s)[i]
            != '\r' by {
            if i > 0 {
                assert(unify_newlines(s)[i] == rest[i - 1]);
                assert(rest.contains(rest[i - 1]));
            }
        }
    }
}

/// A text without carriage returns is left as it is.
pub proof fn unify_newlines_keeps_plain_text(s: Seq<char>)
    requires
        !s.contains('\r'),
    ensures
        unify_newlines(s) == s,
    decreases s.len(),
{
    if s.len() != 0 {
        assert(s.contains(s[0]));
        assert forall|i: int| 0 <= i < s.skip(1).len() implies s.skip(1)[i] != '\r' by {
            assert(s.contains(s[i + 1]));
        }
        unify_newlines_keeps_plain_text(s.skip(1));
    }
    assert(unify_newlines(s) =~= s);
}

// ── kinds of lines ──

/// Three backquotes.
pub open spec fn fence_mark() -> Seq<char> {
    seq!['`', '`', '`']
}

/// Between two runs of hyphens of a divider row: `:?\s*\|?\s*:?`, where the
/// leading colon belongs to the hyphens before and the trailing colon to those
/// after.
pub open spec fn divider_gap(g: Seq<char>, before: bool, after: bool) -> bool {
    let a = if before && g.len() > 0 && g[0] == ':' {
        g.skip(1)
    } else {
        g
    };
    let b = if after && a.len() > 0 && a.last() == ':' {
        a.drop_last()
    } else {
        a
    };
    let t = text::trim(b, CharClass::Whitespace);
    t.len() == 0 || t == seq!['|']
}

/// A line with a `|` that matches
/// `^\s*\|?\s*:?-+:?\s*(\|?\s*:?-+:?\s*)+\|?\s*$`: at least two hyphens, and
/// around and between them nothing but gaps.
pub open spec fn table_divider(s: Seq<char>) -> bool {
    let p = text::split_on(s, '-');
    &&& s.contains('|')
    &&& p.len() >= 3
    &&& divider_gap(p[0], false, true)
    &&& divider_gap(p[p.len() - 1], true, false)
    &&& forall|i: int| 0 < i < p.len() - 1 ==> #[trigger] divider_gap(p[i], true, true)
}

/// `^\s*\|?.*\|.*\|?\s*$`: a line that looks like a table row.
pub open spec fn table_row(s: Seq<char>) -> bool {
    s.contains('|')
}

/// ``^\s{0,3}(```)``: a code fence.
pub open spec fn fence(s: Seq<char>) -> bool {
    let n = text::leading(s, CharClass::Whitespace);
    n <= 3 && text::begins(s.skip(n as int), fence_mark())
}

/// `^\s{0,3}>\s?`: the length of the quote prefix.
pub open spec fn quote_prefix(s: Seq<char>) -> Option<nat> {
    let n = text::leading(s, CharClass::Whitespace);
    if n <= 3 && n < s.len() && s[n as int] == '>' {
        if n + 1 < s.len() && text::is_space(s[n as int + 1]) {
            Some(n + 2)
        } else {
            Some(n + 1)
        }
    } else {
        None
    }
}

/// How often the character occurs.
pub open spec fn count_of(s: Seq<char>, c: char) -> nat
    decreases s.len(),
{
    if s.len() == 0 {
        0
    } else {
        count_of(s.drop_last(), c) + if s.last() == c {
            1nat
        } else {
            0nat
        }
    }
}

/// A bullet, or digits with a full stop or a closing bracket, then a space.
pub open spec fn list_item(t: Seq<char>) -> bool {
    let d = text::leading(t, CharClass::Digit) as int;
    ||| t.len() >= 2 && (t[0] == '-' || t[0] == '*' || t[0] == '+') && t[1] == ' '
    ||| d > 0 && d + 1 < t.len() && (t[d] == '.' || t[d] == ')') && t[d + 1] == ' '
}

/// One to six number signs, then a space.
pub open spec fn heading(t: Seq<char>) -> bool {
    let h = text::leading(t, CharClass::Hash) as int;
    1 <= h <= 6 && h < t.len() && t[h] == ' '
}

/// At least three of the character and otherwise whitespace only.
pub open spec fn rule_of(t: Seq<char>, c: char) -> bool {
    count_of(t, c) >= 3 && forall|i: int| 0 <= i < t.len() ==> t[i] == c || #[trigger] text::is_space(t[i])
}

/// A line that opens block syntax within an indent of three: list item, table
/// cell, heading or horizontal rule.
pub open spec fn block_start(s: Seq<char>) -> bool {
    let indent = text::leading(s, CharClass::Blank);
    let t = s.skip(indent as int);
    &&& indent <= 3
    &&& {
        ||| list_item(t)
        ||| t.len() > 0 && t[0] == '|'
        ||| heading(t)
        ||| rule_of(t, '-')
        ||| rule_of(t, '*')
        ||| rule_of(t, '_')
    }
}

/// Decides `divider_gap`.
fn is_divider_gap(g: &[char], before: bool, after: bool) -> (r: bool)
    ensures
        r == divider_gap(g@, before, after),
{
    let mut lo: usize = 0;
    let mut hi: usize = g.len();
    if before && g.len() > 0 && g[0] == ':' {
        lo = 1;
    }
    let ghost a = if before && g@.len() > 0 && g@[0] == ':' {
        g@.skip(1)
    } else {
        g@
    };
    assert(a =~= g@.subrange(lo as int, hi as int));
    if after && lo < hi && g[hi - 1] == ':' {
        hi = hi - 1;
        assert(a.drop_last() =~= g@.subrange(lo as int, hi as int));
    }
    let b = text::slice_of(g, lo, hi);
    let t = text::trimmed(&b, CharClass::Whitespace);
    if t.len() == 0 {
        return true;
    }
    if t.len() == 1 && t[0] == '|' {
        assert(t@ =~= seq!['|']);
        return true;
    }
    assert(t@ != seq!['|']) by {
        if t@ == seq!['|'] {
            assert(t@[0] == '|');
        }
    }
    false
}

/// Decides `table_divider`.
fn is_table_divider(line: &[char]) -> (r: bool)
    ensures
        r == table_divider(line@),
{
    if !text::has_char(line, '|') {
        return false;
    }
    let p = text::split_at_char(line, '-');
    let ghost parts = text::split_on(line@, '-');
    let n: usize = p.len();
    if n < 3 {
        return false;
    }
    assert(text::rows(p@)[0] == p@[0]@);
    assert(text::rows(p@)[n - 1] == p@[n - 1]@);
    if !is_divider_gap(&p[0], false, true) || !is_divider_gap(&p[n - 1], true, false) {
        return false;
    }
    let mut i: usize = 1;
    while i < n - 1
        invariant
            3 <= n == p@.len(),
            1 <= i <= n - 1,
            parts == text::rows(p@),
            parts == text::split_on(line@, '-'),
            forall|j: int| 0 < j < i ==> #[trigger] divider_gap(parts[j], true, true),
        decreases n - i,
    {
        if !is_divider_gap(&p[i], true, true) {
            assert(!divider_gap(parts[i as int], true, true));
            return false;
        }
        i += 1;
    }
    true
}

/// Decides `table_row`.
fn is_table_row(line: &[char]) -> (r: bool)
    ensures
        r == table_row(line@),
{
    text::has_char(line, '|')
}

/// Decides `fence`.
pub fn is_fence(line: &[char]) -> (r: bool)
    ensures
        r == fence(line@),
{
    assert(line@.skip(0) =~= line@);
    let n = text::run_from(line, 0, CharClass::Whitespace);
    let mark: Vec<char> = vec!['`', '`', '`'];
    assert(mark@ =~= fence_mark());
    proof {
        let tail = line@.skip(n as int);
        if text::occurs_at(line@, mark@, n as int) {
            assert(tail.subrange(0, 3) =~= line@.subrange(n as int, n + 3));
        }
        if text::begins(tail, mark@) {
            assert(tail.subrange(0, 3) =~= line@.subrange(n as int, n + 3));
        }
    }
    n <= 3 && text::stands_at(line, &mark, n)
}

/// Decides `rule_of`.
fn is_rule_of(t: &[char], c: char) -> (r: bool)
    ensures
        r == rule_of(t@, c),
{
    let mut count: usize = 0;
    let mut i: usize = 0;
    while i < t.len()
        invariant
            i <= t@.len(),
            count <= i,
            count == count_of(t@.take(i as int), c),
            forall|j: int| 0 <= j < i ==> t@[j] == c || #[trigger] text::is_space(t@[j]),
        decreases t.len() - i,
    {
        assert(t@.take(i + 1).drop_last() =~= t@.take(i as int));
        if t[i] == c {
            count += 1;
        } else if !text::belongs(t[i], CharClass::Whitespace) {
            assert(!text::is_space(t@[i as int]));
            return false;
        }
        i += 1;
    }
    assert(t@.take(i as int) =~= t@);
    count >= 3
}

/// Decides `list_item`.
fn is_list_item(t: &[char]) -> (r: bool)
    ensures
        r == list_item(t@),
{
    if t.len() >= 2 && (t[0] == '-' || t[0] == '*' || t[0] == '+') && t[1] == ' ' {
        return true;
    }
    assert(t@.skip(0) =~= t@);
    let d = text::run_from(t, 0, CharClass::Digit);
    let n: usize = t.len();
    d > 0 && d < n && d + 1 < n && (t[d] == '.' || t[d] == ')') && t[d + 1] == ' '
}

/// Decides `heading`.
pub fn is_heading(t: &[char]) -> (r: bool)
    ensures
        r == heading(t@),
{
    assert(t@.skip(0) =~= t@);
    let h = text::run_from(t, 0, CharClass::Hash);
    1 <= h && h <= 6 && h < t.len() && t[h] == ' '
}

/// Decides `block_start`.
fn is_block_start(line: &[char]) -> (r: bool)
    ensures
        r == block_start(line@),
{
    assert(line@.skip(0) =~= line@);
    let indent = text::run_from(line, 0, CharClass::Blank);
    if indent > 3 {
        return false;
    }
    let t = text::slice_of(line, indent, line.len());
    assert(t@ =~= line@.skip(indent as int));
    is_list_item(&t) || (t.len() > 0 && t[0] == '|') || is_heading(&t) || is_rule_of(&t, '-')
        || is_rule_of(&t, '*') || is_rule_of(&t, '_')
}

/// Finds the length of the quote prefix.
fn quote_prefix_len(line: &[char]) -> (r: Option<usize>)
    ensures
        match r {
            Some(n) => quote_prefix(line@) == Some(n as nat) && n <= line@.len(),
            None => quote_prefix(line@) is None,
        },
{
    assert(line@.skip(0) =~= line@);
    let n = text::run_from(line, 0, CharClass::Whitespace);
    let len: usize = line.len();
    if n <= 3 && n < len && line[n] == '>' {
        if n + 1 < len && text::belongs(line[n + 1], CharClass::Whitespace) {
            Some(n + 2)
        } else {
            Some(n + 1)
        }
    } else {
        None
    }
}

// ── blank lines above tables ──

/// Whether line `i` is a table header whose divider follows, directly below a
/// line that is neither blank nor part of the table.
pub open spec fn wants_blank(lines: Seq<Seq<char>>, i: int) -> bool {
    &&& 0 < i < lines.len()
    &&& table_row(lines[i])
    &&& i + 1 < lines.len()
    &&& table_divider(lines[i + 1])
    &&& text::trim(lines[i - 1], CharClass::Whitespace).len() > 0
    &&& !table_row(lines[i - 1])
}

/// The first `n` lines with an empty line above each that wants one.
pub open spec fn spaced(lines: Seq<Seq<char>>, n: int) -> Seq<Seq<char>>
    decreases n,
{
    if n <= 0 {
        Seq::empty()
    } else if wants_blank(lines, n - 1) {
        spaced(lines, n - 1).push(Seq::empty()).push(lines[n - 1])
    } else {
        spaced(lines, n - 1).push(lines[n - 1])
    }
}

/// The text with a blank line above each table that is missing it.
pub open spec fn with_table_blank_lines(s: Seq<char>) -> Seq<char> {
    let lines = text::split_on(unify_newlines(s), '\n');
    text::join(spaced(lines, lines.len() as int), seq!['\n'])
}

/// Inserts a blank line above a table header whose previous line is neither
/// blank nor a table row.
pub fn ensure_table_blank_lines(v: &[char]) -> (r: Vec<char>)
    ensures
        r@ == with_table_blank_lines(v@),
{
    let normalized = crlf_normalize(v);
    let lines = text::split_at_char(&normalized, '\n');
    let ghost all = text::rows(lines@);
    let n: usize = lines.len();
    let mut out: Vec<Vec<char>> = Vec::new();
    let mut i: usize = 0;
    assert(text::rows(out@) =~= spaced(all, 0));
    while i < n
        invariant
            n == lines@.len(),
            i <= n,
            all == text::rows(lines@),
            text::rows(out@) == spaced(all, i as int),
        decreases n - i,
    {
        let ghost before = text::rows(out@);
        assert(all[i as int] == lines@[i as int]@);
        if i > 0 {
            assert(all[i - 1] == lines@[i - 1]@);
        }
        if i + 1 < n {
            assert(all[i + 1] == lines@[i + 1]@);
        }
        if i > 0 && is_table_row(&lines[i]) && i + 1 < n && is_table_divider(&lines[i + 1])
            && text::trimmed(&lines[i - 1], CharClass::Whitespace).len() > 0 && !is_table_row(
            &lines[i - 1],
        ) {
            assert(wants_blank(all, i as int));
            let empty: Vec<char> = Vec::new();
            out.push(empty);
            assert(text::rows(out@) =~= before.push(Seq::empty()));
        }
        let ghost spaced_out = text::rows(out@);
        let copy = text::slice_of(&lines[i], 0, lines[i].len());
        assert(copy@ =~= all[i as int]);
        out.push(copy);
        assert(text::rows(out@) =~= spaced_out.push(all[i as int]));
        i += 1;
    }
    let nl: Vec<char> = vec!['\n'];
    assert(nl@ =~= seq!['\n']);
    text::joined(&out, &nl)
}

// ── quotes, code blocks and line breaks ──

/// The text of a forced line break.
pub open spec fn br() -> Seq<char> {
    seq!['<', 'b', 'r', '>']
}

/// Lines read so far: those that are complete, the quote lines still
/// collected, and whether the next line stands in a code block.
pub struct Merging {
    pub done: Seq<Seq<char>>,
    pub quote: Seq<Seq<char>>,
    pub in_code: bool,
}

/// The complete lines once the collected quote lines are joined into one.
pub open spec fn flushed(m: Merging) -> Seq<Seq<char>> {
    if m.quote.len() == 0 {
        m.done
    } else {
        m.done.push(text::join(m.quote, br()))
    }
}

/// Reads one more line: a line in a code block or a fence stands for itself,
/// quote lines are collected (all but the first without their prefix), and
/// any other line ends a quote.
pub open spec fn merge_line(m: Merging, line: Seq<char>) -> Merging {
    if m.in_code || fence(line) {
        Merging {
            done: flushed(m).push(line),
            quote: Seq::empty(),
            in_code: if fence(line) {
                !m.in_code
            } else {
                m.in_code
            },
        }
    } else {
        match quote_prefix(line) {
            Some(p) => Merging {
                done: m.done,
                quote: m.quote.push(
                    if m.quote.len() == 0 {
                        line
                    } else {
                        line.skip(p as int)
                    },
                ),
                in_code: false,
            },
            None => Merging {
                done: flushed(m).push(line),
                quote: Seq::empty(),
                in_code: false,
            },
        }
    }
}

/// The first `n` lines read.
pub open spec fn merging(lines: Seq<Seq<char>>, n: int) -> Merging
    decreases n,
{
    if n <= 0 {
        Merging { done: Seq::empty(), quote: Seq::empty(), in_code: false }
    } else {
        merge_line(merging(lines, n - 1), lines[n - 1])
    }
}

/// The lines with every group of consecutive quote lines merged into one.
pub open spec fn merged_lines(lines: Seq<Seq<char>>) -> Seq<Seq<char>> {
    flushed(merging(lines, lines.len() as int))
}

/// Whether the text after the first `n` lines stands in a code block.
pub open spec fn in_code(lines: Seq<Seq<char>>, n: int) -> bool
    decreases n,
{
    if n <= 0 {
        false
    } else if fence(lines[n - 1]) {
        !in_code(lines, n - 1)
    } else {
        in_code(lines, n - 1)
    }
}

/// Whether the line feed after line `i` stays a line feed: inside a code
/// block, next to an empty line, and before a fence or block syntax.
pub open spec fn keeps_newline(lines: Seq<Seq<char>>, i: int) -> bool {
    ||| in_code(lines, i + 1)
    ||| lines[i].len() == 0
    ||| lines[i + 1].len() == 0
    ||| fence(lines[i + 1])
    ||| block_start(lines[i + 1])
}

/// The first `n` lines with what stands between and after them.
pub open spec fn broken(lines: Seq<Seq<char>>, n: int) -> Seq<char>
    decreases n,
{
    if n <= 0 {
        Seq::empty()
    } else {
        let front = broken(lines, n - 1) + lines[n - 1];
        if n >= lines.len() {
            front
        } else if keeps_newline(lines, n - 1) {
            front + seq!['\n']
        } else {
            front + br()
        }
    }
}

/// The text with its line feeds chosen for the card renderer.
pub open spec fn with_line_breaks(s: Seq<char>) -> Seq<char> {
    let lines = merged_lines(text::split_on(unify_newlines(s), '\n'));
    broken(lines, lines.len() as int)
}

/// Ends the quote that is being collected.
fn flush_quote(done: &mut Vec<Vec<char>>, quote: &mut Vec<Vec<char>>, in_code: bool)
    ensures
        text::rows(final(done)@) == flushed(
            Merging { done: text::rows(old(done)@), quote: text::rows(old(quote)@), in_code },
        ),
        text::rows(final(quote)@) == Seq::<Seq<char>>::empty(),
{
    if quote.len() > 0 {
        let sep: Vec<char> = vec!['<', 'b', 'r', '>'];
        assert(sep@ =~= br());
        let line = text::joined(quote, &sep);
        done.push(line);
        assert(text::rows(done@) =~= text::rows(old(done)@).push(line@));
        quote.clear();
    }
    assert(text::rows(quote@) =~= Seq::<Seq<char>>::empty());
}

/// Merges consecutive quote lines outside code blocks.
fn merge_quotes(lines: &Vec<Vec<char>>) -> (r: Vec<Vec<char>>)
    ensures
        text::rows(r@) == merged_lines(text::rows(lines@)),
{
    let ghost all = text::rows(lines@);
    let mut done: Vec<Vec<char>> = Vec::new();
    let mut quote: Vec<Vec<char>> = Vec::new();
    let mut code: bool = false;
    let mut i: usize = 0;
    assert(text::rows(done@) =~= merging(all, 0).done);
    assert(text::rows(quote@) =~= merging(all, 0).quote);
    while i < lines.len()
        invariant
            i <= lines@.len(),
            all == text::rows(lines@),
            merging(all, i as int) == (Merging {
                done: text::rows(done@),
                quote: text::rows(quote@),
                in_code: code,
            }),
        decreases lines.len() - i,
    {
        let ghost m = merging(all, i as int);
        assert(all[i as int] == lines@[i as int]@);
        let is_mark = is_fence(&lines[i]);
        let line = text::slice_of(&lines[i], 0, lines[i].len());
        assert(line@ =~= all[i as int]);
        let prefix = quote_prefix_len(&lines[i]);
        if code || is_mark || prefix.is_none() {
            flush_quote(&mut done, &mut quote, code);
            done.push(line);
            assert(text::rows(done@) =~= flushed(m).push(line@));
            if is_mark {
                code = !code;
            }
        } else {
            let p = prefix.unwrap();
            if quote.len() == 0 {
                quote.push(line);
                assert(text::rows(quote@) =~= m.quote.push(line@));
            } else {
                let rest = text::slice_of(&line, p, line.len());
                assert(rest@ =~= line@.skip(p as int));
                quote.push(rest);
                assert(text::rows(quote@) =~= m.quote.push(rest@));
            }
        }
        i += 1;
        assert(merging(all, i as int) == merge_line(m, all[i - 1]));
    }
    flush_quote(&mut done, &mut quote, code);
    done
}

/// Chooses line feed or `<br>` after each line.
pub fn fix_newlines(v: &[char]) -> (r: Vec<char>)
    ensures
        r@ == with_line_breaks(v@),
{
    let normalized = crlf_normalize(v);
    let lines = text::split_at_char(&normalized, '\n');
    let merged = merge_quotes(&lines);
    let ghost all = text::rows(merged@);
    let n: usize = merged.len();
    let sep: Vec<char> = vec!['<', 'b', 'r', '>'];
    assert(sep@ =~= br());
    let mut out: Vec<char> = Vec::new();
    let mut code: bool = false;
    let mut i: usize = 0;
    while i < n
        invariant
            n == merged@.len(),
            i <= n,
            all == text::rows(merged@),
            sep@ == br(),
            code == in_code(all, i as int),
            out@ == broken(all, i as int),
        decreases n - i,
    {
        assert(all[i as int] == merged@[i as int]@);
        let next_code: bool = if is_fence(&merged[i]) {
            !code
        } else {
            code
        };
        text::extend(&mut out, &merged[i]);
        if i < n - 1 {
            assert(all[i + 1] == merged@[i + 1]@);
            let keep: bool = next_code || merged[i].len() == 0 || merged[i + 1].len() == 0
                || is_fence(&merged[i + 1]) || is_block_start(&merged[i + 1]);
            let ghost front = out@;
            if keep {
                out.push('\n');
                assert(out@ =~= front + seq!['\n']);
            } else {
                text::extend(&mut out, &sep);
            }
        }
        code = next_code;
        i += 1;
    }
    out
}

/// What the card renderer is given for `s`.
pub open spec fn card_text(s: Seq<char>) -> Seq<char> {
    with_line_breaks(with_table_blank_lines(s))
}

/// Normalizes markdown for the AI-card renderer.
pub fn normalize_for_card(content: &str) -> (r: String)
    ensures
        r@ == card_text(content@),
{
    let v = text::chars_of(content);
    let spaced_out = ensure_table_blank_lines(&v);
    let fixed = fix_newlines(&spaced_out);
    text::string_of(&fixed)
}

// ── laws ──

/// The lines that are not empty, in order.
pub open spec fn written_lines(lines: Seq<Seq<char>>) -> Seq<Seq<char>>
    decreases lines.len(),
{
    if lines.len() == 0 {
        Seq::empty()
    } else if lines.last().len() == 0 {
        written_lines(lines.drop_last())
    } else {
        written_lines(lines.drop_last()).push(lines.last())
    }
}

/// What spacing does to the first `n` lines: the first line stays the first and
/// the last one the last, with an empty line or the line before it above it, only
/// empty lines come in, and no line but perhaps the last wants a blank any more.
proof fn lemma_spaced(lines: Seq<Seq<char>>, n: int)
    requires
        0 < n <= lines.len(),
    ensures
        ({
            let t = spaced(lines, n);
            &&& t.len() >= n
            &&& t[0] == lines[0]
            &&& t.last() == lines[n - 1]
            &&& n == 1 ==> t.len() == 1
            &&& n > 1 ==> t[t.len() - 2] == (if wants_blank(lines, n - 1) {
                Seq::empty()
            } else {
                lines[n - 2]
            })
            &&& forall|j: int| 0 <= j < t.len() ==> !#[trigger] wants_blank(t, j)
            &&& forall|j: int|
                0 <= j < t.len() ==> (#[trigger] t[j]).len() == 0 || lines.contains(t[j])
            &&& written_lines(t) == written_lines(lines.take(n))
        }),
    decreases n,
{
    let t = spaced(lines, n);
    let line = lines[n - 1];
    let blank = Seq::<char>::empty();
    let wants = wants_blank(lines, n - 1);
    assert(lines.contains(line));
    assert(lines.take(n).drop_last() =~= lines.take(n - 1));
    assert(lines.take(n).last() == line);
    if n == 1 {
        assert(spaced(lines, 0) =~= Seq::<Seq<char>>::empty());
        assert(t =~= seq![line]);
        assert(t.drop_last() =~= Seq::<Seq<char>>::empty());
        assert(lines.take(0) =~= Seq::<Seq<char>>::empty());
    } else {
        let before = spaced(lines, n - 1);
        lemma_spaced(lines, n - 1);
        assert(!blank.contains('|'));
        if wants {
            assert(t.drop_last() =~= before.push(blank));
            assert(before.push(blank).drop_last() =~= before);
            assert(written_lines(before.push(blank)) == written_lines(before));
        } else {
            assert(t.drop_last() =~= before);
        }
        assert forall|j: int| 0 <= j < t.len() implies !#[trigger] wants_blank(t, j) by {
            if wants_blank(t, j) {
                if j + 1 < before.len() {
                    assert(!wants_blank(before, j));
                    assert(t[j - 1] == before[j - 1] && t[j] == before[j] && t[j + 1]
                        == before[j + 1]);
                } else if wants {
                    assert(t[before.len() as int] == blank);
                } else {
                    assert(j == before.len() - 1);
                    assert(t[j] == lines[n - 2]);
                    assert(t[j - 1] == before[before.len() - 2]);
                    if wants_blank(lines, n - 2) {
                        assert(t[j - 1] == blank);
                        assert(text::trim(blank, CharClass::Whitespace).len() == 0);
                    }
                }
            }
        }
        assert forall|j: int| 0 <= j < t.len() implies (#[trigger] t[j]).len() == 0
            || lines.contains(t[j]) by {
            if j < before.len() {
                assert(t[j] == before[j]);
            }
        }
    }
}

/// Lines of which none wants a blank are left as they are.
proof fn lemma_spaced_stays(lines: Seq<Seq<char>>, n: int)
    requires
        0 <= n <= lines.len(),
        forall|j: int| 0 <= j < lines.len() ==> !#[trigger] wants_blank(lines, j),
    ensures
        spaced(lines, n) == lines.take(n),
    decreases n,
{
    if n > 0 {
        lemma_spaced_stays(lines, n - 1);
        assert(!wants_blank(lines, n - 1));
        assert(lines.take(n - 1).push(lines[n - 1]) =~= lines.take(n));
    } else {
        assert(lines.take(0) =~= Seq::<Seq<char>>::empty());
    }
}

/// The lines of the text with its tables spaced are the spaced lines.
proof fn lemma_spaced_text(s: Seq<char>)
    ensures
        ({
            let lines = text::split_on(unify_newlines(s), '\n');
            &&& lines.len() > 0
            &&& unify_newlines(with_table_blank_lines(s)) == with_table_blank_lines(s)
            &&& text::split_on(with_table_blank_lines(s), '\n') == spaced(
                lines,
                lines.len() as int,
            )
        }),
{
    let u = unify_newlines(s);
    let lines = text::split_on(u, '\n');
    let t = spaced(lines, lines.len() as int);
    text::lemma_split_on(u, '\n');
    text::split_then_join(u, '\n');
    no_carriage_return_left(s);
    lemma_spaced(lines, lines.len() as int);
    assert forall|i: int| 0 <= i < lines.len() implies !(#[trigger] lines[i]).contains('\r')
        && !lines[i].contains('\n') by {
        let p = lines[i];
        text::joined_text_holds_its_parts(lines, seq!['\n'], i);
        let a = choose|a: int| #[trigger] text::occurs_at(u, p, a);
        assert forall|k: int| 0 <= k < p.len() implies p[k] != '\r' && p[k] != '\n' by {
            assert(u.subrange(a, a + p.len())[k] == u[a + k]);
            assert(u.contains(u[a + k]));
            assert(lines[i][k] != '\n');
        }
    }
    assert forall|j: int| 0 <= j < t.len() implies !(#[trigger] t[j]).contains('\r')
        && !t[j].contains('\n') by {
        if t[j].len() > 0 {
            let i = choose|i: int| 0 <= i < lines.len() && lines[i] == t[j];
            assert(!lines[i].contains('\r'));
        }
    }
    let nl = seq!['\n'];
    assert(!nl.contains('\r'));
    text::joined_text_holds_nothing_else(t, nl, '\r');
    unify_newlines_keeps_plain_text(with_table_blank_lines(s));
    text::join_then_split(t, '\n');
}

/// A text whose tables have their blank lines is left as it is: doing it twice is
/// doing it once.
pub proof fn table_blank_lines_are_added_once(s: Seq<char>)
    ensures
        with_table_blank_lines(with_table_blank_lines(s)) == with_table_blank_lines(s),
{
    let lines = text::split_on(unify_newlines(s), '\n');
    let t = spaced(lines, lines.len() as int);
    lemma_spaced_text(s);
    lemma_spaced(lines, lines.len() as int);
    lemma_spaced_stays(t, t.len() as int);
    assert(t.take(t.len() as int) =~= t);
}

/// Only empty lines are added for tables, and none above the first line: the
/// lines that are not empty stay, in order, and the first line stays the first.
pub proof fn tables_get_only_empty_lines(s: Seq<char>)
    ensures
        ({
            let lines = text::split_on(unify_newlines(s), '\n');
            let after = text::split_on(with_table_blank_lines(s), '\n');
            &&& written_lines(after) == written_lines(lines)
            &&& after.len() >= lines.len() > 0
            &&& after[0] == lines[0]
        }),
{
    let lines = text::split_on(unify_newlines(s), '\n');
    lemma_spaced_text(s);
    lemma_spaced(lines, lines.len() as int);
    assert(lines.take(lines.len() as int) =~= lines);
}

/// No table is left without its blank line: a header whose divider follows stands
/// at the top, below a blank line or below a row.
pub proof fn every_table_has_its_blank_line(s: Seq<char>, i: int)
    ensures
        !wants_blank(text::split_on(with_table_blank_lines(s), '\n'), i),
{
    let lines = text::split_on(unify_newlines(s), '\n');
    lemma_spaced_text(s);
    lemma_spaced(lines, lines.len() as int);
}

/// Behind a line in a code block, and behind the fence that opens one, the line
/// feed stays.
pub proof fn code_keeps_its_line_feeds(lines: Seq<Seq<char>>, i: int)
    requires
        0 <= i < lines.len() - 1,
        in_code(lines, i + 1),
    ensures
        broken(lines, i + 1) == broken(lines, i) + lines[i] + seq!['\n'],
{
}

/// A line in a code block is not changed, whatever it looks like.
pub proof fn code_lines_stay(m: Merging, line: Seq<char>)
    requires
        m.in_code,
    ensures
        merge_line(m, line).done == flushed(m).push(line),
        merge_line(m, line).quote.len() == 0,
{
}

/// Outside code blocks a line feed before block syntax, before a fence and next
/// to an empty line stays; every other one becomes a break.
pub proof fn other_line_feeds_become_breaks(lines: Seq<Seq<char>>, i: int)
    requires
        0 <= i < lines.len() - 1,
        !in_code(lines, i + 1),
    ensures
        broken(lines, i + 1) == broken(lines, i) + lines[i] + (if lines[i].len() == 0
            || lines[i + 1].len() == 0 || fence(lines[i + 1]) || block_start(lines[i + 1]) {
            seq!['\n']
        } else {
            br()
        }),
{
}

/// Two quote lines outside code become one, with a break in place of the second
/// mark.
pub proof fn quote_lines_merge(done: Seq<Seq<char>>, a: Seq<char>, b: Seq<char>)
    requires
        !fence(a),
        !fence(b),
        quote_prefix(a) is Some,
        quote_prefix(b) is Some,
    ensures
        ({
            let m = Merging { done, quote: Seq::empty(), in_code: false };
            flushed(merge_line(merge_line(m, a), b)) == done.push(
                a + br() + b.skip(quote_prefix(b).unwrap() as int),
            )
        }),
{
    let rest = b.skip(quote_prefix(b).unwrap() as int);
    let two = Seq::<Seq<char>>::empty().push(a).push(rest);
    assert(two.drop_last() =~= seq![a]);
    assert(text::join(seq![a], br()) == a);
    assert(text::join(two, br()) == a + br() + rest);
}

/// A text of one line is given to the card as it is.
pub proof fn one_line_stays(s: Seq<char>)
    requires
        !s.contains('\n'),
        !s.contains('\r'),
    ensures
        card_text(s) == s,
{
    let one = seq![s];
    unify_newlines_keeps_plain_text(s);
    text::text_without_separator_is_one_piece(s, '\n');
    assert(spaced(one, 1) =~= one) by {
        assert(spaced(one, 0) =~= Seq::<Seq<char>>::empty());
    }
    assert(one.drop_last() =~= Seq::<Seq<char>>::empty());
    assert(text::join(one, seq!['\n']) =~= s);
    assert(with_table_blank_lines(s) =~= s);
    assert(merged_lines(one) =~= one) by {
        assert(merging(one, 0) == (Merging {
            done: Seq::empty(),
            quote: Seq::empty(),
            in_code: false,
        }));
        assert(merging(one, 1) == merge_line(merging(one, 0), s));
        assert(Seq::<Seq<char>>::empty().push(s) =~= one);
        assert(text::join(one, br()) =~= s);
    }
    assert(broken(one, 0) =~= Seq::<char>::empty());
    assert(broken(one, 1) =~= s);
}

/// Two lines outside quotes and code are given to the card with a line feed or a
/// break between them.
proof fn lemma_two_lines(a: Seq<char>, b: Seq<char>)
    requires
        a.len() > 0,
        b.len() > 0,
        !a.contains('\n'),
        !a.contains('\r'),
        !b.contains('\n'),
        !b.contains('\r'),
        !fence(a),
        !fence(b),
        quote_prefix(a) is None,
        quote_prefix(b) is None,
    ensures
        card_text(a + seq!['\n'] + b) == a + (if block_start(b) {
            seq!['\n']
        } else {
            br()
        }) + b,
{
    let nl = seq!['\n'];
    let s = a + nl + b;
    let two = seq![a, b];
    assert(two.drop_last() =~= seq![a]);
    assert(text::join(seq![a], nl) == a);
    assert(text::join(two, nl) =~= s);
    assert forall|i: int| 0 <= i < two.len() implies !(#[trigger] two[i]).contains('\n') by {}
    text::join_then_split(two, '\n');
    assert forall|i: int| 0 <= i < s.len() implies s[i] != '\r' by {
        if i < a.len() {
            assert(a.contains(a[i]));
        } else if i > a.len() {
            assert(b.contains(b[i - a.len() - 1]));
        }
    }
    unify_newlines_keeps_plain_text(s);
    assert forall|j: int| 0 <= j < two.len() implies !#[trigger] wants_blank(two, j) by {}
    lemma_spaced_stays(two, 2);
    assert(two.take(2) =~= two);
    assert(with_table_blank_lines(s) == s);
    let none = Merging { done: Seq::empty(), quote: Seq::empty(), in_code: false };
    assert(merging(two, 0) == none);
    assert(merging(two, 1) == merge_line(none, a));
    assert(merging(two, 2) == merge_line(merging(two, 1), b));
    assert(merged_lines(two) =~= two);
    assert(!in_code(two, 0));
    assert(!in_code(two, 1));
    assert(broken(two, 0) =~= Seq::<char>::empty());
    assert(broken(two, 1) =~= a + (if block_start(b) {
        nl
    } else {
        br()
    }));
    assert(broken(two, 2) =~= broken(two, 1) + b);
}

/// A line of words: it begins with a letter.
pub open spec fn of_words(a: Seq<char>) -> bool {
    &&& a.len() > 0
    &&& 'a' <= a[0] <= 'z' || 'A' <= a[0] <= 'Z'
    &&& !a.contains('\n')
    &&& !a.contains('\r')
}

proof fn lemma_of_words(a: Seq<char>)
    requires
        of_words(a),
    ensures
        !fence(a),
        quote_prefix(a) is None,
        !block_start(a),
{
    text::run_ends_before_others(a, CharClass::Whitespace, 0);
    text::run_ends_before_others(a, CharClass::Blank, 0);
    text::run_ends_before_others(a, CharClass::Digit, 0);
    text::run_ends_before_others(a, CharClass::Hash, 0);
    assert(a.skip(0) =~= a);
    if text::begins(a, fence_mark()) {
        assert(a.subrange(0, 3)[0] == a[0]);
    }
    assert(!text::is_space(a[0]));
}

/// A line that begins, behind at most three blanks, with a character that is no
/// blank and neither a backtick nor a quote mark.
proof fn lemma_indented(indent: Seq<char>, t: Seq<char>)
    requires
        indent.len() <= 3,
        forall|i: int| 0 <= i < indent.len() ==> #[trigger] indent[i] == ' ',
        t.len() > 0,
        '!' <= t[0] <= '~',
        t[0] != '`',
        t[0] != '>',
    ensures
        text::leading(indent + t, CharClass::Whitespace) == indent.len(),
        text::leading(indent + t, CharClass::Blank) == indent.len(),
        (indent + t).skip(indent.len() as int) == t,
        !fence(indent + t),
        quote_prefix(indent + t) is None,
{
    let b = indent + t;
    let n = indent.len() as int;
    assert forall|i: int| 0 <= i < n implies #[trigger] text::in_class(
        b[i],
        CharClass::Whitespace,
    ) && text::in_class(b[i], CharClass::Blank) by {
        assert(b[i] == indent[i]);
    }
    assert(b[n] == t[0]);
    text::run_ends_before_others(b, CharClass::Whitespace, n);
    assert forall|i: int| 0 <= i < n implies #[trigger] text::in_class(
        b[i],
        CharClass::Blank,
    ) by {
        assert(b[i] == indent[i]);
    }
    text::run_ends_before_others(b, CharClass::Blank, n);
    assert(b.skip(n) =~= t);
    if text::begins(t, fence_mark()) {
        assert(t.subrange(0, 3)[0] == t[0]);
    }
}

/// The line feed stays between a line of words and a line that is block syntax.
pub open spec fn stays_apart(a: Seq<char>, b: Seq<char>) -> bool {
    card_text(a + seq!['\n'] + b) == a + seq!['\n'] + b
}

/// Words that go on in the next line are given to the card with a break between
/// the lines.
pub proof fn words_go_on_behind_a_break(a: Seq<char>, b: Seq<char>)
    requires
        of_words(a),
        of_words(b),
    ensures
        card_text(a + seq!['\n'] + b) == a + seq!['<', 'b', 'r', '>'] + b,
{
    lemma_of_words(a);
    lemma_of_words(b);
    lemma_two_lines(a, b);
}

/// The item of a list, behind at most three blanks, stands on a line of its own:
/// a hyphen, an asterisk or a plus sign and a blank begin one, and so do digits
/// with a dot or a bracket and a blank.
pub proof fn list_items_keep_their_line(
    a: Seq<char>,
    indent: Seq<char>,
    mark: char,
    number: Seq<char>,
    rest: Seq<char>,
)
    requires
        of_words(a),
        indent.len() <= 3,
        forall|i: int| 0 <= i < indent.len() ==> #[trigger] indent[i] == ' ',
        number.len() > 0,
        forall|i: int| 0 <= i < number.len() ==> '0' <= #[trigger] number[i] <= '9',
        !rest.contains('\n'),
        !rest.contains('\r'),
    ensures
        mark == '-' || mark == '*' || mark == '+' ==> stays_apart(
            a,
            indent + (seq![mark, ' '] + rest),
        ),
        mark == '.' || mark == ')' ==> stays_apart(
            a,
            indent + (number + seq![mark, ' '] + rest),
        ),
{
    lemma_of_words(a);
    if mark == '-' || mark == '*' || mark == '+' {
        let t = seq![mark, ' '] + rest;
        lemma_indented(indent, t);
        lemma_no_feeds(indent, seq![mark, ' '], rest);
        assert(indent + (seq![mark, ' '] + rest) =~= indent + seq![mark, ' '] + rest);
        lemma_two_lines(a, indent + t);
    }
    if mark == '.' || mark == ')' {
        let t = number + seq![mark, ' '] + rest;
        let n = number.len() as int;
        assert(t[0] == number[0]);
        assert('0' <= number[0] <= '9');
        lemma_indented(indent, t);
        assert forall|i: int| 0 <= i < n implies #[trigger] text::in_class(
            t[i],
            CharClass::Digit,
        ) by {
            assert(t[i] == number[i]);
        }
        assert(t[n] == mark && t[n + 1] == ' ');
        text::run_ends_before_others(t, CharClass::Digit, n);
        let front = indent + number;
        assert forall|i: int| 0 <= i < front.len() implies front[i] != '\n' && front[i]
            != '\r' by {
            if i < indent.len() {
                assert(front[i] == indent[i]);
            } else {
                assert(front[i] == number[i - indent.len()]);
            }
        }
        lemma_no_feeds(front, seq![mark, ' '], rest);
        assert(indent + t =~= front + seq![mark, ' '] + rest);
        lemma_two_lines(a, indent + t);
    }
}

/// Texts without line feeds make a text without them.
proof fn lemma_no_feeds(a: Seq<char>, b: Seq<char>, c: Seq<char>)
    requires
        forall|i: int| 0 <= i < a.len() ==> #[trigger] a[i] != '\n' && a[i] != '\r',
        forall|i: int| 0 <= i < b.len() ==> #[trigger] b[i] != '\n' && b[i] != '\r',
        !c.contains('\n'),
        !c.contains('\r'),
    ensures
        !(a + b + c).contains('\n'),
        !(a + b + c).contains('\r'),
{
    let s = a + b + c;
    assert forall|i: int| 0 <= i < s.len() implies s[i] != '\n' && s[i] != '\r' by {
        if i < a.len() {
            assert(s[i] == a[i]);
        } else if i < a.len() + b.len() {
            assert(s[i] == b[i - a.len()]);
        } else {
            assert(s[i] == c[i - a.len() - b.len()]);
            assert(c.contains(c[i - a.len() - b.len()]));
        }
    }
}

/// A line that begins with number signs is block syntax where it is a heading.
#[verifier::spinoff_prover]
#[verifier::rlimit(50)]
proof fn lemma_signs(signs: Seq<char>, rest: Seq<char>)
    requires
        signs.len() > 0,
        forall|i: int| 0 <= i < signs.len() ==> #[trigger] signs[i] == '#',
        rest.len() > 0,
        rest[0] != '#',
        !rest.contains('\n'),
        !rest.contains('\r'),
    ensures
        block_start(signs + rest) == (signs.len() <= 6 && rest[0] == ' '),
        !fence(signs + rest),
        quote_prefix(signs + rest) is None,
        !(signs + rest).contains('\n'),
        !(signs + rest).contains('\r'),
{
    let none = Seq::<char>::empty();
    let n = signs.len() as int;
    let t = signs + rest;
    assert(signs[0] == '#');
    assert(none + t =~= t);
    lemma_indented(none, t);
    assert(t.skip(0) =~= t);
    assert forall|i: int| 0 <= i < n implies #[trigger] text::in_class(t[i], CharClass::Hash) by {
        assert(t[i] == signs[i]);
    }
    assert(t[n] == rest[0]);
    assert(t[0] == '#');
    text::run_ends_before_others(t, CharClass::Hash, n);
    text::run_ends_before_others(t, CharClass::Digit, 0);
    assert(!text::is_space(t[0]));
    assert(!rule_of(t, '-') && !rule_of(t, '*') && !rule_of(t, '_'));
    lemma_no_feeds(signs, none, rest);
    assert(signs + none + rest =~= t);
}

/// A heading stands on a line of its own: one to six number signs and a blank.
pub proof fn headings_keep_their_line(a: Seq<char>, signs: Seq<char>, rest: Seq<char>)
    requires
        of_words(a),
        0 < signs.len() <= 6,
        forall|i: int| 0 <= i < signs.len() ==> #[trigger] signs[i] == '#',
        !rest.contains('\n'),
        !rest.contains('\r'),
    ensures
        stays_apart(a, signs + (seq![' '] + rest)),
{
    let none = Seq::<char>::empty();
    lemma_of_words(a);
    lemma_no_feeds(none, seq![' '], rest);
    assert(none + seq![' '] + rest =~= seq![' '] + rest);
    lemma_signs(signs, seq![' '] + rest);
    lemma_two_lines(a, signs + (seq![' '] + rest));
}

/// Seven number signs are no heading, nor are signs without a blank behind them.
pub proof fn other_signs_are_words(a: Seq<char>, signs: Seq<char>, rest: Seq<char>)
    requires
        of_words(a),
        signs.len() > 0,
        forall|i: int| 0 <= i < signs.len() ==> #[trigger] signs[i] == '#',
        rest.len() > 0,
        rest[0] != '#',
        signs.len() > 6 || rest[0] != ' ',
        !rest.contains('\n'),
        !rest.contains('\r'),
    ensures
        card_text(a + seq!['\n'] + (signs + rest)) == a + seq!['<', 'b', 'r', '>'] + (signs + rest),
{
    lemma_of_words(a);
    lemma_signs(signs, rest);
    lemma_two_lines(a, signs + rest);
}

/// The row of a table and a rule stand on lines of their own: a row begins with a
/// bar, and a rule is three hyphens, asterisks or underscores, or more of them.
pub proof fn rows_and_rules_keep_their_line(
    a: Seq<char>,
    rest: Seq<char>,
    mark: char,
    rule: Seq<char>,
)
    requires
        of_words(a),
        !rest.contains('\n'),
        !rest.contains('\r'),
        mark == '-' || mark == '*' || mark == '_',
        rule.len() >= 3,
        forall|i: int| 0 <= i < rule.len() ==> #[trigger] rule[i] == mark,
    ensures
        stays_apart(a, seq!['|'] + rest),
        stays_apart(a, rule),
{
    lemma_of_words(a);
    let none = Seq::<char>::empty();
    let row = seq!['|'] + rest;
    assert(none + row =~= row && none + rule =~= rule);
    lemma_indented(none, row);
    assert(row.skip(0) =~= row && rule.skip(0) =~= rule);
    lemma_no_feeds(none, seq!['|'], rest);
    assert(none + seq!['|'] + rest =~= row);
    lemma_two_lines(a, row);
    assert(rule[0] == mark);
    lemma_indented(none, rule);
    lemma_count_all(rule, mark);
    assert(!none.contains('\n') && !none.contains('\r'));
    assert forall|i: int| 0 <= i < rule.len() implies #[trigger] rule[i] != '\n' && rule[i]
        != '\r' by {
        assert(rule[i] == mark);
    }
    lemma_no_feeds(rule, none, none);
    assert(rule + none + none =~= rule);
    assert(rule_of(rule, mark));
    lemma_two_lines(a, rule);
}

proof fn lemma_count_all(s: Seq<char>, c: char)
    requires
        forall|i: int| 0 <= i < s.len() ==> #[trigger] s[i] == c,
    ensures
        count_of(s, c) == s.len(),
    decreases s.len(),
{
    if s.len() > 0 {
        let t = s.drop_last();
        assert forall|i: int| 0 <= i < t.len() implies #[trigger] t[i] == c by {
            assert(s[i] == c);
        }
        lemma_count_all(t, c);
        assert(s[s.len() - 1] == c);
    }
}

/// A quote mark stands behind at most three blanks; to it belongs a blank behind it.
pub proof fn quote_mark_stands_behind_three_blanks(indent: Seq<char>, rest: Seq<char>)
    requires
        forall|i: int| 0 <= i < indent.len() ==> #[trigger] indent[i] == ' ',
    ensures
        indent.len() > 3 ==> quote_prefix(indent + seq!['>'] + rest) is None,
        indent.len() <= 3 && rest.len() > 0 && rest[0] == ' ' ==> quote_prefix(
            indent + seq!['>'] + rest,
        ) == Some(indent.len() + 2),
        indent.len() <= 3 && (rest.len() == 0 || '!' <= rest[0] <= '~') ==> quote_prefix(
            indent + seq!['>'] + rest,
        ) == Some(indent.len() + 1),
        !fence(indent + seq!['>'] + rest),
{
    let b = indent + seq!['>'] + rest;
    let n = indent.len() as int;
    assert forall|i: int| 0 <= i < n implies #[trigger] text::in_class(
        b[i],
        CharClass::Whitespace,
    ) by {
        assert(b[i] == indent[i]);
    }
    assert(b[n] == '>');
    text::run_ends_before_others(b, CharClass::Whitespace, n);
    if rest.len() > 0 {
        assert(b[n + 1] == rest[0]);
    }
    assert(b.skip(n)[0] == '>');
    if text::begins(b.skip(n), fence_mark()) {
        assert(b.skip(n).subrange(0, 3)[0] == b.skip(n)[0]);
    }
}

/// Two lines of a quote become one: behind the break stands the second line
/// without its mark and the blank behind that.
pub proof fn quote_goes_on_behind_a_break(indent: Seq<char>, x: Seq<char>, y: Seq<char>)
    requires
        indent.len() <= 3,
        forall|i: int| 0 <= i < indent.len() ==> #[trigger] indent[i] == ' ',
        !x.contains('\n'),
        !x.contains('\r'),
        !y.contains('\n'),
        !y.contains('\r'),
    ensures
        card_text(seq!['>', ' '] + x + seq!['\n'] + (indent + seq!['>', ' '] + y)) == seq!['>', ' ']
            + x + seq!['<', 'b', 'r', '>'] + y,
{
    let nl = seq!['\n'];
    let none = Seq::<char>::empty();
    let a = seq!['>', ' '] + x;
    let b = indent + seq!['>', ' '] + y;
    let s = a + nl + b;
    let two = seq![a, b];
    let n = indent.len() as int;
    assert forall|i: int| 0 <= i < n implies indent[i] != '\n' && indent[i] != '\r' by {
        assert(indent[i] == ' ');
    }
    lemma_no_feeds(none, seq!['>', ' '], x);
    lemma_no_feeds(indent, seq!['>', ' '], y);
    assert(none + seq!['>', ' '] + x =~= a);
    quote_mark_stands_behind_three_blanks(none, seq![' '] + x);
    quote_mark_stands_behind_three_blanks(indent, seq![' '] + y);
    assert(none + seq!['>'] + (seq![' '] + x) =~= a);
    assert(indent + seq!['>'] + (seq![' '] + y) =~= b);
    assert(quote_prefix(b) == Some((n + 2) as nat));
    assert(b.skip(n + 2) =~= y);
    assert(two.drop_last() =~= seq![a]);
    assert(text::join(seq![a], nl) == a);
    assert(text::join(two, nl) =~= s);
    assert forall|i: int| 0 <= i < two.len() implies !(#[trigger] two[i]).contains('\n') by {}
    text::join_then_split(two, '\n');
    assert forall|i: int| 0 <= i < s.len() implies s[i] != '\r' by {
        if i < a.len() {
            assert(a.contains(a[i]));
        } else if i > a.len() {
            assert(b.contains(b[i - a.len() - 1]));
        }
    }
    unify_newlines_keeps_plain_text(s);
    assert forall|j: int| 0 <= j < two.len() implies !#[trigger] wants_blank(two, j) by {}
    lemma_spaced_stays(two, 2);
    assert(two.take(2) =~= two);
    assert(with_table_blank_lines(s) == s);
    let start = Merging { done: Seq::empty(), quote: Seq::empty(), in_code: false };
    assert(merging(two, 0) == start);
    assert(merging(two, 1) == merge_line(start, a));
    assert(merging(two, 2) == merge_line(merging(two, 1), b));
    quote_lines_merge(Seq::empty(), a, b);
    let one = seq![a + br() + y];
    assert(merged_lines(two) =~= one);
    assert(broken(one, 0) =~= none);
    assert(broken(one, 1) =~= a + br() + y);
}

/// Code between two fences is given to the card as it is, whatever its lines look
/// like.
pub proof fn code_stays(c: Seq<char>, d: Seq<char>)
    requires
        !c.contains('\n'),
        !c.contains('\r'),
        !d.contains('\n'),
        !d.contains('\r'),
        !c.contains('`'),
        !d.contains('`'),
    ensures
        with_line_breaks(
            seq!['`', '`', '`', '\n'] + c + seq!['\n'] + d + seq!['\n', '`', '`', '`'],
        ) == seq!['`', '`', '`', '\n'] + c + seq!['\n'] + d + seq!['\n', '`', '`', '`'],
{
    let nl = seq!['\n'];
    let mark = seq!['`', '`', '`'];
    let s = seq!['`', '`', '`', '\n'] + c + seq!['\n'] + d + seq!['\n', '`', '`', '`'];
    let four = seq![mark, c, d, mark];
    assert(four.drop_last() =~= seq![mark, c, d]);
    assert(seq![mark, c, d].drop_last() =~= seq![mark, c]);
    assert(seq![mark, c].drop_last() =~= seq![mark]);
    assert(text::join(seq![mark], nl) == mark);
    assert(text::join(seq![mark, c], nl) == mark + nl + c);
    assert(text::join(seq![mark, c, d], nl) == mark + nl + c + nl + d);
    assert(text::join(four, nl) =~= s);
    assert(!mark.contains('\n'));
    assert forall|i: int| 0 <= i < four.len() implies !(#[trigger] four[i]).contains('\n') by {}
    text::join_then_split(four, '\n');
    assert forall|i: int| 0 <= i < four.len() implies !(#[trigger] four[i]).contains('\r') by {
        assert(!mark.contains('\r'));
    }
    assert(!nl.contains('\r'));
    text::joined_text_holds_nothing_else(four, nl, '\r');
    unify_newlines_keeps_plain_text(s);
    text::run_ends_before_others(mark, CharClass::Whitespace, 0);
    assert(mark.skip(0) =~= mark);
    assert(mark.subrange(0, 3) =~= mark);
    assert(fence(mark));
    lemma_no_backtick(c);
    lemma_no_backtick(d);
    let start = Merging { done: Seq::empty(), quote: Seq::empty(), in_code: false };
    assert(merging(four, 0) == start);
    assert(merging(four, 1) == merge_line(start, mark));
    assert(merging(four, 2) == merge_line(merging(four, 1), c));
    assert(merging(four, 3) == merge_line(merging(four, 2), d));
    assert(merging(four, 4) == merge_line(merging(four, 3), mark));
    assert(merged_lines(four) =~= four);
    assert(!in_code(four, 0));
    assert(in_code(four, 1));
    assert(in_code(four, 2));
    assert(in_code(four, 3));
    assert(broken(four, 0) =~= Seq::<char>::empty());
    assert(broken(four, 1) =~= mark + nl);
    assert(broken(four, 2) =~= mark + nl + c + nl);
    assert(broken(four, 3) =~= mark + nl + c + nl + d + nl);
    assert(broken(four, 4) =~= s);
}

proof fn lemma_no_backtick(c: Seq<char>)
    requires
        !c.contains('`'),
    ensures
        !fence(c),
{
    text::lemma_leading(c, CharClass::Whitespace);
    let n = text::leading(c, CharClass::Whitespace) as int;
    let t = c.skip(n);
    if text::begins(t, fence_mark()) {
        assert(t.subrange(0, 3)[0] == t[0]);
        assert(c[n] == '`');
        assert(c.contains(c[n]));
    }
}

/// A table below words gets a blank line above its header.
#[verifier::rlimit(60)]
pub proof fn table_below_words_is_set_apart(a: Seq<char>, header: Seq<char>)
    requires
        of_words(a),
        !a.contains('|'),
        header.contains('|'),
        !header.contains('\n'),
        !header.contains('\r'),
    ensures
        with_table_blank_lines(a + seq!['\n'] + header + seq!['\n', '|', '-', '|', '-', '|']) == a
            + seq!['\n', '\n'] + header + seq!['\n', '|', '-', '|', '-', '|'],
{
    let nl = seq!['\n'];
    let div = seq!['|', '-', '|', '-', '|'];
    let s = a + seq!['\n'] + header + seq!['\n', '|', '-', '|', '-', '|'];
    let three = seq![a, header, div];
    assert(three.drop_last() =~= seq![a, header]);
    assert(seq![a, header].drop_last() =~= seq![a]);
    assert(text::join(seq![a], nl) == a);
    assert(text::join(seq![a, header], nl) == a + nl + header);
    assert(text::join(three, nl) =~= s);
    assert(!div.contains('\n') && !div.contains('\r') && !nl.contains('\r'));
    assert forall|i: int| 0 <= i < three.len() implies !(#[trigger] three[i]).contains('\n') by {}
    assert forall|i: int| 0 <= i < three.len() implies !(#[trigger] three[i]).contains('\r') by {}
    text::join_then_split(three, '\n');
    text::joined_text_holds_nothing_else(three, nl, '\r');
    unify_newlines_keeps_plain_text(s);
    lemma_small_divider();
    text::run_ends_before_others(a, CharClass::Whitespace, 0);
    assert(a.skip(0) =~= a);
    text::lemma_trailing(a, CharClass::Whitespace);
    assert(text::trim(a, CharClass::Whitespace).len() > 0) by {
        if text::trailing(a, CharClass::Whitespace) == a.len() {
            lemma_all_trailing(a, CharClass::Whitespace);
        }
    }
    assert(wants_blank(three, 1));
    assert(!wants_blank(three, 0) && !wants_blank(three, 2));
    let none = Seq::<char>::empty();
    assert(spaced(three, 0) =~= Seq::<Seq<char>>::empty());
    assert(spaced(three, 1) =~= seq![a]);
    assert(spaced(three, 2) =~= seq![a, none, header]);
    assert(spaced(three, 3) =~= seq![a, none, header, div]);
    let four = seq![a, none, header, div];
    assert(four.drop_last() =~= seq![a, none, header]);
    assert(seq![a, none, header].drop_last() =~= seq![a, none]);
    assert(seq![a, none].drop_last() =~= seq![a]);
    assert(text::join(seq![a, none], nl) == a + nl + none);
    assert(text::join(seq![a, none, header], nl) == a + nl + none + nl + header);
    assert(text::join(four, nl) =~= a + seq!['\n', '\n'] + header + seq![
        '\n',
        '|',
        '-',
        '|',
        '-',
        '|',
    ]);
}

/// A text that is one run at its back belongs to the class from its front.
proof fn lemma_all_trailing(s: Seq<char>, k: CharClass)
    requires
        s.len() > 0,
        text::trailing(s, k) == s.len(),
    ensures
        text::in_class(s[0], k),
    decreases s.len(),
{
    if s.len() > 1 {
        lemma_all_trailing(s.drop_last(), k);
    }
}

proof fn lemma_small_divider()
    ensures
        table_divider(seq!['|', '-', '|', '-', '|']),
{
    let div = seq!['|', '-', '|', '-', '|'];
    let bar = seq!['|'];
    let three = seq![bar, bar, bar];
    assert(three.drop_last() =~= seq![bar, bar]);
    assert(seq![bar, bar].drop_last() =~= seq![bar]);
    assert(text::join(seq![bar], seq!['-']) == bar);
    assert(text::join(seq![bar, bar], seq!['-']) == bar + seq!['-'] + bar);
    assert(text::join(three, seq!['-']) =~= div);
    assert(!bar.contains('-'));
    assert forall|i: int| 0 <= i < three.len() implies !(#[trigger] three[i]).contains('-') by {}
    text::join_then_split(three, '-');
    assert(div[0] == '|');
    assert(div.contains('|'));
    let none = Seq::<char>::empty();
    text::trimming_keeps_the_middle(none, bar, none, CharClass::Whitespace);
    assert(none + bar + none =~= bar);
    assert(divider_gap(bar, true, true));
    assert(divider_gap(bar, false, true));
    assert(divider_gap(bar, true, false));
    assert forall|i: int| 0 < i < three.len() - 1 implies #[trigger] divider_gap(
        three[i],
        true,
        true,
    ) by {}
}

/// Between the hyphens of a rule stand blanks, a bar, and the colons of the hyphens
/// on either side; letters do not.
pub proof fn bars_blanks_and_colons_are_gaps(
    p: Seq<char>,
    q: Seq<char>,
    before: bool,
    after: bool,
    g: Seq<char>,
    c: char,
)
    requires
        forall|i: int| 0 <= i < p.len() ==> #[trigger] p[i] == ' ',
        forall|i: int| 0 <= i < q.len() ==> #[trigger] q[i] == ' ',
    ensures
        divider_gap(p + seq!['|'] + q, before, after),
        divider_gap(seq![':'] + (p + seq!['|'] + q) + seq![':'], true, true),
        divider_gap(seq![':'] + (p + seq!['|'] + q), true, after),
        divider_gap((p + seq!['|'] + q) + seq![':'], before, true),
        !divider_gap(seq![':'] + (p + seq!['|'] + q), false, after),
        !divider_gap((p + seq!['|'] + q) + seq![':'], before, false),
        'a' <= c <= 'z' && g.contains(c) ==> !divider_gap(g, before, after),
{
    let mid = p + seq!['|'] + q;
    lemma_bar(p, q);
    let front = seq![':'] + mid;
    let back = mid + seq![':'];
    let both = seq![':'] + mid + seq![':'];
    lemma_bar_ends(p, q);
    assert(front.skip(1) =~= mid);
    assert(back.drop_last() =~= mid);
    assert(both.skip(1) =~= back);
    assert(front.last() == mid.last());
    assert(back[0] == mid[0]);
    assert(front[0] == ':' && back.last() == ':');
    let space = CharClass::Whitespace;
    assert(!text::in_class(':', space));
    assert(front.contains(front[0]) && back.contains(back[back.len() - 1]));
    text::trimming_keeps_others(front, ':', space);
    text::trimming_keeps_others(back, ':', space);
    assert(!seq!['|'].contains(':'));
    if 'a' <= c <= 'z' && g.contains(c) {
        lemma_letter_is_no_gap(g, before, after, c);
    }
}

proof fn lemma_bar(p: Seq<char>, q: Seq<char>)
    requires
        forall|i: int| 0 <= i < p.len() ==> #[trigger] p[i] == ' ',
        forall|i: int| 0 <= i < q.len() ==> #[trigger] q[i] == ' ',
    ensures
        text::trim(p + seq!['|'] + q, CharClass::Whitespace) == seq!['|'],
{
    assert forall|i: int| 0 <= i < p.len() implies #[trigger] text::in_class(
        p[i],
        CharClass::Whitespace,
    ) by {
        assert(p[i] == ' ');
    }
    assert forall|i: int| 0 <= i < q.len() implies #[trigger] text::in_class(
        q[i],
        CharClass::Whitespace,
    ) by {
        assert(q[i] == ' ');
    }
    text::trimming_keeps_the_middle(p, seq!['|'], q, CharClass::Whitespace);
}

proof fn lemma_bar_ends(p: Seq<char>, q: Seq<char>)
    requires
        forall|i: int| 0 <= i < p.len() ==> #[trigger] p[i] == ' ',
        forall|i: int| 0 <= i < q.len() ==> #[trigger] q[i] == ' ',
    ensures
        (p + seq!['|'] + q).len() > 0,
        (p + seq!['|'] + q)[0] != ':',
        (p + seq!['|'] + q).last() != ':',
{
    let mid = p + seq!['|'] + q;
    if p.len() > 0 {
        assert(mid[0] == p[0]);
    } else {
        assert(mid[0] == '|');
    }
    if q.len() > 0 {
        assert(mid[mid.len() - 1] == q[q.len() - 1]);
    } else {
        assert(mid[mid.len() - 1] == '|');
    }
}

proof fn lemma_letter_is_no_gap(g: Seq<char>, before: bool, after: bool, c: char)
    requires
        'a' <= c <= 'z',
        g.contains(c),
    ensures
        !divider_gap(g, before, after),
{
    let i = choose|i: int| 0 <= i < g.len() && g[i] == c;
    let a = if before && g.len() > 0 && g[0] == ':' {
        g.skip(1)
    } else {
        g
    };
    let b = if after && a.len() > 0 && a.last() == ':' {
        a.drop_last()
    } else {
        a
    };
    let j = if before && g[0] == ':' {
        i - 1
    } else {
        i
    };
    assert(a[j] == c);
    assert(j < b.len());
    assert(b[j] == c);
    text::visible_characters_are_no_space(c);
    text::trimming_keeps_others(b, c, CharClass::Whitespace);
    assert(!seq!['|'].contains(c));
}

/// Rows without a rule below them are no table: no blank line is put above them.
pub proof fn rows_without_a_rule_are_no_table(a: Seq<char>, row: Seq<char>, next: Seq<char>)
    requires
        !a.contains('\n') && !a.contains('\r'),
        !row.contains('\n') && !row.contains('\r'),
        !next.contains('\n') && !next.contains('\r'),
        !next.contains('-'),
    ensures
        with_table_blank_lines(a + seq!['\n'] + row + seq!['\n'] + next) == a + seq!['\n'] + row
            + seq!['\n'] + next,
{
    let nl = seq!['\n'];
    let s = a + nl + row + nl + next;
    let three = seq![a, row, next];
    assert(three.drop_last() =~= seq![a, row]);
    assert(seq![a, row].drop_last() =~= seq![a]);
    assert(text::join(seq![a], nl) == a);
    assert(text::join(seq![a, row], nl) == a + nl + row);
    assert(text::join(three, nl) =~= s);
    assert(!nl.contains('\r'));
    assert forall|i: int| 0 <= i < three.len() implies !(#[trigger] three[i]).contains('\n') by {}
    assert forall|i: int| 0 <= i < three.len() implies !(#[trigger] three[i]).contains('\r') by {}
    text::join_then_split(three, '\n');
    text::joined_text_holds_nothing_else(three, nl, '\r');
    unify_newlines_keeps_plain_text(s);
    text::text_without_separator_is_one_piece(next, '-');
    assert(!table_divider(next));
    assert forall|j: int| 0 <= j < three.len() implies !#[trigger] wants_blank(three, j) by {}
    lemma_spaced_stays(three, 3);
    assert(three.take(3) =~= three);
}

/// One hyphen is no rule.
pub proof fn one_hyphen_is_no_rule(x: Seq<char>, y: Seq<char>)
    requires
        !x.contains('-'),
        !y.contains('-'),
    ensures
        !table_divider(x + seq!['-'] + y),
        !table_divider(x),
{
    let two = seq![x, y];
    assert(two.drop_last() =~= seq![x]);
    assert(text::join(seq![x], seq!['-']) == x);
    assert(text::join(two, seq!['-']) =~= x + seq!['-'] + y);
    text::join_then_split(two, '-');
    text::text_without_separator_is_one_piece(x, '-');
}

} // verus!
