//! Text as sequences of Unicode scalar values: classes of characters,
//! trimming, splitting, joining, searching and decimal rendering.

use vstd::prelude::*;

verus! {

/// `String::push` appends one character.
pub assume_specification[ String::push ](s: &mut String, c: char)
    ensures
        final(s)@ == old(s)@.push(c),
;

// ── conversions ──

/// The characters of a string, one element each.
pub fn chars_of(s: &str) -> (r: Vec<char>)
    ensures
        r@ == s@,
{
    let mut out: Vec<char> = Vec::new();
    for c in it: s.chars()
        invariant
            out@ == s@.take(it.index() as int),
            it.seq() == s@,
    {
        out.push(c);
    }
    out
}

/// The string made of the given characters.
pub fn string_of(v: &[char]) -> (r: String)
    ensures
        r@ == v@,
{
    let mut out = String::new();
    let mut i: usize = 0;
    while i < v.len()
        invariant
            i <= v.len(),
            out@ == v@.take(i as int),
        decreases v.len() - i,
    {
        out.push(v[i]);
        i += 1;
    }
    out
}

/// A fresh string with the contents of `s`.
pub fn owned(s: &str) -> (r: String)
    ensures
        r@ == s@,
{
    s.to_owned()
}

/// Whether two strings hold the same characters.
pub fn same(a: &str, b: &str) -> (r: bool)
    ensures
        r == (a@ == b@),
{
    let x = chars_of(a);
    let y = chars_of(b);
    same_chars(&x, &y)
}

/// Whether two character slices are equal.
pub fn same_chars(x: &[char], y: &[char]) -> (r: bool)
    ensures
        r == (x@ == y@),
{
    if x.len() != y.len() {
        return false;
    }
    let mut i: usize = 0;
    while i < x.len()
        invariant
            x@.len() == y@.len(),
            i <= x.len(),
            x@.take(i as int) == y@.take(i as int),
        decreases x.len() - i,
    {
        if x[i] != y[i] {
            assert(x@[i as int] != y@[i as int]);
            return false;
        }
        assert(x@.take(i + 1) =~= x@.take(i as int).push(x@[i as int]));
        assert(y@.take(i + 1) =~= y@.take(i as int).push(y@[i as int]));
        i += 1;
    }
    assert(x@.take(i as int) =~= x@);
    assert(y@.take(i as int) =~= y@);
    true
}

/// A copy of `v[i..j]`.
pub fn slice_of(v: &[char], i: usize, j: usize) -> (r: Vec<char>)
    requires
        i <= j <= v@.len(),
    ensures
        r@ == v@.subrange(i as int, j as int),
{
    let mut out: Vec<char> = Vec::new();
    let mut k: usize = i;
    while k < j
        invariant
            i <= k <= j <= v@.len(),
            out@ == v@.subrange(i as int, k as int),
        decreases j - k,
    {
        out.push(v[k]);
        k += 1;
    }
    out
}

// ── lists of texts ──

/// The contents of a list of strings.
pub open spec fn texts(v: Seq<String>) -> Seq<Seq<char>> {
    Seq::new(v.len(), |i: int| v[i]@)
}

/// The contents of a list of character vectors.
pub open spec fn rows(v: Seq<Vec<char>>) -> Seq<Seq<char>> {
    Seq::new(v.len(), |i: int| v[i]@)
}

// ── classes of characters ──

/// A copy of a list of texts.
pub fn copy_texts(v: &Vec<String>) -> (r: Vec<String>)
    ensures
        texts(r@) == texts(v@),
{
    let mut out: Vec<String> = Vec::new();
    let mut i: usize = 0;
    while i < v.len()
        invariant
            i <= v@.len(),
            texts(out@) =~= texts(v@).take(i as int),
        decreases v@.len() - i,
    {
        let item = v[i].clone();
        out.push(item);
        assert(texts(out@) =~= texts(v@).take(i as int).push(item@));
        assert(texts(v@).take(i + 1) =~= texts(v@).take(i as int).push(texts(v@)[i as int]));
        i += 1;
    }
    out
}

/// Whether a list holds a text.
pub fn listed(v: &Vec<String>, s: &str) -> (r: bool)
    ensures
        r == texts(v@).contains(s@),
{
    let mut i: usize = 0;
    while i < v.len()
        invariant
            i <= v@.len(),
            forall|k: int| 0 <= k < i ==> (#[trigger] texts(v@)[k]) != s@,
        decreases v@.len() - i,
    {
        if same(v[i].as_str(), s) {
            assert(texts(v@)[i as int] == s@);
            return true;
        }
        i += 1;
    }
    false
}

/// A class of characters that the library trims or tests for.
#[derive(Clone, Copy)]
pub enum CharClass {
    /// The Unicode `White_Space` property.
    Whitespace,
    /// Space and tab.
    Blank,
    /// Line feed.
    Newline,
    /// The double quotation mark.
    Quote,
    /// What may precede the words of a markdown title line.
    TitleMark,
    /// The full stop.
    Dot,
    /// ASCII letters, ASCII digits and the underscore.
    Word,
    /// ASCII digits.
    Digit,
    /// The number sign.
    Hash,
    /// The hyphen-minus.
    Dash,
    /// The at sign.
    At,
}

/// The characters of the Unicode `White_Space` property.
pub open spec fn is_space(c: char) -> bool {
    let u = c as u32;
    ||| 0x09 <= u <= 0x0d
    ||| u == 0x20
    ||| u == 0x85
    ||| u == 0xa0
    ||| u == 0x1680
    ||| 0x2000 <= u <= 0x200a
    ||| u == 0x2028
    ||| u == 0x2029
    ||| u == 0x202f
    ||| u == 0x205f
    ||| u == 0x3000
}

pub open spec fn is_digit(c: char) -> bool {
    0x30 <= c as u32 <= 0x39
}

pub open spec fn is_word(c: char) -> bool {
    let u = c as u32;
    is_digit(c) || 0x41 <= u <= 0x5a || 0x61 <= u <= 0x7a || c == '_'
}

/// Membership of a character in a class.
pub open spec fn in_class(c: char, k: CharClass) -> bool {
    match k {
        CharClass::Whitespace => is_space(c),
        CharClass::Blank => c == ' ' || c == '\t',
        CharClass::Newline => c == '\n',
        CharClass::Quote => c == '"',
        CharClass::TitleMark => c == '#' || c == '*' || c == '-' || c == '>' || c == ' ' || c
            == '\t',
        CharClass::Dot => c == '.',
        CharClass::Word => is_word(c),
        CharClass::Digit => is_digit(c),
        CharClass::Hash => c == '#',
        CharClass::Dash => c == '-',
        CharClass::At => c == '@',
    }
}

/// Decides membership of a character in a class.
pub fn belongs(c: char, k: CharClass) -> (r: bool)
    ensures
        r == in_class(c, k),
{
    let u: u32 = c as u32;
    match k {
        CharClass::Whitespace => (0x09 <= u && u <= 0x0d) || u == 0x20 || u == 0x85 || u == 0xa0
            || u == 0x1680 || (0x2000 <= u && u <= 0x200a) || u == 0x2028 || u == 0x2029 || u
            == 0x202f || u == 0x205f || u == 0x3000,
        CharClass::Blank => c == ' ' || c == '\t',
        CharClass::Newline => c == '\n',
        CharClass::Quote => c == '"',
        CharClass::TitleMark => c == '#' || c == '*' || c == '-' || c == '>' || c == ' ' || c
            == '\t',
        CharClass::Dot => c == '.',
        CharClass::Word => (0x30 <= u && u <= 0x39) || (0x41 <= u && u <= 0x5a) || (0x61 <= u && u
            <= 0x7a) || c == '_',
        CharClass::Digit => 0x30 <= u && u <= 0x39,
        CharClass::Hash => c == '#',
        CharClass::Dash => c == '-',
        CharClass::At => c == '@',
    }
}

// ── runs and trimming ──

/// How many characters at the front belong to the class.
pub open spec fn leading(s: Seq<char>, k: CharClass) -> nat
    decreases s.len(),
{
    if s.len() == 0 || !in_class(s[0], k) {
        0
    } else {
        1 + leading(s.skip(1), k)
    }
}

/// How many characters at the back belong to the class.
pub open spec fn trailing(s: Seq<char>, k: CharClass) -> nat
    decreases s.len(),
{
    if s.len() == 0 || !in_class(s.last(), k) {
        0
    } else {
        1 + trailing(s.drop_last(), k)
    }
}

pub open spec fn trim_start(s: Seq<char>, k: CharClass) -> Seq<char> {
    s.skip(leading(s, k) as int)
}

pub open spec fn trim_end(s: Seq<char>, k: CharClass) -> Seq<char> {
    s.take(s.len() - trailing(s, k))
}

/// The text without the characters of the class at either end.
pub open spec fn trim(s: Seq<char>, k: CharClass) -> Seq<char> {
    trim_end(trim_start(s, k), k)
}

/// A run at the front lies within the text, consists of characters of the
/// class, and ends before a character outside it.
pub proof fn lemma_leading(s: Seq<char>, k: CharClass)
    ensures
        leading(s, k) <= s.len(),
        forall|i: int| 0 <= i < leading(s, k) ==> #[trigger] in_class(s[i], k),
        leading(s, k) < s.len() ==> !in_class(s[leading(s, k) as int], k),
    decreases s.len(),
{
    if s.len() != 0 && in_class(s[0], k) {
        lemma_leading(s.skip(1), k);
        assert forall|i: int| 0 <= i < leading(s, k) implies #[trigger] in_class(s[i], k) by {
            if i > 0 {
                assert(in_class(s.skip(1)[i - 1], k));
            }
        }
    }
}

/// A run at the back lies within the text.
pub proof fn lemma_trailing(s: Seq<char>, k: CharClass)
    ensures
        trailing(s, k) <= s.len(),
    decreases s.len(),
{
    if s.len() != 0 && in_class(s.last(), k) {
        lemma_trailing(s.drop_last(), k);
    }
}

/// The first `n` characters belong to the class, so the run has at least
/// length `n`, and what follows decides the rest.
pub proof fn lemma_leading_split(s: Seq<char>, k: CharClass, n: int)
    requires
        0 <= n <= s.len(),
        forall|i: int| 0 <= i < n ==> #[trigger] in_class(s[i], k),
    ensures
        leading(s, k) == n + leading(s.skip(n), k),
    decreases n,
{
    if n > 0 {
        assert(in_class(s[0], k));
        assert forall|i: int| 0 <= i < n - 1 implies #[trigger] in_class(s.skip(1)[i], k) by {
            assert(in_class(s[i + 1], k));
        }
        lemma_leading_split(s.skip(1), k, n - 1);
        assert(s.skip(1).skip(n - 1) =~= s.skip(n));
    } else {
        assert(s.skip(0) =~= s);
    }
}

/// A run at the front ends where a character outside the class follows.
pub proof fn run_ends_before_others(s: Seq<char>, k: CharClass, n: int)
    requires
        0 <= n <= s.len(),
        forall|i: int| 0 <= i < n ==> #[trigger] in_class(s[i], k),
        n < s.len() ==> !in_class(s[n], k),
    ensures
        leading(s, k) == n,
{
    lemma_leading_split(s, k, n);
    if n < s.len() {
        assert(s.skip(n)[0] == s[n]);
    }
}

/// A run at the back ends behind a character outside the class.
pub proof fn run_begins_behind_others(s: Seq<char>, k: CharClass, n: int)
    requires
        0 <= n <= s.len(),
        forall|i: int| s.len() - n <= i < s.len() ==> #[trigger] in_class(s[i], k),
        n < s.len() ==> !in_class(s[s.len() - n - 1], k),
    ensures
        trailing(s, k) == n,
    decreases n,
{
    if n > 0 {
        assert(in_class(s[s.len() - 1], k));
        let t = s.drop_last();
        assert forall|i: int| t.len() - (n - 1) <= i < t.len() implies #[trigger] in_class(
            t[i],
            k,
        ) by {
            assert(in_class(s[i], k));
        }
        run_begins_behind_others(t, k, n - 1);
    }
}

/// Trimming takes the characters of the class away at both ends and leaves what
/// begins and ends with another character.
pub proof fn trimming_keeps_the_middle(a: Seq<char>, s: Seq<char>, b: Seq<char>, k: CharClass)
    requires
        forall|i: int| 0 <= i < a.len() ==> #[trigger] in_class(a[i], k),
        forall|i: int| 0 <= i < b.len() ==> #[trigger] in_class(b[i], k),
        s.len() > 0,
        !in_class(s[0], k),
        !in_class(s.last(), k),
    ensures
        trim(a + s + b, k) == s,
{
    let whole = a + s + b;
    let n = a.len() as int;
    assert forall|i: int| 0 <= i < n implies #[trigger] in_class(whole[i], k) by {
        assert(whole[i] == a[i]);
    }
    assert(whole[n] == s[0]);
    run_ends_before_others(whole, k, n);
    let rest = whole.skip(n);
    assert(rest =~= s + b);
    assert forall|i: int| rest.len() - b.len() <= i < rest.len() implies #[trigger] in_class(
        rest[i],
        k,
    ) by {
        assert(rest[i] == b[i - s.len()]);
    }
    assert(rest[s.len() - 1] == s.last());
    run_begins_behind_others(rest, k, b.len() as int);
    assert(trim(whole, k) =~= s);
}

/// Blanks, tabs and line feeds are space; letters, digits and marks are not.
pub proof fn visible_characters_are_no_space(c: char)
    ensures
        in_class(' ', CharClass::Whitespace),
        in_class('\t', CharClass::Whitespace),
        in_class('\n', CharClass::Whitespace),
        in_class('\r', CharClass::Whitespace),
        '!' <= c <= '~' ==> !in_class(c, CharClass::Whitespace),
{
}

/// Counts the characters of the class that follow position `from`.
pub fn run_from(v: &[char], from: usize, k: CharClass) -> (r: usize)
    requires
        from <= v@.len(),
    ensures
        r == leading(v@.skip(from as int), k),
        from + r <= v@.len(),
{
    let mut i: usize = from;
    let ghost tail = v@.skip(from as int);
    while i < v.len() && belongs(v[i], k)
        invariant
            from <= i <= v@.len(),
            tail == v@.skip(from as int),
            forall|j: int| 0 <= j < i - from ==> #[trigger] in_class(tail[j], k),
        decreases v.len() - i,
    {
        i += 1;
    }
    proof {
        lemma_leading_split(tail, k, i - from);
        assert(tail.skip(i - from) =~= v@.skip(i as int));
    }
    i - from
}

/// Counts the characters of the class at the back.
pub fn run_back(v: &[char], k: CharClass) -> (r: usize)
    ensures
        r == trailing(v@, k),
        r <= v@.len(),
{
    let mut n: usize = v.len();
    assert(v@.take(n as int) =~= v@);
    while n > 0 && belongs(v[n - 1], k)
        invariant
            n <= v@.len(),
            trailing(v@, k) == (v@.len() - n) + trailing(v@.take(n as int), k),
        decreases n,
    {
        assert(v@.take(n as int).drop_last() =~= v@.take(n - 1));
        n -= 1;
    }
    v.len() - n
}

/// Removes the characters of the class at the front.
pub fn trimmed_start(v: &[char], k: CharClass) -> (r: Vec<char>)
    ensures
        r@ == trim_start(v@, k),
{
    let n = run_from(v, 0, k);
    assert(v@.skip(0) =~= v@);
    let r = slice_of(v, n, v.len());
    r
}

/// Removes the characters of the class at the back.
pub fn trimmed_end(v: &[char], k: CharClass) -> (r: Vec<char>)
    ensures
        r@ == trim_end(v@, k),
{
    let n = run_back(v, k);
    slice_of(v, 0, v.len() - n)
}

/// Removes the characters of the class at both ends.
pub fn trimmed(v: &[char], k: CharClass) -> (r: Vec<char>)
    ensures
        r@ == trim(v@, k),
{
    let front = trimmed_start(v, k);
    trimmed_end(&front, k)
}

/// Whether every character belongs to the class.
pub open spec fn all_in(s: Seq<char>, k: CharClass) -> bool {
    forall|i: int| 0 <= i < s.len() ==> #[trigger] in_class(s[i], k)
}

/// Decides whether every character belongs to the class.
pub fn all_belong(v: &[char], k: CharClass) -> (r: bool)
    ensures
        r == all_in(v@, k),
{
    let mut i: usize = 0;
    while i < v.len()
        invariant
            i <= v@.len(),
            forall|j: int| 0 <= j < i ==> #[trigger] in_class(v@[j], k),
        decreases v.len() - i,
    {
        if !belongs(v[i], k) {
            return false;
        }
        i += 1;
    }
    true
}

// ── searching ──

/// Decides whether the character occurs.
pub fn has_char(v: &[char], c: char) -> (r: bool)
    ensures
        r == v@.contains(c),
{
    let n = index_of_char(v, c);
    proof {
        lemma_index_of(v@, c);
    }
    n < v.len()
}

/// The position of the first occurrence of `c`, or the length where it does
/// not occur.
pub open spec fn index_of(s: Seq<char>, c: char) -> nat
    decreases s.len(),
{
    if s.len() == 0 || s[0] == c {
        0
    } else {
        1 + index_of(s.skip(1), c)
    }
}

/// The first occurrence is an occurrence, nothing before it is one, and the
/// length stands for none.
pub proof fn lemma_index_of(s: Seq<char>, c: char)
    ensures
        index_of(s, c) <= s.len(),
        index_of(s, c) < s.len() ==> s[index_of(s, c) as int] == c,
        forall|i: int| 0 <= i < index_of(s, c) ==> s[i] != c,
        s.contains(c) <==> index_of(s, c) < s.len(),
    decreases s.len(),
{
    if s.len() != 0 && s[0] != c {
        lemma_index_of(s.skip(1), c);
        assert forall|i: int| 0 <= i < index_of(s, c) implies s[i] != c by {
            if i > 0 {
                assert(s.skip(1)[i - 1] != c);
            }
        }
    }
}

/// The first occurrence of `c`, found by position: `n` characters differ from
/// it and the next is it, or none follows.
pub proof fn lemma_index_of_is(s: Seq<char>, c: char, n: int)
    requires
        0 <= n <= s.len(),
        forall|i: int| 0 <= i < n ==> s[i] != c,
        n < s.len() ==> s[n] == c,
    ensures
        index_of(s, c) == n,
{
    lemma_index_of(s, c);
}

/// Finds the first occurrence of `c`.
pub fn index_of_char(v: &[char], c: char) -> (r: usize)
    ensures
        r == index_of(v@, c),
        r <= v@.len(),
{
    let mut i: usize = 0;
    while i < v.len() && v[i] != c
        invariant
            i <= v@.len(),
            forall|j: int| 0 <= j < i ==> v@[j] != c,
        decreases v.len() - i,
    {
        i += 1;
    }
    proof {
        lemma_index_of_is(v@, c, i as int);
    }
    i
}

/// Whether `p` stands in `s` at position `i`.
pub open spec fn occurs_at(s: Seq<char>, p: Seq<char>, i: int) -> bool {
    0 <= i && i + p.len() <= s.len() && s.subrange(i, i + p.len()) == p
}

/// Whether `p` occurs somewhere in `s`.
pub open spec fn occurs(s: Seq<char>, p: Seq<char>) -> bool {
    exists|i: int| #[trigger] occurs_at(s, p, i)
}

/// Whether `s` begins with `p`.
pub open spec fn begins(s: Seq<char>, p: Seq<char>) -> bool {
    occurs_at(s, p, 0)
}

/// Whether `s` ends with `p`.
pub open spec fn ends(s: Seq<char>, p: Seq<char>) -> bool {
    occurs_at(s, p, s.len() - p.len())
}

/// What stands in the middle of a text occurs in it.
pub proof fn middle_occurs(front: Seq<char>, p: Seq<char>, back: Seq<char>)
    ensures
        occurs(front + p + back, p),
{
    let s = front + p + back;
    let n = front.len() as int;
    assert(s.subrange(n, n + p.len()) =~= p);
    assert(occurs_at(s, p, n));
}

/// Where a text occurs, its beginning does.
pub proof fn beginning_occurs(s: Seq<char>, p: Seq<char>, q: Seq<char>)
    ensures
        occurs(s, p) && q.len() <= p.len() && p.take(q.len() as int) == q ==> occurs(s, q),
{
    if occurs(s, p) && q.len() <= p.len() && p.take(q.len() as int) == q {
        let i = choose|i: int| #[trigger] occurs_at(s, p, i);
        assert(s.subrange(i, i + q.len()) =~= s.subrange(i, i + p.len()).take(q.len() as int));
        assert(occurs_at(s, q, i));
    }
}

/// Decides whether `p` stands in `v` at position `i`.
pub fn stands_at(v: &[char], p: &[char], i: usize) -> (r: bool)
    ensures
        r == occurs_at(v@, p@, i as int),
{
    let n: usize = v.len();
    if i > n || n - i < p.len() {
        return false;
    }
    let mut k: usize = 0;
    while k < p.len()
        invariant
            k <= p@.len(),
            i + p@.len() <= v@.len() == n,
            forall|j: int| 0 <= j < k ==> v@[i + j] == p@[j],
        decreases p.len() - k,
    {
        if v[i + k] != p[k] {
            assert(v@.subrange(i as int, i + p@.len())[k as int] != p@[k as int]);
            return false;
        }
        k += 1;
    }
    assert(v@.subrange(i as int, i + p@.len()) =~= p@);
    true
}

/// Decides whether `p` occurs in `v`.
pub fn contains(v: &[char], p: &[char]) -> (r: bool)
    ensures
        r == occurs(v@, p@),
{
    let mut i: usize = 0;
    while i <= v.len()
        invariant
            i <= v@.len() + 1,
            forall|j: int| 0 <= j < i ==> !occurs_at(v@, p@, j),
        decreases v.len() + 1 - i,
    {
        if stands_at(v, p, i) {
            return true;
        }
        if i == v.len() {
            return false;
        }
        i += 1;
    }
    false
}

/// Decides whether the text holds `p`.
pub fn text_contains(s: &str, p: &str) -> (r: bool)
    ensures
        r == occurs(s@, p@),
{
    let v = chars_of(s);
    let q = chars_of(p);
    contains(&v, &q)
}

/// Decides whether `v` begins with `p`.
pub fn begins_with(v: &[char], p: &[char]) -> (r: bool)
    ensures
        r == begins(v@, p@),
{
    stands_at(v, p, 0)
}

/// Decides whether `v` ends with `p`.
pub fn ends_with(v: &[char], p: &[char]) -> (r: bool)
    ensures
        r == ends(v@, p@),
{
    if p.len() > v.len() {
        return false;
    }
    stands_at(v, p, v.len() - p.len())
}

// ── splitting and joining ──

/// The pieces between the occurrences of `sep`.
pub open spec fn split_on(s: Seq<char>, sep: char) -> Seq<Seq<char>>
    decreases s.len(),
{
    if s.len() == 0 {
        seq![Seq::<char>::empty()]
    } else {
        let front = split_on(s.drop_last(), sep);
        if s.last() == sep {
            front.push(Seq::<char>::empty())
        } else {
            front.drop_last().push(front.last().push(s.last()))
        }
    }
}

/// The pieces one after another with `sep` between neighbours.
pub open spec fn join(parts: Seq<Seq<char>>, sep: Seq<char>) -> Seq<char>
    decreases parts.len(),
{
    if parts.len() == 0 {
        Seq::empty()
    } else if parts.len() == 1 {
        parts[0]
    } else {
        join(parts.drop_last(), sep) + sep + parts.last()
    }
}

/// The pieces one after another.
pub open spec fn concat(parts: Seq<Seq<char>>) -> Seq<char>
    decreases parts.len(),
{
    if parts.len() == 0 {
        Seq::empty()
    } else {
        concat(parts.drop_last()) + parts.last()
    }
}

/// There is always a piece, and no piece holds the separator.
pub proof fn lemma_split_on(s: Seq<char>, sep: char)
    ensures
        split_on(s, sep).len() >= 1,
        forall|i: int, j: int|
            0 <= i < split_on(s, sep).len() && 0 <= j < split_on(s, sep)[i].len()
                ==> #[trigger] split_on(s, sep)[i][j] != sep,
    decreases s.len(),
{
    if s.len() != 0 {
        lemma_split_on(s.drop_last(), sep);
    }
}

/// Joining with one more piece, or growing the last piece.
proof fn lemma_join_grow(parts: Seq<Seq<char>>, sep: Seq<char>, c: char)
    requires
        parts.len() >= 1,
    ensures
        join(parts.drop_last().push(parts.last().push(c)), sep) == join(parts, sep).push(c),
{
    let grown = parts.drop_last().push(parts.last().push(c));
    assert(grown.drop_last() =~= parts.drop_last());
    assert(grown.last() == parts.last().push(c));
    if parts.len() == 1 {
        assert(grown[0] == parts[0].push(c));
    } else {
        assert(join(parts.drop_last(), sep) + sep + parts.last().push(c) =~= (join(
            parts.drop_last(),
            sep,
        ) + sep + parts.last()).push(c));
    }
}

/// A text without the separator is one piece.
pub proof fn text_without_separator_is_one_piece(s: Seq<char>, sep: char)
    requires
        !s.contains(sep),
    ensures
        split_on(s, sep) == seq![s],
    decreases s.len(),
{
    if s.len() != 0 {
        let t = s.drop_last();
        assert(s.contains(s.last()));
        assert forall|i: int| 0 <= i < t.len() implies t[i] != sep by {
            assert(s.contains(s[i]));
        }
        text_without_separator_is_one_piece(t, sep);
        assert(seq![t].drop_last() =~= Seq::<Seq<char>>::empty());
        assert(t.push(s.last()) =~= s);
        assert(split_on(s, sep) =~= seq![s]);
    } else {
        assert(s =~= Seq::<char>::empty());
    }
}

/// What is joined stands in the joined text.
pub proof fn joined_text_holds_its_parts(parts: Seq<Seq<char>>, sep: Seq<char>, i: int)
    requires
        0 <= i < parts.len(),
    ensures
        occurs(join(parts, sep), parts[i]),
    decreases parts.len(),
{
    let whole = join(parts, sep);
    let p = parts[i];
    if parts.len() == 1 {
        assert(whole.subrange(0, p.len() as int) =~= p);
        assert(occurs_at(whole, p, 0));
    } else if i == parts.len() - 1 {
        let n = whole.len() - p.len();
        assert(whole.subrange(n, n + p.len()) =~= p);
        assert(occurs_at(whole, p, n));
    } else {
        let front = join(parts.drop_last(), sep);
        joined_text_holds_its_parts(parts.drop_last(), sep, i);
        let n = choose|n: int| occurs_at(front, p, n);
        assert(whole.subrange(n, n + p.len()) =~= front.subrange(n, n + p.len()));
        assert(occurs_at(whole, p, n));
    }
}

/// Splitting a text and joining the pieces with the separator gives the text
/// back.
pub proof fn split_then_join(s: Seq<char>, sep: char)
    ensures
        join(split_on(s, sep), seq![sep]) == s,
    decreases s.len(),
{
    if s.len() == 0 {
        assert(join(split_on(s, sep), seq![sep]) =~= s);
    } else {
        let t = s.drop_last();
        let front = split_on(t, sep);
        split_then_join(t, sep);
        lemma_split_on(t, sep);
        if s.last() == sep {
            let parts = front.push(Seq::<char>::empty());
            assert(parts.drop_last() =~= front);
            assert(join(parts, seq![sep]) == join(front, seq![sep]) + seq![sep] + Seq::<
                char,
            >::empty());
            assert(t + seq![sep] + Seq::<char>::empty() =~= s);
        } else {
            lemma_join_grow(front, seq![sep], s.last());
            assert(t.push(s.last()) =~= s);
        }
    }
}

/// Behind a separator a text without one is the last piece.
proof fn lemma_split_behind(s: Seq<char>, t: Seq<char>, sep: char)
    requires
        !t.contains(sep),
    ensures
        split_on(s + seq![sep] + t, sep) == split_on(s, sep).push(t),
    decreases t.len(),
{
    let whole = s + seq![sep] + t;
    if t.len() == 0 {
        assert(whole.drop_last() =~= s);
        assert(t =~= Seq::<char>::empty());
    } else {
        let u = t.drop_last();
        assert(t.contains(t.last()));
        assert forall|i: int| 0 <= i < u.len() implies u[i] != sep by {
            assert(t.contains(t[i]));
        }
        lemma_split_behind(s, u, sep);
        assert(whole.drop_last() =~= s + seq![sep] + u);
        assert(whole.last() == t.last());
        let front = split_on(s, sep).push(u);
        assert(front.drop_last() =~= split_on(s, sep));
        assert(u.push(t.last()) =~= t);
    }
}

/// Joining pieces without the separator and splitting the text gives the pieces
/// back.
pub proof fn join_then_split(parts: Seq<Seq<char>>, sep: char)
    requires
        parts.len() > 0,
        forall|i: int| 0 <= i < parts.len() ==> !(#[trigger] parts[i]).contains(sep),
    ensures
        split_on(join(parts, seq![sep]), sep) == parts,
    decreases parts.len(),
{
    assert(!parts[parts.len() - 1].contains(sep));
    if parts.len() == 1 {
        text_without_separator_is_one_piece(parts[0], sep);
        assert(seq![parts[0]] =~= parts);
    } else {
        let front = parts.drop_last();
        assert forall|i: int| 0 <= i < front.len() implies !(#[trigger] front[i]).contains(
            sep,
        ) by {
            assert(front[i] == parts[i]);
        }
        join_then_split(front, sep);
        lemma_split_behind(join(front, seq![sep]), parts.last(), sep);
        assert(front.push(parts.last()) =~= parts);
    }
}

/// A joined text holds no character that neither a part nor the separator holds.
pub proof fn joined_text_holds_nothing_else(parts: Seq<Seq<char>>, sep: Seq<char>, c: char)
    requires
        !sep.contains(c),
        forall|i: int| 0 <= i < parts.len() ==> !(#[trigger] parts[i]).contains(c),
    ensures
        !join(parts, sep).contains(c),
    decreases parts.len(),
{
    if parts.len() > 0 {
        assert(!parts[parts.len() - 1].contains(c));
        if parts.len() > 1 {
            let front = parts.drop_last();
            assert forall|i: int| 0 <= i < front.len() implies !(#[trigger] front[i]).contains(
                c,
            ) by {
                assert(front[i] == parts[i]);
            }
            joined_text_holds_nothing_else(front, sep, c);
            let before = join(front, sep);
            let whole = join(parts, sep);
            assert forall|k: int| 0 <= k < whole.len() implies whole[k] != c by {
                if k < before.len() {
                    assert(before.contains(before[k]));
                } else if k < before.len() + sep.len() {
                    assert(sep.contains(sep[k - before.len()]));
                } else {
                    let last = parts.last();
                    assert(last.contains(last[k - before.len() - sep.len()]));
                }
            }
        }
    }
}

/// The first piece of a text ends at the first separator.
pub proof fn first_piece_ends_at_the_separator(line: Seq<char>, rest: Seq<char>, sep: char)
    requires
        forall|i: int| 0 <= i < line.len() ==> line[i] != sep,
    ensures
        split_on(line + seq![sep] + rest, sep).len() >= 2,
        split_on(line + seq![sep] + rest, sep)[0] == line,
    decreases rest.len(),
{
    let s = line + seq![sep] + rest;
    if rest.len() == 0 {
        assert(s.drop_last() =~= line);
        text_without_separator_is_one_piece(line, sep);
    } else {
        let front = rest.drop_last();
        first_piece_ends_at_the_separator(line, front, sep);
        assert(s.drop_last() =~= line + seq![sep] + front);
    }
}

/// Two lists of pieces are joined like their two texts.
pub proof fn joined_lists_are_joined(a: Seq<Seq<char>>, b: Seq<Seq<char>>, sep: Seq<char>)
    requires
        a.len() > 0,
        b.len() > 0,
    ensures
        join(a + b, sep) == join(a, sep) + sep + join(b, sep),
    decreases b.len(),
{
    assert((a + b).drop_last() =~= a + b.drop_last());
    assert((a + b).last() == b.last());
    if b.len() == 1 {
        assert(a + b.drop_last() =~= a);
    } else {
        joined_lists_are_joined(a, b.drop_last(), sep);
        assert(join(a + b, sep) =~= join(a, sep) + sep + join(b, sep));
    }
}

/// Splits at every occurrence of `sep`.
pub fn split_at_char(v: &[char], sep: char) -> (r: Vec<Vec<char>>)
    ensures
        rows(r@) == split_on(v@, sep),
        r@.len() >= 1,
{
    let mut out: Vec<Vec<char>> = Vec::new();
    let mut cur: Vec<char> = Vec::new();
    let mut i: usize = 0;
    assert(v@.take(0) =~= Seq::<char>::empty());
    assert(rows(out@).push(cur@) =~= split_on(v@.take(0), sep));
    while i < v.len()
        invariant
            i <= v@.len(),
            rows(out@).push(cur@) == split_on(v@.take(i as int), sep),
        decreases v.len() - i,
    {
        let ghost before = rows(out@).push(cur@);
        let ghost old_out = out@;
        let ghost old_cur = cur@;
        assert(v@.take(i + 1).drop_last() =~= v@.take(i as int));
        assert(v@.take(i + 1).last() == v@[i as int]);
        assert(before.drop_last() =~= rows(old_out));
        if v[i] == sep {
            out.push(cur);
            cur = Vec::new();
            assert(rows(out@) =~= before);
            assert(rows(out@).push(cur@) =~= before.push(Seq::<char>::empty()));
        } else {
            cur.push(v[i]);
            assert(rows(out@).push(cur@) =~= before.drop_last().push(old_cur.push(v@[i as int])));
        }
        i += 1;
    }
    assert(v@.take(i as int) =~= v@);
    let ghost parts = rows(out@).push(cur@);
    out.push(cur);
    assert(rows(out@) =~= parts);
    out
}

/// Appends a copy of `src` to `dst`.
pub fn extend(dst: &mut Vec<char>, src: &[char])
    ensures
        final(dst)@ == old(dst)@ + src@,
{
    let mut i: usize = 0;
    while i < src.len()
        invariant
            i <= src@.len(),
            dst@ == old(dst)@ + src@.take(i as int),
        decreases src.len() - i,
    {
        dst.push(src[i]);
        i += 1;
        assert(src@.take(i as int) =~= src@.take(i - 1).push(src@[i - 1]));
    }
    assert(src@.take(i as int) =~= src@);
}

/// Joins the pieces with `sep` between neighbours.
pub fn joined(parts: &Vec<Vec<char>>, sep: &[char]) -> (r: Vec<char>)
    ensures
        r@ == join(rows(parts@), sep@),
{
    let mut out: Vec<char> = Vec::new();
    let ghost all = rows(parts@);
    let mut i: usize = 0;
    assert(all.take(0) =~= Seq::<Seq<char>>::empty());
    while i < parts.len()
        invariant
            i <= parts@.len(),
            all == rows(parts@),
            out@ == join(all.take(i as int), sep@),
        decreases parts.len() - i,
    {
        assert(all.take(i + 1).drop_last() =~= all.take(i as int));
        if i > 0 {
            extend(&mut out, sep);
        }
        extend(&mut out, &parts[i]);
        if i == 0 {
            assert(Seq::<char>::empty() + all[0] =~= all[0]);
        }
        i += 1;
    }
    assert(all.take(i as int) =~= all);
    out
}

/// Joins strings with `sep` between neighbours.
pub fn joined_texts(parts: &Vec<String>, sep: &str) -> (r: String)
    ensures
        r@ == join(texts(parts@), sep@),
{
    let mut out = String::new();
    let ghost all = texts(parts@);
    let mut i: usize = 0;
    assert(all.take(0) =~= Seq::<Seq<char>>::empty());
    while i < parts.len()
        invariant
            i <= parts@.len(),
            all == texts(parts@),
            out@ == join(all.take(i as int), sep@),
        decreases parts.len() - i,
    {
        assert(all.take(i + 1).drop_last() =~= all.take(i as int));
        if i > 0 {
            out.append(sep);
        }
        out.append(parts[i].as_str());
        if i == 0 {
            assert(Seq::<char>::empty() + all[0] =~= all[0]);
        }
        i += 1;
    }
    assert(all.take(i as int) =~= all);
    out
}

/// Two texts one after the other.
pub fn cat(a: &str, b: &str) -> (r: String)
    ensures
        r@ == a@ + b@,
{
    let mut s = owned(a);
    s.append(b);
    s
}

// ── decimal numbers ──

/// The decimal digit of a number below ten.
pub open spec fn digit(d: nat) -> char {
    (0x30 + d) as char
}

/// The decimal digits of a number, without leading zeros.
pub open spec fn decimal(n: nat) -> Seq<char>
    decreases n,
{
    if n < 10 {
        seq![digit(n)]
    } else {
        decimal(n / 10).push(digit(n % 10))
    }
}

/// The decimal numeral of an integer, with a minus sign where it is negative.
pub open spec fn signed_decimal(n: int) -> Seq<char> {
    if n < 0 {
        seq!['-'] + decimal((-n) as nat)
    } else {
        decimal(n as nat)
    }
}

/// The digit of a number below ten.
pub fn digit_char(d: u8) -> (c: char)
    requires
        d < 10,
    ensures
        c == digit(d as nat),
{
    (0x30 + d) as char
}

/// Renders a number in decimal.
pub fn decimal_chars(n: u64) -> (r: Vec<char>)
    ensures
        r@ == decimal(n as nat),
    decreases n,
{
    if n < 10 {
        let mut v: Vec<char> = Vec::new();
        v.push(digit_char(n as u8));
        v
    } else {
        let mut v = decimal_chars(n / 10);
        v.push(digit_char((n % 10) as u8));
        v
    }
}

/// Renders a number in decimal.
pub fn decimal_text(n: u64) -> (r: String)
    ensures
        r@ == decimal(n as nat),
{
    let v = decimal_chars(n);
    string_of(&v)
}

/// Renders a signed number in decimal.
pub fn signed_decimal_text(n: i64) -> (r: String)
    ensures
        r@ == signed_decimal(n as int),
{
    if n < 0 {
        let mut out: Vec<char> = Vec::new();
        out.push('-');
        let magnitude: u64 = if n == i64::MIN {
            0x8000_0000_0000_0000
        } else {
            (-n) as u64
        };
        let digits = decimal_chars(magnitude);
        extend(&mut out, &digits);
        string_of(&out)
    } else {
        decimal_text(n as u64)
    }
}

// ── reading numbers ──

/// The number that decimal digits stand for.
pub open spec fn number(s: Seq<char>) -> nat
    decreases s.len(),
{
    if s.len() == 0 {
        0
    } else {
        number(s.drop_last()) * 10 + (s.last() as u32 - 0x30) as nat
    }
}

/// The digits of a number that may have a sign.
pub open spec fn digits_of(s: Seq<char>) -> Seq<char> {
    if s.len() > 0 && (s[0] == '+' || s[0] == '-') {
        s.skip(1)
    } else {
        s
    }
}

/// The integer that a text stands for: digits, behind a sign or none.
pub open spec fn integer(s: Seq<char>) -> Option<int> {
    if digits_of(s).len() == 0 || !all_in(digits_of(s), CharClass::Digit) {
        None
    } else if s[0] == '-' {
        Some(-(number(digits_of(s)) as int))
    } else {
        Some(number(digits_of(s)) as int)
    }
}

/// More digits never stand for a smaller number.
proof fn lemma_number_grows(s: Seq<char>, i: int)
    requires
        0 <= i <= s.len(),
        all_in(s, CharClass::Digit),
    ensures
        number(s) >= number(s.take(i)),
    decreases s.len(),
{
    if i < s.len() {
        assert(all_in(s.drop_last(), CharClass::Digit)) by {
            assert forall|k: int| 0 <= k < s.drop_last().len() implies #[trigger] in_class(
                s.drop_last()[k],
                CharClass::Digit,
            ) by {
                assert(in_class(s[k], CharClass::Digit));
            }
        }
        lemma_number_grows(s.drop_last(), i);
        assert(s.drop_last().take(i) =~= s.take(i));
        assert(in_class(s[s.len() - 1], CharClass::Digit));
    } else {
        assert(s.take(i) =~= s);
    }
}

/// Reads an integer that fits into 64 bits.
pub fn parse_integer(s: &str) -> (r: Option<i64>)
    ensures
        r == (match integer(s@) {
            Some(n) => if i64::MIN <= n <= i64::MAX {
                Some(n as i64)
            } else {
                None
            },
            None => None,
        }),
{
    let v = chars_of(s);
    if v.len() == 0 {
        return None;
    }
    let negative = v[0] == '-';
    let start: usize = if v[0] == '+' || v[0] == '-' {
        1
    } else {
        0
    };
    let digits = slice_of(&v, start, v.len());
    proof {
        assert(v@.skip(0) =~= v@);
        assert(digits@ =~= digits_of(s@));
    }
    if digits.len() == 0 || !all_belong(&digits, CharClass::Digit) {
        return None;
    }
    let mut n: i128 = 0;
    let mut i: usize = 0;
    assert(digits@.take(0) =~= Seq::empty());
    while i < digits.len()
        invariant
            i <= digits@.len(),
            digits@ == digits_of(s@),
            digits@.len() > 0,
            s@.len() > 0,
            all_in(digits@, CharClass::Digit),
            n == number(digits@.take(i as int)),
            0 <= n <= 0x8000_0000_0000_0000,
            negative == (s@[0] == '-'),
        decreases digits@.len() - i,
    {
        assert(in_class(digits@[i as int], CharClass::Digit));
        let d: i128 = (digits[i] as u32 - 0x30) as i128;
        proof {
            assert(digits@.take(i + 1).drop_last() =~= digits@.take(i as int));
            assert(digits@.take(i + 1).last() == digits@[i as int]);
            lemma_number_grows(digits@, i + 1);
        }
        let m: i128 = n * 10 + d;
        if m > 0x8000_0000_0000_0000 {
            return None;
        }
        n = m;
        i += 1;
    }
    assert(digits@.take(i as int) =~= digits@);
    if negative {
        Some((0 - n) as i64)
    } else if n <= 0x7fff_ffff_ffff_ffff {
        Some(n as i64)
    } else {
        None
    }
}

/// A number that is written in decimal digits is read as it was.
pub proof fn written_number_is_read(n: nat)
    ensures
        decimal(n).len() > 0,
        number(decimal(n)) == n,
        all_in(decimal(n), CharClass::Digit),
        integer(decimal(n)) == Some(n as int),
    decreases n,
{
    let d = digit(n % 10);
    assert('0' <= d <= '9');
    if n >= 10 {
        written_number_is_read(n / 10);
        assert(decimal(n).drop_last() =~= decimal(n / 10));
        assert(decimal(n).last() == d);
    } else {
        assert(decimal(n).drop_last() =~= Seq::<char>::empty());
        assert(number(decimal(n).drop_last()) == 0);
    }
    assert(in_class(decimal(n)[0], CharClass::Digit));
}

/// A number below ten is one digit, and another is what stands before its last
/// digit, and that digit.
pub proof fn numbers_are_written_in_tens(n: nat, d: nat)
    requires
        d < 10,
    ensures
        decimal(d).len() == 1,
        decimal(d)[0] as int == '0' as int + d,
        n > 0 ==> decimal(10 * n + d) == decimal(n) + decimal(d),
        n > 0 ==> signed_decimal(-(n as int)) == seq!['-'] + decimal(n),
        signed_decimal(n as int) == decimal(n),
{
    if n > 0 {
        assert((10 * n + d) / 10 == n);
        assert((10 * n + d) % 10 == d);
        assert(decimal(10 * n + d) =~= decimal(n) + decimal(d));
    }
}

/// A number behind a sign is read with its sign; a text with anything else but
/// digits is no number.
pub proof fn numbers_are_read_with_their_sign(n: nat, s: Seq<char>, c: char)
    ensures
        integer(seq!['-'] + decimal(n)) == Some(-(n as int)),
        integer(seq!['+'] + decimal(n)) == Some(n as int),
        integer(Seq::<char>::empty()) is None,
        s.len() > 0 && s.contains(c) && !('0' <= c <= '9') && c != '+' && c != '-' ==> integer(
            s,
        ) is None,
{
    written_number_is_read(n);
    assert((seq!['-'] + decimal(n)).skip(1) =~= decimal(n));
    assert((seq!['+'] + decimal(n)).skip(1) =~= decimal(n));
    if s.len() > 0 && s.contains(c) && !('0' <= c <= '9') && c != '+' && c != '-' {
        let i = choose|i: int| 0 <= i < s.len() && s[i] == c;
        let t = digits_of(s);
        if t.len() > 0 && all_in(t, CharClass::Digit) {
            if s[0] == '+' || s[0] == '-' {
                assert(t[i - 1] == c);
                assert(in_class(t[i - 1], CharClass::Digit));
            } else {
                assert(in_class(t[i], CharClass::Digit));
            }
        }
    }
}

/// The classes of characters, by their characters.
pub proof fn classes_hold_their_characters(c: char)
    ensures
        in_class(c, CharClass::Blank) <==> c == ' ' || c == '\t',
        in_class(c, CharClass::Newline) <==> c == '\n',
        in_class(c, CharClass::Quote) <==> c == '"',
        in_class(c, CharClass::Dot) <==> c == '.',
        in_class(c, CharClass::Hash) <==> c == '#',
        in_class(c, CharClass::Dash) <==> c == '-',
        in_class(c, CharClass::At) <==> c == '@',
        in_class(c, CharClass::Digit) <==> '0' <= c <= '9',
        in_class(c, CharClass::Word) <==> '0' <= c <= '9' || 'A' <= c <= 'Z' || 'a' <= c <= 'z'
            || c == '_',
        in_class(c, CharClass::TitleMark) <==> c == '#' || c == '*' || c == '-' || c == '>' || c
            == ' ' || c == '\t',
        c == ' ' || c == '\t' || c == '\n' || c == '\r' ==> in_class(c, CharClass::Whitespace),
        '!' <= c <= '~' ==> !in_class(c, CharClass::Whitespace),
{
}

/// A run at the back lies within the text, consists of characters of the class, and
/// begins behind a character outside it.
pub proof fn lemma_trailing_run(s: Seq<char>, k: CharClass)
    ensures
        trailing(s, k) <= s.len(),
        trailing(s, k) < s.len() ==> !in_class(s[s.len() - trailing(s, k) - 1], k),
        forall|i: int| s.len() - trailing(s, k) <= i < s.len() ==> #[trigger] in_class(s[i], k),
    decreases s.len(),
{
    if s.len() != 0 && in_class(s.last(), k) {
        let t = s.drop_last();
        lemma_trailing_run(t, k);
        assert forall|i: int| s.len() - trailing(s, k) <= i < s.len() implies #[trigger] in_class(
            s[i],
            k,
        ) by {
            if i < t.len() {
                assert(in_class(t[i], k));
            }
        }
    }
}

/// Trimming takes nothing away but characters of the class.
pub proof fn trimming_keeps_others(s: Seq<char>, c: char, k: CharClass)
    requires
        s.contains(c),
        !in_class(c, k),
    ensures
        trim(s, k).contains(c),
{
    let i = choose|i: int| 0 <= i < s.len() && s[i] == c;
    lemma_leading(s, k);
    let n = leading(s, k) as int;
    if i < n {
        assert(in_class(s[i], k));
    }
    let t = trim_start(s, k);
    assert(t[i - n] == c);
    lemma_trailing_run(t, k);
    if i - n >= t.len() - trailing(t, k) {
        assert(in_class(t[i - n], k));
    }
    assert(trim(s, k)[i - n] == c);
}

} // verus!
