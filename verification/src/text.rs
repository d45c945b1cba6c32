//! Text as sequences of characters: trimming, splitting, joining, searching.
use vstd::prelude::*;

verus! {

/// `String::push` appends one character to the end of the string.
pub assume_specification[ String::push ](s: &mut String, ch: char)
    ensures
        final(s)@ == old(s)@.push(ch),
;

/// A set of characters to trim or to split by.
#[derive(Clone, Copy)]
pub enum Pattern {
    /// The characters with the Unicode property `White_Space`.
    WhiteSpace,
    /// One character.
    Char(char),
}

/// The Unicode property `White_Space`.
pub open spec fn is_space(c: char) -> bool {
    ||| '\u{9}' <= c <= '\u{d}'
    ||| c == ' '
    ||| c == '\u{85}'
    ||| c == '\u{a0}'
    ||| c == '\u{1680}'
    ||| '\u{2000}' <= c <= '\u{200a}'
    ||| c == '\u{2028}'
    ||| c == '\u{2029}'
    ||| c == '\u{202f}'
    ||| c == '\u{205f}'
    ||| c == '\u{3000}'
}

/// Tells whether `c` has the Unicode property `White_Space`.
pub fn is_whitespace(c: char) -> (r: bool)
    ensures
        r == is_space(c),
{
    ('\u{9}' <= c && c <= '\u{d}') || c == ' ' || c == '\u{85}' || c == '\u{a0}' || c == '\u{1680}'
        || ('\u{2000}' <= c && c <= '\u{200a}') || c == '\u{2028}' || c == '\u{2029}' || c
        == '\u{202f}' || c == '\u{205f}' || c == '\u{3000}'
}

impl Pattern {
    /// Whether the pattern matches `c`.
    pub open spec fn accepts(self, c: char) -> bool {
        match self {
            Pattern::WhiteSpace => is_space(c),
            Pattern::Char(d) => c == d,
        }
    }

    /// Tells whether the pattern matches `c`.
    pub fn matches(&self, c: char) -> (r: bool)
        ensures
            r == self.accepts(c),
    {
        match self {
            Pattern::WhiteSpace => is_whitespace(c),
            Pattern::Char(d) => c == *d,
        }
    }
}

/// The characters of `s`.
pub fn chars_of(s: &str) -> (v: Vec<char>)
    ensures
        v@ == s@,
{
    let mut v: Vec<char> = Vec::new();
    for c in it: s.chars()
        invariant
            v@ == it.seq().take(it.index()),
            it.seq() == s@,
    {
        v.push(c);
    }
    v
}

/// `s` without the longest prefix of characters that `p` accepts.
pub open spec fn trimmed_front(s: Seq<char>, p: Pattern) -> Seq<char>
    decreases s.len(),
{
    if s.len() > 0 && p.accepts(s.first()) {
        trimmed_front(s.drop_first(), p)
    } else {
        s
    }
}

/// `s` without the longest suffix of characters that `p` accepts.
pub open spec fn trimmed_back(s: Seq<char>, p: Pattern) -> Seq<char>
    decreases s.len(),
{
    if s.len() > 0 && p.accepts(s.last()) {
        trimmed_back(s.drop_last(), p)
    } else {
        s
    }
}

/// `s` without the characters that `p` accepts at either end.
pub open spec fn trimmed_of(s: Seq<char>, p: Pattern) -> Seq<char> {
    trimmed_back(trimmed_front(s, p), p)
}

/// `s` without white space at either end.
pub open spec fn trimmed(s: Seq<char>) -> Seq<char> {
    trimmed_of(s, Pattern::WhiteSpace)
}

/// Removes the characters that `p` matches from the front of `s`.
pub fn trim_start_matches<'a>(s: &'a str, p: Pattern) -> (r: &'a str)
    ensures
        r@ == trimmed_front(s@, p),
{
    let cs = chars_of(s);
    let n: usize = cs.len();
    let mut i: usize = 0;
    assert(s@.skip(0) =~= s@);
    while i < n && p.matches(cs[i])
        invariant
            cs@ == s@,
            n == s@.len(),
            i <= n,
            trimmed_front(s@, p) == trimmed_front(s@.skip(i as int), p),
        decreases n - i,
    {
        assert(s@.skip(i as int).drop_first() =~= s@.skip(i + 1));
        i += 1;
    }
    assert(s@.skip(i as int) =~= s@.subrange(i as int, n as int));
    s.substring_char(i, n)
}

/// Removes the characters that `p` matches from the back of `s`.
pub fn trim_end_matches<'a>(s: &'a str, p: Pattern) -> (r: &'a str)
    ensures
        r@ == trimmed_back(s@, p),
{
    let cs = chars_of(s);
    let mut j: usize = cs.len();
    assert(s@.take(j as int) =~= s@);
    while j > 0 && p.matches(cs[j - 1])
        invariant
            cs@ == s@,
            j <= s@.len(),
            trimmed_back(s@, p) == trimmed_back(s@.take(j as int), p),
        decreases j,
    {
        assert(s@.take(j as int).drop_last() =~= s@.take(j - 1));
        j -= 1;
    }
    assert(s@.take(j as int) =~= s@.subrange(0, j as int));
    s.substring_char(0, j)
}

/// Removes the characters that `p` matches from both ends of `s`.
pub fn trim_matches<'a>(s: &'a str, p: Pattern) -> (r: &'a str)
    ensures
        r@ == trimmed_of(s@, p),
{
    trim_end_matches(trim_start_matches(s, p), p)
}

/// Removes white space from both ends of `s`.
pub fn trim<'a>(s: &'a str) -> (r: &'a str)
    ensures
        r@ == trimmed(s@),
{
    trim_matches(s, Pattern::WhiteSpace)
}

/// The contents of a list of strings.
pub open spec fn texts(v: Seq<String>) -> Seq<Seq<char>> {
    v.map_values(|s: String| s@)
}

/// The pieces of `s` between the positions that `cuts` marks. A marked character
/// belongs to no piece, so there is one piece more than there are marks.
pub open spec fn pieces(s: Seq<char>, cuts: Seq<bool>) -> Seq<Seq<char>>
    decreases s.len(),
{
    if s.len() == 0 {
        seq![Seq::empty()]
    } else {
        let before = pieces(s.drop_last(), cuts.drop_last());
        if cuts.last() {
            before.push(Seq::empty())
        } else {
            before.drop_last().push(before.last().push(s.last()))
        }
    }
}

/// The pieces of `s` between the characters that `p` accepts.
pub open spec fn split_seq(s: Seq<char>, p: Pattern) -> Seq<Seq<char>> {
    pieces(s, s.map_values(|c: char| p.accepts(c)))
}

/// The maximal runs of characters other than white space.
pub open spec fn word_seq(s: Seq<char>) -> Seq<Seq<char>> {
    split_seq(s, Pattern::WhiteSpace).filter(|w: Seq<char>| w.len() > 0)
}

/// `line` without a carriage return at its end.
pub open spec fn without_return(line: Seq<char>) -> Seq<char> {
    if line.len() > 0 && line.last() == '\r' {
        line.drop_last()
    } else {
        line
    }
}

/// The lines of `s`. A line ends with a line feed, or a carriage return and a
/// line feed, which it does not hold; what follows the last line feed is a line
/// of its own unless it is empty.
pub open spec fn line_seq(s: Seq<char>) -> Seq<Seq<char>> {
    let parts = split_seq(s, Pattern::Char('\n'));
    let ended = parts.drop_last().map_values(|l: Seq<char>| without_return(l));
    if parts.last().len() == 0 {
        ended
    } else {
        ended.push(parts.last())
    }
}

/// Cuts `v` at the positions that `cuts` marks.
pub fn cut_at(v: &Vec<char>, cuts: &Vec<bool>) -> (r: Vec<String>)
    requires
        v@.len() == cuts@.len(),
    ensures
        texts(r@) == pieces(v@, cuts@),
{
    let mut out: Vec<String> = Vec::new();
    let mut cur = String::new();
    let mut i: usize = 0;
    assert(texts(out@).push(cur@) =~= pieces(v@.take(0), cuts@.take(0)));
    while i < v.len()
        invariant
            i <= v@.len() == cuts@.len(),
            texts(out@).push(cur@) == pieces(v@.take(i as int), cuts@.take(i as int)),
        decreases v@.len() - i,
    {
        let ghost before = texts(out@).push(cur@);
        assert(v@.take(i + 1).drop_last() =~= v@.take(i as int));
        assert(cuts@.take(i + 1).drop_last() =~= cuts@.take(i as int));
        assert(before.drop_last() =~= texts(out@));
        if cuts[i] {
            out.push(cur);
            cur = String::new();
            assert(texts(out@) =~= before);
        } else {
            cur.push(v[i]);
        }
        i += 1;
    }
    assert(v@.take(i as int) =~= v@);
    assert(cuts@.take(i as int) =~= cuts@);
    let ghost last = cur@;
    let ghost done = texts(out@);
    out.push(cur);
    assert(texts(out@) =~= done.push(last));
    out
}

/// Splits `s` at each character that `p` matches.
pub fn split(s: &str, p: Pattern) -> (r: Vec<String>)
    ensures
        texts(r@) == split_seq(s@, p),
{
    let cs = chars_of(s);
    let mut cuts: Vec<bool> = Vec::new();
    let mut i: usize = 0;
    while i < cs.len()
        invariant
            i <= cs@.len(),
            cuts@ == cs@.take(i as int).map_values(|c: char| p.accepts(c)),
        decreases cs@.len() - i,
    {
        cuts.push(p.matches(cs[i]));
        i += 1;
        assert(cuts@ =~= cs@.take(i as int).map_values(|c: char| p.accepts(c)));
    }
    assert(cs@.take(i as int) =~= cs@);
    cut_at(&cs, &cuts)
}

/// Splits `s` into its words.
pub fn split_whitespace(s: &str) -> (r: Vec<String>)
    ensures
        texts(r@) == word_seq(s@),
{
    let parts = split(s, Pattern::WhiteSpace);
    let ghost all = texts(parts@);
    let mut out: Vec<String> = Vec::new();
    let mut i: usize = 0;
    assert(texts(out@) =~= all.take(0).filter(|w: Seq<char>| w.len() > 0)) by {
        reveal(Seq::filter);
    }
    while i < parts.len()
        invariant
            i <= parts@.len(),
            all == texts(parts@),
            texts(out@) == all.take(i as int).filter(|w: Seq<char>| w.len() > 0),
        decreases parts@.len() - i,
    {
        let ghost done = texts(out@);
        assert(all.take(i + 1).drop_last() =~= all.take(i as int));
        if !parts[i].as_str().is_empty() {
            out.push(parts[i].clone());
            assert(texts(out@) =~= done.push(parts@[i as int]@));
        }
        proof {
            reveal(Seq::filter);
        }
        i += 1;
    }
    assert(all.take(i as int) =~= all);
    out
}

/// Splits `s` into its lines.
pub fn lines(s: &str) -> (r: Vec<String>)
    ensures
        texts(r@) == line_seq(s@),
{
    let parts = split(s, Pattern::Char('\n'));
    let ghost all = texts(parts@);
    proof {
        lemma_pieces_nonempty(s@, s@.map_values(|c: char| Pattern::Char('\n').accepts(c)));
    }
    let last: usize = parts.len() - 1;
    let mut out: Vec<String> = Vec::new();
    let mut i: usize = 0;
    while i < last
        invariant
            i <= last == parts@.len() - 1,
            all == texts(parts@),
            texts(out@) == all.take(i as int).map_values(|l: Seq<char>| without_return(l)),
        decreases last - i,
    {
        let ghost done = texts(out@);
        let line = trim_return(parts[i].as_str()).to_owned();
        let ghost l = line@;
        out.push(line);
        assert(texts(out@) =~= done.push(l));
        i += 1;
        assert(texts(out@) =~= all.take(i as int).map_values(|l: Seq<char>| without_return(l)));
    }
    assert(all.take(i as int) =~= all.drop_last());
    if !parts[last].as_str().is_empty() {
        let ghost done = texts(out@);
        out.push(parts[last].clone());
        assert(texts(out@) =~= done.push(all.last()));
    }
    out
}

/// Removes one carriage return from the end of `s`.
fn trim_return<'a>(s: &'a str) -> (r: &'a str)
    ensures
        r@ == without_return(s@),
{
    let n: usize = s.unicode_len();
    if n > 0 && s.get_char(n - 1) == '\r' {
        assert(s@.drop_last() =~= s@.subrange(0, n - 1));
        s.substring_char(0, n - 1)
    } else {
        s
    }
}

/// A sequence has at least one piece.
pub proof fn lemma_pieces_nonempty(s: Seq<char>, cuts: Seq<bool>)
    ensures
        pieces(s, cuts).len() > 0,
    decreases s.len(),
{
    if s.len() > 0 {
        lemma_pieces_nonempty(s.drop_last(), cuts.drop_last());
    }
}

/// The concatenation of `parts`, with `sep` between one and the next.
pub open spec fn joined(parts: Seq<Seq<char>>, sep: Seq<char>) -> Seq<char>
    decreases parts.len(),
{
    if parts.len() == 0 {
        Seq::empty()
    } else if parts.len() == 1 {
        parts[0]
    } else {
        joined(parts.drop_last(), sep) + sep + parts.last()
    }
}

/// Joins `parts`, with `sep` between one and the next.
pub fn join(parts: &[String], sep: &str) -> (r: String)
    ensures
        r@ == joined(texts(parts@), sep@),
{
    let mut out = String::new();
    let ghost all = texts(parts@);
    let mut i: usize = 0;
    while i < parts.len()
        invariant
            i <= parts@.len(),
            all == texts(parts@),
            out@ == joined(all.take(i as int), sep@),
        decreases parts@.len() - i,
    {
        assert(all.take(i + 1).drop_last() =~= all.take(i as int));
        if i > 0 {
            out.append(sep);
        }
        out.append(parts[i].as_str());
        i += 1;
        assert(out@ =~= joined(all.take(i as int), sep@));
    }
    assert(all.take(i as int) =~= all);
    out
}

/// Whether `pat` stands in `s` at position `i`.
pub open spec fn occurs_at(s: Seq<char>, pat: Seq<char>, i: int) -> bool {
    0 <= i && i + pat.len() <= s.len() && s.subrange(i, i + pat.len()) == pat
}

/// Whether `pat` stands somewhere in `s`.
pub open spec fn occurs_in(s: Seq<char>, pat: Seq<char>) -> bool {
    exists|i: int| occurs_at(s, pat, i)
}

/// The first position, from `from` on, at which `pat` stands in `s`.
pub open spec fn first_from(s: Seq<char>, pat: Seq<char>, from: int) -> Option<int>
    decreases s.len() + 1 - from,
{
    if from + pat.len() > s.len() {
        None
    } else if occurs_at(s, pat, from) {
        Some(from)
    } else {
        first_from(s, pat, from + 1)
    }
}

/// `first_from` finds the least position.
pub proof fn lemma_first_from(s: Seq<char>, pat: Seq<char>, from: int)
    requires
        0 <= from,
    ensures
        match first_from(s, pat, from) {
            Some(i) => from <= i && occurs_at(s, pat, i) && forall|j: int|
                from <= j < i ==> !occurs_at(s, pat, j),
            None => forall|j: int| from <= j ==> !occurs_at(s, pat, j),
        },
    decreases s.len() + 1 - from,
{
    if from + pat.len() <= s.len() && !occurs_at(s, pat, from) {
        lemma_first_from(s, pat, from + 1);
    }
}

/// Tells whether `pat` stands in `v` at position `i`.
fn stands_at(v: &Vec<char>, pat: &Vec<char>, i: usize) -> (r: bool)
    requires
        i + pat@.len() <= v@.len(),
    ensures
        r == occurs_at(v@, pat@, i as int),
{
    let n: usize = v.len();
    let mut k: usize = 0;
    while k < pat.len()
        invariant
            k <= pat@.len(),
            i + pat@.len() <= n == v@.len(),
            forall|j: int| 0 <= j < k ==> #[trigger] v@.subrange(i as int, i + pat@.len())[j] == pat@[j],
        decreases pat@.len() - k,
    {
        if v[i + k] != pat[k] {
            assert(v@.subrange(i as int, i + pat@.len())[k as int] != pat@[k as int]);
            return false;
        }
        k += 1;
    }
    assert(v@.subrange(i as int, i + pat@.len()) =~= pat@);
    true
}

/// The position, counted in characters, at which `pat` first stands in `s`.
pub fn find(s: &str, pat: &str) -> (r: Option<usize>)
    ensures
        match r {
            Some(i) => first_from(s@, pat@, 0) == Some(i as int),
            None => first_from(s@, pat@, 0) is None,
        },
{
    let v = chars_of(s);
    let p = chars_of(pat);
    if p.len() > v.len() {
        return None;
    }
    let end: usize = v.len() - p.len();
    let mut i: usize = 0;
    loop
        invariant
            i <= end,
            end == v@.len() - p@.len(),
            v@ == s@,
            p@ == pat@,
            first_from(s@, pat@, 0) == first_from(s@, pat@, i as int),
        decreases end - i,
    {
        if stands_at(&v, &p, i) {
            return Some(i);
        }
        if i == end {
            assert(first_from(s@, pat@, i + 1) is None);
            return None;
        }
        i += 1;
    }
}

/// Tells whether `pat` stands somewhere in `s`.
pub fn contains(s: &str, pat: &str) -> (r: bool)
    ensures
        r == occurs_in(s@, pat@),
{
    proof {
        lemma_first_from(s@, pat@, 0);
    }
    find(s, pat).is_some()
}

/// Tells whether `c` is one of the characters of `s`.
pub fn contains_char(s: &str, c: char) -> (r: bool)
    ensures
        r == s@.contains(c),
{
    let v = chars_of(s);
    let mut i: usize = 0;
    while i < v.len()
        invariant
            v@ == s@,
            i <= v@.len(),
            forall|j: int| 0 <= j < i ==> s@[j] != c,
        decreases v@.len() - i,
    {
        if v[i] == c {
            return true;
        }
        i += 1;
    }
    false
}

/// Tells whether `s` begins with `pat`.
pub fn starts_with(s: &str, pat: &str) -> (r: bool)
    ensures
        r == pat@.is_prefix_of(s@),
{
    let v = chars_of(s);
    let p = chars_of(pat);
    p.len() <= v.len() && stands_at(&v, &p, 0)
}

/// Tells whether `s` ends with `pat`.
pub fn ends_with(s: &str, pat: &str) -> (r: bool)
    ensures
        r == pat@.is_suffix_of(s@),
{
    let v = chars_of(s);
    let p = chars_of(pat);
    p.len() <= v.len() && stands_at(&v, &p, v.len() - p.len())
}

/// Tells whether `a` and `b` hold the same text.
pub fn same(a: &str, b: &str) -> (r: bool)
    ensures
        r == (a@ == b@),
{
    let v = chars_of(a);
    let p = chars_of(b);
    assert(a@.subrange(0, a@.len() as int) =~= a@);
    p.len() == v.len() && stands_at(&v, &p, 0)
}

/// The lower case of an ASCII letter; any other character as it is.
pub open spec fn lower(c: char) -> char {
    if 'A' <= c <= 'Z' {
        (c as u8 + 32) as char
    } else {
        c
    }
}

/// `s` with its ASCII letters in lower case.
pub open spec fn lowered(s: Seq<char>) -> Seq<char> {
    s.map_values(|c: char| lower(c))
}

/// Turns an ASCII letter into lower case.
pub fn char_to_lowercase(c: char) -> (r: char)
    ensures
        r == lower(c),
{
    if 'A' <= c && c <= 'Z' {
        (c as u8 + 32) as char
    } else {
        c
    }
}

/// Turns the ASCII letters of `s` into lower case.
pub fn to_ascii_lowercase(s: &str) -> (r: String)
    ensures
        r@ == lowered(s@),
{
    let v = chars_of(s);
    let mut out = String::new();
    let mut i: usize = 0;
    while i < v.len()
        invariant
            v@ == s@,
            i <= v@.len(),
            out@ == lowered(s@.take(i as int)),
        decreases v@.len() - i,
    {
        out.push(char_to_lowercase(v[i]));
        i += 1;
        assert(out@ =~= lowered(s@.take(i as int)));
    }
    assert(s@.take(i as int) =~= s@);
    out
}

/// The character for a decimal digit.
pub open spec fn digit(d: nat) -> char {
    (48 + d) as char
}

/// The decimal notation of `n`.
pub open spec fn decimal(n: nat) -> Seq<char>
    decreases n,
{
    if n < 10 {
        seq![digit(n)]
    } else {
        decimal(n / 10).push(digit(n % 10))
    }
}

/// Writes `n` in decimal notation.
pub fn to_decimal(n: usize) -> (r: String)
    ensures
        r@ == decimal(n as nat),
    decreases n,
{
    let mut out = if n < 10 {
        String::new()
    } else {
        to_decimal(n / 10)
    };
    out.push((48u8 + (n % 10) as u8) as char);
    assert(out@ =~= decimal(n as nat));
    out
}

/// `s` when it has at most `max` characters; otherwise as much of it as leaves
/// room for three dots, and the dots.
pub open spec fn truncated(s: Seq<char>, max: nat) -> Seq<char> {
    if s.len() <= max {
        s
    } else if max < 3 {
        "..."@
    } else {
        s.take(max - 3) + "..."@
    }
}

/// Shortens `s` to at most `max` characters (three dots at the least).
pub fn truncate(s: &str, max: usize) -> (r: String)
    ensures
        r@ == truncated(s@, max as nat),
{
    if s.unicode_len() <= max {
        s.to_owned()
    } else if max < 3 {
        "...".to_owned()
    } else {
        s.substring_char(0, max - 3).to_owned().concat("...")
    }
}

} // verus!
