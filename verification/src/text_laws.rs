//! Laws of trimming, splitting and joining.
use vstd::prelude::*;
use crate::text::{
    decimal, digit, is_space, joined, lemma_pieces_nonempty, line_seq, lowered, occurs_at,
    occurs_in, pieces, split_seq, trimmed, trimmed_back, trimmed_front, trimmed_of, truncated,
    without_return, word_seq, Pattern,
};

verus! {

/// No cut at all.
pub open spec fn no_cuts(n: nat) -> Seq<bool> {
    Seq::new(n, |i: int| false)
}

/// Where nothing is cut there is one piece.
pub proof fn lemma_pieces_whole(s: Seq<char>)
    ensures
        pieces(s, no_cuts(s.len())) == seq![s],
    decreases s.len(),
{
    if s.len() == 0 {
        assert(s =~= Seq::empty());
    } else {
        let d = s.drop_last();
        lemma_pieces_whole(d);
        assert(no_cuts(s.len()).drop_last() =~= no_cuts(d.len()));
        assert(d.push(s.last()) =~= s);
        assert(seq![d].drop_last().push(d.push(s.last())) =~= seq![s]);
    }
}

/// What follows the last cut is the last piece.
pub proof fn lemma_pieces_append(s: Seq<char>, cuts: Seq<bool>, c: char, t: Seq<char>)
    requires
        s.len() == cuts.len(),
    ensures
        pieces(s + seq![c] + t, cuts + seq![true] + no_cuts(t.len())) == pieces(s, cuts).push(t),
    decreases t.len(),
{
    let all = s + seq![c] + t;
    let marks = cuts + seq![true] + no_cuts(t.len());
    if t.len() == 0 {
        assert(all.drop_last() =~= s);
        assert(marks.drop_last() =~= cuts);
        assert(t =~= Seq::empty());
    } else {
        let d = t.drop_last();
        lemma_pieces_append(s, cuts, c, d);
        assert(all.drop_last() =~= s + seq![c] + d);
        assert(marks.drop_last() =~= cuts + seq![true] + no_cuts(d.len()));
        assert(d.push(t.last()) =~= t);
        let before = pieces(s, cuts).push(d);
        assert(before.drop_last().push(before.last().push(t.last())) =~= pieces(s, cuts).push(t));
    }
}

/// How the last character of `s` decides its pieces.
proof fn lemma_split_step(s: Seq<char>, p: Pattern)
    requires
        s.len() > 0,
    ensures
        split_seq(s.drop_last(), p).len() > 0,
        split_seq(s, p) == (if p.accepts(s.last()) {
            split_seq(s.drop_last(), p).push(Seq::empty())
        } else {
            split_seq(s.drop_last(), p).drop_last().push(
                split_seq(s.drop_last(), p).last().push(s.last()),
            )
        }),
{
    let cuts = s.map_values(|c: char| p.accepts(c));
    let d = s.drop_last();
    assert(cuts.drop_last() =~= d.map_values(|c: char| p.accepts(c)));
    lemma_pieces_nonempty(d, d.map_values(|c: char| p.accepts(c)));
}

/// Text has at least one piece.
pub proof fn lemma_split_nonempty(s: Seq<char>, p: Pattern)
    ensures
        split_seq(s, p).len() > 0,
{
    lemma_pieces_nonempty(s, s.map_values(|c: char| p.accepts(c)));
}

/// No piece holds a character at which the text was split.
pub proof fn law_pieces_hold_no_separator(s: Seq<char>, p: Pattern)
    ensures
        forall|i: int, j: int|
            0 <= i < split_seq(s, p).len() && 0 <= j < split_seq(s, p)[i].len() ==> !p.accepts(
                #[trigger] split_seq(s, p)[i][j],
            ),
    decreases s.len(),
{
    if s.len() > 0 {
        lemma_split_step(s, p);
        law_pieces_hold_no_separator(s.drop_last(), p);
    }
}

/// Splitting at a character is undone by joining with it.
pub proof fn law_split_then_join(s: Seq<char>, c: char)
    ensures
        joined(split_seq(s, Pattern::Char(c)), seq![c]) == s,
    decreases s.len(),
{
    let p = Pattern::Char(c);
    let parts = split_seq(s, p);
    if s.len() == 0 {
        assert(s =~= Seq::empty());
    } else {
        let d = s.drop_last();
        let before = split_seq(d, p);
        lemma_split_step(s, p);
        law_split_then_join(d, c);
        assert(d.push(s.last()) =~= s);
        if p.accepts(s.last()) {
            assert(parts.drop_last() =~= before);
            assert(joined(parts, seq![c]) =~= d + seq![c] + Seq::empty());
            assert(joined(parts, seq![c]) =~= s);
        } else {
            assert(parts.drop_last() =~= before.drop_last());
            assert(joined(parts, seq![c]) =~= s);
        }
    }
}

/// Joining with a character is undone by splitting at it, where no part holds
/// a character at which the text is split and there is a part at all.
pub proof fn law_join_then_split(parts: Seq<Seq<char>>, c: char, p: Pattern)
    requires
        p.accepts(c),
        parts.len() > 0,
        forall|i: int, j: int|
            0 <= i < parts.len() && 0 <= j < parts[i].len() ==> !p.accepts(#[trigger] parts[i][j]),
    ensures
        split_seq(joined(parts, seq![c]), p) == parts,
    decreases parts.len(),
{
    let last = parts.last();
    let f = |x: char| p.accepts(x);
    assert(last.map_values(f) =~= no_cuts(last.len())) by {
        assert forall|j: int| 0 <= j < last.len() implies !p.accepts(last[j]) by {
            assert(!p.accepts(parts[parts.len() - 1][j]));
        }
    }
    if parts.len() == 1 {
        lemma_pieces_whole(last);
        assert(parts =~= seq![last]);
    } else {
        let d = parts.drop_last();
        assert forall|i: int, j: int| 0 <= i < d.len() && 0 <= j < d[i].len() implies !p.accepts(
            #[trigger] d[i][j],
        ) by {
            assert(d[i][j] == parts[i][j]);
        }
        law_join_then_split(d, c, p);
        let s = joined(d, seq![c]);
        let all = joined(parts, seq![c]);
        assert(all == s + seq![c] + last);
        assert(all.map_values(f) =~= s.map_values(f) + seq![true] + no_cuts(last.len())) by {
            assert forall|i: int| 0 <= i < all.len() implies #[trigger] all.map_values(f)[i] == (
            s.map_values(f) + seq![true] + no_cuts(last.len()))[i] by {
                if i > s.len() {
                    assert(last.map_values(f)[i - s.len() - 1] == p.accepts(all[i]));
                }
            }
        }
        lemma_pieces_append(s, s.map_values(f), c, last);
        assert(d.push(last) =~= parts);
    }
}

/// Whether `w` is a word: not empty, and without white space.
pub open spec fn is_word(w: Seq<char>) -> bool {
    w.len() > 0 && forall|j: int| 0 <= j < w.len() ==> !is_space(#[trigger] w[j])
}

/// `n` spaces.
pub open spec fn spaces(n: nat) -> Seq<char> {
    Seq::new(n, |i: int| ' ')
}

/// `words` with spaces before the first of them, and after each of them as many
/// as `gaps` says.
pub open spec fn spaced(words: Seq<Seq<char>>, lead: nat, gaps: Seq<nat>) -> Seq<char>
    decreases words.len(),
{
    if words.len() == 0 {
        spaces(lead)
    } else {
        spaced(words.drop_last(), lead, gaps.drop_last()) + words.last() + spaces(gaps.last())
    }
}

/// White space at the end adds no word.
proof fn lemma_words_push_space(s: Seq<char>, c: char)
    requires
        is_space(c),
    ensures
        word_seq(s.push(c)) == word_seq(s),
{
    let all = s.push(c);
    lemma_split_step(all, Pattern::WhiteSpace);
    assert(all.drop_last() =~= s);
    let parts = split_seq(s, Pattern::WhiteSpace);
    let more = split_seq(all, Pattern::WhiteSpace);
    assert(more.drop_last() =~= parts);
    reveal(Seq::filter);
}

/// Spaces at the end add no word.
proof fn lemma_words_add_spaces(s: Seq<char>, n: nat)
    ensures
        word_seq(s + spaces(n)) == word_seq(s),
    decreases n,
{
    if n == 0 {
        assert(s + spaces(n) =~= s);
    } else {
        let m = (n - 1) as nat;
        lemma_words_add_spaces(s, m);
        lemma_words_push_space(s + spaces(m), ' ');
        assert((s + spaces(m)).push(' ') =~= s + spaces(n));
    }
}

/// What is added to text that ends where it would be split is a piece of its
/// own, where it holds nothing to split at.
proof fn lemma_split_add(s: Seq<char>, w: Seq<char>, p: Pattern)
    requires
        s.len() == 0 || p.accepts(s.last()),
        forall|j: int| 0 <= j < w.len() ==> !p.accepts(#[trigger] w[j]),
    ensures
        split_seq(s, p).len() > 0,
        split_seq(s, p).last().len() == 0,
        split_seq(s + w, p) == split_seq(s, p).drop_last().push(w),
    decreases w.len(),
{
    let parts = split_seq(s, p);
    if s.len() > 0 {
        lemma_split_step(s, p);
    }
    if w.len() == 0 {
        assert(s + w =~= s);
        assert(w =~= parts.last());
        assert(parts.drop_last().push(w) =~= parts);
    } else {
        let d = w.drop_last();
        assert forall|j: int| 0 <= j < d.len() implies !p.accepts(#[trigger] d[j]) by {
            assert(d[j] == w[j]);
        }
        lemma_split_add(s, d, p);
        assert((s + w).drop_last() =~= s + d);
        assert(!p.accepts(w[w.len() - 1]));
        lemma_split_step(s + w, p);
        let before = split_seq(s + d, p);
        assert(before.last() == d);
        assert(before.drop_last() =~= parts.drop_last());
        assert(d.push(w.last()) =~= w);
    }
}

/// A word after white space is the next word.
proof fn lemma_words_add_word(s: Seq<char>, w: Seq<char>)
    requires
        s.len() == 0 || is_space(s.last()),
        is_word(w),
    ensures
        word_seq(s + w) == word_seq(s).push(w),
{
    let parts = split_seq(s, Pattern::WhiteSpace);
    let more = split_seq(s + w, Pattern::WhiteSpace);
    lemma_split_add(s, w, Pattern::WhiteSpace);
    assert(more.drop_last() =~= parts.drop_last());
    reveal(Seq::filter);
}

/// Text is read word by word: white space adds no word, and a word after white
/// space, or at the front, is the next word as it stands.
pub proof fn law_words_are_read_in_turn(s: Seq<char>, c: char, w: Seq<char>)
    ensures
        word_seq(Seq::empty()) == Seq::<Seq<char>>::empty(),
        is_space(c) ==> word_seq(s.push(c)) == word_seq(s),
        is_word(w) && (s.len() == 0 || is_space(s.last())) ==> word_seq(s + w) == word_seq(s).push(
            w,
        ),
{
    law_spaced_words_are_read_back(Seq::empty(), 0, Seq::empty());
    assert(spaces(0) =~= Seq::empty());
    if is_space(c) {
        lemma_words_push_space(s, c);
    }
    if is_word(w) && (s.len() == 0 || is_space(s.last())) {
        lemma_words_add_word(s, w);
    }
}

/// Text is read line by line: what stands before a line feed, or a carriage
/// return and a line feed, is the next line, and so is what stands at the end.
pub proof fn law_lines_are_read_in_turn(s: Seq<char>, l: Seq<char>)
    requires
        s.len() == 0 || s.last() == '\n',
        forall|j: int| 0 <= j < l.len() ==> #[trigger] l[j] != '\n',
    ensures
        line_seq(Seq::empty()) == Seq::<Seq<char>>::empty(),
        line_seq(s + l + seq!['\r', '\n']) == line_seq(s).push(l),
        l.len() == 0 || l.last() != '\r' ==> line_seq(s + l + seq!['\n']) == line_seq(s).push(l),
        l.len() > 0 ==> line_seq(s + l) == line_seq(s).push(l),
{
    let none: Seq<char> = Seq::empty();
    assert(split_seq(none, Pattern::Char('\n')) =~= seq![none]);
    assert(line_seq(none) =~= Seq::empty());
    lemma_line_added(s, l, l);
    lemma_line_added(s, l, l.push('\r'));
    assert(s + l.push('\r') + seq!['\n'] =~= s + l + seq!['\r', '\n']);
    assert(l.push('\r').drop_last() =~= l);
    if l.len() > 0 {
        let p = Pattern::Char('\n');
        lemma_split_add(s, l, p);
        let parts = split_seq(s, p);
        assert(split_seq(s + l, p).drop_last() =~= parts.drop_last());
        assert(line_seq(s + l) =~= line_seq(s).push(l));
    }
}

proof fn lemma_line_added(s: Seq<char>, l: Seq<char>, ended: Seq<char>)
    requires
        s.len() == 0 || s.last() == '\n',
        forall|j: int| 0 <= j < l.len() ==> #[trigger] l[j] != '\n',
        ended == l || ended == l.push('\r'),
    ensures
        line_seq(s + ended + seq!['\n']) == line_seq(s).push(without_return(ended)),
{
    let p = Pattern::Char('\n');
    let all = s + ended + seq!['\n'];
    assert forall|j: int| 0 <= j < ended.len() implies !p.accepts(#[trigger] ended[j]) by {
        if j < l.len() {
            assert(ended[j] == l[j]);
        }
    }
    lemma_split_add(s, ended, p);
    lemma_split_step(all, p);
    assert(all.drop_last() =~= s + ended);
    let parts = split_seq(s, p);
    assert(split_seq(all, p).drop_last() =~= parts.drop_last().push(ended));
    assert(line_seq(all) =~= line_seq(s).push(without_return(ended)));
}

/// Parts are joined one by one, with the separator between one and the next and
/// nowhere else.
pub proof fn law_joined(parts: Seq<Seq<char>>, part: Seq<char>, sep: Seq<char>)
    ensures
        joined(Seq::empty(), sep) == Seq::<char>::empty(),
        joined(seq![part], sep) == part,
        parts.len() > 0 ==> joined(parts.push(part), sep) == joined(parts, sep) + sep + part,
{
    assert(parts.push(part).drop_last() =~= parts);
}

/// Words with spaces between them, and any spaces around them, are read back as
/// they were.
pub proof fn law_spaced_words_are_read_back(words: Seq<Seq<char>>, lead: nat, gaps: Seq<nat>)
    requires
        gaps.len() == words.len(),
        forall|i: int| 0 <= i < words.len() ==> is_word(#[trigger] words[i]),
        forall|i: int| 0 <= i < words.len() - 1 ==> #[trigger] gaps[i] > 0,
    ensures
        word_seq(spaced(words, lead, gaps)) == words,
    decreases words.len(),
{
    if words.len() == 0 {
        let none: Seq<char> = Seq::empty();
        lemma_words_add_spaces(none, lead);
        assert(none + spaces(lead) =~= spaces(lead));
        assert(split_seq(none, Pattern::WhiteSpace) =~= seq![none]);
        assert(seq![none].drop_last() =~= Seq::empty());
        reveal_with_fuel(Seq::filter, 2);
        assert(words =~= Seq::empty());
    } else {
        let d = words.drop_last();
        let e = gaps.drop_last();
        let s = spaced(d, lead, e);
        let w = words.last();
        assert forall|i: int| 0 <= i < d.len() implies is_word(#[trigger] d[i]) by {
            assert(d[i] == words[i]);
        }
        assert forall|i: int| 0 <= i < d.len() - 1 implies #[trigger] e[i] > 0 by {
            assert(e[i] == gaps[i]);
        }
        law_spaced_words_are_read_back(d, lead, e);
        assert(is_word(words[words.len() - 1]));
        if d.len() > 0 {
            assert(gaps[d.len() - 1] > 0);
            assert(e.last() == gaps[d.len() - 1]);
            assert(s.last() == ' ');
        }
        lemma_words_add_word(s, w);
        lemma_words_add_spaces(s + w, gaps.last());
        assert(d.push(w) =~= words);
    }
}

/// White space before text is a piece of its own.
proof fn lemma_split_front(s: Seq<char>, c: char)
    requires
        is_space(c),
    ensures
        split_seq(seq![c] + s, Pattern::WhiteSpace) == seq![Seq::<char>::empty()] + split_seq(
            s,
            Pattern::WhiteSpace,
        ),
    decreases s.len(),
{
    let p = Pattern::WhiteSpace;
    let all = seq![c] + s;
    let none: Seq<char> = Seq::empty();
    lemma_split_step(all, p);
    if s.len() == 0 {
        assert(all.drop_last() =~= none);
        assert(s =~= none);
        assert(split_seq(all, p) =~= seq![none] + split_seq(s, p));
    } else {
        let d = s.drop_last();
        lemma_split_front(d, c);
        lemma_split_step(s, p);
        assert(all.drop_last() =~= seq![c] + d);
        let before = split_seq(d, p);
        let front = seq![none] + before;
        assert(front.drop_last() =~= seq![none] + before.drop_last());
        assert(front.last() == before.last());
        assert(split_seq(all, p) =~= seq![none] + split_seq(s, p));
    }
}

/// White space before text adds no word.
proof fn lemma_words_front(s: Seq<char>, c: char)
    requires
        is_space(c),
    ensures
        word_seq(seq![c] + s) == word_seq(s),
{
    let keep = |w: Seq<char>| w.len() > 0;
    let parts = split_seq(s, Pattern::WhiteSpace);
    let none = seq![Seq::<char>::empty()];
    lemma_split_front(s, c);
    Seq::filter_distributes_over_add(none, parts, keep);
    assert(none.filter(keep) =~= Seq::empty()) by {
        assert(none.drop_last() =~= Seq::empty());
        reveal_with_fuel(Seq::filter, 2);
    }
    assert(none.filter(keep) + parts.filter(keep) =~= parts.filter(keep));
}

/// Trimming white space neither adds nor takes a word.
pub proof fn law_trimmed_words(s: Seq<char>)
    ensures
        word_seq(trimmed(s)) == word_seq(s),
{
    lemma_words_trimmed_front(s);
    lemma_words_trimmed_back(trimmed_front(s, Pattern::WhiteSpace));
}

proof fn lemma_words_trimmed_front(s: Seq<char>)
    ensures
        word_seq(trimmed_front(s, Pattern::WhiteSpace)) == word_seq(s),
    decreases s.len(),
{
    if s.len() > 0 && is_space(s.first()) {
        lemma_words_trimmed_front(s.drop_first());
        lemma_words_front(s.drop_first(), s.first());
        assert(seq![s.first()] + s.drop_first() =~= s);
    }
}

proof fn lemma_words_trimmed_back(s: Seq<char>)
    ensures
        word_seq(trimmed_back(s, Pattern::WhiteSpace)) == word_seq(s),
    decreases s.len(),
{
    if s.len() > 0 && is_space(s.last()) {
        lemma_words_trimmed_back(s.drop_last());
        lemma_words_push_space(s.drop_last(), s.last());
        assert(s.drop_last().push(s.last()) =~= s);
    }
}

/// Lines with line feeds between them are read back as they were, but for an
/// empty one at the end, where none of them holds a line feed or ends with a
/// carriage return.
pub proof fn law_join_then_lines(lines: Seq<Seq<char>>)
    requires
        lines.len() > 0,
        forall|i: int, j: int|
            0 <= i < lines.len() && 0 <= j < lines[i].len() ==> #[trigger] lines[i][j] != '\n',
        forall|i: int|
            0 <= i < lines.len() && lines[i].len() > 0 ==> (#[trigger] lines[i]).last() != '\r',
    ensures
        line_seq(joined(lines, seq!['\n'])) == (if lines.last().len() == 0 {
            lines.drop_last()
        } else {
            lines
        }),
{
    law_join_then_split(lines, '\n', Pattern::Char('\n'));
    let ended = lines.drop_last().map_values(|l: Seq<char>| without_return(l));
    assert forall|i: int| 0 <= i < ended.len() implies #[trigger] ended[i] == lines[i] by {
        assert(lines.drop_last()[i] == lines[i]);
        if lines[i].len() > 0 {
            assert(lines[i].last() != '\r');
        }
    }
    assert(ended =~= lines.drop_last());
    assert(ended.push(lines.last()) =~= lines);
}

/// A text that is itself joined may be joined with others part by part.
pub proof fn lemma_joined_nested(a: Seq<Seq<char>>, b: Seq<Seq<char>>, sep: Seq<char>)
    requires
        b.len() > 0,
    ensures
        joined(a.push(joined(b, sep)), sep) == joined(a + b, sep),
    decreases b.len(),
{
    let inner = joined(b, sep);
    assert(a.push(inner).drop_last() =~= a);
    if b.len() == 1 {
        assert(a.push(inner) =~= a + b);
    } else {
        let d = b.drop_last();
        lemma_joined_nested(a, d, sep);
        assert((a + b).drop_last() =~= a + d);
        assert(a.push(joined(d, sep)).drop_last() =~= a);
        assert(joined(a.push(inner), sep) =~= joined(a.push(joined(d, sep)), sep) + sep + b.last());
        assert(joined(a + b, sep) =~= joined(a + d, sep) + sep + b.last());
    }
}

/// What `trimmed_front` leaves is the end of the text, and does not begin with
/// what it removes.
pub proof fn lemma_trimmed_front(s: Seq<char>, p: Pattern)
    ensures
        trimmed_front(s, p).is_suffix_of(s),
        trimmed_front(s, p).len() > 0 ==> !p.accepts(trimmed_front(s, p).first()),
    decreases s.len(),
{
    if s.len() > 0 && p.accepts(s.first()) {
        lemma_trimmed_front(s.drop_first(), p);
        let t = trimmed_front(s, p);
        assert(t =~= s.subrange(s.len() - t.len(), s.len() as int));
    } else {
        assert(s =~= s.subrange(0, s.len() as int));
    }
}

/// What `trimmed_back` leaves is the beginning of the text, and does not end
/// with what it removes.
proof fn lemma_trimmed_back(s: Seq<char>, p: Pattern)
    ensures
        trimmed_back(s, p).is_prefix_of(s),
        trimmed_back(s, p).len() > 0 ==> !p.accepts(trimmed_back(s, p).last()),
    decreases s.len(),
{
    if s.len() > 0 && p.accepts(s.last()) {
        lemma_trimmed_back(s.drop_last(), p);
        let t = trimmed_back(s, p);
        assert(t =~= s.subrange(0, t.len() as int));
    } else {
        assert(s =~= s.subrange(0, s.len() as int));
    }
}

/// Trimmed text neither begins nor ends with what was trimmed.
pub proof fn law_trimmed_ends(s: Seq<char>, p: Pattern)
    ensures
        trimmed_of(s, p).len() > 0 ==> !p.accepts(trimmed_of(s, p).first()) && !p.accepts(
            trimmed_of(s, p).last(),
        ),
{
    let front = trimmed_front(s, p);
    lemma_trimmed_front(s, p);
    lemma_trimmed_back(front, p);
    if trimmed_of(s, p).len() > 0 {
        assert(trimmed_of(s, p).first() == front.first());
    }
}

/// Text that neither begins nor ends with what is trimmed is left as it is.
pub proof fn law_trimmed_kept(s: Seq<char>, p: Pattern)
    requires
        s.len() > 0 ==> !p.accepts(s.first()) && !p.accepts(s.last()),
    ensures
        trimmed_of(s, p) == s,
{
}

/// Trimmed text stands in the text as one piece.
pub proof fn law_trimmed_stands_in(s: Seq<char>, p: Pattern) -> (from: int)
    ensures
        0 <= from,
        from + trimmed_of(s, p).len() <= s.len(),
        trimmed_of(s, p) == s.subrange(from, from + trimmed_of(s, p).len()),
{
    let front = trimmed_front(s, p);
    let t = trimmed_of(s, p);
    lemma_trimmed_front(s, p);
    lemma_trimmed_back(front, p);
    let from = s.len() - front.len();
    assert(s.subrange(from, from + t.len()) =~= t);
    from
}

/// Trimming takes all that it is to take off either end, and nothing else.
pub proof fn law_trimmed(a: Seq<char>, t: Seq<char>, b: Seq<char>, p: Pattern)
    requires
        forall|i: int| 0 <= i < a.len() ==> p.accepts(#[trigger] a[i]),
        forall|i: int| 0 <= i < b.len() ==> p.accepts(#[trigger] b[i]),
        t.len() > 0 ==> !p.accepts(t.first()) && !p.accepts(t.last()),
    ensures
        trimmed_of(a + t + b, p) == t,
        t.len() > 0 ==> trimmed_front(a + t + b, p) == t + b,
{
    assert(a + t + b =~= a + (t + b));
    lemma_front_off(a, t + b, p);
    if t.len() == 0 {
        assert(t + b =~= b + t);
        lemma_front_off(b, t, p);
        assert(trimmed_front(t, p) == t);
    } else {
        assert((t + b).first() == t.first());
        assert(trimmed_front(t + b, p) == t + b);
        lemma_back_off(t, b, p);
    }
    assert(trimmed_back(t, p) == t);
}

proof fn lemma_front_off(a: Seq<char>, s: Seq<char>, p: Pattern)
    requires
        forall|i: int| 0 <= i < a.len() ==> p.accepts(#[trigger] a[i]),
    ensures
        trimmed_front(a + s, p) == trimmed_front(s, p),
    decreases a.len(),
{
    if a.len() == 0 {
        assert(a + s =~= s);
    } else {
        let d = a.drop_first();
        assert forall|i: int| 0 <= i < d.len() implies p.accepts(#[trigger] d[i]) by {
            assert(d[i] == a[i + 1]);
        }
        lemma_front_off(d, s, p);
        assert(p.accepts(a[0]));
        assert((a + s).drop_first() =~= d + s);
    }
}

proof fn lemma_back_off(s: Seq<char>, b: Seq<char>, p: Pattern)
    requires
        forall|i: int| 0 <= i < b.len() ==> p.accepts(#[trigger] b[i]),
    ensures
        trimmed_back(s + b, p) == trimmed_back(s, p),
    decreases b.len(),
{
    if b.len() == 0 {
        assert(s + b =~= s);
    } else {
        let d = b.drop_last();
        assert forall|i: int| 0 <= i < d.len() implies p.accepts(#[trigger] d[i]) by {
            assert(d[i] == b[i]);
        }
        lemma_back_off(s, d, p);
        assert(p.accepts(b[b.len() - 1]));
        assert((s + b).drop_last() =~= s + d);
    }
}

/// Trimming twice is trimming once.
pub proof fn law_trim_idempotent(s: Seq<char>, p: Pattern)
    ensures
        trimmed_of(trimmed_of(s, p), p) == trimmed_of(s, p),
{
    law_trimmed_ends(s, p);
    law_trimmed_kept(trimmed_of(s, p), p);
}

/// What text is split into at white space is words.
pub proof fn law_words(s: Seq<char>)
    ensures
        forall|i: int| 0 <= i < word_seq(s).len() ==> is_word(#[trigger] word_seq(s)[i]),
{
    let parts = split_seq(s, Pattern::WhiteSpace);
    let keep = |w: Seq<char>| w.len() > 0;
    law_pieces_hold_no_separator(s, Pattern::WhiteSpace);
    assert forall|i: int| 0 <= i < word_seq(s).len() implies is_word(#[trigger] word_seq(s)[i]) by {
        let w = word_seq(s)[i];
        parts.lemma_filter_pred(keep, i);
        assert(parts.filter(keep).contains(w));
        parts.lemma_filter_contains_rev(keep, w);
        let k = choose|k: int| 0 <= k < parts.len() && parts[k] == w;
        assert forall|j: int| 0 <= j < w.len() implies !is_space(#[trigger] w[j]) by {
            assert(!Pattern::WhiteSpace.accepts(parts[k][j]));
        }
    }
}

/// Lines hold no line feed.
pub proof fn law_lines(s: Seq<char>)
    ensures
        forall|i: int, j: int|
            0 <= i < line_seq(s).len() && 0 <= j < line_seq(s)[i].len() ==> #[trigger] line_seq(
                s,
            )[i][j] != '\n',
{
    let p = Pattern::Char('\n');
    let parts = split_seq(s, p);
    lemma_split_nonempty(s, p);
    law_pieces_hold_no_separator(s, p);
    assert forall|i: int, j: int|
        0 <= i < line_seq(s).len() && 0 <= j < line_seq(s)[i].len() implies #[trigger] line_seq(
        s,
    )[i][j] != '\n' by {
        assert(!p.accepts(parts[i][j]));
    }
}

/// Shortened text has at most `max` characters (three, where `max` is less), and
/// text that fits is left as it is.
pub proof fn law_truncated(s: Seq<char>, max: nat)
    ensures
        truncated(s, max).len() <= max || truncated(s, max).len() == 3,
        s.len() <= max ==> truncated(s, max) == s,
        s.len() > max >= 3 ==> truncated(s, max).len() == max && truncated(s, max).take(max - 3)
            == s.take(max - 3) && truncated(s, max).skip(max - 3) == seq!['.', '.', '.'],
        s.len() > max && max < 3 ==> truncated(s, max) == seq!['.', '.', '.'],
{
    reveal_strlit("...");
    if s.len() > max && max >= 3 {
        assert(truncated(s, max).take(max - 3) =~= s.take(max - 3));
        assert(truncated(s, max).skip(max - 3) =~= seq!['.', '.', '.']);
    } else if s.len() > max {
        assert(truncated(s, max) =~= seq!['.', '.', '.']);
    }
}

/// A text stands in another exactly when that is the text with something before
/// and something after it, and it stands where that which is before it ends.
pub proof fn law_occurs(s: Seq<char>, pat: Seq<char>, a: Seq<char>, b: Seq<char>)
    ensures
        occurs_in(a + pat + b, pat),
        occurs_at(a + pat + b, pat, a.len() as int),
        occurs_in(s, pat) ==> exists|x: Seq<char>, y: Seq<char>| s == #[trigger] (x + pat + y),
        forall|i: int| #[trigger]
            occurs_at(s, pat, i) ==> 0 <= i && s == s.take(i) + pat + s.skip(i + pat.len()),
{
    let all = a + pat + b;
    assert(all.subrange(a.len() as int, a.len() as int + pat.len()) =~= pat);
    assert(occurs_at(all, pat, a.len() as int));
    assert forall|i: int| #[trigger] occurs_at(s, pat, i) implies 0 <= i && s == s.take(i) + pat
        + s.skip(i + pat.len()) by {
        assert(s =~= s.take(i) + s.subrange(i, i + pat.len()) + s.skip(i + pat.len()));
    }
    if occurs_in(s, pat) {
        let i = choose|i: int| occurs_at(s, pat, i);
        assert(s == s.take(i) + pat + s.skip(i + pat.len()));
    }
}

/// The number that decimal digits stand for.
pub open spec fn number(digits: Seq<char>) -> int
    decreases digits.len(),
{
    if digits.len() == 0 {
        0
    } else {
        10 * number(digits.drop_last()) + (digits.last() as int - '0' as int)
    }
}

/// Decimal notation stands for the number that was written, and begins with no
/// zero unless it is nothing else.
pub proof fn law_decimal_is_read_back(n: nat)
    ensures
        number(decimal(n)) == n,
        decimal(n).len() > 1 ==> decimal(n).first() != '0',
    decreases n,
{
    let none: Seq<char> = Seq::empty();
    assert(number(none) == 0);
    if n < 10 {
        assert(decimal(n).drop_last() =~= none);
    } else {
        law_decimal_is_read_back(n / 10);
        law_decimal(n / 10);
        assert(decimal(n).drop_last() =~= decimal(n / 10));
        assert(decimal(n).first() == decimal(n / 10).first());
        if n / 10 < 10 {
            assert(decimal(n / 10) == seq![digit(n / 10)]);
        } else {
            law_decimal((n / 10) / 10);
        }
    }
}

/// ASCII letters in upper case become the same letters in lower case, and no
/// other character changes.
pub proof fn law_lowered(s: Seq<char>)
    ensures
        lowered("ABCDEFGHIJKLMNOPQRSTUVWXYZ"@) == "abcdefghijklmnopqrstuvwxyz"@,
        lowered(s).len() == s.len(),
        forall|i: int|
            0 <= i < s.len() && !("ABCDEFGHIJKLMNOPQRSTUVWXYZ"@.contains(s[i]))
                ==> #[trigger] lowered(s)[i] == s[i],
        forall|t: Seq<char>, i: int, j: int|
            0 <= i < s.len() && 0 <= j < t.len() && s[i] == t[j] ==> #[trigger] lowered(s)[i]
                == #[trigger] lowered(t)[j],
{
    reveal_strlit("ABCDEFGHIJKLMNOPQRSTUVWXYZ");
    reveal_strlit("abcdefghijklmnopqrstuvwxyz");
    assert(lowered("ABCDEFGHIJKLMNOPQRSTUVWXYZ"@) =~= "abcdefghijklmnopqrstuvwxyz"@);
    assert forall|i: int|
        0 <= i < s.len() && !("ABCDEFGHIJKLMNOPQRSTUVWXYZ"@.contains(s[i])) implies
        #[trigger] lowered(s)[i] == s[i] by {
        let c = s[i];
        if 'A' <= c <= 'Z' {
            assert("ABCDEFGHIJKLMNOPQRSTUVWXYZ"@[c as int - 'A' as int] == c);
        }
    }
}

/// Decimal notation holds digits only, and at least one.
pub proof fn law_decimal(n: nat)
    ensures
        decimal(n).len() > 0,
        forall|i: int| 0 <= i < decimal(n).len() ==> '0' <= #[trigger] decimal(n)[i] <= '9',
    decreases n,
{
    if n >= 10 {
        law_decimal(n / 10);
    }
}

} // verus!
