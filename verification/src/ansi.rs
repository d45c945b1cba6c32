//! Colour and style escapes of terminals.
use vstd::prelude::*;
use crate::text::chars_of;

verus! {

/// Whether `c` may stand among the parameters of an escape: a digit or `;`.
pub open spec fn is_param(c: char) -> bool {
    '0' <= c <= '9' || c == ';'
}

/// Whether `c` may end an escape: an ASCII letter.
pub open spec fn is_final(c: char) -> bool {
    'a' <= c <= 'z' || 'A' <= c <= 'Z'
}

/// The end of the run of parameters that begins at `i`.
pub open spec fn params_end(s: Seq<char>, i: int) -> int
    decreases s.len() - i,
{
    if 0 <= i < s.len() && is_param(s[i]) {
        params_end(s, i + 1)
    } else {
        i
    }
}

/// Whether an escape begins at `i`: the escape character, `[`, parameters and a
/// letter.
pub open spec fn escape_at(s: Seq<char>, i: int) -> bool {
    let end = params_end(s, i + 2);
    &&& 0 <= i
    &&& i + 1 < s.len()
    &&& s[i] == '\u{1b}'
    &&& s[i + 1] == '['
    &&& end < s.len()
    &&& is_final(s[end])
}

/// What follows the escape at `i`.
pub open spec fn escape_end(s: Seq<char>, i: int) -> int {
    params_end(s, i + 2) + 1
}

/// `s` from `i` on, without its escapes.
pub open spec fn stripped_from(s: Seq<char>, i: int) -> Seq<char>
    decreases s.len() - i,
    via stripped_from_decreases
{
    if i < 0 || i >= s.len() {
        Seq::empty()
    } else if escape_at(s, i) {
        stripped_from(s, escape_end(s, i))
    } else {
        seq![s[i]] + stripped_from(s, i + 1)
    }
}

#[via_fn]
proof fn stripped_from_decreases(s: Seq<char>, i: int) {
    lemma_params_end(s, i + 2);
}

/// A run of parameters ends where it begins or later.
proof fn lemma_params_end(s: Seq<char>, i: int)
    ensures
        i <= params_end(s, i),
        i <= s.len() ==> params_end(s, i) <= s.len(),
    decreases s.len() - i,
{
    if 0 <= i < s.len() && is_param(s[i]) {
        lemma_params_end(s, i + 1);
    }
}

/// `s` without its escapes.
pub open spec fn stripped(s: Seq<char>) -> Seq<char> {
    stripped_from(s, 0)
}

/// The end of the escape that begins at `i`, if one does.
fn find_escape_end(v: &Vec<char>, i: usize) -> (r: Option<usize>)
    requires
        i < v@.len(),
    ensures
        match r {
            Some(end) => escape_at(v@, i as int) && end == escape_end(v@, i as int) && end
                <= v@.len(),
            None => !escape_at(v@, i as int),
        },
{
    let n: usize = v.len();
    if v[i] != '\u{1b}' || n - i < 2 || v[i + 1] != '[' {
        return None;
    }
    let mut end: usize = i + 2;
    while end < n && (('0' <= v[end] && v[end] <= '9') || v[end] == ';')
        invariant
            n == v@.len(),
            i + 2 <= end <= n,
            params_end(v@, i + 2) == params_end(v@, end as int),
        decreases n - end,
    {
        end += 1;
    }
    if end < n && (('a' <= v[end] && v[end] <= 'z') || ('A' <= v[end] && v[end] <= 'Z')) {
        Some(end + 1)
    } else {
        None
    }
}

/// Removes the colour and style escapes from `s`.
pub fn strip_ansi(s: &str) -> (r: String)
    ensures
        r@ == stripped(s@),
{
    let v = chars_of(s);
    let mut out = String::new();
    let mut i: usize = 0;
    while i < v.len()
        invariant
            v@ == s@,
            i <= v@.len(),
            stripped(s@) == out@ + stripped_from(s@, i as int),
        decreases v@.len() - i,
    {
        match find_escape_end(&v, i) {
            Some(end) => {
                proof {
                    lemma_params_end(s@, i + 2);
                }
                i = end;
            },
            None => {
                let ghost before = out@;
                out.push(v[i]);
                assert(before + stripped_from(s@, i as int) =~= out@ + stripped_from(s@, i + 1));
                i += 1;
            },
        }
    }
    assert(out@ + stripped_from(s@, i as int) =~= out@);
    out
}

/// Text without an escape character is left as it is.
pub proof fn law_plain_text_is_kept(s: Seq<char>)
    requires
        !s.contains('\u{1b}'),
    ensures
        stripped(s) == s,
{
    lemma_plain_from(s, 0);
    assert(s.skip(0) =~= s);
}

proof fn lemma_plain_from(s: Seq<char>, i: int)
    requires
        !s.contains('\u{1b}'),
        0 <= i <= s.len(),
    ensures
        stripped_from(s, i) == s.skip(i),
    decreases s.len() - i,
{
    if i < s.len() {
        assert(s.contains(s[i]));
        lemma_plain_from(s, i + 1);
        assert(s.skip(i) =~= seq![s[i]] + s.skip(i + 1));
    } else {
        assert(s.skip(i) =~= Seq::empty());
    }
}

/// An escape is removed, and what stands before and after it is kept.
pub proof fn law_escape_is_removed(a: Seq<char>, params: Seq<char>, end: char, b: Seq<char>)
    requires
        !a.contains('\u{1b}'),
        forall|i: int|
            0 <= i < params.len() ==> '0' <= #[trigger] params[i] <= '9' || params[i] == ';',
        'a' <= end <= 'z' || 'A' <= end <= 'Z',
    ensures
        stripped(a + seq!['\u{1b}', '['] + params + seq![end] + b) == a + stripped(b),
{
    let s = seq!['\u{1b}', '['] + params + seq![end] + b;
    let before = seq!['\u{1b}', '['] + params + seq![end];
    let at = 2 + params.len();
    assert(a + seq!['\u{1b}', '['] + params + seq![end] + b =~= a + s);
    assert forall|i: int| 2 <= i < at implies is_param(#[trigger] s[i]) by {
        assert(s[i] == params[i - 2]);
    }
    assert(s[at as int] == end);
    lemma_params_end_at(s, 2, at as int);
    assert(escape_at(s, 0));
    assert(s =~= before + b);
    lemma_stripped_suffix(before, b, 0);
    assert(stripped(s) == stripped(b));
    lemma_stripped_prefix(a, s, 0);
    assert(a.skip(0) =~= a);
    lemma_stripped_suffix(a, s, 0);
}

/// An escape character that begins no escape is kept, and so is what stands
/// before it.
pub proof fn law_other_escape_is_kept(a: Seq<char>, b: Seq<char>)
    requires
        !a.contains('\u{1b}'),
        b.len() > 0 && b[0] == '[' ==> forall|k: int|
            1 <= k < b.len() && ('a' <= #[trigger] b[k] <= 'z' || 'A' <= b[k] <= 'Z')
                ==> exists|j: int|
                1 <= j < k && !('0' <= #[trigger] b[j] <= '9') && b[j] != ';',
    ensures
        stripped(a + seq!['\u{1b}'] + b) == a + seq!['\u{1b}'] + stripped(b),
{
    let s = seq!['\u{1b}'] + b;
    assert(a + seq!['\u{1b}'] + b =~= a + s);
    lemma_params_end(s, 2);
    let end = params_end(s, 2);
    if escape_at(s, 0) {
        assert(b[0] == s[1]);
        lemma_params_between(s, 2);
        assert(b[end - 1] == s[end]);
        let j = choose|j: int| 1 <= j < end - 1 && !('0' <= #[trigger] b[j] <= '9') && b[j] != ';';
        assert(s[j + 1] == b[j]);
        assert(is_param(s[j + 1]));
    }
    assert(stripped(s) == seq!['\u{1b}'] + stripped_from(s, 1));
    lemma_stripped_suffix(seq!['\u{1b}'], b, 0);
    lemma_stripped_prefix(a, s, 0);
    assert(a.skip(0) =~= a);
    lemma_stripped_suffix(a, s, 0);
    assert(a + (seq!['\u{1b}'] + stripped(b)) =~= a + seq!['\u{1b}'] + stripped(b));
}

proof fn lemma_params_between(s: Seq<char>, i: int)
    requires
        0 <= i,
    ensures
        forall|j: int| i <= j < params_end(s, i) ==> is_param(#[trigger] s[j]),
    decreases s.len() - i,
{
    if 0 <= i < s.len() && is_param(s[i]) {
        lemma_params_between(s, i + 1);
    }
}

proof fn lemma_params_end_at(s: Seq<char>, i: int, end: int)
    requires
        0 <= i <= end < s.len(),
        forall|j: int| i <= j < end ==> is_param(#[trigger] s[j]),
        !is_param(s[end]),
    ensures
        params_end(s, i) == end,
    decreases end - i,
{
    if i < end {
        assert(is_param(s[i]));
        lemma_params_end_at(s, i + 1, end);
    }
}

proof fn lemma_params_end_suffix(x: Seq<char>, y: Seq<char>, i: int)
    requires
        0 <= i,
    ensures
        params_end(x + y, x.len() + i) == x.len() + params_end(y, i),
    decreases y.len() - i,
{
    if i < y.len() {
        assert((x + y)[x.len() + i] == y[i]);
        if is_param(y[i]) {
            lemma_params_end_suffix(x, y, i + 1);
        }
    }
}

/// What is left of text from a position on depends on nothing before it.
proof fn lemma_stripped_suffix(x: Seq<char>, y: Seq<char>, i: int)
    requires
        0 <= i,
    ensures
        stripped_from(x + y, x.len() + i) == stripped_from(y, i),
    decreases y.len() - i,
{
    if i < y.len() {
        let at = x.len() + i;
        lemma_params_end_suffix(x, y, i + 2);
        lemma_params_end(y, i + 2);
        assert((x + y)[at] == y[i]);
        if i + 1 < y.len() {
            assert((x + y)[at + 1] == y[i + 1]);
        }
        let end = params_end(y, i + 2);
        if end < y.len() {
            assert((x + y)[x.len() + end] == y[end]);
        }
        assert(escape_at(x + y, at) == escape_at(y, i));
        if escape_at(y, i) {
            lemma_stripped_suffix(x, y, escape_end(y, i));
        } else {
            lemma_stripped_suffix(x, y, i + 1);
        }
    }
}

proof fn lemma_stripped_prefix(a: Seq<char>, s: Seq<char>, i: int)
    requires
        !a.contains('\u{1b}'),
        0 <= i <= a.len(),
    ensures
        stripped_from(a + s, i) == a.skip(i) + stripped_from(a + s, a.len() as int),
    decreases a.len() - i,
{
    if i < a.len() {
        assert(a.contains(a[i]));
        assert((a + s)[i] == a[i]);
        lemma_stripped_prefix(a, s, i + 1);
        assert(a.skip(i) =~= seq![a[i]] + a.skip(i + 1));
        assert(stripped_from(a + s, i) =~= a.skip(i) + stripped_from(a + s, a.len() as int));
    } else {
        assert(a.skip(i) =~= Seq::empty());
        assert(stripped_from(a + s, i) =~= a.skip(i) + stripped_from(a + s, a.len() as int));
    }
}

} // verus!
