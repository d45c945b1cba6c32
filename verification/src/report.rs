//! Lists that are shown up to a limit.
use vstd::prelude::*;
use crate::text::{decimal, texts, to_decimal};

verus! {

/// The note that stands for `n` items that are not shown.
pub open spec fn more_note(before: Seq<char>, n: nat, after: Seq<char>) -> Seq<char> {
    before + decimal(n) + after
}

/// All of `items` when there are at most `max`; otherwise the first `max` and a
/// note that counts the rest.
pub open spec fn capped(
    items: Seq<Seq<char>>,
    max: nat,
    before: Seq<char>,
    after: Seq<char>,
) -> Seq<Seq<char>> {
    if items.len() <= max {
        items
    } else {
        items.take(max as int).push(more_note(before, (items.len() - max) as nat, after))
    }
}

/// Appends `line` to `out`.
pub fn push_line(out: &mut Vec<String>, line: String)
    ensures
        texts(final(out)@) == texts(old(out)@).push(line@),
{
    out.push(line);
    assert(texts(out@) =~= texts(old(out)@).push(line@));
}

/// Appends the first `n` of `items` to `out`.
fn push_first(out: &mut Vec<String>, items: &[String], n: usize)
    requires
        n <= items@.len(),
    ensures
        texts(final(out)@) == texts(old(out)@) + texts(items@).take(n as int),
{
    let ghost all = texts(items@);
    let mut i: usize = 0;
    assert(texts(out@) + all.take(0) =~= texts(out@));
    while i < n
        invariant
            i <= n <= items@.len(),
            all == texts(items@),
            texts(out@) == texts(old(out)@) + all.take(i as int),
        decreases n - i,
    {
        push_line(out, items[i].clone());
        i += 1;
        assert(texts(out@) =~= texts(old(out)@) + all.take(i as int));
    }
}

/// Appends `items` to `out`.
pub fn push_all(out: &mut Vec<String>, items: &[String])
    ensures
        texts(final(out)@) == texts(old(out)@) + texts(items@),
{
    assert(texts(items@).take(items@.len() as int) =~= texts(items@));
    push_first(out, items, items.len());
}

/// Appends `items` to `out`, up to `max` of them and a note on the rest.
pub fn push_capped(
    out: &mut Vec<String>,
    items: &[String],
    max: usize,
    before: &str,
    after: &str,
)
    ensures
        texts(final(out)@) == texts(old(out)@) + capped(
            texts(items@),
            max as nat,
            before@,
            after@,
        ),
{
    if items.len() <= max {
        push_all(out, items);
    } else {
        push_first(out, items, max);
        let mut note = before.to_owned();
        note.append(to_decimal(items.len() - max).as_str());
        note.append(after);
        push_line(out, note);
        assert(texts(out@) =~= texts(old(out)@) + capped(
            texts(items@),
            max as nat,
            before@,
            after@,
        ));
    }
}

/// A list that is shown up to a limit begins with its items, as many as the
/// limit allows, and the note counts exactly the items that are left out.
pub proof fn law_capped(items: Seq<Seq<char>>, max: nat, before: Seq<char>, after: Seq<char>)
    ensures
        capped(items, max, before, after).len() <= max + 1,
        items.len() <= max ==> capped(items, max, before, after) == items,
        items.len() > max ==> {
            &&& capped(items, max, before, after).len() == max + 1
            &&& capped(items, max, before, after).drop_last() == items.take(max as int)
            &&& capped(items, max, before, after).last() == before + decimal(
                (items.len() - max) as nat,
            ) + after
        },
{
    if items.len() > max {
        assert(capped(items, max, before, after).drop_last() =~= items.take(max as int));
    }
}

} // verus!
