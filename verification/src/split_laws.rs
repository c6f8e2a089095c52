//! What splitting an authored list promises, told by counting parentheses.

use crate::policy::{open_parens, top_level};
use crate::text::join;
use vstd::prelude::*;

verus! {

/// How often a character occurs in a text.
pub open spec fn count_of(s: Seq<char>, c: char) -> nat
    decreases s.len(),
{
    if s.len() == 0 {
        0
    } else {
        count_of(s.drop_last(), c) + if s.last() == c {
            1nat
        } else {
            0
        }
    }
}

/// How many more parentheses a text opens than it closes.
pub open spec fn excess(s: Seq<char>) -> int {
    count_of(s, '(') - count_of(s, ')')
}

/// Whether the parentheses of a text match: no prefix closes more than it opens,
/// and the whole closes all that it opens.
pub open spec fn balanced(s: Seq<char>) -> bool {
    &&& forall|i: int|
        0 <= i <= s.len() ==> count_of(#[trigger] s.take(i), '(') >= count_of(s.take(i), ')')
    &&& count_of(s, '(') == count_of(s, ')')
}

/// Whether a text can stand as one element of a list: its parentheses match, and
/// every comma of it stands where more are open than closed.
pub open spec fn list_element(s: Seq<char>) -> bool {
    &&& balanced(s)
    &&& forall|i: int|
        #![trigger s.take(i)]
        0 <= i < s.len() && s[i] == ',' ==> count_of(s.take(i), '(') > count_of(s.take(i), ')')
}

/// Whether a place in a text is inside parentheses: some stretch that ends there
/// opens more than it closes. A closing one without its opening one counts for
/// nothing, since the stretch can begin behind it.
pub open spec fn inside(s: Seq<char>, i: int) -> bool {
    exists|k: int| 0 <= k <= i && excess(#[trigger] s.subrange(k, i)) > 0
}

proof fn lemma_count_sum(a: Seq<char>, b: Seq<char>, c: char)
    ensures
        count_of(a + b, c) == count_of(a, c) + count_of(b, c),
    decreases b.len(),
{
    if b.len() > 0 {
        lemma_count_sum(a, b.drop_last(), c);
        assert((a + b).drop_last() == a + b.drop_last());
        assert((a + b).last() == b.last());
    } else {
        assert(a + b == a);
    }
}

/// The parentheses that are open behind a text are the greatest excess of a
/// stretch at its end.
proof fn lemma_open_is_greatest_excess(s: Seq<char>)
    ensures
        forall|k: int| 0 <= k <= s.len() ==> excess(#[trigger] s.skip(k)) <= open_parens(s),
        exists|k: int| 0 <= k <= s.len() && excess(#[trigger] s.skip(k)) == open_parens(s),
    decreases s.len(),
{
    if s.len() > 0 {
        let t = s.drop_last();
        let c = s.last();
        lemma_open_is_greatest_excess(t);
        assert forall|k: int| 0 <= k <= t.len() implies excess(#[trigger] s.skip(k)) == excess(
            t.skip(k),
        ) + (if c == '(' {
            1int
        } else if c == ')' {
            -1
        } else {
            0
        }) by {
            assert(s.skip(k).drop_last() == t.skip(k));
            assert(s.skip(k).last() == c);
        }
        let end = s.len() as int;
        assert(s.skip(end) == Seq::<char>::empty());
        assert(excess(s.skip(end)) == 0);
        let w = choose|k: int| 0 <= k <= t.len() && excess(#[trigger] t.skip(k)) == open_parens(t);
        assert(t.skip(t.len() as int) == Seq::<char>::empty());
        assert(excess(s.skip(w)) == open_parens(t) + (if c == '(' {
            1int
        } else if c == ')' {
            -1
        } else {
            0
        }));
        assert forall|k: int| 0 <= k <= s.len() implies excess(#[trigger] s.skip(k))
            <= open_parens(s) by {
            if k <= t.len() {
                assert(excess(t.skip(k)) <= open_parens(t));
            }
        }
    } else {
        assert(s.skip(0) == s);
    }
}

proof fn lemma_inside_is_open(s: Seq<char>, i: int)
    requires
        0 <= i <= s.len(),
    ensures
        inside(s, i) <==> open_parens(s.take(i)) > 0,
{
    let t = s.take(i);
    lemma_open_is_greatest_excess(t);
    if inside(s, i) {
        let k = choose|k: int| 0 <= k <= i && excess(#[trigger] s.subrange(k, i)) > 0;
        assert(t.skip(k) == s.subrange(k, i));
    }
    if open_parens(t) > 0 {
        let k = choose|k: int| 0 <= k <= t.len() && excess(#[trigger] t.skip(k)) == open_parens(t);
        assert(t.skip(k) == s.subrange(k, i));
    }
}

proof fn lemma_pieces_nonempty(s: Seq<char>)
    ensures
        top_level(s).len() > 0,
    decreases s.len(),
{
    if s.len() > 0 {
        lemma_pieces_nonempty(s.drop_last());
    }
}

proof fn lemma_split_behind(a: Seq<char>, b: Seq<char>)
    requires
        open_parens(a) == 0,
    ensures
        open_parens(a + seq![','] + b) == open_parens(b),
        top_level(a + seq![','] + b) == top_level(a) + top_level(b),
    decreases b.len(),
{
    let s = a + seq![','] + b;
    if b.len() > 0 {
        let t = b.drop_last();
        lemma_split_behind(a, t);
        lemma_pieces_nonempty(t);
        assert(s.drop_last() == a + seq![','] + t);
        assert(s.last() == b.last());
        let before = top_level(a) + top_level(t);
        assert(before.last() == top_level(t).last());
        assert(before.drop_last() == top_level(a) + top_level(t).drop_last());
        assert(top_level(s) == top_level(a) + top_level(b));
    } else {
        assert(s.drop_last() == a);
        assert(top_level(b) == seq![Seq::<char>::empty()]);
        assert(top_level(s) == top_level(a) + top_level(b));
    }
}

/// A comma that is not inside parentheses separates: the pieces of a text are
/// those before it and those behind it.
pub proof fn law_outside_commas_separate(s: Seq<char>, i: int)
    requires
        0 <= i < s.len(),
        s[i] == ',',
        !inside(s, i),
    ensures
        top_level(s) == top_level(s.take(i)) + top_level(s.skip(i + 1)),
{
    lemma_inside_is_open(s, i);
    lemma_split_behind(s.take(i), s.skip(i + 1));
    assert(s == s.take(i) + seq![','] + s.skip(i + 1));
}

/// A text all of whose commas are inside parentheses is one piece.
pub proof fn law_inside_commas_do_not_separate(s: Seq<char>)
    requires
        forall|i: int| 0 <= i < s.len() && s[i] == ',' ==> #[trigger] inside(s, i),
    ensures
        top_level(s) == seq![s],
    decreases s.len(),
{
    if s.len() > 0 {
        let t = s.drop_last();
        let end = s.len() - 1;
        assert forall|i: int| 0 <= i < t.len() && t[i] == ',' implies #[trigger] inside(t, i) by {
            assert(inside(s, i));
            let k = choose|k: int| 0 <= k <= i && excess(#[trigger] s.subrange(k, i)) > 0;
            assert(t.subrange(k, i) == s.subrange(k, i));
        }
        law_inside_commas_do_not_separate(t);
        if s.last() == ',' {
            assert(inside(s, end));
            lemma_inside_is_open(s, end);
            assert(s.take(end) == t);
        }
        assert(t.push(s.last()) == s);
        assert(seq![t].drop_last() == Seq::<Seq<char>>::empty());
        assert(top_level(s) == seq![s]);
    } else {
        assert(s == Seq::<char>::empty());
    }
}

proof fn lemma_element(s: Seq<char>)
    requires
        list_element(s),
    ensures
        open_parens(s) == 0,
        top_level(s) == seq![s],
{
    lemma_open_is_greatest_excess(s);
    let k = choose|k: int| 0 <= k <= s.len() && excess(#[trigger] s.skip(k)) == open_parens(s);
    assert(s == s.take(k) + s.skip(k));
    lemma_count_sum(s.take(k), s.skip(k), '(');
    lemma_count_sum(s.take(k), s.skip(k), ')');
    assert forall|i: int| 0 <= i < s.len() && s[i] == ',' implies #[trigger] inside(s, i) by {
        assert(s.subrange(0, i) == s.take(i));
        assert(excess(s.subrange(0, i)) > 0);
    }
    law_inside_commas_do_not_separate(s);
}

/// A list of elements, each with matching parentheses and with commas only
/// inside them, splits back into its elements: commas of an element's own
/// separate nothing, and those between the elements all do.
pub proof fn law_lists_split_into_their_elements(items: Seq<Seq<char>>)
    requires
        items.len() > 0,
        forall|i: int| 0 <= i < items.len() ==> list_element(#[trigger] items[i]),
    ensures
        top_level(join(items, seq![','])) == items,
{
    lemma_join_of_elements(items);
}

proof fn lemma_join_of_elements(items: Seq<Seq<char>>)
    requires
        items.len() > 0,
        forall|i: int| 0 <= i < items.len() ==> list_element(#[trigger] items[i]),
    ensures
        open_parens(join(items, seq![','])) == 0,
        top_level(join(items, seq![','])) == items,
    decreases items.len(),
{
    let last = items.last();
    assert(list_element(items[items.len() - 1]));
    lemma_element(last);
    if items.len() > 1 {
        let head = items.drop_last();
        assert forall|i: int| 0 <= i < head.len() implies list_element(#[trigger] head[i]) by {
            assert(head[i] == items[i]);
        }
        lemma_join_of_elements(head);
        lemma_split_behind(join(head, seq![',']), last);
        assert(head + seq![last] == items);
    } else {
        assert(items == seq![last]);
    }
}

/// Two elements with a comma between them split into the two.
pub proof fn law_two_elements_split(a: Seq<char>, b: Seq<char>)
    requires
        list_element(a),
        list_element(b),
    ensures
        top_level(a + seq![','] + b) == seq![a, b],
{
    lemma_element(a);
    lemma_element(b);
    lemma_split_behind(a, b);
    assert(seq![a] + seq![b] == seq![a, b]);
}

} // verus!
