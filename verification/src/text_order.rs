//! The order of texts, and sorted lists without repetition.

use vstd::prelude::*;
use vstd::string::*;

use crate::text::{chars_of, same_text};
use crate::text_map;

verus! {

/// Whether a text comes before another: by the first character in which they differ, and a part
/// before the whole. On strings this is the order of their UTF-8 bytes.
pub open spec fn before(a: Seq<char>, b: Seq<char>) -> bool
    decreases a.len(),
{
    if b.len() == 0 {
        false
    } else if a.len() == 0 {
        true
    } else if a[0] == b[0] {
        before(a.skip(1), b.skip(1))
    } else {
        (a[0] as int) < (b[0] as int)
    }
}

/// Whether each text of a list comes before the next.
pub open spec fn strictly_sorted(list: Seq<String>) -> bool {
    forall|i: int, j: int|
        0 <= i < j < list.len() ==> before((#[trigger] list[i])@, (#[trigger] list[j])@)
}

/// Of two texts one comes first, or they are the same.
pub proof fn lemma_total(a: Seq<char>, b: Seq<char>)
    ensures
        before(a, b) || before(b, a) || a == b,
    decreases a.len(),
{
    if a.len() == 0 || b.len() == 0 {
        assert(a.len() == 0 && b.len() == 0 ==> a =~= b);
    } else if a[0] == b[0] {
        lemma_total(a.skip(1), b.skip(1));
        if a.skip(1) == b.skip(1) {
            assert(a =~= seq![a[0]] + a.skip(1));
            assert(b =~= seq![b[0]] + b.skip(1));
        }
    }
}

/// What comes before a text comes before what that text comes before.
pub proof fn lemma_transitive(a: Seq<char>, b: Seq<char>, c: Seq<char>)
    requires
        before(a, b),
        before(b, c),
    ensures
        before(a, c),
    decreases a.len(),
{
    if a.len() > 0 && a[0] == b[0] && b[0] == c[0] {
        lemma_transitive(a.skip(1), b.skip(1), c.skip(1));
    }
}

/// Whether a text comes before another.
pub fn comes_before(a: &str, b: &str) -> (r: bool)
    ensures
        r == before(a@, b@),
{
    let left = chars_of(a);
    let right = chars_of(b);
    let mut i: usize = 0;
    proof {
        assert(a@.skip(0) =~= a@);
        assert(b@.skip(0) =~= b@);
    }
    while i < left.len() && i < right.len()
        invariant
            0 <= i <= left@.len(),
            i <= right@.len(),
            left@ == a@,
            right@ == b@,
            before(a@, b@) == before(a@.skip(i as int), b@.skip(i as int)),
        decreases left@.len() - i,
    {
        if left[i] != right[i] {
            return left[i] < right[i];
        }
        proof {
            assert(a@.skip(i as int).skip(1) =~= a@.skip(i as int + 1));
            assert(b@.skip(i as int).skip(1) =~= b@.skip(i as int + 1));
        }
        i = i + 1;
    }
    i < right.len()
}

/// Add a text to a sorted list, unless it is there.
pub fn insert_sorted(list: &mut Vec<String>, text: &str)
    requires
        strictly_sorted(old(list)@),
    ensures
        strictly_sorted(final(list)@),
        text_map::texts_set(final(list)@) == text_map::texts_set(old(list)@).insert(text@),
{
    let ghost start = list@;
    let mut i: usize = 0;
    while i < list.len() && comes_before(list[i].as_str(), text)
        invariant
            0 <= i <= list@.len(),
            list@ == start,
            forall|j: int| 0 <= j < i ==> before((#[trigger] start[j])@, text@),
        decreases list@.len() - i,
    {
        i = i + 1;
    }
    if i < list.len() && same_text(list[i].as_str(), text) {
        proof {
            assert(text_map::has_text(start, text@)) by {
                assert(start[i as int]@ == text@);
            }
            assert(text_map::texts_set(start) =~= text_map::texts_set(start).insert(text@));
        }
        return;
    }
    proof {
        if i < start.len() {
            lemma_total(start[i as int]@, text@);
            assert forall|j: int| i <= j < start.len() implies before(
                text@,
                (#[trigger] start[j])@,
            ) by {
                if j > i {
                    lemma_transitive(text@, start[i as int]@, start[j]@);
                }
            }
        }
    }
    list.insert(i, text.to_owned());
    proof {
        assert(list@[i as int]@ == text@);
        assert forall|x: int, y: int| 0 <= x < y < list@.len() implies before(
            (#[trigger] list@[x])@,
            (#[trigger] list@[y])@,
        ) by {
            if x < i {
                assert(list@[x] == start[x]);
            } else if x > i {
                assert(list@[x] == start[x - 1]);
            }
            if y < i {
                assert(list@[y] == start[y]);
            } else if y > i {
                assert(list@[y] == start[y - 1]);
            }
        }
        assert forall|t: Seq<char>| text_map::has_text(list@, t) == (t == text@
            || text_map::has_text(start, t)) by {
            if text_map::has_text(list@, t) {
                let k = choose|k: int| 0 <= k < list@.len() && (#[trigger] list@[k])@ == t;
                if k < i {
                    assert(start[k]@ == t);
                } else if k > i {
                    assert(start[k - 1]@ == t);
                }
            }
            if text_map::has_text(start, t) {
                let k = choose|k: int| 0 <= k < start.len() && (#[trigger] start[k])@ == t;
                if k < i {
                    assert(list@[k]@ == t);
                } else {
                    assert(list@[k + 1]@ == t);
                }
            }
        }
        assert(text_map::texts_set(list@) =~= text_map::texts_set(start).insert(text@));
    }
}

/// The texts of two lists, sorted, each once.
pub fn sorted_union(a: &Vec<String>, b: &Vec<String>) -> (r: Vec<String>)
    ensures
        strictly_sorted(r@),
        text_map::texts_set(r@) == text_map::texts_set(a@).union(text_map::texts_set(b@)),
{
    let mut r: Vec<String> = Vec::new();
    proof {
        assert(text_map::texts_set(r@) =~= text_map::texts_set(a@.take(0)));
    }
    let mut i: usize = 0;
    while i < a.len()
        invariant
            0 <= i <= a@.len(),
            strictly_sorted(r@),
            text_map::texts_set(r@) == text_map::texts_set(a@.take(i as int)),
        decreases a@.len() - i,
    {
        insert_sorted(&mut r, a[i].as_str());
        proof {
            text_map::lemma_texts_set_push(a@.take(i as int), a@[i as int]);
            assert(a@.take(i as int).push(a@[i as int]) =~= a@.take(i as int + 1));
        }
        i = i + 1;
    }
    proof {
        assert(a@.take(i as int) =~= a@);
        assert(text_map::texts_set(r@) =~= text_map::texts_set(a@).union(
            text_map::texts_set(b@.take(0)),
        ));
    }
    let mut k: usize = 0;
    while k < b.len()
        invariant
            0 <= k <= b@.len(),
            strictly_sorted(r@),
            text_map::texts_set(r@) == text_map::texts_set(a@).union(
                text_map::texts_set(b@.take(k as int)),
            ),
        decreases b@.len() - k,
    {
        let ghost earlier = r@;
        insert_sorted(&mut r, b[k].as_str());
        proof {
            text_map::lemma_texts_set_push(b@.take(k as int), b@[k as int]);
            assert(b@.take(k as int).push(b@[k as int]) =~= b@.take(k as int + 1));
            assert(text_map::texts_set(r@) =~= text_map::texts_set(a@).union(
                text_map::texts_set(b@.take(k as int + 1)),
            ));
        }
        k = k + 1;
    }
    proof {
        assert(b@.take(k as int) =~= b@);
    }
    r
}

/// Texts are ordered by the first character in which they differ, and a part comes before the whole.
pub proof fn lemma_first_difference_decides(
    start: Seq<char>,
    a: char,
    rest_a: Seq<char>,
    b: char,
    rest_b: Seq<char>,
)
    ensures
        a as int != b as int ==> (before(
            start + seq![a] + rest_a,
            start + seq![b] + rest_b,
        ) <==> (a as int) < (b as int)),
        before(start, start + seq![b] + rest_b),
        !before(start + seq![b] + rest_b, start),
        !before(start, start),
    decreases start.len(),
{
    let one = start + seq![a] + rest_a;
    let two = start + seq![b] + rest_b;
    if start.len() > 0 {
        let rest = start.skip(1);
        assert(one.skip(1) =~= rest + seq![a] + rest_a);
        assert(two.skip(1) =~= rest + seq![b] + rest_b);
        lemma_first_difference_decides(rest, a, rest_a, b, rest_b);
    }
}

} // verus!
