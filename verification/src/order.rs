//! The order in which linkfiles stand in a set: that of their names, as
//! strings are ordered.

use vstd::prelude::*;

verus! {

/// How one name stands to another.
#[derive(Clone, Copy, Debug, PartialEq, Eq, Structural)]
pub enum Order {
    Before,
    Same,
    After,
}

/// Whether `a` and `b` hold the same characters below position `k`.
pub open spec fn agree_below(a: Seq<char>, b: Seq<char>, k: int) -> bool {
    forall|i: int| 0 <= i < k ==> a[i] == b[i]
}

/// Whether `a` and `b` part ways at position `k`, with `a` the smaller: up
/// to `k` they agree, and there `a` ends, or holds the smaller character.
pub open spec fn parts_before(a: Seq<char>, b: Seq<char>, k: int) -> bool {
    &&& 0 <= k <= a.len()
    &&& k < b.len()
    &&& agree_below(a, b, k)
    &&& (k == a.len() || (a[k] as u32) < (b[k] as u32))
}

/// Whether `a` comes before `b` in the order of strings: the order of the
/// first character in which they differ, a proper prefix first.
pub open spec fn precedes(a: Seq<char>, b: Seq<char>) -> bool {
    exists|k: int| parts_before(a, b, k)
}

/// No string comes before itself.
pub proof fn lemma_precedes_irreflexive(a: Seq<char>)
    ensures
        !precedes(a, a),
{
}

/// The order of strings is transitive.
pub proof fn lemma_precedes_transitive(a: Seq<char>, b: Seq<char>, c: Seq<char>)
    requires
        precedes(a, b),
        precedes(b, c),
    ensures
        precedes(a, c),
{
    let first = choose|k: int| parts_before(a, b, k);
    let second = choose|k: int| parts_before(b, c, k);
    let k = if first <= second {
        first
    } else {
        second
    };
    assert(parts_before(a, c, k));
}

/// Of two strings one comes before the other, unless they are equal.
pub proof fn lemma_precedes_asymmetric(a: Seq<char>, b: Seq<char>)
    requires
        precedes(a, b),
    ensures
        !precedes(b, a),
        a != b,
{
    let first = choose|k: int| parts_before(a, b, k);
    if precedes(b, a) {
        let second = choose|k: int| parts_before(b, a, k);
        assert(false);
    }
}

/// The characters of `text`.
pub fn characters(text: &str) -> (chars: Vec<char>)
    ensures
        chars@ == text@,
{
    let mut chars: Vec<char> = Vec::new();
    for c in it: text.chars()
        invariant
            it.seq() == text@,
            chars@ == text@.take(it.index() as int),
    {
        chars.push(c);
    }
    chars
}

/// How `a` stands to `b` in the order of strings.
pub fn compare(a: &str, b: &str) -> (order: Order)
    ensures
        order == Order::Before <==> precedes(a@, b@),
        order == Order::Same <==> a@ == b@,
        order == Order::After <==> precedes(b@, a@),
{
    let left = characters(a);
    let right = characters(b);
    let mut k: usize = 0;
    while k < left.len() && k < right.len()
        invariant
            left@ == a@,
            right@ == b@,
            k <= left.len(),
            k <= right.len(),
            agree_below(a@, b@, k as int),
        decreases left.len() - k,
    {
        if left[k] != right[k] {
            let x = left[k] as u32;
            let y = right[k] as u32;
            if x < y {
                proof {
                    assert(parts_before(a@, b@, k as int));
                    lemma_precedes_asymmetric(a@, b@);
                }
                return Order::Before;
            } else {
                proof {
                    vstd::utf8::char_u32_cast(left[k as int], x);
                    vstd::utf8::char_u32_cast(right[k as int], y);
                    assert(parts_before(b@, a@, k as int));
                    lemma_precedes_asymmetric(b@, a@);
                }
                return Order::After;
            }
        }
        k = k + 1;
    }
    if k < right.len() {
        proof {
            assert(parts_before(a@, b@, k as int));
            lemma_precedes_asymmetric(a@, b@);
        }
        Order::Before
    } else if k < left.len() {
        proof {
            assert(parts_before(b@, a@, k as int));
            lemma_precedes_asymmetric(b@, a@);
        }
        Order::After
    } else {
        proof {
            assert(a@ =~= b@);
            lemma_precedes_irreflexive(a@);
        }
        Order::Same
    }
}

} // verus!
