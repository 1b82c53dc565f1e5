//! The edit distance between two texts.

use crate::number::{decimal, push_decimal};
use crate::text::chars_of;
use vstd::prelude::*;

verus! {

/// The least of three numbers.
pub open spec fn min3(x: nat, y: nat, z: nat) -> nat {
    if x <= y && x <= z {
        x
    } else if y <= z {
        y
    } else {
        z
    }
}

/// The edit distance between `a` and `b`. It is the length of the other text
/// where one is empty; else the least of three: the distance without the last
/// character of `a`, plus 1; the distance without the last character of `b`,
/// plus 1; and the distance without both, plus 1 where the two last characters
/// differ.
pub open spec fn distance(a: Seq<char>, b: Seq<char>) -> nat
    decreases a.len() + b.len(),
{
    if a.len() == 0 {
        b.len()
    } else if b.len() == 0 {
        a.len()
    } else {
        min3(
            distance(a.drop_last(), b) + 1,
            distance(a, b.drop_last()) + 1,
            distance(a.drop_last(), b.drop_last()) + if a.last() == b.last() {
                0nat
            } else {
                1nat
            },
        )
    }
}

/// The distance is at most the length of the longer text.
pub proof fn lemma_distance_bound(a: Seq<char>, b: Seq<char>)
    ensures
        distance(a, b) <= a.len() || distance(a, b) <= b.len(),
    decreases a.len() + b.len(),
{
    if a.len() > 0 && b.len() > 0 {
        lemma_distance_bound(a.drop_last(), b.drop_last());
    }
}

/// The numbers from 0 to `n`. A vector holds them, so `n + 1` fits `usize`.
fn count_up(n: usize) -> (v: Vec<usize>)
    ensures
        v@.len() == n + 1 <= usize::MAX,
        forall|k: int| 0 <= k <= n ==> v@[k] == k,
{
    let mut v: Vec<usize> = Vec::new();
    let mut k: usize = 0;
    while k < n
        invariant
            k <= n,
            v@.len() == k,
            forall|j: int| 0 <= j < k ==> v@[j] == j,
        decreases n - k,
    {
        v.push(k);
        k += 1;
    }
    v.push(n);
    let total: usize = v.len();
    assert(total == n + 1);
    v
}

/// The edit distance between `a` and `b`, counted in characters.
pub fn levenshtein(a: &str, b: &str) -> (d: usize)
    ensures
        d == distance(a@, b@),
{
    let a_chars = chars_of(a);
    let b_chars = chars_of(b);
    let m: usize = a_chars.len();
    let n: usize = b_chars.len();
    let column = count_up(m);
    let mut row = count_up(n);
    assert(a@.take(0) =~= Seq::<char>::empty());
    let mut i: usize = 0;
    while i < m
        invariant
            i <= m == a@.len(),
            n == b@.len(),
            m < usize::MAX && n < usize::MAX,
            a_chars@ == a@,
            b_chars@ == b@,
            column@.len() == m + 1,
            forall|k: int| 0 <= k <= m ==> column@[k] == k,
            row@.len() == n + 1,
            forall|k: int| 0 <= k <= n ==> row@[k] == distance(a@.take(i as int), b@.take(k)),
        decreases m - i,
    {
        let ghost upper = a@.take(i as int);
        let ghost lower = a@.take(i + 1);
        assert(lower.drop_last() =~= upper);
        let mut next: Vec<usize> = Vec::new();
        next.push(column[i + 1]);
        assert(b@.take(0) =~= Seq::<char>::empty());
        let mut j: usize = 0;
        while j < n
            invariant
                i < m == a@.len(),
                j <= n == b@.len(),
                m < usize::MAX && n < usize::MAX,
                a_chars@ == a@,
                b_chars@ == b@,
                upper == a@.take(i as int),
                lower == a@.take(i + 1),
                lower.drop_last() == upper,
                row@.len() == n + 1,
                forall|k: int| 0 <= k <= n ==> row@[k] == distance(upper, b@.take(k)),
                next@.len() == j + 1,
                forall|k: int| 0 <= k <= j ==> next@[k] == distance(lower, b@.take(k)),
            decreases n - j,
        {
            let cost: usize = if a_chars[i] == b_chars[j] {
                0
            } else {
                1
            };
            proof {
                let short = b@.take(j as int);
                let long = b@.take(j + 1);
                assert(long.drop_last() =~= short);
                assert(long.last() == b@[j as int]);
                assert(lower.last() == a@[i as int]);
                lemma_distance_bound(upper, long);
                lemma_distance_bound(lower, short);
                lemma_distance_bound(upper, short);
            }
            let above: usize = row[j + 1] + 1;
            let left: usize = next[j] + 1;
            let diagonal: usize = row[j] + cost;
            let least: usize = if above <= left && above <= diagonal {
                above
            } else if left <= diagonal {
                left
            } else {
                diagonal
            };
            next.push(least);
            j += 1;
        }
        row = next;
        i += 1;
    }
    assert(a@.take(m as int) =~= a@);
    assert(b@.take(n as int) =~= b@);
    row[n]
}

/// The reply of the distance command: the distance in decimal.
pub fn run(a: &str, b: &str) -> (reply: String)
    ensures
        reply@ == decimal(distance(a@, b@)),
{
    let mut reply = String::new();
    push_decimal(&mut reply, levenshtein(a, b) as u64);
    assert(reply@ =~= decimal(distance(a@, b@)));
    reply
}

} // verus!
