//! Character-level helpers: splitting text into characters, Unicode
//! whitespace, ASCII case folding and the edit distance used to score guesses.

use vstd::prelude::*;

verus! {

/// The characters of `s`, in order.
pub fn chars_of(s: &str) -> (r: Vec<char>)
    ensures
        r@ == s@,
{
    let mut r: Vec<char> = Vec::new();
    for c in it: s.chars()
        invariant
            it.seq() == s@,
            r@ == it.seq().take(it.index() as int),
    {
        r.push(c);
    }
    proof {
        assert(r@ == s@.take(s@.len() as int));
    }
    r
}


/// Unicode's White_Space property, as `char::is_whitespace` documents it.
pub open spec fn is_white_space(c: char) -> bool {
    let u = c as u32;
    (0x09 <= u && u <= 0x0D) || u == 0x20 || u == 0x85 || u == 0xA0 || u == 0x1680 || (0x2000
        <= u && u <= 0x200A) || u == 0x2028 || u == 0x2029 || u == 0x202F || u == 0x205F || u
        == 0x3000
}

pub fn is_white_space_char(c: char) -> (r: bool)
    ensures
        r == is_white_space(c),
{
    let u = c as u32;
    (0x09 <= u && u <= 0x0D) || u == 0x20 || u == 0x85 || u == 0xA0 || u == 0x1680 || (0x2000
        <= u && u <= 0x200A) || u == 0x2028 || u == 0x2029 || u == 0x202F || u == 0x205F || u
        == 0x3000
}

/// The code of `c` with ASCII upper-case letters mapped to lower case.
pub open spec fn folded_code(c: char) -> u32 {
    let u = c as u32;
    if 65 <= u && u <= 90 {
        (u + 32) as u32
    } else {
        u
    }
}

/// Equality of characters up to ASCII case.
pub open spec fn same_ignoring_case(a: char, b: char) -> bool {
    folded_code(a) == folded_code(b)
}

pub fn chars_eq_ignore_case(a: char, b: char) -> (r: bool)
    ensures
        r == same_ignoring_case(a, b),
{
    let x = a as u32;
    let y = b as u32;
    let fx: u32 = if 65 <= x && x <= 90 { x + 32 } else { x };
    let fy: u32 = if 65 <= y && y <= 90 { y + 32 } else { y };
    fx == fy
}

pub open spec fn min3(x: nat, y: nat, z: nat) -> nat {
    if x <= y && x <= z {
        x
    } else if y <= z {
        y
    } else {
        z
    }
}

/// Edit distance between `a` and `b` (insertions, deletions and
/// substitutions, each of cost one), comparing characters up to ASCII case.
pub open spec fn edit_distance(a: Seq<char>, b: Seq<char>) -> nat
    decreases a.len() + b.len(),
{
    if a.len() == 0 {
        b.len()
    } else if b.len() == 0 {
        a.len()
    } else if same_ignoring_case(a.last(), b.last()) {
        edit_distance(a.drop_last(), b.drop_last())
    } else {
        1 + min3(
            edit_distance(a.drop_last(), b),
            edit_distance(a, b.drop_last()),
            edit_distance(a.drop_last(), b.drop_last()),
        )
    }
}

pub proof fn lemma_edit_distance_bound(a: Seq<char>, b: Seq<char>)
    ensures
        edit_distance(a, b) <= if a.len() >= b.len() { a.len() } else { b.len() },
    decreases a.len() + b.len(),
{
    if a.len() > 0 && b.len() > 0 {
        lemma_edit_distance_bound(a.drop_last(), b.drop_last());
        lemma_edit_distance_bound(a.drop_last(), b);
        lemma_edit_distance_bound(a, b.drop_last());
    }
}

/// The distance is zero exactly when the two texts agree up to ASCII case.
pub proof fn lemma_edit_distance_zero(a: Seq<char>, b: Seq<char>)
    ensures
        edit_distance(a, b) == 0 <==> (a.len() == b.len() && forall|i: int|
            0 <= i < a.len() ==> same_ignoring_case(#[trigger] a[i], b[i])),
    decreases a.len() + b.len(),
{
    if a.len() > 0 && b.len() > 0 {
        lemma_edit_distance_zero(a.drop_last(), b.drop_last());
        if same_ignoring_case(a.last(), b.last()) {
            if a.len() == b.len() && forall|i: int|
                0 <= i < a.len() - 1 ==> same_ignoring_case(#[trigger] a.drop_last()[i], b.drop_last()[i]) {
                assert forall|i: int| 0 <= i < a.len() implies same_ignoring_case(#[trigger] a[i], b[i]) by {
                    if i < a.len() - 1 {
                        assert(a.drop_last()[i] == a[i]);
                        assert(b.drop_last()[i] == b[i]);
                    }
                }
            }
            if a.len() == b.len() && forall|i: int|
                0 <= i < a.len() ==> same_ignoring_case(#[trigger] a[i], b[i]) {
                assert forall|i: int| 0 <= i < a.len() - 1 implies same_ignoring_case(
                    #[trigger] a.drop_last()[i],
                    b.drop_last()[i],
                ) by {
                    assert(same_ignoring_case(a[i], b[i]));
                }
            }
        } else {
            if a.len() == b.len() {
                assert(!same_ignoring_case(a[a.len() - 1], b[a.len() - 1]));
            }
        }
    } else if a.len() == 0 && b.len() > 0 {
    } else if a.len() > 0 {
    }
}

/// Case-insensitive edit distance between `a` and `b`.
pub fn levenshtein_distance(a: &str, b: &str) -> (r: usize)
    ensures
        r == edit_distance(a@, b@),
{
    let w1 = chars_of(a);
    let w2 = chars_of(b);
    let n1 = w1.len();
    let n2 = w2.len();
    let ghost s1 = w1@;
    let ghost s2 = w2@;
    let mut prev: Vec<usize> = Vec::new();
    for i in 0..n1
        invariant
            n1 == s1.len(),
            prev.len() == i,
            forall|k: int| 0 <= k < i ==> #[trigger] prev[k] == edit_distance(s1.take(k), s2.take(0)),
    {
        proof {
            assert(s2.take(0).len() == 0);
        }
        prev.push(i);
    }
    proof {
        assert(s2.take(0).len() == 0);
    }
    prev.push(n1);
    let mut j: usize = 0;
    while j < n2
        invariant
            n1 == s1.len(),
            n2 == s2.len(),
            w1@ == s1,
            w2@ == s2,
            0 <= j <= n2,
            prev.len() == n1 + 1,
            forall|k: int| 0 <= k <= n1 ==> #[trigger] prev[k] == edit_distance(s1.take(k), s2.take(j as int)),
        decreases n2 - j,
    {
        let mut cur: Vec<usize> = Vec::new();
        proof {
            assert(s1.take(0).len() == 0);
        }
        cur.push(j + 1);
        let mut i: usize = 0;
        while i < n1
            invariant
                n1 == s1.len(),
                n2 == s2.len(),
                w1@ == s1,
                w2@ == s2,
                0 <= j < n2,
                0 <= i <= n1,
                prev.len() == n1 + 1,
                cur.len() == i + 1,
                forall|k: int| 0 <= k <= n1 ==> #[trigger] prev[k] == edit_distance(s1.take(k), s2.take(j as int)),
                forall|k: int| 0 <= k <= i ==> #[trigger] cur[k] == edit_distance(s1.take(k), s2.take(j + 1)),
            decreases n1 - i,
        {
            let ghost x1 = s1.take(i + 1);
            let ghost x2 = s2.take(j + 1);
            proof {
                assert(x1.drop_last() == s1.take(i as int));
                assert(x2.drop_last() == s2.take(j as int));
                assert(x1.last() == s1[i as int]);
                assert(x2.last() == s2[j as int]);
                lemma_edit_distance_bound(x1.drop_last(), x2);
                lemma_edit_distance_bound(x1, x2.drop_last());
                lemma_edit_distance_bound(x1.drop_last(), x2.drop_last());
            }
            let x: usize = if chars_eq_ignore_case(w1[i], w2[j]) {
                prev[i]
            } else {
                let left = cur[i];
                let up = prev[i + 1];
                let diag = prev[i];
                let m = if left <= up && left <= diag {
                    left
                } else if up <= diag {
                    up
                } else {
                    diag
                };
                1 + m
            };
            cur.push(x);
            i = i + 1;
        }
        prev = cur;
        j = j + 1;
    }
    proof {
        assert(s1.take(n1 as int) == s1);
        assert(s2.take(n2 as int) == s2);
    }
    prev[n1]
}

} // verus!
