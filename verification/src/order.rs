//! Lexicographic order on character sequences.
//!
//! Storage keys are character strings; range listings must come back in
//! ascending key order, so the store needs a strict total order on keys,
//! together with an executable three-way comparison proved against it.

use vstd::prelude::*;

verus! {

/// Strict lexicographic order on character sequences, comparing scalar
/// values position by position; a proper prefix sorts before its extensions.
pub open spec fn seq_char_lt(a: Seq<char>, b: Seq<char>) -> bool
    decreases a.len(),
{
    if b.len() == 0 {
        false
    } else if a.len() == 0 {
        true
    } else if (a[0] as u32) < (b[0] as u32) {
        true
    } else if (a[0] as u32) > (b[0] as u32) {
        false
    } else {
        seq_char_lt(a.drop_first(), b.drop_first())
    }
}

/// Casting a character to its scalar value loses nothing: equal scalar
/// values mean equal characters.
pub proof fn lemma_char_cast_injective(c1: char, c2: char)
    requires
        c1 as u32 == c2 as u32,
    ensures
        c1 == c2,
{
    vstd::utf8::char_u32_cast(c1, c1 as u32);
    vstd::utf8::char_u32_cast(c2, c2 as u32);
}

/// The order is strict: a sequence is never below itself, and two
/// sequences cannot each be below the other.
pub proof fn lemma_seq_char_lt_asymmetric(a: Seq<char>, b: Seq<char>)
    ensures
        !(seq_char_lt(a, b) && seq_char_lt(b, a)),
        seq_char_lt(a, b) ==> a != b,
    decreases a.len(),
{
    if a.len() != 0 && b.len() != 0 && (a[0] as u32) == (b[0] as u32) {
        lemma_seq_char_lt_asymmetric(a.drop_first(), b.drop_first());
        if seq_char_lt(a, b) {
            assert(a.drop_first() != b.drop_first() ==> a != b) by {
                if a =~= b {
                    assert(a.drop_first() =~= b.drop_first());
                }
            }
        }
    } else if a.len() == 0 && seq_char_lt(a, b) {
        assert(a != b);
    }
}

/// The order is transitive.
pub proof fn lemma_seq_char_lt_transitive(a: Seq<char>, b: Seq<char>, c: Seq<char>)
    requires
        seq_char_lt(a, b),
        seq_char_lt(b, c),
    ensures
        seq_char_lt(a, c),
    decreases a.len() + b.len() + c.len(),
{
    if a.len() == 0 {
        assert(c.len() > 0);
    } else {
        assert(b.len() > 0 && c.len() > 0);
        if (a[0] as u32) == (b[0] as u32) && (b[0] as u32) == (c[0] as u32) {
            lemma_seq_char_lt_transitive(a.drop_first(), b.drop_first(), c.drop_first());
        }
    }
}

/// Relates a shared prefix of two sequences to the recursive definition of
/// the order: after `i` equal characters, the next position (or one side
/// running out) decides.
pub proof fn lemma_seq_char_lt_from_prefix(a: Seq<char>, b: Seq<char>, i: int)
    requires
        0 <= i <= a.len(),
        i <= b.len(),
        forall|j: int| 0 <= j < i ==> a[j] == b[j],
    ensures
        (i < a.len() && i < b.len() && (a[i] as u32) < (b[i] as u32)) ==> seq_char_lt(a, b),
        (i == a.len() && i < b.len()) ==> seq_char_lt(a, b),
        (i == a.len() && i == b.len()) ==> a == b,
    decreases i,
{
    if i == 0 {
        if a.len() == 0 && b.len() == 0 {
            assert(a =~= b);
        }
    } else {
        let a1 = a.drop_first();
        let b1 = b.drop_first();
        assert(forall|j: int| 0 <= j < i - 1 ==> a1[j] == b1[j]);
        lemma_seq_char_lt_from_prefix(a1, b1, i - 1);
        assert((a[0] as u32) == (b[0] as u32));
        if i == a.len() && i == b.len() {
            assert(a1 == b1);
            assert(a =~= b);
        }
    }
}

/// Three-way comparison of two strings under `seq_char_lt` on their
/// character sequences: `-1` when the first sorts below, `0` on equality,
/// `1` when it sorts above.
pub fn str_compare(a: &str, b: &str) -> (r: i8)
    ensures
        r == -1i8 || r == 0i8 || r == 1i8,
        r == -1i8 ==> seq_char_lt(a@, b@),
        r == 0i8 ==> a@ == b@,
        r == 1i8 ==> seq_char_lt(b@, a@),
{
    let la = a.unicode_len();
    let lb = b.unicode_len();
    let n = if la < lb {
        la
    } else {
        lb
    };
    let mut i: usize = 0;
    while i < n
        invariant
            0 <= i <= n,
            n <= la && n <= lb,
            la == a@.len() && lb == b@.len(),
            n == if la < lb { la } else { lb },
            forall|j: int| 0 <= j < i ==> a@[j] == b@[j],
        decreases n - i,
    {
        let ca = a.get_char(i);
        let cb = b.get_char(i);
        if (ca as u32) < (cb as u32) {
            proof {
                lemma_seq_char_lt_from_prefix(a@, b@, i as int);
            }
            return -1;
        }
        if (ca as u32) > (cb as u32) {
            proof {
                lemma_seq_char_lt_from_prefix(b@, a@, i as int);
            }
            return 1;
        }
        proof {
            lemma_char_cast_injective(ca, cb);
            assert(a@[i as int] == b@[i as int]);
        }
        i = i + 1;
    }
    if la < lb {
        proof {
            lemma_seq_char_lt_from_prefix(a@, b@, la as int);
        }
        -1
    } else if lb < la {
        proof {
            lemma_seq_char_lt_from_prefix(b@, a@, lb as int);
        }
        1
    } else {
        proof {
            lemma_seq_char_lt_from_prefix(a@, b@, la as int);
        }
        0
    }
}

} // verus!
