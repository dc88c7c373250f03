//! Asset identity: a native currency denomination or a token-contract
//! address.
//!
//! Together with the beneficiary address, the asset forms the storage key
//! of a vesting account. The two kinds map to disjoint keys: the key is
//! the asset's string tagged with a leading character per kind, so a
//! native denomination can never collide with a contract address that
//! happens to spell the same.

use vstd::prelude::*;

use crate::order::{lemma_char_cast_injective, seq_char_lt, str_compare};

verus! {

use vstd::string::StringExecFns;

/// An asset: a native currency denomination or a token contract address.
#[derive(Debug, PartialEq)]
pub enum Denom {
    Native(String),
    Cw20(String),
}

impl Clone for Denom {
    /// Copies the asset; the copy equals the original.
    fn clone(&self) -> (res: Self)
        ensures
            res == *self,
    {
        match self {
            Denom::Native(s) => Denom::Native(s.clone()),
            Denom::Cw20(s) => Denom::Cw20(s.clone()),
        }
    }
}

/// The storage key of an asset: its string prefixed with a character that
/// is distinct per kind, making the two kinds' keys disjoint.
pub open spec fn denom_key(d: Denom) -> Seq<char> {
    match d {
        Denom::Native(s) => seq!['n'] + s@,
        Denom::Cw20(s) => seq!['c'] + s@,
    }
}

/// How tagged keys compare: the tag decides first, then the tail, and a
/// whole key determines its parts.
pub proof fn lemma_tagged_key(c1: char, s1: Seq<char>, c2: char, s2: Seq<char>)
    ensures
        (seq![c1] + s1 == seq![c2] + s2) <==> (c1 == c2 && s1 == s2),
        (c1 as u32) < (c2 as u32) ==> seq_char_lt(seq![c1] + s1, seq![c2] + s2),
        c1 == c2 ==> seq_char_lt(seq![c1] + s1, seq![c2] + s2) == seq_char_lt(s1, s2),
{
    let a = seq![c1] + s1;
    let b = seq![c2] + s2;
    assert(a[0] == c1);
    assert(b[0] == c2);
    assert(a.drop_first() =~= s1);
    assert(b.drop_first() =~= s2);
    if a == b {
        assert(c1 == c2 && s1 == s2);
    }
    if c1 == c2 && s1 == s2 {
        assert(a =~= b);
    }
    if c1 == c2 {
        lemma_char_cast_injective(c1, c2);
    }
}

/// Keys determine assets: two assets have the same key exactly when they
/// are the same kind with the same string.
pub proof fn lemma_denom_key_injective(a: Denom, b: Denom)
    ensures
        (denom_key(a) == denom_key(b)) <==> (match (a, b) {
            (Denom::Native(x), Denom::Native(y)) => x@ == y@,
            (Denom::Cw20(x), Denom::Cw20(y)) => x@ == y@,
            _ => false,
        }),
{
    match (a, b) {
        (Denom::Native(x), Denom::Native(y)) => {
            lemma_tagged_key('n', x@, 'n', y@);
        },
        (Denom::Cw20(x), Denom::Cw20(y)) => {
            lemma_tagged_key('c', x@, 'c', y@);
        },
        (Denom::Native(x), Denom::Cw20(y)) => {
            lemma_tagged_key('n', x@, 'c', y@);
        },
        (Denom::Cw20(x), Denom::Native(y)) => {
            lemma_tagged_key('c', x@, 'n', y@);
        },
    }
}

/// The storage key of an asset, as a string.
pub fn denom_to_key(d: &Denom) -> (r: String)
    ensures
        r@ == denom_key(*d),
{
    proof {
        reveal_strlit("n");
        reveal_strlit("c");
    }
    match d {
        Denom::Native(s) => {
            let r = String::from_str("n").concat(s.as_str());
            proof {
                assert(r@ =~= seq!['n'] + s@);
            }
            r
        },
        Denom::Cw20(s) => {
            let r = String::from_str("c").concat(s.as_str());
            proof {
                assert(r@ =~= seq!['c'] + s@);
            }
            r
        },
    }
}

/// Whether two assets have the same storage key (same kind and string).
pub fn denom_eq(a: &Denom, b: &Denom) -> (r: bool)
    ensures
        r == (denom_key(*a) == denom_key(*b)),
{
    proof {
        lemma_denom_key_injective(*a, *b);
    }
    match (a, b) {
        (Denom::Native(x), Denom::Native(y)) => x.eq(y),
        (Denom::Cw20(x), Denom::Cw20(y)) => x.eq(y),
        _ => false,
    }
}

/// Three-way comparison of two assets by storage key: `-1` when the first
/// key sorts below, `0` on equal keys, `1` when it sorts above.
pub fn denom_compare(a: &Denom, b: &Denom) -> (r: i8)
    ensures
        r == -1i8 || r == 0i8 || r == 1i8,
        r == -1i8 ==> seq_char_lt(denom_key(*a), denom_key(*b)),
        r == 0i8 ==> denom_key(*a) == denom_key(*b),
        r == 1i8 ==> seq_char_lt(denom_key(*b), denom_key(*a)),
{
    match (a, b) {
        (Denom::Native(x), Denom::Native(y)) => {
            proof {
                lemma_tagged_key('n', x@, 'n', y@);
                lemma_tagged_key('n', y@, 'n', x@);
            }
            str_compare(x.as_str(), y.as_str())
        },
        (Denom::Cw20(x), Denom::Cw20(y)) => {
            proof {
                lemma_tagged_key('c', x@, 'c', y@);
                lemma_tagged_key('c', y@, 'c', x@);
            }
            str_compare(x.as_str(), y.as_str())
        },
        (Denom::Cw20(x), Denom::Native(y)) => {
            proof {
                lemma_tagged_key('c', x@, 'n', y@);
            }
            -1
        },
        (Denom::Native(x), Denom::Cw20(y)) => {
            proof {
                lemma_tagged_key('c', y@, 'n', x@);
            }
            1
        },
    }
}

} // verus!
