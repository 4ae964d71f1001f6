//! The bracket structure of a stream: which `[` is open where, which `]`
//! closes which `[`, and what makes a stream malformed.

use vstd::prelude::*;
use crate::ops::{op_of, Op};

verus! {

/// The positions of the `[` that are open after the first `n` tokens,
/// innermost last; `None` where one of the tokens is a `]` with none open.
pub open spec fn opens(s: Seq<u8>, n: nat) -> Option<Seq<nat>>
    decreases n,
{
    if n == 0 {
        Some(Seq::empty())
    } else {
        match opens(s, (n - 1) as nat) {
            None => None,
            Some(st) => match op_of(s[n - 1]) {
                Op::Open => Some(st.push((n - 1) as nat)),
                Op::Close => if st.len() > 0 {
                    Some(st.drop_last())
                } else {
                    None
                },
                _ => Some(st),
            },
        }
    }
}

/// Every `]` closes a loop and every loop is closed.
pub open spec fn balanced(s: Seq<u8>) -> bool {
    opens(s, s.len()) == Some(Seq::<nat>::empty())
}

/// The `]` at `j` closes the loop that the `[` at `i` opens.
pub open spec fn pairs(s: Seq<u8>, i: nat, j: nat) -> bool {
    &&& j < s.len()
    &&& op_of(s[j as int]) == Op::Close
    &&& opens(s, j).is_some()
    &&& opens(s, j).unwrap().len() > 0
    &&& opens(s, j).unwrap().last() == i
}

/// The position of the `[` that the `]` at `j` closes.
pub open spec fn opener(s: Seq<u8>, j: nat) -> nat {
    opens(s, j).unwrap().last()
}

/// The position of the `]` that closes the `[` at `i`.
pub open spec fn closer(s: Seq<u8>, i: nat) -> nat {
    choose|j: nat| pairs(s, i, j)
}

/// Why a stream has no translation.
#[derive(Clone, Copy, Debug, PartialEq, Eq, Structural)]
pub enum StructuralError {
    /// A `]` at this position closes no loop.
    StrayClose { at: usize },
    /// The `[` at this position is never closed.
    UnclosedOpen { at: usize },
}

/// Whether the token at position `i` is a `]` with no loop open.
pub open spec fn stray_at(s: Seq<u8>, i: nat) -> bool {
    i < s.len() && opens(s, i).is_some() && opens(s, i + 1).is_none()
}

/// What is wrong with the structure of a stream, if anything: the first `]`
/// that closes no loop; failing that, the outermost `[` that is never closed.
pub open spec fn structure(s: Seq<u8>) -> Result<(), StructuralError> {
    if exists|i: nat| stray_at(s, i) {
        Err(StructuralError::StrayClose { at: (choose|i: nat| stray_at(s, i)) as usize })
    } else if opens(s, s.len()).unwrap().len() > 0 {
        Err(StructuralError::UnclosedOpen { at: opens(s, s.len()).unwrap()[0] as usize })
    } else {
        Ok(())
    }
}

/// What is known of the open positions after `n` tokens: each is the position
/// of a `[` among the first `n` tokens, and they increase.
pub proof fn lemma_opens_sorted(s: Seq<u8>, n: nat)
    requires
        n <= s.len(),
        opens(s, n).is_some(),
    ensures
        forall|k: int|
            0 <= k < opens(s, n).unwrap().len() ==> (#[trigger] opens(s, n).unwrap()[k]) < n
                && op_of(s[opens(s, n).unwrap()[k] as int]) == Op::Open,
        forall|j: int, k: int|
            0 <= j < k < opens(s, n).unwrap().len() ==> opens(s, n).unwrap()[j] < opens(
                s,
                n,
            ).unwrap()[k],
    decreases n,
{
    if n > 0 {
        lemma_opens_sorted(s, (n - 1) as nat);
    }
}

/// Where the open positions are known after `j` tokens, they are known after
/// any smaller number of tokens.
pub proof fn lemma_opens_some_before(s: Seq<u8>, i: nat, j: nat)
    requires
        opens(s, j).is_some(),
        i <= j,
    ensures
        opens(s, i).is_some(),
    decreases j,
{
    if i < j {
        lemma_opens_some_before(s, i, (j - 1) as nat);
    }
}

/// A loop that has been closed stays closed: after the `]` at `j` that pairs
/// with `i`, no open position lies in `i ..= j`.
pub proof fn lemma_closed_stays_closed(s: Seq<u8>, i: nat, j: nat, n: nat)
    requires
        pairs(s, i, j),
        j < n <= s.len(),
        opens(s, n).is_some(),
    ensures
        forall|k: int|
            0 <= k < opens(s, n).unwrap().len() ==> (#[trigger] opens(s, n).unwrap()[k]) < i
                || opens(s, n).unwrap()[k] > j,
    decreases n,
{
    lemma_opens_sorted(s, j);
    if n == j + 1 {
        let st = opens(s, j).unwrap();
        assert(opens(s, n) == Some(st.drop_last()));
    } else {
        lemma_opens_some_before(s, (n - 1) as nat, n);
        lemma_closed_stays_closed(s, i, j, (n - 1) as nat);
    }
}

/// At most one `]` pairs with a given `[`.
pub proof fn law_pairs_unique(s: Seq<u8>, i: nat, j1: nat, j2: nat)
    requires
        pairs(s, i, j1),
        pairs(s, i, j2),
    ensures
        j1 == j2,
{
    lemma_opens_sorted(s, j1);
    lemma_opens_sorted(s, j2);
    if j1 < j2 {
        lemma_closed_stays_closed(s, i, j1, j2);
        let st = opens(s, j2).unwrap();
        let k = st.len() - 1;
        assert(st[k] < i || st[k] > j1);
        assert(opens(s, j1).unwrap()[opens(s, j1).unwrap().len() - 1] < j1);
    } else if j2 < j1 {
        lemma_closed_stays_closed(s, i, j2, j1);
        let st = opens(s, j1).unwrap();
        let k = st.len() - 1;
        assert(st[k] < i || st[k] > j2);
        assert(opens(s, j2).unwrap()[opens(s, j2).unwrap().len() - 1] < j2);
    }
}

/// A `[` that is open after `n` tokens of a balanced stream is closed by a
/// later `]`.
pub proof fn lemma_open_gets_closed(s: Seq<u8>, i: nat, n: nat)
    requires
        balanced(s),
        n <= s.len(),
        opens(s, n).is_some(),
        opens(s, n).unwrap().contains(i),
    ensures
        exists|j: nat| n <= j && pairs(s, i, j),
    decreases s.len() - n,
{
    let st = opens(s, n).unwrap();
    if n == s.len() {
        assert(st.len() == 0);
        let k = choose|k: int| 0 <= k < st.len() && st[k] == i;
    } else {
        lemma_opens_some_before(s, n + 1, s.len());
        let k = choose|k: int| 0 <= k < st.len() && st[k] == i;
        let next = opens(s, n + 1).unwrap();
        if op_of(s[n as int]) == Op::Close && k == st.len() - 1 {
            assert(pairs(s, i, n));
        } else {
            assert(next[k] == i);
            lemma_open_gets_closed(s, i, n + 1);
        }
    }
}

/// In a balanced stream every `[` has its `]`, and it comes later.
pub proof fn lemma_closer_pairs(s: Seq<u8>, i: nat)
    requires
        balanced(s),
        i < s.len(),
        op_of(s[i as int]) == Op::Open,
    ensures
        pairs(s, i, closer(s, i)),
        i < closer(s, i) < s.len(),
{
    lemma_opens_some_before(s, i + 1, s.len());
    let st = opens(s, i).unwrap();
    assert(opens(s, i + 1) == Some(st.push(i)));
    assert(st.push(i)[st.len() as int] == i);
    lemma_open_gets_closed(s, i, i + 1);
    let j = closer(s, i);
    lemma_opens_sorted(s, j);
    assert(opens(s, j).unwrap()[opens(s, j).unwrap().len() - 1] < j);
}

/// In a balanced stream every `]` has its `[`, and it comes earlier.
pub proof fn lemma_opener_pairs(s: Seq<u8>, j: nat)
    requires
        balanced(s),
        j < s.len(),
        op_of(s[j as int]) == Op::Close,
    ensures
        pairs(s, opener(s, j), j),
        opener(s, j) < j,
        op_of(s[opener(s, j) as int]) == Op::Open,
{
    lemma_opens_some_before(s, j + 1, s.len());
    lemma_opens_sorted(s, j);
}

/// Once a `]` has closed no loop, the open positions stay unknown.
pub proof fn lemma_opens_none_stays(s: Seq<u8>, i: nat, j: nat)
    requires
        opens(s, i).is_none(),
        i <= j,
    ensures
        opens(s, j).is_none(),
    decreases j,
{
    if j > i {
        lemma_opens_none_stays(s, i, (j - 1) as nat);
    }
}

/// At most one position is a stray `]` in the sense of `stray_at`.
pub proof fn lemma_stray_unique(s: Seq<u8>, i: nat, j: nat)
    requires
        stray_at(s, i),
        stray_at(s, j),
    ensures
        i == j,
{
    if i < j {
        lemma_opens_none_stays(s, i + 1, j);
    } else if j < i {
        lemma_opens_none_stays(s, j + 1, i);
    }
}

/// Where no position is a stray `]`, the open positions are known at every
/// point.
pub proof fn lemma_no_stray_opens(s: Seq<u8>, n: nat)
    requires
        forall|i: nat| !stray_at(s, i),
        n <= s.len(),
    ensures
        opens(s, n).is_some(),
    decreases n,
{
    if n > 0 {
        lemma_no_stray_opens(s, (n - 1) as nat);
        assert(!stray_at(s, (n - 1) as nat));
    }
}

/// The streams with nothing wrong are the balanced ones.
pub proof fn lemma_structure_ok(s: Seq<u8>)
    ensures
        structure(s) is Ok <==> balanced(s),
{
    if exists|i: nat| stray_at(s, i) {
        let i = choose|i: nat| stray_at(s, i);
        lemma_opens_none_stays(s, i + 1, s.len());
    } else {
        lemma_no_stray_opens(s, s.len());
        assert(opens(s, s.len()).unwrap().len() == 0 ==> opens(s, s.len()).unwrap()
            =~= Seq::<nat>::empty());
    }
}

} // verus!
