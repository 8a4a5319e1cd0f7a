//! Bounded splitting of a line of text on the ASCII space character.
//!
//! A log line is cut on single spaces into at most a fixed number of pieces;
//! the last piece absorbs the rest of the line unsplit. Consecutive spaces
//! yield empty pieces, exactly as a delimiter-by-delimiter split does.

use vstd::prelude::*;

verus! {

/// Index of the first space character in `s`, if there is one.
pub open spec fn find_space(s: Seq<char>) -> Option<int>
    decreases s.len(),
{
    if s.len() == 0 {
        None
    } else if s[0] == ' ' {
        Some(0int)
    } else {
        match find_space(s.drop_first()) {
            None => None,
            Some(i) => Some(i + 1),
        }
    }
}

/// `s` cut on single spaces into at most `n` pieces; the last piece absorbs
/// the rest of the text unsplit.
pub open spec fn split_limited(s: Seq<char>, n: nat) -> Seq<Seq<char>>
    decreases n,
{
    if n <= 1 {
        seq![s]
    } else {
        match find_space(s) {
            None => seq![s],
            Some(i) => seq![s.take(i)] + split_limited(s.skip(i + 1), (n - 1) as nat),
        }
    }
}

/// A position that holds a space, with none before it, is the one
/// `find_space` names.
proof fn lemma_find_space_at(s: Seq<char>, i: int)
    requires
        0 <= i < s.len(),
        s[i] == ' ',
        forall|j: int| 0 <= j < i ==> s[j] != ' ',
    ensures
        find_space(s) == Some(i),
    decreases i,
{
    if i > 0 {
        assert(s[0] != ' ');
        assert(s.drop_first()[i - 1] == s[i]);
        assert forall|j: int| 0 <= j < i - 1 implies s.drop_first()[j] != ' ' by {
            assert(s.drop_first()[j] == s[j + 1]);
        }
        lemma_find_space_at(s.drop_first(), i - 1);
    }
}

/// A sequence without a space has no first space.
proof fn lemma_find_space_none(s: Seq<char>)
    requires
        forall|j: int| 0 <= j < s.len() ==> s[j] != ' ',
    ensures
        find_space(s) == None::<int>,
    decreases s.len(),
{
    if s.len() > 0 {
        assert forall|j: int| 0 <= j < s.len() - 1 implies s.drop_first()[j] != ' ' by {
            assert(s.drop_first()[j] == s[j + 1]);
        }
        lemma_find_space_none(s.drop_first());
    }
}

/// Whatever `find_space` names is a space inside the sequence.
proof fn lemma_find_space_in_range(s: Seq<char>)
    ensures
        match find_space(s) {
            Some(i) => 0 <= i < s.len() && s[i] == ' ',
            None => true,
        },
    decreases s.len(),
{
    if s.len() > 0 && s[0] != ' ' {
        lemma_find_space_in_range(s.drop_first());
        if let Some(i) = find_space(s.drop_first()) {
            assert(s.drop_first()[i] == s[i + 1]);
        }
    }
}

/// Splitting the tail of `s` that starts at `c` peels off the piece up to the
/// first space at or after `c`.
pub proof fn lemma_split_step(s: Seq<char>, c: int, p: int, n: nat)
    requires
        2 <= n,
        0 <= c <= p < s.len(),
        s[p] == ' ',
        forall|j: int| c <= j < p ==> s[j] != ' ',
    ensures
        split_limited(s.skip(c), n) == seq![s.subrange(c, p)] + split_limited(
            s.skip(p + 1),
            (n - 1) as nat,
        ),
{
    let t = s.skip(c);
    assert(t[p - c] == s[p]);
    assert forall|j: int| 0 <= j < p - c implies t[j] != ' ' by {
        assert(t[j] == s[c + j]);
    }
    lemma_find_space_at(t, p - c);
    assert(t.take(p - c) =~= s.subrange(c, p));
    assert(t.skip(p - c + 1) =~= s.skip(p + 1));
}

/// Splitting a tail of `s` that holds no space yields that tail as the one
/// piece.
pub proof fn lemma_split_rest(s: Seq<char>, c: int, n: nat)
    requires
        0 <= c <= s.len(),
        forall|j: int| c <= j < s.len() ==> s[j] != ' ',
    ensures
        split_limited(s.skip(c), n) == seq![s.skip(c)],
{
    let t = s.skip(c);
    if n > 1 {
        assert forall|j: int| 0 <= j < t.len() implies t[j] != ' ' by {
            assert(t[j] == s[c + j]);
        }
        lemma_find_space_none(t);
    }
}

/// A bounded split yields between one and `n` pieces.
pub proof fn lemma_split_count(s: Seq<char>, n: nat)
    requires
        n >= 1,
    ensures
        1 <= split_limited(s, n).len() <= n,
    decreases n,
{
    if n > 1 {
        if let Some(i) = find_space(s) {
            lemma_split_count(s.skip(i + 1), (n - 1) as nat);
        }
    }
}

/// The last piece of a bounded split is a suffix of the input.
pub proof fn lemma_split_last_is_suffix(s: Seq<char>, n: nat)
    ensures
        split_limited(s, n).len() >= 1,
        exists|k: int| 0 <= k <= s.len() && split_limited(s, n).last() == s.skip(k),
    decreases n,
{
    if n <= 1 || find_space(s) is None {
        assert(s.skip(0) =~= s);
        assert(split_limited(s, n).last() == s.skip(0));
    } else {
        let i = find_space(s)->Some_0;
        lemma_find_space_in_range(s);
        let tail = s.skip(i + 1);
        lemma_split_last_is_suffix(tail, (n - 1) as nat);
        let k = choose|k: int|
            0 <= k <= tail.len() && split_limited(tail, (n - 1) as nat).last() == tail.skip(k);
        assert(tail.skip(k) =~= s.skip(i + 1 + k));
        assert(split_limited(s, n).last() == split_limited(tail, (n - 1) as nat).last());
        assert(split_limited(s, n).last() == s.skip(i + 1 + k));
    }
}

/// First space character at or after `start` in `line`, scanning character
/// by character.
pub fn find_space_from(line: &str, start: usize, n: usize) -> (r: Option<usize>)
    requires
        start <= n,
        n == line@.len(),
    ensures
        match r {
            Some(p) => start <= p < n && line@[p as int] == ' ' && forall|j: int|
                start <= j < p ==> line@[j] != ' ',
            None => forall|j: int| start <= j < n ==> line@[j] != ' ',
        },
{
    let mut i: usize = start;
    while i < n
        invariant
            start <= i <= n,
            n == line@.len(),
            forall|j: int| start <= j < i ==> line@[j] != ' ',
        decreases n - i,
    {
        if line.get_char(i) == ' ' {
            return Some(i);
        }
        i = i + 1;
    }
    None
}

} // verus!
