//! Character-level building blocks shared by the request parser and the
//! response serialiser: decimal rendering, splitting at a separator,
//! conversion of a string into its characters, comparison with a literal, and
//! searching for a character.

use vstd::prelude::*;
use vstd::string::StringExecFns;

verus! {

/// The character that stands for the decimal digit `d`.
pub open spec fn digit(d: nat) -> char
    recommends
        d < 10,
{
    if d == 0 {
        '0'
    } else if d == 1 {
        '1'
    } else if d == 2 {
        '2'
    } else if d == 3 {
        '3'
    } else if d == 4 {
        '4'
    } else if d == 5 {
        '5'
    } else if d == 6 {
        '6'
    } else if d == 7 {
        '7'
    } else if d == 8 {
        '8'
    } else {
        '9'
    }
}

/// The decimal rendering of `n`: most significant digit first, no sign and no
/// leading zero (zero itself is the single digit `0`).
pub open spec fn decimal(n: nat) -> Seq<char>
    decreases n,
{
    if n < 10 {
        seq![digit(n)]
    } else {
        decimal(n / 10).push(digit(n % 10))
    }
}

/// A decimal rendering is never empty, and takes one digit exactly for the
/// numbers below ten.
pub proof fn lemma_decimal_len(n: nat)
    ensures
        decimal(n).len() >= 1,
        n >= 10 ==> decimal(n).len() >= 2,
    decreases n,
{
    if n >= 10 {
        lemma_decimal_len(n / 10);
    }
}

/// Two numbers with the same decimal rendering are the same number.
pub proof fn lemma_decimal_injective(a: nat, b: nat)
    requires
        decimal(a) == decimal(b),
    ensures
        a == b,
    decreases a,
{
    lemma_decimal_len(a);
    lemma_decimal_len(b);
    if a >= 10 {
        let (qa, qb) = (a / 10, b / 10);
        assert(decimal(a).last() == digit(a % 10));
        assert(decimal(b).last() == digit(b % 10));
        assert(decimal(a).drop_last() =~= decimal(qa));
        assert(decimal(b).drop_last() =~= decimal(qb));
        lemma_decimal_injective(qa, qb);
    } else {
        assert(decimal(a)[0] == digit(a));
        assert(decimal(b)[0] == digit(b));
    }
}

/// The pieces of `s` between its separators: one piece more than `s` holds
/// separators, each possibly empty, in their order.
pub open spec fn split(s: Seq<char>, sep: char) -> Seq<Seq<char>>
    decreases s.len(),
{
    if s.len() == 0 {
        seq![Seq::empty()]
    } else {
        let before = split(s.drop_last(), sep);
        if s.last() == sep {
            before.push(Seq::empty())
        } else {
            before.drop_last().push(before.last().push(s.last()))
        }
    }
}

/// The pieces with one separator between each two neighbours.
pub open spec fn join(pieces: Seq<Seq<char>>, sep: char) -> Seq<char>
    decreases pieces.len(),
{
    if pieces.len() == 0 {
        Seq::empty()
    } else if pieces.len() == 1 {
        pieces[0]
    } else {
        join(pieces.drop_last(), sep).push(sep) + pieces.last()
    }
}

/// That none of the pieces holds the separator.
pub open spec fn free_of(pieces: Seq<Seq<char>>, sep: char) -> bool {
    forall|i: int| 0 <= i < pieces.len() ==> !(#[trigger] pieces[i]).contains(sep)
}

/// Splitting gives at least one piece, none of the pieces holds the
/// separator, and joining them gives the text back.
pub proof fn lemma_split_join(s: Seq<char>, sep: char)
    ensures
        split(s, sep).len() >= 1,
        free_of(split(s, sep), sep),
        join(split(s, sep), sep) == s,
    decreases s.len(),
{
    let pieces = split(s, sep);
    if s.len() == 0 {
        assert(join(pieces, sep) =~= s);
    } else {
        let before = split(s.drop_last(), sep);
        lemma_split_join(s.drop_last(), sep);
        if s.last() == sep {
            assert(pieces.drop_last() =~= before);
            assert(join(pieces, sep) =~= s);
        } else {
            let grown = before.last().push(s.last());
            assert(!grown.contains(sep)) by {
                if grown.contains(sep) {
                    let k: int = choose|k: int| 0 <= k < grown.len() && grown[k] == sep;
                    assert(before.last()[k] == sep);
                    assert(before.last().contains(sep));
                }
            }
            if before.len() > 1 {
                assert(pieces.drop_last() =~= before.drop_last());
            }
            assert(join(pieces, sep) =~= join(before, sep).push(s.last()));
            assert(join(pieces, sep) =~= s);
        }
    }
}

/// Pieces that do not hold the separator are what splitting their join gives:
/// a text falls into such pieces in one way only.
pub proof fn lemma_split_of_join(pieces: Seq<Seq<char>>, sep: char)
    requires
        pieces.len() >= 1,
        free_of(pieces, sep),
    ensures
        split(join(pieces, sep), sep) == pieces,
    decreases join(pieces, sep).len(),
{
    let s = join(pieces, sep);
    let init = pieces.drop_last();
    if pieces.len() > 1 {
        assert(s =~= join(init, sep).push(sep) + pieces.last());
    }
    if pieces.last().len() == 0 {
        assert(pieces.last() =~= Seq::<char>::empty());
        if pieces.len() == 1 {
            assert(pieces =~= seq![Seq::<char>::empty()]);
        } else {
            assert(s =~= join(init, sep).push(sep));
            assert(s.drop_last() =~= join(init, sep));
            lemma_split_of_join(init, sep);
            assert(init.push(Seq::<char>::empty()) =~= pieces);
        }
    } else {
        let c = pieces.last().last();
        assert(pieces.last().contains(c));
        let shorter = init.push(pieces.last().drop_last());
        assert(shorter.drop_last() =~= init);
        assert(free_of(shorter, sep)) by {
            assert forall|i: int| 0 <= i < shorter.len() implies !(#[trigger] shorter[i]).contains(
                sep,
            ) by {
                if i < shorter.len() - 1 {
                    assert(shorter[i] == pieces[i]);
                } else if shorter[i].contains(sep) {
                    let k: int = choose|k: int| 0 <= k < shorter[i].len() && shorter[i][k] == sep;
                    assert(pieces.last()[k] == sep);
                    assert(pieces.last().contains(sep));
                }
            }
        }
        assert(join(shorter, sep) =~= s.drop_last());
        assert(s.last() == c);
        lemma_split_of_join(shorter, sep);
        assert(shorter.last().push(c) =~= pieces.last());
        assert(shorter.drop_last().push(shorter.last().push(c)) =~= pieces);
    }
}

/// Three pieces are joined by two separators.
pub proof fn lemma_join_three(pieces: Seq<Seq<char>>, sep: char)
    requires
        pieces.len() == 3,
    ensures
        join(pieces, sep) == pieces[0] + seq![sep] + pieces[1] + seq![sep] + pieces[2],
{
    let two = pieces.drop_last();
    let one = two.drop_last();
    assert(join(one, sep) == pieces[0]);
    assert(join(two, sep) =~= pieces[0] + seq![sep] + pieces[1]);
    assert(join(pieces, sep) =~= pieces[0] + seq![sep] + pieces[1] + seq![sep] + pieces[2]);
}

/// The one-character string of a decimal digit.
fn digit_str(d: usize) -> (s: &'static str)
    requires
        d < 10,
    ensures
        s@ == seq![digit(d as nat)],
{
    proof {
        reveal_strlit("0");
        reveal_strlit("1");
        reveal_strlit("2");
        reveal_strlit("3");
        reveal_strlit("4");
        reveal_strlit("5");
        reveal_strlit("6");
        reveal_strlit("7");
        reveal_strlit("8");
        reveal_strlit("9");
    }
    let s = if d == 0 {
        "0"
    } else if d == 1 {
        "1"
    } else if d == 2 {
        "2"
    } else if d == 3 {
        "3"
    } else if d == 4 {
        "4"
    } else if d == 5 {
        "5"
    } else if d == 6 {
        "6"
    } else if d == 7 {
        "7"
    } else if d == 8 {
        "8"
    } else {
        "9"
    };
    assert(s@ =~= seq![digit(d as nat)]);
    s
}

/// Appends the decimal rendering of `n` to `out`.
pub fn push_decimal(out: &mut String, n: usize)
    ensures
        final(out)@ == old(out)@ + decimal(n as nat),
    decreases n,
{
    if n >= 10 {
        push_decimal(out, n / 10);
    }
    out.append(digit_str(n % 10));
}

/// The characters of `s`, in order.
pub fn chars_of(s: &str) -> (chars: Vec<char>)
    ensures
        chars@ == s@,
{
    let mut chars: Vec<char> = Vec::new();
    for c in it: s.chars()
        invariant
            it.seq() == s@,
            chars@ == it.seq().take(it.index() as int),
    {
        chars.push(c);
    }
    chars
}

/// Whether `chars` spells exactly the text of `literal`.
pub fn spells(chars: &Vec<char>, literal: &str) -> (same: bool)
    ensures
        same == (chars@ == literal@),
{
    let mut i: usize = 0;
    for c in it: literal.chars()
        invariant
            it.seq() == literal@,
            i == it.index(),
            i <= chars.len(),
            chars@.take(i as int) == literal@.take(i as int),
    {
        if i >= chars.len() || chars[i] != c {
            assert(chars@ != literal@) by {
                if chars@ == literal@ {
                    assert(chars@[i as int] == literal@[i as int]);
                }
            }
            return false;
        }
        i = i + 1;
    }
    proof {
        assert(literal@.take(i as int) =~= literal@);
        if i == chars.len() {
            assert(chars@.take(i as int) =~= chars@);
        }
    }
    i == chars.len()
}

/// The index of the first `c` in `chars` at or after `from`, if there is one.
pub fn find_from(chars: &Vec<char>, c: char, from: usize) -> (at: Option<usize>)
    ensures
        match at {
            Some(i) => from <= i < chars.len() && chars[i as int] == c && forall|k: int|
                from <= k < i ==> chars[k] != c,
            None => forall|k: int| from <= k < chars.len() ==> chars[k] != c,
        },
{
    let mut at: usize = from;
    while at < chars.len() && chars[at] != c
        invariant
            from <= at,
            forall|k: int| from <= k < at && k < chars.len() ==> chars[k] != c,
        decreases chars.len() - at,
    {
        at = at + 1;
    }
    if at < chars.len() {
        Some(at)
    } else {
        None
    }
}

} // verus!
