//! What holds of the text primitives: splitting and joining undo each other,
//! and a number written in decimal reads back as itself.

use vstd::prelude::*;
use crate::text::{
    all_digits, decimal_digits, decimal_value, digit_char, is_digit, occurs_at, occurs_in,
    parsed_u32, split, without_plus,
};

verus! {

/// The pieces put back together, with `sep` between each two.
pub open spec fn joined(pieces: Seq<Seq<char>>, sep: char) -> Seq<char>
    decreases pieces.len(),
{
    if pieces.len() == 0 {
        Seq::<char>::empty()
    } else if pieces.len() == 1 {
        pieces[0]
    } else {
        joined(pieces.drop_last(), sep).push(sep) + pieces.last()
    }
}

/// No piece holds the separator.
pub open spec fn free_of(pieces: Seq<Seq<char>>, sep: char) -> bool {
    forall|i: int| 0 <= i < pieces.len() ==> !(#[trigger] pieces[i]).contains(sep)
}

/// Splitting gives at least one piece, no piece holds the separator, and the
/// pieces joined by the separator are the text again.
pub proof fn lemma_split_joins_back(s: Seq<char>, sep: char)
    ensures
        split(s, sep).len() >= 1,
        free_of(split(s, sep), sep),
        joined(split(s, sep), sep) == s,
    decreases s.len(),
{
    let pieces = split(s, sep);
    if s.len() == 0 {
        assert(pieces[0] =~= Seq::<char>::empty());
        assert(joined(pieces, sep) =~= s);
    } else {
        let front = s.drop_last();
        let before = split(front, sep);
        lemma_split_joins_back(front, sep);
        if s.last() == sep {
            assert(pieces.drop_last() =~= before);
            assert(joined(pieces, sep) =~= front.push(sep));
            assert(front.push(sep) =~= s);
            assert forall|i: int| 0 <= i < pieces.len() implies !(#[trigger] pieces[i]).contains(
                sep,
            ) by {
                if i < before.len() {
                    assert(pieces[i] == before[i]);
                }
            }
        } else {
            let grown = before.last().push(s.last());
            assert(pieces.last() == grown);
            assert forall|i: int| 0 <= i < pieces.len() implies !(#[trigger] pieces[i]).contains(
                sep,
            ) by {
                if i < before.len() - 1 {
                    assert(pieces[i] == before[i]);
                } else {
                    assert(!before[before.len() - 1].contains(sep));
                    if grown.contains(sep) {
                        let k = choose|k: int| 0 <= k < grown.len() && grown[k] == sep;
                        assert(before.last()[k] == sep);
                    }
                }
            }
            if before.len() == 1 {
                assert(joined(before, sep) == before[0]);
                assert(joined(pieces, sep) =~= front.push(s.last()));
            } else {
                assert(pieces.drop_last() =~= before.drop_last());
                assert(joined(pieces, sep) =~= joined(before, sep).push(s.last()));
            }
            assert(front.push(s.last()) =~= s);
        }
    }
}

/// Splitting is the only way to cut a text into pieces free of the
/// separator: whatever such pieces were joined, splitting gives them back.
pub proof fn lemma_split_of_joined(pieces: Seq<Seq<char>>, sep: char)
    requires
        pieces.len() >= 1,
        free_of(pieces, sep),
    ensures
        split(joined(pieces, sep), sep) == pieces,
    decreases pieces.len(), pieces.last().len(),
{
    let text = joined(pieces, sep);
    let last = pieces.last();
    if last.len() == 0 {
        if pieces.len() == 1 {
            assert(text =~= Seq::<char>::empty());
            assert(split(text, sep) =~= pieces);
        } else {
            let front = pieces.drop_last();
            assert forall|i: int| 0 <= i < front.len() implies !(#[trigger] front[i]).contains(
                sep,
            ) by {
                assert(front[i] == pieces[i]);
            }
            lemma_split_of_joined(front, sep);
            assert(text =~= joined(front, sep).push(sep));
            assert(text.last() == sep);
            assert(text.drop_last() =~= joined(front, sep));
            assert(last =~= Seq::<char>::empty());
            assert(front.push(Seq::<char>::empty()) =~= pieces);
        }
    } else {
        let c = last.last();
        assert(last[last.len() - 1] == c);
        assert(!pieces[pieces.len() - 1].contains(sep));
        assert(c != sep);
        let shorter = pieces.drop_last().push(last.drop_last());
        assert forall|i: int| 0 <= i < shorter.len() implies !(#[trigger] shorter[i]).contains(
            sep,
        ) by {
            if i < pieces.len() - 1 {
                assert(shorter[i] == pieces[i]);
            } else {
                if shorter[i].contains(sep) {
                    let k = choose|k: int| 0 <= k < shorter[i].len() && shorter[i][k] == sep;
                    assert(last[k] == sep);
                }
            }
        }
        assert(shorter.last() == last.drop_last());
        lemma_split_of_joined(shorter, sep);
        if pieces.len() == 1 {
            assert(joined(shorter, sep) == last.drop_last());
            assert(text.drop_last() =~= joined(shorter, sep));
        } else {
            assert(shorter.drop_last() =~= pieces.drop_last());
            assert(text.drop_last() =~= joined(shorter, sep));
        }
        assert(text.last() == c);
        assert(shorter.drop_last().push(shorter.last().push(c)) =~= pieces) by {
            assert(last.drop_last().push(c) =~= last);
        }
    }
}

/// Each digit is written by the character that stands for it.
proof fn lemma_digit_char(d: nat)
    requires
        d < 10,
    ensures
        is_digit(digit_char(d)),
        digit_char(d) as nat - '0' as nat == d,
{
    if d == 0 {
    } else if d == 1 {
    } else if d == 2 {
    } else if d == 3 {
    } else if d == 4 {
    } else if d == 5 {
    } else if d == 6 {
    } else if d == 7 {
    } else if d == 8 {
    } else {
        assert(d == 9);
    }
}

/// A number written in decimal is one or more digits, without a sign, and
/// denotes the number.
pub proof fn lemma_decimal_digits_denote(n: nat)
    ensures
        decimal_digits(n).len() >= 1,
        all_digits(decimal_digits(n)),
        decimal_value(decimal_digits(n)) == n,
    decreases n,
{
    let digits = decimal_digits(n);
    if n < 10 {
        lemma_digit_char(n);
        assert(digits.drop_last() =~= Seq::<char>::empty());
        assert(digits.last() == digit_char(n));
        assert(decimal_value(digits.drop_last()) == 0);
    } else {
        let front = decimal_digits(n / 10);
        lemma_decimal_digits_denote(n / 10);
        lemma_digit_char(n % 10);
        assert(digits.drop_last() =~= front);
        assert(digits.last() == digit_char(n % 10));
        assert forall|i: int| 0 <= i < digits.len() implies is_digit(#[trigger] digits[i]) by {
            if i < front.len() {
                assert(digits[i] == front[i]);
            }
        }
    }
}

/// What `push_decimal` writes for an id, `parse_u32` reads as that id.
pub proof fn lemma_written_id_reads_back(id: u32)
    ensures
        parsed_u32(decimal_digits(id as nat)) == Some(id),
{
    lemma_decimal_digits_denote(id as nat);
    let digits = decimal_digits(id as nat);
    assert(is_digit(digits[0]));
    assert(without_plus(digits) == digits);
}

/// Every text is a substring of itself, and the empty text of every text.
pub proof fn lemma_occurs_in_itself(s: Seq<char>, hay: Seq<char>)
    ensures
        occurs_in(s, s),
        occurs_in(Seq::<char>::empty(), hay),
{
    assert(s.subrange(0, s.len() as int) =~= s);
    assert(occurs_at(s, s, 0));
    assert(hay.subrange(0, 0) =~= Seq::<char>::empty());
    assert(occurs_at(Seq::<char>::empty(), hay, 0));
}

} // verus!
