//! That numbers and byte lists in messages can be read back.
use crate::text;
use vstd::prelude::*;

verus! {

/// The number that a character stands for, if it is a digit.
pub open spec fn digit_value(c: char) -> int {
    if '0' <= c <= '9' {
        c as int - '0' as int
    } else if 'a' <= c <= 'f' {
        10 + (c as int - 'a' as int)
    } else {
        -1
    }
}

/// The number that digits stand for in this base.
pub open spec fn value(digits: Seq<char>, base: int) -> int
    decreases digits.len(),
{
    if digits.len() == 0 {
        0
    } else {
        base * value(digits.drop_last(), base) + digit_value(digits.last())
    }
}

/// The text is a number in this base, written without needless zeros.
pub open spec fn is_number(digits: Seq<char>, base: int) -> bool {
    &&& digits.len() > 0
    &&& forall|k: int| 0 <= k < digits.len() ==> 0 <= digit_value(#[trigger] digits[k]) < base
    &&& digits.len() > 1 ==> digits[0] != '0'
}

/// A digit stands for its number.
proof fn lemma_digit(d: nat)
    requires
        d < 16,
    ensures
        digit_value(text::digit(d)) == d,
        d > 0 ==> text::digit(d) != '0',
{
}

/// A number in base ten is made of decimal digits, has no needless zeros, and reads back
/// as the number.
pub proof fn decimal_reads_back(n: nat)
    ensures
        is_number(text::decimal(n), 10),
        value(text::decimal(n), 10) == n,
    decreases n,
{
    lemma_digit(n % 10);
    let s = text::decimal(n);
    if n < 10 {
        assert(s.drop_last() =~= Seq::empty());
        assert(value(s.drop_last(), 10) == 0);
    } else {
        let before = text::decimal(n / 10);
        decimal_reads_back(n / 10);
        assert(s.drop_last() =~= before);
        assert forall|k: int| 0 <= k < s.len() implies 0 <= digit_value(#[trigger] s[k]) < 10 by {
            if k < before.len() {
                assert(s[k] == before[k]);
            }
        }
        assert(s[0] == before[0]);
        if before.len() == 1 {
            assert(before.drop_last() =~= Seq::empty());
            assert(value(before.drop_last(), 10) == 0);
            assert(digit_value(before[0]) == n / 10);
        }
    }
}

/// A number in base sixteen is made of lower-case digits, has no needless zeros, and reads
/// back as the number.
pub proof fn hexadecimal_reads_back(n: nat)
    ensures
        is_number(text::hexadecimal(n), 16),
        value(text::hexadecimal(n), 16) == n,
    decreases n,
{
    lemma_digit(n % 16);
    let s = text::hexadecimal(n);
    if n < 16 {
        assert(s.drop_last() =~= Seq::empty());
        assert(value(s.drop_last(), 16) == 0);
    } else {
        let before = text::hexadecimal(n / 16);
        hexadecimal_reads_back(n / 16);
        assert(s.drop_last() =~= before);
        assert forall|k: int| 0 <= k < s.len() implies 0 <= digit_value(#[trigger] s[k]) < 16 by {
            if k < before.len() {
                assert(s[k] == before[k]);
            }
        }
        assert(s[0] == before[0]);
        if before.len() == 1 {
            assert(before.drop_last() =~= Seq::empty());
            assert(value(before.drop_last(), 16) == 0);
            assert(digit_value(before[0]) == n / 16);
        }
    }
}

/// A list of bytes stands in brackets; one more byte adds its number to it, behind a comma
/// and a space unless it is the first.
pub proof fn byte_lists_grow_by_their_bytes(bytes: Seq<u8>, byte: u8)
    ensures
        text::byte_list(Seq::empty()) == seq!['[', ']'],
        text::byte_list(seq![byte]) == seq!['['] + text::decimal(byte as nat) + seq![']'],
        bytes.len() > 0 ==> text::byte_list(bytes.push(byte)) == text::byte_list(
            bytes,
        ).drop_last() + seq![',', ' '] + text::decimal(byte as nat) + seq![']'],
{
    assert(text::byte_list(Seq::empty()) =~= seq!['[', ']']);
    assert(text::byte_list(seq![byte]) =~= seq!['['] + text::decimal(byte as nat) + seq![']']);
    if bytes.len() > 0 {
        let more = bytes.push(byte);
        assert(more.drop_last() =~= bytes);
        assert(text::byte_list(more) =~= text::byte_list(bytes).drop_last() + seq![',', ' ']
            + text::decimal(byte as nat) + seq![']']);
    }
}

} // verus!
