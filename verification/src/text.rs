//! Whole numbers as text.

use vstd::prelude::*;
use vstd::string::{StrSliceExecFns, StringExecFns};

verus! {

/// The digit of a number below ten.
pub open spec fn digit_char(d: int) -> char {
    if d == 0 {
        '0'
    } else if d == 1 {
        '1'
    } else if d == 2 {
        '2'
    } else if d == 3 {
        '3'
    } else if d == 4 {
        '4'
    } else if d == 5 {
        '5'
    } else if d == 6 {
        '6'
    } else if d == 7 {
        '7'
    } else if d == 8 {
        '8'
    } else {
        '9'
    }
}

/// The digits of a number, without leading zeros.
pub open spec fn decimal_of(n: int) -> Seq<char>
    decreases n,
{
    if n < 10 {
        seq![digit_char(n)]
    } else {
        decimal_of(n / 10).push(digit_char(n % 10))
    }
}

/// Whether every character is a digit.
pub open spec fn all_digits(s: Seq<char>) -> bool {
    forall|i: int| 0 <= i < s.len() ==> '0' <= #[trigger] s[i] <= '9'
}

/// The number that digits write.
pub open spec fn decimal_value(s: Seq<char>) -> int
    decreases s.len(),
{
    if s.len() == 0 {
        0
    } else {
        10 * decimal_value(s.drop_last()) + (s.last() as int - '0' as int)
    }
}

/// The digits of a text that may begin with a plus sign.
pub open spec fn unsigned(s: Seq<char>) -> Seq<char> {
    if s.len() > 0 && s[0] == '+' {
        s.drop_first()
    } else {
        s
    }
}

/// The count that a text writes: some digits, perhaps behind a plus sign,
/// whose number fits; none for any other text.
pub open spec fn count_of(s: Seq<char>) -> Option<int> {
    let digits = unsigned(s);
    if digits.len() > 0 && all_digits(digits) && decimal_value(digits) <= usize::MAX {
        Some(decimal_value(digits))
    } else {
        None
    }
}

/// A digit as text.
fn digit_text(d: u64) -> (text: &'static str)
    requires
        d < 10,
    ensures
        text@ == seq![digit_char(d as int)],
{
    proof {
        reveal_strlit("0");
        reveal_strlit("1");
        reveal_strlit("2");
        reveal_strlit("3");
        reveal_strlit("4");
        reveal_strlit("5");
        reveal_strlit("6");
        reveal_strlit("7");
        reveal_strlit("8");
        reveal_strlit("9");
    }
    let text: &'static str = if d == 0 {
        "0"
    } else if d == 1 {
        "1"
    } else if d == 2 {
        "2"
    } else if d == 3 {
        "3"
    } else if d == 4 {
        "4"
    } else if d == 5 {
        "5"
    } else if d == 6 {
        "6"
    } else if d == 7 {
        "7"
    } else if d == 8 {
        "8"
    } else {
        "9"
    };
    assert(text@ =~= seq![digit_char(d as int)]);
    text
}

/// Write a number in decimal behind a text.
pub fn append_decimal(text: &mut String, n: u64)
    ensures
        final(text)@ == old(text)@ + decimal_of(n as int),
    decreases n,
{
    if n < 10 {
        text.append(digit_text(n));
    } else {
        append_decimal(text, n / 10);
        text.append(digit_text(n % 10));
        assert(text@ =~= old(text)@ + decimal_of(n as int));
    }
}

/// A caption followed by a number.
pub fn label(caption: &str, n: u64) -> (text: String)
    ensures
        text@ == caption@ + decimal_of(n as int),
{
    let mut text: String = caption.to_owned();
    append_decimal(&mut text, n);
    text
}

proof fn lemma_value_rises(s: Seq<char>, k: int)
    requires
        0 <= k <= s.len(),
        all_digits(s),
    ensures
        0 <= decimal_value(s.take(k)) <= decimal_value(s),
    decreases s.len() - k,
{
    lemma_value_not_negative(s.take(k));
    if k < s.len() {
        lemma_value_rises(s, k + 1);
        assert(s.take(k + 1).drop_last() =~= s.take(k));
        assert(s.take(k + 1).last() == s[k]);
    } else {
        assert(s.take(k) =~= s);
    }
}

proof fn lemma_value_not_negative(s: Seq<char>)
    requires
        all_digits(s),
    ensures
        0 <= decimal_value(s),
    decreases s.len(),
{
    if s.len() > 0 {
        let head = s.drop_last();
        assert forall|i: int| 0 <= i < head.len() implies '0' <= #[trigger] head[i] <= '9' by {
            assert(head[i] == s[i]);
        }
        lemma_value_not_negative(head);
        assert('0' <= s[s.len() - 1] <= '9');
    }
}

/// Read a count.
pub fn parse_count(text: &str) -> (count: Option<usize>)
    ensures
        match count {
            Some(n) => count_of(text@) == Some(n as int),
            None => count_of(text@) is None,
        },
{
    let len: usize = text.unicode_len();
    let first: usize = if len > 0 && text.get_char(0) == '+' {
        1
    } else {
        0
    };
    let ghost digits = unsigned(text@);
    assert(digits.len() == len - first);
    assert(forall|i: int| 0 <= i < digits.len() ==> digits[i] == text@[first + i]);
    if first == len {
        return None;
    }
    let mut value: usize = 0;
    let mut i: usize = first;
    assert(digits.take(0) =~= Seq::<char>::empty());
    while i < len
        invariant
            first <= i <= len,
            len == text@.len(),
            digits == unsigned(text@),
            digits.len() == len - first,
            digits.len() > 0,
            forall|k: int| 0 <= k < digits.len() ==> digits[k] == text@[first + k],
            all_digits(digits.take(i - first)),
            value == decimal_value(digits.take(i - first)),
        decreases len - i,
    {
        let c: char = text.get_char(i);
        assert(c == digits[i - first]);
        if !('0' <= c && c <= '9') {
            return None;
        }
        let d: usize = (c as u32 - '0' as u32) as usize;
        proof {
            assert(digits.take(i + 1 - first).drop_last() =~= digits.take(i - first));
            assert(digits.take(i + 1 - first).last() == c);
            assert forall|k: int| 0 <= k < i + 1 - first implies '0' <= #[trigger] digits.take(
                i + 1 - first,
            )[k] <= '9' by {
                if k < i - first {
                    assert(digits.take(i - first)[k] == digits[k]);
                }
            }
        }
        if value > (usize::MAX - d) / 10 {
            proof {
                assert(10 * value + d > usize::MAX);
                if all_digits(digits) {
                    lemma_value_rises(digits, i + 1 - first);
                }
            }
            return None;
        }
        value = value * 10 + d;
        i += 1;
    }
    assert(digits.take(i - first) =~= digits);
    Some(value)
}

proof fn lemma_decimal_reads_back(n: int)
    requires
        0 <= n,
    ensures
        all_digits(decimal_of(n)),
        decimal_value(decimal_of(n)) == n,
        decimal_of(n).len() > 0,
        unsigned(decimal_of(n)) == decimal_of(n),
    decreases n,
{
    if n < 10 {
        assert(decimal_of(n).drop_last() =~= Seq::<char>::empty());
        assert(decimal_value(decimal_of(n).drop_last()) == 0);
    } else {
        lemma_decimal_reads_back(n / 10);
        assert(decimal_of(n).drop_last() =~= decimal_of(n / 10));
        assert forall|i: int| 0 <= i < decimal_of(n).len() implies '0' <= #[trigger] decimal_of(
            n,
        )[i] <= '9' by {
            if i < decimal_of(n / 10).len() {
                assert(decimal_of(n / 10)[i] == decimal_of(n)[i]);
            }
        }
    }
    assert('0' <= decimal_of(n)[0] <= '9');
}

/// A written count reads back as itself.
pub proof fn law_written_counts_read_back(n: usize)
    ensures
        count_of(decimal_of(n as int)) == Some(n as int),
{
    lemma_decimal_reads_back(n as int);
}

} // verus!
