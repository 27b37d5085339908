//! Decimal rendering and reading of the store's numbers, proved inverse to
//! each other.

use vstd::prelude::*;
use vstd::arithmetic::div_mod::lemma_fundamental_div_mod;
use vstd::string::StrSliceExecFns;
use vstd::string::StringExecFns;

verus! {

/// The value of a decimal digit character; 10 for anything else.
pub open spec fn digit_val(c: char) -> nat {
    if c == '0' {
        0
    } else if c == '1' {
        1
    } else if c == '2' {
        2
    } else if c == '3' {
        3
    } else if c == '4' {
        4
    } else if c == '5' {
        5
    } else if c == '6' {
        6
    } else if c == '7' {
        7
    } else if c == '8' {
        8
    } else if c == '9' {
        9
    } else {
        10
    }
}

/// Whether `c` is a decimal digit character.
pub open spec fn is_digit(c: char) -> bool {
    digit_val(c) < 10
}

/// The character of a decimal digit value below 10.
pub open spec fn digit_char(d: nat) -> char {
    if d == 0 {
        '0'
    } else if d == 1 {
        '1'
    } else if d == 2 {
        '2'
    } else if d == 3 {
        '3'
    } else if d == 4 {
        '4'
    } else if d == 5 {
        '5'
    } else if d == 6 {
        '6'
    } else if d == 7 {
        '7'
    } else if d == 8 {
        '8'
    } else {
        '9'
    }
}

/// The decimal digit string of `n`: most significant digit first, no
/// leading zeros (a single `'0'` for zero).
pub open spec fn spec_digits(n: nat) -> Seq<char>
    decreases n,
{
    if n < 10 {
        seq![digit_char(n)]
    } else {
        spec_digits(n / 10).push(digit_char(n % 10))
    }
}

/// The number a string of digit characters denotes.
pub open spec fn digits_val(s: Seq<char>) -> nat
    decreases s.len(),
{
    if s.len() == 0 {
        0
    } else {
        digits_val(s.drop_last()) * 10 + digit_val(s.last())
    }
}

/// `digit_char` and `digit_val` invert each other below 10, and digit
/// characters are never the record separator.
pub proof fn lemma_digit_char_val(d: nat)
    requires
        d < 10,
    ensures
        digit_val(digit_char(d)) == d,
        is_digit(digit_char(d)),
        digit_char(d) != '\n',
{
}

/// Every character of a decimal digit string is a digit, and there is at
/// least one.
pub proof fn lemma_spec_digits_chars(n: nat)
    ensures
        spec_digits(n).len() >= 1,
        forall|i: int| 0 <= i < spec_digits(n).len() ==> is_digit(#[trigger] spec_digits(n)[i]),
    decreases n,
{
    if n < 10 {
        lemma_digit_char_val(n);
    } else {
        lemma_spec_digits_chars(n / 10);
        lemma_digit_char_val(n % 10);
        assert forall|i: int| 0 <= i < spec_digits(n).len()
            implies is_digit(#[trigger] spec_digits(n)[i]) by {
            if i < spec_digits(n / 10).len() {
                assert(spec_digits(n)[i] == spec_digits(n / 10)[i]);
            }
        }
    }
}

/// Reading back the decimal digit string of `n` yields `n`.
pub proof fn lemma_digits_val_of_spec_digits(n: nat)
    ensures
        digits_val(spec_digits(n)) == n,
    decreases n,
{
    if n < 10 {
        assert(spec_digits(n).drop_last() =~= Seq::<char>::empty());
        lemma_digit_char_val(n);
        assert(digits_val(spec_digits(n)) == digits_val(Seq::<char>::empty()) * 10 + digit_val(
            digit_char(n),
        ));
    } else {
        lemma_digits_val_of_spec_digits(n / 10);
        lemma_digit_char_val(n % 10);
        assert(spec_digits(n).drop_last() =~= spec_digits(n / 10));
        assert(spec_digits(n).last() == digit_char(n % 10));
        assert(digits_val(spec_digits(n)) == digits_val(spec_digits(n / 10)) * 10 + digit_val(
            digit_char(n % 10),
        ));
        assert(digits_val(spec_digits(n)) == (n / 10) * 10 + (n % 10));
        lemma_fundamental_div_mod(n as int, 10);
        assert((n / 10) * 10 + (n % 10) == n);
    }
}

/// The single digit character of a value below 10, as a string.
fn digit_str(d: u64) -> (r: &'static str)
    requires
        d < 10,
    ensures
        r@ == seq![digit_char(d as nat)],
{
    proof {
        reveal_strlit("0");
        reveal_strlit("1");
        reveal_strlit("2");
        reveal_strlit("3");
        reveal_strlit("4");
        reveal_strlit("5");
        reveal_strlit("6");
        reveal_strlit("7");
        reveal_strlit("8");
        reveal_strlit("9");
        assert("0"@ =~= seq!['0']);
        assert("1"@ =~= seq!['1']);
        assert("2"@ =~= seq!['2']);
        assert("3"@ =~= seq!['3']);
        assert("4"@ =~= seq!['4']);
        assert("5"@ =~= seq!['5']);
        assert("6"@ =~= seq!['6']);
        assert("7"@ =~= seq!['7']);
        assert("8"@ =~= seq!['8']);
        assert("9"@ =~= seq!['9']);
    }
    if d == 0 {
        "0"
    } else if d == 1 {
        "1"
    } else if d == 2 {
        "2"
    } else if d == 3 {
        "3"
    } else if d == 4 {
        "4"
    } else if d == 5 {
        "5"
    } else if d == 6 {
        "6"
    } else if d == 7 {
        "7"
    } else if d == 8 {
        "8"
    } else {
        "9"
    }
}

/// Renders `n` in decimal.
pub fn u64_to_string(n: u64) -> (r: String)
    ensures
        r@ == spec_digits(n as nat),
    decreases n,
{
    if n < 10 {
        String::from_str(digit_str(n))
    } else {
        let mut r = u64_to_string(n / 10);
        r.append(digit_str(n % 10));
        proof {
            assert(r@ =~= spec_digits((n / 10) as nat).push(digit_char((n % 10) as nat)));
        }
        r
    }
}

/// Appends a record separator.
pub fn push_newline(r: &mut String)
    ensures
        final(r)@ == old(r)@.push('\n'),
{
    proof {
        reveal_strlit("\n");
    }
    r.append("\n");
    proof {
        assert(r@ =~= old(r)@.push('\n'));
    }
}

/// The value of a digit character, computed; 10 for anything else.
pub fn char_digit(c: char) -> (d: u64)
    ensures
        d == digit_val(c),
{
    if c == '0' {
        0
    } else if c == '1' {
        1
    } else if c == '2' {
        2
    } else if c == '3' {
        3
    } else if c == '4' {
        4
    } else if c == '5' {
        5
    } else if c == '6' {
        6
    } else if c == '7' {
        7
    } else if c == '8' {
        8
    } else if c == '9' {
        9
    } else {
        10
    }
}

/// The end of the run of digit characters that starts at position `i`.
pub open spec fn digits_end(s: Seq<char>, i: int) -> int
    decreases s.len() - i,
{
    if 0 <= i < s.len() && is_digit(s[i]) {
        digits_end(s, i + 1)
    } else {
        i
    }
}

/// Where a run of digits is laid out in `s` from `i` to `j`, followed by a
/// non-digit, `digits_end` finds exactly `j`.
pub proof fn lemma_digits_end_at(s: Seq<char>, i: int, j: int)
    requires
        0 <= i <= j <= s.len(),
        forall|k: int| i <= k < j ==> is_digit(#[trigger] s[k]),
        j == s.len() || !is_digit(s[j]),
    ensures
        digits_end(s, i) == j,
    decreases j - i,
{
    if i < j {
        lemma_digits_end_at(s, i + 1, j);
    }
}

/// The largest number any parsed field may carry.
pub open spec fn num_cap() -> nat {
    i32::MAX as nat
}

/// Reading a number field at position `i`: the maximal digit run from `i`,
/// which must be nonempty, denote at most `num_cap()`, and be followed by the
/// record separator. Yields the value and the position after the separator.
pub open spec fn spec_parse_num(s: Seq<char>, i: int) -> Option<(nat, int)> {
    let j = digits_end(s, i);
    if j == i {
        None
    } else if digits_val(s.subrange(i, j)) > num_cap() {
        None
    } else if j == s.len() || s[j] != '\n' {
        None
    } else {
        Some((digits_val(s.subrange(i, j)), j + 1))
    }
}

/// Reads a number field at position `i` of `s`, exactly as
/// [`spec_parse_num`] describes.
pub fn parse_num(s: &str, i: usize) -> (r: Option<(i32, usize)>)
    requires
        i <= s@.len(),
    ensures
        r is Some <==> spec_parse_num(s@, i as int) is Some,
        (r matches Some(p) ==> {
            &&& spec_parse_num(s@, i as int) == Some((p.0 as nat, p.1 as int))
            &&& 0 <= p.0
            &&& i < p.1 <= s@.len()
        }),
{
    let n = s.unicode_len();
    let mut j = i;
    let mut acc: u64 = 0;
    let cap: u64 = 2147483647;
    proof {
        assert(cap == num_cap());
    }
    while j < n && char_digit(s.get_char(j)) < 10
        invariant
            i <= j <= n,
            n == s@.len(),
            digits_end(s@, i as int) == digits_end(s@, j as int),
            forall|k: int| i <= k < j ==> is_digit(#[trigger] s@[k]),
            cap == num_cap(),
            acc <= cap ==> acc == digits_val(s@.subrange(i as int, j as int)),
            acc > cap ==> acc == cap + 1 && digits_val(s@.subrange(i as int, j as int)) > cap,
        decreases n - j,
    {
        let d = char_digit(s.get_char(j));
        proof {
            assert(digits_end(s@, j as int) == digits_end(s@, j + 1 as int));
            assert(s@.subrange(i as int, j + 1 as int).drop_last() =~= s@.subrange(
                i as int,
                j as int,
            ));
            assert(s@.subrange(i as int, j + 1 as int).last() == s@[j as int]);
        }
        if acc <= cap {
            let next = acc * 10 + d;
            if next > cap {
                acc = cap + 1;
            } else {
                acc = next;
            }
        }
        j = j + 1;
    }
    proof {
        assert(digits_end(s@, j as int) == j as int);
    }
    if j == i {
        return None;
    }
    if acc > cap {
        return None;
    }
    if j == n {
        return None;
    }
    if s.get_char(j) != '\n' {
        return None;
    }
    Some((acc as i32, j + 1))
}

} // verus!
