//! Text helpers shared by the codec and the JSON readers: decimal numbers,
//! whitespace, and string comparison, all stated over `Seq<char>`.

use vstd::prelude::*;
use vstd::slice::slice_subrange;
use vstd::string::StringExecFns;
use vstd::utf8::*;

verus! {

// ---------------------------------------------------------------------------
// Decimal numbers
// ---------------------------------------------------------------------------

/// `c` is one of `0`..=`9`.
pub open spec fn is_digit(c: char) -> bool {
    '0' <= c <= '9'
}

/// The value of a decimal digit.
pub open spec fn digit_value(c: char) -> nat {
    (c as int - '0' as int) as nat
}

/// The decimal digit of value `d`, for `d < 10`.
pub open spec fn digit_char(d: nat) -> char {
    ('0' as int + d) as char
}

/// The number that a sequence of decimal digits denotes.
pub open spec fn decimal_value(s: Seq<char>) -> nat
    decreases s.len(),
{
    if s.len() == 0 {
        0
    } else {
        decimal_value(s.drop_last()) * 10 + digit_value(s.last())
    }
}

/// The decimal digits of `n`, without leading zeros.
pub open spec fn decimal(n: nat) -> Seq<char>
    decreases n,
{
    if n < 10 {
        seq![digit_char(n)]
    } else {
        decimal(n / 10).push(digit_char(n % 10))
    }
}

/// How many characters at the front of `s` are decimal digits.
pub open spec fn digits_len(s: Seq<char>) -> nat
    decreases s.len(),
{
    if s.len() == 0 || !is_digit(s[0]) {
        0
    } else {
        1 + digits_len(s.drop_first())
    }
}

pub proof fn lemma_digits_len(s: Seq<char>)
    ensures
        digits_len(s) <= s.len(),
        forall|i: int| 0 <= i < digits_len(s) ==> is_digit(#[trigger] s[i]),
        digits_len(s) < s.len() ==> !is_digit(s[digits_len(s) as int]),
    decreases s.len(),
{
    if s.len() != 0 && is_digit(s[0]) {
        let rest = s.drop_first();
        lemma_digits_len(rest);
        assert forall|i: int| 0 <= i < digits_len(s) implies is_digit(#[trigger] s[i]) by {
            if i > 0 {
                assert(s[i] == rest[i - 1]);
            }
        }
        if digits_len(s) < s.len() {
            assert(s[digits_len(s) as int] == rest[digits_len(rest) as int]);
        }
    }
}

/// A run of `k` digits followed by a non-digit, or by the end, has `digits_len` `k`.
pub proof fn lemma_digits_len_is(s: Seq<char>, k: nat)
    requires
        k <= s.len(),
        forall|i: int| 0 <= i < k ==> is_digit(#[trigger] s[i]),
        k < s.len() ==> !is_digit(s[k as int]),
    ensures
        digits_len(s) == k,
    decreases s.len(),
{
    if k > 0 {
        let rest = s.drop_first();
        assert forall|i: int| 0 <= i < k - 1 implies is_digit(#[trigger] rest[i]) by {
            assert(rest[i] == s[i + 1]);
        }
        lemma_digits_len_is(rest, (k - 1) as nat);
    }
}

/// More digits never make a smaller number.
pub proof fn lemma_decimal_value_monotone(s: Seq<char>, i: int, j: int)
    requires
        0 <= i <= j <= s.len(),
    ensures
        decimal_value(s.take(i)) <= decimal_value(s.take(j)),
    decreases j - i,
{
    if i < j {
        lemma_decimal_value_monotone(s, i, j - 1);
        assert(s.take(j).drop_last() =~= s.take(j - 1));
    }
}

/// The decimal digits of `n` are digits, there is at least one, and they denote `n`.
pub proof fn lemma_decimal(n: nat)
    ensures
        decimal(n).len() > 0,
        forall|i: int| 0 <= i < decimal(n).len() ==> is_digit(#[trigger] decimal(n)[i]),
        decimal_value(decimal(n)) == n,
    decreases n,
{
    if n < 10 {
        assert(decimal(n).drop_last() =~= Seq::<char>::empty());
        assert(decimal_value(Seq::<char>::empty()) == 0);
    } else {
        lemma_decimal(n / 10);
        assert(decimal(n).drop_last() =~= decimal(n / 10));
    }
}

/// Distinct numbers have distinct decimal digits.
pub proof fn lemma_decimal_injective(m: nat, n: nat)
    ensures
        decimal(m) == decimal(n) ==> m == n,
{
    lemma_decimal(m);
    lemma_decimal(n);
}

pub proof fn lemma_decimal_ascii(n: nat)
    ensures
        is_ascii_chars(decimal(n)),
{
    lemma_decimal(n);
    assert forall|i: int| 0 <= i < decimal(n).len() implies '\0' <= #[trigger] decimal(n)[i]
        <= '\u{7f}' by {
        assert(is_digit(decimal(n)[i]));
    }
}

/// The decimal digits of `n` as text.
pub fn decimal_string(n: u64) -> (s: String)
    ensures
        s@ == decimal(n as nat),
    decreases n,
{
    let mut s: String = if n < 10 {
        String::new()
    } else {
        decimal_string(n / 10)
    };
    let d: u64 = n % 10;
    let digit: &str = match d {
        0 => "0",
        1 => "1",
        2 => "2",
        3 => "3",
        4 => "4",
        5 => "5",
        6 => "6",
        7 => "7",
        8 => "8",
        _ => "9",
    };
    proof {
        reveal_strlit("0");
        reveal_strlit("1");
        reveal_strlit("2");
        reveal_strlit("3");
        reveal_strlit("4");
        reveal_strlit("5");
        reveal_strlit("6");
        reveal_strlit("7");
        reveal_strlit("8");
        reveal_strlit("9");
        assert(digit@ =~= seq![digit_char(d as nat)]);
    }
    s.append(digit);
    assert(s@ =~= decimal(n as nat));
    s
}

// ---------------------------------------------------------------------------
// Whitespace
// ---------------------------------------------------------------------------

/// The characters with the Unicode property `White_Space`.
pub open spec fn is_white_space(c: char) -> bool {
    ||| '\u{9}' <= c <= '\u{d}'
    ||| c == '\u{20}'
    ||| c == '\u{85}'
    ||| c == '\u{a0}'
    ||| c == '\u{1680}'
    ||| '\u{2000}' <= c <= '\u{200a}'
    ||| c == '\u{2028}'
    ||| c == '\u{2029}'
    ||| c == '\u{202f}'
    ||| c == '\u{205f}'
    ||| c == '\u{3000}'
}

/// `s` without the line terminators `\r` and `\n` at its end.
pub open spec fn trim_line_end(s: Seq<char>) -> Seq<char>
    decreases s.len(),
{
    if s.len() > 0 && (s.last() == '\r' || s.last() == '\n') {
        trim_line_end(s.drop_last())
    } else {
        s
    }
}

/// `s` without the white space at its front.
pub open spec fn trim_start(s: Seq<char>) -> Seq<char>
    decreases s.len(),
{
    if s.len() > 0 && is_white_space(s[0]) {
        trim_start(s.drop_first())
    } else {
        s
    }
}

/// `s` without the white space at its end.
pub open spec fn trim_end(s: Seq<char>) -> Seq<char>
    decreases s.len(),
{
    if s.len() > 0 && is_white_space(s.last()) {
        trim_end(s.drop_last())
    } else {
        s
    }
}

/// `s` without the white space at either end.
pub open spec fn trim(s: Seq<char>) -> Seq<char> {
    trim_end(trim_start(s))
}

fn white_space(c: char) -> (b: bool)
    ensures
        b == is_white_space(c),
{
    ('\u{9}' <= c && c <= '\u{d}') || c == '\u{20}' || c == '\u{85}' || c == '\u{a0}' || c
        == '\u{1680}' || ('\u{2000}' <= c && c <= '\u{200a}') || c == '\u{2028}' || c == '\u{2029}'
        || c == '\u{202f}' || c == '\u{205f}' || c == '\u{3000}'
}

/// The characters of `text` without the line terminators at its end.
pub fn without_line_end(text: &[char]) -> (r: &[char])
    ensures
        r@ == trim_line_end(text@),
        r@.len() <= text@.len(),
        r@ == text@.take(r@.len() as int),
{
    let mut hi: usize = text.len();
    assert(text@.take(hi as int) =~= text@);
    while hi > 0 && (text[hi - 1] == '\r' || text[hi - 1] == '\n')
        invariant
            hi <= text@.len(),
            trim_line_end(text@.take(hi as int)) == trim_line_end(text@),
        decreases hi,
    {
        assert(text@.take(hi as int).drop_last() =~= text@.take(hi - 1));
        hi = hi - 1;
    }
    assert(text@.subrange(0, hi as int) =~= text@.take(hi as int));
    slice_subrange(text, 0, hi)
}

/// The characters of `text` without the white space at either end.
pub fn trimmed(text: &[char]) -> (r: &[char])
    ensures
        r@ == trim(text@),
{
    let mut lo: usize = 0;
    assert(text@.skip(0) =~= text@);
    while lo < text.len() && white_space(text[lo])
        invariant
            lo <= text@.len(),
            trim_start(text@.skip(lo as int)) == trim_start(text@),
        decreases text.len() - lo,
    {
        assert(text@.skip(lo as int).drop_first() =~= text@.skip(lo + 1));
        lo = lo + 1;
    }
    let mut hi: usize = text.len();
    assert(text@.subrange(lo as int, hi as int) =~= text@.skip(lo as int));
    while lo < hi && white_space(text[hi - 1])
        invariant
            lo <= hi <= text@.len(),
            trim_end(text@.subrange(lo as int, hi as int)) == trim(text@),
        decreases hi,
    {
        assert(text@.subrange(lo as int, hi as int).drop_last() =~= text@.subrange(
            lo as int,
            hi - 1,
        ));
        hi = hi - 1;
    }
    slice_subrange(text, lo, hi)
}

// ---------------------------------------------------------------------------
// Strings
// ---------------------------------------------------------------------------

/// `std::str::from_utf8`: the text that `bytes` encode, if they are valid
/// UTF-8, and nothing otherwise. Stated, not proved.
#[verifier::external_body]
pub(crate) fn utf8_text(bytes: &[u8]) -> (r: Option<&str>)
    ensures
        match r {
            Some(s) => valid_utf8(bytes@) && s@ == decode_utf8(bytes@),
            None => !valid_utf8(bytes@),
        },
{
    std::str::from_utf8(bytes).ok()
}

/// The characters of `s`.
pub fn chars_of(s: &str) -> (r: Vec<char>)
    ensures
        r@ == s@,
{
    let mut out: Vec<char> = Vec::new();
    for c in it: s.chars()
        invariant
            out@.len() == it.index(),
            forall|i: int| 0 <= i < out@.len() ==> out@[i] == it.seq()[i],
            it.seq() == s@,
    {
        out.push(c);
    }
    assert(out@ =~= s@);
    out
}

/// Text equality is equality of the encoded bytes.
pub proof fn lemma_encode_injective(a: Seq<char>, b: Seq<char>)
    ensures
        encode_utf8(a) == encode_utf8(b) ==> a == b,
{
    encode_utf8_decode_utf8(a);
    encode_utf8_decode_utf8(b);
}

/// Whether two strings hold the same text.
pub fn str_eq(a: &str, b: &str) -> (r: bool)
    ensures
        r == (a@ == b@),
{
    let x: &[u8] = a.as_bytes();
    let y: &[u8] = b.as_bytes();
    proof {
        lemma_encode_injective(a@, b@);
    }
    if x.len() != y.len() {
        return false;
    }
    let mut i: usize = 0;
    while i < x.len()
        invariant
            i <= x@.len(),
            x@.len() == y@.len(),
            x@ == encode_utf8(a@),
            y@ == encode_utf8(b@),
            forall|k: int| 0 <= k < i ==> x@[k] == y@[k],
        decreases x.len() - i,
    {
        if x[i] != y[i] {
            return false;
        }
        i = i + 1;
    }
    assert(x@ =~= y@);
    true
}

// ---------------------------------------------------------------------------
// Laws
// ---------------------------------------------------------------------------

/// Decimal notation: the numbers below ten are the characters from `0` on, and
/// one more digit behind a number multiplies it by ten and adds that digit.
pub proof fn decimal_notation(n: nat, d: nat)
    requires
        d < 10,
    ensures
        decimal(d) == seq![(48 + d) as char],
        n > 0 ==> decimal(10 * n + d) == decimal(n).push((48 + d) as char),
{
    if n > 0 {
        assert((10 * n + d) / 10 == n && (10 * n + d) % 10 == d);
    }
}

/// Reading digits: nothing is 0, one more digit multiplies by ten and adds its
/// distance from `0`, and leading zeros do not count.
pub proof fn digits_are_positional(s: Seq<char>, c: char)
    requires
        48 <= c as int <= 57,
    ensures
        decimal_value(Seq::empty()) == 0,
        decimal_value(s.push(c)) == 10 * decimal_value(s) + (c as int - 48),
        decimal_value(seq!['0'] + s) == decimal_value(s),
    decreases s.len(),
{
    assert(s.push(c).drop_last() =~= s);
    if s.len() > 0 {
        digits_are_positional(s.drop_last(), c);
        assert((seq!['0'] + s).drop_last() =~= seq!['0'] + s.drop_last());
        assert((seq!['0'] + s).last() == s.last());
    } else {
        assert((seq!['0'] + s).drop_last() =~= Seq::<char>::empty());
    }
}

/// The digits are the ten characters from code 48 on, and a run of them ends
/// at the first character that is none.
pub proof fn digit_runs(s: Seq<char>, c: char)
    ensures
        is_digit(c) <==> 48 <= c as int <= 57,
        digits_len(s) <= s.len(),
        forall|i: int| 0 <= i < digits_len(s) ==> 48 <= (#[trigger] s[i]) as int <= 57,
        digits_len(s) < s.len() ==> !(48 <= s[digits_len(s) as int] as int <= 57),
{
    lemma_digits_len(s);
}

/// White space is what Unicode lists as such, by its code points.
pub proof fn white_space_by_code_point(c: char)
    ensures
        is_white_space(c) <==> {
            let n = c as int;
            ||| 0x09 <= n <= 0x0d
            ||| n == 0x20
            ||| n == 0x85
            ||| n == 0xa0
            ||| n == 0x1680
            ||| 0x2000 <= n <= 0x200a
            ||| n == 0x2028
            ||| n == 0x2029
            ||| n == 0x202f
            ||| n == 0x205f
            ||| n == 0x3000
        },
{
}

/// Trimming takes away white space at both ends and nothing else: text that
/// neither begins nor ends with white space is what is left of it when white
/// space is put around it.
pub proof fn trimming_undoes_padding(before: Seq<char>, s: Seq<char>, after: Seq<char>)
    requires
        forall|i: int| 0 <= i < before.len() ==> is_white_space(#[trigger] before[i]),
        forall|i: int| 0 <= i < after.len() ==> is_white_space(#[trigger] after[i]),
        s.len() > 0 ==> !is_white_space(s[0]) && !is_white_space(s.last()),
    ensures
        trim(before + s + after) == s,
{
    lemma_trim_start_padding(before, s + after);
    assert(before + s + after =~= before + (s + after));
    if s.len() == 0 {
        assert(s + after =~= after);
        lemma_trim_start_padding(after, Seq::empty());
        assert(after + Seq::<char>::empty() =~= after);
        assert(trim_start(s + after) == Seq::<char>::empty());
        assert(trim(before + s + after) =~= s);
    } else {
        assert((s + after)[0] == s[0]);
        lemma_trim_end_padding(s, after);
    }
}

proof fn lemma_trim_start_padding(before: Seq<char>, s: Seq<char>)
    requires
        forall|i: int| 0 <= i < before.len() ==> is_white_space(#[trigger] before[i]),
    ensures
        trim_start(before + s) == trim_start(s),
    decreases before.len(),
{
    if before.len() > 0 {
        let rest = before.drop_first();
        assert forall|i: int| 0 <= i < rest.len() implies is_white_space(#[trigger] rest[i]) by {
            assert(rest[i] == before[i + 1]);
        }
        lemma_trim_start_padding(rest, s);
        assert((before + s)[0] == before[0]);
        assert((before + s).drop_first() =~= rest + s);
    } else {
        assert(before + s =~= s);
    }
}

proof fn lemma_trim_end_padding(s: Seq<char>, after: Seq<char>)
    requires
        forall|i: int| 0 <= i < after.len() ==> is_white_space(#[trigger] after[i]),
        s.len() > 0,
        !is_white_space(s.last()),
    ensures
        trim_end(s + after) == s,
    decreases after.len(),
{
    if after.len() > 0 {
        let rest = after.drop_last();
        assert forall|i: int| 0 <= i < rest.len() implies is_white_space(#[trigger] rest[i]) by {
            assert(rest[i] == after[i]);
        }
        lemma_trim_end_padding(s, rest);
        assert((s + after).last() == after.last());
        assert(is_white_space(after[after.len() - 1]));
        assert((s + after).drop_last() =~= s + rest);
    } else {
        assert(s + after =~= s);
    }
}

/// The end of a line is any run of `\r` and `\n`: it is cut off whole, and
/// nothing before it is.
pub proof fn line_ends_are_cut_off(s: Seq<char>, end: Seq<char>)
    requires
        forall|i: int| 0 <= i < end.len() ==> (#[trigger] end[i]) == '\r' || end[i] == '\n',
        s.len() > 0 ==> s.last() != '\r' && s.last() != '\n',
    ensures
        trim_line_end(s + end) == s,
    decreases end.len(),
{
    if end.len() > 0 {
        let rest = end.drop_last();
        assert forall|i: int| 0 <= i < rest.len() implies (#[trigger] rest[i]) == '\r' || rest[i]
            == '\n' by {
            assert(rest[i] == end[i]);
        }
        line_ends_are_cut_off(s, rest);
        assert((s + end).last() == end[end.len() - 1]);
        assert((s + end).drop_last() =~= s + rest);
    } else {
        assert(s + end =~= s);
    }
}

} // verus!
