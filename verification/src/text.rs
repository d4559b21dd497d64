//! Operations on text, stated over sequences of characters.
//!
//! File names, titles and patterns are handled as `Seq<char>` in contracts.
//! The executable functions walk a `Vec<char>` and build their results one
//! character at a time.

use vstd::prelude::*;

verus! {

/// `String::push`: appends one character. The contract claims that the
/// string then holds what it held, and `c` after it.
#[verifier::external_body]
pub(crate) fn push_char(s: &mut String, c: char)
    ensures
        final(s)@ == old(s)@.push(c),
{
    s.push(c)
}

/// The characters of `s`, in order.
pub fn to_chars(s: &str) -> (v: Vec<char>)
    ensures
        v@ == s@,
{
    let mut v: Vec<char> = Vec::new();
    for c in it: s.chars()
        invariant
            it.seq() == s@,
            v@ == s@.subrange(0, it.index() as int),
    {
        v.push(c);
    }
    assert(s@.subrange(0, s@.len() as int) == s@);
    v
}

/// The characters of `v` from index `from` up to, and without, `upto`.
pub fn slice_to_string(v: &Vec<char>, from: usize, upto: usize) -> (s: String)
    requires
        from <= upto <= v@.len(),
    ensures
        s@ == v@.subrange(from as int, upto as int),
{
    let mut s = String::new();
    let mut i: usize = from;
    while i < upto
        invariant
            from <= i <= upto <= v@.len(),
            s@ == v@.subrange(from as int, i as int),
        decreases upto - i,
    {
        push_char(&mut s, v[i]);
        i += 1;
    }
    s
}

/// The characters of `v` as a string.
pub fn from_chars(v: &Vec<char>) -> (s: String)
    ensures
        s@ == v@,
{
    slice_to_string(v, 0, v.len())
}

/// Whether `c` is white space: a character with the Unicode property
/// `White_Space`.
pub open spec fn is_whitespace(c: char) -> bool {
    let n = c as u32;
    ||| 0x09 <= n <= 0x0D
    ||| n == 0x20
    ||| n == 0x85
    ||| n == 0xA0
    ||| n == 0x1680
    ||| 0x2000 <= n <= 0x200A
    ||| n == 0x2028
    ||| n == 0x2029
    ||| n == 0x202F
    ||| n == 0x205F
    ||| n == 0x3000
}

/// `s` without the white space at its start.
pub open spec fn trim_start(s: Seq<char>) -> Seq<char>
    decreases s.len(),
{
    if s.len() > 0 && is_whitespace(s[0]) {
        trim_start(s.drop_first())
    } else {
        s
    }
}

/// `s` without the white space at its end.
pub open spec fn trim_end(s: Seq<char>) -> Seq<char>
    decreases s.len(),
{
    if s.len() > 0 && is_whitespace(s.last()) {
        trim_end(s.drop_last())
    } else {
        s
    }
}

/// `s` without the white space at either end.
pub open spec fn trimmed(s: Seq<char>) -> Seq<char> {
    trim_end(trim_start(s))
}

/// Tells white space from other characters.
pub fn char_is_whitespace(c: char) -> (r: bool)
    ensures
        r == is_whitespace(c),
{
    let n: u32 = c as u32;
    (0x09 <= n && n <= 0x0D) || n == 0x20 || n == 0x85 || n == 0xA0 || n == 0x1680 || (0x2000
        <= n && n <= 0x200A) || n == 0x2028 || n == 0x2029 || n == 0x202F || n == 0x205F || n
        == 0x3000
}

/// Removes the white space at both ends of `text`.
pub fn trim(text: &str) -> (r: String)
    ensures
        r@ == trimmed(text@),
{
    let v = to_chars(text);
    let n = v.len();
    let mut from: usize = 0;
    assert(v@.subrange(0, n as int) == v@);
    while from < n && char_is_whitespace(v[from])
        invariant
            n == v@.len(),
            from <= n,
            trim_start(v@) == trim_start(v@.subrange(from as int, n as int)),
        decreases n - from,
    {
        assert(v@.subrange(from as int, n as int).drop_first() == v@.subrange(
            from as int + 1,
            n as int,
        ));
        from += 1;
    }
    assert(trim_start(v@) == v@.subrange(from as int, n as int));
    let mut upto: usize = n;
    while upto > from && char_is_whitespace(v[upto - 1])
        invariant
            n == v@.len(),
            from <= upto <= n,
            trimmed(v@) == trim_end(v@.subrange(from as int, upto as int)),
        decreases upto,
    {
        assert(v@.subrange(from as int, upto as int).drop_last() == v@.subrange(
            from as int,
            upto as int - 1,
        ));
        upto -= 1;
    }
    slice_to_string(&v, from, upto)
}

/// Whether `part` stands in `text` at index `at`.
pub open spec fn occurs_at(text: Seq<char>, at: int, part: Seq<char>) -> bool {
    &&& 0 <= at
    &&& at + part.len() <= text.len()
    &&& text.subrange(at, at + part.len()) == part
}

/// Whether `part` stands somewhere in `text`.
pub open spec fn occurs_in(text: Seq<char>, part: Seq<char>) -> bool {
    exists|at: int| occurs_at(text, at, part)
}

/// Whether `text` ends with `part`.
pub open spec fn ends_with(text: Seq<char>, part: Seq<char>) -> bool {
    occurs_at(text, text.len() - part.len(), part)
}

/// `text` with each occurrence of `from` replaced by `to`. The occurrences
/// are found from the left and do not overlap; an empty `from` occurs nowhere.
pub open spec fn replaced(text: Seq<char>, from: Seq<char>, to: Seq<char>) -> Seq<char>
    decreases text.len(),
{
    if from.len() == 0 || text.len() < from.len() {
        text
    } else if occurs_at(text, 0, from) {
        to + replaced(text.subrange(from.len() as int, text.len() as int), from, to)
    } else {
        seq![text[0]] + replaced(text.drop_first(), from, to)
    }
}

/// Compares the characters of `text` from `at` on with `part`.
pub fn chars_occur_at(text: &Vec<char>, at: usize, part: &Vec<char>) -> (r: bool)
    ensures
        r == occurs_at(text@, at as int, part@),
{
    let n = text.len();
    let m = part.len();
    if at > n || m > n - at {
        return false;
    }
    let mut k: usize = 0;
    while k < m
        invariant
            n == text@.len(),
            m == part@.len(),
            at + m <= n,
            k <= m,
            forall|j: int| 0 <= j < k ==> text@[at + j] == part@[j],
        decreases m - k,
    {
        if text[at + k] != part[k] {
            assert(text@.subrange(at as int, at + m)[k as int] != part@[k as int]);
            return false;
        }
        k += 1;
    }
    assert(text@.subrange(at as int, at + m) =~= part@);
    true
}

/// Whether `part` stands somewhere in `text`.
pub fn contains(text: &str, part: &str) -> (r: bool)
    ensures
        r == occurs_in(text@, part@),
{
    let t = to_chars(text);
    let p = to_chars(part);
    let n = t.len();
    let mut at: usize = 0;
    while at < n
        invariant
            t@ == text@,
            p@ == part@,
            n == t@.len(),
            at <= n,
            forall|j: int| 0 <= j < at ==> !occurs_at(t@, j, p@),
        decreases n - at,
    {
        if chars_occur_at(&t, at, &p) {
            return true;
        }
        at += 1;
    }
    chars_occur_at(&t, n, &p)
}

/// Whether `a` and `b` are the same text.
pub fn same_text(a: &str, b: &str) -> (r: bool)
    ensures
        r == (a@ == b@),
{
    let left = to_chars(a);
    let right = to_chars(b);
    if left.len() != right.len() {
        return false;
    }
    assert(left@.subrange(0, left@.len() as int) == left@);
    chars_occur_at(&left, 0, &right)
}

/// Whether `text` ends with `part`.
pub fn has_suffix(text: &str, part: &str) -> (r: bool)
    ensures
        r == ends_with(text@, part@),
{
    let t = to_chars(text);
    let p = to_chars(part);
    if p.len() > t.len() {
        return false;
    }
    chars_occur_at(&t, t.len() - p.len(), &p)
}

/// Appends the characters of `more` to `out`.
fn push_all(out: &mut Vec<char>, more: &Vec<char>)
    ensures
        final(out)@ == old(out)@ + more@,
{
    let mut k: usize = 0;
    while k < more.len()
        invariant
            k <= more@.len(),
            out@ == old(out)@ + more@.subrange(0, k as int),
        decreases more@.len() - k,
    {
        out.push(more[k]);
        k += 1;
    }
    assert(more@.subrange(0, more@.len() as int) == more@);
}

/// Replaces each occurrence of `from` in `text` by `to`, from the left.
pub fn replace_all(text: &str, from: &str, to: &str) -> (r: String)
    ensures
        r@ == replaced(text@, from@, to@),
{
    let t = to_chars(text);
    let f = to_chars(from);
    let w = to_chars(to);
    let n = t.len();
    let m = f.len();
    if m == 0 {
        return from_chars(&t);
    }
    let mut out: Vec<char> = Vec::new();
    let mut i: usize = 0;
    assert(t@.subrange(0, n as int) == t@);
    while i < n
        invariant
            n == t@.len(),
            m == f@.len(),
            m > 0,
            i <= n,
            out@ + replaced(t@.subrange(i as int, n as int), f@, w@) == replaced(t@, f@, w@),
        decreases n - i,
    {
        let ghost rest = t@.subrange(i as int, n as int);
        if chars_occur_at(&t, i, &f) {
            assert(rest.subrange(0, m as int) == t@.subrange(i as int, i + m));
            assert(rest.subrange(m as int, rest.len() as int) == t@.subrange(i + m, n as int));
            push_all(&mut out, &w);
            i += m;
        } else {
            assert(rest.len() >= m ==> rest.subrange(0, m as int) == t@.subrange(
                i as int,
                i + m,
            ));
            assert(rest.drop_first() == t@.subrange(i + 1, n as int));
            out.push(t[i]);
            i += 1;
        }
    }
    from_chars(&out)
}

/// Whether `c` is one of the digits `0` to `9`.
pub open spec fn is_digit(c: char) -> bool {
    48 <= c as u32 <= 57
}

/// The number that the digit `c` stands for; 0 for any other character.
pub open spec fn digit_value(c: char) -> nat {
    if is_digit(c) {
        (c as u32 - 48) as nat
    } else {
        0
    }
}

/// The number that `s` denotes when read as decimal digits.
pub open spec fn digits_value(s: Seq<char>) -> nat
    decreases s.len(),
{
    if s.len() == 0 {
        0
    } else {
        digits_value(s.drop_last()) * 10 + digit_value(s.last())
    }
}

/// Whether `s` is made of digits only.
pub open spec fn all_digits(s: Seq<char>) -> bool {
    forall|i: int| 0 <= i < s.len() ==> is_digit(#[trigger] s[i])
}

/// The number that the digits `s` denote, if `s` is made of at least one
/// digit and the number fits in 32 bits.
pub open spec fn parsed_digits(s: Seq<char>) -> Option<u32> {
    if s.len() > 0 && all_digits(s) && digits_value(s) <= u32::MAX {
        Some(digits_value(s) as u32)
    } else {
        None
    }
}

/// The number that `s` is the decimal notation of, if there is one that fits
/// in 32 bits: an optional `+`, then at least one digit.
pub open spec fn parsed_u32(s: Seq<char>) -> Option<u32> {
    if s.len() > 0 && s[0] == '+' {
        parsed_digits(s.drop_first())
    } else {
        parsed_digits(s)
    }
}

/// A number read as decimal digits is at least what any of its prefixes
/// denotes.
pub proof fn lemma_digits_value_grows(s: Seq<char>, k: int)
    requires
        0 <= k <= s.len(),
    ensures
        digits_value(s.subrange(0, k)) <= digits_value(s),
    decreases s.len(),
{
    if k == s.len() {
        assert(s.subrange(0, k) == s);
    } else {
        assert(s.drop_last().subrange(0, k) == s.subrange(0, k));
        lemma_digits_value_grows(s.drop_last(), k);
    }
}

/// Reads `text` as a decimal number of 32 bits.
pub fn parse_u32(text: &str) -> (r: Option<u32>)
    ensures
        r == parsed_u32(text@),
{
    let v = to_chars(text);
    let n = v.len();
    let start: usize = if n > 0 && v[0] == '+' {
        1
    } else {
        0
    };
    if start == n {
        return None;
    }
    let ghost digits = v@.subrange(start as int, n as int);
    assert(start == 1 ==> digits == v@.drop_first());
    assert(start == 0 ==> digits == v@);
    let mut value: u32 = 0;
    let mut i: usize = start;
    while i < n
        invariant
            n == v@.len(),
            start <= i <= n,
            start < n,
            digits == v@.subrange(start as int, n as int),
            parsed_u32(text@) == parsed_digits(digits),
            all_digits(digits.subrange(0, i - start)),
            value == digits_value(digits.subrange(0, i - start)),
        decreases n - i,
    {
        let c = v[i];
        let code: u32 = c as u32;
        let ghost upto = digits.subrange(0, i - start + 1);
        assert(upto.drop_last() == digits.subrange(0, i - start));
        assert(upto.last() == c);
        if code < 48 || code > 57 {
            assert(!is_digit(digits[i - start]));
            return None;
        }
        let d: u32 = code - 48;
        assert(digits_value(upto) == value * 10 + d);
        if value > (u32::MAX - d) / 10 {
            proof {
                lemma_digits_value_grows(digits, i - start + 1);
            }
            return None;
        }
        value = value * 10 + d;
        i += 1;
    }
    assert(digits.subrange(0, n - start) == digits);
    Some(value)
}

/// The character for the digit `d`.
pub open spec fn digit_char(d: nat) -> char {
    (48 + d) as char
}

/// The decimal notation of `n`, without leading zeros.
pub open spec fn decimal(n: nat) -> Seq<char>
    decreases n,
{
    if n < 10 {
        seq![digit_char(n)]
    } else {
        decimal(n / 10).push(digit_char(n % 10))
    }
}

/// The decimal notation of `n` in at least two digits: with a zero in front
/// where `n` has one digit.
pub open spec fn two_digits(n: nat) -> Seq<char> {
    if n < 10 {
        seq!['0'] + decimal(n)
    } else {
        decimal(n)
    }
}

/// The decimal notation of a number is made of digits that denote it: what
/// is written in two digits or more is read back as the same number.
pub proof fn lemma_decimal_reads_back(n: nat)
    ensures
        decimal(n).len() > 0,
        all_digits(decimal(n)),
        digits_value(decimal(n)) == n,
        all_digits(two_digits(n)),
        digits_value(two_digits(n)) == n,
        n <= u32::MAX ==> parsed_u32(two_digits(n)) == Some(n as u32),
    decreases n,
{
    let last = digit_char(n % 10);
    assert(is_digit(last) && digit_value(last) == n % 10);
    if n < 10 {
        assert(decimal(n).drop_last() == Seq::<char>::empty());
        assert(digits_value(decimal(n)) == digits_value(Seq::<char>::empty()) * 10 + n);
        let padded = seq!['0'] + decimal(n);
        assert(padded.drop_last() == seq!['0']);
        assert(seq!['0'].drop_last() == Seq::<char>::empty());
        assert(digits_value(seq!['0']) == 0);
        assert(padded.last() == last);
        assert(digits_value(padded) == n);
        assert(padded[0] == '0');
    } else {
        lemma_decimal_reads_back(n / 10);
        let front = decimal(n / 10);
        assert(decimal(n).drop_last() == front);
        assert(decimal(n).last() == last);
        assert forall|i: int| 0 <= i < decimal(n).len() implies is_digit(
            #[trigger] decimal(n)[i],
        ) by {
            if i < front.len() {
                assert(decimal(n)[i] == front[i]);
            }
        }
        assert(decimal(n)[0] == front[0]);
    }
    assert(two_digits(n)[0] != '+');
}

/// Appends the decimal notation of `n` to `out`.
fn push_decimal(out: &mut Vec<char>, n: u32)
    ensures
        final(out)@ == old(out)@ + decimal(n as nat),
    decreases n,
{
    if n >= 10 {
        push_decimal(out, n / 10);
    }
    let d: u8 = (n % 10) as u8;
    out.push((48u8 + d) as char);
}

/// Writes `n` in decimal, in at least two digits.
pub fn format_two_digits(n: u32) -> (r: String)
    ensures
        r@ == two_digits(n as nat),
{
    let mut out: Vec<char> = Vec::new();
    if n < 10 {
        out.push('0');
    }
    push_decimal(&mut out, n);
    from_chars(&out)
}

/// The index of the last `.` in `name`, or -1 where it has none.
pub open spec fn last_dot(name: Seq<char>) -> int
    decreases name.len(),
{
    if name.len() == 0 {
        -1
    } else if name.last() == '.' {
        name.len() - 1
    } else {
        last_dot(name.drop_last())
    }
}

/// The extension of the file name `name`, with its dot: what stands from the
/// last `.` on. A name without a `.`, one whose only `.` is its first
/// character, and the name `..` have none, which is the empty sequence.
pub open spec fn extension(name: Seq<char>) -> Seq<char> {
    let at = last_dot(name);
    if at <= 0 || name == seq!['.', '.'] {
        Seq::empty()
    } else {
        name.subrange(at, name.len() as int)
    }
}

/// The extension of a file name, dot included, or the empty string.
pub fn extension_of(name: &str) -> (r: String)
    ensures
        r@ == extension(name@),
{
    let v = to_chars(name);
    let n = v.len();
    let mut i: usize = n;
    assert(v@.subrange(0, n as int) == v@);
    while i > 0 && v[i - 1] != '.'
        invariant
            n == v@.len(),
            i <= n,
            last_dot(v@) == last_dot(v@.subrange(0, i as int)),
        decreases i,
    {
        assert(v@.subrange(0, i as int).drop_last() == v@.subrange(0, i - 1));
        i -= 1;
    }
    if i <= 1 || (n == 2 && v[0] == '.') {
        assert(n == 2 && v@[0] == '.' && i == 2 ==> v@ == seq!['.', '.']);
        return String::new();
    }
    assert(v@ != seq!['.', '.']) by {
        if v@ == seq!['.', '.'] {
            assert(v@.len() == 2);
            assert(v@[0] == '.');
        }
    }
    slice_to_string(&v, i - 1, n)
}

} // verus!
