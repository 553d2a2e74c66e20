//! Calendar dates as stored in the notes file: `YYYY-MM-DD`.
use vstd::prelude::*;

use crate::text::{chars_of, push_char, split_from, split_on, split_ranges};
use crate::toml_doc::key_lt;

verus! {

/// A day of the calendar.
#[derive(Clone, Copy, PartialEq, Eq, Structural, Debug)]
pub struct NoteDate {
    pub year: u32,
    pub month: u32,
    pub day: u32,
}

/// `c` is an ASCII decimal digit.
pub open spec fn is_digit(c: char) -> bool {
    '0' <= c <= '9'
}

/// The value of a decimal digit.
pub open spec fn digit_value(c: char) -> nat {
    (c as u32 - '0' as u32) as nat
}

/// The digit that stands for `d < 10`.
pub open spec fn digit_char(d: nat) -> char {
    ((d + '0' as u32) as u32) as char
}

/// Value of a sequence of decimal digits.
pub open spec fn digits_value(s: Seq<char>) -> nat
    decreases s.len(),
{
    if s.len() == 0 {
        0
    } else {
        digits_value(s.drop_last()) * 10 + digit_value(s.last())
    }
}

/// All characters of `s` are decimal digits.
pub open spec fn all_digits(s: Seq<char>) -> bool {
    forall|i: int| 0 <= i < s.len() ==> is_digit(#[trigger] s[i])
}

/// What parsing `s` as a `u32` gives: an optional `+` followed by at least
/// one decimal digit, with a value that fits in a `u32`.
pub open spec fn parse_u32_spec(s: Seq<char>) -> Option<u32> {
    let digits = if s.len() > 0 && s[0] == '+' {
        s.drop_first()
    } else {
        s
    };
    if digits.len() > 0 && all_digits(digits) && digits_value(digits) <= u32::MAX {
        Some(digits_value(digits) as u32)
    } else {
        None
    }
}

/// Decimal notation of `n`, without leading zeros.
pub open spec fn decimal(n: nat) -> Seq<char>
    decreases n,
{
    if n < 10 {
        seq![digit_char(n)]
    } else {
        decimal(n / 10).push(digit_char(n % 10))
    }
}

/// `s` with zeros in front up to `width` characters.
pub open spec fn zero_pad(s: Seq<char>, width: nat) -> Seq<char> {
    if s.len() < width {
        Seq::new((width - s.len()) as nat, |i: int| '0') + s
    } else {
        s
    }
}

/// `YYYY-MM-DD`: the year with at least four digits, month and day with at least two.
pub open spec fn date_text(d: NoteDate) -> Seq<char> {
    zero_pad(decimal(d.year as nat), 4) + seq!['-'] + zero_pad(decimal(d.month as nat), 2) + seq!['-']
        + zero_pad(decimal(d.day as nat), 2)
}

/// What parsing `s` as a date gives: three `-`separated `u32` numbers.
pub open spec fn parse_date_spec(s: Seq<char>) -> Option<NoteDate> {
    let parts = split_on(s, '-');
    if parts.len() == 3 && parse_u32_spec(parts[0]) is Some && parse_u32_spec(parts[1]) is Some
        && parse_u32_spec(parts[2]) is Some {
        Some(
            NoteDate {
                year: parse_u32_spec(parts[0])->0,
                month: parse_u32_spec(parts[1])->0,
                day: parse_u32_spec(parts[2])->0,
            },
        )
    } else {
        None
    }
}

/// `a` comes before `b`: by year, then month, then day.
pub open spec fn date_lt(a: NoteDate, b: NoteDate) -> bool {
    ||| a.year < b.year
    ||| (a.year == b.year && a.month < b.month)
    ||| (a.year == b.year && a.month == b.month && a.day < b.day)
}

/// The digit character for `d < 10`.
fn digit_to_char(d: u32) -> (c: char)
    requires
        d < 10,
    ensures
        c == digit_char(d as nat),
        is_digit(c),
        digit_value(c) == d,
{
    let c = ((d as u8) + 48u8) as char;
    assert(c == digit_char(d as nat));
    c
}

/// Decimal notation of `n`, zero-padded to `width` characters.
fn padded_decimal(n: u32, width: usize) -> (v: Vec<char>)
    requires
        width <= 4,
    ensures
        v@ == zero_pad(decimal(n as nat), width as nat),
{
    let mut v: Vec<char> = Vec::new();
    let mut x: u32 = n;
    loop
        invariant_except_break
            decimal(n as nat) == decimal(x as nat) + v@,
        ensures
            decimal(n as nat) == v@,
        decreases x,
    {
        let c = digit_to_char(x % 10);
        let ghost old_v = v@;
        v.insert(0, c);
        if x < 10 {
            assert(decimal(x as nat) =~= seq![c]);
            assert(v@ =~= seq![c] + old_v);
            assert(decimal(n as nat) =~= v@);
            break;
        }
        assert(decimal(x as nat) == decimal((x / 10) as nat).push(digit_char((x % 10) as nat)));
        assert(v@ =~= seq![c] + old_v);
        assert(decimal(n as nat) =~= decimal((x / 10) as nat) + v@);
        x = x / 10;
    }
    assert(decimal(n as nat) =~= v@);
    let digits = v.len();
    if digits < width {
        let ghost num = v@;
        let mut i: usize = 0;
        while i < width - digits
            invariant
                digits == num.len(),
                digits < width,
                i <= width - digits,
                v@ == Seq::new(i as nat, |k: int| '0') + num,
            decreases width - digits - i,
        {
            v.insert(0, '0');
            assert(Seq::new((i + 1) as nat, |k: int| '0') + num =~= seq!['0'] + (Seq::new(
                i as nat,
                |k: int| '0',
            ) + num));
            i += 1;
        }
    }
    v
}

/// Parses `s[start..end]` as a `u32`: an optional `+`, then decimal digits.
fn parse_u32_chars(s: &Vec<char>, start: usize, end: usize) -> (r: Option<u32>)
    requires
        start <= end <= s@.len(),
    ensures
        r == parse_u32_spec(s@.subrange(start as int, end as int)),
{
    let ghost t = s@.subrange(start as int, end as int);
    let mut i = start;
    if i < end && s[i] == '+' {
        i += 1;
    }
    let ghost digits = s@.subrange(i as int, end as int);
    proof {
        if t.len() > 0 && t[0] == '+' {
            assert(digits =~= t.drop_first());
        } else {
            assert(digits =~= t);
        }
    }
    if i == end {
        return None;
    }
    let first = i;
    let mut value: u64 = 0;
    while i < end
        invariant
            start <= first <= i <= end <= s@.len(),
            digits == s@.subrange(first as int, end as int),
            t == s@.subrange(start as int, end as int),
            first < end,
            t.len() > 0 && t[0] == '+' ==> digits == t.drop_first(),
            !(t.len() > 0 && t[0] == '+') ==> digits == t,
            all_digits(s@.subrange(first as int, i as int)),
            value == digits_value(s@.subrange(first as int, i as int)),
            value <= u32::MAX,
        decreases end - i,
    {
        let c = s[i];
        let ghost prev = s@.subrange(first as int, i as int);
        let ghost next = s@.subrange(first as int, i + 1);
        assert(next.drop_last() =~= prev);
        if !('0' <= c && c <= '9') {
            proof {
                assert(digits[i - first] == c);
            }
            return None;
        }
        let d = (c as u32) - ('0' as u32);
        value = value * 10 + d as u64;
        if value > u32::MAX as u64 {
            proof {
                lemma_digits_value_prefix_le(digits, i + 1 - first);
                assert(digits.take(i + 1 - first) =~= next);
            }
            return None;
        }
        i += 1;
    }
    assert(s@.subrange(first as int, i as int) =~= digits);
    Some(value as u32)
}

/// A longer prefix of digits never has a smaller value.
proof fn lemma_digits_value_prefix_le(s: Seq<char>, k: int)
    requires
        0 <= k <= s.len(),
    ensures
        digits_value(s.take(k)) <= digits_value(s),
    decreases s.len() - k,
{
    if k < s.len() {
        lemma_digits_value_prefix_le(s, k + 1);
        assert(s.take(k + 1).drop_last() =~= s.take(k));
    } else {
        assert(s.take(k) =~= s);
    }
}

impl NoteDate {
    /// Reads a `YYYY-MM-DD` date: three `-`separated numbers, each an
    /// optional `+` and decimal digits fitting in a `u32`. Only such text is
    /// a date.
    pub fn parse(date: &str) -> (r: NoteDate)
        requires
            parse_date_spec(date@) is Some,
        ensures
            r == parse_date_spec(date@)->0,
    {
        NoteDate::try_parse(date).unwrap()
    }

    /// The date that `date` holds as `parse` reads it, or `None` when the
    /// text is not a date.
    pub fn try_parse(date: &str) -> (r: Option<NoteDate>)
        ensures
            r == parse_date_spec(date@),
    {
        let chars = chars_of(date);
        let parts = split_ranges(&chars, '-');
        if parts.len() != 3 {
            return None;
        }
        let y = parse_u32_chars(&chars, parts[0].0, parts[0].1);
        let m = parse_u32_chars(&chars, parts[1].0, parts[1].1);
        let d = parse_u32_chars(&chars, parts[2].0, parts[2].1);
        match (y, m, d) {
            (Some(year), Some(month), Some(day)) => Some(NoteDate { year, month, day }),
            _ => None,
        }
    }

    /// The date as `YYYY-MM-DD` text.
    pub fn to_string(&self) -> (s: String)
        ensures
            s@ == date_text(*self),
    {
        let mut s = String::new();
        let y = padded_decimal(self.year, 4);
        let m = padded_decimal(self.month, 2);
        let d = padded_decimal(self.day, 2);
        let mut i: usize = 0;
        while i < y.len()
            invariant
                i <= y@.len(),
                s@ == y@.take(i as int),
            decreases y@.len() - i,
        {
            push_char(&mut s, y[i]);
            assert(y@.take(i + 1) =~= y@.take(i as int).push(y@[i as int]));
            i += 1;
        }
        assert(y@.take(y@.len() as int) =~= y@);
        push_char(&mut s, '-');
        let ghost prefix1 = s@;
        i = 0;
        while i < m.len()
            invariant
                i <= m@.len(),
                s@ == prefix1 + m@.take(i as int),
            decreases m@.len() - i,
        {
            push_char(&mut s, m[i]);
            assert(m@.take(i + 1) =~= m@.take(i as int).push(m@[i as int]));
            i += 1;
        }
        assert(m@.take(m@.len() as int) =~= m@);
        push_char(&mut s, '-');
        let ghost prefix2 = s@;
        i = 0;
        while i < d.len()
            invariant
                i <= d@.len(),
                s@ == prefix2 + d@.take(i as int),
            decreases d@.len() - i,
        {
            push_char(&mut s, d[i]);
            assert(d@.take(i + 1) =~= d@.take(i as int).push(d@[i as int]));
            i += 1;
        }
        assert(d@.take(d@.len() as int) =~= d@);
        assert(s@ =~= date_text(*self));
        s
    }

    /// Whether this date comes before `other`.
    pub fn is_before(&self, other: &NoteDate) -> (b: bool)
        ensures
            b == date_lt(*self, *other),
    {
        self.year < other.year || (self.year == other.year && self.month < other.month) || (
        self.year == other.year && self.month == other.month && self.day < other.day)
    }

    /// Orders dates by year, then month, then day.
    pub fn compare(&self, other: &NoteDate) -> (o: std::cmp::Ordering)
        ensures
            o == std::cmp::Ordering::Less <==> date_lt(*self, *other),
            o == std::cmp::Ordering::Equal <==> *self == *other,
            o == std::cmp::Ordering::Greater <==> date_lt(*other, *self),
    {
        if self.year < other.year {
            std::cmp::Ordering::Less
        } else if self.year > other.year {
            std::cmp::Ordering::Greater
        } else if self.month < other.month {
            std::cmp::Ordering::Less
        } else if self.month > other.month {
            std::cmp::Ordering::Greater
        } else if self.day < other.day {
            std::cmp::Ordering::Less
        } else if self.day > other.day {
            std::cmp::Ordering::Greater
        } else {
            std::cmp::Ordering::Equal
        }
    }
}

/// Decimal notation consists of digits and reads back as the number.
proof fn lemma_decimal(n: nat)
    ensures
        decimal(n).len() > 0,
        all_digits(decimal(n)),
        digits_value(decimal(n)) == n,
        decimal(n)[0] != '+',
    decreases n,
{
    if n >= 10 {
        lemma_decimal(n / 10);
        let d = decimal(n);
        assert(d.drop_last() =~= decimal(n / 10));
        assert(digit_value(d.last()) == n % 10);
        assert(digits_value(d) == digits_value(decimal(n / 10)) * 10 + n % 10);
        assert(n == (n / 10) * 10 + n % 10);
        assert(digits_value(decimal(n / 10)) == n / 10);
        assert(digits_value(d) == n);
        assert forall|i: int| 0 <= i < d.len() implies is_digit(#[trigger] d[i]) by {
            if i < d.len() - 1 {
                assert(d[i] == decimal(n / 10)[i]);
            }
        }
    } else {
        let d = decimal(n);
        assert(d.drop_last() =~= Seq::<char>::empty());
        assert(digit_value(d.last()) == n);
        assert(digits_value(Seq::<char>::empty()) == 0);
        assert(digits_value(d) == n);
    }
}

/// Leading zeros do not change the value of digits.
proof fn lemma_leading_zeros(k: nat, s: Seq<char>)
    ensures
        digits_value(Seq::new(k, |i: int| '0') + s) == digits_value(s),
    decreases s.len(), k,
{
    let z = Seq::new(k, |i: int| '0');
    if s.len() == 0 {
        if k > 0 {
            assert((z + s).drop_last() =~= Seq::new((k - 1) as nat, |i: int| '0') + s);
            lemma_leading_zeros((k - 1) as nat, s);
        } else {
            assert(z + s =~= s);
        }
    } else {
        assert((z + s).drop_last() =~= z + s.drop_last());
        lemma_leading_zeros(k, s.drop_last());
    }
}

/// A zero-padded decimal number reads back as the number.
proof fn lemma_padded(n: nat, width: nat)
    ensures
        zero_pad(decimal(n), width).len() > 0,
        all_digits(zero_pad(decimal(n), width)),
        digits_value(zero_pad(decimal(n), width)) == n,
        zero_pad(decimal(n), width)[0] != '+',
        forall|i: int|
            0 <= i < zero_pad(decimal(n), width).len() ==> #[trigger] zero_pad(decimal(n), width)[i]
                != '-',
{
    lemma_decimal(n);
    let d = decimal(n);
    let p = zero_pad(d, width);
    if d.len() < width {
        lemma_leading_zeros((width - d.len()) as nat, d);
        assert forall|i: int| 0 <= i < p.len() implies is_digit(#[trigger] p[i]) by {
            if i >= width - d.len() {
                assert(p[i] == d[i - (width - d.len())]);
            }
        }
    }
    assert forall|i: int| 0 <= i < p.len() implies #[trigger] p[i] != '-' by {
        assert(is_digit(p[i]));
    }
}

/// Text without separators is appended to the current part.
proof fn lemma_split_no_sep(x: Seq<char>, rest: Seq<char>, sep: char, cur: Seq<char>)
    requires
        forall|i: int| 0 <= i < x.len() ==> x[i] != sep,
    ensures
        split_from(x + rest, sep, cur) == split_from(rest, sep, cur + x),
    decreases x.len(),
{
    if x.len() == 0 {
        assert(x + rest =~= rest);
        assert(cur + x =~= cur);
    } else {
        assert((x + rest).drop_first() =~= x.drop_first() + rest);
        lemma_split_no_sep(x.drop_first(), rest, sep, cur.push(x[0]));
        assert(cur.push(x[0]) + x.drop_first() =~= cur + x);
    }
}

/// Reading back the text of a date gives the date.
pub proof fn lemma_date_text_roundtrip(d: NoteDate)
    ensures
        parse_date_spec(date_text(d)) == Some(d),
{
    let a = zero_pad(decimal(d.year as nat), 4);
    let b = zero_pad(decimal(d.month as nat), 2);
    let c = zero_pad(decimal(d.day as nat), 2);
    lemma_padded(d.year as nat, 4);
    lemma_padded(d.month as nat, 2);
    lemma_padded(d.day as nat, 2);
    let e = Seq::<char>::empty();
    let t = date_text(d);
    assert(t =~= a + (seq!['-'] + (b + (seq!['-'] + c))));
    lemma_split_no_sep(a, seq!['-'] + (b + (seq!['-'] + c)), '-', e);
    assert(e + a =~= a);
    let r1 = b + (seq!['-'] + c);
    assert((seq!['-'] + r1).drop_first() =~= r1);
    lemma_split_no_sep(b, seq!['-'] + c, '-', e);
    assert(e + b =~= b);
    assert((seq!['-'] + c).drop_first() =~= c);
    lemma_split_no_sep(c, Seq::empty(), '-', e);
    assert(c + Seq::<char>::empty() =~= c);
    assert(e + c =~= c);
    let parts = split_on(t, '-');
    assert(parts =~= seq![a, b, c]);
}

/// Dates are ordered by year, then month, then day: the order is strict
/// (irreflexive, asymmetric, transitive) and total.
pub proof fn lemma_date_order(a: NoteDate, b: NoteDate, c: NoteDate)
    ensures
        !date_lt(a, a),
        date_lt(a, b) ==> !date_lt(b, a),
        a != b ==> date_lt(a, b) || date_lt(b, a),
        date_lt(a, b) && date_lt(b, c) ==> date_lt(a, c),
{
}

/// The four digits of `n < 10000`, most significant first.
pub open spec fn digits4(n: nat) -> Seq<char> {
    seq![digit_char(n / 1000), digit_char(n / 100 % 10), digit_char(n / 10 % 10), digit_char(n % 10)]
}

/// The two digits of `n < 100`, most significant first.
pub open spec fn digits2(n: nat) -> Seq<char> {
    seq![digit_char(n / 10), digit_char(n % 10)]
}

/// The digit character of `d < 10` is `'0'` moved up by `d`.
proof fn lemma_digit_char(d: nat)
    requires
        d < 10,
    ensures
        digit_char(d) as u32 == d + 48,
{
}

/// Two digits padded to width 2.
proof fn lemma_pad2(n: nat)
    requires
        n < 100,
    ensures
        zero_pad(decimal(n), 2) == digits2(n),
{
    lemma_digit_char(0);
    if n < 10 {
        assert(digit_char(0) == '0');
        assert(zero_pad(decimal(n), 2) =~= digits2(n));
    } else {
        assert(decimal(n / 10) == seq![digit_char(n / 10)]);
        assert(zero_pad(decimal(n), 2) =~= digits2(n));
    }
}

/// Four digits padded to width 4.
proof fn lemma_pad4(n: nat)
    requires
        n < 10000,
    ensures
        zero_pad(decimal(n), 4) == digits4(n),
{
    lemma_digit_char(0);
    assert(digit_char(0) == '0');
    if n < 10 {
        assert(zero_pad(decimal(n), 4) =~= digits4(n));
    } else if n < 100 {
        assert(decimal(n / 10) == seq![digit_char(n / 10)]);
        assert(n / 10 % 10 == n / 10);
        assert(zero_pad(decimal(n), 4) =~= digits4(n));
    } else if n < 1000 {
        let q = n / 10;
        assert(q / 10 == n / 100);
        assert(q % 10 == n / 10 % 10);
        assert(decimal(q / 10) == seq![digit_char(q / 10)]);
        assert(decimal(q) =~= seq![digit_char(n / 100), digit_char(n / 10 % 10)]);
        assert(n / 100 % 10 == n / 100);
        assert(zero_pad(decimal(n), 4) =~= digits4(n));
    } else {
        let q = n / 10;
        let r = q / 10;
        assert(r / 10 == n / 1000);
        assert(r % 10 == n / 100 % 10);
        assert(q % 10 == n / 10 % 10);
        assert(decimal(r / 10) == seq![digit_char(r / 10)]);
        assert(decimal(r) =~= seq![digit_char(n / 1000), digit_char(n / 100 % 10)]);
        assert(decimal(q) =~= seq![digit_char(n / 1000), digit_char(n / 100 % 10), digit_char(
            n / 10 % 10,
        )]);
        assert(zero_pad(decimal(n), 4) =~= digits4(n));
    }
}

/// Texts that start with different characters are ordered by those; texts
/// that start with the same one are ordered by the rest.
proof fn lemma_key_lt_cons(x: char, s: Seq<char>, y: char, t: Seq<char>)
    ensures
        key_lt(seq![x] + s, seq![y] + t) == (if x != y {
            (x as u32) < (y as u32)
        } else {
            key_lt(s, t)
        }),
{
    assert((seq![x] + s).drop_first() =~= s);
    assert((seq![y] + t).drop_first() =~= t);
    assert((seq![x] + s)[0] == x);
    assert((seq![y] + t)[0] == y);
}

/// Texts that start with digits are ordered by those digits first.
proof fn lemma_key_lt_digit(a: nat, s: Seq<char>, b: nat, t: Seq<char>)
    requires
        a < 10,
        b < 10,
    ensures
        key_lt(seq![digit_char(a)] + s, seq![digit_char(b)] + t) == (if a != b {
            a < b
        } else {
            key_lt(s, t)
        }),
{
    lemma_digit_char(a);
    lemma_digit_char(b);
    lemma_key_lt_cons(digit_char(a), s, digit_char(b), t);
}

/// Texts that start with two digits of a number below 100 are ordered by
/// the number first.
proof fn lemma_key_lt_digits2(a: nat, s: Seq<char>, b: nat, t: Seq<char>)
    requires
        a < 100,
        b < 100,
    ensures
        key_lt(digits2(a) + s, digits2(b) + t) == (if a != b {
            a < b
        } else {
            key_lt(s, t)
        }),
{
    assert(digits2(a) + s =~= seq![digit_char(a / 10)] + (seq![digit_char(a % 10)] + s));
    assert(digits2(b) + t =~= seq![digit_char(b / 10)] + (seq![digit_char(b % 10)] + t));
    lemma_key_lt_digit(a / 10, seq![digit_char(a % 10)] + s, b / 10, seq![digit_char(b % 10)] + t);
    lemma_key_lt_digit(a % 10, s, b % 10, t);
}

/// The four digits of `n` are the two digits of its hundreds followed by
/// the two digits of the rest.
proof fn lemma_digits4_split(n: nat)
    requires
        n < 10000,
    ensures
        n == 100 * (n / 100) + n % 100,
        n / 100 < 100,
        n % 100 < 100,
        digits4(n) == digits2(n / 100) + digits2(n % 100),
{
    vstd::arithmetic::div_mod::lemma_fundamental_div_mod(n as int, 100);
    vstd::arithmetic::div_mod::lemma_div_denominator(n as int, 100, 10);
    assert(n / 100 / 10 == n / 1000);
    assert((n % 100) / 10 == n / 10 % 10) by {
        vstd::arithmetic::div_mod::lemma_fundamental_div_mod(n as int, 10);
        vstd::arithmetic::div_mod::lemma_fundamental_div_mod((n / 10) as int, 10);
        vstd::arithmetic::div_mod::lemma_div_denominator(n as int, 10, 10);
        vstd::arithmetic::div_mod::lemma_fundamental_div_mod((n % 100) as int, 10);
        vstd::arithmetic::div_mod::lemma_mod_bound(n as int, 100);
    }
    assert((n % 100) % 10 == n % 10) by {
        vstd::arithmetic::div_mod::lemma_mod_mod(n as int, 10, 10);
    }
    assert(digits4(n) =~= digits2(n / 100) + digits2(n % 100));
}

/// Texts that start with four digits of a number below 10000 are ordered
/// by the number first.
proof fn lemma_key_lt_digits4(a: nat, s: Seq<char>, b: nat, t: Seq<char>)
    requires
        a < 10000,
        b < 10000,
    ensures
        key_lt(digits4(a) + s, digits4(b) + t) == (if a != b {
            a < b
        } else {
            key_lt(s, t)
        }),
{
    lemma_digits4_split(a);
    lemma_digits4_split(b);
    let (ha, la, hb, lb) = (a / 100, a % 100, b / 100, b % 100);
    assert(digits4(a) + s =~= digits2(ha) + (digits2(la) + s));
    assert(digits4(b) + t =~= digits2(hb) + (digits2(lb) + t));
    lemma_key_lt_digits2(ha, digits2(la) + s, hb, digits2(lb) + t);
    lemma_key_lt_digits2(la, s, lb, t);
}

/// For years below 10000 and months and days below 100, the texts of two
/// dates are in the order of the dates: one text comes before the other,
/// character by character, exactly when its date comes first, and the texts
/// are equal exactly when the dates are.
pub proof fn lemma_date_text_order(a: NoteDate, b: NoteDate)
    requires
        a.year < 10000,
        a.month < 100,
        a.day < 100,
        b.year < 10000,
        b.month < 100,
        b.day < 100,
    ensures
        key_lt(date_text(a), date_text(b)) <==> date_lt(a, b),
        date_text(a) == date_text(b) <==> a == b,
{
    lemma_pad4(a.year as nat);
    lemma_pad4(b.year as nat);
    lemma_pad2(a.month as nat);
    lemma_pad2(b.month as nat);
    lemma_pad2(a.day as nat);
    lemma_pad2(b.day as nat);
    let e = Seq::<char>::empty();
    let ta = date_text(a);
    let tb = date_text(b);
    let da = digits2(a.day as nat) + e;
    let db = digits2(b.day as nat) + e;
    let ma = seq!['-'] + (digits2(a.month as nat) + (seq!['-'] + da));
    let mb = seq!['-'] + (digits2(b.month as nat) + (seq!['-'] + db));
    assert(ta =~= digits4(a.year as nat) + ma);
    assert(tb =~= digits4(b.year as nat) + mb);
    lemma_key_lt_digits4(a.year as nat, ma, b.year as nat, mb);
    lemma_key_lt_cons('-', digits2(a.month as nat) + (seq!['-'] + da), '-', digits2(b.month as nat) + (
    seq!['-'] + db));
    lemma_key_lt_digits2(a.month as nat, seq!['-'] + da, b.month as nat, seq!['-'] + db);
    lemma_key_lt_cons('-', da, '-', db);
    lemma_key_lt_digits2(a.day as nat, e, b.day as nat, e);
    lemma_date_text_roundtrip(a);
    lemma_date_text_roundtrip(b);
}

impl From<(u32, u32, u32)> for NoteDate {
    fn from(date: (u32, u32, u32)) -> (d: Self) {
        NoteDate { year: date.0, month: date.1, day: date.2 }
    }
}

impl vstd::std_specs::convert::FromSpecImpl<(u32, u32, u32)> for NoteDate {
    open spec fn obeys_from_spec() -> bool {
        true
    }

    open spec fn from_spec(date: (u32, u32, u32)) -> NoteDate {
        NoteDate { year: date.0, month: date.1, day: date.2 }
    }
}

} // verus!
