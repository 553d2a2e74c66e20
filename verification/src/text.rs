//! Character and byte positions in UTF-8 text.
use vstd::prelude::*;
use vstd::std_specs::iter::IteratorSpec;

verus! {

broadcast use vstd::string::group_string_axioms;

/// Number of bytes that the UTF-8 encoding of `c` takes.
pub open spec fn utf8_width(c: char) -> nat {
    let v = c as u32;
    if v <= 0x7F {
        1
    } else if v <= 0x7FF {
        2
    } else if v <= 0xFFFF {
        3
    } else {
        4
    }
}

/// Number of bytes of the UTF-8 encoding of `s`.
pub open spec fn byte_len(s: Seq<char>) -> nat
    decreases s.len(),
{
    if s.len() == 0 {
        0
    } else {
        byte_len(s.drop_last()) + utf8_width(s.last())
    }
}

/// The byte offset that `char_position` reports for the `n`th character:
/// the end of the first `n` characters when `1 <= n <= s.len()`, else `0`.
pub open spec fn char_position_spec(s: Seq<char>, n: int) -> nat {
    if 1 <= n <= s.len() {
        byte_len(s.take(n))
    } else {
        0
    }
}

/// Appending characters adds their byte lengths.
pub proof fn lemma_byte_len_concat(a: Seq<char>, b: Seq<char>)
    ensures
        byte_len(a + b) == byte_len(a) + byte_len(b),
    decreases b.len(),
{
    if b.len() == 0 {
        assert(a + b =~= a);
    } else {
        lemma_byte_len_concat(a, b.drop_last());
        assert((a + b).drop_last() =~= a + b.drop_last());
    }
}

/// Taking one more character adds that character's width.
pub proof fn lemma_byte_len_take_step(s: Seq<char>, k: int)
    requires
        0 <= k < s.len(),
    ensures
        byte_len(s.take(k + 1)) == byte_len(s.take(k)) + utf8_width(s[k]),
{
    assert(s.take(k + 1).drop_last() =~= s.take(k));
}

/// A prefix is never longer in bytes than the whole text.
pub proof fn lemma_byte_len_prefix_le(s: Seq<char>, k: int)
    requires
        0 <= k <= s.len(),
    ensures
        byte_len(s.take(k)) <= byte_len(s),
{
    lemma_byte_len_concat(s.take(k), s.skip(k));
    assert(s.take(k) + s.skip(k) =~= s);
}

/// Each character's encoding is `utf8_width` bytes long.
pub proof fn lemma_encode_scalar_len(c: char)
    ensures
        vstd::utf8::encode_scalar(c as u32).len() == utf8_width(c),
{
    vstd::utf8::char_is_scalar(c);
}

/// Every character takes at least one byte.
pub proof fn lemma_len_le_byte_len(s: Seq<char>)
    ensures
        s.len() <= byte_len(s),
    decreases s.len(),
{
    if s.len() > 0 {
        lemma_len_le_byte_len(s.drop_last());
    }
}

/// `byte_len` agrees with the length of vstd's UTF-8 encoding.
pub proof fn lemma_encode_utf8_len(s: Seq<char>)
    ensures
        vstd::utf8::encode_utf8(s).len() == byte_len(s),
    decreases s.len(),
{
    if s.len() > 0 {
        lemma_encode_scalar_len(s[0]);
        lemma_encode_utf8_len(s.drop_first());
        lemma_byte_len_concat(seq![s[0]], s.drop_first());
        assert(seq![s[0]] + s.drop_first() =~= s);
        assert(seq![s[0]].drop_last() =~= Seq::<char>::empty());
        assert(byte_len(Seq::<char>::empty()) == 0);
        assert(byte_len(seq![s[0]]) == utf8_width(s[0]));
        assert(vstd::utf8::encode_utf8(s) == vstd::utf8::encode_scalar(s[0] as u32)
            + vstd::utf8::encode_utf8(s.drop_first()));
    }
}

/// Byte width of `c` in UTF-8.
pub fn char_utf8_width(c: char) -> (w: usize)
    ensures
        w == utf8_width(c),
{
    let v = c as u32;
    if v <= 0x7F {
        1
    } else if v <= 0x7FF {
        2
    } else if v <= 0xFFFF {
        3
    } else {
        4
    }
}

/// Byte position just after the `n`th character of `string`; `0` when `n` is
/// zero or larger than the number of characters.
pub fn char_position(string: &str, n: usize) -> (pos: usize)
    ensures
        pos == char_position_spec(string@, n as int),
{
    let total = string.as_bytes().len();
    proof {
        lemma_encode_utf8_len(string@);
    }
    let mut bytes: usize = 0;
    let mut count: usize = 0;
    for c in it: string.chars()
        invariant
            it.seq() == string@,
            count == it.index(),
            count <= string@.len(),
            bytes == byte_len(string@.take(count as int)),
            n == 0 || count < n,
            total == byte_len(string@),
    {
        proof {
            lemma_byte_len_take_step(string@, count as int);
            lemma_byte_len_prefix_le(string@, count + 1);
            lemma_len_le_byte_len(string@);
        }
        count += 1;
        bytes += char_utf8_width(c);
        if count == n {
            return bytes;
        }
    }
    0
}

/// The characters of `s`, in order.
pub fn chars_of(s: &str) -> (v: Vec<char>)
    ensures
        v@ == s@,
{
    let mut v: Vec<char> = Vec::new();
    for c in it: s.chars()
        invariant
            it.seq() == s@,
            v@ == s@.take(it.index() as int),
    {
        proof {
            assert(s@.take(it.index() + 1) =~= s@.take(it.index() as int).push(c));
        }
        v.push(c);
    }
    proof {
        assert(s@.take(s@.len() as int) =~= s@);
    }
    v
}

/// Whether two character vectors hold the same characters.
pub fn chars_equal(a: &Vec<char>, b: &Vec<char>) -> (eq: bool)
    ensures
        eq == (a@ == b@),
{
    if a.len() != b.len() {
        return false;
    }
    let mut i: usize = 0;
    while i < a.len()
        invariant
            a@.len() == b@.len(),
            i <= a@.len(),
            forall|k: int| 0 <= k < i ==> a@[k] == b@[k],
        decreases a@.len() - i,
    {
        if a[i] != b[i] {
            return false;
        }
        i += 1;
    }
    assert(a@ =~= b@);
    true
}

/// Whether `s` holds exactly the characters of `lit`.
pub fn str_equals(s: &str, lit: &str) -> (eq: bool)
    ensures
        eq == (s@ == lit@),
{
    let a = chars_of(s);
    let b = chars_of(lit);
    chars_equal(&a, &b)
}

/// Wraps `String::push`, which appends one character (as std documents).
#[verifier::external_body]
pub(crate) fn push_char(s: &mut String, c: char)
    ensures
        final(s)@ == old(s)@.push(c),
{
    s.push(c)
}

/// `c` has the Unicode `White_Space` property (what `char::is_whitespace`
/// and `str::trim` go by).
pub open spec fn is_unicode_whitespace(c: char) -> bool {
    let v = c as u32;
    ||| 0x09 <= v <= 0x0D
    ||| v == 0x20
    ||| v == 0x85
    ||| v == 0xA0
    ||| v == 0x1680
    ||| 0x2000 <= v <= 0x200A
    ||| v == 0x2028
    ||| v == 0x2029
    ||| v == 0x202F
    ||| v == 0x205F
    ||| v == 0x3000
}

/// `s` is empty once trimmed: every character is white space.
pub open spec fn is_blank(s: Seq<char>) -> bool {
    forall|i: int| 0 <= i < s.len() ==> is_unicode_whitespace(#[trigger] s[i])
}

/// Whether `c` is white space.
pub fn char_is_whitespace(c: char) -> (b: bool)
    ensures
        b == is_unicode_whitespace(c),
{
    let v = c as u32;
    (0x09 <= v && v <= 0x0D) || v == 0x20 || v == 0x85 || v == 0xA0 || v == 0x1680 || (0x2000 <= v
        && v <= 0x200A) || v == 0x2028 || v == 0x2029 || v == 0x202F || v == 0x205F || v == 0x3000
}

/// Whether `s` holds nothing but white space.
pub fn is_blank_str(s: &str) -> (b: bool)
    ensures
        b == is_blank(s@),
{
    let v = chars_of(s);
    let mut i: usize = 0;
    while i < v.len()
        invariant
            v@ == s@,
            i <= v@.len(),
            forall|k: int| 0 <= k < i ==> is_unicode_whitespace(#[trigger] v@[k]),
        decreases v@.len() - i,
    {
        if !char_is_whitespace(v[i]) {
            return false;
        }
        i += 1;
    }
    true
}

/// A string holding `s[start..end]`.
pub fn string_from_range(s: &Vec<char>, start: usize, end: usize) -> (r: String)
    requires
        start <= end <= s@.len(),
    ensures
        r@ == s@.subrange(start as int, end as int),
{
    let mut r = String::new();
    let mut i = start;
    while i < end
        invariant
            start <= i <= end <= s@.len(),
            r@ == s@.subrange(start as int, i as int),
        decreases end - i,
    {
        push_char(&mut r, s[i]);
        assert(s@.subrange(start as int, i + 1) =~= s@.subrange(start as int, i as int).push(
            s@[i as int],
        ));
        i += 1;
    }
    r
}

/// Splits `s` at every `sep`, `cur` being the part read so far.
pub open spec fn split_from(s: Seq<char>, sep: char, cur: Seq<char>) -> Seq<Seq<char>>
    decreases s.len(),
{
    if s.len() == 0 {
        seq![cur]
    } else if s[0] == sep {
        seq![cur] + split_from(s.drop_first(), sep, Seq::empty())
    } else {
        split_from(s.drop_first(), sep, cur.push(s[0]))
    }
}

/// The parts of `s` between the separators `sep`.
pub open spec fn split_on(s: Seq<char>, sep: char) -> Seq<Seq<char>> {
    split_from(s, sep, Seq::empty())
}

/// Splits `s` at every `sep`, giving the start and end of each part.
pub fn split_ranges(s: &Vec<char>, sep: char) -> (parts: Vec<(usize, usize)>)
    ensures
        parts@.len() == split_on(s@, sep).len(),
        forall|k: int|
            0 <= k < parts@.len() ==> (#[trigger] parts@[k]).0 <= parts@[k].1 <= s@.len()
                && s@.subrange(parts@[k].0 as int, parts@[k].1 as int) == split_on(s@, sep)[k],
{
    let mut parts: Vec<(usize, usize)> = Vec::new();
    let mut cur_start: usize = 0;
    let mut i: usize = 0;
    proof {
        assert(s@.skip(0) =~= s@);
        assert(s@.subrange(0, 0) =~= Seq::<char>::empty());
        assert(parts@.map_values(|p: (usize, usize)| s@.subrange(p.0 as int, p.1 as int))
            =~= Seq::<Seq<char>>::empty());
        assert(split_on(s@, sep) =~= Seq::<Seq<char>>::empty() + split_on(s@, sep));
    }
    while i < s.len()
        invariant
            cur_start <= i <= s@.len(),
            split_on(s@, sep) == parts@.map_values(
                |p: (usize, usize)| s@.subrange(p.0 as int, p.1 as int),
            ) + split_from(s@.skip(i as int), sep, s@.subrange(cur_start as int, i as int)),
            forall|k: int|
                0 <= k < parts@.len() ==> (#[trigger] parts@[k]).0 <= parts@[k].1 <= s@.len(),
        decreases s@.len() - i,
    {
        let ghost rest = s@.skip(i as int);
        let ghost cur = s@.subrange(cur_start as int, i as int);
        assert(rest.drop_first() =~= s@.skip(i + 1));
        if s[i] == sep {
            let ghost old_parts = parts@;
            parts.push((cur_start, i));
            assert(s@.subrange((i + 1) as int, (i + 1) as int) =~= Seq::<char>::empty());
            assert(parts@.map_values(|p: (usize, usize)| s@.subrange(p.0 as int, p.1 as int))
                =~= old_parts.map_values(|p: (usize, usize)| s@.subrange(p.0 as int, p.1 as int))
                + seq![cur]);
            cur_start = i + 1;
        } else {
            assert(s@.subrange(cur_start as int, i + 1) =~= cur.push(s@[i as int]));
        }
        i += 1;
    }
    let ghost old_parts = parts@;
    parts.push((cur_start, s.len()));
    proof {
        assert(s@.skip(s@.len() as int) =~= Seq::<char>::empty());
        let f = |p: (usize, usize)| s@.subrange(p.0 as int, p.1 as int);
        assert(parts@.map_values(f) =~= old_parts.map_values(f) + seq![
            s@.subrange(cur_start as int, s@.len() as int),
        ]);
        assert forall|k: int| 0 <= k < parts@.len() implies s@.subrange(
            (#[trigger] parts@[k]).0 as int,
            parts@[k].1 as int,
        ) == split_on(s@, sep)[k] by {
            assert(parts@.map_values(f)[k] == f(parts@[k]));
        }
    }
    parts
}

} // verus!
