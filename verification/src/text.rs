//! Text as sequences of characters: trimming, splitting, comparing and numbers.
//!
//! Every rule here is stated over `Seq<char>`, the view of `str` and `String`, so that the
//! modules that read table cells and build labels can state their results exactly.
use vstd::prelude::*;

verus! {

/// `String::push` of std: appends one character at the end of the string.
pub assume_specification[ String::push ](s: &mut String, c: char)
    ensures
        final(s)@ == old(s)@.push(c),
;

/// The characters of `s`, in order.
pub fn to_chars(s: &str) -> (r: Vec<char>)
    ensures
        r@ == s@,
{
    let mut out: Vec<char> = Vec::new();
    let mut it = s.chars();
    let ghost all = s@;
    loop
        invariant
            out@ + vstd::std_specs::iter::IteratorSpec::remaining(&it) == all,
            vstd::std_specs::iter::IteratorSpec::obeys_prophetic_iter_laws(&it),
            vstd::std_specs::iter::IteratorSpec::decrease(&it) is Some,
        ensures
            out@ == all,
        decreases vstd::std_specs::iter::IteratorSpec::decrease(&it)->0,
    {
        match it.next() {
            Some(c) => {
                out.push(c);
                assert(out@ + vstd::std_specs::iter::IteratorSpec::remaining(&it) =~= all);
            },
            None => {
                assert(out@ =~= all);
                break;
            },
        }
    }
    out
}

/// The string made of `chars`.
pub fn from_chars(chars: &[char]) -> (r: String)
    ensures
        r@ == chars@,
{
    let mut out = String::new();
    let mut i: usize = 0;
    while i < chars.len()
        invariant
            i <= chars.len(),
            out@ == chars@.take(i as int),
        decreases chars.len() - i,
    {
        out.push(chars[i]);
        assert(chars@.take(i + 1) =~= chars@.take(i as int).push(chars@[i as int]));
        i = i + 1;
    }
    assert(chars@.take(chars@.len() as int) =~= chars@);
    out
}

/// Appends `more` to `out`.
pub fn push_chars(out: &mut Vec<char>, more: &[char])
    ensures
        final(out)@ == old(out)@ + more@,
{
    let ghost start = out@;
    let mut i: usize = 0;
    while i < more.len()
        invariant
            i <= more.len(),
            out@ == start + more@.take(i as int),
        decreases more.len() - i,
    {
        out.push(more[i]);
        assert(more@.take(i + 1) =~= more@.take(i as int).push(more@[i as int]));
        assert(out@ =~= start + more@.take(i + 1));
        i = i + 1;
    }
    assert(more@.take(more@.len() as int) =~= more@);
}

/// Appends the text `more` to `out`.
pub fn push_text(out: &mut Vec<char>, more: &str)
    ensures
        final(out)@ == old(out)@ + more@,
{
    let chars = to_chars(more);
    push_chars(out, chars.as_slice());
}

/// Whether two texts hold the same characters.
pub fn same_text(a: &str, b: &str) -> (r: bool)
    ensures
        r == (a@ == b@),
{
    a.to_owned() == b.to_owned()
}

/// Whether two runs of characters are the same.
pub fn same_chars(a: &[char], b: &[char]) -> (r: bool)
    ensures
        r == (a@ == b@),
{
    if a.len() != b.len() {
        return false;
    }
    let mut i: usize = 0;
    while i < a.len()
        invariant
            i <= a.len(),
            a.len() == b.len(),
            a@.take(i as int) == b@.take(i as int),
        decreases a.len() - i,
    {
        if a[i] != b[i] {
            assert(a@[i as int] != b@[i as int]);
            return false;
        }
        assert(a@.take(i + 1) =~= a@.take(i as int).push(a@[i as int]));
        assert(b@.take(i + 1) =~= b@.take(i as int).push(b@[i as int]));
        i = i + 1;
    }
    assert(a@.take(a@.len() as int) =~= a@);
    assert(b@.take(b@.len() as int) =~= b@);
    true
}

// ---------------------------------------------------------------------------
// Whitespace
// ---------------------------------------------------------------------------

/// The Unicode `White_Space` property.
pub open spec fn is_white(c: char) -> bool {
    let n = c as u32;
    ||| 0x09 <= n <= 0x0D
    ||| n == 0x20
    ||| n == 0x85
    ||| n == 0xA0
    ||| n == 0x1680
    ||| 0x2000 <= n <= 0x200A
    ||| n == 0x2028
    ||| n == 0x2029
    ||| n == 0x202F
    ||| n == 0x205F
    ||| n == 0x3000
}

/// Whether `c` is white space.
pub fn is_white_char(c: char) -> (r: bool)
    ensures
        r == is_white(c),
{
    let n: u32 = c as u32;
    (0x09 <= n && n <= 0x0D) || n == 0x20 || n == 0x85 || n == 0xA0 || n == 0x1680 || (0x2000 <= n
        && n <= 0x200A) || n == 0x2028 || n == 0x2029 || n == 0x202F || n == 0x205F || n == 0x3000
}

/// `s` without its leading white space.
pub open spec fn trim_start(s: Seq<char>) -> Seq<char>
    decreases s.len(),
{
    if s.len() > 0 && is_white(s[0]) {
        trim_start(s.skip(1))
    } else {
        s
    }
}

/// `s` without its trailing white space.
pub open spec fn trim_end(s: Seq<char>) -> Seq<char>
    decreases s.len(),
{
    if s.len() > 0 && is_white(s.last()) {
        trim_end(s.drop_last())
    } else {
        s
    }
}

/// `s` without white space at either end.
pub open spec fn trimmed(s: Seq<char>) -> Seq<char> {
    trim_end(trim_start(s))
}

/// The part of `s` between its leading and trailing white space.
pub fn trim(s: &[char]) -> (r: &[char])
    ensures
        r@ == trimmed(s@),
{
    let mut i: usize = 0;
    assert(s@.skip(0) =~= s@);
    while i < s.len() && is_white_char(s[i])
        invariant
            i <= s.len(),
            trim_start(s@) == trim_start(s@.skip(i as int)),
        decreases s.len() - i,
    {
        assert(s@.skip(i as int).skip(1) =~= s@.skip(i + 1));
        i = i + 1;
    }
    let ghost rest = s@.skip(i as int);
    assert(trim_start(rest) == rest);
    let mut j: usize = s.len();
    assert(s@.subrange(i as int, j as int) =~= rest);
    while j > i && is_white_char(s[j - 1])
        invariant
            i <= j <= s.len(),
            trim_end(rest) == trim_end(s@.subrange(i as int, j as int)),
        decreases j,
    {
        assert(s@.subrange(i as int, j as int).drop_last() =~= s@.subrange(i as int, j - 1));
        assert(s@.subrange(i as int, j as int).last() == s@[j - 1]);
        j = j - 1;
    }
    proof {
        if j > i {
            assert(s@.subrange(i as int, j as int).last() == s@[j - 1]);
        }
    }
    vstd::slice::slice_subrange(s, i, j)
}

/// The text of `s` without white space at either end.
pub fn trim_text(s: &str) -> (r: String)
    ensures
        r@ == trimmed(s@),
{
    let chars = to_chars(s);
    from_chars(trim(chars.as_slice()))
}

// ---------------------------------------------------------------------------
// ASCII case
// ---------------------------------------------------------------------------

/// The lower-case form of an ASCII letter; any other character is kept.
pub open spec fn ascii_lower(c: char) -> char {
    if 'A' <= c <= 'Z' {
        ((c as u32) + 32) as char
    } else {
        c
    }
}

/// The upper-case form of an ASCII letter; any other character is kept.
pub open spec fn ascii_upper(c: char) -> char {
    if 'a' <= c <= 'z' {
        ((c as u32) - 32) as char
    } else {
        c
    }
}

/// Every ASCII letter of `s` in upper case.
pub open spec fn upper(s: Seq<char>) -> Seq<char> {
    Seq::new(s.len(), |i: int| ascii_upper(s[i]))
}

/// Equality that ignores the case of ASCII letters.
pub open spec fn same_ignoring_case(a: Seq<char>, b: Seq<char>) -> bool {
    &&& a.len() == b.len()
    &&& forall|i: int| 0 <= i < a.len() ==> ascii_lower(#[trigger] a[i]) == ascii_lower(b[i])
}

/// The lower-case form of an ASCII letter.
pub fn lower_char(c: char) -> (r: char)
    ensures
        r == ascii_lower(c),
{
    if 'A' <= c && c <= 'Z' {
        let n: u8 = c as u8;
        (n + 32) as char
    } else {
        c
    }
}

/// The upper-case form of an ASCII letter.
pub fn upper_char(c: char) -> (r: char)
    ensures
        r == ascii_upper(c),
{
    if 'a' <= c && c <= 'z' {
        let n: u8 = c as u8;
        (n - 32) as char
    } else {
        c
    }
}

/// `s` with every ASCII letter in upper case.
pub fn to_upper(s: &[char]) -> (r: Vec<char>)
    ensures
        r@ == upper(s@),
{
    let mut out: Vec<char> = Vec::new();
    let mut i: usize = 0;
    while i < s.len()
        invariant
            i <= s.len(),
            out@ == upper(s@).take(i as int),
        decreases s.len() - i,
    {
        out.push(upper_char(s[i]));
        assert(upper(s@).take(i + 1) =~= upper(s@).take(i as int).push(upper(s@)[i as int]));
        i = i + 1;
    }
    assert(upper(s@).take(s@.len() as int) =~= upper(s@));
    out
}

/// Whether two texts agree when the case of ASCII letters is ignored.
pub fn same_chars_ignoring_case(a: &[char], b: &[char]) -> (r: bool)
    ensures
        r == same_ignoring_case(a@, b@),
{
    if a.len() != b.len() {
        return false;
    }
    let mut i: usize = 0;
    while i < a.len()
        invariant
            i <= a.len(),
            a.len() == b.len(),
            forall|k: int| 0 <= k < i ==> ascii_lower(#[trigger] a@[k]) == ascii_lower(b@[k]),
        decreases a.len() - i,
    {
        if lower_char(a[i]) != lower_char(b[i]) {
            assert(ascii_lower(a@[i as int]) != ascii_lower(b@[i as int]));
            return false;
        }
        i = i + 1;
    }
    true
}

// ---------------------------------------------------------------------------
// Numbers
// ---------------------------------------------------------------------------

/// The value of `c` as a digit in base `radix`, if it is one.
pub open spec fn digit_of(c: char, radix: int) -> Option<int> {
    let n = c as int;
    let d = if 48 <= n <= 57 {
        n - 48
    } else if 97 <= n <= 122 {
        n - 87
    } else if 65 <= n <= 90 {
        n - 55
    } else {
        99
    };
    if d < radix {
        Some(d)
    } else {
        None
    }
}

/// Whether `s` holds digits of base `radix` and nothing else.
pub open spec fn all_digits(s: Seq<char>, radix: int) -> bool {
    forall|i: int| 0 <= i < s.len() ==> digit_of(#[trigger] s[i], radix) is Some
}

/// The number that the digits `s` write in base `radix`, most significant first.
pub open spec fn digits_value(s: Seq<char>, radix: int) -> int
    decreases s.len(),
{
    if s.len() == 0 {
        0
    } else {
        digits_value(s.drop_last(), radix) * radix + digit_of(s.last(), radix)->0
    }
}

/// The number that `s` writes in base `radix`: at least one digit, with an optional leading
/// plus sign, and no more than `max`.
pub open spec fn unsigned_value(s: Seq<char>, radix: int, max: int) -> Option<int> {
    let body = if s.len() > 0 && s[0] == '+' {
        s.skip(1)
    } else {
        s
    };
    if body.len() > 0 && all_digits(body, radix) && digits_value(body, radix) <= max {
        Some(digits_value(body, radix))
    } else {
        None
    }
}

/// A longer run of digits writes no smaller a number.
proof fn lemma_digits_value_monotone(s: Seq<char>, k: int, radix: int)
    requires
        0 <= k <= s.len(),
        all_digits(s, radix),
        radix >= 1,
    ensures
        0 <= digits_value(s.take(k), radix) <= digits_value(s, radix),
    decreases s.len(),
{
    if k < s.len() {
        assert(s.drop_last().take(k) =~= s.take(k));
        assert(all_digits(s.drop_last(), radix)) by {
            assert forall|i: int| 0 <= i < s.drop_last().len() implies digit_of(
                #[trigger] s.drop_last()[i],
                radix,
            ) is Some by {
                assert(s.drop_last()[i] == s[i]);
            }
        }
        lemma_digits_value_monotone(s.drop_last(), k, radix);
        let v = digits_value(s.drop_last(), radix);
        assert(v * radix >= v) by (nonlinear_arith)
            requires
                v >= 0,
                radix >= 1,
        ;
        assert(digit_of(s.last(), radix) is Some);
    } else {
        assert(s.take(k) =~= s);
        if s.len() > 0 {
            assert(all_digits(s.drop_last(), radix)) by {
                assert forall|i: int| 0 <= i < s.drop_last().len() implies digit_of(
                    #[trigger] s.drop_last()[i],
                    radix,
                ) is Some by {
                    assert(s.drop_last()[i] == s[i]);
                }
            }
            lemma_digits_value_monotone(s.drop_last(), s.drop_last().len() as int, radix);
            assert(s.drop_last().take(s.drop_last().len() as int) =~= s.drop_last());
            let v = digits_value(s.drop_last(), radix);
            assert(v * radix >= 0) by (nonlinear_arith)
                requires
                    v >= 0,
                    radix >= 1,
            ;
            assert(digit_of(s.last(), radix) is Some);
        }
    }
}

/// The value of `c` as a digit in base `radix`.
pub fn digit_value(c: char, radix: u64) -> (r: Option<u64>)
    requires
        radix <= 36,
    ensures
        match r {
            Some(d) => digit_of(c, radix as int) == Some(d as int),
            None => digit_of(c, radix as int) is None,
        },
{
    let n: u32 = c as u32;
    let d: u64 = if 48 <= n && n <= 57 {
        (n - 48) as u64
    } else if 97 <= n && n <= 122 {
        (n - 87) as u64
    } else if 65 <= n && n <= 90 {
        (n - 55) as u64
    } else {
        99
    };
    if d < radix {
        Some(d)
    } else {
        None
    }
}

/// Parses an unsigned number of at most `max` in base `radix`.
///
/// One leading plus sign is allowed; an empty text, a character that is no digit of the base,
/// or a number beyond `max` gives `None`.
pub fn parse_unsigned(s: &[char], radix: u64, max: u64) -> (r: Option<u64>)
    requires
        2 <= radix <= 36,
    ensures
        match r {
            Some(v) => unsigned_value(s@, radix as int, max as int) == Some(v as int),
            None => unsigned_value(s@, radix as int, max as int) is None,
        },
{
    let start: usize = if s.len() > 0 && s[0] == '+' {
        1
    } else {
        0
    };
    let ghost body = if s@.len() > 0 && s@[0] == '+' {
        s@.skip(1)
    } else {
        s@
    };
    assert(body =~= s@.skip(start as int));
    if start == s.len() {
        return None;
    }
    let mut acc: u64 = 0;
    let mut i: usize = start;
    while i < s.len()
        invariant
            start <= i <= s.len(),
            2 <= radix <= 36,
            body == s@.skip(start as int),
            all_digits(body.take(i - start), radix as int),
            acc == digits_value(body.take(i - start), radix as int),
            acc <= max,
            unsigned_value(s@, radix as int, max as int) == (if body.len() > 0 && all_digits(
                body,
                radix as int,
            ) && digits_value(body, radix as int) <= max {
                Some(digits_value(body, radix as int))
            } else {
                None
            }),
        decreases s.len() - i,
    {
        let ghost k = i - start;
        assert(body[k] == s@[i as int]);
        assert(body.take(k + 1) =~= body.take(k).push(body[k]));
        assert(body.take(k + 1).drop_last() =~= body.take(k));
        let d: u64 = match digit_value(s[i], radix) {
            Some(d) => d,
            None => {
                assert(!all_digits(body, radix as int));
                return None;
            },
        };
        assert(body.take(k + 1).last() == body[k]);
        assert(digits_value(body.take(k + 1), radix as int) == acc * radix + d);
        assert(all_digits(body.take(k + 1), radix as int)) by {
            assert forall|j: int| 0 <= j < k + 1 implies digit_of(
                #[trigger] body.take(k + 1)[j],
                radix as int,
            ) is Some by {
                if j < k {
                    assert(body.take(k)[j] == body[j]);
                }
            }
        }
        if d > max || acc > (max - d) / radix {
            proof {
                assert(acc * radix + d > max) by {
                    if d <= max {
                        let q = (max - d) as int / radix as int;
                        assert(acc >= q + 1);
                        assert(acc * radix >= (q + 1) * radix) by (nonlinear_arith)
                            requires
                                acc >= q + 1,
                                radix >= 2,
                        ;
                        assert((q + 1) * radix > max - d) by (nonlinear_arith)
                            requires
                                q == (max - d) as int / radix as int,
                                radix >= 2,
                        ;
                    } else {
                        assert(acc * radix >= 0) by (nonlinear_arith)
                            requires
                                acc >= 0,
                                radix >= 2,
                        ;
                    }
                }
                if all_digits(body, radix as int) {
                    lemma_digits_value_monotone(body, k + 1, radix as int);
                }
            }
            return None;
        }
        proof {
            let q = (max - d) as int / radix as int;
            assert(acc * radix <= q * radix) by (nonlinear_arith)
                requires
                    acc <= q,
                    radix >= 2,
            ;
            assert(q * radix <= max - d) by (nonlinear_arith)
                requires
                    q == (max - d) as int / radix as int,
                    radix >= 2,
            ;
        }
        acc = acc * radix + d;
        i = i + 1;
    }
    assert(body.take(body.len() as int) =~= body);
    Some(acc)
}

/// `s` without a leading `0x` or `0X`.
pub open spec fn without_hex_prefix(s: Seq<char>) -> Seq<char> {
    if s.len() >= 2 && s[0] == '0' && (s[1] == 'x' || s[1] == 'X') {
        s.skip(2)
    } else {
        s
    }
}

/// Whether `s` starts with `0x` or `0X`.
pub open spec fn has_hex_prefix(s: Seq<char>) -> bool {
    s.len() >= 2 && s[0] == '0' && (s[1] == 'x' || s[1] == 'X')
}

/// `s` without a leading `0x` or `0X`.
pub fn strip_hex_prefix(s: &[char]) -> (r: &[char])
    ensures
        r@ == without_hex_prefix(s@),
{
    if s.len() >= 2 && s[0] == '0' && (s[1] == 'x' || s[1] == 'X') {
        vstd::slice::slice_subrange(s, 2, s.len())
    } else {
        s
    }
}

/// The number in a hexadecimal cell: trimmed, with or without a `0x` prefix, at most `max`.
pub open spec fn hex_cell_value(s: Seq<char>, max: int) -> Option<int> {
    unsigned_value(without_hex_prefix(trimmed(s)), 16, max)
}

/// Reads a hexadecimal cell such as `0x4BC3`.
pub fn parse_hex_cell(s: &str, max: u64) -> (r: Option<u64>)
    ensures
        match r {
            Some(v) => hex_cell_value(s@, max as int) == Some(v as int),
            None => hex_cell_value(s@, max as int) is None,
        },
{
    let chars = to_chars(s);
    parse_unsigned(strip_hex_prefix(trim(chars.as_slice())), 16, max)
}

/// The character of the decimal digit `d`.
pub open spec fn digit_char(d: int) -> char {
    (48 + d) as char
}

/// The decimal digits of `n`, without leading zeros.
pub open spec fn decimal(n: nat) -> Seq<char>
    decreases n,
{
    if n < 10 {
        seq![digit_char(n as int)]
    } else {
        decimal(n / 10).push(digit_char((n % 10) as int))
    }
}

/// The decimal digits of `n`, filled up with leading zeros to `width` places.
pub open spec fn decimal_padded(n: nat, width: nat) -> Seq<char> {
    let d = decimal(n);
    if d.len() < width {
        Seq::new((width - d.len()) as nat, |i: int| '0') + d
    } else {
        d
    }
}

/// The decimal digits of `n`.
pub fn decimal_chars(n: u64) -> (r: Vec<char>)
    ensures
        r@ == decimal(n as nat),
    decreases n,
{
    if n < 10 {
        let mut out: Vec<char> = Vec::new();
        out.push((48 + n as u8) as char);
        assert(out@ =~= decimal(n as nat));
        out
    } else {
        let mut out = decimal_chars(n / 10);
        out.push((48 + (n % 10) as u8) as char);
        out
    }
}

/// The decimal digits of `n`, filled up with leading zeros to `width` places.
pub fn decimal_padded_chars(n: u64, width: usize) -> (r: Vec<char>)
    ensures
        r@ == decimal_padded(n as nat, width as nat),
{
    let digits = decimal_chars(n);
    let mut out: Vec<char> = Vec::new();
    let ghost zeros = if digits@.len() < width {
        (width - digits@.len()) as nat
    } else {
        0nat
    };
    let mut i: usize = digits.len();
    while i < width
        invariant
            digits.len() <= i,
            i <= width || i == digits.len(),
            out@ == Seq::new((i - digits.len()) as nat, |k: int| '0'),
        decreases width - i,
    {
        out.push('0');
        assert(out@ =~= Seq::new((i + 1 - digits.len()) as nat, |k: int| '0'));
        i = i + 1;
    }
    push_chars(&mut out, digits.as_slice());
    assert(out@ =~= decimal_padded(n as nat, width as nat));
    out
}

/// The upper-case hexadecimal digit of `d`.
pub open spec fn hex_char(d: int) -> char {
    if d < 10 {
        (48 + d) as char
    } else {
        (55 + d) as char
    }
}

/// The upper-case hexadecimal digit of `d`.
pub fn hex_digit(d: u8) -> (r: char)
    requires
        d < 16,
    ensures
        r == hex_char(d as int),
{
    if d < 10 {
        (48 + d) as char
    } else {
        (55 + d) as char
    }
}

/// The two upper-case hexadecimal digits of a byte.
pub open spec fn hex_byte(b: u8) -> Seq<char> {
    seq![hex_char(b as int / 16), hex_char(b as int % 16)]
}

/// Appends the two upper-case hexadecimal digits of `b`.
pub fn push_hex_byte(out: &mut Vec<char>, b: u8)
    ensures
        final(out)@ == old(out)@ + hex_byte(b),
{
    let ghost start = out@;
    out.push(hex_digit(b / 16));
    out.push(hex_digit(b % 16));
    assert(out@ =~= start + hex_byte(b));
}

// ---------------------------------------------------------------------------
// Splitting and joining
// ---------------------------------------------------------------------------

/// The parts of `s` between occurrences of `sep`; there is always at least one.
pub open spec fn split(s: Seq<char>, sep: char) -> Seq<Seq<char>>
    decreases s.len(),
{
    if s.len() == 0 {
        seq![Seq::<char>::empty()]
    } else if s.last() == sep {
        split(s.drop_last(), sep).push(Seq::<char>::empty())
    } else {
        let parts = split(s.drop_last(), sep);
        parts.update(parts.len() - 1, parts.last().push(s.last()))
    }
}

/// A split has at least one part.
pub proof fn lemma_split_nonempty(s: Seq<char>, sep: char)
    ensures
        split(s, sep).len() >= 1,
    decreases s.len(),
{
    if s.len() > 0 {
        lemma_split_nonempty(s.drop_last(), sep);
    }
}

/// The views of the parts in `v`.
pub open spec fn chars_views(v: Seq<Vec<char>>) -> Seq<Seq<char>> {
    Seq::new(v.len(), |i: int| v[i]@)
}

/// The views of the texts in `v`.
pub open spec fn text_views(v: Seq<String>) -> Seq<Seq<char>> {
    Seq::new(v.len(), |i: int| v[i]@)
}

/// Splits `s` at every `sep`.
pub fn split_chars(s: &[char], sep: char) -> (r: Vec<Vec<char>>)
    ensures
        chars_views(r@) == split(s@, sep),
        r@.len() >= 1,
{
    let mut out: Vec<Vec<char>> = Vec::new();
    let mut current: Vec<char> = Vec::new();
    let mut i: usize = 0;
    assert(split(s@.take(0), sep) =~= seq![Seq::<char>::empty()]);
    assert(chars_views(out@).push(current@) =~= seq![Seq::<char>::empty()]);
    while i < s.len()
        invariant
            i <= s.len(),
            chars_views(out@).push(current@) == split(s@.take(i as int), sep),
        decreases s.len() - i,
    {
        let ghost before = chars_views(out@);
        let ghost taken = s@.take(i + 1);
        assert(taken.drop_last() =~= s@.take(i as int));
        assert(taken.last() == s@[i as int]);
        if s[i] == sep {
            let ghost cur = current@;
            out.push(current);
            current = Vec::new();
            assert(chars_views(out@) =~= before.push(cur));
            assert(chars_views(out@).push(current@) =~= split(taken, sep));
        } else {
            let ghost parts = before.push(current@);
            let ghost cur = current@;
            current.push(s[i]);
            assert(parts.last() == cur);
            assert(parts.update(parts.len() - 1, cur.push(s@[i as int])) =~= before.push(
                current@,
            ));
        }
        i = i + 1;
    }
    assert(s@.take(s@.len() as int) =~= s@);
    let ghost before = chars_views(out@);
    let ghost cur = current@;
    out.push(current);
    assert(chars_views(out@) =~= before.push(cur));
    out
}

/// The texts in `parts`, with `sep` between neighbours.
pub open spec fn join(parts: Seq<Seq<char>>, sep: Seq<char>) -> Seq<char>
    decreases parts.len(),
{
    if parts.len() == 0 {
        Seq::<char>::empty()
    } else if parts.len() == 1 {
        parts[0]
    } else {
        join(parts.drop_last(), sep) + sep + parts.last()
    }
}

/// Joins `parts` with the character `sep` between neighbours.
pub fn join_texts(parts: &[String], sep: char) -> (r: String)
    ensures
        r@ == join(text_views(parts@), seq![sep]),
{
    let mut out: Vec<char> = Vec::new();
    let mut i: usize = 0;
    let ghost views = text_views(parts@);
    assert(join(views.take(0), seq![sep]) =~= Seq::<char>::empty());
    while i < parts.len()
        invariant
            i <= parts.len(),
            views == text_views(parts@),
            out@ == join(views.take(i as int), seq![sep]),
        decreases parts.len() - i,
    {
        let ghost start = out@;
        assert(views.take(i + 1).drop_last() =~= views.take(i as int));
        assert(views.take(i + 1).last() == parts@[i as int]@);
        if i > 0 {
            out.push(sep);
        }
        push_text(&mut out, parts[i].as_str());
        assert(out@ =~= join(views.take(i + 1), seq![sep]));
        i = i + 1;
    }
    assert(views.take(views.len() as int) =~= views);
    from_chars(out.as_slice())
}

// ---------------------------------------------------------------------------
// Choosing between texts
// ---------------------------------------------------------------------------

/// The view of an optional text.
pub open spec fn opt_view(o: Option<String>) -> Option<Seq<char>> {
    match o {
        Some(s) => Some(s@),
        None => None,
    }
}

/// The first text that is present.
pub open spec fn first_of(a: Option<Seq<char>>, b: Option<Seq<char>>) -> Option<Seq<char>> {
    match a {
        Some(t) => Some(t),
        None => b,
    }
}

/// A copy of an optional text.
pub fn copy_opt(o: &Option<String>) -> (r: Option<String>)
    ensures
        opt_view(r) == opt_view(*o),
        r == *o,
{
    match o {
        Some(s) => Some(s.clone()),
        None => None,
    }
}

/// `a` if it is present, else `b`.
pub fn prefer(a: &Option<String>, b: &Option<String>) -> (r: Option<String>)
    ensures
        opt_view(r) == first_of(opt_view(*a), opt_view(*b)),
{
    match a {
        Some(s) => Some(s.clone()),
        None => copy_opt(b),
    }
}

/// The texts of `v`, copied.
pub fn copy_texts(v: &[String]) -> (r: Vec<String>)
    ensures
        r@ == v@,
{
    let mut out: Vec<String> = Vec::new();
    let mut i: usize = 0;
    while i < v.len()
        invariant
            i <= v.len(),
            out@ == v@.take(i as int),
        decreases v.len() - i,
    {
        out.push(v[i].clone());
        assert(v@.take(i + 1) =~= v@.take(i as int).push(v@[i as int]));
        i = i + 1;
    }
    assert(v@.take(v@.len() as int) =~= v@);
    out
}

/// The position of the first text equal to `name`, if there is one.
pub open spec fn position(texts: Seq<Seq<char>>, name: Seq<char>) -> Option<int>
    decreases texts.len(),
{
    if texts.len() == 0 {
        None
    } else {
        match position(texts.drop_last(), name) {
            Some(i) => Some(i),
            None => if texts.last() == name {
                Some(texts.len() - 1)
            } else {
                None
            },
        }
    }
}

/// The first position of `name`: what stands there, and that nothing before it matches.
pub proof fn lemma_position(texts: Seq<Seq<char>>, name: Seq<char>)
    ensures
        match position(texts, name) {
            Some(i) => 0 <= i < texts.len() && texts[i] == name && forall|j: int|
                0 <= j < i ==> #[trigger] texts[j] != name,
            None => forall|j: int| 0 <= j < texts.len() ==> #[trigger] texts[j] != name,
        },
    decreases texts.len(),
{
    if texts.len() > 0 {
        lemma_position(texts.drop_last(), name);
        match position(texts.drop_last(), name) {
            Some(i) => {
                assert(texts.drop_last()[i] == texts[i]);
                assert forall|j: int| 0 <= j < i implies #[trigger] texts[j] != name by {
                    assert(texts.drop_last()[j] == texts[j]);
                }
            },
            None => {
                assert forall|j: int| 0 <= j < texts.len() - 1 implies #[trigger] texts[j]
                    != name by {
                    assert(texts.drop_last()[j] == texts[j]);
                }
            },
        }
    }
}

/// The position of the first of `texts` that equals `name`.
pub fn position_of(texts: &[String], name: &str) -> (r: Option<usize>)
    ensures
        match r {
            Some(i) => i < texts@.len() && position(text_views(texts@), name@) == Some(i as int),
            None => position(text_views(texts@), name@) is None,
        },
{
    let ghost views = text_views(texts@);
    let mut i: usize = 0;
    while i < texts.len()
        invariant
            i <= texts.len(),
            views == text_views(texts@),
            forall|j: int| 0 <= j < i ==> #[trigger] views[j] != name@,
        decreases texts.len() - i,
    {
        if same_text(texts[i].as_str(), name) {
            proof {
                lemma_position(views, name@);
                assert(views[i as int] == name@);
            }
            return Some(i);
        }
        assert(views[i as int] != name@);
        i = i + 1;
    }
    proof {
        lemma_position(views, name@);
    }
    None
}

// ---------------------------------------------------------------------------
// Bytes that hold text
// ---------------------------------------------------------------------------

/// `str::from_utf8` of std: the text of UTF-8 bytes, and nothing for bytes that are not UTF-8.
#[verifier::external_body]
fn utf8_str(bytes: &[u8]) -> (r: Option<&str>)
    ensures
        match r {
            Some(s) => vstd::utf8::valid_utf8(bytes@) && s@ == vstd::utf8::decode_utf8(bytes@),
            None => !vstd::utf8::valid_utf8(bytes@),
        },
{
    std::str::from_utf8(bytes).ok()
}

/// A control character (Unicode general category `Cc`).
pub open spec fn is_control(c: char) -> bool {
    let n = c as u32;
    n <= 0x1F || 0x7F <= n <= 0x9F
}

/// Whether a text is free of control characters.
pub open spec fn printable(s: Seq<char>) -> bool {
    forall|i: int| 0 <= i < s.len() ==> !is_control(#[trigger] s[i])
}

/// The text of `bytes` where they are valid, non-empty UTF-8.
pub open spec fn utf8_text_in(bytes: Seq<u8>) -> Option<Seq<char>> {
    if vstd::utf8::valid_utf8(bytes) && vstd::utf8::decode_utf8(bytes).len() > 0 {
        Some(vstd::utf8::decode_utf8(bytes))
    } else {
        None
    }
}

/// The text of `bytes` where they are valid, non-empty, control-free UTF-8.
pub open spec fn printable_text_in(bytes: Seq<u8>) -> Option<Seq<char>> {
    match utf8_text_in(bytes) {
        Some(t) => if printable(t) {
            Some(t)
        } else {
            None
        },
        None => None,
    }
}

/// The text of `bytes`, unless they are empty or not UTF-8.
pub fn utf8_text(bytes: &[u8]) -> (r: Option<String>)
    ensures
        opt_view(r) == utf8_text_in(bytes@),
{
    match utf8_str(bytes) {
        Some(s) => {
            if s.is_empty() {
                None
            } else {
                Some(s.to_owned())
            }
        },
        None => None,
    }
}

/// The text of `bytes`, unless they are empty, not UTF-8, or hold a control character.
pub fn printable_text(bytes: &[u8]) -> (r: Option<String>)
    ensures
        opt_view(r) == printable_text_in(bytes@),
{
    let text = match utf8_text(bytes) {
        Some(t) => t,
        None => {
            return None;
        },
    };
    let chars = to_chars(text.as_str());
    let mut i: usize = 0;
    while i < chars.len()
        invariant
            i <= chars.len(),
            chars@ == text@,
            utf8_text_in(bytes@) == Some(text@),
            forall|k: int| 0 <= k < i ==> !is_control(#[trigger] text@[k]),
        decreases chars.len() - i,
    {
        let n: u32 = chars[i] as u32;
        if n <= 0x1F || (0x7F <= n && n <= 0x9F) {
            assert(is_control(text@[i as int]));
            return None;
        }
        i = i + 1;
    }
    Some(text)
}

// ---------------------------------------------------------------------------
// Decimal numbers with a fraction
// ---------------------------------------------------------------------------

/// The first position of `a` or `b` in `s`, or the length of `s` if it holds neither.
pub open spec fn first_of_two(s: Seq<char>, a: char, b: char) -> int
    decreases s.len(),
{
    if s.len() == 0 {
        0
    } else if s[0] == a || s[0] == b {
        0
    } else {
        1 + first_of_two(s.skip(1), a, b)
    }
}

/// `s` without one leading sign.
pub open spec fn without_sign(s: Seq<char>) -> Seq<char> {
    if s.len() > 0 && (s[0] == '+' || s[0] == '-') {
        s.skip(1)
    } else {
        s
    }
}

/// Decimal digits with at most one point among them, and at least one digit.
pub open spec fn mantissa_text(s: Seq<char>) -> bool {
    let point = first_of_two(s, '.', '.');
    if point >= s.len() {
        s.len() > 0 && all_digits(s, 10)
    } else {
        s.len() > 1 && all_digits(s.take(point), 10) && all_digits(s.skip(point + 1), 10)
    }
}

/// Digits behind an optional sign.
pub open spec fn exponent_text(s: Seq<char>) -> bool {
    without_sign(s).len() > 0 && all_digits(without_sign(s), 10)
}

/// Whether `s` writes a floating-point number: an optional sign, then `inf`, `infinity`, `nan`,
/// or digits with an optional point and an optional exponent. Letters may have either case.
pub open spec fn float_text(s: Seq<char>) -> bool {
    let t = without_sign(s);
    let e = first_of_two(t, 'e', 'E');
    ||| same_ignoring_case(t, "inf"@)
    ||| same_ignoring_case(t, "infinity"@)
    ||| same_ignoring_case(t, "nan"@)
    ||| if e >= t.len() {
        mantissa_text(t)
    } else {
        mantissa_text(t.take(e)) && exponent_text(t.skip(e + 1))
    }
}

proof fn lemma_first_of_two(s: Seq<char>, a: char, b: char)
    ensures
        0 <= first_of_two(s, a, b) <= s.len(),
    decreases s.len(),
{
    if s.len() > 0 && s[0] != a && s[0] != b {
        lemma_first_of_two(s.skip(1), a, b);
    }
}

/// The first position of `a` or `b` in `s`.
fn find_either(s: &[char], a: char, b: char) -> (r: usize)
    ensures
        r == first_of_two(s@, a, b),
        r <= s@.len(),
{
    let mut i: usize = 0;
    assert(s@.skip(0) =~= s@);
    while i < s.len() && s[i] != a && s[i] != b
        invariant
            i <= s.len(),
            first_of_two(s@, a, b) == i + first_of_two(s@.skip(i as int), a, b),
        decreases s.len() - i,
    {
        assert(s@.skip(i as int).skip(1) =~= s@.skip(i + 1));
        i = i + 1;
    }
    i
}

/// Whether `s` holds decimal digits only.
fn only_digits(s: &[char]) -> (r: bool)
    ensures
        r == all_digits(s@, 10),
{
    let mut i: usize = 0;
    while i < s.len()
        invariant
            i <= s.len(),
            forall|k: int| 0 <= k < i ==> digit_of(#[trigger] s@[k], 10) is Some,
        decreases s.len() - i,
    {
        if digit_value(s[i], 10).is_none() {
            assert(digit_of(s@[i as int], 10) is None);
            return false;
        }
        i = i + 1;
    }
    true
}

/// `s` without one leading sign.
fn strip_sign(s: &[char]) -> (r: &[char])
    ensures
        r@ == without_sign(s@),
{
    if s.len() > 0 && (s[0] == '+' || s[0] == '-') {
        vstd::slice::slice_subrange(s, 1, s.len())
    } else {
        s
    }
}

fn is_mantissa(s: &[char]) -> (r: bool)
    ensures
        r == mantissa_text(s@),
{
    let point: usize = find_either(s, '.', '.');
    if point >= s.len() {
        s.len() > 0 && only_digits(s)
    } else {
        let whole = vstd::slice::slice_subrange(s, 0, point);
        let fraction = vstd::slice::slice_subrange(s, point + 1, s.len());
        assert(whole@ =~= s@.take(point as int));
        assert(fraction@ =~= s@.skip(point + 1));
        s.len() > 1 && only_digits(whole) && only_digits(fraction)
    }
}

/// Whether `s` writes a floating-point number.
pub fn is_float_text(s: &[char]) -> (r: bool)
    ensures
        r == float_text(s@),
{
    let t = strip_sign(s);
    let inf = to_chars("inf");
    let infinity = to_chars("infinity");
    let nan = to_chars("nan");
    if same_chars_ignoring_case(t, inf.as_slice()) || same_chars_ignoring_case(
        t,
        infinity.as_slice(),
    ) || same_chars_ignoring_case(t, nan.as_slice()) {
        return true;
    }
    let e: usize = find_either(t, 'e', 'E');
    if e >= t.len() {
        is_mantissa(t)
    } else {
        let mantissa = vstd::slice::slice_subrange(t, 0, e);
        let exponent = vstd::slice::slice_subrange(t, e + 1, t.len());
        assert(mantissa@ =~= t@.take(e as int));
        assert(exponent@ =~= t@.skip(e + 1));
        let digits = strip_sign(exponent);
        is_mantissa(mantissa) && digits.len() > 0 && only_digits(digits)
    }
}

// ---------------------------------------------------------------------------
// What the helpers amount to
// ---------------------------------------------------------------------------

/// Whether a text is made of white space.
pub open spec fn blank(s: Seq<char>) -> bool {
    forall|i: int| 0 <= i < s.len() ==> is_white(#[trigger] s[i])
}

proof fn lemma_trim_start(front: Seq<char>, rest: Seq<char>)
    requires
        blank(front),
        rest.len() == 0 || !is_white(rest[0]),
    ensures
        trim_start(front + rest) == rest,
    decreases front.len(),
{
    if front.len() > 0 {
        assert(is_white(front[0]));
        assert((front + rest).skip(1) =~= front.skip(1) + rest);
        lemma_trim_start(front.skip(1), rest);
    } else {
        assert(front + rest =~= rest);
    }
}

proof fn lemma_trim_end(rest: Seq<char>, back: Seq<char>)
    requires
        blank(back),
        rest.len() == 0 || !is_white(rest.last()),
    ensures
        trim_end(rest + back) == rest,
    decreases back.len(),
{
    if back.len() > 0 {
        assert(is_white(back[back.len() - 1]));
        assert((rest + back).drop_last() =~= rest + back.drop_last());
        lemma_trim_end(rest, back.drop_last());
    } else {
        assert(rest + back =~= rest);
    }
}

/// Trimming takes the white space at both ends and nothing else.
pub proof fn law_trimming_takes_the_white_ends_only(
    front: Seq<char>,
    core: Seq<char>,
    back: Seq<char>,
)
    requires
        blank(front),
        blank(back),
        core.len() > 0,
        !is_white(core[0]),
        !is_white(core.last()),
    ensures
        trimmed(front + core + back) == core,
{
    assert(front + core + back =~= front + (core + back));
    lemma_trim_start(front, core + back);
    lemma_trim_end(core, back);
}

/// Space, tab and the line ends are white space; no letter, digit or sign of the printable ASCII
/// range is.
pub proof fn law_printable_ascii_is_not_white(c: char)
    ensures
        '!' <= c <= '~' ==> !is_white(c),
        c == ' ' || c == '\t' || c == '\n' || c == '\r' ==> is_white(c),
{
}

/// The position of a name is that of its first occurrence, if it occurs.
pub proof fn law_a_position_is_the_first_occurrence(texts: Seq<Seq<char>>, name: Seq<char>)
    ensures
        position(texts, name) is Some <==> texts.contains(name),
        position(texts, name) matches Some(i) ==> 0 <= i < texts.len() && texts[i] == name
            && forall|j: int| 0 <= j < i ==> #[trigger] texts[j] != name,
    decreases texts.len(),
{
    if texts.len() > 0 {
        let short = texts.drop_last();
        law_a_position_is_the_first_occurrence(short, name);
        if short.contains(name) {
            let k = choose|k: int| 0 <= k < short.len() && short[k] == name;
            assert(texts[k] == name);
        }
        if texts.contains(name) && position(short, name) is None {
            let k = choose|k: int| 0 <= k < texts.len() && texts[k] == name;
            if k < short.len() {
                assert(short[k] == name);
            }
        }
        if position(texts, name) is Some {
            let i = position(texts, name)->0;
            assert forall|j: int| 0 <= j < i implies #[trigger] texts[j] != name by {
                assert(texts[j] == short[j]);
                if position(short, name) is None {
                    assert(!short.contains(name));
                }
            }
        }
    }
}

/// The decimal digits of a number, read as a number, are that number.
pub proof fn law_decimals_read_back(n: nat, max: int)
    requires
        n <= max,
    ensures
        unsigned_value(decimal(n), 10, max) == Some(n as int),
{
    lemma_decimal(n);
}

proof fn lemma_decimal(n: nat)
    ensures
        decimal(n).len() > 0,
        all_digits(decimal(n), 10),
        digits_value(decimal(n), 10) == n,
        forall|i: int| 0 <= i < decimal(n).len() ==> '0' <= #[trigger] decimal(n)[i] <= '9',
    decreases n,
{
    reveal_with_fuel(digits_value, 2);
    if n >= 10 {
        lemma_decimal(n / 10);
        let front = decimal(n / 10);
        let last = digit_char((n % 10) as int);
        assert(decimal(n).drop_last() =~= front);
        assert(decimal(n).last() == last);
        assert forall|i: int| 0 <= i < decimal(n).len() implies '0' <= #[trigger] decimal(n)[i]
            <= '9' by {
            if i < front.len() {
                assert(decimal(n)[i] == front[i]);
            }
        }
    } else {
        assert(decimal(n).drop_last() =~= Seq::<char>::empty());
    }
}

/// Padding puts zeros in front and changes no number: the digits have at least the width asked
/// for, and read back as the number.
pub proof fn law_padded_decimals_read_back(n: nat, width: nat, max: int)
    requires
        n <= max,
    ensures
        unsigned_value(decimal_padded(n, width), 10, max) == Some(n as int),
        decimal_padded(n, width).len() >= width,
        decimal_padded(n, width).len() == width || decimal_padded(n, width) == decimal(n),
{
    lemma_decimal(n);
    let d = decimal(n);
    if d.len() < width {
        let zeros = Seq::new((width - d.len()) as nat, |i: int| '0');
        lemma_leading_zeros(zeros, d);
    }
}

proof fn lemma_leading_zeros(zeros: Seq<char>, d: Seq<char>)
    requires
        forall|i: int| 0 <= i < zeros.len() ==> #[trigger] zeros[i] == '0',
        all_digits(d, 10),
        d.len() > 0,
    ensures
        all_digits(zeros + d, 10),
        digits_value(zeros + d, 10) == digits_value(d, 10),
    decreases zeros.len() + d.len(),
{
    let all = zeros + d;
    assert forall|i: int| 0 <= i < all.len() implies digit_of(#[trigger] all[i], 10) is Some by {
        if i < zeros.len() {
            assert(all[i] == zeros[i]);
        } else {
            assert(all[i] == d[i - zeros.len()]);
        }
    }
    assert(all.drop_last() =~= zeros + d.drop_last());
    assert(all.last() == d.last());
    if d.len() > 1 {
        assert forall|i: int| 0 <= i < d.drop_last().len() implies digit_of(
            #[trigger] d.drop_last()[i],
            10,
        ) is Some by {
            assert(d.drop_last()[i] == d[i]);
        }
        lemma_leading_zeros(zeros, d.drop_last());
    } else {
        assert(zeros + d.drop_last() =~= zeros);
        assert(d.drop_last() =~= Seq::<char>::empty());
        lemma_zeros(zeros);
        assert(digits_value(d.drop_last(), 10) == 0);
    }
}

proof fn lemma_zeros(zeros: Seq<char>)
    requires
        forall|i: int| 0 <= i < zeros.len() ==> #[trigger] zeros[i] == '0',
    ensures
        digits_value(zeros, 10) == 0,
    decreases zeros.len(),
{
    if zeros.len() > 0 {
        assert(zeros[zeros.len() - 1] == '0');
        lemma_zeros(zeros.drop_last());
    }
}

/// The hexadecimal digits of bytes, two per byte.
pub open spec fn hex_text(bytes: Seq<u8>) -> Seq<char>
    decreases bytes.len(),
{
    if bytes.len() == 0 {
        Seq::<char>::empty()
    } else {
        hex_text(bytes.drop_last()) + hex_byte(bytes.last())
    }
}

/// The hexadecimal digits of bytes, read as a number, are the bytes' big-endian number.
pub proof fn law_hex_digits_read_back(bytes: Seq<u8>, max: int)
    requires
        bytes.len() > 0,
        crate::bytes::be_value(bytes) <= max,
    ensures
        hex_text(bytes).len() == 2 * bytes.len(),
        unsigned_value(hex_text(bytes), 16, max) == Some(crate::bytes::be_value(bytes) as int),
{
    lemma_hex_text(bytes);
}

proof fn lemma_hex_text(bytes: Seq<u8>)
    ensures
        hex_text(bytes).len() == 2 * bytes.len(),
        all_digits(hex_text(bytes), 16),
        digits_value(hex_text(bytes), 16) == crate::bytes::be_value(bytes),
        bytes.len() > 0 ==> hex_text(bytes)[0] != '+',
    decreases bytes.len(),
{
    if bytes.len() > 0 {
        let front = hex_text(bytes.drop_last());
        lemma_hex_text(bytes.drop_last());
        let b = bytes.last();
        let all = hex_text(bytes);
        assert(all =~= front.push(hex_char(b as int / 16)).push(hex_char(b as int % 16)));
        assert(all.drop_last() =~= front.push(hex_char(b as int / 16)));
        assert(all.drop_last().drop_last() =~= front);
        assert(digit_of(hex_char(b as int / 16), 16) == Some(b as int / 16));
        assert(digit_of(hex_char(b as int % 16), 16) == Some(b as int % 16));
        reveal_with_fuel(digits_value, 3);
        assert(digits_value(all, 16) == (digits_value(front, 16) * 16 + b as int / 16) * 16
            + b as int % 16);
        assert forall|i: int| 0 <= i < all.len() implies digit_of(#[trigger] all[i], 16) is Some by {
            if i < front.len() {
                assert(all[i] == front[i]);
            }
        }
        if bytes.len() > 1 {
            assert(all[0] == front[0]);
        }
    }
}

/// A hexadecimal cell may have white space round it, a prefix of either case, or none; its number
/// is that of its digits.
pub proof fn law_hex_cells_read_back(
    front: Seq<char>,
    bytes: Seq<u8>,
    back: Seq<char>,
    x: char,
    max: int,
)
    requires
        blank(front),
        blank(back),
        bytes.len() > 0,
        x == 'x' || x == 'X',
        crate::bytes::be_value(bytes) <= max,
    ensures
        hex_cell_value(front + hex_text(bytes) + back, max) == Some(
            crate::bytes::be_value(bytes) as int,
        ),
        hex_cell_value(front + (seq!['0', x] + hex_text(bytes)) + back, max) == Some(
            crate::bytes::be_value(bytes) as int,
        ),
{
    lemma_hex_text(bytes);
    let digits = hex_text(bytes);
    let marked = seq!['0', x] + digits;
    assert(digit_of(digits[0], 16) is Some);
    assert(digit_of(digits[1], 16) is Some);
    assert(digit_of(digits[digits.len() - 1], 16) is Some);
    law_trimming_takes_the_white_ends_only(front, digits, back);
    law_trimming_takes_the_white_ends_only(front, marked, back);
    assert(marked.skip(2) =~= digits);
}

/// A text that holds a character that is no digit writes no number.
pub proof fn law_a_number_is_all_digits(s: Seq<char>, radix: int, max: int, i: int)
    requires
        0 < i < s.len(),
        digit_of(s[i], radix) is None,
    ensures
        unsigned_value(s, radix, max) is None,
{
    if s[0] == '+' {
        assert(s.skip(1)[i - 1] == s[i]);
    }
}

/// What a text writes as a number is a number from zero up to the maximum.
pub proof fn lemma_numbers_are_not_negative(s: Seq<char>, radix: int, max: int)
    requires
        radix > 0,
    ensures
        unsigned_value(s, radix, max) matches Some(n) ==> 0 <= n <= max,
{
    lemma_value_is_not_negative(s, radix);
    lemma_value_is_not_negative(s.skip(1), radix);
}

proof fn lemma_value_is_not_negative(s: Seq<char>, radix: int)
    requires
        radix > 0,
    ensures
        all_digits(s, radix) ==> digits_value(s, radix) >= 0,
    decreases s.len(),
{
    if s.len() > 0 && all_digits(s, radix) {
        let short = s.drop_last();
        assert forall|i: int| 0 <= i < short.len() implies digit_of(#[trigger] short[i], radix)
            is Some by {
            assert(short[i] == s[i]);
        }
        lemma_value_is_not_negative(short, radix);
        assert(digit_of(s[s.len() - 1], radix) is Some);
        assert(digits_value(short, radix) * radix >= 0) by (nonlinear_arith)
            requires
                digits_value(short, radix) >= 0,
                radix > 0,
        ;
    }
}

/// Splitting loses nothing: the parts joined by the separator are the text, and no part holds the
/// separator.
pub proof fn law_joining_undoes_splitting(s: Seq<char>, sep: char)
    ensures
        split(s, sep).len() >= 1,
        join(split(s, sep), seq![sep]) == s,
        forall|i: int| 0 <= i < split(s, sep).len() ==> !(#[trigger] split(s, sep)[i]).contains(sep),
    decreases s.len(),
{
    if s.len() == 0 {
        assert(join(split(s, sep), seq![sep]) =~= s);
    } else {
        let short = s.drop_last();
        let parts = split(short, sep);
        law_joining_undoes_splitting(short, sep);
        let after = split(s, sep);
        if s.last() == sep {
            assert(after.drop_last() =~= parts);
            assert(join(after, seq![sep]) =~= short + seq![sep] + Seq::<char>::empty());
            assert(join(after, seq![sep]) =~= s);
            assert forall|i: int| 0 <= i < after.len() implies !(#[trigger] after[i]).contains(sep) by {
                if i < parts.len() {
                    assert(after[i] == parts[i]);
                }
            }
        } else {
            assert(after.drop_last() =~= parts.drop_last());
            let last = parts.last();
            assert(after.last() == last.push(s.last()));
            if parts.len() == 1 {
                assert(join(after, seq![sep]) =~= s);
            } else {
                assert(join(after, seq![sep]) =~= (join(parts.drop_last(), seq![sep]) + seq![sep]
                    + last).push(s.last()));
                assert(join(after, seq![sep]) =~= s);
            }
            assert forall|i: int| 0 <= i < after.len() implies !(#[trigger] after[i]).contains(sep) by {
                if i < parts.len() - 1 {
                    assert(after[i] == parts[i]);
                } else {
                    assert(!parts[parts.len() - 1].contains(sep));
                    if after[i].contains(sep) {
                        let k = choose|k: int| 0 <= k < after[i].len() && after[i][k] == sep;
                        assert(last[k] == sep);
                    }
                }
            }
        }
    }
}

/// Joining loses nothing: parts that do not hold the separator are got back by splitting.
pub proof fn law_splitting_undoes_joining(parts: Seq<Seq<char>>, sep: char)
    requires
        parts.len() > 0,
        forall|i: int| 0 <= i < parts.len() ==> !(#[trigger] parts[i]).contains(sep),
    ensures
        split(join(parts, seq![sep]), sep) == parts,
    decreases parts.len(),
{
    let last = parts.last();
    assert(!parts[parts.len() - 1].contains(sep));
    if parts.len() == 1 {
        lemma_split_part(Seq::<char>::empty(), last, sep);
        assert(Seq::<char>::empty() + last =~= last);
        assert(split(last, sep) =~= parts);
    } else {
        let front = parts.drop_last();
        assert forall|i: int| 0 <= i < front.len() implies !(#[trigger] front[i]).contains(sep) by {
            assert(front[i] == parts[i]);
        }
        law_splitting_undoes_joining(front, sep);
        let head = join(front, seq![sep]) + seq![sep];
        assert(head.drop_last() =~= join(front, seq![sep]));
        assert(split(head, sep) == split(join(front, seq![sep]), sep).push(Seq::<char>::empty()));
        lemma_split_part(head, last, sep);
        assert(join(parts, seq![sep]) == head + last);
        assert(split(head, sep).drop_last() =~= front);
        assert(split(head + last, sep) =~= parts);
    }
}

proof fn lemma_split_part(head: Seq<char>, part: Seq<char>, sep: char)
    requires
        !part.contains(sep),
        split(head, sep).last().len() == 0,
    ensures
        split(head + part, sep) == split(head, sep).drop_last().push(part),
    decreases part.len(),
{
    lemma_split_nonempty(head, sep);
    if part.len() == 0 {
        assert(head + part =~= head);
        assert(part =~= split(head, sep).last());
        assert(split(head, sep) =~= split(head, sep).drop_last().push(part));
    } else {
        let short = part.drop_last();
        assert forall|k: int| 0 <= k < short.len() implies short[k] != sep by {
            assert(short[k] == part[k]);
            assert(part.contains(part[k]));
        }
        assert(!short.contains(sep));
        lemma_split_part(head, short, sep);
        let c = part.last();
        assert(part.contains(c));
        assert((head + part).drop_last() =~= head + short);
        assert((head + part).last() == c);
        let before = split(head + short, sep);
        assert(short.push(c) =~= part);
        assert(before.update(before.len() - 1, before.last().push(c)) =~= split(
            head,
            sep,
        ).drop_last().push(part));
    }
}

/// Case is the only thing that ignoring case ignores: a text agrees with its upper-case form, and
/// two texts of one case agree only if they are equal.
pub proof fn law_only_case_is_ignored(s: Seq<char>, t: Seq<char>)
    ensures
        same_ignoring_case(s, upper(s)),
        same_ignoring_case(s, t) <==> upper(s) == upper(t),
        upper(s).len() == s.len(),
        upper(upper(s)) == upper(s),
{
    assert(upper(upper(s)) =~= upper(s));
    if same_ignoring_case(s, t) {
        assert forall|i: int| 0 <= i < s.len() implies ascii_upper(#[trigger] s[i]) == ascii_upper(
            t[i],
        ) by {
            assert(ascii_lower(s[i]) == ascii_lower(t[i]));
        }
        assert(upper(s) =~= upper(t));
    }
    if upper(s) == upper(t) {
        assert forall|i: int| 0 <= i < s.len() implies ascii_lower(#[trigger] s[i]) == ascii_lower(
            t[i],
        ) by {
            assert(upper(s)[i] == upper(t)[i]);
        }
    }
}

/// A sign, digits, a point, digits and an exponent write a number, with any of sign, fraction and
/// exponent left out.
pub proof fn law_decimal_notation_is_a_number(
    sign: Seq<char>,
    whole: Seq<char>,
    fraction: Seq<char>,
    exponent: Seq<char>,
)
    requires
        sign == Seq::<char>::empty() || sign == seq!['-'] || sign == seq!['+'],
        whole.len() > 0,
        all_digits(whole, 10),
        all_digits(fraction, 10),
        exponent.len() > 0,
        all_digits(exponent, 10),
    ensures
        float_text(sign + whole),
        float_text(sign + (whole + seq!['.'] + fraction)),
        float_text(sign + (whole + seq!['.'] + fraction + seq!['e'] + exponent)),
        float_text(sign + (whole + seq!['E', '-'] + exponent)),
{
    let point = whole + seq!['.'] + fraction;
    assert(digit_of(whole[0], 10) is Some);
    assert(digit_of(exponent[0], 10) is Some);
    lemma_unsigned(sign, whole);
    lemma_unsigned(sign, point);
    lemma_unsigned(sign, point + seq!['e'] + exponent);
    lemma_unsigned(sign, whole + seq!['E', '-'] + exponent);
    lemma_first_behind(whole, Seq::<char>::empty(), '.', '.');
    assert(whole + Seq::<char>::empty() =~= whole);
    lemma_first_behind(whole, Seq::<char>::empty(), 'e', 'E');
    assert(point =~= whole + (seq!['.'] + fraction));
    lemma_first_behind(whole, seq!['.'] + fraction, '.', '.');
    assert(point.take(whole.len() as int) =~= whole);
    assert(point.skip(whole.len() as int + 1) =~= fraction);
    assert forall|i: int| 0 <= i < point.len() implies point[i] != 'e' && #[trigger] point[i] != 'E' by {
        if i < whole.len() {
            assert(digit_of(whole[i], 10) is Some);
        } else if i > whole.len() {
            assert(digit_of(fraction[i - whole.len() - 1], 10) is Some);
        }
    }
    lemma_first_behind(point, Seq::<char>::empty(), 'e', 'E');
    assert(point + Seq::<char>::empty() =~= point);
    let full = point + seq!['e'] + exponent;
    assert(full =~= point + (seq!['e'] + exponent));
    lemma_first_behind(point, seq!['e'] + exponent, 'e', 'E');
    assert(full.take(point.len() as int) =~= point);
    assert(full.skip(point.len() as int + 1) =~= exponent);
    let short = whole + seq!['E', '-'] + exponent;
    assert(short =~= whole + (seq!['E', '-'] + exponent));
    lemma_first_behind(whole, seq!['E', '-'] + exponent, 'e', 'E');
    assert(short.take(whole.len() as int) =~= whole);
    assert(short.skip(whole.len() as int + 1) =~= seq!['-'] + exponent);
    assert((seq!['-'] + exponent).skip(1) =~= exponent);
}

proof fn lemma_unsigned(sign: Seq<char>, t: Seq<char>)
    requires
        sign == Seq::<char>::empty() || sign == seq!['-'] || sign == seq!['+'],
        t.len() > 0,
        t[0] != '+' && t[0] != '-',
    ensures
        without_sign(sign + t) == t,
{
    if sign.len() == 0 {
        assert(sign + t =~= t);
    } else {
        assert((sign + t).skip(1) =~= t);
    }
}

proof fn lemma_first_behind(front: Seq<char>, rest: Seq<char>, a: char, b: char)
    requires
        forall|i: int| 0 <= i < front.len() ==> (#[trigger] front[i]) != a && front[i] != b,
        rest.len() > 0 ==> rest[0] == a || rest[0] == b,
    ensures
        first_of_two(front + rest, a, b) == front.len(),
    decreases front.len(),
{
    if front.len() > 0 {
        assert(front[0] != a && front[0] != b);
        assert((front + rest).skip(1) =~= front.skip(1) + rest);
        lemma_first_behind(front.skip(1), rest, a, b);
    } else {
        assert(front + rest =~= rest);
    }
}

/// A number is written with digits, signs, a point and an exponent mark; a text with any other
/// character is none, but for the three words.
pub proof fn law_other_characters_write_no_number(s: Seq<char>, i: int)
    requires
        float_text(s),
        0 <= i < s.len(),
        !same_ignoring_case(without_sign(s), "inf"@),
        !same_ignoring_case(without_sign(s), "infinity"@),
        !same_ignoring_case(without_sign(s), "nan"@),
    ensures
        '0' <= s[i] <= '9' || s[i] == '.' || s[i] == 'e' || s[i] == 'E' || s[i] == '+' || s[i]
            == '-',
{
    let t = without_sign(s);
    let off: int = s.len() - t.len();
    let e = first_of_two(t, 'e', 'E');
    lemma_first_is_there(t, 'e', 'E');
    if i >= off {
        let j = i - off;
        assert(t[j] == s[i]);
        if e >= t.len() {
            lemma_mantissa_characters(t, j);
        } else if j < e {
            assert(t.take(e)[j] == t[j]);
            lemma_mantissa_characters(t.take(e), j);
        } else if j > e {
            let x = t.skip(e + 1);
            let k = j - e - 1;
            assert(x[k] == t[j]);
            let signless = without_sign(x);
            let cut: int = x.len() - signless.len();
            if k >= cut {
                assert(signless[k - cut] == x[k]);
                assert(digit_of(signless[k - cut], 10) is Some);
            }
        }
    }
}

proof fn lemma_first_is_there(s: Seq<char>, a: char, b: char)
    ensures
        0 <= first_of_two(s, a, b) <= s.len(),
        first_of_two(s, a, b) < s.len() ==> s[first_of_two(s, a, b)] == a || s[first_of_two(
            s,
            a,
            b,
        )] == b,
    decreases s.len(),
{
    if s.len() > 0 && !(s[0] == a || s[0] == b) {
        lemma_first_is_there(s.skip(1), a, b);
    }
}

proof fn lemma_mantissa_characters(s: Seq<char>, i: int)
    requires
        mantissa_text(s),
        0 <= i < s.len(),
    ensures
        '0' <= s[i] <= '9' || s[i] == '.',
{
    let point = first_of_two(s, '.', '.');
    lemma_first_is_there(s, '.', '.');
    if point >= s.len() {
        assert(digit_of(s[i], 10) is Some);
    } else if i < point {
        assert(s.take(point)[i] == s[i]);
        assert(digit_of(s.take(point)[i], 10) is Some);
    } else if i > point {
        assert(s.skip(point + 1)[i - point - 1] == s[i]);
        assert(digit_of(s.skip(point + 1)[i - point - 1], 10) is Some);
    }
}

/// A text of bytes is printable only if no character of it lies below the space or between the
/// delete character and the no-break space.
pub proof fn law_printable_text_has_no_control_character(bytes: Seq<u8>, i: int)
    requires
        printable_text_in(bytes) is Some,
        0 <= i < printable_text_in(bytes)->0.len(),
    ensures
        printable_text_in(bytes)->0 == vstd::utf8::decode_utf8(bytes),
        printable_text_in(bytes)->0.len() > 0,
        printable_text_in(bytes)->0[i] >= ' ',
        !('\u{7F}' <= printable_text_in(bytes)->0[i] <= '\u{9F}'),
{
    let c: char = printable_text_in(bytes)->0[i];
    assert(!is_control(c));
    lemma_control_range(c);
}

proof fn lemma_control_range(c: char)
    ensures
        is_control(c) <==> c < ' ' || '\u{7F}' <= c <= '\u{9F}',
{
}

/// Bytes that are text, hold something and have no control character are printable text.
pub proof fn law_clean_text_is_printable(bytes: Seq<u8>)
    requires
        vstd::utf8::valid_utf8(bytes),
        vstd::utf8::decode_utf8(bytes).len() > 0,
        forall|i: int|
            0 <= i < vstd::utf8::decode_utf8(bytes).len() ==> (#[trigger] vstd::utf8::decode_utf8(
                bytes,
            )[i]) >= ' ' && !('\u{7F}' <= vstd::utf8::decode_utf8(bytes)[i] <= '\u{9F}'),
    ensures
        printable_text_in(bytes) == Some(vstd::utf8::decode_utf8(bytes)),
        utf8_text_in(bytes) == Some(vstd::utf8::decode_utf8(bytes)),
{
    let t = vstd::utf8::decode_utf8(bytes);
    assert forall|i: int| 0 <= i < t.len() implies !is_control(#[trigger] t[i]) by {
        lemma_control_range(t[i]);
    }
}

/// A list is modelled item by item, in order.
pub proof fn law_a_list_is_modelled_item_by_item(chars: Seq<Vec<char>>, text: Seq<String>)
    ensures
        chars_views(chars).len() == chars.len(),
        forall|i: int| 0 <= i < chars.len() ==> #[trigger] chars_views(chars)[i] == chars[i]@,
        text_views(text).len() == text.len(),
        forall|i: int| 0 <= i < text.len() ==> #[trigger] text_views(text)[i] == text[i]@,
{
}

/// The white space of a text is that of Unicode: these characters and no others.
pub proof fn law_white_space_is_that_of_unicode(c: char)
    ensures
        is_white(c)
            <==> "\t\n\u{B}\u{C}\r \u{85}\u{A0}\u{1680}\u{2000}\u{2001}\u{2002}\u{2003}\u{2004}\u{2005}\u{2006}\u{2007}\u{2008}\u{2009}\u{200A}\u{2028}\u{2029}\u{202F}\u{205F}\u{3000}"@.contains(
            c,
        ),
{
    reveal_strlit(
        "\t\n\u{B}\u{C}\r \u{85}\u{A0}\u{1680}\u{2000}\u{2001}\u{2002}\u{2003}\u{2004}\u{2005}\u{2006}\u{2007}\u{2008}\u{2009}\u{200A}\u{2028}\u{2029}\u{202F}\u{205F}\u{3000}",
    );
    let all =
        "\t\n\u{B}\u{C}\r \u{85}\u{A0}\u{1680}\u{2000}\u{2001}\u{2002}\u{2003}\u{2004}\u{2005}\u{2006}\u{2007}\u{2008}\u{2009}\u{200A}\u{2028}\u{2029}\u{202F}\u{205F}\u{3000}"@;
    let n = c as u32;
    if is_white(c) {
        let i: int = if n <= 0x0D {
            n - 9
        } else if n == 0x20 {
            5
        } else if n == 0x85 {
            6
        } else if n == 0xA0 {
            7
        } else if n == 0x1680 {
            8
        } else if n <= 0x200A {
            9 + n - 0x2000
        } else if n == 0x2028 {
            20
        } else if n == 0x2029 {
            21
        } else if n == 0x202F {
            22
        } else if n == 0x205F {
            23
        } else {
            24
        };
        assert(all[i] == c);
    }
}

/// The letters that case is ignored of are the twenty-six of ASCII, and no other character changes.
pub proof fn law_only_ascii_letters_have_two_cases(c: char)
    ensures
        'a' <= c <= 'z' ==> ascii_upper(c) as int == c as int - 32 && ascii_lower(c) == c,
        'A' <= c <= 'Z' ==> ascii_lower(c) as int == c as int + 32 && ascii_upper(c) == c,
        !('a' <= c <= 'z') && !('A' <= c <= 'Z') ==> ascii_upper(c) == c && ascii_lower(c) == c,
{
}

/// Digits are the ten of ASCII and, beyond ten, its letters in either case.
pub proof fn law_a_digit_is_worth_its_place(c: char, radix: int)
    requires
        2 <= radix <= 36,
    ensures
        '0' <= c <= '9' && c as int - 48 < radix ==> digit_of(c, radix) == Some(c as int - 48),
        'a' <= c <= 'z' && c as int - 87 < radix ==> digit_of(c, radix) == Some(c as int - 87),
        'A' <= c <= 'Z' ==> digit_of(c, radix) == digit_of(ascii_lower(c), radix),
        !('0' <= c <= '9') && !('a' <= c <= 'z') && !('A' <= c <= 'Z') ==> digit_of(c, radix)
            is None,
        digit_of(c, radix) matches Some(d) ==> 0 <= d < radix,
{
}

/// Of two texts the first that is there is taken.
pub proof fn law_the_first_text_that_is_there_is_taken(
    a: Option<Seq<char>>,
    b: Option<Seq<char>>,
)
    ensures
        a is Some ==> first_of(a, b) == a,
        a is None ==> first_of(a, b) == b,
{
}

} // verus!
