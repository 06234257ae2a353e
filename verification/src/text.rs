//! Text helpers: comparison, decimal numbers, splitting and trimming.

use vstd::prelude::*;
use vstd::string::*;

verus! {

/// Calls `str::eq` of std: `true` exactly when both slices hold the same
/// characters.
#[verifier::external_body]
pub(crate) fn str_eq(a: &str, b: &str) -> (r: bool)
    ensures
        r == (a@ == b@),
{
    a == b
}

/// Calls `String::from_iter` of std: the string made of the characters of
/// `chars`, in order.
#[verifier::external_body]
pub(crate) fn string_of(chars: &Vec<char>) -> (r: String)
    ensures
        r@ == chars@,
{
    String::from_iter(chars.iter())
}

/// The characters of `s`, in order.
pub fn chars_of(s: &str) -> (r: Vec<char>)
    ensures
        r@ == s@,
{
    let mut out: Vec<char> = Vec::new();
    for c in it: s.chars()
        invariant
            out@ == it.seq().take(it.index()),
    {
        out.push(c);
    }
    out
}

/// The decimal digit that stands for `d`, for `0 <= d <= 9`.
pub open spec fn digit(d: int) -> char {
    ('0' as u8 + d) as u8 as char
}

/// Whether `c` is one of the ten decimal digits.
pub open spec fn is_digit(c: char) -> bool {
    '0' <= c <= '9'
}

/// The number that the decimal digit `c` stands for.
pub open spec fn digit_value(c: char) -> int {
    c as int - '0' as int
}

/// The decimal digits of `n`, most significant first, without leading zeros.
pub open spec fn digits(n: nat) -> Seq<char>
    decreases n,
{
    if n < 10 {
        seq![digit(n as int)]
    } else {
        digits(n / 10).push(digit((n % 10) as int))
    }
}

/// The decimal text of `i`: a minus sign for a negative number, then its digits.
pub open spec fn decimal(i: int) -> Seq<char> {
    if i < 0 {
        seq!['-'] + digits((-i) as nat)
    } else {
        digits(i as nat)
    }
}

/// The number that a sequence of decimal digits stands for.
pub open spec fn digits_value(s: Seq<char>) -> nat
    decreases s.len(),
{
    if s.len() == 0 {
        0
    } else {
        digits_value(s.drop_last()) * 10 + digit_value(s.last()) as nat
    }
}

/// Whether every character of `s` is a decimal digit.
pub open spec fn all_digits(s: Seq<char>) -> bool {
    forall|i: int| 0 <= i < s.len() ==> is_digit(#[trigger] s[i])
}

/// What is left of `s` after a leading `+` or `-`.
pub open spec fn unsigned_part(s: Seq<char>) -> Seq<char> {
    if s.len() > 0 && (s[0] == '-' || s[0] == '+') {
        s.skip(1)
    } else {
        s
    }
}

/// The integer that `s` denotes: an optional sign followed by one or more
/// decimal digits and nothing else. Leading zeros are accepted.
pub open spec fn parse_int(s: Seq<char>) -> Option<int> {
    let body = unsigned_part(s);
    if body.len() == 0 || !all_digits(body) {
        None
    } else if s[0] == '-' {
        Some(-(digits_value(body) as int))
    } else {
        Some(digits_value(body) as int)
    }
}

/// The 32-bit integer that `s` denotes, if it denotes one that fits.
pub open spec fn parse_i32(s: Seq<char>) -> Option<i32> {
    match parse_int(s) {
        Some(v) => if i32::MIN <= v <= i32::MAX {
            Some(v as i32)
        } else {
            None
        },
        None => None,
    }
}

fn digit_char(d: u64) -> (c: char)
    requires
        d <= 9,
    ensures
        c == digit(d as int),
{
    (48u8 + d as u8) as char
}

fn digit_of(c: char) -> (d: Option<u8>)
    ensures
        d is Some <==> is_digit(c),
        d is Some ==> d->0 as int == digit_value(c) && d->0 <= 9,
{
    if '0' <= c && c <= '9' {
        Some((c as u32 - '0' as u32) as u8)
    } else {
        None
    }
}

fn push_digits(out: &mut Vec<char>, n: u64)
    ensures
        final(out)@ == old(out)@ + digits(n as nat),
    decreases n,
{
    if n >= 10 {
        push_digits(out, n / 10);
    }
    out.push(digit_char(n % 10));
}

/// The decimal text of `n`.
pub fn nat_string(n: u64) -> (r: String)
    ensures
        r@ == decimal(n as int),
{
    let mut out: Vec<char> = Vec::new();
    push_digits(&mut out, n);
    string_of(&out)
}

/// Appends the decimal text of `i` to `out`.
pub fn push_decimal(out: &mut Vec<char>, i: i64)
    ensures
        final(out)@ == old(out)@ + decimal(i as int),
{
    if i < 0 {
        out.push('-');
        let magnitude: u64 = if i == i64::MIN {
            9223372036854775808u64
        } else {
            (-i) as u64
        };
        push_digits(out, magnitude);
        assert(out@ == old(out)@ + (seq!['-'] + digits((-i) as nat)));
    } else {
        push_digits(out, i as u64);
    }
}

/// Appends the characters of `s` to `out`.
pub fn push_text(out: &mut Vec<char>, s: &str)
    ensures
        final(out)@ == old(out)@ + s@,
{
    for c in it: s.chars()
        invariant
            it.seq() == s@,
            out@ == old(out)@ + it.seq().take(it.index()),
    {
        out.push(c);
    }
}

/// The decimal text of `i`.
pub fn int_string(i: i64) -> (r: String)
    ensures
        r@ == decimal(i as int),
{
    let mut out: Vec<char> = Vec::new();
    push_decimal(&mut out, i);
    string_of(&out)
}

/// A prefix of a digit sequence stands for a number that is no larger.
pub proof fn lemma_digits_value_prefix(s: Seq<char>, k: int)
    requires
        0 <= k <= s.len(),
    ensures
        digits_value(s.take(k)) <= digits_value(s),
    decreases s.len() - k,
{
    if k == s.len() {
        assert(s.take(k) == s);
    } else {
        assert(s.drop_last().take(k) == s.take(k));
        lemma_digits_value_prefix(s.drop_last(), k);
    }
}

/// The digits of a number are digits, and stand for that number.
pub proof fn lemma_digits_value(n: nat)
    ensures
        digits(n).len() > 0,
        all_digits(digits(n)),
        digits_value(digits(n)) == n,
    decreases n,
{
    let d = (n % 10) as int;
    assert(is_digit(digit(d)));
    assert(digit_value(digit(d)) == d);
    if n < 10 {
        assert(digits(n).drop_last() == Seq::<char>::empty());
        assert(digits_value(digits(n).drop_last()) == 0);
    } else {
        lemma_digits_value(n / 10);
        assert(digits(n).drop_last() == digits(n / 10));
    }
}

/// Reading the decimal text of an integer gives that integer back.
pub proof fn lemma_parse_decimal(i: int)
    ensures
        parse_int(decimal(i)) == Some(i),
{
    if i < 0 {
        let n = (-i) as nat;
        lemma_digits_value(n);
        assert(decimal(i).skip(1) == digits(n));
    } else {
        let n = i as nat;
        lemma_digits_value(n);
        let first = digits(n)[0];
        assert(is_digit(first));
        assert(first != '-' && first != '+');
    }
}

/// Different integers have different decimal texts.
pub proof fn lemma_decimal_injective(i: int, j: int)
    requires
        decimal(i) == decimal(j),
    ensures
        i == j,
{
    lemma_parse_decimal(i);
    lemma_parse_decimal(j);
}

/// The decimal text of an integer is not empty, and holds digits and the
/// minus sign only: no `*`, no `+`, no `:`.
pub proof fn lemma_decimal_chars(i: int)
    ensures
        decimal(i).len() > 0,
        forall|k: int|
            0 <= k < decimal(i).len() ==> {
                let c = #[trigger] decimal(i)[k];
                c != '*' && c != '+' && c != ':'
            },
{
    let n = if i < 0 {
        (-i) as nat
    } else {
        i as nat
    };
    lemma_digits_value(n);
    assert forall|k: int| 0 <= k < decimal(i).len() implies {
        let c = #[trigger] decimal(i)[k];
        c != '*' && c != '+' && c != ':'
    } by {
        if i < 0 {
            if k > 0 {
                assert(decimal(i)[k] == digits(n)[k - 1]);
                assert(is_digit(digits(n)[k - 1]));
            }
        } else {
            assert(is_digit(digits(n)[k]));
        }
    }
}

/// Reads a 32-bit integer from its decimal text, as `parse_i32` defines it.
pub fn parse_i32_text(text: &str) -> (r: Option<i32>)
    ensures
        r == parse_i32(text@),
{
    let chars = chars_of(text);
    let n = chars.len();
    if n == 0 {
        return None;
    }
    let negative = chars[0] == '-';
    let start: usize = if negative || chars[0] == '+' {
        1
    } else {
        0
    };
    if start == n {
        return None;
    }
    let ghost body = unsigned_part(chars@);
    assert(body == chars@.skip(start as int));
    let mut acc: i64 = 0;
    let mut i: usize = start;
    while i < n
        invariant
            start <= i <= n,
            n == chars.len(),
            chars@ == text@,
            body == unsigned_part(chars@),
            body == chars@.skip(start as int),
            all_digits(body.take(i - start)),
            acc == digits_value(body.take(i - start)),
            0 <= acc <= 2147483648,
        decreases n - i,
    {
        let ghost k = i - start;
        assert(body[k] == chars[i as int]);
        assert(body.take(k + 1).drop_last() == body.take(k));
        match digit_of(chars[i]) {
            None => {
                assert(!is_digit(body[k]));
                return None;
            },
            Some(d) => {
                acc = acc * 10 + d as i64;
                assert(acc == digits_value(body.take(k + 1)));
                if acc > 2147483648 {
                    proof {
                        lemma_digits_value_prefix(body, k + 1);
                    }
                    return None;
                }
            },
        }
        i += 1;
    }
    assert(body.take(n - start) == body);
    if negative {
        Some((-acc) as i32)
    } else if acc > 2147483647 {
        None
    } else {
        Some(acc as i32)
    }
}

/// The view of a string slice that may be missing.
pub open spec fn opt_str_view(o: Option<&str>) -> Option<Seq<char>> {
    match o {
        Some(s) => Some(s@),
        None => None,
    }
}

/// The view of a string that may be missing.
pub open spec fn opt_view(o: Option<String>) -> Option<Seq<char>> {
    match o {
        Some(s) => Some(s@),
        None => None,
    }
}

/// The views of a sequence of strings.
pub open spec fn views(v: Seq<String>) -> Seq<Seq<char>> {
    Seq::new(v.len(), |i: int| v[i]@)
}

/// Whether `c` separates two options in a list of attribute options.
pub open spec fn is_separator(c: char) -> bool {
    c == ',' || c == '|'
}

/// The pieces of `s` that lie between separators, in order. A text with `n`
/// separators has `n + 1` pieces; a piece may be empty.
pub open spec fn split_pieces(s: Seq<char>) -> Seq<Seq<char>>
    decreases s.len(),
{
    if s.len() == 0 {
        seq![Seq::<char>::empty()]
    } else {
        let before = split_pieces(s.drop_last());
        if is_separator(s.last()) {
            before.push(Seq::<char>::empty())
        } else {
            before.drop_last().push(before.last().push(s.last()))
        }
    }
}

/// What `char::is_whitespace` of std answers for `c`: whether `c` has the
/// Unicode property White_Space.
pub uninterp spec fn is_whitespace(c: char) -> bool;

/// Calls `char::is_whitespace` of std.
#[verifier::external_body]
fn char_is_whitespace(c: char) -> (r: bool)
    ensures
        r == is_whitespace(c),
{
    c.is_whitespace()
}

/// The number of whitespace characters at the start of `s`.
pub open spec fn leading_whitespace(s: Seq<char>) -> nat
    decreases s.len(),
{
    if s.len() > 0 && is_whitespace(s[0]) {
        1 + leading_whitespace(s.skip(1))
    } else {
        0
    }
}

/// The number of whitespace characters at the end of `s`.
pub open spec fn trailing_whitespace(s: Seq<char>) -> nat
    decreases s.len(),
{
    if s.len() > 0 && is_whitespace(s.last()) {
        1 + trailing_whitespace(s.drop_last())
    } else {
        0
    }
}

/// `s` without the whitespace at its start and at its end.
pub open spec fn trim(s: Seq<char>) -> Seq<char> {
    let rest = s.skip(leading_whitespace(s) as int);
    rest.take(rest.len() - trailing_whitespace(rest))
}

proof fn lemma_leading_whitespace(s: Seq<char>, k: int)
    requires
        0 <= k <= s.len(),
        forall|j: int| 0 <= j < k ==> is_whitespace(#[trigger] s[j]),
        k < s.len() ==> !is_whitespace(s[k]),
    ensures
        leading_whitespace(s) == k,
    decreases k,
{
    if k > 0 {
        let t = s.skip(1);
        assert forall|j: int| 0 <= j < k - 1 implies is_whitespace(#[trigger] t[j]) by {
            assert(t[j] == s[j + 1]);
        }
        lemma_leading_whitespace(t, k - 1);
    }
}

proof fn lemma_trailing_whitespace(s: Seq<char>, k: int)
    requires
        0 <= k <= s.len(),
        forall|j: int| k <= j < s.len() ==> is_whitespace(#[trigger] s[j]),
        k > 0 ==> !is_whitespace(s[k - 1]),
    ensures
        trailing_whitespace(s) == s.len() - k,
    decreases s.len() - k,
{
    if k < s.len() {
        let t = s.drop_last();
        assert forall|j: int| k <= j < t.len() implies is_whitespace(#[trigger] t[j]) by {
            assert(t[j] == s[j]);
        }
        lemma_trailing_whitespace(t, k);
    }
}

/// `text` without the whitespace at its start and at its end.
pub fn trimmed(text: &Vec<char>) -> (r: Vec<char>)
    ensures
        r@ == trim(text@),
{
    let n = text.len();
    let mut from: usize = 0;
    while from < n && char_is_whitespace(text[from])
        invariant
            from <= n,
            n == text.len(),
            forall|j: int| 0 <= j < from ==> is_whitespace(#[trigger] text@[j]),
        decreases n - from,
    {
        from += 1;
    }
    let mut to: usize = n;
    while to > from && char_is_whitespace(text[to - 1])
        invariant
            from <= to <= n,
            n == text.len(),
            forall|j: int| to <= j < n ==> is_whitespace(#[trigger] text@[j]),
        decreases to,
    {
        to -= 1;
    }
    let ghost rest = text@.skip(from as int);
    proof {
        lemma_leading_whitespace(text@, from as int);
        assert forall|j: int| to - from <= j < rest.len() implies is_whitespace(
            #[trigger] rest[j],
        ) by {
            assert(rest[j] == text@[j + from]);
        }
        lemma_trailing_whitespace(rest, to - from);
    }
    let mut out: Vec<char> = Vec::new();
    let mut i: usize = from;
    while i < to
        invariant
            from <= i <= to <= n,
            n == text.len(),
            out@ == text@.subrange(from as int, i as int),
        decreases to - i,
    {
        out.push(text[i]);
        i += 1;
    }
    assert(out@ == rest.take(to - from));
    out
}

/// The pieces as a reader of options takes them: as they are, or each
/// without the whitespace at its ends.
pub open spec fn read_pieces(pieces: Seq<Seq<char>>, trim_each: bool) -> Seq<Seq<char>> {
    Seq::new(
        pieces.len(),
        |i: int|
            if trim_each {
                trim(pieces[i])
            } else {
                pieces[i]
            },
    )
}

/// Splits `text` at every `,` and every `|`. With `trim_each`, whitespace is
/// taken off both ends of every piece.
pub fn split_options(text: &str, trim_each: bool) -> (r: Vec<String>)
    ensures
        views(r@) == read_pieces(split_pieces(text@), trim_each),
{
    let chars = chars_of(text);
    let n = chars.len();
    let mut out: Vec<String> = Vec::new();
    let mut piece: Vec<char> = Vec::new();
    let ghost mut raw: Seq<Seq<char>> = Seq::empty();
    let mut i: usize = 0;
    while i < n
        invariant
            i <= n,
            n == chars.len(),
            chars@ == text@,
            split_pieces(chars@.take(i as int)) == raw.push(piece@),
            views(out@) == read_pieces(raw, trim_each),
        decreases n - i,
    {
        let c = chars[i];
        assert(chars@.take(i + 1).drop_last() == chars@.take(i as int));
        assert(raw.push(piece@).drop_last() == raw);
        if c == ',' || c == '|' {
            let done = if trim_each {
                string_of(&trimmed(&piece))
            } else {
                string_of(&piece)
            };
            proof {
                let next = raw.push(piece@);
                assert(views(out@).len() == raw.len());
                assert forall|j: int| 0 <= j < next.len() implies views(out@.push(done))[j]
                    == read_pieces(next, trim_each)[j] by {
                    if j < raw.len() {
                        assert(views(out@)[j] == read_pieces(raw, trim_each)[j]);
                    }
                }
                assert(views(out@.push(done)) == read_pieces(next, trim_each));
                raw = next;
            }
            out.push(done);
            piece = Vec::new();
        } else {
            piece.push(c);
        }
        i += 1;
    }
    assert(chars@.take(n as int) == chars@);
    let done = if trim_each {
        string_of(&trimmed(&piece))
    } else {
        string_of(&piece)
    };
    proof {
        let next = raw.push(piece@);
        assert(views(out@).len() == raw.len());
        assert forall|j: int| 0 <= j < next.len() implies views(out@.push(done))[j]
            == read_pieces(next, trim_each)[j] by {
            if j < raw.len() {
                assert(views(out@)[j] == read_pieces(raw, trim_each)[j]);
            }
        }
        assert(views(out@.push(done)) == read_pieces(next, trim_each));
    }
    out.push(done);
    out
}

} // verus!
