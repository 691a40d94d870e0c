//! Text, seen as a sequence of characters: comparison, white space, lines and
//! decimal numbers.

use vstd::prelude::*;

verus! {

/// The characters of an optional string.
pub open spec fn opt_text(o: Option<String>) -> Option<Seq<char>> {
    match o {
        Some(s) => Some(s@),
        None => None,
    }
}

/// The characters of an optional string slice.
pub open spec fn opt_str(o: Option<&str>) -> Option<Seq<char>> {
    match o {
        Some(s) => Some(s@),
        None => None,
    }
}

/// Whether bytes are the ASCII codes of a text.
pub open spec fn is_text(bytes: Seq<u8>, text: Seq<char>) -> bool {
    bytes.len() == text.len() && forall|i: int|
        0 <= i < text.len() ==> #[trigger] bytes[i] as int == text[i] as int
}

/// The characters of a string.
pub fn chars_of(s: &str) -> (r: Vec<char>)
    ensures
        r@ == s@,
{
    let mut out: Vec<char> = Vec::new();
    for c in it: s.chars()
        invariant
            out@ == s@.take(it.index() as int),
            it.seq() == s@,
    {
        out.push(c);
        proof {
            assert(s@.take(it.index() as int).push(c) == s@.take(it.index() + 1));
        }
    }
    proof {
        assert(s@.take(s@.len() as int) == s@);
    }
    out
}

/// Whether two strings hold the same characters.
pub fn same_text(a: &str, b: &str) -> (r: bool)
    ensures
        r == (a@ == b@),
{
    let x: Vec<char> = chars_of(a);
    let y: Vec<char> = chars_of(b);
    if x.len() != y.len() {
        return false;
    }
    let mut i: usize = 0;
    while i < x.len()
        invariant
            i <= x@.len(),
            x@.len() == y@.len(),
            x@ == a@,
            y@ == b@,
            forall|j: int| 0 <= j < i ==> x@[j] == y@[j],
        decreases x@.len() - i,
    {
        if x[i] != y[i] {
            return false;
        }
        i += 1;
    }
    proof {
        assert(a@ =~= b@);
    }
    true
}


/// White space, as Unicode has it (the property `White_Space`).
pub open spec fn is_white_space(c: char) -> bool {
    ||| '\u{9}' <= c <= '\u{d}'
    ||| c == ' '
    ||| c == '\u{85}'
    ||| c == '\u{a0}'
    ||| c == '\u{1680}'
    ||| '\u{2000}' <= c <= '\u{200a}'
    ||| c == '\u{2028}'
    ||| c == '\u{2029}'
    ||| c == '\u{202f}'
    ||| c == '\u{205f}'
    ||| c == '\u{3000}'
}

/// Whether a character is white space.
pub fn white_space(c: char) -> (r: bool)
    ensures
        r == is_white_space(c),
{
    ('\u{9}' <= c && c <= '\u{d}') || c == ' ' || c == '\u{85}' || c == '\u{a0}' || c == '\u{1680}'
        || ('\u{2000}' <= c && c <= '\u{200a}') || c == '\u{2028}' || c == '\u{2029}' || c
        == '\u{202f}' || c == '\u{205f}' || c == '\u{3000}'
}

/// `s` without the white space it starts with.
pub open spec fn trim_start(s: Seq<char>) -> Seq<char>
    decreases s.len(),
{
    if s.len() > 0 && is_white_space(s[0]) {
        trim_start(s.skip(1))
    } else {
        s
    }
}

/// `s` without the white space it ends with.
pub open spec fn trim_end(s: Seq<char>) -> Seq<char>
    decreases s.len(),
{
    if s.len() > 0 && is_white_space(s.last()) {
        trim_end(s.drop_last())
    } else {
        s
    }
}

/// `s` without the white space around it.
pub open spec fn trim(s: Seq<char>) -> Seq<char> {
    trim_end(trim_start(s))
}

/// Whether there is nothing but white space.
pub open spec fn is_blank(s: Seq<char>) -> bool {
    forall|i: int| 0 <= i < s.len() ==> is_white_space(#[trigger] s[i])
}

proof fn lemma_trim_start_blank(w: Seq<char>, s: Seq<char>)
    requires
        is_blank(w),
    ensures
        trim_start(w + s) == trim_start(s),
    decreases w.len(),
{
    if w.len() > 0 {
        assert((w + s).skip(1) == w.skip(1) + s);
        lemma_trim_start_blank(w.skip(1), s);
    } else {
        assert(w + s == s);
    }
}

proof fn lemma_trim_end_blank(s: Seq<char>, w: Seq<char>)
    requires
        is_blank(w),
    ensures
        trim_end(s + w) == trim_end(s),
    decreases w.len(),
{
    if w.len() > 0 {
        assert((s + w).drop_last() == s + w.drop_last());
        lemma_trim_end_blank(s, w.drop_last());
    } else {
        assert(s + w == s);
    }
}

proof fn lemma_trim_start_append(s: Seq<char>, w: Seq<char>)
    requires
        !is_blank(s),
    ensures
        trim_start(s + w) == trim_start(s) + w,
    decreases s.len(),
{
    if is_white_space(s[0]) {
        let i = choose|i: int| 0 <= i < s.len() && !is_white_space(#[trigger] s[i]);
        assert(s.skip(1)[i - 1] == s[i]);
        assert((s + w).skip(1) == s.skip(1) + w);
        lemma_trim_start_append(s.skip(1), w);
    }
}

/// What white space is, by code point.
pub proof fn law_white_space(c: char)
    ensures
        is_white_space(c) <==> {
            let n = c as int;
            ||| 9 <= n <= 13
            ||| n == 32
            ||| n == 133
            ||| n == 160
            ||| n == 5760
            ||| 8192 <= n <= 8202
            ||| n == 8232
            ||| n == 8233
            ||| n == 8239
            ||| n == 8287
            ||| n == 12288
        },
{
}

/// Trimming takes white space off both ends, and nothing else; and takes off all
/// of it.
pub proof fn law_trimmed(s: Seq<char>) -> (r: (Seq<char>, Seq<char>))
    ensures
        is_blank(r.0),
        is_blank(r.1),
        s == r.0 + trim(s) + r.1,
        trim(s).len() > 0 ==> !is_white_space(trim(s)[0]) && !is_white_space(trim(s).last()),
{
    let before = lemma_trim_start_split(s);
    let t = trim_start(s);
    let after = lemma_trim_end_split(t);
    assert(s =~= before + trim(s) + after);
    if trim(s).len() > 0 {
        assert(trim(s)[0] == t[0]);
    }
    (before, after)
}

proof fn lemma_trim_start_split(s: Seq<char>) -> (before: Seq<char>)
    ensures
        is_blank(before),
        s == before + trim_start(s),
        trim_start(s).len() > 0 ==> !is_white_space(trim_start(s)[0]),
    decreases s.len(),
{
    if s.len() > 0 && is_white_space(s[0]) {
        let rest = lemma_trim_start_split(s.skip(1));
        let before = seq![s[0]] + rest;
        assert(s =~= seq![s[0]] + s.skip(1));
        assert(s =~= before + trim_start(s));
        before
    } else {
        assert(s =~= Seq::<char>::empty() + s);
        Seq::empty()
    }
}

proof fn lemma_trim_end_split(s: Seq<char>) -> (after: Seq<char>)
    ensures
        is_blank(after),
        s == trim_end(s) + after,
        trim_end(s).len() > 0 ==> !is_white_space(trim_end(s).last()),
    decreases s.len(),
{
    if s.len() > 0 && is_white_space(s.last()) {
        let rest = lemma_trim_end_split(s.drop_last());
        let after = rest.push(s.last());
        assert(s =~= s.drop_last().push(s.last()));
        assert(s =~= trim_end(s) + after);
        after
    } else {
        assert(s =~= s + Seq::<char>::empty());
        Seq::empty()
    }
}

/// White space around a text makes no difference once it is trimmed.
pub proof fn law_trim_around(before: Seq<char>, s: Seq<char>, after: Seq<char>)
    requires
        is_blank(before),
        is_blank(after),
    ensures
        trim(before + s + after) == trim(s),
{
    assert(before + s + after == before + (s + after));
    lemma_trim_start_blank(before, s + after);
    if is_blank(s) {
        let none = Seq::<char>::empty();
        lemma_trim_start_blank(s, after);
        lemma_trim_start_blank(after, none);
        lemma_trim_start_blank(s, none);
        assert(after + none == after);
        assert(s + none == s);
    } else {
        lemma_trim_start_append(s, after);
        lemma_trim_end_blank(trim_start(s), after);
    }
}

/// The range of `s[from..to]` that is left once the white space around it is
/// dropped.
pub fn trim_range(s: &Vec<char>, from: usize, to: usize) -> (r: (usize, usize))
    requires
        from <= to <= s@.len(),
    ensures
        from <= r.0 <= r.1 <= to,
        s@.subrange(r.0 as int, r.1 as int) == trim(s@.subrange(from as int, to as int)),
{
    let ghost whole = s@.subrange(from as int, to as int);
    let mut a: usize = from;
    while a < to && white_space(s[a])
        invariant
            from <= a <= to <= s@.len(),
            trim_start(s@.subrange(a as int, to as int)) == trim_start(whole),
        ensures
            from <= a <= to,
            s@.subrange(a as int, to as int) == trim_start(whole),
        decreases to - a,
    {
        proof {
            assert(s@.subrange(a as int, to as int).skip(1) == s@.subrange(a + 1, to as int));
        }
        a += 1;
    }
    let mut b: usize = to;
    while a < b && white_space(s[b - 1])
        invariant
            from <= a <= b <= to <= s@.len(),
            trim_end(s@.subrange(a as int, b as int)) == trim(whole),
        ensures
            from <= a <= b <= to,
            s@.subrange(a as int, b as int) == trim(whole),
        decreases b - a,
    {
        proof {
            assert(s@.subrange(a as int, b as int).drop_last() == s@.subrange(a as int, b - 1));
        }
        b -= 1;
    }
    (a, b)
}

/// `s[a..b]` is a line of `s`: it starts at the start of `s` or after a line
/// feed, it ends at the end of `s` or before one, and it holds none.
pub open spec fn is_line(s: Seq<char>, a: int, b: int) -> bool {
    &&& 0 <= a <= b <= s.len()
    &&& a == 0 || s[a - 1] == '\n'
    &&& b == s.len() || s[b] == '\n'
    &&& forall|i: int| a <= i < b ==> s[i] != '\n'
}

/// Where the line that starts at `a` ends: at the next line feed, or at the end.
pub open spec fn line_end(s: Seq<char>, a: int) -> int
    decreases s.len() - a,
{
    if 0 <= a < s.len() && s[a] != '\n' {
        line_end(s, a + 1)
    } else {
        a
    }
}

/// A line ends at the first line feed from its start on, or at the end.
pub proof fn lemma_line_end(s: Seq<char>, a: int)
    requires
        0 <= a <= s.len(),
    ensures
        a <= line_end(s, a) <= s.len(),
        line_end(s, a) == s.len() || s[line_end(s, a)] == '\n',
        forall|i: int| a <= i < line_end(s, a) ==> s[i] != '\n',
    decreases s.len() - a,
{
    if a < s.len() && s[a] != '\n' {
        lemma_line_end(s, a + 1);
    }
}

/// Finds where the line that starts at `from` ends.
pub fn find_line_end(s: &Vec<char>, from: usize) -> (r: usize)
    requires
        from <= s@.len(),
    ensures
        r == line_end(s@, from as int),
        from <= r <= s@.len(),
        r == s@.len() || s@[r as int] == '\n',
        forall|i: int| from <= i < r ==> s@[i] != '\n',
{
    let mut end: usize = from;
    while end < s.len() && s[end] != '\n'
        invariant
            from <= end <= s@.len(),
            forall|i: int| from <= i < end ==> s@[i] != '\n',
            line_end(s@, end as int) == line_end(s@, from as int),
        decreases s@.len() - end,
    {
        end += 1;
    }
    end
}

/// A decimal digit.
pub open spec fn is_digit(c: char) -> bool {
    '0' <= c <= '9'
}

/// The number that decimal digits stand for.
pub open spec fn decimal_value(s: Seq<char>) -> nat
    decreases s.len(),
{
    if s.len() == 0 {
        0
    } else {
        decimal_value(s.drop_last()) * 10 + (s.last() as nat - '0' as nat) as nat
    }
}

/// How many digits `s` starts with.
pub open spec fn digits_ahead(s: Seq<char>) -> nat
    decreases s.len(),
{
    if s.len() > 0 && is_digit(s[0]) {
        1 + digits_ahead(s.skip(1))
    } else {
        0
    }
}

/// What is wrong with the text of a number.
#[derive(Clone, Copy, Debug, PartialEq, Eq, Structural)]
pub enum NumberError {
    /// There is no text.
    Empty,
    /// A character is not a digit.
    InvalidDigit,
    /// The number does not fit.
    TooLarge,
}

/// The digits of a number: its text without a leading `+` that something
/// follows.
pub open spec fn digits_part(s: Seq<char>) -> Seq<char> {
    if s.len() > 1 && s[0] == '+' {
        s.skip(1)
    } else {
        s
    }
}

/// The number that a text stands for: an optional `+` and then digits only. Of
/// two faults the one further left counts.
pub open spec fn number_of(s: Seq<char>) -> Result<usize, NumberError> {
    let d = digits_part(s);
    let n = digits_ahead(d);
    if s.len() == 0 {
        Err(NumberError::Empty)
    } else if decimal_value(d.take(n as int)) > usize::MAX {
        Err(NumberError::TooLarge)
    } else if n < d.len() {
        Err(NumberError::InvalidDigit)
    } else {
        Ok(decimal_value(d) as usize)
    }
}

proof fn lemma_digits_ahead(s: Seq<char>, n: int)
    requires
        0 <= n <= s.len(),
        forall|i: int| 0 <= i < n ==> is_digit(#[trigger] s[i]),
    ensures
        n <= digits_ahead(s) <= s.len(),
        n == s.len() || !is_digit(s[n]) ==> digits_ahead(s) == n,
        forall|i: int| 0 <= i < digits_ahead(s) ==> is_digit(#[trigger] s[i]),
    decreases s.len(),
{
    if s.len() > 0 && is_digit(s[0]) {
        let t = s.skip(1);
        let m = if n > 0 { n - 1 } else { 0 };
        lemma_digits_ahead(t, m);
        assert forall|i: int| 0 <= i < digits_ahead(s) implies is_digit(#[trigger] s[i]) by {
            if i > 0 {
                assert(s[i] == t[i - 1]);
            }
        }
    }
}

proof fn lemma_decimal_monotone(s: Seq<char>, a: int, b: int)
    requires
        0 <= a <= b <= s.len(),
    ensures
        decimal_value(s.take(a)) <= decimal_value(s.take(b)),
    decreases b - a,
{
    if a < b {
        lemma_decimal_monotone(s, a, b - 1);
        assert(s.take(b).drop_last() == s.take(b - 1));
    }
}

/// Reads a number, as [`number_of`] says.
pub fn parse_number(s: &str) -> (r: Result<usize, NumberError>)
    ensures
        r == number_of(s@),
{
    let c: Vec<char> = chars_of(s);
    if c.len() == 0 {
        return Err(NumberError::Empty);
    }
    let start: usize = if c.len() > 1 && c[0] == '+' { 1 } else { 0 };
    let ghost d = digits_part(s@);
    let mut value: usize = 0;
    let mut i: usize = start;
    while i < c.len()
        invariant
            c@ == s@,
            s@.len() > 0,
            start <= i <= c@.len(),
            d == digits_part(s@),
            d == s@.skip(start as int),
            forall|j: int| 0 <= j < i - start ==> is_digit(#[trigger] d[j]),
            value == decimal_value(d.take(i - start)),
        decreases c@.len() - i,
    {
        let x: char = c[i];
        let ghost k = i - start;
        proof {
            lemma_digits_ahead(d, k);
            assert(d[k] == x);
        }
        if x < '0' || x > '9' {
            return Err(NumberError::InvalidDigit);
        }
        let digit: usize = (x as u32 - '0' as u32) as usize;
        proof {
            assert(d.take(k + 1).drop_last() == d.take(k));
            lemma_digits_ahead(d, k + 1);
            lemma_decimal_monotone(d, k + 1, digits_ahead(d) as int);
        }
        if value > (usize::MAX - digit) / 10 {
            return Err(NumberError::TooLarge);
        }
        value = value * 10 + digit;
        i += 1;
    }
    proof {
        lemma_digits_ahead(d, d.len() as int);
        assert(d.take(d.len() as int) == d);
    }
    Ok(value)
}

/// How a number is read, character by character: a first digit (after a `+`, if
/// there is one) is its own value, and each further digit makes the number ten
/// times as large and adds its value. The first fault from the left is the error:
/// a character that is no digit, or a number that does not fit; without any
/// character there is no number.
pub proof fn law_number_by_digit(s: Seq<char>, c: char)
    ensures
        number_of(Seq::empty()) == Err::<usize, NumberError>(NumberError::Empty),
        number_of(s.push(c)) == (if s.len() == 0 || s == seq!['+'] {
            if '0' <= c <= '9' {
                Ok::<usize, NumberError>((c as int - '0' as int) as usize)
            } else {
                Err(NumberError::InvalidDigit)
            }
        } else {
            match number_of(s) {
                Err(e) => Err(e),
                Ok(n) => if !('0' <= c <= '9') {
                    Err(NumberError::InvalidDigit)
                } else if 10 * n + (c as int - '0' as int) > usize::MAX {
                    Err(NumberError::TooLarge)
                } else {
                    Ok((10 * n + (c as int - '0' as int)) as usize)
                },
            }
        }),
{
    let t = s.push(c);
    let d = digits_part(t);
    if s.len() == 0 || s == seq!['+'] {
        assert(d =~= seq![c]);
        lemma_digits_ahead(d, 0);
        assert(d.take(0) =~= Seq::<char>::empty());
        assert(d.take(1) =~= d);
        assert(d.drop_last() =~= Seq::<char>::empty());
        assert(decimal_value(d.drop_last()) == 0);
        if is_digit(c) {
            lemma_digits_ahead(d, 1);
        }
    } else {
        let e = digits_part(s);
        if s.len() == 1 && s[0] == '+' {
            assert(s =~= seq!['+']);
        }
        assert(d =~= e.push(c));
        lemma_digits_ahead(e, 0);
        let n = digits_ahead(e) as int;
        assert forall|i: int| 0 <= i < n implies is_digit(#[trigger] d[i]) by {
            assert(d[i] == e[i]);
        }
        lemma_digits_ahead(d, n);
        assert(d.take(n) =~= e.take(n));
        if n < e.len() {
            lemma_stops(e, n);
            assert(d[n] == e[n]);
        } else {
            assert(e.take(n) =~= e);
            assert(d.drop_last() =~= e);
            if is_digit(c) {
                assert forall|i: int| 0 <= i < n + 1 implies is_digit(#[trigger] d[i]) by {
                    if i < n {
                        assert(d[i] == e[i]);
                    }
                }
                lemma_digits_ahead(d, n + 1);
                assert(d.take(n + 1) =~= d);
            }
        }
    }
}

proof fn lemma_stops(s: Seq<char>, n: int)
    requires
        n == digits_ahead(s),
        n < s.len(),
    ensures
        !is_digit(s[n]),
    decreases s.len(),
{
    if s.len() > 0 && is_digit(s[0]) {
        lemma_stops(s.skip(1), n - 1);
        assert(s.skip(1)[n - 1] == s[n]);
    }
}

/// The character of a digit.
pub open spec fn digit_char(d: nat) -> char {
    ('0' as nat + d) as char
}

/// A number in decimal digits.
pub open spec fn decimal_digits(n: nat) -> Seq<char>
    decreases n,
{
    if n < 10 {
        seq![digit_char(n)]
    } else {
        decimal_digits(n / 10).push(digit_char(n % 10))
    }
}

/// A number is written so that reading gives it back, in digits alone and without
/// zeros that are not needed.
pub proof fn law_number_text(n: usize, text: String)
    requires
        call_ensures(number_text, (n,), text),
    ensures
        number_of(text@) == Ok::<usize, NumberError>(n),
        forall|i: int| 0 <= i < text@.len() ==> '0' <= #[trigger] text@[i] <= '9',
        text@.len() > 1 ==> text@[0] != '0',
{
    lemma_decimal_digits(n);
}

proof fn lemma_decimal_digits(n: usize)
    ensures
        number_of(decimal_digits(n as nat)) == Ok::<usize, NumberError>(n),
        decimal_digits(n as nat).len() > 0,
        forall|i: int|
            0 <= i < decimal_digits(n as nat).len() ==> '0' <= #[trigger] decimal_digits(
                n as nat,
            )[i] <= '9',
        n > 0 ==> decimal_digits(n as nat)[0] != '0',
    decreases n,
{
    let c = digit_char(n as nat % 10);
    assert('0' <= c <= '9' && c as int - '0' as int == n % 10);
    if n < 10 {
        law_number_by_digit(Seq::empty(), c);
        assert(Seq::<char>::empty().push(c) =~= decimal_digits(n as nat));
    } else {
        lemma_decimal_digits(n / 10);
        let s = decimal_digits(n as nat / 10);
        assert(s[0] != '+');
        law_number_by_digit(s, c);
        assert(decimal_digits(n as nat) == s.push(c));
    }
}

fn digit_text(d: usize) -> (r: &'static str)
    requires
        d < 10,
    ensures
        r@ == seq![digit_char(d as nat)],
{
    proof {
        reveal_strlit("0");
        reveal_strlit("1");
        reveal_strlit("2");
        reveal_strlit("3");
        reveal_strlit("4");
        reveal_strlit("5");
        reveal_strlit("6");
        reveal_strlit("7");
        reveal_strlit("8");
        reveal_strlit("9");
    }
    match d {
        0 => "0",
        1 => "1",
        2 => "2",
        3 => "3",
        4 => "4",
        5 => "5",
        6 => "6",
        7 => "7",
        8 => "8",
        _ => "9",
    }
}

/// Writes a number in decimal digits.
pub fn number_text(n: usize) -> (r: String)
    ensures
        r@ == decimal_digits(n as nat),
    decreases n,
{
    if n < 10 {
        digit_text(n).to_owned()
    } else {
        let mut s: String = number_text(n / 10);
        s.append(digit_text(n % 10));
        s
    }
}

} // verus!
