//! Words of an argument: splitting, trimming, and telling numbers apart.

use crate::model::texts;
use crate::text::{chars_of, code_point, is_upper_of, upper_text};
use vstd::prelude::*;

verus! {

/// What separates the words of an argument.
#[derive(Debug, Clone, Copy, PartialEq, Eq, Structural)]
pub enum Separator {
    /// Spaces and commas, between names.
    Name,
    /// Spaces, commas and tabs, between coordinates.
    Coordinate,
    /// White space of any sort, between margins.
    Blank,
}

/// White space: the characters that the Unicode property of that name lists.
pub open spec fn is_white(c: char) -> bool {
    let p = c as int;
    ||| 0x9 <= p <= 0xD
    ||| p == 0x20
    ||| p == 0x85
    ||| p == 0xA0
    ||| p == 0x1680
    ||| 0x2000 <= p <= 0x200A
    ||| p == 0x2028
    ||| p == 0x2029
    ||| p == 0x202F
    ||| p == 0x205F
    ||| p == 0x3000
}

/// `c` separates words.
pub open spec fn separates(sep: Separator, c: char) -> bool {
    match sep {
        Separator::Name => c == ' ' || c == ',',
        Separator::Coordinate => c == ' ' || c == ',' || c == '\t',
        Separator::Blank => is_white(c),
    }
}

/// Is `c` white space?
pub fn is_blank(c: char) -> (r: bool)
    ensures
        r == is_white(c),
{
    let p: u32 = code_point(c);
    (0x9 <= p && p <= 0xD) || p == 0x20 || p == 0x85 || p == 0xA0 || p == 0x1680 || (0x2000 <= p
        && p <= 0x200A) || p == 0x2028 || p == 0x2029 || p == 0x202F || p == 0x205F || p == 0x3000
}

fn is_separator(sep: Separator, c: char) -> (r: bool)
    ensures
        r == separates(sep, c),
{
    match sep {
        Separator::Name => c == ' ' || c == ',',
        Separator::Coordinate => c == ' ' || c == ',' || c == '\t',
        Separator::Blank => is_blank(c),
    }
}

/// The words of `s`: its longest stretches without a separator, in order.
pub open spec fn words_of(s: Seq<char>, sep: Separator) -> Seq<Seq<char>>
    decreases s.len(),
{
    if s.len() == 0 {
        Seq::empty()
    } else {
        let rest = s.drop_last();
        let words = words_of(rest, sep);
        if separates(sep, s.last()) {
            words
        } else if rest.len() > 0 && !separates(sep, rest.last()) {
            words.drop_last().push(words.last().push(s.last()))
        } else {
            words.push(seq![s.last()])
        }
    }
}

proof fn lemma_open_word(s: Seq<char>, sep: Separator, start: int)
    requires
        0 <= start < s.len(),
        start == 0 || separates(sep, s[start - 1]),
        forall|k: int| start <= k < s.len() ==> !separates(sep, #[trigger] s[k]),
    ensures
        words_of(s, sep) == words_of(s.take(start), sep).push(s.skip(start)),
    decreases s.len(),
{
    let rest = s.drop_last();
    assert(!separates(sep, s[s.len() - 1]));
    if start == s.len() - 1 {
        assert(s.take(start) =~= rest);
        assert(s.skip(start) =~= seq![s.last()]);
        if rest.len() > 0 {
            assert(rest.last() == s[start - 1]);
        }
    } else {
        assert(!separates(sep, s[s.len() - 2]));
        assert(rest.last() == s[s.len() - 2]);
        lemma_open_word(rest, sep, start);
        assert(rest.take(start) =~= s.take(start));
        assert(rest.skip(start).push(s.last()) =~= s.skip(start));
        let words = words_of(rest, sep);
        assert(words.drop_last() =~= words_of(s.take(start), sep));
    }
}

/// The words of `s`, in order.
pub fn split_words(s: &str, sep: Separator) -> (r: Vec<String>)
    ensures
        texts(r@) == words_of(s@, sep),
{
    let chars: Vec<char> = chars_of(s);
    let mut out: Vec<String> = Vec::new();
    let mut start: usize = 0;
    let mut i: usize = 0;
    assert(texts(out@) =~= words_of(s@.take(0), sep));
    while i < chars.len()
        invariant
            chars@ == s@,
            start <= i <= chars@.len(),
            start == 0 || separates(sep, chars@[start - 1]),
            forall|k: int| start <= k < i ==> !separates(sep, #[trigger] chars@[k]),
            texts(out@) == words_of(s@.take(start as int), sep),
        decreases chars.len() - i,
    {
        if is_separator(sep, chars[i]) {
            let ghost upto = s@.take(i as int);
            let ghost made = out@;
            if start < i {
                proof {
                    assert forall|k: int| start <= k < upto.len() implies !separates(
                        sep,
                        #[trigger] upto[k],
                    ) by {
                        assert(upto[k] == chars@[k]);
                    }
                    lemma_open_word(upto, sep, start as int);
                    assert(upto.take(start as int) =~= s@.take(start as int));
                }
                out.push(s.substring_char(start, i).to_owned());
                proof {
                    assert(upto.skip(start as int) =~= s@.subrange(start as int, i as int));
                    assert(texts(out@) =~= texts(made).push(upto.skip(start as int)));
                }
            }
            proof {
                assert(s@.take(i + 1).drop_last() =~= upto);
                assert(s@.take(i + 1).last() == chars@[i as int]);
            }
            start = i + 1;
        }
        i = i + 1;
    }
    assert(s@.take(i as int) =~= s@);
    if start < i {
        let ghost made = out@;
        proof {
            lemma_open_word(s@, sep, start as int);
        }
        out.push(s.substring_char(start, i).to_owned());
        proof {
            assert(s@.skip(start as int) =~= s@.subrange(start as int, i as int));
            assert(texts(out@) =~= texts(made).push(s@.skip(start as int)));
        }
    }
    out
}

/// The names of a list, separated by spaces or commas.
pub fn parse_list(s: &str) -> (r: Vec<String>)
    ensures
        texts(r@) == words_of(s@, Separator::Name),
{
    split_words(s, Separator::Name)
}

/// Words are never empty and never hold a separator.
pub proof fn law_words_hold_no_separator(s: Seq<char>, sep: Separator, i: int)
    requires
        0 <= i < words_of(s, sep).len(),
    ensures
        words_of(s, sep)[i].len() > 0,
        forall|k: int|
            0 <= k < words_of(s, sep)[i].len() ==> !separates(
                sep,
                #[trigger] words_of(s, sep)[i][k],
            ),
    decreases s.len(),
{
    let rest = s.drop_last();
    let words = words_of(rest, sep);
    if separates(sep, s.last()) {
        law_words_hold_no_separator(rest, sep, i);
    } else if rest.len() > 0 && !separates(sep, rest.last()) {
        lemma_last_word_is_open(rest, sep);
        law_words_hold_no_separator(rest, sep, i);
    } else if i < words.len() {
        law_words_hold_no_separator(rest, sep, i);
    }
}

proof fn lemma_last_word_is_open(s: Seq<char>, sep: Separator)
    requires
        s.len() > 0,
        !separates(sep, s.last()),
    ensures
        words_of(s, sep).len() > 0,
{
}

/// How many of the first characters of `s` are white space.
pub open spec fn leading_blanks(s: Seq<char>) -> nat
    decreases s.len(),
{
    if s.len() == 0 || !is_white(s[0]) {
        0
    } else {
        1 + leading_blanks(s.skip(1))
    }
}

/// How many of the last characters of `s` are white space.
pub open spec fn trailing_blanks(s: Seq<char>) -> nat
    decreases s.len(),
{
    if s.len() == 0 || !is_white(s.last()) {
        0
    } else {
        1 + trailing_blanks(s.drop_last())
    }
}

/// `s` without the white space at its ends.
pub open spec fn trimmed(s: Seq<char>) -> Seq<char> {
    let t = s.skip(leading_blanks(s) as int);
    t.take(t.len() - trailing_blanks(t))
}

proof fn lemma_leading(s: Seq<char>, n: nat)
    requires
        n <= s.len(),
        forall|k: int| 0 <= k < n ==> is_white(#[trigger] s[k]),
        n == s.len() || !is_white(s[n as int]),
    ensures
        leading_blanks(s) == n,
    decreases n,
{
    if n > 0 {
        assert(is_white(s[0]));
        assert forall|k: int| 0 <= k < n - 1 implies is_white(#[trigger] s.skip(1)[k]) by {
            assert(s.skip(1)[k] == s[k + 1]);
        }
        lemma_leading(s.skip(1), (n - 1) as nat);
    }
}

proof fn lemma_trailing(s: Seq<char>, n: nat)
    requires
        n <= s.len(),
        forall|k: int| s.len() - n <= k < s.len() ==> is_white(#[trigger] s[k]),
        n == s.len() || !is_white(s[s.len() - n - 1]),
    ensures
        trailing_blanks(s) == n,
    decreases n,
{
    if n > 0 {
        assert(is_white(s[s.len() - 1]));
        assert forall|k: int| s.len() - n <= k < s.len() - 1 implies is_white(
            #[trigger] s.drop_last()[k],
        ) by {
            assert(s.drop_last()[k] == s[k]);
        }
        lemma_trailing(s.drop_last(), (n - 1) as nat);
    }
}

/// `s` without the white space at its ends.
pub fn trim_text(s: &str) -> (r: String)
    ensures
        r@ == trimmed(s@),
{
    let chars: Vec<char> = chars_of(s);
    let mut from: usize = 0;
    while from < chars.len() && is_blank(chars[from])
        invariant
            chars@ == s@,
            from <= chars@.len(),
            forall|k: int| 0 <= k < from ==> is_white(#[trigger] chars@[k]),
        ensures
            from <= chars@.len(),
            forall|k: int| 0 <= k < from ==> is_white(#[trigger] chars@[k]),
            from == chars@.len() || !is_white(chars@[from as int]),
        decreases chars.len() - from,
    {
        from = from + 1;
    }
    let mut to: usize = chars.len();
    while to > from && is_blank(chars[to - 1])
        invariant
            chars@ == s@,
            from <= to <= chars@.len(),
            forall|k: int| to <= k < chars@.len() ==> is_white(#[trigger] chars@[k]),
        ensures
            from <= to <= chars@.len(),
            forall|k: int| to <= k < chars@.len() ==> is_white(#[trigger] chars@[k]),
            to == from || !is_white(chars@[to - 1]),
        decreases to,
    {
        to = to - 1;
    }
    proof {
        lemma_leading(s@, from as nat);
        let t = s@.skip(from as int);
        let n = (chars@.len() - to) as nat;
        assert forall|k: int| t.len() - n <= k < t.len() implies is_white(#[trigger] t[k]) by {
            assert(t[k] == chars@[k + from]);
        }
        if to > from {
            assert(t[t.len() - n - 1] == chars@[to - 1]);
        }
        lemma_trailing(t, n);
        assert(s@.subrange(from as int, to as int) =~= t.take(t.len() - n));
    }
    s.substring_char(from, to).to_owned()
}

/// A decimal digit.
pub open spec fn is_digit(c: char) -> bool {
    48 <= c as int <= 57
}

/// Where the digits that begin at `i` end.
pub open spec fn digits_end(s: Seq<char>, i: int) -> int
    decreases s.len() - i,
{
    if i < 0 || i >= s.len() || !is_digit(s[i]) {
        i
    } else {
        digits_end(s, i + 1)
    }
}

/// Behind the sign that may stand at `i`.
pub open spec fn sign_end(s: Seq<char>, i: int) -> int {
    if 0 <= i < s.len() && (s[i] == '+' || s[i] == '-') {
        i + 1
    } else {
        i
    }
}

/// Nothing follows at `i`, or an exponent does: `e`, a sign if any, and digits to the end.
pub open spec fn ends_in_exponent(s: Seq<char>, i: int) -> bool {
    ||| i == s.len()
    ||| {
        let j = sign_end(s, i + 1);
        &&& 0 <= i < s.len()
        &&& s[i] == 'e' || s[i] == 'E'
        &&& j < s.len()
        &&& digits_end(s, j) == s.len()
    }
}

/// Digits with a decimal point among them or around them, at least one digit in all, and an
/// exponent if any.
pub open spec fn is_digit_number(s: Seq<char>) -> bool {
    let a = digits_end(s, 0);
    if a < s.len() && s[a] == '.' {
        let b = digits_end(s, a + 1);
        (a > 0 || b > a + 1) && ends_in_exponent(s, b)
    } else {
        a > 0 && ends_in_exponent(s, a)
    }
}

/// The text of a floating-point number: a sign if any, and then an infinity, not-a-number, or
/// digits.
pub open spec fn is_number(s: Seq<char>) -> bool {
    let body = s.skip(sign_end(s, 0));
    ||| upper_text(body) == "INF"@
    ||| upper_text(body) == "INFINITY"@
    ||| upper_text(body) == "NAN"@
    ||| is_digit_number(body)
}

proof fn lemma_digits_end(s: Seq<char>, i: int, j: int)
    requires
        0 <= i <= j <= s.len(),
        forall|k: int| i <= k < j ==> is_digit(#[trigger] s[k]),
        j == s.len() || !is_digit(s[j]),
    ensures
        digits_end(s, i) == j,
    decreases j - i,
{
    if i < j {
        assert(is_digit(s[i]));
        lemma_digits_end(s, i + 1, j);
    }
}

fn skip_digits(chars: &Vec<char>, from: usize) -> (r: usize)
    requires
        from <= chars@.len(),
    ensures
        r == digits_end(chars@, from as int),
        from <= r <= chars@.len(),
{
    let mut j: usize = from;
    while j < chars.len() && 48 <= code_point(chars[j]) && code_point(chars[j]) <= 57
        invariant
            from <= j <= chars@.len(),
            forall|k: int| from <= k < j ==> is_digit(#[trigger] chars@[k]),
        ensures
            from <= j <= chars@.len(),
            forall|k: int| from <= k < j ==> is_digit(#[trigger] chars@[k]),
            j == chars@.len() || !is_digit(chars@[j as int]),
        decreases chars.len() - j,
    {
        j = j + 1;
    }
    proof {
        lemma_digits_end(chars@, from as int, j as int);
    }
    j
}

fn skip_sign(chars: &Vec<char>, from: usize) -> (r: usize)
    requires
        from <= chars@.len(),
    ensures
        r == sign_end(chars@, from as int),
        r <= chars@.len(),
{
    if from < chars.len() && (chars[from] == '+' || chars[from] == '-') {
        from + 1
    } else {
        from
    }
}

fn exponent_follows(chars: &Vec<char>, i: usize) -> (r: bool)
    requires
        i <= chars@.len(),
    ensures
        r == ends_in_exponent(chars@, i as int),
{
    if i == chars.len() {
        return true;
    }
    if chars[i] != 'e' && chars[i] != 'E' {
        return false;
    }
    let j: usize = skip_sign(chars, i + 1);
    j < chars.len() && skip_digits(chars, j) == chars.len()
}

fn reads_as_digits(chars: &Vec<char>) -> (r: bool)
    ensures
        r == is_digit_number(chars@),
{
    let a: usize = skip_digits(chars, 0);
    if a < chars.len() && chars[a] == '.' {
        let b: usize = skip_digits(chars, a + 1);
        (a > 0 || b > a + 1) && exponent_follows(chars, b)
    } else {
        a > 0 && exponent_follows(chars, a)
    }
}

/// Is `s` the text of a floating-point number?
pub fn reads_as_number(s: &str) -> (r: bool)
    ensures
        r == is_number(s@),
{
    let all: Vec<char> = chars_of(s);
    let from: usize = skip_sign(&all, 0);
    let body: &str = s.substring_char(from, all.len());
    assert(body@ =~= s@.skip(from as int));
    if is_upper_of(body, "INF") || is_upper_of(body, "INFINITY") || is_upper_of(body, "NAN") {
        return true;
    }
    let chars: Vec<char> = chars_of(body);
    reads_as_digits(&chars)
}

/// Every word of `words` is a number.
pub open spec fn all_numbers(words: Seq<Seq<char>>) -> bool {
    forall|i: int| 0 <= i < words.len() ==> is_number(#[trigger] words[i])
}

/// Are all of `words` numbers?
pub fn are_numbers(words: &Vec<String>) -> (r: bool)
    ensures
        r == all_numbers(texts(words@)),
{
    let ghost models = texts(words@);
    let mut i: usize = 0;
    while i < words.len()
        invariant
            i <= words@.len(),
            models == texts(words@),
            forall|k: int| 0 <= k < i ==> is_number(#[trigger] models[k]),
        decreases words.len() - i,
    {
        assert(models[i as int] == words@[i as int]@);
        if !reads_as_number(words[i].as_str()) {
            return false;
        }
        i = i + 1;
    }
    true
}

/// What separates: a space or a comma between names, a tab as well between coordinates, and white
/// space alone between margins, a comma not.
pub proof fn law_what_separates(c: char)
    ensures
        separates(Separator::Name, c) <==> c as int == 0x20 || c as int == 0x2C,
        separates(Separator::Coordinate, c) <==> c as int == 0x20 || c as int == 0x2C || c as int
            == 0x9,
        separates(Separator::Blank, c) <==> is_white(c),
        (c as int) < 0x80 ==> (is_white(c) <==> c as int == 0x20 || 0x9 <= c as int <= 0xD),
        is_white(c) && c as int >= 0x80 ==> c as int == 0x85 || c as int == 0xA0 || c as int
            == 0x1680 || 0x2000 <= c as int <= 0x3000,
{
}

/// A stretch without a separator is one word, and a separator parts the words before it from those
/// behind it: this settles the words of every text.
pub proof fn law_a_separator_parts_the_words(
    a: Seq<char>,
    c: char,
    b: Seq<char>,
    sep: Separator,
)
    ensures
        words_of(Seq::empty(), sep).len() == 0,
        a.len() > 0 && (forall|k: int| 0 <= k < a.len() ==> !separates(sep, #[trigger] a[k]))
            ==> words_of(a, sep) == seq![a],
        separates(sep, c) ==> words_of(a.push(c) + b, sep) == words_of(a, sep) + words_of(b, sep),
    decreases b.len(),
{
    if a.len() > 0 && (forall|k: int| 0 <= k < a.len() ==> !separates(sep, #[trigger] a[k])) {
        lemma_open_word(a, sep, 0);
        assert(a.take(0) =~= Seq::<char>::empty());
        assert(a.skip(0) =~= a);
        assert(words_of(a, sep) =~= seq![a]);
    }
    if separates(sep, c) {
        let whole = a.push(c) + b;
        if b.len() == 0 {
            assert(whole =~= a.push(c));
            assert(whole.drop_last() =~= a);
            assert(words_of(a, sep) + words_of(b, sep) =~= words_of(a, sep));
        } else {
            let rest = b.drop_last();
            law_a_separator_parts_the_words(a, c, rest, sep);
            assert(whole.drop_last() =~= a.push(c) + rest);
            let head = words_of(a, sep);
            let tail = words_of(rest, sep);
            if !separates(sep, b.last()) && rest.len() > 0 && !separates(sep, rest.last()) {
                lemma_last_word_is_open(rest, sep);
                assert((head + tail).drop_last().push((head + tail).last().push(b.last())) =~= head
                    + tail.drop_last().push(tail.last().push(b.last())));
            } else {
                assert((head + tail).push(seq![b.last()]) =~= head + tail.push(seq![b.last()]));
            }
        }
    }
}

/// Trimming takes the white space at both ends and nothing else.
pub proof fn law_trimming_takes_the_white_ends(a: Seq<char>, t: Seq<char>, b: Seq<char>)
    requires
        forall|k: int| 0 <= k < a.len() ==> is_white(#[trigger] a[k]),
        forall|k: int| 0 <= k < b.len() ==> is_white(#[trigger] b[k]),
        t.len() > 0 ==> !is_white(t[0]) && !is_white(t.last()),
    ensures
        trimmed(a + t + b) == t,
{
    let s = a + t + b;
    if t.len() > 0 {
        lemma_leading(s, a.len());
        let u = s.skip(a.len() as int);
        assert(u =~= t + b);
        lemma_trailing(u, b.len());
        assert(trimmed(s) =~= t);
    } else {
        assert forall|k: int| 0 <= k < s.len() implies is_white(#[trigger] s[k]) by {
            if k < a.len() {
                assert(s[k] == a[k]);
            } else {
                assert(s[k] == b[k - a.len()]);
            }
        }
        lemma_leading(s, s.len());
        assert(trimmed(s) =~= t);
    }
}

/// All of `s` are decimal digits.
pub open spec fn all_digits(s: Seq<char>) -> bool {
    forall|k: int| 0 <= k < s.len() ==> '0' <= #[trigger] s[k] <= '9'
}

/// A sign or none.
pub open spec fn is_sign(s: Seq<char>) -> bool {
    s.len() == 0 || s == seq!['+'] || s == seq!['-']
}

/// An exponent or none: `e` in either case, a sign or none, and at least one digit.
pub open spec fn is_exponent(s: Seq<char>, sign: Seq<char>, digits: Seq<char>) -> bool {
    ||| s.len() == 0
    ||| {
        &&& is_sign(sign)
        &&& all_digits(digits)
        &&& digits.len() > 0
        &&& s == seq!['e'] + sign + digits || s == seq!['E'] + sign + digits
    }
}

/// A fraction or none: a point, and digits if any.
pub open spec fn is_fraction(s: Seq<char>, digits: Seq<char>) -> bool {
    (s.len() == 0 && digits.len() == 0) || (all_digits(digits) && s == seq!['.'] + digits)
}

proof fn lemma_exponent(s: Seq<char>, i: int, sign: Seq<char>, digits: Seq<char>)
    requires
        0 <= i <= s.len(),
        is_exponent(s.skip(i), sign, digits),
    ensures
        ends_in_exponent(s, i),
        i < s.len() ==> !is_digit(s[i]) && s[i] != '.',
{
    let e = s.skip(i);
    if e.len() > 0 {
        assert(s[i] == e[0]);
        let j = i + 1 + sign.len();
        assert forall|k: int| j <= k < s.len() implies is_digit(#[trigger] s[k]) by {
            assert(s[k] == e[k - i]);
            assert(e[k - i] == digits[k - j]);
        }
        if sign.len() > 0 {
            assert(s[i + 1] == e[1] && e[1] == sign[0]);
        } else {
            assert(s[i + 1] == e[1] && e[1] == digits[0]);
        }
        lemma_digits_end(s, j, s.len() as int);
    }
}

/// Digits, a fraction and an exponent make a number behind any sign, as soon as there is a digit
/// before the exponent; without one they do not.
pub proof fn law_digits_make_a_number(
    sign: Seq<char>,
    whole: Seq<char>,
    fraction: Seq<char>,
    decimals: Seq<char>,
    exponent: Seq<char>,
    exponent_sign: Seq<char>,
    exponent_digits: Seq<char>,
)
    requires
        is_sign(sign),
        all_digits(whole),
        is_fraction(fraction, decimals),
        is_exponent(exponent, exponent_sign, exponent_digits),
    ensures
        is_digit_number(whole + fraction + exponent) <==> whole.len() + decimals.len() > 0,
        whole.len() + decimals.len() > 0 ==> is_number(sign + (whole + fraction + exponent)),
{
    let s = whole + fraction + exponent;
    let a = whole.len() as int;
    let b = a + fraction.len();
    assert forall|k: int| 0 <= k < a implies is_digit(#[trigger] s[k]) by {
        assert(s[k] == whole[k]);
    }
    assert(s.skip(b) =~= exponent);
    lemma_exponent(s, b, exponent_sign, exponent_digits);
    if fraction.len() > 0 {
        assert(s[a] == fraction[0] && fraction[0] == '.');
        lemma_digits_end(s, 0, a);
        assert forall|k: int| a + 1 <= k < b implies is_digit(#[trigger] s[k]) by {
            assert(s[k] == fraction[k - a]);
            assert(fraction[k - a] == decimals[k - a - 1]);
        }
        lemma_digits_end(s, a + 1, b);
    } else {
        lemma_digits_end(s, 0, a);
    }
    if a + decimals.len() > 0 {
        let t = sign + s;
        if sign.len() == 0 {
            assert(t =~= s);
            assert(s[0] != '+' && s[0] != '-') by {
                if a > 0 {
                    assert(is_digit(s[0]));
                }
            }
        } else {
            assert(t[0] == sign[0]);
        }
        assert(t.skip(sign.len() as int) =~= s);
    }
}

proof fn lemma_digits_stop(s: Seq<char>, i: int)
    requires
        0 <= i <= s.len(),
    ensures
        i <= digits_end(s, i) <= s.len(),
        forall|k: int| i <= k < digits_end(s, i) ==> is_digit(#[trigger] s[k]),
    decreases s.len() - i,
{
    if i < s.len() && is_digit(s[i]) {
        lemma_digits_stop(s, i + 1);
    }
}

proof fn lemma_exponent_parts(s: Seq<char>, i: int) -> (parts: (Seq<char>, Seq<char>))
    requires
        0 <= i <= s.len(),
        ends_in_exponent(s, i),
    ensures
        is_exponent(s.skip(i), parts.0, parts.1),
{
    if i == s.len() {
        (Seq::empty(), Seq::empty())
    } else {
        let j = sign_end(s, i + 1);
        let sign = s.subrange(i + 1, j);
        let digits = s.skip(j);
        lemma_digits_stop(s, j);
        assert(all_digits(digits)) by {
            assert forall|k: int| 0 <= k < digits.len() implies '0' <= #[trigger] digits[k]
                <= '9' by {
                assert(is_digit(s[k + j]));
            }
        }
        if j > i + 1 {
            assert(sign =~= seq![s[i + 1]]);
        }
        assert(s.skip(i) =~= seq![s[i]] + sign + digits);
        (sign, digits)
    }
}

/// Nothing else is a number than a sign or none with such digits behind it, or with an infinity or
/// not-a-number in any case.
pub proof fn law_a_number_is_made_of_digits(s: Seq<char>) -> (parts: (
    Seq<char>,
    Seq<char>,
    Seq<char>,
    Seq<char>,
    Seq<char>,
    Seq<char>,
    Seq<char>,
))
    requires
        is_number(s),
    ensures
        is_sign(parts.0),
        ({
            let body = s.skip(parts.0.len() as int);
            &&& s == parts.0 + body
            &&& {
                ||| upper_text(body) == "INF"@
                ||| upper_text(body) == "INFINITY"@
                ||| upper_text(body) == "NAN"@
                ||| {
                    &&& body == parts.1 + parts.2 + parts.4
                    &&& all_digits(parts.1)
                    &&& is_fraction(parts.2, parts.3)
                    &&& is_exponent(parts.4, parts.5, parts.6)
                    &&& parts.1.len() + parts.3.len() > 0
                }
            }
        }),
{
    let n = sign_end(s, 0);
    let sign = s.take(n);
    let body = s.skip(n);
    assert(s =~= sign + body);
    if n > 0 {
        assert(sign =~= seq![s[0]]);
    }
    let none = Seq::<char>::empty();
    if is_digit_number(body) {
        let a = digits_end(body, 0);
        lemma_digits_stop(body, 0);
        let whole = body.take(a);
        assert forall|k: int| 0 <= k < whole.len() implies '0' <= #[trigger] whole[k] <= '9' by {
            assert(is_digit(body[k]));
        }
        if a < body.len() && body[a] == '.' {
            let b = digits_end(body, a + 1);
            lemma_digits_stop(body, a + 1);
            let decimals = body.subrange(a + 1, b);
            assert forall|k: int| 0 <= k < decimals.len() implies '0' <= #[trigger] decimals[k]
                <= '9' by {
                assert(is_digit(body[a + 1 + k]));
            }
            let fraction = body.subrange(a, b);
            assert(fraction =~= seq!['.'] + decimals);
            let exponent = body.skip(b);
            let (es, ed) = lemma_exponent_parts(body, b);
            assert(body =~= whole + fraction + exponent);
            (sign, whole, fraction, decimals, exponent, es, ed)
        } else {
            let exponent = body.skip(a);
            let (es, ed) = lemma_exponent_parts(body, a);
            assert(body =~= whole + none + exponent);
            (sign, whole, none, none, exponent, es, ed)
        }
    } else {
        (sign, none, none, none, none, none, none)
    }
}

} // verus!
