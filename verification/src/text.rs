//! Text, as the floorplan needs it: comparing names, ordering them, and writing numbers.

use vstd::prelude::*;

verus! {

/// The standard library's conversion of borrowed text into a `String`: it keeps the characters.
pub assume_specification<'_0>[ <String as core::convert::From<&'_0 str>>::from ](
    s: &str,
) -> (r: String)
    ensures
        r@ == s@,
;

/// The digit character of `d`, for `d` below ten.
pub open spec fn digit(d: nat) -> char {
    (48 + d) as char
}

/// `n` in decimal, without leading zeros.
pub open spec fn decimal(n: nat) -> Seq<char>
    decreases n,
{
    if n < 10 {
        seq![digit(n)]
    } else {
        decimal(n / 10).push(digit(n % 10))
    }
}

/// A signed number in decimal: a minus sign, then the digits of its magnitude.
pub open spec fn signed_decimal(n: int) -> Seq<char> {
    if n < 0 {
        seq!['-'] + decimal((-n) as nat)
    } else {
        decimal(n as nat)
    }
}

/// `a` sorts strictly before `b` once their first `i` characters are known to agree: the first
/// difference decides by code point, and a proper prefix comes first.
pub open spec fn before_from(a: Seq<char>, b: Seq<char>, i: int) -> bool
    decreases a.len() - i,
{
    if i >= b.len() {
        false
    } else if i >= a.len() {
        true
    } else if a[i] != b[i] {
        (a[i] as int) < (b[i] as int)
    } else {
        before_from(a, b, i + 1)
    }
}

/// The order of names: lexicographic by code point.
pub open spec fn text_before(a: Seq<char>, b: Seq<char>) -> bool {
    before_from(a, b, 0)
}

/// The upper-case form of an ASCII letter; any other character is itself.
pub open spec fn upper(c: char) -> char {
    if 97 <= c as int <= 122 {
        (c as int - 32) as char
    } else {
        c
    }
}

/// `s` with its ASCII letters in upper case.
pub open spec fn upper_text(s: Seq<char>) -> Seq<char> {
    s.map_values(|c: char| upper(c))
}

/// The characters of `s`, in order.
pub fn chars_of(s: &str) -> (r: Vec<char>)
    ensures
        r@ == s@,
{
    let mut out: Vec<char> = Vec::new();
    for c in it: s.chars()
        invariant
            out@ == it.seq().take(it.index() as int),
    {
        out.push(c);
    }
    out
}

/// The code point of a character.
pub fn code_point(c: char) -> (r: u32)
    ensures
        r == c as int,
{
    c as u32
}

/// Do two texts hold the same characters?
pub fn same_text(a: &str, b: &str) -> (r: bool)
    ensures
        r == (a@ == b@),
{
    a.to_owned() == b.to_owned()
}

fn upper_code(c: char) -> (r: u32)
    ensures
        r == upper(c) as int,
{
    let p: u32 = code_point(c);
    if 97 <= p && p <= 122 {
        p - 32
    } else {
        p
    }
}

/// Is `s`, with its ASCII letters in upper case, the text `word`?
pub fn is_upper_of(s: &str, word: &str) -> (r: bool)
    ensures
        r == (upper_text(s@) == word@),
{
    let x = chars_of(s);
    let y = chars_of(word);
    if x.len() != y.len() {
        return false;
    }
    let mut i: usize = 0;
    while i < x.len()
        invariant
            x@ == s@,
            y@ == word@,
            x.len() == y.len(),
            i <= x.len(),
            forall|j: int| 0 <= j < i ==> upper(s@[j]) == #[trigger] word@[j],
        decreases x.len() - i,
    {
        if upper_code(x[i]) != code_point(y[i]) {
            assert(upper_text(s@)[i as int] != word@[i as int]);
            return false;
        }
        i = i + 1;
    }
    assert(upper_text(s@) =~= word@);
    true
}

/// Does `a` sort strictly before `b`?
pub fn comes_before(a: &str, b: &str) -> (r: bool)
    ensures
        r == text_before(a@, b@),
{
    let x = chars_of(a);
    let y = chars_of(b);
    let mut i: usize = 0;
    while i < x.len() && i < y.len() && x[i] == y[i]
        invariant
            x@ == a@,
            y@ == b@,
            i <= x.len(),
            i <= y.len(),
            text_before(a@, b@) == before_from(a@, b@, i as int),
        decreases x.len() - i,
    {
        i = i + 1;
    }
    if i >= y.len() {
        false
    } else if i >= x.len() {
        true
    } else {
        code_point(x[i]) < code_point(y[i])
    }
}

fn digit_text(d: u64) -> (r: &'static str)
    requires
        d < 10,
    ensures
        r@ == seq![digit(d as nat)],
{
    proof {
        reveal_strlit("0");
        reveal_strlit("1");
        reveal_strlit("2");
        reveal_strlit("3");
        reveal_strlit("4");
        reveal_strlit("5");
        reveal_strlit("6");
        reveal_strlit("7");
        reveal_strlit("8");
        reveal_strlit("9");
    }
    let r = match d {
        0 => "0",
        1 => "1",
        2 => "2",
        3 => "3",
        4 => "4",
        5 => "5",
        6 => "6",
        7 => "7",
        8 => "8",
        _ => "9",
    };
    assert(r@ =~= seq![digit(d as nat)]);
    r
}

/// Appends `n` in decimal.
pub fn push_decimal(out: &mut String, n: u64)
    ensures
        final(out)@ == old(out)@ + decimal(n as nat),
    decreases n,
{
    if n >= 10 {
        push_decimal(out, n / 10);
    }
    let ghost head = out@;
    out.append(digit_text(n % 10));
    assert(out@ =~= old(out)@ + decimal(n as nat));
}

/// Appends `n` in decimal, with its sign.
pub fn push_signed(out: &mut String, n: i64)
    ensures
        final(out)@ == old(out)@ + signed_decimal(n as int),
{
    if n < 0 {
        proof {
            reveal_strlit("-");
        }
        out.append("-");
        let m: u64 = if n == i64::MIN {
            9223372036854775808
        } else {
            (-n) as u64
        };
        push_decimal(out, m);
        assert(out@ =~= old(out)@ + signed_decimal(n as int));
    } else {
        push_decimal(out, n as u64);
    }
}

/// `a` followed by `b`.
pub fn joined(a: &str, b: &str) -> (r: String)
    ensures
        r@ == a@ + b@,
{
    let mut out = String::from(a);
    out.append(b);
    out
}

/// The order of names is irreflexive.
pub proof fn lemma_before_irreflexive(a: Seq<char>, i: int)
    requires
        0 <= i,
    ensures
        !before_from(a, a, i),
    decreases a.len() - i,
{
    if i < a.len() {
        lemma_before_irreflexive(a, i + 1);
    }
}

/// The order of names is transitive.
pub proof fn lemma_before_transitive(a: Seq<char>, b: Seq<char>, c: Seq<char>, i: int)
    requires
        0 <= i,
        before_from(a, b, i),
        before_from(b, c, i),
    ensures
        before_from(a, c, i),
    decreases a.len() - i,
{
    if i < a.len() && i < b.len() && i < c.len() && a[i] == b[i] && b[i] == c[i] {
        lemma_before_transitive(a, b, c, i + 1);
    }
}

/// The order of names is total: two texts that agree on their first `i` characters and are
/// ordered neither way are the same text.
pub proof fn lemma_before_total(a: Seq<char>, b: Seq<char>, i: int)
    requires
        0 <= i <= a.len(),
        i <= b.len(),
        a.take(i) == b.take(i),
        !before_from(a, b, i),
        !before_from(b, a, i),
    ensures
        a == b,
    decreases a.len() - i,
{
    if i < a.len() && i < b.len() {
        assert(a[i] == b[i]);
        assert(a.take(i + 1) =~= b.take(i + 1)) by {
            assert(a.take(i + 1) =~= a.take(i).push(a[i]));
            assert(b.take(i + 1) =~= b.take(i).push(b[i]));
        }
        lemma_before_total(a, b, i + 1);
    } else {
        assert(a =~= a.take(i));
        assert(b =~= b.take(i));
    }
}

/// Numbers are told apart by their decimal text.
pub proof fn lemma_decimal_injective(a: nat, b: nat)
    requires
        decimal(a) == decimal(b),
    ensures
        a == b,
    decreases a,
{
    assert(decimal(a).last() == digit(a % 10));
    assert(decimal(b).last() == digit(b % 10));
    assert(a % 10 == b % 10);
    lemma_decimal_nonempty(a / 10);
    lemma_decimal_nonempty(b / 10);
    if a >= 10 && b >= 10 {
        assert(decimal(a).drop_last() =~= decimal(a / 10));
        assert(decimal(b).drop_last() =~= decimal(b / 10));
        lemma_decimal_injective(a / 10, b / 10);
    }
}

/// Every number has a digit.
pub proof fn lemma_decimal_nonempty(n: nat)
    ensures
        decimal(n).len() >= 1,
{
}

proof fn lemma_before_from(a: Seq<char>, b: Seq<char>, i: int, k: int)
    requires
        0 <= i <= k <= a.len(),
        k <= b.len(),
        forall|j: int| i <= j < k ==> a[j] == b[j],
    ensures
        before_from(a, b, i) == before_from(a, b, k),
    decreases k - i,
{
    if i < k {
        lemma_before_from(a, b, i + 1, k);
    }
}

/// Names are ordered as words in a dictionary: where two names first differ, the smaller code point
/// comes first, and a name comes before every longer name that begins with it.
pub proof fn law_the_first_difference_orders_names(a: Seq<char>, b: Seq<char>, k: int)
    requires
        0 <= k <= a.len(),
        k <= b.len(),
        forall|j: int| 0 <= j < k ==> a[j] == b[j],
    ensures
        k < a.len() && k < b.len() && a[k] != b[k] ==> text_before(a, b) == ((a[k] as int) < (b[k]
            as int)),
        k == a.len() ==> text_before(a, b) == (a.len() < b.len()),
        k == b.len() ==> !text_before(a, b),
{
    lemma_before_from(a, b, 0, k);
}

/// The number that a text of decimal digits writes.
pub open spec fn number_written(s: Seq<char>) -> int
    decreases s.len(),
{
    if s.len() == 0 {
        0
    } else {
        10 * number_written(s.drop_last()) + (s.last() as int - 48)
    }
}

proof fn lemma_decimal_writes(n: nat)
    ensures
        number_written(decimal(n)) == n,
        decimal(n).len() > 0,
        forall|i: int| 0 <= i < decimal(n).len() ==> 48 <= #[trigger] (decimal(n)[i] as int) <= 57,
        n > 0 ==> decimal(n)[0] != '0',
        decimal(n).len() > 1 ==> n > 0,
    decreases n,
{
    if n < 10 {
        assert(decimal(n).drop_last() =~= Seq::<char>::empty());
        assert(number_written(Seq::<char>::empty()) == 0);
        assert(decimal(n).last() == digit(n));
        assert(digit(n) as int == 48 + n);
    } else {
        lemma_decimal_writes(n / 10);
        assert(decimal(n).drop_last() =~= decimal(n / 10));
        assert(decimal(n).last() == digit(n % 10));
        assert(digit(n % 10) as int == 48 + n % 10);
    }
}

/// A number is written in decimal digits that stand for it, without a leading zero, and with a
/// minus sign in front where it is negative.
pub proof fn law_a_number_is_written_as_it_reads(n: int)
    ensures
        n >= 0 ==> {
            &&& number_written(signed_decimal(n)) == n
            &&& signed_decimal(n) == decimal(n as nat)
            &&& forall|i: int|
                0 <= i < signed_decimal(n).len() ==> 48 <= #[trigger] (signed_decimal(n)[i] as int)
                    <= 57
            &&& signed_decimal(n).len() > 0
            &&& signed_decimal(n).len() > 1 ==> signed_decimal(n)[0] != '0'
        },
        n < 0 ==> signed_decimal(n) == seq!['-'] + signed_decimal(-n),
{
    if n >= 0 {
        lemma_decimal_writes(n as nat);
    }
}

/// Upper case turns `a` to `z` into `A` to `Z` and changes nothing else.
pub proof fn law_upper_case_changes_small_letters(s: Seq<char>, i: int)
    requires
        0 <= i < s.len(),
    ensures
        upper_text(s).len() == s.len(),
        'a' <= s[i] <= 'z' ==> upper_text(s)[i] as int == s[i] as int - 32,
        !('a' <= s[i] <= 'z') ==> upper_text(s)[i] == s[i],
{
    lemma_upper(s[i]);
}

proof fn lemma_upper(c: char)
    ensures
        'a' <= c <= 'z' ==> upper(c) as int == c as int - 32,
        !('a' <= c <= 'z') ==> upper(c) == c,
{
}

} // verus!
