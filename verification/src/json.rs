//! JSON: what a text stands for, and how texts and numbers are written.

use crate::model::texts;
use crate::text::{chars_of, code_point, decimal, digit, signed_decimal};
use vstd::prelude::*;

verus! {

/// A JSON value.
pub enum Json {
    Null,
    Bool(bool),
    /// A whole number.
    Number(int),
    /// Any number, as it is written.
    Decimal(Seq<char>),
    Text(Seq<char>),
    List(Seq<Json>),
    /// The members of an object, by name.
    Object(Map<Seq<char>, Json>),
}

/// `parts` with `sep` between them.
pub open spec fn listing(parts: Seq<Seq<char>>, sep: Seq<char>) -> Seq<char>
    decreases parts.len(),
{
    if parts.len() == 0 {
        Seq::empty()
    } else if parts.len() == 1 {
        parts[0]
    } else {
        listing(parts.drop_last(), sep) + sep + parts.last()
    }
}

/// `s` is nothing but JSON white space.
pub open spec fn is_space(s: Seq<char>) -> bool {
    forall|i: int|
        0 <= i < s.len() ==> (#[trigger] s[i] == ' ' || s[i] == '\t' || s[i] == '\n' || s[i]
            == '\r')
}

/// The value of a hexadecimal digit.
pub open spec fn hex_value(c: char) -> Option<int> {
    if 48 <= c as int <= 57 {
        Some(c as int - 48)
    } else if 65 <= c as int <= 70 {
        Some(c as int - 55)
    } else if 97 <= c as int <= 102 {
        Some(c as int - 87)
    } else {
        None
    }
}

/// The character that a backslash makes of `c`.
pub open spec fn short_escape(c: char) -> Option<int> {
    match c {
        '"' => Some(34),
        '\\' => Some(92),
        '/' => Some(47),
        'b' => Some(8),
        'f' => Some(12),
        'n' => Some(10),
        'r' => Some(13),
        't' => Some(9),
        _ => None,
    }
}

/// Between quotes, `p` stands for the character `c`: it is `c` itself, where `c` needs no escape,
/// a short escape, or the code point in four hexadecimal digits.
pub open spec fn spells(p: Seq<char>, c: char) -> bool {
    ||| p == seq![c] && c as int >= 32 && c != '"' && c != '\\'
    ||| p.len() == 2 && p[0] == '\\' && short_escape(p[1]) == Some(c as int)
    ||| {
        &&& p.len() == 6 && p[0] == '\\' && p[1] == 'u'
        &&& forall|i: int| 2 <= i < 6 ==> hex_value(#[trigger] p[i]) is Some
        &&& c as int == 4096 * hex_value(p[2]).unwrap() + 256 * hex_value(p[3]).unwrap() + 16
            * hex_value(p[4]).unwrap() + hex_value(p[5]).unwrap()
    }
}

/// `pieces` stand for the characters of `s`, one each.
pub open spec fn spell_all(pieces: Seq<Seq<char>>, s: Seq<char>) -> bool {
    &&& pieces.len() == s.len()
    &&& forall|i: int| 0 <= i < s.len() ==> spells(#[trigger] pieces[i], s[i])
}

/// `t` is the text `s` as JSON writes one: between quotes, one piece for each character.
pub open spec fn is_quoted(t: Seq<char>, s: Seq<char>) -> bool {
    exists|pieces: Seq<Seq<char>>| #[trigger]
        spell_all(pieces, s) && t == "\""@ + listing(pieces, Seq::empty()) + "\""@
}

/// `s` is one digit or more.
pub open spec fn is_digits(s: Seq<char>) -> bool {
    s.len() > 0 && forall|i: int| 0 <= i < s.len() ==> 48 <= #[trigger] (s[i] as int) <= 57
}

/// The parts of a number: a sign, digits without a leading zero, a fraction and an exponent.
pub open spec fn is_number_of(
    t: Seq<char>,
    sign: Seq<char>,
    whole: Seq<char>,
    fraction: Seq<char>,
    exponent: Seq<char>,
) -> bool {
    &&& t == sign + whole + fraction + exponent
    &&& sign == Seq::<char>::empty() || sign == seq!['-']
    &&& is_digits(whole) && (whole.len() > 1 ==> whole[0] != '0')
    &&& fraction.len() > 0 ==> fraction[0] == '.' && is_digits(fraction.skip(1))
    &&& exponent.len() > 0 ==> {
        &&& exponent[0] == 'e' || exponent[0] == 'E'
        &&& is_digits(exponent.skip(1)) || (exponent.len() > 1 && (exponent[1] == '+' || exponent[1]
            == '-') && is_digits(exponent.skip(2)))
    }
}

/// `t` is a number as JSON writes one.
pub open spec fn is_json_number(t: Seq<char>) -> bool {
    exists|sign: Seq<char>, whole: Seq<char>, fraction: Seq<char>, exponent: Seq<char>| #[trigger]
        is_number_of(t, sign, whole, fraction, exponent)
}

/// `t` is `core` with white space around it.
pub open spec fn is_spaced(
    t: Seq<char>,
    before: Seq<char>,
    core: Seq<char>,
    after: Seq<char>,
) -> bool {
    is_space(before) && is_space(after) && t == before + core + after
}

/// `t` is a text as JSON writes one, with white space around it.
pub open spec fn is_name(t: Seq<char>, s: Seq<char>) -> bool {
    exists|before: Seq<char>, core: Seq<char>, after: Seq<char>| #[trigger]
        is_spaced(t, before, core, after) && is_quoted(core, s)
}

/// `t` is `parts` with commas between them, white space around them, and the brackets.
pub open spec fn is_enclosed(
    t: Seq<char>,
    open: Seq<char>,
    lead: Seq<char>,
    parts: Seq<Seq<char>>,
    tail: Seq<char>,
    close: Seq<char>,
) -> bool {
    is_space(lead) && is_space(tail) && t == open + lead + listing(parts, ","@) + tail + close
}

/// `names` are the names of the members, each once.
pub open spec fn are_names(names: Seq<Seq<char>>, members: Map<Seq<char>, Json>) -> bool {
    &&& names.no_duplicates()
    &&& forall|name: Seq<char>| #[trigger] members.contains_key(name) <==> names.contains(name)
}

/// `t` is a name and a value with a colon between them.
pub open spec fn is_pair(t: Seq<char>, name: Seq<char>, value: Seq<char>) -> bool {
    t == name + ":"@ + value
}

/// `t` is a JSON text without white space around it, and `v` is the value that it stands for.
/// Code points above four hexadecimal digits are taken as they are, never as two escapes.
pub open spec fn is_value(t: Seq<char>, v: Json) -> bool
    decreases v, 0int,
{
    match v {
        Json::Null => t == "null"@,
        Json::Bool(b) => t == (if b {
            "true"@
        } else {
            "false"@
        }),
        Json::Number(n) => t == signed_decimal(n),
        Json::Decimal(d) => t == d && is_json_number(d),
        Json::Text(s) => is_quoted(t, s),
        Json::List(items) => exists|lead: Seq<char>, parts: Seq<Seq<char>>, tail: Seq<char>|
            #[trigger]
            is_enclosed(t, "["@, lead, parts, tail, "]"@) && parts.len() == items.len() && (forall|
                i: int,
            |
                0 <= i < items.len() ==> stands_for(#[trigger] parts[i], items[i])),
        Json::Object(members) => exists|
            lead: Seq<char>,
            parts: Seq<Seq<char>>,
            tail: Seq<char>,
            names: Seq<Seq<char>>,
        | #[trigger]
            is_enclosed(t, "{"@, lead, parts, tail, "}"@) && #[trigger] are_names(names, members)
                && parts.len() == names.len() && (forall|i: int|
                0 <= i < names.len() ==> members.contains_key(names[i]) && is_member(
                    #[trigger] parts[i],
                    names[i],
                    members[names[i]],
                )),
    }
}

/// `t` is a name and the JSON text of `v` with a colon between them.
pub open spec fn is_member(t: Seq<char>, name: Seq<char>, v: Json) -> bool
    decreases v, 2int,
{
    exists|key: Seq<char>, value: Seq<char>| #[trigger]
        is_pair(t, key, value) && is_name(key, name) && stands_for(value, v)
}

/// `t` is a JSON text, and `v` is the value that it stands for.
pub open spec fn stands_for(t: Seq<char>, v: Json) -> bool
    decreases v, 1int,
{
    exists|before: Seq<char>, core: Seq<char>, after: Seq<char>| #[trigger]
        is_spaced(t, before, core, after) && is_value(core, v)
}

/// A hexadecimal digit.
pub open spec fn hex_digit(d: int) -> char {
    if d < 10 {
        (48 + d) as char
    } else {
        (87 + d) as char
    }
}

/// How a character is written between quotes: quotes and backslashes behind a backslash, control
/// characters by their code point, and any other as it is.
pub open spec fn escape(c: char) -> Seq<char> {
    if c == '"' {
        "\\\""@
    } else if c == '\\' {
        "\\\\"@
    } else if (c as int) < 32 {
        "\\u00"@ + seq![hex_digit(c as int / 16), hex_digit(c as int % 16)]
    } else {
        seq![c]
    }
}

/// How a text is written.
pub open spec fn quoted(s: Seq<char>) -> Seq<char> {
    "\""@ + listing(s.map_values(|c: char| escape(c)), Seq::empty()) + "\""@
}

/// How a member of an object is written.
pub open spec fn member(name: Seq<char>, value: Seq<char>) -> Seq<char> {
    quoted(name) + ": "@ + value
}

/// How an object is written: `gap` is the white space behind each comma.
pub open spec fn braced(
    lead: Seq<char>,
    members: Seq<Seq<char>>,
    gap: Seq<char>,
    tail: Seq<char>,
) -> Seq<char> {
    "{"@ + lead + listing(members, ","@ + gap) + tail + "}"@
}

/// How a list is written: `gap` is the white space behind each comma.
pub open spec fn bracketed(
    lead: Seq<char>,
    items: Seq<Seq<char>>,
    gap: Seq<char>,
    tail: Seq<char>,
) -> Seq<char> {
    "["@ + lead + listing(items, ","@ + gap) + tail + "]"@
}

fn hex_text(d: u32) -> (r: &'static str)
    requires
        d < 16,
    ensures
        r@ == seq![hex_digit(d as int)],
{
    proof {
        reveal_strlit("0");
        reveal_strlit("1");
        reveal_strlit("2");
        reveal_strlit("3");
        reveal_strlit("4");
        reveal_strlit("5");
        reveal_strlit("6");
        reveal_strlit("7");
        reveal_strlit("8");
        reveal_strlit("9");
        reveal_strlit("a");
        reveal_strlit("b");
        reveal_strlit("c");
        reveal_strlit("d");
        reveal_strlit("e");
        reveal_strlit("f");
    }
    let r = match d {
        0 => "0",
        1 => "1",
        2 => "2",
        3 => "3",
        4 => "4",
        5 => "5",
        6 => "6",
        7 => "7",
        8 => "8",
        9 => "9",
        10 => "a",
        11 => "b",
        12 => "c",
        13 => "d",
        14 => "e",
        _ => "f",
    };
    assert(r@ =~= seq![hex_digit(d as int)]);
    r
}

/// A text as JSON writes it.
pub fn quote(s: &str) -> (r: String)
    ensures
        r@ == quoted(s@),
{
    let chars: Vec<char> = chars_of(s);
    let ghost pieces = s@.map_values(|c: char| escape(c));
    let mut out: String = String::from("\"");
    let mut i: usize = 0;
    while i < chars.len()
        invariant
            chars@ == s@,
            i <= chars@.len(),
            pieces == s@.map_values(|c: char| escape(c)),
            out@ =~= "\""@ + listing(pieces.take(i as int), Seq::empty()),
        decreases chars.len() - i,
    {
        let c: char = chars[i];
        let p: u32 = code_point(c);
        let ghost before = out@;
        if c == '"' {
            out.append("\\\"");
        } else if c == '\\' {
            out.append("\\\\");
        } else if p < 32 {
            out.append("\\u00");
            out.append(hex_text(p / 16));
            out.append(hex_text(p % 16));
        } else {
            out.append(s.substring_char(i, i + 1));
            assert(s@.subrange(i as int, i + 1) =~= seq![c]);
        }
        proof {
            assert(pieces[i as int] == escape(c));
            assert(out@ =~= before + escape(c));
            lemma_listing_push(pieces.take(i as int), escape(c), Seq::empty());
            assert(pieces.take(i + 1) =~= pieces.take(i as int).push(escape(c)));
        }
        i = i + 1;
    }
    assert(pieces.take(pieces.len() as int) =~= pieces);
    out.append("\"");
    out
}

/// A member of an object as JSON writes it.
pub fn name_value(name: &str, value: &str) -> (r: String)
    ensures
        r@ == member(name@, value@),
{
    let mut out: String = quote(name);
    out.append(": ");
    out.append(value);
    out
}

fn append_list(out: &mut String, parts: &[String], gap: &str)
    ensures
        final(out)@ == old(out)@ + listing(texts(parts@), ","@ + gap@),
{
    let ghost models = texts(parts@);
    let ghost first = out@;
    let ghost sep = ","@ + gap@;
    let mut i: usize = 0;
    assert(first + listing(models.take(0), sep) =~= first);
    while i < parts.len()
        invariant
            i <= parts@.len(),
            models == texts(parts@),
            sep == ","@ + gap@,
            out@ =~= first + listing(models.take(i as int), sep),
        decreases parts.len() - i,
    {
        proof {
            assert(models[i as int] == parts@[i as int]@);
            assert(models.take(i + 1) =~= models.take(i as int).push(models[i as int]));
            assert(models.take(i + 1).drop_last() =~= models.take(i as int));
        }
        if i > 0 {
            out.append(",");
            out.append(gap);
        }
        out.append(parts[i].as_str());
        i = i + 1;
    }
    assert(models.take(models.len() as int) =~= models);
}

/// An object as JSON writes it, with the white space given.
pub fn brace(lead: &str, members: &[String], gap: &str, tail: &str) -> (r: String)
    ensures
        r@ == braced(lead@, texts(members@), gap@, tail@),
{
    let mut out: String = String::from("{");
    out.append(lead);
    append_list(&mut out, members, gap);
    out.append(tail);
    out.append("}");
    out
}

/// A list as JSON writes it, with the white space given.
pub fn bracket(lead: &str, items: &[String], gap: &str, tail: &str) -> (r: String)
    ensures
        r@ == bracketed(lead@, texts(items@), gap@, tail@),
{
    let mut out: String = String::from("[");
    out.append(lead);
    append_list(&mut out, items, gap);
    out.append(tail);
    out.append("]");
    out
}

proof fn lemma_listing_push(parts: Seq<Seq<char>>, part: Seq<char>, sep: Seq<char>)
    ensures
        listing(parts.push(part), sep) == (if parts.len() == 0 {
            part
        } else {
            listing(parts, sep) + sep + part
        }),
{
    assert(parts.push(part).drop_last() =~= parts);
}

proof fn lemma_gap(lines: Seq<Seq<char>>, gap: Seq<char>) -> (parts: Seq<Seq<char>>)
    ensures
        parts.len() == lines.len(),
        listing(parts, ","@) == listing(lines, ","@ + gap),
        forall|i: int|
            0 <= i < lines.len() ==> #[trigger] parts[i] == (if i == 0 {
                lines[i]
            } else {
                gap + lines[i]
            }),
    decreases lines.len(),
{
    if lines.len() <= 1 {
        lines
    } else {
        let before = lemma_gap(lines.drop_last(), gap);
        let last = gap + lines.last();
        lemma_listing_push(before, last, ","@);
        assert(listing(before, ","@) + ","@ + last =~= listing(lines.drop_last(), ","@ + gap) + (
        ","@ + gap) + lines.last());
        before.push(last)
    }
}

proof fn lemma_space_joins(a: Seq<char>, b: Seq<char>)
    requires
        is_space(a),
        is_space(b),
    ensures
        is_space(a + b),
{
}

/// White space around a JSON text does not matter.
pub proof fn law_white_space_around_a_value_does_not_matter(
    before: Seq<char>,
    t: Seq<char>,
    after: Seq<char>,
    v: Json,
)
    requires
        is_space(before),
        is_space(after),
        stands_for(t, v),
    ensures
        stands_for(before + t + after, v),
{
    let (a, core, b) = choose|a: Seq<char>, core: Seq<char>, b: Seq<char>| #[trigger]
        is_spaced(t, a, core, b) && is_value(core, v);
    lemma_space_joins(before, a);
    lemma_space_joins(b, after);
    assert(before + t + after =~= (before + a) + core + (b + after));
    assert(is_spaced(before + t + after, before + a, core, b + after));
}

/// A JSON text stands for its value with no white space around it as well.
pub proof fn lemma_bare(t: Seq<char>, v: Json)
    requires
        is_value(t, v),
    ensures
        stands_for(t, v),
{
    let none = Seq::<char>::empty();
    assert(t =~= none + t + none);
    assert(is_spaced(t, none, t, none));
}

proof fn lemma_escape(c: char)
    ensures
        spells(escape(c), c),
{
    let p = escape(c);
    reveal_strlit("\\\"");
    reveal_strlit("\\\\");
    reveal_strlit("\\u00");
    if c != '"' && c != '\\' && (c as int) < 32 {
        let hi = c as int / 16;
        let lo = c as int % 16;
        assert(0 <= hi < 2 && 0 <= lo < 16 && c as int == 16 * hi + lo);
        assert(p.len() == 6 && p[0] == '\\' && p[1] == 'u' && p[2] == '0' && p[3] == '0');
        assert(p[4] == hex_digit(hi) && p[5] == hex_digit(lo));
        assert(hex_value(hex_digit(hi)) == Some(hi));
        assert(hex_value(hex_digit(lo)) == Some(lo));
    }
}

/// Any text at all can be written: between quotes it stands for itself.
pub proof fn law_a_quoted_text_stands_for_itself(s: Seq<char>)
    ensures
        is_quoted(quoted(s), s),
        stands_for(quoted(s), Json::Text(s)),
{
    let pieces = s.map_values(|c: char| escape(c));
    assert forall|i: int| 0 <= i < s.len() implies spells(#[trigger] pieces[i], s[i]) by {
        lemma_escape(s[i]);
    }
    assert(spell_all(pieces, s));
    lemma_bare(quoted(s), Json::Text(s));
}

proof fn lemma_decimal_digits(n: nat)
    ensures
        is_digits(decimal(n)),
        n > 0 ==> decimal(n)[0] != '0',
        decimal(n).len() > 1 ==> n >= 10,
    decreases n,
{
    if n >= 10 {
        lemma_decimal_digits(n / 10);
        assert(48 <= digit(n % 10) as int <= 57);
        assert(decimal(n) == decimal(n / 10).push(digit(n % 10)));
    } else {
        assert(48 <= digit(n) as int <= 57);
        assert(decimal(n) == seq![digit(n)]);
    }
}

/// Every whole number is written as JSON writes one.
pub proof fn law_a_whole_number_is_a_json_number(n: int)
    ensures
        is_json_number(signed_decimal(n)),
        stands_for(signed_decimal(n), Json::Number(n)),
{
    let none = Seq::<char>::empty();
    let t = signed_decimal(n);
    if n < 0 {
        let whole = decimal((-n) as nat);
        lemma_decimal_digits((-n) as nat);
        assert(t =~= seq!['-'] + whole + none + none);
        assert(is_number_of(t, seq!['-'], whole, none, none));
    } else {
        lemma_decimal_digits(n as nat);
        assert(t =~= none + t + none + none);
        assert(is_number_of(t, none, t, none, none));
    }
    lemma_bare(t, Json::Number(n));
}

/// A list of JSON texts, with any white space between them, stands for the list of their values.
pub proof fn law_a_list_stands_for_its_items(
    lead: Seq<char>,
    lines: Seq<Seq<char>>,
    gap: Seq<char>,
    tail: Seq<char>,
    items: Seq<Json>,
)
    requires
        is_space(lead),
        is_space(gap),
        is_space(tail),
        lines.len() == items.len(),
        forall|i: int| 0 <= i < items.len() ==> stands_for(#[trigger] lines[i], items[i]),
    ensures
        stands_for(bracketed(lead, lines, gap, tail), Json::List(items)),
{
    let t = bracketed(lead, lines, gap, tail);
    let none = Seq::<char>::empty();
    let parts = lemma_gap(lines, gap);
    assert forall|i: int| 0 <= i < items.len() implies stands_for(
        #[trigger] parts[i],
        items[i],
    ) by {
        assert(stands_for(lines[i], items[i]));
        law_white_space_around_a_value_does_not_matter(gap, lines[i], none, items[i]);
        assert(gap + lines[i] + none =~= gap + lines[i]);
    }
    assert(is_enclosed(t, "["@, lead, parts, tail, "]"@));
    lemma_bare(t, Json::List(items));
}

/// Members with different names, with any white space between them, stand for the object that
/// holds the value of each under its name.
pub proof fn law_an_object_stands_for_its_members(
    lead: Seq<char>,
    names: Seq<Seq<char>>,
    values: Seq<Seq<char>>,
    gap: Seq<char>,
    tail: Seq<char>,
    members: Map<Seq<char>, Json>,
)
    requires
        is_space(lead),
        is_space(gap),
        is_space(tail),
        are_names(names, members),
        names.len() == values.len(),
        forall|i: int|
            0 <= i < names.len() ==> stands_for(#[trigger] values[i], members[names[i]]),
    ensures
        stands_for(
            braced(lead, Seq::new(names.len(), |i: int| member(names[i], values[i])), gap, tail),
            Json::Object(members),
        ),
{
    let lines = Seq::new(names.len(), |i: int| member(names[i], values[i]));
    let t = braced(lead, lines, gap, tail);
    let none = Seq::<char>::empty();
    let parts = lemma_gap(lines, gap);
    assert forall|i: int| 0 <= i < names.len() implies members.contains_key(names[i]) && is_member(
        #[trigger] parts[i],
        names[i],
        members[names[i]],
    ) by {
        assert(names.contains(names[i]));
        let before = if i == 0 {
            none
        } else {
            gap
        };
        let name = before + quoted(names[i]) + none;
        let value = " "@ + values[i] + none;
        assert(stands_for(values[i], members[names[i]]));
        reveal_strlit(" ");
        reveal_strlit(":");
        reveal_strlit(": ");
        law_white_space_around_a_value_does_not_matter(" "@, values[i], none, members[names[i]]);
        law_a_quoted_text_stands_for_itself(names[i]);
        assert(is_spaced(name, before, quoted(names[i]), none));
        assert(": "@ =~= ":"@ + " "@);
        assert(parts[i] =~= name + ":"@ + value);
        assert(is_pair(parts[i], name, value));
    }
    assert(is_enclosed(t, "{"@, lead, parts, tail, "}"@));
    lemma_object(t, Json::Object(members), lead, parts, tail, names);
    lemma_bare(t, Json::Object(members));
}

proof fn lemma_object(
    t: Seq<char>,
    v: Json,
    lead: Seq<char>,
    parts: Seq<Seq<char>>,
    tail: Seq<char>,
    names: Seq<Seq<char>>,
)
    requires
        v is Object,
        is_enclosed(t, "{"@, lead, parts, tail, "}"@),
        are_names(names, v->Object_0),
        parts.len() == names.len(),
        forall|i: int|
            0 <= i < names.len() ==> v->Object_0.contains_key(names[i]) && is_member(
                #[trigger] parts[i],
                names[i],
                v->Object_0[names[i]],
            ),
    ensures
        is_value(t, v),
{
}

} // verus!
