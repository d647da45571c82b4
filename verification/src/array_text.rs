//! Lists of strings that are handed over as the text of a JSON array.

use vstd::prelude::*;

use crate::text::texts;

verus! {

/// A character that stands in a JSON string as it is: no quotation mark, no
/// backslash, no control character.
pub open spec fn is_plain(c: char) -> bool {
    c != '"' && c != '\\' && c >= '\u{20}'
}

/// The character that a backslash and `c` stand for.
pub open spec fn short_escape(c: char) -> Option<char> {
    if c == '"' || c == '\\' || c == '/' {
        Some(c)
    } else if c == 'b' {
        Some('\u{8}')
    } else if c == 'f' {
        Some('\u{c}')
    } else if c == 'n' {
        Some('\n')
    } else if c == 'r' {
        Some('\r')
    } else if c == 't' {
        Some('\t')
    } else {
        None
    }
}

/// The value of a hexadecimal digit.
pub open spec fn hex_value(c: char) -> Option<int> {
    if '0' <= c <= '9' {
        Some(c as int - '0' as int)
    } else if 'a' <= c <= 'f' {
        Some(c as int - 'a' as int + 10)
    } else if 'A' <= c <= 'F' {
        Some(c as int - 'A' as int + 10)
    } else {
        None
    }
}

/// The number that a backslash, `u` and four hexadecimal digits stand for, where
/// they stand at `i` in `text`.
pub open spec fn unit_at(text: Seq<char>, i: int) -> Option<int> {
    if i + 6 <= text.len() && text[i] == '\\' && text[i + 1] == 'u' {
        match (
            hex_value(text[i + 2]),
            hex_value(text[i + 3]),
            hex_value(text[i + 4]),
            hex_value(text[i + 5]),
        ) {
            (Some(a), Some(b), Some(c), Some(d)) => Some(4096 * a + 256 * b + 16 * c + d),
            _ => None,
        }
    } else {
        None
    }
}

/// The character at the start of the inside of a JSON string, with the number of
/// characters that spell it: one as it is, two of a short escape, six of a number,
/// twelve of a pair of surrogates.
pub open spec fn first_char(text: Seq<char>) -> Option<(char, int)> {
    if text.len() > 0 && is_plain(text[0]) {
        Some((text[0], 1))
    } else if text.len() > 1 && text[0] == '\\' && text[1] != 'u' {
        match short_escape(text[1]) {
            Some(c) => Some((c, 2)),
            None => None,
        }
    } else {
        match (unit_at(text, 0), unit_at(text, 6)) {
            (Some(n), _) if n < 0xd800 || 0xdfff < n => Some((n as char, 6)),
            (Some(h), Some(l)) if h < 0xdc00 <= l <= 0xdfff => Some(
                ((0x1_0000 + 1024 * (h - 0xd800) + (l - 0xdc00)) as char, 12),
            ),
            _ => None,
        }
    }
}

/// Whether `text`, in quotation marks, is a JSON string for `s`.
pub open spec fn spells(text: Seq<char>, s: Seq<char>) -> bool
    decreases s.len(),
{
    if s.len() == 0 {
        text.len() == 0
    } else {
        match first_char(text) {
            Some((c, n)) => c == s[0] && spells(text.skip(n), s.drop_first()),
            None => false,
        }
    }
}

/// White space between the parts of JSON text.
pub open spec fn is_gap(s: Seq<char>) -> bool {
    forall|i: int|
        0 <= i < s.len() ==> #[trigger] s[i] == ' ' || s[i] == '\n' || s[i] == '\t' || s[i] == '\r'
}

/// What follows the opening bracket of a JSON array of strings with these insides,
/// set apart by a comma and `gap`.
pub open spec fn array_rest(pieces: Seq<Seq<char>>, gap: Seq<char>) -> Seq<char>
    decreases pieces.len(), 1int,
{
    if pieces.len() == 0 {
        seq![']']
    } else {
        seq!['"'] + (pieces[0] + (seq!['"'] + array_tail(pieces, gap)))
    }
}

/// What follows the first string of such an array.
pub open spec fn array_tail(pieces: Seq<Seq<char>>, gap: Seq<char>) -> Seq<char>
    decreases pieces.len(), 0int,
{
    if pieces.len() <= 1 {
        seq![']']
    } else {
        seq![','] + (gap + array_rest(pieces.drop_first(), gap))
    }
}

/// Whether `text` is the JSON array of `strings`, spelt by `pieces` and set apart
/// by a comma and `gap`.
pub open spec fn is_array_text(
    text: Seq<char>,
    strings: Seq<Seq<char>>,
    pieces: Seq<Seq<char>>,
    gap: Seq<char>,
) -> bool {
    &&& text == seq!['['] + array_rest(pieces, gap)
    &&& is_gap(gap)
    &&& pieces.len() == strings.len()
    &&& forall|i: int| 0 <= i < strings.len() ==> spells(#[trigger] pieces[i], strings[i])
}

/// What `serde_json::from_str` reads from a text that is no array of strings as
/// `is_array_text` has it: strings, or nothing where the text is no JSON array of
/// strings.
pub uninterp spec fn decoded_strings(text: Seq<char>) -> Option<Seq<Seq<char>>>;

/// The strings of the JSON array that `text` is; nothing where it is none.
pub open spec fn array_strings(text: Seq<char>) -> Option<Seq<Seq<char>>> {
    if exists|strings: Seq<Seq<char>>, pieces: Seq<Seq<char>>, gap: Seq<char>|
        is_array_text(text, strings, pieces, gap) {
        let (strings, pieces, gap) = choose|
            strings: Seq<Seq<char>>,
            pieces: Seq<Seq<char>>,
            gap: Seq<char>,
        | is_array_text(text, strings, pieces, gap);
        Some(strings)
    } else {
        decoded_strings(text)
    }
}

/// The error of `serde_json`.
#[verifier::external_type_specification]
#[verifier::external_body]
pub struct ExJsonError(serde_json::Error);

/// `serde_json::from_str` at the type of lists of strings. From the text of an
/// array of strings, which are set apart by a comma and white space, it reads these
/// strings: characters as they are, and JSON's escapes as what they stand for. On
/// any other text it gives strings or an error, as a function of the text that is
/// named `decoded_strings`; which of these texts are JSON arrays is left unsaid.
#[verifier::external_body]
pub(crate) fn decode_strings(text: &str) -> (r: Result<Vec<String>, serde_json::Error>)
    ensures
        match r {
            Ok(v) => array_strings(text@) == Some(texts(v@)),
            Err(_) => array_strings(text@) is None,
        },
        (forall|strings: Seq<Seq<char>>, pieces: Seq<Seq<char>>, gap: Seq<char>|
            !is_array_text(text@, strings, pieces, gap)) ==> match r {
            Ok(v) => decoded_strings(text@) == Some(texts(v@)),
            Err(_) => decoded_strings(text@) is None,
        },
{
    serde_json::from_str::<Vec<String>>(text)
}

/// What follows a spelt character does not change how it is read.
proof fn lemma_first_char_stands(text: Seq<char>, more: Seq<char>)
    requires
        first_char(text) is Some,
    ensures
        first_char(text + more) == first_char(text),
        first_char(text) matches Some((c, n)) && 1 <= n <= text.len(),
{
    assert forall|i: int| 0 <= i < text.len() implies (text + more)[i] == text[i] by {}
}

/// The inside of a JSON string ends at the first quotation mark that is not
/// escaped, and it spells one string.
proof fn lemma_spelling_unique(
    p1: Seq<char>,
    s1: Seq<char>,
    r1: Seq<char>,
    p2: Seq<char>,
    s2: Seq<char>,
    r2: Seq<char>,
)
    requires
        spells(p1, s1),
        spells(p2, s2),
        p1 + (seq!['"'] + r1) == p2 + (seq!['"'] + r2),
    ensures
        s1 == s2,
        r1 == r2,
    decreases s1.len(),
{
    let q1 = seq!['"'] + r1;
    let q2 = seq!['"'] + r2;
    if s1.len() == 0 || s2.len() == 0 {
        if s1.len() > 0 {
            lemma_first_char_stands(p1, q1);
            assert(p2 + q2 =~= q2);
        } else if s2.len() > 0 {
            lemma_first_char_stands(p2, q2);
            assert(p1 + q1 =~= q1);
        } else {
            assert(p1 + q1 =~= q1);
            assert(p2 + q2 =~= q2);
            assert(r1 =~= q1.skip(1));
            assert(r2 =~= q2.skip(1));
            assert(s1 =~= s2);
        }
    } else {
        lemma_first_char_stands(p1, q1);
        lemma_first_char_stands(p2, q2);
        let (c, n) = first_char(p1)->0;
        assert(p1.skip(n) + q1 =~= (p1 + q1).skip(n));
        assert(p2.skip(n) + q2 =~= (p2 + q2).skip(n));
        lemma_spelling_unique(
            p1.skip(n),
            s1.drop_first(),
            r1,
            p2.skip(n),
            s2.drop_first(),
            r2,
        );
        assert(s1 =~= seq![s1[0]] + s1.drop_first());
        assert(s2 =~= seq![s2[0]] + s2.drop_first());
    }
}

/// Of two texts that begin with characters other than `mark` and then have it, the
/// beginnings are as long where the texts are the same.
proof fn lemma_same_mark(text: Seq<char>, mark: char, m: int, n: int)
    requires
        0 <= m < text.len(),
        0 <= n < text.len(),
        text[m] == mark,
        text[n] == mark,
        forall|i: int| 0 <= i < m ==> text[i] != mark,
        forall|i: int| 0 <= i < n ==> text[i] != mark,
    ensures
        m == n,
{
}

proof fn lemma_array_unique(
    a: Seq<Seq<char>>,
    pa: Seq<Seq<char>>,
    g: Seq<char>,
    b: Seq<Seq<char>>,
    pb: Seq<Seq<char>>,
    h: Seq<char>,
)
    requires
        array_rest(pa, g) == array_rest(pb, h),
        is_gap(g),
        is_gap(h),
        pa.len() == a.len(),
        pb.len() == b.len(),
        forall|i: int| 0 <= i < a.len() ==> spells(#[trigger] pa[i], a[i]),
        forall|i: int| 0 <= i < b.len() ==> spells(#[trigger] pb[i], b[i]),
    ensures
        a == b,
    decreases a.len(),
{
    let rest = array_rest(pa, g);
    if a.len() == 0 || b.len() == 0 {
        assert(rest[0] == array_rest(pb, h)[0]);
        assert(a =~= b);
    } else {
        let (ta, tb) = (array_tail(pa, g), array_tail(pb, h));
        assert(rest.skip(1) =~= pa[0] + (seq!['"'] + ta));
        assert(rest.skip(1) =~= pb[0] + (seq!['"'] + tb));
        lemma_spelling_unique(pa[0], a[0], ta, pb[0], b[0], tb);
        assert(ta[0] == tb[0]);
        if a.len() > 1 {
            let (qa, qb) = (pa.drop_first(), pb.drop_first());
            let (da, db) = (a.drop_first(), b.drop_first());
            let tail = ta.skip(1);
            assert(tail =~= g + array_rest(qa, g));
            assert(tail =~= h + array_rest(qb, h));
            lemma_same_mark(tail, '"', g.len() as int, h.len() as int);
            assert(array_rest(qa, g) =~= tail.skip(g.len() as int));
            assert(array_rest(qb, h) =~= tail.skip(h.len() as int));
            assert forall|i: int| 0 <= i < da.len() implies spells(#[trigger] qa[i], da[i]) by {
                assert(spells(pa[i + 1], a[i + 1]));
            }
            assert forall|i: int| 0 <= i < db.len() implies spells(#[trigger] qb[i], db[i]) by {
                assert(spells(pb[i + 1], b[i + 1]));
            }
            lemma_array_unique(da, qa, g, db, qb, h);
            assert(a =~= seq![a[0]] + da);
            assert(b =~= seq![b[0]] + db);
        } else {
            assert(a =~= b);
        }
    }
}

/// The text of an array of strings is read as these strings and no others.
pub proof fn law_array_text_read_back(
    text: Seq<char>,
    strings: Seq<Seq<char>>,
    pieces: Seq<Seq<char>>,
    gap: Seq<char>,
)
    requires
        is_array_text(text, strings, pieces, gap),
    ensures
        array_strings(text) == Some(strings),
{
    let (s, p, g) = choose|s: Seq<Seq<char>>, p: Seq<Seq<char>>, g: Seq<char>|
        is_array_text(text, s, p, g);
    assert(array_rest(pieces, gap) =~= text.skip(1));
    assert(array_rest(p, g) =~= text.skip(1));
    lemma_array_unique(strings, pieces, gap, s, p, g);
}

/// The hexadecimal digit of value `d`.
pub open spec fn hex_digit(d: int) -> char {
    if d < 10 {
        ('0' as int + d) as char
    } else {
        ('a' as int + d - 10) as char
    }
}

/// How a character is written in a JSON string: as it is where it may stand so,
/// else by a short escape where there is one, else by its number.
pub open spec fn written_char(c: char) -> Seq<char> {
    if is_plain(c) {
        seq![c]
    } else if c == '"' || c == '\\' {
        seq!['\\', c]
    } else if c == '\u{8}' {
        seq!['\\', 'b']
    } else if c == '\u{c}' {
        seq!['\\', 'f']
    } else if c == '\n' {
        seq!['\\', 'n']
    } else if c == '\r' {
        seq!['\\', 'r']
    } else if c == '\t' {
        seq!['\\', 't']
    } else {
        seq!['\\', 'u', '0', '0', hex_digit(c as int / 16), hex_digit(c as int % 16)]
    }
}

/// How a string is written in JSON, without its quotation marks.
pub open spec fn written(s: Seq<char>) -> Seq<char>
    decreases s.len(),
{
    if s.len() == 0 {
        Seq::empty()
    } else {
        written_char(s[0]) + written(s.drop_first())
    }
}

/// The text of the JSON array of any strings, with `gap` behind each comma.
pub open spec fn array_text(strings: Seq<Seq<char>>, gap: Seq<char>) -> Seq<char> {
    seq!['['] + array_rest(strings.map_values(|s: Seq<char>| written(s)), gap)
}

proof fn lemma_written_char(c: char)
    ensures
        first_char(written_char(c)) == Some((c, written_char(c).len() as int)),
{
}

proof fn lemma_written_spells(s: Seq<char>)
    ensures
        spells(written(s), s),
    decreases s.len(),
{
    if s.len() > 0 {
        let w = written_char(s[0]);
        let rest = written(s.drop_first());
        lemma_written_char(s[0]);
        lemma_first_char_stands(w, rest);
        assert((w + rest).skip(w.len() as int) =~= rest);
        lemma_written_spells(s.drop_first());
    }
}

/// Whatever the strings hold, the text of their JSON array is read as these
/// strings.
pub proof fn law_written_strings_read_back(strings: Seq<Seq<char>>, gap: Seq<char>)
    requires
        is_gap(gap),
    ensures
        array_strings(array_text(strings, gap)) == Some(strings),
{
    let pieces = strings.map_values(|s: Seq<char>| written(s));
    assert forall|i: int| 0 <= i < strings.len() implies spells(#[trigger] pieces[i], strings[i]) by {
        lemma_written_spells(strings[i]);
    }
    law_array_text_read_back(array_text(strings, gap), strings, pieces, gap);
}

/// A text that is no array of strings set apart by a comma and white space is read
/// as whatever `serde_json` makes of it.
pub proof fn law_other_texts_as_decoded(text: Seq<char>)
    requires
        forall|strings: Seq<Seq<char>>, pieces: Seq<Seq<char>>, gap: Seq<char>|
            !is_array_text(text, strings, pieces, gap),
    ensures
        array_strings(text) == decoded_strings(text),
{
}

/// In a JSON string a character that needs no escape stands for itself; a backslash
/// before a quotation mark, a backslash or a slash stands for that mark, and before
/// `b`, `f`, `n`, `r` and `t` for the control character of that name, whatever
/// follows.
pub proof fn law_short_escapes(c: char, more: Seq<char>)
    ensures
        c as int >= 0x20 && c != '"' && c != '\\' ==> first_char(seq![c] + more) == Some((c, 1int)),
        c == '"' || c == '\\' || c == '/' ==> first_char(seq!['\\', c] + more) == Some((c, 2int)),
        first_char(seq!['\\', 'b'] + more) == Some((8 as char, 2int)),
        first_char(seq!['\\', 't'] + more) == Some((9 as char, 2int)),
        first_char(seq!['\\', 'n'] + more) == Some((10 as char, 2int)),
        first_char(seq!['\\', 'f'] + more) == Some((12 as char, 2int)),
        first_char(seq!['\\', 'r'] + more) == Some((13 as char, 2int)),
{
    if c != 'u' {
        lemma_escaped(c, more);
    }
    lemma_escaped('b', more);
    lemma_escaped('t', more);
    lemma_escaped('n', more);
    lemma_escaped('f', more);
    lemma_escaped('r', more);
    if is_plain(c) {
        assert((seq![c] + more)[0] == c);
    }
}

proof fn lemma_escaped(c: char, more: Seq<char>)
    requires
        c != 'u',
    ensures
        first_char(seq!['\\', c] + more) == match short_escape(c) {
            Some(x) => Some((x, 2int)),
            None => None,
        },
{
    let text = seq!['\\', c] + more;
    assert(text[0] == '\\' && text[1] == c);
}

/// Whether `c` is the hexadecimal digit of value `d`, in either case.
pub open spec fn is_hex_digit(c: char, d: int) -> bool {
    ||| 0 <= d < 10 && c as int == 0x30 + d
    ||| 10 <= d < 16 && (c as int == 0x41 + d - 10 || c as int == 0x61 + d - 10)
}

/// A backslash, a `u` and four hexadecimal digits stand for the character of that
/// number, where there is one.
pub proof fn law_numbered_escape(digits: Seq<char>, values: Seq<int>, more: Seq<char>)
    requires
        digits.len() == 4,
        values.len() == 4,
        forall|i: int| 0 <= i < 4 ==> is_hex_digit(#[trigger] digits[i], values[i]),
    ensures
        ({
            let n = 0x1000 * values[0] + 0x100 * values[1] + 0x10 * values[2] + values[3];
            n < 0xd800 || n > 0xdfff ==> first_char(seq!['\\', 'u'] + digits + more) == Some(
                (n as char, 6int),
            )
        }),
{
    let text = seq!['\\', 'u'] + digits + more;
    assert(is_hex_digit(digits[0], values[0]) && is_hex_digit(digits[1], values[1]));
    assert(is_hex_digit(digits[2], values[2]) && is_hex_digit(digits[3], values[3]));
    assert(text[2] == digits[0] && text[3] == digits[1] && text[4] == digits[2] && text[5]
        == digits[3]);
}

} // verus!
