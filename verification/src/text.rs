//! Characters and strings: the normal forms under which names are compared,
//! searching, ordering and decimal numerals.

use vstd::prelude::*;
use vstd::string::StrSliceExecFns;
use vstd::utf8::is_ascii_chars;

verus! {

/// The characters with the Unicode property White_Space.
pub open spec fn is_white_space(c: char) -> bool {
    ||| '\u{9}' <= c <= '\u{d}'
    ||| c == ' '
    ||| c == '\u{85}'
    ||| c == '\u{a0}'
    ||| c == '\u{1680}'
    ||| '\u{2000}' <= c <= '\u{200a}'
    ||| c == '\u{2028}'
    ||| c == '\u{2029}'
    ||| c == '\u{202f}'
    ||| c == '\u{205f}'
    ||| c == '\u{3000}'
}

/// `s` without the white space at its start.
pub open spec fn trim_start(s: Seq<char>) -> Seq<char>
    decreases s.len(),
{
    if s.len() > 0 && is_white_space(s[0]) {
        trim_start(s.drop_first())
    } else {
        s
    }
}

/// `s` without the white space at its end.
pub open spec fn trim_end(s: Seq<char>) -> Seq<char>
    decreases s.len(),
{
    if s.len() > 0 && is_white_space(s.last()) {
        trim_end(s.drop_last())
    } else {
        s
    }
}

/// `s` without the white space at either end.
pub open spec fn trimmed(s: Seq<char>) -> Seq<char> {
    trim_end(trim_start(s))
}

pub open spec fn is_ascii_upper(c: char) -> bool {
    'A' <= c <= 'Z'
}

pub open spec fn is_ascii_lower(c: char) -> bool {
    'a' <= c <= 'z'
}

pub open spec fn is_ascii_letter(c: char) -> bool {
    is_ascii_upper(c) || is_ascii_lower(c)
}

/// `c` with `A` to `Z` taken to `a` to `z`.
pub open spec fn ascii_lower(c: char) -> char {
    if is_ascii_upper(c) {
        (c as int + 32) as char
    } else {
        c
    }
}

/// `c` with `a` to `z` taken to `A` to `Z`.
pub open spec fn ascii_upper(c: char) -> char {
    if is_ascii_lower(c) {
        (c as int - 32) as char
    } else {
        c
    }
}

/// What `str::to_lowercase` makes of a string that is not all ASCII.
pub uninterp spec fn unicode_lowercase(s: Seq<char>) -> Seq<char>;

/// What `str::to_uppercase` makes of a string that is not all ASCII.
pub uninterp spec fn unicode_uppercase(s: Seq<char>) -> Seq<char>;

/// The lowercase form of `s`.
pub open spec fn lowercase(s: Seq<char>) -> Seq<char> {
    if is_ascii_chars(s) {
        s.map_values(|c: char| ascii_lower(c))
    } else {
        unicode_lowercase(s)
    }
}

/// The uppercase form of `s`.
pub open spec fn uppercase(s: Seq<char>) -> Seq<char> {
    if is_ascii_chars(s) {
        s.map_values(|c: char| ascii_upper(c))
    } else {
        unicode_uppercase(s)
    }
}

/// `str::to_lowercase` takes each ASCII letter of an ASCII string to its
/// lowercase letter and leaves the other characters alone. On any other string
/// it is a function of that string, named `unicode_lowercase`; which characters
/// that function gives is left unsaid.
pub assume_specification[ str::to_lowercase ](s: &str) -> (r: String)
    ensures
        r@ == lowercase(s@),
        !is_ascii_chars(s@) ==> r@ == unicode_lowercase(s@),
;

/// `str::to_uppercase` takes each ASCII letter of an ASCII string to its
/// uppercase letter and leaves the other characters alone. On any other string
/// it is a function of that string, named `unicode_uppercase`; which characters
/// that function gives is left unsaid.
pub assume_specification[ str::to_uppercase ](s: &str) -> (r: String)
    ensures
        r@ == uppercase(s@),
        !is_ascii_chars(s@) ==> r@ == unicode_uppercase(s@),
;

/// `String::push` appends one character to the string.
pub assume_specification[ String::push ](s: &mut String, c: char)
    ensures
        final(s)@ == old(s)@.push(c),
;

/// The characters of each of the strings.
pub open spec fn texts(strings: Seq<String>) -> Seq<Seq<char>> {
    strings.map_values(|s: String| s@)
}

/// The characters of a string that may be absent.
pub open spec fn optional_text(s: Option<String>) -> Option<Seq<char>> {
    match s {
        Some(t) => Some(t@),
        None => None,
    }
}

/// The form under which bundled teams are stored and looked up.
pub open spec fn normalized(s: Seq<char>) -> Seq<char> {
    lowercase(trimmed(s))
}

/// Whether `needle` stands in `hay` at `i`.
pub open spec fn occurs_at(needle: Seq<char>, hay: Seq<char>, i: int) -> bool {
    0 <= i <= hay.len() - needle.len() && hay.subrange(i, i + needle.len()) == needle
}

/// Whether `needle` occurs in `hay` as a run of consecutive characters.
pub open spec fn occurs_in(needle: Seq<char>, hay: Seq<char>) -> bool {
    exists|i: int| occurs_at(needle, hay, i)
}

/// Whether what stands in `hay` at `i`, `n` characters long, is a part of an
/// occurrence of the longer `other`.
pub open spec fn is_inside(other: Seq<char>, hay: Seq<char>, i: int, n: nat) -> bool {
    other.len() > n && exists|j: int|
        #[trigger] occurs_at(other, hay, j) && j <= i && i + n <= j + other.len()
}

/// Whether `needle` occurs in `hay` other than as a part of a longer `other`.
pub open spec fn occurs_outside(needle: Seq<char>, other: Seq<char>, hay: Seq<char>) -> bool {
    exists|i: int| #[trigger] occurs_at(needle, hay, i) && !is_inside(other, hay, i, needle.len())
}

/// The characters that words are made of: ASCII letters and digits, and what lies
/// beyond ASCII and is no white space.
pub open spec fn is_word_char(c: char) -> bool {
    is_ascii_letter(c) || '0' <= c <= '9' || (c >= '\u{80}' && !is_white_space(c))
}

/// `s` from its first word on, with one space for all that stands between two
/// words or behind the last.
pub open spec fn spaced(s: Seq<char>) -> Seq<char>
    decreases s.len(),
{
    if s.len() == 0 {
        s
    } else {
        let head = spaced(s.drop_last());
        if is_word_char(s.last()) {
            head.push(s.last())
        } else if head.len() > 0 && head.last() != ' ' {
            head.push(' ')
        } else {
            head
        }
    }
}

/// The words of `s` in lower case, set apart by one space.
pub open spec fn words_of(s: Seq<char>) -> Seq<char> {
    trimmed(spaced(lowercase(s)))
}

/// The ASCII letters of `s`, in lower case.
pub open spec fn simplified(s: Seq<char>) -> Seq<char> {
    s.filter(|c: char| is_ascii_letter(c)).map_values(|c: char| ascii_lower(c))
}

/// The last run of characters of `s` without white space; `s` itself where it
/// is all white space.
pub open spec fn last_word(s: Seq<char>) -> Seq<char> {
    let t = trim_end(s);
    if t.len() == 0 {
        s
    } else {
        after_last_space(t)
    }
}

/// What follows the last white space of `s`.
pub open spec fn after_last_space(s: Seq<char>) -> Seq<char>
    decreases s.len(),
{
    if s.len() == 0 || is_white_space(s.last()) {
        Seq::empty()
    } else {
        after_last_space(s.drop_last()).push(s.last())
    }
}

/// `a` stands before `b` in the order of strings: by the first character in
/// which they differ, a prefix before what it begins.
pub open spec fn precedes(a: Seq<char>, b: Seq<char>) -> bool
    decreases a.len(),
{
    if b.len() == 0 {
        false
    } else if a.len() == 0 {
        true
    } else if a[0] == b[0] {
        precedes(a.drop_first(), b.drop_first())
    } else {
        a[0] < b[0]
    }
}

/// The decimal digit of value `d`.
pub open spec fn digit(d: nat) -> char {
    (48 + d) as char
}

/// The decimal numeral of `n`, without leading zeros.
pub open spec fn numeral(n: nat) -> Seq<char>
    decreases n,
{
    if n < 10 {
        seq![digit(n)]
    } else {
        numeral(n / 10).push(digit(n % 10))
    }
}

/// Whether `c` is white space.
pub fn white_space(c: char) -> (r: bool)
    ensures
        r == is_white_space(c),
{
    ('\u{9}' <= c && c <= '\u{d}') || c == ' ' || c == '\u{85}' || c == '\u{a0}' || c == '\u{1680}'
        || ('\u{2000}' <= c && c <= '\u{200a}') || c == '\u{2028}' || c == '\u{2029}' || c
        == '\u{202f}' || c == '\u{205f}' || c == '\u{3000}'
}

/// The uppercase form of an ASCII letter; any other character as it is.
pub fn to_ascii_upper(c: char) -> (r: char)
    ensures
        r == ascii_upper(c),
{
    if 'a' <= c && c <= 'z' {
        (c as u8 - 32) as char
    } else {
        c
    }
}

/// The lowercase form of an ASCII letter; any other character as it is.
pub fn to_ascii_lower(c: char) -> (r: char)
    ensures
        r == ascii_lower(c),
{
    if 'A' <= c && c <= 'Z' {
        (c as u8 + 32) as char
    } else {
        c
    }
}

/// The characters of a string.
pub fn chars_of(s: &str) -> (v: Vec<char>)
    ensures
        v@ == s@,
{
    let mut v: Vec<char> = Vec::new();
    for c in it: s.chars()
        invariant
            v@ == it.seq().take(it.index()),
            it.seq() == s@,
    {
        v.push(c);
    }
    v
}

/// Whether two strings have the same characters.
pub fn same_text(a: &str, b: &str) -> (r: bool)
    ensures
        r == (a@ == b@),
{
    a.to_owned() == b.to_owned()
}

/// `s` without the white space at either end.
pub fn trim(s: &str) -> (r: &str)
    ensures
        r@ == trimmed(s@),
{
    let v = chars_of(s);
    let mut i: usize = 0;
    assert(v@.skip(0) =~= v@);
    while i < v.len() && white_space(v[i])
        invariant
            i <= v@.len(),
            trim_start(v@) == trim_start(v@.skip(i as int)),
        decreases v@.len() - i,
    {
        assert(v@.skip(i as int).drop_first() =~= v@.skip(i + 1));
        i = i + 1;
    }
    let ghost t = v@.skip(i as int);
    let mut j: usize = v.len();
    while j > i && white_space(v[j - 1])
        invariant
            i <= j <= v@.len(),
            trim_end(t) == trim_end(v@.subrange(i as int, j as int)),
        decreases j,
    {
        assert(v@.subrange(i as int, j as int).drop_last() =~= v@.subrange(i as int, j - 1));
        j = j - 1;
    }
    s.substring_char(i, j)
}

/// The form under which bundled teams are stored and looked up: trimmed, in
/// lower case.
pub fn norm(s: &str) -> (r: String)
    ensures
        r@ == normalized(s@),
{
    trim(s).to_lowercase()
}

/// The ASCII letters of `s` in lower case: marks, spacing and case do not count.
pub fn simplify(s: &str) -> (r: String)
    ensures
        r@ == simplified(s@),
{
    let v = chars_of(s);
    let mut r: String = String::new();
    let mut i: usize = 0;
    let ghost keep = |c: char| is_ascii_letter(c);
    let ghost low = |c: char| ascii_lower(c);
    assert(v@.take(0).filter(keep).map_values(low) =~= Seq::<char>::empty()) by {
        reveal(Seq::filter);
    }
    while i < v.len()
        invariant
            i <= v@.len(),
            keep == |c: char| is_ascii_letter(c),
            low == |c: char| ascii_lower(c),
            r@ == v@.take(i as int).filter(keep).map_values(low),
        decreases v@.len() - i,
    {
        let c = v[i];
        proof {
            reveal(Seq::filter);
            assert(v@.take(i + 1).drop_last() =~= v@.take(i as int));
        }
        if ('A' <= c && c <= 'Z') || ('a' <= c && c <= 'z') {
            r.push(to_ascii_lower(c));
        }
        i = i + 1;
    }
    assert(v@.take(i as int) =~= v@);
    r
}

/// Whether `n` stands in `h` at `i`.
fn found_at(n: &Vec<char>, h: &Vec<char>, i: usize) -> (r: bool)
    ensures
        r == occurs_at(n@, h@, i as int),
{
    if n.len() > h.len() || i > h.len() - n.len() {
        return false;
    }
    let mut j: usize = 0;
    while j < n.len()
        invariant
            0 <= j <= n@.len(),
            i + n.len() <= h.len(),
            forall|k: int| 0 <= k < j ==> h@[i + k] == n@[k],
        decreases n@.len() - j,
    {
        if h[i + j] != n[j] {
            assert(h@.subrange(i as int, i + n@.len())[j as int] != n@[j as int]);
            return false;
        }
        j = j + 1;
    }
    assert(h@.subrange(i as int, i + n@.len()) =~= n@);
    true
}

/// Whether `needle` occurs in `hay`.
pub fn contains(hay: &str, needle: &str) -> (r: bool)
    ensures
        r == occurs_in(needle@, hay@),
{
    let h = chars_of(hay);
    let n = chars_of(needle);
    if found_at(&n, &h, 0) {
        return true;
    }
    let mut i: usize = 0;
    while i < h.len()
        invariant
            h@ == hay@,
            n@ == needle@,
            0 <= i <= h@.len(),
            forall|k: int| 0 <= k <= i ==> !#[trigger] occurs_at(n@, h@, k),
        decreases h@.len() - i,
    {
        i = i + 1;
        if found_at(&n, &h, i) {
            return true;
        }
    }
    false
}

/// Whether what stands in `h` at `i`, `len` characters long, is a part of an
/// occurrence of the longer `o`.
fn inside(o: &Vec<char>, h: &Vec<char>, i: usize, len: usize) -> (r: bool)
    requires
        i + len <= h@.len(),
    ensures
        r == is_inside(o@, h@, i as int, len as nat),
{
    if o.len() <= len {
        return false;
    }
    let mut j: usize = 0;
    while j <= i && j < h.len()
        invariant
            i + len <= h@.len(),
            o@.len() > len,
            0 <= j <= h@.len(),
            forall|k: int|
                0 <= k < j && #[trigger] occurs_at(o@, h@, k) ==> i + len > k + o@.len(),
        decreases h@.len() - j,
    {
        if found_at(o, h, j) && i - j + len <= o.len() {
            return true;
        }
        j = j + 1;
    }
    false
}

/// Whether `needle` occurs in `hay` other than as a part of a longer `other`.
pub fn contains_outside(hay: &str, needle: &str, other: &str) -> (r: bool)
    ensures
        r == occurs_outside(needle@, other@, hay@),
{
    let h = chars_of(hay);
    let n = chars_of(needle);
    let o = chars_of(other);
    if found_at(&n, &h, 0) && !inside(&o, &h, 0, n.len()) {
        return true;
    }
    let mut i: usize = 0;
    while i < h.len()
        invariant
            h@ == hay@,
            n@ == needle@,
            o@ == other@,
            0 <= i <= h@.len(),
            forall|k: int|
                0 <= k <= i && #[trigger] occurs_at(n@, h@, k) ==> is_inside(
                    o@,
                    h@,
                    k,
                    n@.len(),
                ),
        decreases h@.len() - i,
    {
        i = i + 1;
        if found_at(&n, &h, i) && !inside(&o, &h, i, n.len()) {
            return true;
        }
    }
    false
}

/// The words of `s` in lower case, set apart by one space.
pub fn words(s: &str) -> (r: String)
    ensures
        r@ == words_of(s@),
{
    let low = s.to_lowercase();
    let v = chars_of(low.as_str());
    let mut r = String::new();
    let mut in_word = false;
    let mut i: usize = 0;
    while i < v.len()
        invariant
            0 <= i <= v@.len(),
            r@ == spaced(v@.take(i as int)),
            in_word == (r@.len() > 0 && r@.last() != ' '),
        decreases v@.len() - i,
    {
        let c = v[i];
        assert(v@.take(i + 1).drop_last() =~= v@.take(i as int));
        if ('A' <= c && c <= 'Z') || ('a' <= c && c <= 'z') || ('0' <= c && c <= '9') || (c
            >= '\u{80}' && !white_space(c)) {
            r.push(c);
            in_word = true;
        } else if in_word {
            r.push(' ');
            in_word = false;
        }
        i = i + 1;
    }
    assert(v@.take(i as int) =~= v@);
    trim(r.as_str()).to_owned()
}

/// Whether `s` begins with `prefix`.
pub fn starts_with(s: &str, prefix: &str) -> (r: bool)
    ensures
        r == prefix@.is_prefix_of(s@),
{
    let v = chars_of(s);
    let p = chars_of(prefix);
    if p.len() > v.len() {
        return false;
    }
    let mut j: usize = 0;
    while j < p.len() && v[j] == p[j]
        invariant
            0 <= j <= p@.len() <= v@.len(),
            forall|k: int| 0 <= k < j ==> v@[k] == p@[k],
        decreases p@.len() - j,
    {
        j = j + 1;
    }
    j == p.len()
}

/// The last word of `s`, which is a surname where `s` is a person's name; `s`
/// itself where it holds no word.
pub fn surname(s: &str) -> (r: &str)
    ensures
        r@ == last_word(s@),
{
    let v = chars_of(s);
    let mut j: usize = v.len();
    assert(v@.take(j as int) =~= v@);
    while j > 0 && white_space(v[j - 1])
        invariant
            j <= v@.len(),
            trim_end(v@) == trim_end(v@.take(j as int)),
        decreases j,
    {
        assert(v@.take(j as int).drop_last() =~= v@.take(j - 1));
        j = j - 1;
    }
    if j == 0 {
        return s;
    }
    let mut k: usize = j;
    while k > 0 && !white_space(v[k - 1])
        invariant
            0 <= k <= j <= v@.len(),
            after_last_space(v@.take(j as int)) == after_last_space(v@.take(k as int))
                + v@.subrange(k as int, j as int),
        decreases k,
    {
        assert(v@.take(k as int).drop_last() =~= v@.take(k - 1));
        assert(after_last_space(v@.take(k - 1)).push(v@[k - 1]) + v@.subrange(k as int, j as int)
            =~= after_last_space(v@.take(k - 1)) + v@.subrange(k - 1, j as int));
        k = k - 1;
    }
    s.substring_char(k, j)
}

/// Whether `a` stands before `b` in the order of strings.
pub fn before(a: &str, b: &str) -> (r: bool)
    ensures
        r == precedes(a@, b@),
{
    let x = chars_of(a);
    let y = chars_of(b);
    let mut i: usize = 0;
    assert(x@.skip(0) =~= x@);
    assert(y@.skip(0) =~= y@);
    while i < x.len() && i < y.len() && x[i] == y[i]
        invariant
            0 <= i <= x@.len(),
            i <= y@.len(),
            precedes(x@, y@) == precedes(x@.skip(i as int), y@.skip(i as int)),
        decreases x@.len() - i,
    {
        assert(x@.skip(i as int).drop_first() =~= x@.skip(i + 1));
        assert(y@.skip(i as int).drop_first() =~= y@.skip(i + 1));
        i = i + 1;
    }
    if i >= y.len() {
        false
    } else if i >= x.len() {
        true
    } else {
        x[i] < y[i]
    }
}

/// The decimal numeral of `n`.
pub fn decimal(n: u32) -> (r: String)
    ensures
        r@ == numeral(n as nat),
    decreases n,
{
    let mut r: String = if n < 10 {
        String::new()
    } else {
        decimal(n / 10)
    };
    let d: u8 = (n % 10) as u8;
    r.push((48u8 + d) as char);
    r
}

/// The form under which the live feed's teams are compared: the names of the
/// United States are one.
pub open spec fn feed_name(s: Seq<char>) -> Seq<char> {
    let t = normalized(s);
    if t == "usa"@ || t == "united states"@ || t == "usmnt"@ {
        "usa"@
    } else {
        t
    }
}

/// The form under which the live feed's teams are compared.
pub fn norm_team(s: &str) -> (r: String)
    ensures
        r@ == feed_name(s@),
{
    let t = norm(s);
    if same_text(t.as_str(), "usa") || same_text(t.as_str(), "united states") || same_text(
        t.as_str(),
        "usmnt",
    ) {
        "usa".to_owned()
    } else {
        t
    }
}

/// A name is compared as "usa" exactly where it is one of the names of the United
/// States; any other is compared by its normal form.
pub proof fn law_feed_name(s: Seq<char>)
    ensures
        feed_name(s) == "usa"@ <==> (normalized(s) == "usa"@ || normalized(s) == "united states"@
            || normalized(s) == "usmnt"@),
        feed_name(s) == "usa"@ || feed_name(s) == normalized(s),
{
}

/// No string stands before itself.
pub proof fn lemma_precedes_irreflexive(a: Seq<char>)
    ensures
        !precedes(a, a),
    decreases a.len(),
{
    if a.len() > 0 {
        lemma_precedes_irreflexive(a.drop_first());
    }
}

/// Of two different strings one stands before the other.
pub proof fn lemma_precedes_total(a: Seq<char>, b: Seq<char>)
    ensures
        a == b || precedes(a, b) || precedes(b, a),
    decreases a.len(),
{
    if a.len() > 0 && b.len() > 0 && a[0] == b[0] {
        lemma_precedes_total(a.drop_first(), b.drop_first());
        if a.drop_first() == b.drop_first() {
            assert(a =~= seq![a[0]] + a.drop_first());
        }
    }
}

/// What stands before what stands before `c` stands before `c`.
pub proof fn lemma_precedes_transitive(a: Seq<char>, b: Seq<char>, c: Seq<char>)
    requires
        precedes(a, b),
        precedes(b, c),
    ensures
        precedes(a, c),
    decreases a.len(),
{
    if a.len() > 0 && a[0] == b[0] && b[0] == c[0] {
        lemma_precedes_transitive(a.drop_first(), b.drop_first(), c.drop_first());
    }
}

/// All of `s` is white space.
pub open spec fn is_blank(s: Seq<char>) -> bool {
    forall|i: int| 0 <= i < s.len() ==> is_white_space(#[trigger] s[i])
}

proof fn lemma_trim_start_blank(w: Seq<char>, s: Seq<char>)
    requires
        is_blank(w),
    ensures
        trim_start(w + s) == trim_start(s),
    decreases w.len(),
{
    if w.len() > 0 {
        assert((w + s).drop_first() =~= w.drop_first() + s);
        lemma_trim_start_blank(w.drop_first(), s);
    }
}

proof fn lemma_trim_end_blank(s: Seq<char>, w: Seq<char>)
    requires
        is_blank(w),
    ensures
        trim_end(s + w) == trim_end(s),
    decreases w.len(),
{
    if w.len() > 0 {
        assert((s + w).drop_last() =~= s + w.drop_last());
        lemma_trim_end_blank(s, w.drop_last());
    }
}

proof fn lemma_trim_start_append(s: Seq<char>, w: Seq<char>)
    ensures
        trim_start(s).len() > 0 ==> trim_start(s + w) == trim_start(s) + w,
        trim_start(s).len() == 0 ==> is_blank(s),
    decreases s.len(),
{
    if s.len() > 0 && is_white_space(s[0]) {
        lemma_trim_start_append(s.drop_first(), w);
        assert((s + w).drop_first() =~= s.drop_first() + w);
        assert forall|i: int| trim_start(s).len() == 0 && 0 <= i < s.len() implies is_white_space(
            #[trigger] s[i],
        ) by {
            if i > 0 {
                assert(s.drop_first()[i - 1] == s[i]);
            }
        }
    }
}

/// White space around a name does not change what it is compared as.
pub proof fn law_outer_space_ignored(left: Seq<char>, s: Seq<char>, right: Seq<char>)
    requires
        is_blank(left),
        is_blank(right),
    ensures
        normalized(left + s + right) == normalized(s),
        feed_name(left + s + right) == feed_name(s),
{
    assert(left + s + right =~= left + (s + right));
    lemma_trim_start_blank(left, s + right);
    lemma_trim_start_append(s, right);
    if trim_start(s).len() > 0 {
        lemma_trim_end_blank(trim_start(s), right);
    } else {
        let none = Seq::<char>::empty();
        lemma_trim_start_blank(s, none);
        lemma_trim_start_blank(s + right, none);
    }
}

/// The same characters up to the case of ASCII letters, all of them ASCII.
spec fn same_ascii(a: Seq<char>, b: Seq<char>) -> bool {
    &&& is_ascii_chars(a)
    &&& is_ascii_chars(b)
    &&& a.len() == b.len()
    &&& forall|i: int| 0 <= i < a.len() ==> ascii_lower(#[trigger] a[i]) == ascii_lower(b[i])
}

proof fn lemma_same_ascii_trim_start(a: Seq<char>, b: Seq<char>)
    requires
        same_ascii(a, b),
    ensures
        same_ascii(trim_start(a), trim_start(b)),
    decreases a.len(),
{
    if a.len() > 0 {
        if is_white_space(a[0]) {
            lemma_same_ascii_trim_start(a.drop_first(), b.drop_first());
        }
    }
}

proof fn lemma_same_ascii_trim_end(a: Seq<char>, b: Seq<char>)
    requires
        same_ascii(a, b),
    ensures
        same_ascii(trim_end(a), trim_end(b)),
    decreases a.len(),
{
    if a.len() > 0 {
        if is_white_space(a.last()) {
            lemma_same_ascii_trim_end(a.drop_last(), b.drop_last());
        }
    }
}

/// Two ASCII names that differ only in the case of their letters are compared as
/// the same.
pub proof fn law_ascii_case_ignored(a: Seq<char>, b: Seq<char>)
    requires
        is_ascii_chars(a),
        is_ascii_chars(b),
        a.map_values(|c: char| ascii_lower(c)) == b.map_values(|c: char| ascii_lower(c)),
    ensures
        normalized(a) == normalized(b),
        feed_name(a) == feed_name(b),
{
    let low = |c: char| ascii_lower(c);
    assert(a.map_values(low).len() == b.map_values(low).len());
    assert forall|i: int| 0 <= i < a.len() implies ascii_lower(#[trigger] a[i]) == ascii_lower(
        b[i],
    ) by {
        assert(a.map_values(low)[i] == b.map_values(low)[i]);
    }
    lemma_same_ascii_trim_start(a, b);
    lemma_same_ascii_trim_end(trim_start(a), trim_start(b));
    assert(normalized(a) =~= normalized(b));
}

/// A simplified name is made of the letters `a` to `z`, and simplifying it again
/// changes nothing.
pub proof fn law_simplified_is_plain(s: Seq<char>)
    ensures
        forall|i: int| 0 <= i < simplified(s).len() ==> is_ascii_lower(#[trigger] simplified(s)[i]),
        simplified(simplified(s)) == simplified(s),
    decreases s.len(),
{
    reveal(Seq::filter);
    if s.len() > 0 {
        law_simplified_is_plain(s.drop_last());
        let head = simplified(s.drop_last());
        if is_ascii_letter(s.last()) {
            let c = ascii_lower(s.last());
            assert(simplified(s) =~= head.push(c));
            assert(head.push(c).drop_last() =~= head);
        }
    }
}

/// Marks, digits, spaces and letters outside ASCII do not count in a simplified
/// name.
pub proof fn law_marks_ignored(a: Seq<char>, mark: char, b: Seq<char>)
    requires
        !is_ascii_letter(mark),
    ensures
        simplified(a.push(mark) + b) == simplified(a + b),
{
    let keep = |c: char| is_ascii_letter(c);
    Seq::filter_distributes_over_add(a.push(mark), b, keep);
    Seq::filter_distributes_over_add(a, b, keep);
    reveal(Seq::filter);
    assert(a.push(mark).drop_last() =~= a);
}

proof fn lemma_trim_end_keeps_start(s: Seq<char>)
    requires
        s.len() > 0,
        !is_white_space(s[0]),
    ensures
        trim_end(s).len() > 0,
        trim_end(s)[0] == s[0],
    decreases s.len(),
{
    if is_white_space(s.last()) {
        lemma_trim_end_keeps_start(s.drop_last());
    }
}

proof fn lemma_trim_end_twice(s: Seq<char>)
    ensures
        trim_end(trim_end(s)) == trim_end(s),
    decreases s.len(),
{
    if s.len() > 0 && is_white_space(s.last()) {
        lemma_trim_end_twice(s.drop_last());
    }
}

proof fn lemma_trim_start_head(s: Seq<char>)
    ensures
        trim_start(s).len() > 0 ==> !is_white_space(trim_start(s)[0]),
    decreases s.len(),
{
    if s.len() > 0 && is_white_space(s[0]) {
        lemma_trim_start_head(s.drop_first());
    }
}

/// The normal forms of a name that is ASCII apart from white space around it are
/// their own normal forms.
pub proof fn law_normal_form_is_stable(s: Seq<char>)
    requires
        is_ascii_chars(trimmed(s)),
    ensures
        normalized(normalized(s)) == normalized(s),
        feed_name(feed_name(s)) == feed_name(s),
{
    let low = |c: char| ascii_lower(c);
    let t = trimmed(s);
    let n = normalized(s);
    lemma_trim_start_head(s);
    lemma_trim_end_twice(trim_start(s));
    if trim_start(s).len() > 0 {
        lemma_trim_end_keeps_start(trim_start(s));
    }
    assert(n.map_values(low) =~= t.map_values(low));
    law_ascii_case_ignored(n, t);
    reveal_strlit("usa");
}

proof fn lemma_simplified_concat(a: Seq<char>, b: Seq<char>)
    ensures
        simplified(a + b) == simplified(a) + simplified(b),
{
    let keep = |c: char| is_ascii_letter(c);
    Seq::filter_distributes_over_add(a, b, keep);
}

proof fn lemma_trim_end_is_prefix(s: Seq<char>)
    ensures
        trim_end(s).len() <= s.len(),
        trim_end(s) == s.take(trim_end(s).len() as int),
    decreases s.len(),
{
    if s.len() > 0 && is_white_space(s.last()) {
        lemma_trim_end_is_prefix(s.drop_last());
    }
}

proof fn lemma_after_last_space_is_suffix(s: Seq<char>)
    ensures
        after_last_space(s).len() <= s.len(),
        after_last_space(s) == s.skip(s.len() - after_last_space(s).len()),
    decreases s.len(),
{
    if s.len() > 0 && !is_white_space(s.last()) {
        lemma_after_last_space_is_suffix(s.drop_last());
    }
}

/// The simplified surname of a person occurs in the simplified name.
pub proof fn law_surname_occurs(name: Seq<char>)
    ensures
        occurs_in(simplified(last_word(name)), simplified(name)),
{
    let t = trim_end(name);
    let word = last_word(name);
    let empty = Seq::<char>::empty();
    lemma_trim_end_is_prefix(name);
    lemma_after_last_space_is_suffix(t);
    let a = if t.len() == 0 {
        empty
    } else {
        t.take(t.len() - word.len())
    };
    let b = if t.len() == 0 {
        empty
    } else {
        name.skip(t.len() as int)
    };
    assert(name =~= a + word + b);
    lemma_simplified_concat(a + word, b);
    lemma_simplified_concat(a, word);
    let i = simplified(a).len() as int;
    let key = simplified(word);
    assert(simplified(name).subrange(i, i + key.len()) =~= key);
    assert(occurs_at(key, simplified(name), i));
}

/// Different numbers have different numerals.
pub proof fn law_numerals_differ(m: nat, n: nat)
    requires
        numeral(m) == numeral(n),
    ensures
        m == n,
    decreases m,
{
    assert(numeral(m).last() == digit(m % 10));
    if m >= 10 && n >= 10 {
        assert(numeral(m).drop_last() =~= numeral(m / 10));
        assert(numeral(n).drop_last() =~= numeral(n / 10));
        law_numerals_differ(m / 10, n / 10);
    } else if m >= 10 || n >= 10 {
        assert(numeral(m / 10).len() > 0);
        assert(numeral(n / 10).len() > 0);
    }
}

/// White space is these characters, by their numbers, and no others.
pub proof fn law_white_space(c: char)
    ensures
        is_white_space(c) <==> {
            let n = c as int;
            ||| 0x9 <= n <= 0xd
            ||| n == 0x20
            ||| n == 0x85
            ||| n == 0xa0
            ||| n == 0x1680
            ||| 0x2000 <= n <= 0x200a
            ||| 0x2028 <= n <= 0x2029
            ||| n == 0x202f
            ||| n == 0x205f
            ||| n == 0x3000
        },
{
}

/// The case of an ASCII letter is a distance of 32 between its numbers; every other
/// character is its own lower and upper case, and is no letter.
pub proof fn law_ascii_case(c: char)
    ensures
        0x41 <= c as int <= 0x5a ==> ascii_lower(c) as int == c as int + 32 && is_ascii_letter(c),
        0x61 <= c as int <= 0x7a ==> ascii_upper(c) as int == c as int - 32 && is_ascii_letter(c),
        !(0x41 <= c as int <= 0x5a) ==> ascii_lower(c) == c,
        !(0x61 <= c as int <= 0x7a) ==> ascii_upper(c) == c,
        is_ascii_letter(c) ==> 0x41 <= c as int <= 0x5a || 0x61 <= c as int <= 0x7a,
{
}

/// The lower and upper case of an ASCII string are those of its characters, one for
/// one in their order; those of any other string are what the standard library
/// makes of it.
pub proof fn law_case_of_strings(s: Seq<char>)
    ensures
        is_ascii_chars(s) ==> {
            &&& lowercase(s).len() == s.len()
            &&& uppercase(s).len() == s.len()
            &&& forall|i: int| 0 <= i < s.len() ==> #[trigger] lowercase(s)[i] == ascii_lower(s[i])
            &&& forall|i: int| 0 <= i < s.len() ==> #[trigger] uppercase(s)[i] == ascii_upper(s[i])
        },
        !is_ascii_chars(s) ==> lowercase(s) == unicode_lowercase(s) && uppercase(s)
            == unicode_uppercase(s),
{
}

/// Strings are what their characters are, one for one in their order.
pub proof fn law_texts_in_order(strings: Seq<String>, s: Option<String>)
    ensures
        texts(strings).len() == strings.len(),
        forall|i: int| 0 <= i < strings.len() ==> #[trigger] texts(strings)[i] == strings[i]@,
        s matches Some(t) ==> optional_text(s) == Some(t@),
        s is None ==> optional_text(s) is None,
{
}

proof fn lemma_trim_start_parts(s: Seq<char>)
    ensures
        trim_start(s).len() <= s.len(),
        s == s.take(s.len() - trim_start(s).len()) + trim_start(s),
        is_blank(s.take(s.len() - trim_start(s).len())),
        trim_start(s).len() > 0 ==> !is_white_space(trim_start(s)[0]),
    decreases s.len(),
{
    if s.len() > 0 && is_white_space(s[0]) {
        let rest = s.drop_first();
        lemma_trim_start_parts(rest);
        let n = rest.len() - trim_start(rest).len();
        assert(s.take(n + 1) =~= seq![s[0]] + rest.take(n));
        assert(s =~= seq![s[0]] + (rest.take(n) + trim_start(rest)));
        assert(s =~= s.take(n + 1) + trim_start(rest));
        assert forall|i: int| 0 <= i < n + 1 implies is_white_space(#[trigger] s.take(n + 1)[i]) by {
            if i > 0 {
                assert(is_white_space(rest.take(n)[i - 1]));
            }
        }
    } else {
        assert(s =~= s.take(0) + s);
    }
}

proof fn lemma_trim_end_parts(s: Seq<char>)
    ensures
        trim_end(s).len() <= s.len(),
        s == trim_end(s) + s.skip(trim_end(s).len() as int),
        is_blank(s.skip(trim_end(s).len() as int)),
        trim_end(s).len() > 0 ==> !is_white_space(trim_end(s).last()),
    decreases s.len(),
{
    if s.len() > 0 && is_white_space(s.last()) {
        let head = s.drop_last();
        lemma_trim_end_parts(head);
        let n = trim_end(head).len() as int;
        assert(s.skip(n) =~= head.skip(n).push(s.last()));
        assert(s =~= (trim_end(head) + head.skip(n)).push(s.last()));
        assert(s =~= trim_end(head) + s.skip(n));
        assert forall|i: int| 0 <= i < s.skip(n).len() implies is_white_space(
            #[trigger] s.skip(n)[i],
        ) by {
            if i < head.skip(n).len() {
                assert(is_white_space(head.skip(n)[i]));
            }
        }
    } else {
        assert(s =~= s + s.skip(s.len() as int));
    }
}

/// The normal form of a string is the lower case of what is left of it without the
/// white space at its two ends, and of nothing less.
pub proof fn law_normal_form(s: Seq<char>)
    ensures
        exists|left: Seq<char>, right: Seq<char>|
            #![trigger is_blank(left), is_blank(right)]
            is_blank(left) && is_blank(right) && s == left + trimmed(s) + right,
        trimmed(s).len() > 0 ==> !is_white_space(trimmed(s)[0]) && !is_white_space(
            trimmed(s).last(),
        ),
        normalized(s) == lowercase(trimmed(s)),
{
    let t = trim_start(s);
    lemma_trim_start_parts(s);
    lemma_trim_end_parts(t);
    let left = s.take(s.len() - t.len());
    let right = t.skip(trim_end(t).len() as int);
    assert(is_blank(left) && is_blank(right));
    assert(s =~= left + trimmed(s) + right);
}

/// Whether the characters of `needle` are those of `hay` from `i` on.
pub open spec fn stands_at(needle: Seq<char>, hay: Seq<char>, i: int) -> bool {
    &&& 0 <= i
    &&& i + needle.len() <= hay.len()
    &&& forall|k: int| 0 <= k < needle.len() ==> hay[i + k] == #[trigger] needle[k]
}

/// A string occurs in another where its characters stand there one after the other.
/// It occurs outside a third where that holds at a place that no occurrence of the
/// third, if that is longer, covers.
pub proof fn law_occurrences(needle: Seq<char>, other: Seq<char>, hay: Seq<char>)
    ensures
        forall|i: int| #[trigger] occurs_at(needle, hay, i) <==> stands_at(needle, hay, i),
        occurs_in(needle, hay) <==> exists|i: int| stands_at(needle, hay, i),
        occurs_outside(needle, other, hay) <==> exists|i: int|
            #[trigger] stands_at(needle, hay, i) && forall|j: int| #[trigger]
                stands_at(other, hay, j) && other.len() > needle.len() && j <= i ==> i
                    + needle.len() > j + other.len(),
{
    assert forall|n: Seq<char>, i: int| #[trigger] occurs_at(n, hay, i) <==> stands_at(
        n,
        hay,
        i,
    ) by {
        if stands_at(n, hay, i) {
            assert(hay.subrange(i, i + n.len()) =~= n);
        }
        if occurs_at(n, hay, i) {
            assert forall|k: int| 0 <= k < n.len() implies hay[i + k] == #[trigger] n[k] by {
                assert(hay.subrange(i, i + n.len())[k] == n[k]);
            }
        }
    }
    if occurs_in(needle, hay) {
        let i = choose|i: int| occurs_at(needle, hay, i);
        assert(stands_at(needle, hay, i));
    }
    if exists|i: int| stands_at(needle, hay, i) {
        let i = choose|i: int| stands_at(needle, hay, i);
        assert(occurs_at(needle, hay, i));
    }
    assert forall|i: int| is_inside(other, hay, i, needle.len()) <==> !(forall|j: int| #[trigger]
        stands_at(other, hay, j) && other.len() > needle.len() && j <= i ==> i + needle.len() > j
            + other.len()) by {
        if is_inside(other, hay, i, needle.len()) {
            let j = choose|j: int|
                #[trigger] occurs_at(other, hay, j) && j <= i && i + needle.len() <= j
                    + other.len();
            assert(stands_at(other, hay, j));
        }
        if exists|j: int|
            #[trigger] stands_at(other, hay, j) && other.len() > needle.len() && j <= i && i
                + needle.len() <= j + other.len() {
            let j = choose|j: int|
                #[trigger] stands_at(other, hay, j) && other.len() > needle.len() && j <= i && i
                    + needle.len() <= j + other.len();
            assert(occurs_at(other, hay, j));
        }
    }
    if occurs_outside(needle, other, hay) {
        let i = choose|i: int|
            #[trigger] occurs_at(needle, hay, i) && !is_inside(other, hay, i, needle.len());
        assert(stands_at(needle, hay, i));
    }
    if exists|i: int|
        #[trigger] stands_at(needle, hay, i) && forall|j: int| #[trigger]
            stands_at(other, hay, j) && other.len() > needle.len() && j <= i ==> i + needle.len()
                > j + other.len() {
        let i = choose|i: int|
            #[trigger] stands_at(needle, hay, i) && forall|j: int| #[trigger]
                stands_at(other, hay, j) && other.len() > needle.len() && j <= i ==> i
                    + needle.len() > j + other.len();
        assert(occurs_at(needle, hay, i));
        assert(!is_inside(other, hay, i, needle.len()));
    }
}

/// Strings are simplified part by part: of one character, a letter of ASCII is left
/// in lower case and anything else is not.
pub proof fn law_simplified_by_parts(a: Seq<char>, b: Seq<char>, c: char)
    ensures
        simplified(a + b) == simplified(a) + simplified(b),
        simplified(Seq::empty()) == Seq::<char>::empty(),
        is_ascii_letter(c) ==> simplified(seq![c]) == seq![ascii_lower(c)],
        !is_ascii_letter(c) ==> simplified(seq![c]) == Seq::<char>::empty(),
{
    lemma_simplified_concat(a, b);
    reveal(Seq::filter);
    let one = seq![c];
    let none = Seq::<char>::empty();
    assert(one.drop_last() =~= none);
    assert(simplified(none) =~= none);
    assert(simplified(one) =~= if is_ascii_letter(c) {
        seq![ascii_lower(c)]
    } else {
        none
    });
}

proof fn lemma_after_last_space(s: Seq<char>)
    ensures
        after_last_space(s).len() <= s.len(),
        forall|i: int|
            0 <= i < after_last_space(s).len() ==> !is_white_space(
                #[trigger] after_last_space(s)[i],
            ),
        after_last_space(s).len() < s.len() ==> is_white_space(
            s[s.len() - after_last_space(s).len() - 1],
        ),
    decreases s.len(),
{
    if s.len() > 0 && !is_white_space(s.last()) {
        lemma_after_last_space(s.drop_last());
    }
}

/// The last word of a string that is not all white space is a run of characters
/// without white space, as long as can be, with nothing but white space behind it;
/// that of a blank string is the string.
pub proof fn law_last_word(s: Seq<char>)
    ensures
        is_blank(s) ==> last_word(s) == s,
        !is_blank(s) ==> {
            let w = last_word(s);
            &&& w.len() > 0
            &&& forall|i: int| 0 <= i < w.len() ==> !is_white_space(#[trigger] w[i])
            &&& exists|k: int|
                {
                    &&& #[trigger] stands_at(w, s, k)
                    &&& k > 0 ==> is_white_space(s[k - 1])
                    &&& forall|i: int|
                        k + w.len() <= i < s.len() ==> is_white_space(#[trigger] s[i])
                }
        },
{
    let t = trim_end(s);
    lemma_trim_end_parts(s);
    lemma_trim_end_is_prefix(s);
    if is_blank(s) {
        if t.len() > 0 {
            assert(is_white_space(s[t.len() - 1]));
        }
    } else {
        if t.len() == 0 {
            assert(s.skip(0) =~= s);
        }
        let w = last_word(s);
        lemma_after_last_space(t);
        lemma_after_last_space_is_suffix(t);
        let k = t.len() - w.len();
        assert forall|i: int| 0 <= i < w.len() implies s[k + i] == #[trigger] w[i] by {
            assert(w[i] == t.skip(k)[i]);
        }
        assert(stands_at(w, s, k));
        assert forall|i: int| k + w.len() <= i < s.len() implies is_white_space(
            #[trigger] s[i],
        ) by {
            assert(s.skip(t.len() as int)[i - t.len()] == s[i]);
        }
    }
}

/// One string stands before another where the first character in which they differ
/// has the lower number, or where it is the beginning of the other.
pub proof fn law_order_of_strings(a: Seq<char>, b: Seq<char>)
    ensures
        precedes(a, b) <==> exists|k: int|
            {
                &&& 0 <= k <= a.len()
                &&& k < b.len()
                &&& #[trigger] a.take(k) == b.take(k)
                &&& k == a.len() || a[k] < b[k]
            },
    decreases a.len(),
{
    if a.len() > 0 && b.len() > 0 && a[0] == b[0] {
        let (x, y) = (a.drop_first(), b.drop_first());
        law_order_of_strings(x, y);
        if precedes(x, y) {
            let k = choose|k: int|
                {
                    &&& 0 <= k <= x.len()
                    &&& k < y.len()
                    &&& #[trigger] x.take(k) == y.take(k)
                    &&& k == x.len() || x[k] < y[k]
                };
            assert(a.take(k + 1) =~= seq![a[0]] + x.take(k));
            assert(b.take(k + 1) =~= seq![b[0]] + y.take(k));
            assert(a.take(k + 1) == b.take(k + 1));
        }
        if exists|k: int|
            {
                &&& 0 <= k <= a.len()
                &&& k < b.len()
                &&& #[trigger] a.take(k) == b.take(k)
                &&& k == a.len() || a[k] < b[k]
            } {
            let k = choose|k: int|
                {
                    &&& 0 <= k <= a.len()
                    &&& k < b.len()
                    &&& #[trigger] a.take(k) == b.take(k)
                    &&& k == a.len() || a[k] < b[k]
                };
            assert(k > 0);
            assert(x.take(k - 1) =~= a.take(k).drop_first());
            assert(y.take(k - 1) =~= b.take(k).drop_first());
            assert(x.take(k - 1) == y.take(k - 1));
        }
    } else if a.len() == 0 && b.len() > 0 {
        assert(a.take(0) == b.take(0));
    } else if a.len() > 0 && b.len() > 0 {
        assert(a.take(0) =~= b.take(0));
        if exists|k: int| 0 < k <= a.len() && k < b.len() && #[trigger] a.take(k) == b.take(k) {
            let k = choose|k: int|
                0 < k <= a.len() && k < b.len() && #[trigger] a.take(k) == b.take(k);
            assert(a.take(k)[0] == b.take(k)[0]);
        }
    }
}

/// The numeral of a number below ten is its digit; that of a greater number is the
/// numeral of its tens with the digit of what is left behind it.
pub proof fn law_numeral_by_digits(tens: nat, ones: nat)
    requires
        ones < 10,
    ensures
        numeral(ones).len() == 1,
        numeral(ones)[0] as int == '0' as int + ones,
        tens > 0 ==> numeral(10 * tens + ones) == numeral(tens) + numeral(ones),
{
    let n = 10 * tens + ones;
    if tens > 0 {
        assert(n / 10 == tens && n % 10 == ones);
        assert(numeral(n) =~= numeral(tens) + numeral(ones));
    }
}

proof fn lemma_spaced_shape(s: Seq<char>)
    ensures
        forall|i: int|
            0 <= i < spaced(s).len() ==> is_word_char(#[trigger] spaced(s)[i]) || spaced(s)[i]
                == ' ',
        spaced(s).len() > 0 ==> is_word_char(spaced(s)[0]),
        spaced(s).len() > 0 && spaced(s).last() == ' ' ==> spaced(s).len() > 1 && is_word_char(
            spaced(s)[spaced(s).len() - 2],
        ),
    decreases s.len(),
{
    if s.len() > 0 {
        lemma_spaced_shape(s.drop_last());
    }
}

proof fn lemma_clean_is_trimmed(s: Seq<char>)
    requires
        s.len() > 0 ==> !is_white_space(s[0]) && !is_white_space(s.last()),
    ensures
        trimmed(s) == s,
        trimmed(s.push(' ')) == s,
{
    let more = s.push(' ');
    assert(more.drop_last() =~= s);
    assert(trim_end(s) == s);
    if s.len() == 0 {
        assert(more.drop_first() =~= s);
        assert(trim_start(more) == trim_start(s));
    } else {
        assert(trim_start(more) == more);
    }
}

proof fn lemma_spaced_trimmed(s: Seq<char>)
    ensures
        trimmed(spaced(s)) == if spaced(s).len() > 0 && spaced(s).last() == ' ' {
            spaced(s).drop_last()
        } else {
            spaced(s)
        },
        trimmed(spaced(s)).len() > 0 <==> spaced(s).len() > 0,
        trimmed(spaced(s)).len() > 0 ==> is_word_char(trimmed(spaced(s)).last()),
{
    let p = spaced(s);
    lemma_spaced_shape(s);
    if p.len() > 0 && p.last() == ' ' {
        lemma_clean_is_trimmed(p.drop_last());
        assert(p.drop_last().push(' ') =~= p);
    } else {
        lemma_clean_is_trimmed(p);
    }
}

proof fn lemma_spaced_parts(a: Seq<char>, mark: char, b: Seq<char>)
    requires
        !is_word_char(mark),
    ensures
        spaced(a.push(mark) + b) == if spaced(a).len() == 0 {
            spaced(b)
        } else {
            trimmed(spaced(a)).push(' ') + spaced(b)
        },
    decreases b.len(),
{
    let whole = a.push(mark) + b;
    lemma_spaced_trimmed(a);
    if b.len() == 0 {
        assert(whole =~= a.push(mark));
        assert(a.push(mark).drop_last() =~= a);
        if spaced(a).len() > 0 {
            assert(spaced(whole) =~= trimmed(spaced(a)).push(' ') + spaced(b));
        } else {
            assert(spaced(whole) =~= spaced(b));
        }
    } else {
        lemma_spaced_parts(a, mark, b.drop_last());
        assert(whole.drop_last() =~= a.push(mark) + b.drop_last());
        if spaced(a).len() > 0 {
            assert(spaced(whole) =~= trimmed(spaced(a)).push(' ') + spaced(b));
        }
    }
}

/// The words of a string are those on the two sides of any character that belongs
/// to no word, one space apart; a string of such characters as words are made of is
/// one word.
pub proof fn law_words_by_parts(a: Seq<char>, mark: char, b: Seq<char>)
    requires
        !is_word_char(mark),
    ensures
        ({
            let (left, right) = (trimmed(spaced(a)), trimmed(spaced(b)));
            trimmed(spaced(a.push(mark) + b)) == if left.len() == 0 {
                right
            } else if right.len() == 0 {
                left
            } else {
                left + seq![' '] + right
            }
        }),
        (forall|i: int| 0 <= i < a.len() ==> is_word_char(#[trigger] a[i])) ==> trimmed(spaced(a))
            == a,
{
    lemma_spaced_parts(a, mark, b);
    lemma_spaced_trimmed(a);
    lemma_spaced_trimmed(b);
    lemma_spaced_trimmed(a.push(mark) + b);
    let (left, right) = (trimmed(spaced(a)), trimmed(spaced(b)));
    let whole = trimmed(spaced(a.push(mark) + b));
    if left.len() > 0 && right.len() > 0 {
        assert(whole =~= left + seq![' '] + right);
    } else if left.len() > 0 {
        assert(whole =~= left);
    }
    if forall|i: int| 0 <= i < a.len() ==> is_word_char(#[trigger] a[i]) {
        lemma_one_word(a);
    }
}

proof fn lemma_one_word(s: Seq<char>)
    requires
        forall|i: int| 0 <= i < s.len() ==> is_word_char(#[trigger] s[i]),
    ensures
        spaced(s) == s,
        trimmed(spaced(s)) == s,
    decreases s.len(),
{
    if s.len() > 0 {
        lemma_one_word(s.drop_last());
        assert(s.drop_last().push(s.last()) =~= s);
    }
    lemma_spaced_trimmed(s);
}

/// Words are compared in lower case, and words are made of ASCII letters and digits
/// and of what lies beyond ASCII and is no white space.
pub proof fn law_words_in_lower_case(s: Seq<char>, c: char)
    ensures
        words_of(s) == trimmed(spaced(lowercase(s))),
        is_word_char(c) <==> (if (c as int) < 0x80 {
            0x30 <= c as int <= 0x39 || 0x41 <= c as int <= 0x5a || 0x61 <= c as int <= 0x7a
        } else {
            !is_white_space(c)
        }),
{
}

} // verus!
