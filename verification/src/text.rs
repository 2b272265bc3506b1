//! Texts as sequences of characters: comparison, search, cutting and joining.

use vstd::prelude::*;
use vstd::utf8::*;

verus! {

/// `String::push` appends one character at the end of the string.
pub assume_specification[ std::string::String::push ](s: &mut std::string::String, c: char)
    ensures
        final(s)@ == old(s)@.push(c),
;

/// `std::string::FromUtf8Error`, kept as it came.
#[verifier::external_type_specification]
#[verifier::external_body]
pub struct ExFromUtf8Error(std::string::FromUtf8Error);

/// `String::from_utf8` gives the text that the bytes encode, if they are valid UTF-8, and an
/// error otherwise.
pub assume_specification[ std::string::String::from_utf8 ](
    bytes: std::vec::Vec<u8>,
) -> (r: std::result::Result<std::string::String, std::string::FromUtf8Error>)
    ensures
        r is Ok <==> valid_utf8(bytes@),
        r is Ok ==> r->Ok_0@ == decode_utf8(bytes@),
;

/// What `String::from_utf8_lossy` makes of bytes.
pub uninterp spec fn utf8_lossy(bytes: Seq<u8>) -> Seq<char>;

/// `String::from_utf8_lossy`: valid UTF-8 is decoded as it stands; in other bytes every invalid
/// part is replaced, and of that only this is claimed, that it depends on the bytes alone.
#[verifier::external_body]
pub(crate) fn from_utf8_lossy(bytes: &[u8]) -> (r: String)
    ensures
        r@ == utf8_lossy(bytes@),
        valid_utf8(bytes@) ==> r@ == decode_utf8(bytes@),
{
    String::from_utf8_lossy(bytes).into_owned()
}

/// A list of texts as sequences of characters.
pub open spec fn views(texts: Seq<String>) -> Seq<Seq<char>> {
    Seq::new(texts.len(), |i: int| texts[i]@)
}

/// The characters of a text, one by one.
pub fn to_chars(s: &str) -> (r: Vec<char>)
    ensures
        r@ == s@,
{
    let mut out: Vec<char> = Vec::new();
    for c in it: s.chars()
        invariant
            out@ == s@.take(it.index() as int),
            it.seq() == s@,
    {
        out.push(c);
    }
    out
}

/// The text made of the characters of `chars` from `start` up to `end`.
pub fn from_chars(chars: &Vec<char>, start: usize, end: usize) -> (r: String)
    requires
        start <= end <= chars@.len(),
    ensures
        r@ == chars@.subrange(start as int, end as int),
{
    let mut out = String::new();
    let mut i: usize = start;
    while i < end
        invariant
            start <= i <= end <= chars@.len(),
            out@ == chars@.subrange(start as int, i as int),
        decreases end - i,
    {
        out.push(chars[i]);
        i += 1;
    }
    out
}

/// The code point of a character.
pub fn code(c: char) -> (r: u32)
    ensures
        r as int == c as int,
        r <= 0x10_ffff,
{
    c as u32
}

/// Whether two texts hold the same characters.
pub fn same(a: &str, b: &str) -> (r: bool)
    ensures
        r == (a@ == b@),
{
    a.to_owned() == b.to_owned()
}

/// `a` followed by `b`.
pub fn join2(a: &str, b: &str) -> (r: String)
    ensures
        r@ == a@ + b@,
{
    let mut out = a.to_owned();
    out.append(b);
    out
}

/// `a`, `b` and `c`, one after the other.
pub fn join3(a: &str, b: &str, c: &str) -> (r: String)
    ensures
        r@ == a@ + b@ + c@,
{
    let mut out = a.to_owned();
    out.append(b);
    out.append(c);
    out
}

/// Whether `part` stands in `s` at position `at`.
pub open spec fn occurs_at(s: Seq<char>, part: Seq<char>, at: int) -> bool {
    0 <= at && at + part.len() <= s.len() && s.subrange(at, at + part.len()) == part
}

/// Whether `part` stands anywhere in `s`.
pub open spec fn has_part(s: Seq<char>, part: Seq<char>) -> bool {
    exists|at: int| occurs_at(s, part, at)
}

/// Whether `part` stands in `chars` at position `at`.
pub fn matches_at(chars: &Vec<char>, part: &Vec<char>, at: usize) -> (r: bool)
    requires
        at <= chars@.len(),
    ensures
        r == occurs_at(chars@, part@, at as int),
{
    if part.len() > chars.len() - at {
        return false;
    }
    let total = chars.len();
    let mut i: usize = 0;
    while i < part.len()
        invariant
            i <= part@.len(),
            at + part@.len() <= chars@.len(),
            total == chars@.len(),
            forall|j: int| 0 <= j < i ==> chars@[at + j] == #[trigger] part@[j],
        decreases part@.len() - i,
    {
        if chars[at + i] != part[i] {
            assert(chars@.subrange(at as int, at + part@.len())[i as int] != part@[i as int]);
            return false;
        }
        i += 1;
    }
    assert(chars@.subrange(at as int, at + part@.len()) =~= part@);
    true
}

/// Whether a text begins with another.
pub fn starts_with(s: &str, prefix: &str) -> (r: bool)
    ensures
        r == occurs_at(s@, prefix@, 0),
{
    let chars = to_chars(s);
    let part = to_chars(prefix);
    matches_at(&chars, &part, 0)
}

/// Whether a text ends with another.
pub fn ends_with(s: &str, suffix: &str) -> (r: bool)
    ensures
        r == occurs_at(s@, suffix@, s@.len() - suffix@.len()),
{
    let chars = to_chars(s);
    let part = to_chars(suffix);
    part.len() <= chars.len() && matches_at(&chars, &part, chars.len() - part.len())
}

/// Whether a text holds another.
pub fn contains(s: &str, part: &str) -> (r: bool)
    ensures
        r == has_part(s@, part@),
{
    let chars = to_chars(s);
    let wanted = to_chars(part);
    let mut at: usize = 0;
    while at < chars.len()
        invariant
            at <= chars@.len(),
            chars@ == s@,
            wanted@ == part@,
            forall|k: int| 0 <= k < at ==> !occurs_at(s@, part@, k),
        decreases chars@.len() - at,
    {
        if matches_at(&chars, &wanted, at) {
            return true;
        }
        at += 1;
    }
    let last = matches_at(&chars, &wanted, at);
    assert(forall|k: int| occurs_at(s@, part@, k) ==> k <= s@.len());
    last
}

/// Whether a character stands in a text.
pub fn contains_char(s: &str, c: char) -> (r: bool)
    ensures
        r == s@.contains(c),
{
    let chars = to_chars(s);
    let mut i: usize = 0;
    while i < chars.len()
        invariant
            i <= chars@.len(),
            chars@ == s@,
            forall|k: int| 0 <= k < i ==> s@[k] != c,
        decreases chars@.len() - i,
    {
        if chars[i] == c {
            return true;
        }
        i += 1;
    }
    false
}

/// The characters with Unicode's property `White_Space`.
pub open spec fn is_whitespace(c: char) -> bool {
    ||| '\u{9}' <= c <= '\u{d}'
    ||| c == ' '
    ||| c == '\u{85}'
    ||| c == '\u{a0}'
    ||| c == '\u{1680}'
    ||| '\u{2000}' <= c <= '\u{200a}'
    ||| c == '\u{2028}'
    ||| c == '\u{2029}'
    ||| c == '\u{202f}'
    ||| c == '\u{205f}'
    ||| c == '\u{3000}'
}

pub fn whitespace(c: char) -> (r: bool)
    ensures
        r == is_whitespace(c),
{
    ('\u{9}' <= c && c <= '\u{d}') || c == ' ' || c == '\u{85}' || c == '\u{a0}' || c == '\u{1680}'
        || ('\u{2000}' <= c && c <= '\u{200a}') || c == '\u{2028}' || c == '\u{2029}' || c
        == '\u{202f}' || c == '\u{205f}' || c == '\u{3000}'
}

/// A text without the white space at its start.
pub open spec fn trim_start(s: Seq<char>) -> Seq<char>
    decreases s.len(),
{
    if s.len() > 0 && is_whitespace(s[0]) {
        trim_start(s.drop_first())
    } else {
        s
    }
}

/// A text without the white space at its end.
pub open spec fn trim_end(s: Seq<char>) -> Seq<char>
    decreases s.len(),
{
    if s.len() > 0 && is_whitespace(s.last()) {
        trim_end(s.drop_last())
    } else {
        s
    }
}

/// A text without the white space at its ends.
pub open spec fn trimmed(s: Seq<char>) -> Seq<char> {
    trim_end(trim_start(s))
}

/// The text without the white space at its ends.
pub fn trim(s: &str) -> (r: String)
    ensures
        r@ == trimmed(s@),
{
    let chars = to_chars(s);
    let mut start: usize = 0;
    let ghost n = chars@.len() as int;
    assert(s@.subrange(0, n) =~= s@);
    while start < chars.len() && whitespace(chars[start])
        invariant
            start <= chars@.len(),
            n == chars@.len(),
            chars@ == s@,
            trim_start(s@.subrange(start as int, n)) == trim_start(s@),
        decreases chars@.len() - start,
    {
        assert(s@.subrange(start as int, n).drop_first() =~= s@.subrange(start + 1, n));
        start += 1;
    }
    assert(trim_start(s@) == s@.subrange(start as int, n));
    let mut end: usize = chars.len();
    while end > start && whitespace(chars[end - 1])
        invariant
            start <= end <= chars@.len(),
            chars@ == s@,
            trim_end(s@.subrange(start as int, end as int)) == trimmed(s@),
        decreases end,
    {
        assert(s@.subrange(start as int, end as int).drop_last() =~= s@.subrange(
            start as int,
            end - 1,
        ));
        end -= 1;
    }
    from_chars(&chars, start, end)
}

/// The pieces between the occurrences of a separator: one more than there are occurrences.
pub open spec fn pieces(s: Seq<char>, sep: char) -> Seq<Seq<char>>
    decreases s.len(),
{
    if s.len() == 0 {
        seq![s]
    } else {
        let before = pieces(s.drop_last(), sep);
        if s.last() == sep {
            before.push(Seq::empty())
        } else {
            before.update(before.len() - 1, before.last().push(s.last()))
        }
    }
}

pub proof fn lemma_pieces_nonempty(s: Seq<char>, sep: char)
    ensures
        pieces(s, sep).len() > 0,
    decreases s.len(),
{
    if s.len() > 0 {
        lemma_pieces_nonempty(s.drop_last(), sep);
    }
}

/// The pieces of a text between the occurrences of a separator.
pub fn split(s: &str, sep: char) -> (r: Vec<String>)
    ensures
        views(r@) == pieces(s@, sep),
        r@.len() > 0,
{
    let chars = to_chars(s);
    let mut done: Vec<String> = Vec::new();
    let mut current = String::new();
    let mut i: usize = 0;
    proof {
        assert(s@.take(0) =~= Seq::<char>::empty());
        assert(views(done@).push(current@) =~= pieces(s@.take(0), sep));
    }
    while i < chars.len()
        invariant
            i <= chars@.len(),
            chars@ == s@,
            views(done@).push(current@) == pieces(s@.take(i as int), sep),
        decreases chars@.len() - i,
    {
        let c = chars[i];
        let ghost before = views(done@).push(current@);
        assert(s@.take(i + 1).drop_last() =~= s@.take(i as int));
        assert(before.last() == current@);
        if c == sep {
            done.push(current);
            current = String::new();
            assert(views(done@).push(current@) =~= before.push(Seq::empty()));
        } else {
            let ghost old_current = current@;
            current.push(c);
            assert(views(done@).push(current@) =~= before.update(
                before.len() - 1,
                old_current.push(c),
            ));
        }
        i += 1;
    }
    assert(s@.take(i as int) =~= s@);
    let ghost last = current@;
    let ghost front = views(done@);
    done.push(current);
    assert(views(done@) =~= front.push(last));
    done
}

/// A digit as a character.
pub open spec fn digit(v: int) -> char {
    (('0' as int) + v) as char
}

/// A number in decimal digits, without leading zeros.
pub open spec fn decimal_of(n: int) -> Seq<char>
    decreases n,
{
    if n < 10 {
        seq![digit(n)]
    } else {
        decimal_of(n / 10).push(digit(n % 10))
    }
}

/// A number in decimal digits.
pub fn decimal(n: u64) -> (r: String)
    ensures
        r@ == decimal_of(n as int),
    decreases n,
{
    let mut out = if n < 10 {
        String::new()
    } else {
        decimal(n / 10)
    };
    out.push((48 + (n % 10) as u8) as char);
    assert(out@ =~= decimal_of(n as int));
    out
}

/// Whether a character is one of the ten decimal digits.
pub open spec fn is_digit(c: char) -> bool {
    '0' <= c <= '9'
}

/// Whether a text consists of decimal digits only.
pub open spec fn all_digits(s: Seq<char>) -> bool {
    forall|i: int| 0 <= i < s.len() ==> is_digit(#[trigger] s[i])
}

/// Whether the characters from `start` up to `end` are decimal digits.
pub fn digits_only(chars: &Vec<char>, start: usize, end: usize) -> (r: bool)
    requires
        start <= end <= chars@.len(),
    ensures
        r == all_digits(chars@.subrange(start as int, end as int)),
{
    let ghost part = chars@.subrange(start as int, end as int);
    let mut i: usize = start;
    while i < end
        invariant
            start <= i <= end <= chars@.len(),
            part == chars@.subrange(start as int, end as int),
            forall|k: int| 0 <= k < i - start ==> is_digit(#[trigger] part[k]),
        decreases end - i,
    {
        assert(part[i - start] == chars@[i as int]);
        if !('0' <= chars[i] && chars[i] <= '9') {
            return false;
        }
        i += 1;
    }
    true
}

/// An ASCII letter in lower case; every other character as it is.
pub open spec fn lower_char(c: char) -> char {
    if 'A' <= c <= 'Z' {
        ((c as int) + 32) as char
    } else {
        c
    }
}

/// A text with its ASCII letters in lower case.
pub open spec fn lower(s: Seq<char>) -> Seq<char> {
    Seq::new(s.len(), |i: int| lower_char(s[i]))
}

pub fn to_lower_char(c: char) -> (r: char)
    ensures
        r == lower_char(c),
{
    if 'A' <= c && c <= 'Z' {
        (c as u8 + 32) as char
    } else {
        c
    }
}

/// A text with its ASCII letters in lower case.
pub fn to_lower(s: &str) -> (r: String)
    ensures
        r@ == lower(s@),
{
    let chars = to_chars(s);
    let mut out = String::new();
    let mut i: usize = 0;
    assert(out@ =~= lower(s@.take(0)));
    while i < chars.len()
        invariant
            i <= chars@.len(),
            chars@ == s@,
            out@ == lower(s@.take(i as int)),
        decreases chars@.len() - i,
    {
        out.push(to_lower_char(chars[i]));
        i += 1;
        assert(out@ =~= lower(s@.take(i as int)));
    }
    assert(s@.take(i as int) =~= s@);
    out
}

/// Whether two texts are the same but for the case of ASCII letters.
pub fn same_ignoring_case(a: &str, b: &str) -> (r: bool)
    ensures
        r == (lower(a@) == lower(b@)),
{
    to_lower(a) == to_lower(b)
}

/// A text without the given character at its end, however often it stands there.
pub open spec fn without_trailing(s: Seq<char>, c: char) -> Seq<char>
    decreases s.len(),
{
    if s.len() > 0 && s.last() == c {
        without_trailing(s.drop_last(), c)
    } else {
        s
    }
}

pub fn trim_end_char(s: &str, c: char) -> (r: String)
    ensures
        r@ == without_trailing(s@, c),
{
    let chars = to_chars(s);
    let mut end: usize = chars.len();
    assert(s@.take(end as int) =~= s@);
    while end > 0 && chars[end - 1] == c
        invariant
            end <= chars@.len(),
            chars@ == s@,
            without_trailing(s@.take(end as int), c) == without_trailing(s@, c),
        decreases end,
    {
        assert(s@.take(end as int).drop_last() =~= s@.take(end - 1));
        end -= 1;
    }
    let r = from_chars(&chars, 0, end);
    assert(r@ =~= s@.take(end as int));
    r
}

/// The last position of a character among the first `n` of a text.
pub open spec fn last_index(s: Seq<char>, c: char, n: int) -> Option<int>
    decreases n,
{
    if n <= 0 {
        None
    } else if s[n - 1] == c {
        Some(n - 1)
    } else {
        last_index(s, c, n - 1)
    }
}

/// The last position of a character.
pub fn rfind(chars: &Vec<char>, c: char) -> (r: Option<usize>)
    ensures
        match r {
            Some(i) => i < chars@.len() && last_index(chars@, c, chars@.len() as int) == Some(
                i as int,
            ),
            None => last_index(chars@, c, chars@.len() as int) is None,
        },
{
    let mut n: usize = chars.len();
    while n > 0
        invariant
            n <= chars@.len(),
            last_index(chars@, c, n as int) == last_index(chars@, c, chars@.len() as int),
        decreases n,
    {
        if chars[n - 1] == c {
            return Some(n - 1);
        }
        n -= 1;
    }
    None
}

/// The first position of a character from `from` on.
pub open spec fn index_from(s: Seq<char>, c: char, from: int) -> Option<int>
    decreases s.len() - from,
{
    if from >= s.len() {
        None
    } else if s[from] == c {
        Some(from)
    } else {
        index_from(s, c, from + 1)
    }
}

/// The first position of a character from `from` on.
pub fn find_from(chars: &Vec<char>, c: char, from: usize) -> (r: Option<usize>)
    requires
        from <= chars@.len(),
    ensures
        match r {
            Some(i) => from <= i < chars@.len() && index_from(chars@, c, from as int) == Some(
                i as int,
            ),
            None => index_from(chars@, c, from as int) is None,
        },
{
    let mut i: usize = from;
    while i < chars.len()
        invariant
            from <= i <= chars@.len(),
            index_from(chars@, c, i as int) == index_from(chars@, c, from as int),
        decreases chars@.len() - i,
    {
        if chars[i] == c {
            return Some(i);
        }
        i += 1;
    }
    None
}

/// The first position from `from` on at which `part` stands.
pub open spec fn part_from(s: Seq<char>, part: Seq<char>, from: int) -> Option<int>
    decreases s.len() + 1 - from,
{
    if from + part.len() > s.len() {
        None
    } else if occurs_at(s, part, from) {
        Some(from)
    } else {
        part_from(s, part, from + 1)
    }
}

/// The first position from `from` on at which `part` stands.
pub fn find_part(chars: &Vec<char>, part: &Vec<char>, from: usize) -> (r: Option<usize>)
    requires
        from <= chars@.len(),
    ensures
        match r {
            Some(i) => from <= i && i + part@.len() <= chars@.len() && part_from(
                chars@,
                part@,
                from as int,
            ) == Some(i as int) && occurs_at(chars@, part@, i as int),
            None => part_from(chars@, part@, from as int) is None,
        },
{
    let total = chars.len();
    let wanted = part.len();
    let mut i: usize = from;
    while wanted <= total - i
        invariant
            from <= i <= total,
            total == chars@.len(),
            wanted == part@.len(),
            part_from(chars@, part@, i as int) == part_from(chars@, part@, from as int),
        decreases total - i,
    {
        if matches_at(chars, part, i) {
            return Some(i);
        }
        if wanted == 0 {
            assert(chars@.subrange(i as int, i as int) =~= part@);
        }
        i += 1;
    }
    None
}

/// Whether a text comes before another, character by character.
pub open spec fn before(a: Seq<char>, b: Seq<char>) -> bool
    decreases a.len(),
{
    if b.len() == 0 {
        false
    } else if a.len() == 0 {
        true
    } else if a[0] != b[0] {
        (a[0] as int) < (b[0] as int)
    } else {
        before(a.drop_first(), b.drop_first())
    }
}

/// Whether a text comes before another, character by character.
pub fn comes_before(a: &str, b: &str) -> (r: bool)
    ensures
        r == before(a@, b@),
{
    let x = to_chars(a);
    let y = to_chars(b);
    let mut i: usize = 0;
    assert(a@.skip(0) =~= a@);
    assert(b@.skip(0) =~= b@);
    while i < x.len() && i < y.len()
        invariant
            i <= x@.len(),
            i <= y@.len(),
            x@ == a@,
            y@ == b@,
            before(a@.skip(i as int), b@.skip(i as int)) == before(a@, b@),
        decreases x@.len() - i,
    {
        assert(a@.skip(i as int)[0] == x@[i as int]);
        assert(b@.skip(i as int)[0] == y@[i as int]);
        if x[i] != y[i] {
            return code(x[i]) < code(y[i]);
        }
        assert(a@.skip(i as int).drop_first() =~= a@.skip(i + 1));
        assert(b@.skip(i as int).drop_first() =~= b@.skip(i + 1));
        i += 1;
    }
    i < y.len()
}

pub proof fn lemma_before_is_total(a: Seq<char>, b: Seq<char>)
    ensures
        before(a, b) || before(b, a) || a == b,
        !(before(a, b) && before(b, a)),
        before(a, b) ==> a != b,
    decreases a.len(),
{
    if a.len() > 0 && b.len() > 0 {
        if a[0] == b[0] {
            lemma_before_is_total(a.drop_first(), b.drop_first());
            if a.drop_first() == b.drop_first() {
                assert(a =~= seq![a[0]] + a.drop_first());
                assert(b =~= seq![b[0]] + b.drop_first());
            }
        } else {
            lemma_codes_differ(a[0], b[0]);
        }
    } else if a.len() == 0 && b.len() == 0 {
        assert(a =~= b);
    }
}

proof fn lemma_codes_differ(a: char, b: char)
    requires
        a != b,
    ensures
        a as int != b as int,
{
}

pub proof fn lemma_before_is_transitive(a: Seq<char>, b: Seq<char>, c: Seq<char>)
    requires
        before(a, b),
        before(b, c),
    ensures
        before(a, c),
    decreases a.len(),
{
    if a.len() > 0 && b.len() > 0 && c.len() > 0 {
        if a[0] == b[0] && b[0] == c[0] {
            lemma_before_is_transitive(a.drop_first(), b.drop_first(), c.drop_first());
        }
    }
}

/// The number that decimal digits spell.
pub open spec fn number_of(s: Seq<char>) -> int
    decreases s.len(),
{
    if s.len() == 0 {
        0
    } else {
        10 * number_of(s.drop_last()) + (s.last() as int - '0' as int)
    }
}

/// The number that a text spells: decimal digits, with a `+` before them or not, no larger than
/// `max`.
pub open spec fn parsed_number(s: Seq<char>, max: int) -> Option<int> {
    let digits = if s.len() > 0 && s[0] == '+' {
        s.skip(1)
    } else {
        s
    };
    if digits.len() > 0 && all_digits(digits) && number_of(digits) <= max {
        Some(number_of(digits))
    } else {
        None
    }
}

proof fn lemma_number_grows(s: Seq<char>, k: int)
    requires
        all_digits(s),
        0 <= k <= s.len(),
    ensures
        0 <= number_of(s.take(k)) <= number_of(s),
    decreases s.len() - k,
{
    if k < s.len() {
        lemma_number_grows(s, k + 1);
        assert(s.take(k + 1).drop_last() =~= s.take(k));
        assert(is_digit(s[k]));
        lemma_number_not_negative(s.take(k));
    } else {
        assert(s.take(k) =~= s);
        lemma_number_not_negative(s);
    }
}

proof fn lemma_number_not_negative(s: Seq<char>)
    requires
        all_digits(s),
    ensures
        0 <= number_of(s),
    decreases s.len(),
{
    if s.len() > 0 {
        assert(is_digit(s.last()));
        assert forall|i: int| 0 <= i < s.drop_last().len() implies is_digit(
            #[trigger] s.drop_last()[i],
        ) by {
            assert(is_digit(s[i]));
        }
        lemma_number_not_negative(s.drop_last());
    }
}

/// The number that a text spells, if it is no larger than `max`.
pub fn parse_number(s: &str, max: u64) -> (r: Option<u64>)
    ensures
        match r {
            Some(v) => parsed_number(s@, max as int) == Some(v as int),
            None => parsed_number(s@, max as int) is None,
        },
{
    let chars = to_chars(s);
    let n = chars.len();
    let start: usize = if n > 0 && chars[0] == '+' {
        1
    } else {
        0
    };
    let ghost digits = s@.subrange(start as int, n as int);
    proof {
        if start == 1 {
            assert(digits =~= s@.skip(1));
        } else {
            assert(digits =~= s@);
        }
    }
    if start == n || !digits_only(&chars, start, n) {
        return None;
    }
    let mut value: u64 = 0;
    let mut i: usize = start;
    assert(digits.take(0) =~= Seq::<char>::empty());
    while i < n
        invariant
            start <= i <= n,
            n == chars@.len(),
            chars@ == s@,
            digits == s@.subrange(start as int, n as int),
            all_digits(digits),
            digits.len() > 0,
            value == number_of(digits.take(i - start)),
            value <= max,
            parsed_number(s@, max as int) == if number_of(digits) <= max {
                Some(number_of(digits))
            } else {
                None
            },
        decreases n - i,
    {
        let c = chars[i];
        proof {
            assert(digits[i - start] == c);
            assert(is_digit(digits[i - start]));
            assert(digits.take(i - start + 1).drop_last() =~= digits.take(i - start));
            lemma_number_grows(digits, i - start + 1);
        }
        let d: u64 = (code(c) - 48) as u64;
        match value.checked_mul(10) {
            None => return None,
            Some(tens) => match tens.checked_add(d) {
                None => return None,
                Some(next) => {
                    if next > max {
                        return None;
                    }
                    value = next;
                },
            },
        }
        i += 1;
    }
    assert(digits.take(n - start) =~= digits);
    Some(value)
}

proof fn lemma_decimal_digits(n: int)
    requires
        n >= 0,
    ensures
        decimal_of(n).len() > 0,
        all_digits(decimal_of(n)),
        number_of(decimal_of(n)) == n,
    decreases n,
{
    if n < 10 {
        assert(decimal_of(n).drop_last() =~= Seq::<char>::empty());
        assert(is_digit(digit(n)));
        reveal_with_fuel(number_of, 2);
    } else {
        lemma_decimal_digits(n / 10);
        assert(decimal_of(n).drop_last() =~= decimal_of(n / 10));
        assert(is_digit(digit(n % 10)));
    }
}

/// A number is read back from its decimal digits.
pub proof fn law_decimal_is_read_back(n: int, max: int)
    requires
        0 <= n <= max,
    ensures
        parsed_number(decimal_of(n), max) == Some(n),
{
    lemma_decimal_digits(n);
    assert(is_digit(decimal_of(n)[0]));
}

/// What `str::to_lowercase` makes of a text.
pub uninterp spec fn unicode_lower(s: Seq<char>) -> Seq<char>;

/// `str::to_lowercase`: a text in lower case by the rules of Unicode. Of ASCII texts it is claimed
/// that their letters come out in lower case and the rest as it is; of others only that the result
/// depends on the text alone.
#[verifier::external_body]
pub(crate) fn to_lowercase(s: &str) -> (r: String)
    ensures
        r@ == unicode_lower(s@),
        is_ascii_chars(s@) ==> r@ == lower(s@),
{
    s.to_lowercase()
}

/// A text in lower case: ASCII texts letter by letter, others as `str::to_lowercase` has them.
pub open spec fn lowered(s: Seq<char>) -> Seq<char> {
    if is_ascii_chars(s) {
        lower(s)
    } else {
        unicode_lower(s)
    }
}

/// Whether a text ends with another.
pub open spec fn has_suffix(s: Seq<char>, part: Seq<char>) -> bool {
    occurs_at(s, part, s.len() - part.len())
}

/// Whether a text begins with another.
pub open spec fn has_prefix(s: Seq<char>, part: Seq<char>) -> bool {
    occurs_at(s, part, 0)
}

/// A text without another at its end, if it ends with it.
pub open spec fn without_suffix(s: Seq<char>, part: Seq<char>) -> Seq<char> {
    if has_suffix(s, part) {
        s.take(s.len() - part.len())
    } else {
        s
    }
}

/// A text without another at its start, if it begins with it.
pub open spec fn without_prefix(s: Seq<char>, part: Seq<char>) -> Seq<char> {
    if has_prefix(s, part) {
        s.skip(part.len() as int)
    } else {
        s
    }
}

/// A text without another at its end, however often it stands there.
pub open spec fn without_suffixes(s: Seq<char>, part: Seq<char>) -> Seq<char>
    decreases s.len(),
{
    if part.len() > 0 && has_suffix(s, part) {
        without_suffixes(s.take(s.len() - part.len()), part)
    } else {
        s
    }
}

/// A text without another at its end, if it ends with it.
pub fn strip_suffix(s: &str, part: &str) -> (r: Option<String>)
    ensures
        match r {
            Some(t) => has_suffix(s@, part@) && t@ == s@.take(s@.len() - part@.len()),
            None => !has_suffix(s@, part@),
        },
{
    let chars = to_chars(s);
    let wanted = to_chars(part);
    if wanted.len() <= chars.len() && matches_at(&chars, &wanted, chars.len() - wanted.len()) {
        let r = from_chars(&chars, 0, chars.len() - wanted.len());
        assert(r@ =~= s@.take(s@.len() - part@.len()));
        Some(r)
    } else {
        None
    }
}

/// A text without another at its end, or as it is.
pub fn cut_suffix(s: &str, part: &str) -> (r: String)
    ensures
        r@ == without_suffix(s@, part@),
{
    match strip_suffix(s, part) {
        Some(t) => t,
        None => s.to_owned(),
    }
}

/// A text without another at its start, if it begins with it.
pub fn strip_prefix(s: &str, part: &str) -> (r: Option<String>)
    ensures
        match r {
            Some(t) => has_prefix(s@, part@) && t@ == s@.skip(part@.len() as int),
            None => !has_prefix(s@, part@),
        },
{
    let chars = to_chars(s);
    let wanted = to_chars(part);
    if matches_at(&chars, &wanted, 0) {
        let r = from_chars(&chars, wanted.len(), chars.len());
        assert(r@ =~= s@.skip(part@.len() as int));
        Some(r)
    } else {
        None
    }
}

/// A text without another at its start, or as it is.
pub fn cut_prefix(s: &str, part: &str) -> (r: String)
    ensures
        r@ == without_prefix(s@, part@),
{
    match strip_prefix(s, part) {
        Some(t) => t,
        None => s.to_owned(),
    }
}

/// A text without another at its end, however often it stands there.
pub fn cut_suffixes(s: &str, part: &str) -> (r: String)
    requires
        part@.len() > 0,
    ensures
        r@ == without_suffixes(s@, part@),
{
    let mut rest = s.to_owned();
    loop
        invariant
            part@.len() > 0,
            without_suffixes(rest@, part@) == without_suffixes(s@, part@),
        ensures
            rest@ == without_suffixes(s@, part@),
        decreases rest@.len(),
    {
        match strip_suffix(rest.as_str(), part) {
            Some(t) => {
                rest = t;
            },
            None => {
                break;
            },
        }
    }
    rest
}

/// A text with every occurrence of `from`, found from the left, replaced.
pub open spec fn replaced(s: Seq<char>, from: Seq<char>, to: Seq<char>) -> Seq<char>
    decreases s.len(),
{
    match part_from(s, from, 0) {
        Some(i) => if from.len() > 0 && 0 <= i && i + from.len() <= s.len() {
            s.take(i) + to + replaced(s.skip(i + from.len()), from, to)
        } else {
            s
        },
        None => s,
    }
}

/// A text with every occurrence of `from`, found from the left, replaced.
pub fn replace(s: &str, from: &str, to: &str) -> (r: String)
    requires
        from@.len() > 0,
    ensures
        r@ == replaced(s@, from@, to@),
{
    let wanted = to_chars(from);
    let mut out = String::new();
    let mut rest = to_chars(s);
    loop
        invariant
            from@.len() > 0,
            wanted@ == from@,
            out@ + replaced(rest@, from@, to@) == replaced(s@, from@, to@),
        ensures
            out@ + rest@ == replaced(s@, from@, to@),
        decreases rest@.len(),
    {
        match find_part(&rest, &wanted, 0) {
            Some(i) => {
                let ghost whole = rest@;
                let ghost before = out@;
                let head = from_chars(&rest, 0, i);
                out.append(head.as_str());
                out.append(to);
                let total = rest.len();
                let tail = from_chars(&rest, i + wanted.len(), total);
                rest = to_chars(tail.as_str());
                proof {
                    assert(head@ =~= whole.take(i as int));
                    assert(rest@ =~= whole.skip(i + from@.len()));
                    assert(out@ + replaced(rest@, from@, to@) =~= before + replaced(
                        whole,
                        from@,
                        to@,
                    ));
                }
            },
            None => {
                break;
            },
        }
    }
    out.append(from_chars(&rest, 0, rest.len()).as_str());
    assert(rest@.subrange(0, rest@.len() as int) =~= rest@);
    out
}

/// The last piece of a text behind a separator.
pub open spec fn last_piece(s: Seq<char>, sep: char) -> Seq<char> {
    pieces(s, sep).last()
}

/// The last piece of a text behind a separator.
pub fn after_last(s: &str, sep: char) -> (r: String)
    ensures
        r@ == last_piece(s@, sep),
{
    let all = split(s, sep);
    let n = all.len();
    assert(views(all@)[n - 1] == all@[n - 1]@);
    all[n - 1].clone()
}

/// The last piece is what follows the last separator, whatever stands before it.
pub proof fn law_last_piece_ignores_the_front(front: Seq<char>, s: Seq<char>, sep: char)
    ensures
        last_piece(front.push(sep) + s, sep) == last_piece(s, sep),
    decreases s.len(),
{
    let whole = front.push(sep) + s;
    lemma_pieces_nonempty(whole.drop_last(), sep);
    if s.len() > 0 {
        assert(whole.drop_last() =~= front.push(sep) + s.drop_last());
        lemma_pieces_nonempty(s.drop_last(), sep);
        law_last_piece_ignores_the_front(front, s.drop_last(), sep);
    } else {
        assert(whole =~= front.push(sep));
        assert(s =~= Seq::<char>::empty());
    }
}

proof fn lemma_pieces_are_ascii(s: Seq<char>, sep: char)
    requires
        is_ascii_chars(s),
    ensures
        forall|i: int|
            0 <= i < pieces(s, sep).len() ==> is_ascii_chars(#[trigger] pieces(s, sep)[i]),
    decreases s.len(),
{
    if s.len() > 0 {
        let short = s.drop_last();
        assert(is_ascii_chars(short)) by {
            assert forall|i: int| 0 <= i < short.len() implies '\0' <= #[trigger] short[i]
                <= '\u{7f}' by {
                assert(short[i] == s[i]);
            }
        }
        lemma_pieces_are_ascii(short, sep);
        lemma_pieces_nonempty(short, sep);
        let last = pieces(short, sep).last();
        assert(is_ascii_chars(pieces(short, sep)[pieces(short, sep).len() - 1]));
        let c = s[s.len() - 1];
        assert(is_ascii_chars(last.push(c)));
        assert(is_ascii_chars(Seq::<char>::empty()));
    }
}

proof fn lemma_without_suffixes_is_ascii(s: Seq<char>, part: Seq<char>)
    requires
        is_ascii_chars(s),
    ensures
        is_ascii_chars(without_suffixes(s, part)),
    decreases s.len(),
{
    if part.len() > 0 && has_suffix(s, part) {
        let short = s.take(s.len() - part.len());
        assert forall|i: int| 0 <= i < short.len() implies '\0' <= #[trigger] short[i]
            <= '\u{7f}' by {
            assert(short[i] == s[i]);
        }
        lemma_without_suffixes_is_ascii(short, part);
    }
}

/// What is cut out of an ASCII text is ASCII: its last piece, and what is left of it without a
/// prefix and without suffixes.
pub proof fn law_parts_of_ascii_are_ascii(
    s: Seq<char>,
    sep: char,
    prefix: Seq<char>,
    suffix: Seq<char>,
)
    requires
        is_ascii_chars(s),
    ensures
        is_ascii_chars(last_piece(s, sep)),
        is_ascii_chars(without_prefix(s, prefix)),
        is_ascii_chars(without_suffixes(without_prefix(s, prefix), suffix)),
{
    lemma_pieces_are_ascii(s, sep);
    lemma_pieces_nonempty(s, sep);
    assert(is_ascii_chars(pieces(s, sep)[pieces(s, sep).len() - 1]));
    let rest = without_prefix(s, prefix);
    assert forall|i: int| 0 <= i < rest.len() implies '\0' <= #[trigger] rest[i] <= '\u{7f}' by {
        if has_prefix(s, prefix) {
            assert(rest[i] == s[i + prefix.len()]);
        }
    }
    lemma_without_suffixes_is_ascii(rest, suffix);
}

pub(crate) proof fn lemma_pieces_of_lower(s: Seq<char>, sep: char)
    requires
        !('A' <= sep <= 'Z'),
        !('a' <= sep <= 'z'),
    ensures
        pieces(lower(s), sep).len() == pieces(s, sep).len(),
        last_piece(lower(s), sep) == lower(last_piece(s, sep)),
    decreases s.len(),
{
    lemma_pieces_nonempty(s, sep);
    if s.len() > 0 {
        let short = s.drop_last();
        assert(lower(s).drop_last() =~= lower(short));
        lemma_pieces_of_lower(short, sep);
        lemma_pieces_nonempty(short, sep);
        lemma_pieces_nonempty(lower(short), sep);
        let c = s.last();
        assert(lower(s).last() == lower_char(c));
        if c == sep {
            assert(lower(Seq::<char>::empty()) =~= Seq::<char>::empty());
        } else {
            let piece = last_piece(short, sep);
            assert(lower(piece.push(c)) =~= lower(piece).push(lower_char(c)));
        }
    } else {
        assert(lower(s) =~= s);
    }
}

} // verus!
