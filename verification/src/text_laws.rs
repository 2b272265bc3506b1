//! What the small tools for texts, paths, dates and numbers do, seen from their results.

use vstd::prelude::*;

use crate::calendar;
use crate::calendar::Date;
use crate::decimals;
use crate::paths;
use crate::text;

verus! {

// ---------- texts ----------

/// Whether a text is nothing but whitespace.
pub open spec fn blank(s: Seq<char>) -> bool {
    forall|i: int| 0 <= i < s.len() ==> text::is_whitespace(#[trigger] s[i])
}

proof fn lemma_trim_start(s: Seq<char>)
    ensures
        ({
            let t = text::trim_start(s);
            let n = s.len() - t.len();
            &&& 0 <= n
            &&& t == s.skip(n)
            &&& blank(s.take(n))
            &&& t.len() > 0 ==> !text::is_whitespace(t[0])
        }),
    decreases s.len(),
{
    let t = text::trim_start(s);
    if s.len() > 0 && text::is_whitespace(s[0]) {
        let rest = s.drop_first();
        lemma_trim_start(rest);
        let n = s.len() - t.len();
        assert(s.skip(n) =~= rest.skip(n - 1));
        assert forall|i: int| 0 <= i < n implies text::is_whitespace(#[trigger] s.take(n)[i]) by {
            if i > 0 {
                assert(rest.take(n - 1)[i - 1] == s[i]);
            }
        }
    } else {
        assert(s.skip(0) =~= s);
    }
}

proof fn lemma_trim_end(s: Seq<char>)
    ensures
        ({
            let t = text::trim_end(s);
            let n = t.len() as int;
            &&& n <= s.len()
            &&& t == s.take(n)
            &&& blank(s.skip(n))
            &&& n > 0 ==> !text::is_whitespace(t[n - 1])
        }),
    decreases s.len(),
{
    let t = text::trim_end(s);
    let n = t.len() as int;
    if s.len() > 0 && text::is_whitespace(s.last()) {
        let rest = s.drop_last();
        lemma_trim_end(rest);
        assert(s.take(n) =~= rest.take(n));
        assert forall|i: int| 0 <= i < s.len() - n implies text::is_whitespace(
            #[trigger] s.skip(n)[i],
        ) by {
            if i < rest.len() - n {
                assert(rest.skip(n)[i] == s[n + i]);
            }
        }
    } else {
        assert(s.take(n) =~= s);
    }
}

/// Trimming takes whitespace off both ends, all of it and nothing else.
pub proof fn law_trimming_takes_blanks_off_the_ends(s: Seq<char>)
    ensures
        exists|front: Seq<char>, back: Seq<char>|
            #![trigger front + text::trimmed(s) + back]
            blank(front) && blank(back) && s == front + text::trimmed(s) + back,
        text::trimmed(s).len() > 0 ==> !text::is_whitespace(text::trimmed(s)[0])
            && !text::is_whitespace(text::trimmed(s).last()),
{
    lemma_trim_start(s);
    let t = text::trim_start(s);
    lemma_trim_end(t);
    let u = text::trimmed(s);
    let front = s.take(s.len() - t.len());
    let back = t.skip(u.len() as int);
    assert(s =~= front + u + back);
    if u.len() > 0 {
        assert(u[0] == t[0]);
    }
}

/// Blanks, tabs and ends of lines are whitespace; letters, digits and signs of ASCII are not.
pub proof fn law_whitespace(c: char)
    ensures
        c == ' ' || c == '\t' || c == '\n' || c == '\r' ==> text::is_whitespace(c),
        '!' <= c <= '~' ==> !text::is_whitespace(c),
{
}

/// The pieces of a text put together again with the separator between them.
pub open spec fn put_together(pieces: Seq<Seq<char>>, sep: char) -> Seq<char>
    decreases pieces.len(),
{
    if pieces.len() == 0 {
        Seq::empty()
    } else if pieces.len() == 1 {
        pieces[0]
    } else {
        put_together(pieces.drop_last(), sep) + seq![sep] + pieces.last()
    }
}

/// Splitting a text at a separator loses nothing: the pieces hold no separator, and put together with it
/// they are the text.
pub proof fn law_pieces_make_the_text(s: Seq<char>, sep: char)
    ensures
        text::pieces(s, sep).len() > 0,
        put_together(text::pieces(s, sep), sep) == s,
        forall|i: int|
            0 <= i < text::pieces(s, sep).len() ==> !(#[trigger] text::pieces(s, sep)[i]).contains(
                sep,
            ),
    decreases s.len(),
{
    let all = text::pieces(s, sep);
    if s.len() > 0 {
        let short = s.drop_last();
        law_pieces_make_the_text(short, sep);
        let before = text::pieces(short, sep);
        if s.last() == sep {
            assert(all.drop_last() =~= before);
            assert(put_together(before, sep) + seq![sep] + Seq::<char>::empty() =~= s);
        } else {
            let last = before.last();
            assert(all.drop_last() =~= before.drop_last());
            assert(all.last() == last.push(s.last()));
            if before.len() == 1 {
                assert(all[0] =~= s);
            } else {
                assert(put_together(all, sep) =~= put_together(before, sep).push(s.last()));
                assert(short.push(s.last()) =~= s);
            }
            assert forall|i: int| 0 <= i < all.len() implies !(#[trigger] all[i]).contains(sep) by {
                assert(!before[i].contains(sep));
                if i == all.len() - 1 {
                    if all[i].contains(sep) {
                        let k = choose|k: int| 0 <= k < all[i].len() && all[i][k] == sep;
                        assert(k < last.len());
                        assert(last[k] == sep);
                        assert(last.contains(sep));
                    }
                }
            }
        }
    } else {
        assert(all[0] =~= s);
    }
}

/// Of two different texts the one is before that has the smaller character where they first differ, or
/// ends there.
pub proof fn law_first_difference_decides(a: Seq<char>, b: Seq<char>, k: int)
    requires
        0 <= k <= a.len(),
        k <= b.len(),
        a.take(k) == b.take(k),
    ensures
        k < a.len() && k < b.len() && a[k] != b[k] ==> (text::before(a, b) <==> (a[k] as int) < (
        b[k] as int)),
        k == a.len() && k < b.len() ==> text::before(a, b),
        k == b.len() ==> !text::before(a, b),
    decreases k,
{
    if k > 0 {
        assert(a[0] == a.take(k)[0] && b[0] == b.take(k)[0]);
        let x = a.drop_first();
        let y = b.drop_first();
        assert(x.take(k - 1) =~= a.take(k).drop_first());
        assert(y.take(k - 1) =~= b.take(k).drop_first());
        law_first_difference_decides(x, y, k - 1);
    }
}

/// A number in a text is made of digits, with a `+` before them at most; anything else is none.
pub proof fn law_numbers_are_digits(s: Seq<char>, max: int, i: int)
    ensures
        0 <= i < s.len() && !('0' <= s[i] <= '9') && !(i == 0 && s[0] == '+') ==> text::parsed_number(
            s,
            max,
        ) is None,
        s.len() == 0 ==> text::parsed_number(s, max) is None,
        text::parsed_number(s, max) matches Some(n) ==> n <= max,
        s.len() > 0 && s[0] != '+' ==> text::parsed_number(seq!['+'] + s, max) == text::parsed_number(
            s,
            max,
        ),
{
    let digits = if s.len() > 0 && s[0] == '+' {
        s.skip(1)
    } else {
        s
    };
    if 0 <= i < s.len() && !('0' <= s[i] <= '9') && !(i == 0 && s[0] == '+') {
        let k = if s[0] == '+' {
            i - 1
        } else {
            i
        };
        assert(digits[k] == s[i]);
        assert(!text::is_digit(digits[k]));
    }
    assert((seq!['+'] + s).skip(1) =~= s);
}

/// Letters of either case are the same in lower case, and nothing but the letters of ASCII changes.
pub proof fn law_lower_case(s: Seq<char>, i: int)
    requires
        0 <= i < s.len(),
    ensures
        text::lower(s).len() == s.len(),
        !('A' <= s[i] <= 'Z') ==> text::lower(s)[i] == s[i],
        'A' <= s[i] <= 'Z' ==> 'a' <= text::lower(s)[i] <= 'z' && text::lower(s)[i] as int
            - 'a' as int == s[i] as int - 'A' as int,
        text::lower(text::lower(s)) == text::lower(s),
{
    assert forall|k: int| 0 <= k < s.len() implies text::lower_char(
        text::lower_char(#[trigger] s[k]),
    ) == text::lower_char(s[k]) by {}
    assert(text::lower(text::lower(s)) =~= text::lower(s));
}

pub(crate) proof fn lemma_part_from(s: Seq<char>, part: Seq<char>, from: int)
    requires
        0 <= from,
    ensures
        match text::part_from(s, part, from) {
            Some(i) => from <= i && text::occurs_at(s, part, i) && forall|j: int|
                from <= j < i ==> !#[trigger] text::occurs_at(s, part, j),
            None => forall|j: int| from <= j ==> !#[trigger] text::occurs_at(s, part, j),
        },
    decreases s.len() + 1 - from,
{
    if from + part.len() <= s.len() && !text::occurs_at(s, part, from) {
        lemma_part_from(s, part, from + 1);
    }
}

/// Replacing changes a text without the part not at all, and else begins with the first place where the
/// part stands and goes on behind it.
pub proof fn law_replacing_begins_at_the_first_place(
    s: Seq<char>,
    from: Seq<char>,
    to: Seq<char>,
    at: int,
)
    requires
        from.len() > 0,
    ensures
        !text::has_part(s, from) ==> text::replaced(s, from, to) == s,
        text::occurs_at(s, from, at) && (forall|j: int|
            0 <= j < at ==> !#[trigger] text::occurs_at(s, from, j)) ==> text::replaced(s, from, to)
            == s.take(at) + to + text::replaced(s.skip(at + from.len()), from, to),
{
    lemma_part_from(s, from, 0);
    if let Some(i) = text::part_from(s, from, 0) {
        assert(text::occurs_at(s, from, i));
        if text::occurs_at(s, from, at) && i < at {
            assert(text::occurs_at(s, from, i));
        }
    }
}

/// What is left without an ending does not end so any more, and the endings are all that was taken.
pub proof fn law_endings_are_taken_off(s: Seq<char>, part: Seq<char>)
    requires
        part.len() > 0,
    ensures
        !text::has_suffix(text::without_suffixes(s, part), part),
        !text::has_suffix(s, part) ==> text::without_suffixes(s, part) == s,
        text::without_suffixes(s + part, part) == text::without_suffixes(s, part),
        text::without_suffix(s + part, part) == s,
        text::without_prefix(part + s, part) == s,
    decreases s.len(),
{
    let longer = s + part;
    assert(longer.subrange(longer.len() - part.len(), longer.len() as int) =~= part);
    assert(longer.take(longer.len() - part.len()) =~= s);
    let other = part + s;
    assert(other.subrange(0, part.len() as int) =~= part);
    assert(other.skip(part.len() as int) =~= s);
    if text::has_suffix(s, part) {
        law_endings_are_taken_off(s.take(s.len() - part.len()), part);
    }
}

// ---------- paths ----------

/// A path is inside a folder where the folder is its beginning and a `/` follows; a name that only
/// begins alike is not.
pub proof fn law_inside_a_folder(root: Seq<char>, rest: Seq<char>)
    requires
        root.len() > 0,
        root.last() != '/',
    ensures
        paths::within(root, root),
        paths::within(root + seq!['/'] + rest, root),
        rest.len() > 0 && rest[0] != '/' ==> !paths::within(root + rest, root),
        paths::joined(root, rest) == root + seq!['/'] + rest,
        paths::joined(root.push('/'), rest) == root + seq!['/'] + rest,
        paths::within(paths::joined(root, rest), root),
{
    let path = root + seq!['/'] + rest;
    assert(root.subrange(0, root.len() as int) =~= root);
    assert(path.subrange(0, root.len() as int) =~= root);
    assert(path[root.len() as int] == '/');
    if rest.len() > 0 {
        assert((root + rest)[root.len() as int] == rest[0]);
    }
    assert(root.push('/') + rest =~= path);
}

/// A name stands for an entry of its folder only if it leads nowhere else.
pub proof fn law_plain_names_lead_nowhere(name: Seq<char>)
    ensures
        paths::plain_name(name) ==> name.len() > 0 && name != seq!['.'] && name != seq!['.', '.']
            && !name.contains('/') && !name.contains('\\') && !name.contains('\0'),
        name.len() > 0 && name != seq!['.'] && name != seq!['.', '.'] && !name.contains('/')
            && !name.contains('\\') && !name.contains('\0') ==> paths::plain_name(name),
{
    reveal_strlit(".");
    reveal_strlit("..");
    assert("."@ =~= seq!['.']);
    assert(".."@ =~= seq!['.', '.']);
}

/// The first root under which something inside the roots is found decides; what lies outside is told
/// apart from what is not there.
pub proof fn law_first_found_inside_decides(
    roots: Seq<Seq<char>>,
    found: Seq<Option<paths::FoundView>>,
    n: int,
)
    requires
        0 <= n <= found.len(),
    ensures
        match paths::first_inside(roots, found, n) {
            Ok(f) => exists|k: int|
                0 <= k < n && #[trigger] found[k] == Some(f) && paths::within_any(f.path, roots)
                    && forall|j: int|
                    0 <= j < k ==> (#[trigger] found[j] matches Some(g) ==> !paths::within_any(
                        g.path,
                        roots,
                    )),
            Err(why) => {
                &&& forall|j: int|
                    0 <= j < n ==> (#[trigger] found[j] matches Some(g) ==> !paths::within_any(
                        g.path,
                        roots,
                    ))
                &&& why == (if exists|j: int| 0 <= j < n && #[trigger] found[j] is Some {
                    paths::PathRejection::OutsideRoots
                } else {
                    paths::PathRejection::NotFound
                })
            },
        },
    decreases n,
{
    if n > 0 {
        law_first_found_inside_decides(roots, found, n - 1);
        match paths::first_inside(roots, found, n - 1) {
            Ok(f) => {
                let k = choose|k: int|
                    0 <= k < n - 1 && #[trigger] found[k] == Some(f) && paths::within_any(
                        f.path,
                        roots,
                    ) && forall|j: int|
                        0 <= j < k ==> (#[trigger] found[j] matches Some(g) ==> !paths::within_any(
                            g.path,
                            roots,
                        ));
                assert(found[k] == Some(f));
            },
            Err(why) => {
                assert(found[n - 1] == found[n - 1]);
                if exists|j: int| 0 <= j < n - 1 && #[trigger] found[j] is Some {
                    let j = choose|j: int| 0 <= j < n - 1 && #[trigger] found[j] is Some;
                    assert(found[j] is Some);
                }
            },
        }
    }
}

// ---------- dates ----------

/// Days are counted from the first of January 1970, one for each date: the next day of a month, the first
/// of the next month behind the last of a month, and the first of January behind the last of December.
pub proof fn law_days_are_counted_one_by_one(year: i64, month: i64, day: i64)
    requires
        -1_000_000_000 < year < 1_000_000_000,
        1 <= month <= 12,
        1 <= day < 40,
    ensures
        calendar::day_number(Date { year: 1970, month: 1, day: 1 }) == 0,
        calendar::day_number(Date { year, month, day: (day + 1) as i64 }) == calendar::day_number(
            Date { year, month, day },
        ) + 1,
        month < 12 ==> calendar::day_number(Date { year, month: (month + 1) as i64, day: 1 })
            == calendar::day_number(
            Date {
                year,
                month,
                day: (if month == 2 {
                    if year as int % 4 == 0 && (year as int % 100 != 0 || year as int % 400 == 0) {
                        29int
                    } else {
                        28int
                    }
                } else if month == 4 || month == 6 || month == 9 || month == 11 {
                    30int
                } else {
                    31int
                }) as i64,
            },
        ) + 1,
        calendar::day_number(Date { year: (year + 1) as i64, month: 1, day: 1 })
            == calendar::day_number(Date { year, month: 12, day: 31 }) + 1,
{
    reveal_with_fuel(calendar::days_before_month, 13);
    calendar::lemma_leap_step(year as int);
}

/// A local day begins at midnight by the local clock, which is behind the world's by the offset.
pub proof fn law_local_day_holds_the_moment(ms: int, tz_offset_minutes: int)
    requires
        ms >= 0,
    ensures
        ({
            let local = ms / 1000 - 60 * tz_offset_minutes;
            let day = calendar::spec_local_day(ms, tz_offset_minutes);
            day * 86_400 <= local < (day + 1) * 86_400
        }),
{
}

proof fn lemma_digits(n: int)
    requires
        n >= 0,
    ensures
        text::all_digits(text::decimal_of(n)),
        text::number_of(text::decimal_of(n)) == n,
        text::decimal_of(n).len() >= 1,
    decreases n,
{
    let s = text::decimal_of(n);
    if n >= 10 {
        lemma_digits(n / 10);
        assert(s.drop_last() =~= text::decimal_of(n / 10));
    } else {
        reveal_with_fuel(text::number_of, 2);
        assert(s.drop_last() =~= Seq::empty());
    }
}

/// The time of a day is told as hours, minutes and seconds of two digits each.
#[verifier::spinoff_prover]
pub proof fn law_time_of_day(hours: int, minutes: int, seconds: int)
    requires
        0 <= hours < 24,
        0 <= minutes < 60,
        0 <= seconds < 60,
    ensures
        calendar::time_text(3600 * hours + 60 * minutes + seconds) == calendar::padded(hours, 2)
            + seq![':'] + calendar::padded(minutes, 2) + seq![':'] + calendar::padded(seconds, 2),
{
    lemma_time_in_parts(hours, minutes, seconds);
}

proof fn lemma_time_in_parts(hours: int, minutes: int, seconds: int)
    requires
        0 <= hours < 24,
        0 <= minutes < 60,
        0 <= seconds < 60,
    ensures
        ({
            let t = 3600 * hours + 60 * minutes + seconds;
            t / 3600 == hours && (t % 3600) / 60 == minutes && t % 60 == seconds
        }),
{
    let t = 3600 * hours + 60 * minutes + seconds;
    let rest = 60 * minutes + seconds;
    vstd::arithmetic::div_mod::lemma_fundamental_div_mod_converse(t, 3600, hours, rest);
    vstd::arithmetic::div_mod::lemma_fundamental_div_mod_converse(rest, 60, minutes, seconds);
    vstd::arithmetic::div_mod::lemma_fundamental_div_mod_converse(
        t,
        60,
        60 * hours + minutes,
        seconds,
    );
}

/// A number below a hundred has two digits, a number below ten thousand four where four are asked for:
/// zeros stand before it, and its digits end it.
pub proof fn law_padded_numbers(n: int, width: int)
    requires
        n >= 0,
    ensures
        calendar::padded(n, width).len() >= width,
        text::has_suffix(calendar::padded(n, width), text::decimal_of(n)),
        text::decimal_of(n).len() <= width ==> calendar::padded(n, width).len() == width,
        forall|i: int|
            0 <= i < calendar::padded(n, width).len() - text::decimal_of(n).len() ==> #[trigger]
            calendar::padded(n, width)[i] == '0',
{
    let p = calendar::padded(n, width);
    let d = text::decimal_of(n);
    lemma_digits(n);
    assert(p.subrange(p.len() - d.len(), p.len() as int) =~= d);
}

/// A date is told as the year of four digits, the month and the day of two, with dashes between.
pub proof fn law_date_in_words(d: Date)
    requires
        d.year >= 0,
    ensures
        calendar::date_text(d) == calendar::padded(d.year as int, 4) + seq!['-'] + calendar::padded(
            d.month as int,
            2,
        ) + seq!['-'] + calendar::padded(d.day as int, 2),
{
}

// ---------- numbers ----------

/// Rounding goes to the nearest whole number, and to the even one between two.
pub proof fn law_rounding_goes_to_the_nearest(n: int, d: int)
    requires
        d > 0,
    ensures
        -d <= 2 * (decimals::half_even(n, d) * d - n) <= d,
        2 * (decimals::half_even(n, d) * d - n) == d || 2 * (decimals::half_even(n, d) * d - n) == -d
            ==> decimals::half_even(n, d) % 2 == 0,
{
    let q = n / d;
    let r = n % d;
    vstd::arithmetic::div_mod::lemma_fundamental_div_mod(n, d);
    vstd::arithmetic::div_mod::lemma_mod_bound(n, d);
    assert(q * d == d * q) by (nonlinear_arith);
    assert((q + 1) * d == d * q + d) by (nonlinear_arith);
    assert(n == d * q + r);
    if decimals::half_even(n, d) == q + 1 {
        assert(2 * ((q + 1) * d - n) == 2 * d - 2 * r);
    } else {
        assert(2 * (q * d - n) == -2 * r);
    }
}

/// Sizes are told in bytes below a mebibyte, in mebibytes with one decimal below a gibibyte, and in
/// gibibytes with two decimals from there on, each rounded to the nearest.
pub proof fn law_sizes_are_rounded(bytes: int)
    requires
        0 <= bytes < 9_007_199_254_740_992,
    ensures
        bytes < 1024 * 1024 ==> decimals::spec_format_bytes(bytes) == text::decimal_of(bytes)
            + " B"@,
        1024 * 1024 <= bytes < 1024 * 1024 * 1024 ==> exists|tenths: int|
            #![trigger decimals::with_tenths(tenths)]
            decimals::spec_format_bytes(bytes) == decimals::with_tenths(tenths) + " MB"@ && -1_048_576
                <= 2 * (tenths * 1_048_576 - 10 * bytes) <= 1_048_576,
        1024 * 1024 * 1024 <= bytes ==> exists|hundredths: int|
            #![trigger decimals::with_hundredths(hundredths)]
            decimals::spec_format_bytes(bytes) == decimals::with_hundredths(hundredths) + " GB"@
                && -1_073_741_824 <= 2 * (hundredths * 1_073_741_824 - 100 * bytes) <= 1_073_741_824,
{
    assert(decimals::extra_digits(bytes) == 0);
    assert(decimals::two_to(0) == 1);
    assert(bytes / 1 == bytes && bytes % 1 == 0);
    assert(decimals::half_even(bytes, 1) == bytes);
    assert(decimals::to_double(bytes) == bytes);
    law_rounding_goes_to_the_nearest(10 * bytes, 1_048_576);
    law_rounding_goes_to_the_nearest(100 * bytes, 1_073_741_824);
    let tenths = decimals::half_even(10 * bytes, 1_048_576);
    let hundredths = decimals::half_even(100 * bytes, 1_073_741_824);
    assert(decimals::with_tenths(tenths) == decimals::with_tenths(tenths));
    assert(decimals::with_hundredths(hundredths) == decimals::with_hundredths(hundredths));
}

/// Decimals stand behind a point: one or two digits, the whole before it.
pub proof fn law_decimals_stand_behind_a_point(whole: int, part: int)
    requires
        whole >= 0,
    ensures
        0 <= part < 10 ==> decimals::with_tenths(10 * whole + part) == text::decimal_of(whole) + "."@
            + text::decimal_of(part),
        10 <= part < 100 ==> decimals::with_hundredths(100 * whole + part) == text::decimal_of(whole)
            + "."@ + text::decimal_of(part),
        0 <= part < 10 ==> decimals::with_hundredths(100 * whole + part) == text::decimal_of(whole)
            + "."@ + ("0"@ + text::decimal_of(part)),
{
    assert(0 <= part < 10 ==> (10 * whole + part) / 10 == whole && (10 * whole + part) % 10 == part);
    assert(0 <= part < 100 ==> (100 * whole + part) / 100 == whole && (100 * whole + part) % 100
        == part);
}

/// A date before the year 0 has the sign and three digits for its year.
pub proof fn law_years_before_the_year_zero(d: Date)
    requires
        d.year < 0,
    ensures
        calendar::date_text(d) == seq!['-'] + calendar::padded(-(d.year as int), 3) + seq!['-']
            + calendar::padded(d.month as int, 2) + seq!['-'] + calendar::padded(d.day as int, 2),
{
}

/// The dates that exist: months have 31 or 30 days, February 28, and 29 in leap years.
#[verifier::spinoff_prover]
pub proof fn law_dates_that_exist(d: Date)
    ensures
        calendar::valid_date(d) <==> {
            ||| (d.month == 1 || d.month == 3 || d.month == 5 || d.month == 7 || d.month == 8 || d.month
                == 10 || d.month == 12) && 1 <= d.day <= 31
            ||| (d.month == 4 || d.month == 6 || d.month == 9 || d.month == 11) && 1 <= d.day <= 30
            ||| d.month == 2 && 1 <= d.day <= 28
            ||| d.month == 2 && d.day == 29 && calendar::is_leap(d.year as int)
        },
{
}

/// Milliseconds are told in whole seconds, the rest left off on either side of zero.
pub proof fn law_whole_seconds(ms: int)
    ensures
        ms >= 0 ==> 1000 * calendar::seconds_of(ms) <= ms < 1000 * calendar::seconds_of(ms) + 1000,
        ms < 0 ==> 1000 * calendar::seconds_of(ms) - 1000 < ms <= 1000 * calendar::seconds_of(ms),
{
}

proof fn lemma_double_of_small(n: int)
    requires
        0 <= n < 9_007_199_254_740_992,
    ensures
        decimals::to_double(n) == n,
{
    assert(decimals::extra_digits(n) == 0);
    assert(decimals::two_to(0) == 1);
    assert(n / 1 == n && n % 1 == 0);
}

/// A count of weights below a billion is told in millions, rounded to the nearest.
pub proof fn law_weights_in_millions(count: int)
    requires
        0 <= count < 1_000_000_000,
    ensures
        exists|millions: int|
            -500_000 <= 1_000_000 * millions - count <= 500_000 && decimals::spec_format_parameters(count)
                == #[trigger] text::decimal_of(millions) + " млн"@,
{
    lemma_double_of_small(count);
    let millions = decimals::half_even(count, 1_000_000);
    law_rounding_goes_to_the_nearest(count, 1_000_000);
    assert(decimals::spec_format_parameters(count) == text::decimal_of(millions) + " млн"@);
}

proof fn lemma_two_to_grows(j: int, k: int)
    requires
        0 <= j <= k,
    ensures
        1 <= decimals::two_to(j) <= decimals::two_to(k),
    decreases k,
{
    if k > j {
        lemma_two_to_grows(j, k - 1);
    } else if k > 0 {
        lemma_two_to_grows(j - 1, k - 1);
    }
}

proof fn lemma_two_to_29()
    ensures
        decimals::two_to(29) == 536_870_912,
{
    reveal_with_fuel(decimals::two_to, 31);
}

proof fn lemma_quotient_scale(c: int, k: int)
    requires
        0 <= c < 9_007_199_254_740_992,
        29 <= k,
    ensures
        29 <= decimals::quotient_scale(c, k) <= k,
    decreases k,
{
    lemma_two_to_29();
    assert(c * decimals::two_to(29) < 9_007_199_254_740_992_000_000_000) by (nonlinear_arith)
        requires
            0 <= c < 9_007_199_254_740_992,
            decimals::two_to(29) == 536_870_912,
    ;
    if k > 29 {
        lemma_quotient_scale(c, k - 1);
    }
}

/// A count of weights from a billion on is told in billions with two decimals, which are the nearest but for
/// the rounding of the quotient itself.
#[verifier::spinoff_prover]
pub proof fn law_weights_in_billions(count: int)
    requires
        1_000_000_000 <= count < 9_007_199_254_740_992,
    ensures
        exists|hundredths: int|
            -500_000_100 <= 1_000_000_000 * hundredths - 100 * count <= 500_000_100
                && decimals::spec_format_parameters(count) == #[trigger] decimals::with_hundredths(
                hundredths,
            ) + " млрд"@,
{
    lemma_double_of_small(count);
    lemma_quotient_scale(count, 52);
    lemma_two_to_29();
    let k = decimals::quotient_scale(count, 52);
    lemma_two_to_grows(29, k);
    let p = decimals::two_to(k);
    let m = decimals::half_even(count * p, 1_000_000_000);
    law_rounding_goes_to_the_nearest(count * p, 1_000_000_000);
    let h = decimals::half_even(100 * m, p);
    law_rounding_goes_to_the_nearest(100 * m, p);
    assert(-500_000_100 <= 1_000_000_000 * h - 100 * count <= 500_000_100) by (nonlinear_arith)
        requires
            p >= 536_870_912,
            -1_000_000_000 <= 2 * (m * 1_000_000_000 - count * p) <= 1_000_000_000,
            -p <= 2 * (h * p - 100 * m) <= p,
    ;
    assert(decimals::spec_format_parameters(count) == decimals::with_hundredths(h) + " млрд"@);
}

} // verus!
