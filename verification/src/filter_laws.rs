//! What holds of every filter: a glob stands for just the names that it spells, a date for its
//! day, and what is left of a catalog is what passes and what leads there.
use vstd::prelude::*;

use crate::calendar::{
    days_to, days_to_month, days_to_year, is_leap, lemma_days_bounded, moment_text, month_len,
    shows_time, year_len, Day,
};
use crate::catalog::{by_rising_name, is_ancestor, is_kept, last_named, selected};
use crate::filter::{
    date_passes, date_unix, glob_body, glob_char, glob_pattern, passes, CatalogEntry, CatalogFilter,
    DateError,
};
use crate::form::joined_path;
use crate::text::{dec, lex_lt, lex_lt_irreflexive, number, pad_left, split, trim};
use crate::text_laws::{lacks, split_of_one_piece, split_of_piece_and_rest};

verus! {

/// The empty glob is the expression that matches the empty text alone, and every expression for a
/// glob is held at both ends of the text.
pub proof fn globs_are_held_at_both_ends(g: Seq<char>)
    ensures
        glob_pattern(Seq::empty()) == seq!['^', '$'],
        glob_pattern(g).len() >= 2,
        glob_pattern(g)[0] == '^',
        glob_pattern(g).last() == '$',
{
    assert(glob_pattern(Seq::empty()) =~= seq!['^', '$']);
}

/// Each character of a glob stands in the expression where it stands in the glob: a star as any
/// sequence, a character that means something in an expression behind a backslash, and any other
/// as itself.
pub proof fn each_character_of_a_glob_stands_for_itself(a: Seq<char>, c: char, b: Seq<char>)
    ensures
        ({
            let before = glob_pattern(a).drop_last();
            let behind = glob_pattern(b).drop_first();
            let whole = glob_pattern(a + seq![c] + b);
            &&& c == '*' ==> whole == before + seq!['.', '*'] + behind
            &&& seq!['.', '+', '?', '(', ')', '[', ']', '{', '}', '|', '\\', '^', '$'].contains(c)
                ==> whole == before + seq!['\\', c] + behind
            &&& c != '*' && !seq!['.', '+', '?', '(', ')', '[', ']', '{', '}', '|', '\\', '^', '$'].contains(
                c,
            ) ==> whole == before + seq![c] + behind
        }),
{
    let before = glob_pattern(a).drop_last();
    let behind = glob_pattern(b).drop_first();
    assert(before =~= seq!['^'] + glob_body(a));
    assert(behind =~= glob_body(b) + seq!['$']);
    lemma_glob_body(a + seq![c], b);
    let s = a + seq![c];
    assert(s.drop_last() =~= a);
    assert(s.last() == c);
    let whole = glob_pattern(a + seq![c] + b);
    assert(whole =~= before + glob_char(c) + behind);
    let metas = seq!['.', '+', '?', '(', ')', '[', ']', '{', '}', '|', '\\', '^', '$'];
    assert(metas[0] == '.' && metas[1] == '+' && metas[2] == '?' && metas[3] == '(' && metas[4] == ')');
    assert(metas[5] == '[' && metas[6] == ']' && metas[7] == '{' && metas[8] == '}' && metas[9] == '|');
    assert(metas[10] == '\\' && metas[11] == '^' && metas[12] == '$');
    if metas.contains(c) {
        let i = choose|i: int| 0 <= i < metas.len() && metas[i] == c;
    }
}

/// A glob made of two.
proof fn lemma_glob_body(a: Seq<char>, b: Seq<char>)
    ensures
        glob_body(a + b) == glob_body(a) + glob_body(b),
    decreases b.len(),
{
    if b.len() == 0 {
        assert(a + b =~= a);
        assert(glob_body(a) + glob_body(b) =~= glob_body(a));
    } else {
        let c = b.drop_last();
        lemma_glob_body(a, c);
        assert((a + b).drop_last() =~= a + c);
        assert((a + b).last() == b.last());
        assert(glob_body(a) + (glob_body(c) + glob_char(b.last())) =~= glob_body(a) + glob_body(c)
            + glob_char(b.last()));
    }
}

/// Globs that differ give expressions that differ.
pub proof fn globs_are_told_apart(a: Seq<char>, b: Seq<char>)
    requires
        glob_pattern(a) == glob_pattern(b),
    ensures
        a == b,
{
    assert(glob_body(a) =~= glob_pattern(a).subrange(1, glob_pattern(a).len() - 1));
    assert(glob_body(b) =~= glob_pattern(b).subrange(1, glob_pattern(b).len() - 1));
    lemma_front(a);
    lemma_front(b);
    lemma_globs_apart(a, b);
}

/// What an expression for a glob begins with.
proof fn lemma_front(a: Seq<char>)
    ensures
        a.len() > 0 ==> glob_body(a) == glob_char(a[0]) + glob_body(a.drop_first()),
{
    if a.len() > 0 {
        let one = seq![a[0]];
        lemma_glob_body(one, a.drop_first());
        assert(one + a.drop_first() =~= a);
        assert(one.drop_last() =~= Seq::<char>::empty());
        assert(glob_body(one.drop_last()) =~= Seq::<char>::empty());
        assert(one.last() == a[0]);
        assert(glob_body(one) =~= glob_char(a[0]));
    }
}

proof fn lemma_globs_apart(a: Seq<char>, b: Seq<char>)
    requires
        glob_body(a) == glob_body(b),
    ensures
        a == b,
    decreases a.len(),
{
    lemma_front(a);
    lemma_front(b);
    let s = glob_body(a);
    if a.len() == 0 || b.len() == 0 {
        assert(a.len() > 0 ==> s.len() > 0);
        assert(b.len() > 0 ==> s.len() > 0);
        assert(a =~= b);
    } else {
        let x = a[0];
        let y = b[0];
        assert(s[0] == glob_char(x)[0]);
        assert(s[0] == glob_char(y)[0]);
        if glob_char(x).len() == 2 {
            assert(s[1] == glob_char(x)[1]);
        }
        if glob_char(y).len() == 2 {
            assert(s[1] == glob_char(y)[1]);
        }
        assert(x == y);
        let n = glob_char(x).len() as int;
        assert(glob_body(a.drop_first()) =~= s.skip(n));
        assert(glob_body(b.drop_first()) =~= s.skip(n));
        lemma_globs_apart(a.drop_first(), b.drop_first());
        assert(a =~= seq![x] + a.drop_first());
        assert(b =~= seq![y] + b.drop_first());
    }
}

/// The calendar begins with 1970, each day is followed by the next, and each month and each year by
/// the first day of the next.
pub proof fn days_follow_one_another(y: int, m: int, d: int)
    requires
        y >= 1970,
        1 <= m <= 12,
    ensures
        days_to(1970, 1, 1) == 0,
        days_to(y, m, d + 1) == days_to(y, m, d) + 1,
        m < 12 ==> days_to(y, m + 1, 1) == days_to(y, m, month_len(y, m)) + 1,
        days_to(y + 1, 1, 1) == days_to(y, 12, 31) + 1,
{
    reveal_with_fuel(days_to_month, 13);
    reveal_with_fuel(days_to_year, 2);
}

/// The months have their lengths; February has a day more in every fourth year, but for three of
/// four centuries, and four centuries have 146097 days.
pub proof fn months_have_their_lengths(y: int)
    ensures
        month_len(y, 1) == 31 && month_len(y, 3) == 31 && month_len(y, 5) == 31 && month_len(y, 7) == 31,
        month_len(y, 8) == 31 && month_len(y, 10) == 31 && month_len(y, 12) == 31,
        month_len(y, 4) == 30 && month_len(y, 6) == 30 && month_len(y, 9) == 30 && month_len(y, 11) == 30,
        month_len(y, 2) == 28 || month_len(y, 2) == 29,
        y % 4 != 0 ==> month_len(y, 2) == 28,
        y % 100 == 0 && y % 400 != 0 ==> month_len(y, 2) == 28,
        y % 400 == 0 ==> month_len(y, 2) == 29,
        y % 4 == 0 && y % 100 != 0 ==> month_len(y, 2) == 29,
        year_len(y) == 337 + month_len(y, 2),
        is_leap(y) <==> year_len(y) == 366,
        y >= 1970 ==> days_to_year(y + 400) == days_to_year(y) + 146_097,
{
    if y >= 1970 {
        lemma_centuries(y);
    }
}

proof fn lemma_centuries(y: int)
    requires
        y >= 1970,
    ensures
        days_to_year(y + 400) == days_to_year(y) + 146_097,
    decreases y,
{
    if y == 1970 {
        lemma_hundred(1970, 30);
        lemma_hundred(2000, 100);
        lemma_hundred(2100, 100);
        lemma_hundred(2200, 100);
        lemma_hundred(2300, 70);
    } else {
        lemma_centuries(y - 1);
        assert((y + 399) % 4 == (y - 1) % 4);
        assert((y + 399) % 100 == (y - 1) % 100);
        assert((y + 399) % 400 == (y - 1) % 400);
    }
}

/// Some years from one on that begin a century or lie in one.
proof fn lemma_hundred(a: int, n: int)
    requires
        a >= 1970,
        0 <= n <= 100,
        a % 100 == 0 || (a % 100) + n <= 100,
    ensures
        days_to_year(a + n) == days_to_year(a) + 365 * n + (a + n - 1) / 4 - (a - 1) / 4 - (if n > 0 && a
            % 100 == 0 && a % 400 != 0 {
            1int
        } else {
            0
        }),
    decreases n,
{
    if n > 0 {
        lemma_hundred(a, n - 1);
        let y = a + n - 1;
        assert(days_to_year(y + 1) == days_to_year(y) + year_len(y));
        if n > 1 || a % 100 != 0 {
            assert(y % 100 != 0);
        }
        assert(y / 4 - (y - 1) / 4 == if y % 4 == 0 {
            1int
        } else {
            0
        });
    }
}

/// A date is what its three numbers say, and nothing where they say no day: the start of the day,
/// or, as the end of a range, the start of the next.
pub proof fn dates_are_what_their_numbers_say(s: Seq<char>, a: Seq<char>, b: Seq<char>, c: Seq<char>)
    requires
        lacks(a, '-'),
        lacks(b, '-'),
        lacks(c, '-'),
        trim(s) == a + seq!['-'] + (b + seq!['-'] + c),
    ensures
        match (
            number(a, i64::MAX as nat),
            number(b, u32::MAX as nat),
            number(c, u32::MAX as nat),
        ) {
            (Some(y), Some(m), Some(d)) => if 1970 <= y <= 2999 && 1 <= m <= 12 && 1 <= d <= 31 {
                &&& date_unix(s, false) matches Ok(t) && t == days_to(y as int, m as int, d as int) * 86_400
                &&& date_unix(s, true) matches Ok(t) && t == days_to(y as int, m as int, d as int + 1)
                    * 86_400
            } else {
                date_unix(s, false) == Err::<u64, DateError>(DateError::Range) && date_unix(s, true)
                    == Err::<u64, DateError>(DateError::Range)
            },
            (None, _, _) => date_unix(s, false) == Err::<u64, DateError>(DateError::Year) && date_unix(
                s,
                true,
            ) == Err::<u64, DateError>(DateError::Year),
            (Some(_), None, _) => date_unix(s, false) == Err::<u64, DateError>(DateError::Month)
                && date_unix(s, true) == Err::<u64, DateError>(DateError::Month),
            (Some(_), Some(_), None) => date_unix(s, false) == Err::<u64, DateError>(DateError::Day)
                && date_unix(s, true) == Err::<u64, DateError>(DateError::Day),
        },
{
    split_of_piece_and_rest(a, '-', b + seq!['-'] + c);
    split_of_piece_and_rest(b, '-', c);
    split_of_one_piece(c, '-');
    let p = split(trim(s), '-');
    assert(p =~= seq![a, b, c]);
    if let (Some(y), Some(m), Some(d)) = (
        number(a, i64::MAX as nat),
        number(b, u32::MAX as nat),
        number(c, u32::MAX as nat),
    ) {
        if 1970 <= y <= 2999 && 1 <= m <= 12 && 1 <= d <= 31 {
            lemma_days_bounded(y as int, m as int, d as int);
        }
    }
}

/// A date that is left empty sets no end, and one that has not three parts is refused.
pub proof fn dates_have_three_parts(s: Seq<char>)
    ensures
        trim(s).len() == 0 ==> date_unix(s, false) == Ok::<u64, DateError>(0) && date_unix(s, true)
            == Ok::<u64, DateError>(0),
        trim(s).len() > 0 && lacks(trim(s), '-') ==> date_unix(s, false) == Err::<u64, DateError>(
            DateError::Shape,
        ),
        trim(s).len() > 0 && split(trim(s), '-').len() != 3 ==> date_unix(s, false) == Err::<
            u64,
            DateError,
        >(DateError::Shape) && date_unix(s, true) == Err::<u64, DateError>(DateError::Shape),
{
    if trim(s).len() > 0 && lacks(trim(s), '-') {
        split_of_one_piece(trim(s), '-');
    }
}

/// Each end of a range stops what lies beyond it, and it alone: the first moment of the range is in
/// it, the last is the one before its end.
pub proof fn ranges_end_where_they_end(f: CatalogFilter, created: u64)
    requires
        created > 0,
    ensures
        f.from_unix > created ==> !date_passes(f, created),
        0 < f.to_unix_exclusive <= created ==> !date_passes(f, created),
        f.from_unix <= created && (f.to_unix_exclusive == 0 || created < f.to_unix_exclusive)
            ==> date_passes(f, created),
        date_passes(f, 0),
{
}

/// An entry passes by its own name, whatever the directory that it lies in is called, and by its
/// date; it fails where one of the two does.
pub proof fn directories_do_not_make_an_entry_pass(
    f: CatalogFilter,
    a: CatalogEntry,
    b: CatalogEntry,
    dir: Seq<char>,
    other: Seq<char>,
    name: Seq<char>,
)
    requires
        lacks(name, '/'),
        a.name@ == joined_path(dir, name),
        b.name@ == joined_path(other, name),
        a.created_at_unix == b.created_at_unix,
    ensures
        passes(f, a) == passes(f, b),
        f.name_re matches Some(re) ==> passes(f, a) ==> crate::filter::regex_match(re@, name),
        f.name_re is None ==> passes(f, a) == date_passes(f, a.created_at_unix),
        passes(f, a) ==> date_passes(f, a.created_at_unix),
        f.name_re matches Some(re) ==> date_passes(f, a.created_at_unix) ==> crate::filter::regex_match(
            re@,
            name,
        ) ==> passes(f, a),
{
    crate::form_laws::joined_path_leads_into_its_directory(dir, name);
    crate::form_laws::joined_path_leads_into_its_directory(other, name);
}

/// What lies in a directory has it as an ancestor, and so has what lies in what lies in it; nothing
/// lies in itself, nor in a directory whose name only begins like its own.
pub proof fn ancestors_are_directories_above(dir: Seq<char>, rest: Seq<char>, n: Seq<char>)
    ensures
        dir.len() > 0 ==> is_ancestor(dir, dir + seq!['/'] + rest),
        !is_ancestor(n, n),
        !is_ancestor(Seq::empty(), n),
        is_ancestor(dir, n) ==> n == dir + seq!['/'] + n.skip(dir.len() as int + 1),
{
    let p = dir + seq!['/'] + rest;
    assert(p.take(dir.len() as int) =~= dir);
    if is_ancestor(dir, n) {
        assert(n =~= n.take(dir.len() as int) + seq![n[dir.len() as int]] + n.skip(dir.len() as int + 1));
    }
}

/// Of entries with one name the last counts; an entry with another name changes nothing.
pub proof fn last_entry_with_a_name_counts(s: Seq<CatalogEntry>, e: CatalogEntry, name: Seq<char>)
    ensures
        last_named(Seq::empty(), name) is None,
        last_named(s.push(e), e.name@) == Some(e),
        e.name@ != name ==> last_named(s.push(e), name) == last_named(s, name),
        last_named(s, name) matches Some(x) ==> x.name@ == name && s.contains(x),
        last_named(s, name) is None ==> forall|i: int| 0 <= i < s.len() ==> (#[trigger] s[i]).name@ != name,
    decreases s.len(),
{
    assert(s.push(e).drop_last() =~= s);
    if s.len() > 0 {
        let t = s.drop_last();
        last_entry_with_a_name_counts(t, e, name);
        assert(s[s.len() - 1] == s.last());
        if s.last().name@ == name {
            assert(s.contains(s.last()));
        } else {
            if let Some(x) = last_named(s, name) {
                let i = choose|i: int| 0 <= i < t.len() && t[i] == x;
                assert(s[i] == x);
            }
            assert forall|i: int| 0 <= i < s.len() && last_named(s, name) is None implies (
            #[trigger] s[i]).name@ != name by {
                if i < t.len() {
                    assert(t[i] == s[i]);
                }
            }
        }
    }
}

/// An entry that counts and passes is left, and so is every directory above it; what neither passes
/// nor leads to an entry that does is not.
pub proof fn what_passes_is_left(s: Seq<CatalogEntry>, f: CatalogFilter, e: CatalogEntry, name: Seq<char>)
    requires
        last_named(s, e.name@) == Some(e),
    ensures
        passes(f, e) ==> is_kept(s, f, e.name@),
        passes(f, e) && is_ancestor(name, e.name@) ==> is_kept(s, f, name),
        (forall|x: CatalogEntry|
            last_named(s, x.name@) == Some(x) && (x.name@ == name || is_ancestor(name, x.name@))
                ==> !(#[trigger] passes(f, x))) ==> !is_kept(s, f, name),
{
    if passes(f, e) {
        assert(selected(s, f, e));
    }
    if is_kept(s, f, name) {
        let x = choose|x: CatalogEntry|
            #[trigger] selected(s, f, x) && (name == x.name@ || is_ancestor(name, x.name@));
        assert(passes(f, x));
    }
}

/// A moment is shown with the day first and the time of day behind it, each number with its zeros.
pub proof fn moments_are_shown_in_full(d: Day, hour: nat, minute: nat)
    requires
        d.year <= 9999,
        1 <= d.month <= 12,
        1 <= d.day <= 31,
        hour < 24,
        minute < 60,
    ensures
        ({
            let t = moment_text(d, hour, minute);
            &&& t.len() == 16
            &&& t[4] == '-' && t[7] == '-' && t[10] == ' ' && t[13] == ':'
            &&& number(t.subrange(0, 4), 9999) == Some(d.year as nat)
            &&& number(t.subrange(5, 7), 99) == Some(d.month as nat)
            &&& number(t.subrange(8, 10), 99) == Some(d.day as nat)
            &&& number(t.subrange(11, 13), 99) == Some(hour)
            &&& number(t.subrange(14, 16), 99) == Some(minute)
        }),
{
    reveal_strlit("-");
    reveal_strlit(" ");
    reveal_strlit(":");
    lemma_padded(d.year as nat, 4);
    lemma_padded(d.month as nat, 2);
    lemma_padded(d.day as nat, 2);
    lemma_padded(hour, 2);
    lemma_padded(minute, 2);
    let t = moment_text(d, hour, minute);
    assert(t.subrange(0, 4) =~= pad_left(dec(d.year as nat), 4, '0'));
    assert(t.subrange(5, 7) =~= pad_left(dec(d.month as nat), 2, '0'));
    assert(t.subrange(8, 10) =~= pad_left(dec(d.day as nat), 2, '0'));
    assert(t.subrange(11, 13) =~= pad_left(dec(hour), 2, '0'));
    assert(t.subrange(14, 16) =~= pad_left(dec(minute), 2, '0'));
}

/// A number of few digits with zeros before it.
proof fn lemma_padded(n: nat, width: nat)
    requires
        width == 2 && n <= 99 || width == 4 && n <= 9999,
    ensures
        pad_left(dec(n), width, '0').len() == width,
        number(pad_left(dec(n), width, '0'), if width == 2 {
            99
        } else {
            9999
        }) == Some(n),
{
    reveal_with_fuel(dec, 5);
    assert(dec(n).len() <= width);
    let max: nat = if width == 2 {
        99
    } else {
        9999
    };
    crate::text::padded_round_trip(n, width, max);
}

/// A time is shown as the moment in which it lies; no time at all as a dash.
pub proof fn times_are_shown_as_their_moments(t: u64, text: Seq<char>)
    requires
        shows_time(t, text),
    ensures
        t == 0 ==> text == "—"@,
        t > 0 ==> exists|d: Day|
            {
                &&& d.wf()
                &&& 0 <= t - #[trigger] d.number() * 86_400 < 86_400
                &&& text == moment_text(
                    d,
                    ((t - d.number() * 86_400) / 3600) as nat,
                    ((t - d.number() * 86_400) % 3600 / 60) as nat,
                )
            },
{
    if t > 0 {
        let d = choose|d: Day|
            {
                &&& d.wf()
                &&& #[trigger] d.number() == t as int / 86_400
                &&& text == moment_text(d, (t as nat / 3600) % 24, (t as nat / 60) % 60)
            };
        lemma_clock(t as int, d.number());
    }
}

/// What the clock shows in the middle of a day.
proof fn lemma_clock(t: int, day: int)
    requires
        t >= 0,
        day == t / 86_400,
    ensures
        0 <= t - day * 86_400 < 86_400,
        (t / 3600) % 24 == (t - day * 86_400) / 3600,
        (t / 60) % 60 == (t - day * 86_400) % 3600 / 60,
{
    let r = t - day * 86_400;
    assert(t == day * 86_400 + r && 0 <= r < 86_400);
    let h = r / 3600;
    assert(0 <= h < 24);
    assert(t / 3600 == day * 24 + h);
    let m = r / 60;
    assert(t / 60 == day * 1440 + m);
    assert(m == h * 60 + r % 3600 / 60);
    assert(0 <= r % 3600 / 60 < 60);
    assert(t / 60 == (day * 24 + h) * 60 + r % 3600 / 60);
}

/// Entries in the order of their names have one name each, and the lesser name first.
pub proof fn sorted_entries_have_rising_names(s: Seq<CatalogEntry>, i: int, j: int)
    requires
        by_rising_name(s),
        0 <= i < j < s.len(),
    ensures
        lex_lt(s[i].name@, s[j].name@),
        s[i].name@ != s[j].name@,
{
    lex_lt_irreflexive(s[i].name@);
}

} // verus!
