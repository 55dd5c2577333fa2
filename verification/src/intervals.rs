//! What the notations for intervals stand for.
use crate::scheduler;
use crate::text;
use vstd::prelude::*;
use vstd::string::*;

verus! {

/// Whether a text is a word: it is not empty and has no white space.
pub open spec fn is_word(s: Seq<char>) -> bool {
    s.len() > 0 && forall|i: int| 0 <= i < s.len() ==> !text::is_whitespace(#[trigger] s[i])
}

proof fn lemma_not_trimmed(s: Seq<char>)
    requires
        s.len() > 0,
        !text::is_whitespace(s[0]),
        !text::is_whitespace(s.last()),
    ensures
        text::trim_start(s) == s,
        text::trim(s) == s,
{
}

proof fn lemma_word_end(w: Seq<char>, rest: Seq<char>)
    requires
        is_word(w),
        rest.len() == 0 || text::is_whitespace(rest[0]),
    ensures
        text::word_end(w + rest) == w.len(),
{
    let s = w + rest;
    let p = |c: char| text::is_whitespace(c);
    assert forall|k: int| 0 <= k < w.len() implies !p(#[trigger] s[k]) by {
        assert(s[k] == w[k]);
    }
    if rest.len() == 0 {
        text::lemma_first_index_none(s, p);
    } else {
        assert(s[w.len() as int] == rest[0]);
        text::lemma_first_index_at(s, p, w.len() as int);
    }
}

proof fn lemma_first_word(w: Seq<char>, rest: Seq<char>)
    requires
        is_word(w),
        rest.len() == 0 || text::is_whitespace(rest[0]),
    ensures
        text::words(w + rest) == seq![w] + text::words(rest),
{
    let s = w + rest;
    assert(s[0] == w[0]);
    lemma_word_end(w, rest);
    assert(s.take(w.len() as int) =~= w);
    assert(s.skip(w.len() as int) =~= rest);
}

proof fn lemma_space_in_front(s: Seq<char>)
    ensures
        text::words(seq![' '] + s) == text::words(s),
{
    let t = seq![' '] + s;
    assert(t[0] == ' ');
    assert(t.skip(1) =~= s);
    assert(text::trim_start(t) == text::trim_start(s));
}

proof fn lemma_no_words()
    ensures
        text::words(Seq::empty()) == Seq::<Seq<char>>::empty(),
{
}

proof fn lemma_number(n: nat)
    requires
        n <= u64::MAX,
    ensures
        scheduler::count(text::decimal(n)) == Some(n as int),
        is_word(text::decimal(n)),
        text::all_digits(text::decimal(n)),
{
    text::law_decimal_reads_back(n);
    let d = text::decimal(n);
    assert(text::is_digit(d[0]));
    assert forall|i: int| 0 <= i < d.len() implies !text::is_whitespace(#[trigger] d[i]) by {
        assert(text::is_digit(d[i]));
    }
}

proof fn lemma_no_count(s: Seq<char>, c: char)
    requires
        s.len() > 0,
        s[0] == c,
        !text::is_digit(c),
        c != '+',
    ensures
        scheduler::count(s) is None,
{
    assert(text::without_plus(s) == s);
    assert(!text::is_digit(s[0]));
}

/// A number and a letter are so many seconds, minutes or hours.
pub proof fn law_compact_intervals(n: nat)
    requires
        n <= u64::MAX,
    ensures
        scheduler::interval_seconds(text::decimal(n).push('s')) == Some(n as int),
        scheduler::interval_seconds(text::decimal(n).push('m')) == Some(n as int * 60),
        scheduler::interval_seconds(text::decimal(n).push('h')) == Some(n as int * 3600),
{
    lemma_number(n);
    let d = text::decimal(n);
    assert(!text::is_whitespace(d[0]));
    lemma_not_trimmed(d.push('s'));
    lemma_not_trimmed(d.push('m'));
    lemma_not_trimmed(d.push('h'));
    assert(d.push('s').drop_last() =~= d);
    assert(d.push('m').drop_last() =~= d);
    assert(d.push('h').drop_last() =~= d);
}

proof fn lemma_zero_with_stars(all: Seq<char>)
    requires
        all == seq!['*', '/'] + text::decimal(0) + seq![' ', '*', ' ', '*', ' ', '*', ' ', '*'],
    ensures
        scheduler::step_seconds(all) is None,
        scheduler::every_seconds(all) is None,
{
    reveal_strlit("*/");
    reveal_strlit("every ");
    reveal_strlit("every\t");
    let rest = all.skip(2);
    assert(text::decimal(0).len() == 1);
    assert(rest[1] == ' ');
    assert(text::without_plus(rest).len() >= 8);
    assert(!text::all_digits(text::without_plus(rest))) by {
        let w = text::without_plus(rest);
        assert(!text::is_digit(w[w.len() - 1]));
    }
    assert(!text::has_prefix(all, "every "@)) by {
        assert(all[0] != "every "@[0]);
    }
    assert(!text::has_prefix(all, "every\t"@)) by {
        assert(all[0] != "every\t"@[0]);
    }
}

/// A star, a slash and a number are so many minutes, by themselves or with four stars behind them;
/// every zero minutes is no interval.
pub proof fn law_steps_of_minutes(n: nat)
    requires
        n <= u64::MAX,
    ensures
        ({
            let step = seq!['*', '/'] + text::decimal(n);
            let stars = seq![' ', '*', ' ', '*', ' ', '*', ' ', '*'];
            let expected = if n > 0 {
                Some(n as int * 60)
            } else {
                None
            };
            &&& scheduler::interval_seconds(step) == expected
            &&& scheduler::interval_seconds(step + stars) == expected
        }),
{
    lemma_number(n);
    reveal_strlit("*/");
    reveal_strlit("*");
    reveal_strlit("every ");
    reveal_strlit("every\t");
    let d = text::decimal(n);
    let step = seq!['*', '/'] + d;
    let star = seq!['*'];
    let s1 = seq![' ', '*'];
    let s2 = seq![' ', '*', ' ', '*'];
    let s3 = seq![' ', '*', ' ', '*', ' ', '*'];
    let s4 = seq![' ', '*', ' ', '*', ' ', '*', ' ', '*'];
    assert(is_word(step)) by {
        assert forall|i: int| 0 <= i < step.len() implies !text::is_whitespace(
            #[trigger] step[i],
        ) by {
            if i >= 2 {
                assert(step[i] == d[i - 2]);
            }
        }
    }
    assert(step.skip(2) =~= d);
    assert("*/"@ =~= seq!['*', '/']);
    assert("*"@ =~= star);
    assert(text::has_prefix(step, "*/"@)) by {
        assert(step.take(2) =~= "*/"@);
    }
    assert(step.last() == d.last());
    assert(text::is_digit(d[d.len() - 1]));
    lemma_not_trimmed(step);
    assert(scheduler::step_seconds(step) == (if n > 0 {
        Some(n as int * 60)
    } else {
        None::<int>
    }));
    // By itself.
    lemma_no_words();
    assert(step + Seq::empty() =~= step);
    lemma_first_word(step, Seq::empty());
    assert(text::words(step).len() == 1);
    assert(!text::has_prefix(step, "every "@)) by {
        assert(step[0] != "every "@[0]);
    }
    assert(!text::has_prefix(step, "every\t"@)) by {
        assert(step[0] != "every\t"@[0]);
    }
    // With stars.
    let all = step + s4;
    lemma_not_trimmed(all);
    lemma_first_word(step, s4);
    assert(s4 =~= seq![' '] + (star + s3));
    lemma_space_in_front(star + s3);
    lemma_first_word(star, s3);
    assert(s3 =~= seq![' '] + (star + s2));
    lemma_space_in_front(star + s2);
    lemma_first_word(star, s2);
    assert(s2 =~= seq![' '] + (star + s1));
    lemma_space_in_front(star + s1);
    lemma_first_word(star, s1);
    assert(s1 =~= seq![' '] + star);
    lemma_space_in_front(star);
    assert(star + Seq::empty() =~= star);
    lemma_first_word(star, Seq::empty());
    let fields = text::words(all);
    assert(fields =~= seq![step, star, star, star, star]);
    if n == 0 {
        lemma_zero_with_stars(all);
    }
}

/// The words for the units, whatever the case of their letters.
pub proof fn law_units(unit: Seq<char>)
    ensures
        ({
            let u = unit.map_values(
                |c: char|
                    if 'A' <= c <= 'Z' {
                        (c as int + 32) as char
                    } else {
                        c
                    },
            );
            &&& u == "s"@ || u == "sec"@ || u == "secs"@ || u == "second"@ || u == "seconds"@
                ==> scheduler::unit_seconds(unit) == Some(1int)
            &&& u == "m"@ || u == "min"@ || u == "mins"@ || u == "minute"@ || u == "minutes"@
                ==> scheduler::unit_seconds(unit) == Some(60int)
            &&& u == "h"@ || u == "hr"@ || u == "hrs"@ || u == "hour"@ || u == "hours"@
                ==> scheduler::unit_seconds(unit) == Some(3600int)
        }),
{
    let u = unit.map_values(
        |c: char|
            if 'A' <= c <= 'Z' {
                (c as int + 32) as char
            } else {
                c
            },
    );
    assert(u =~= scheduler::lower(unit));
    reveal_strlit("s");
    reveal_strlit("m");
    reveal_strlit("h");
    reveal_strlit("sec");
    reveal_strlit("min");
    reveal_strlit("hr");
    reveal_strlit("secs");
    reveal_strlit("mins");
    reveal_strlit("hrs");
    reveal_strlit("second");
    reveal_strlit("minute");
    reveal_strlit("hour");
    reveal_strlit("seconds");
    reveal_strlit("minutes");
    reveal_strlit("hours");
    if u.len() > 0 {
        let first = u[0];
    }
}

/// Every so many of a unit: the number is multiplied by the seconds of the unit.
pub proof fn law_every_so_many(n: nat, unit: Seq<char>, seconds: int)
    requires
        n <= u64::MAX,
        is_word(unit),
        scheduler::unit_seconds(unit) == Some(seconds),
    ensures
        scheduler::interval_seconds(
            seq!['e', 'v', 'e', 'r', 'y', ' '] + text::decimal(n) + seq![' '] + unit,
        ) == Some(n * seconds),
{
    lemma_number(n);
    reveal_strlit("every ");
    reveal_strlit("*/");
    let d = text::decimal(n);
    let every = seq!['e', 'v', 'e', 'r', 'y'];
    let rest = d + (seq![' '] + unit);
    let e = seq!['e', 'v', 'e', 'r', 'y', ' '] + d + seq![' '] + unit;
    assert(e =~= every + (seq![' '] + rest));
    assert(e.last() == unit[unit.len() - 1]);
    lemma_not_trimmed(e);
    lemma_no_count(e.drop_last(), 'e');
    assert(is_word(every));
    lemma_first_word(every, seq![' '] + rest);
    lemma_space_in_front(rest);
    lemma_first_word(d, seq![' '] + unit);
    lemma_space_in_front(unit);
    assert(unit + Seq::empty() =~= unit);
    lemma_first_word(unit, Seq::empty());
    lemma_no_words();
    assert(text::words(e) =~= seq![every, d, unit]);
    assert(!text::has_prefix(e, "*/"@)) by {
        assert(e[0] != "*/"@[0]);
    }
    assert("every "@ =~= seq!['e', 'v', 'e', 'r', 'y', ' ']);
    assert(e.skip(6) =~= rest);
    assert(text::has_prefix(e, "every "@)) by {
        assert(e.take(6) =~= "every "@);
    }
    assert(rest.last() == unit[unit.len() - 1]);
    assert(rest[0] == d[0]);
    lemma_not_trimmed(rest);
    lemma_word_end(d, seq![' '] + unit);
    assert(rest.take(d.len() as int) =~= d);
    assert(rest.skip(d.len() + 1int) =~= unit);
    assert(!text::is_whitespace(unit[0]));
    assert(!text::is_whitespace(unit[unit.len() - 1]));
    lemma_not_trimmed(unit);
}

/// White space around an expression makes no difference.
pub proof fn law_spaces_around_an_expression(e: Seq<char>)
    ensures
        scheduler::interval_seconds(seq![' '] + e) == scheduler::interval_seconds(e),
        e.len() > 0 && !text::is_whitespace(e[0]) ==> scheduler::interval_seconds(e.push(' '))
            == scheduler::interval_seconds(e),
{
    let a = seq![' '] + e;
    assert(a.skip(1) =~= e);
    assert(a[0] == ' ');
    let b = e.push(' ');
    assert(b.drop_last() =~= e);
    assert(b.last() == ' ');
    if e.len() > 0 && !text::is_whitespace(e[0]) {
        assert(b[0] == e[0]);
        assert(text::trim_start(b) == b);
        assert(text::trim_start(e) == e);
    }
}

} // verus!
