//! The year option of the calendar utility.

use vstd::prelude::*;
use crate::fortune::quoted;
use crate::num::{integer_in, integer_value, is_negative_text, read_integer_in};
use crate::text::{join_strings, join_with, split_on, strings};

verus! {

/// Relies on `str::parse`: the value of `val` as a `T`, where `T`'s parser
/// accepts it.
#[verifier::external_body]
fn parse_value<T: std::str::FromStr>(val: &str) -> Option<T> {
    val.parse().ok()
}

/// The message for a text that the integer parser refuses.
pub open spec fn invalid_integer_message(val: Seq<char>) -> Seq<char> {
    "Invalid integer "@ + quoted(val)
}

/// Parses `val` with the standard parser of `T`; a refusal names the input.
pub fn parse_int<T: std::str::FromStr>(val: &str) -> (r: Result<T, String>)
    ensures
        r matches Err(e) ==> e@ == invalid_integer_message(val@),
{
    match parse_value::<T>(val) {
        Some(v) => Ok(v),
        None => {
            proof {
                reveal_strlit("Invalid integer \"");
                reveal_strlit("Invalid integer ");
                reveal_strlit("\"");
            }
            let mut e = String::from_str("Invalid integer \"");
            e.append(val);
            e.append("\"");
            assert(e@ =~= invalid_integer_message(val@));
            Err(e)
        },
    }
}

/// The message for a year outside `1..=9999`.
pub open spec fn year_range_message(year: Seq<char>) -> Seq<char> {
    "year "@ + quoted(year) + " not in the range 1 through 9999"@
}

/// Parses a year in `1..=9999`. A text that is no `i32` gives
/// "invalid digit found in string"; one out of range names the range.
pub fn parse_year(year: &str) -> (r: Result<i32, String>)
    ensures
        r is Ok <==> integer_in(year@, 1, 9999),
        r matches Ok(v) ==> v == integer_value(year@),
        r matches Err(e) ==> e@ == if integer_in(year@, i32::MIN as int, i32::MAX as int) {
            year_range_message(year@)
        } else {
            "invalid digit found in string"@
        },
{
    match read_integer_in(year, i32::MIN as i128, i32::MAX as i128) {
        Some(v) => {
            if 1 <= v && v <= 9999 {
                Ok(v as i32)
            } else {
                proof {
                    reveal_strlit("year \"");
                    reveal_strlit("year ");
                    reveal_strlit("\" not in the range 1 through 9999");
                    reveal_strlit(" not in the range 1 through 9999");
                }
                let mut e = String::from_str("year \"");
                e.append(year);
                e.append("\" not in the range 1 through 9999");
                assert(e@ =~= year_range_message(year@));
                Err(e)
            }
        },
        None => Err(String::from_str("invalid digit found in string")),
    }
}

/// The lowercase form of `s`, as `str::to_lowercase` gives it.
pub uninterp spec fn lower_of(s: Seq<char>) -> Seq<char>;

/// Relies on `str::to_lowercase`: the lowercase form of `s`, which depends
/// on its characters alone.
#[verifier::external_body]
fn lowercase(s: &str) -> (r: String)
    ensures
        r@ == lower_of(s@),
{
    s.to_lowercase()
}

/// The month names in lowercase, January first.
pub open spec fn month_names() -> Seq<Seq<char>> {
    seq![
        "january"@,
        "february"@,
        "march"@,
        "april"@,
        "may"@,
        "june"@,
        "july"@,
        "august"@,
        "september"@,
        "october"@,
        "november"@,
        "december"@,
    ]
}

fn month_name(i: usize) -> (r: &'static str)
    requires
        i < 12,
    ensures
        r@ == month_names()[i as int],
{
    match i {
        0 => "january",
        1 => "february",
        2 => "march",
        3 => "april",
        4 => "may",
        5 => "june",
        6 => "july",
        7 => "august",
        8 => "september",
        9 => "october",
        10 => "november",
        _ => "december",
    }
}

pub open spec fn is_prefix(p: Seq<char>, s: Seq<char>) -> bool {
    p.len() <= s.len() && s.subrange(0, p.len() as int) == p
}

/// Whether `s` starts with `p`.
pub fn has_prefix(s: &str, p: &str) -> (r: bool)
    ensures
        r == is_prefix(p@, s@),
{
    let ns = s.unicode_len();
    let np = p.unicode_len();
    if np > ns {
        return false;
    }
    let mut i: usize = 0;
    while i < np
        invariant
            ns == s@.len(),
            np == p@.len(),
            np <= ns,
            i <= np,
            forall|j: int| 0 <= j < i ==> s@[j] == p@[j],
        decreases np - i,
    {
        if s.get_char(i) != p.get_char(i) {
            assert(s@.subrange(0, np as int)[i as int] != p@[i as int]);
            return false;
        }
        i = i + 1;
    }
    assert(s@.subrange(0, np as int) =~= p@);
    true
}

/// The indices among the first `n` months whose names start with `q`.
pub open spec fn months_starting(q: Seq<char>, n: nat) -> Seq<int>
    decreases n,
{
    if n == 0 {
        Seq::empty()
    } else {
        let r = months_starting(q, (n - 1) as nat);
        if is_prefix(q, month_names()[n - 1]) {
            r.push(n - 1)
        } else {
            r
        }
    }
}

/// The month (1 for January) whose name alone starts with `m`, ignoring case.
pub open spec fn abbreviated_month(m: Seq<char>) -> Result<int, Seq<char>> {
    let found = months_starting(lower_of(m), 12);
    if found.len() == 1 {
        Ok(found[0] + 1)
    } else {
        Err("Invalid month "@ + quoted(m))
    }
}

/// Parses the unique month whose name starts with `month`, ignoring case.
fn parse_abbreviated_month(month: &str) -> (r: Result<u32, String>)
    ensures
        match abbreviated_month(month@) {
            Ok(v) => r matches Ok(x) && x == v,
            Err(e) => r matches Err(x) && x@ == e,
        },
{
    let q = lowercase(month);
    let mut found: Vec<u32> = Vec::new();
    let mut i: usize = 0;
    while i < 12
        invariant
            i <= 12,
            q@ == lower_of(month@),
            found@.len() == months_starting(q@, i as nat).len(),
            forall|j: int| 0 <= j < found@.len() ==> #[trigger] found@[j] == months_starting(q@, i as nat)[j],
            forall|j: int| 0 <= j < found@.len() ==> #[trigger] found@[j] < 12,
        decreases 12 - i,
    {
        if has_prefix(month_name(i), q.as_str()) {
            found.push(i as u32);
        }
        i = i + 1;
    }
    if found.len() == 1 {
        Ok(found[0] + 1)
    } else {
        proof {
            reveal_strlit("Invalid month \"");
            reveal_strlit("Invalid month ");
            reveal_strlit("\"");
        }
        let mut e = String::from_str("Invalid month \"");
        e.append(month);
        e.append("\"");
        assert(e@ =~= "Invalid month "@ + quoted(month@));
        Err(e)
    }
}

/// A month written as a number or as the start of its name.
pub open spec fn month_value(s: Seq<char>) -> Result<int, Seq<char>> {
    if !is_negative_text(s) && integer_in(s, 0, u32::MAX as int) {
        Ok(integer_value(s))
    } else {
        abbreviated_month(s)
    }
}

fn parse_month_value(s: &str) -> (r: Result<u32, String>)
    ensures
        match month_value(s@) {
            Ok(v) => r matches Ok(x) && x == v,
            Err(e) => r matches Err(x) && x@ == e,
        },
{
    let negative = s.unicode_len() > 0 && s.get_char(0) == '-';
    let parsed = if negative {
        None
    } else {
        read_integer_in(s, 0, 0xffff_ffffi128)
    };
    match parsed {
        Some(v) => Ok(v as u32),
        None => parse_abbreviated_month(s),
    }
}

/// The message for a single month outside `1..=12`.
pub open spec fn month_range_message(m: Seq<char>) -> Seq<char> {
    "month "@ + quoted(m) + " not in the range 1 through 12"@
}

/// The months of a part without a dash: one month in `1..=12`.
pub open spec fn single_months(p: Seq<char>) -> Result<Seq<int>, Seq<char>> {
    match month_value(p) {
        Ok(v) => if 1 <= v <= 12 {
            Ok(seq![v])
        } else {
            Err(month_range_message(p))
        },
        Err(e) => Err(e),
    }
}

/// Characters that may make up a side of a range: ASCII letters, digits and
/// underscores, and any non-ASCII character.
pub open spec fn is_word_char(c: char) -> bool {
    ('a' <= c && c <= 'z') || ('A' <= c && c <= 'Z') || ('0' <= c && c <= '9') || c == '_' || (c
        as u32) >= 0x80
}

/// `p` is two non-empty runs of word characters joined by the dash at `i`.
pub open spec fn range_split_at(p: Seq<char>, i: int) -> bool {
    &&& 0 < i < p.len() - 1
    &&& p[i] == '-'
    &&& forall|j: int| 0 <= j < p.len() && j != i ==> is_word_char(#[trigger] p[j])
}

pub open spec fn is_range_text(p: Seq<char>) -> bool {
    exists|i: int| range_split_at(p, i)
}

/// The dash of a range text.
pub open spec fn range_dash(p: Seq<char>) -> int {
    choose|i: int| range_split_at(p, i)
}

/// The message for a range that is malformed or leaves `1..12`.
pub open spec fn invalid_range_message(p: Seq<char>) -> Seq<char> {
    "Invalid range "@ + quoted(p)
}

/// The message for a range whose ends are out of order.
pub open spec fn reversed_range_message(p: Seq<char>, a: Seq<char>, b: Seq<char>) -> Seq<char> {
    "Invalid month range: "@ + quoted(p) + " "@ + a + " should come after "@ + b
}

/// The months `lo..=hi`.
pub open spec fn month_span(lo: int, hi: int) -> Seq<int> {
    Seq::new((hi - lo + 1) as nat, |k: int| lo + k)
}

/// The months of a range part `a-b`; both ends must lie in `1..12`.
pub open spec fn range_months(p: Seq<char>) -> Result<Seq<int>, Seq<char>> {
    if !is_range_text(p) {
        Err(invalid_range_message(p))
    } else {
        let i = range_dash(p);
        let a = p.subrange(0, i);
        let b = p.subrange(i + 1, p.len() as int);
        match month_value(a) {
            Err(e) => Err(e),
            Ok(r1) => match month_value(b) {
                Err(e) => Err(e),
                Ok(r2) => if !(1 <= r1 < 12) || !(1 <= r2 < 12) {
                    Err(invalid_range_message(p))
                } else if r1 <= r2 {
                    Ok(month_span(r1, r2))
                } else {
                    Err(reversed_range_message(p, a, b))
                },
            },
        }
    }
}

/// The months of one comma-separated part.
pub open spec fn part_months(p: Seq<char>) -> Result<Seq<int>, Seq<char>> {
    if p.contains('-') {
        range_months(p)
    } else {
        single_months(p)
    }
}

proof fn lemma_range_dash_unique(p: Seq<char>, i: int, k: int)
    requires
        range_split_at(p, i),
        0 <= k < p.len(),
        p[k] == '-',
    ensures
        k == i,
{
    if k != i {
        assert(is_word_char(p[k]));
    }
}

fn message3(a: &str, b: &str, c: &str) -> (r: String)
    ensures
        r@ == a@ + b@ + c@,
{
    let mut s = String::from_str(a);
    s.append(b);
    s.append(c);
    s
}

/// The months of a range part.
fn parse_range(range: &str) -> (r: Result<Vec<u32>, String>)
    ensures
        match range_months(range@) {
            Ok(v) => r matches Ok(x) && x@.map_values(|m: u32| m as int) == v,
            Err(e) => r matches Err(x) && x@ == e,
        },
{
    proof {
        reveal_strlit("Invalid range \"");
        reveal_strlit("Invalid range ");
        reveal_strlit("\"");
    }
    let n = range.unicode_len();
    let mut dash: usize = n;
    let mut ok = true;
    let mut i: usize = 0;
    while i < n
        invariant
            n == range@.len(),
            i <= n,
            dash <= n,
            dash < n ==> dash < i && range@[dash as int] == '-',
            dash == n ==> forall|j: int| 0 <= j < i ==> range@[j] != '-',
            ok ==> forall|j: int| 0 <= j < i && j != dash ==> is_word_char(#[trigger] range@[j]),
            !ok ==> !is_range_text(range@),
        decreases n - i,
    {
        let c = range.get_char(i);
        if c == '-' && dash == n {
            dash = i;
        } else if !(('a' <= c && c <= 'z') || ('A' <= c && c <= 'Z') || ('0' <= c && c <= '9') || c
            == '_' || (c as u32) >= 0x80) {
            if ok {
                proof {
                    if is_range_text(range@) {
                        let d = range_dash(range@);
                        assert(range_split_at(range@, d));
                        if c == '-' {
                            lemma_range_dash_unique(range@, d, i as int);
                            lemma_range_dash_unique(range@, d, dash as int);
                        } else {
                            assert(is_word_char(range@[i as int]) || i == d);
                        }
                    }
                }
            }
            ok = false;
        }
        i = i + 1;
    }
    if !ok || dash == n || dash == 0 || dash + 1 == n {
        proof {
            if is_range_text(range@) {
                let d = range_dash(range@);
                assert(range_split_at(range@, d));
                if dash < n {
                    lemma_range_dash_unique(range@, d, dash as int);
                } else {
                    assert(range@[d] == '-');
                }
            }
        }
        let e = message3("Invalid range \"", range, "\"");
        assert(e@ =~= invalid_range_message(range@));
        return Err(e);
    }
    proof {
        assert(range_split_at(range@, dash as int));
        lemma_range_dash_unique(range@, range_dash(range@), dash as int);
    }
    let a = range.substring_char(0, dash);
    let b = range.substring_char(dash + 1, n);
    let r1 = match parse_month_value(a) {
        Ok(v) => v,
        Err(e) => return Err(e),
    };
    let r2 = match parse_month_value(b) {
        Ok(v) => v,
        Err(e) => return Err(e),
    };
    if !(1 <= r1 && r1 < 12) || !(1 <= r2 && r2 < 12) {
        let e = message3("Invalid range \"", range, "\"");
        assert(e@ =~= invalid_range_message(range@));
        return Err(e);
    }
    if r1 <= r2 {
        let mut v: Vec<u32> = Vec::new();
        let mut m = r1;
        while m <= r2
            invariant
                1 <= r1 <= m <= r2 + 1,
                r2 < 12,
                v@.map_values(|x: u32| x as int) =~= month_span(r1 as int, m as int - 1),
            decreases r2 + 1 - m,
        {
            let ghost before = v@;
            v.push(m);
            assert(v@.map_values(|x: u32| x as int) =~= before.map_values(|x: u32| x as int).push(
                m as int,
            ));
            assert(month_span(r1 as int, m as int) =~= month_span(r1 as int, m as int - 1).push(
                m as int,
            ));
            m = m + 1;
        }
        Ok(v)
    } else {
        proof {
            reveal_strlit("Invalid month range: \"");
            reveal_strlit("Invalid month range: ");
            reveal_strlit("\" ");
            reveal_strlit(" ");
            reveal_strlit(" should come after ");
        }
        let mut e = message3("Invalid month range: \"", range, "\" ");
        e.append(a);
        e.append(" should come after ");
        e.append(b);
        assert(e@ =~= reversed_range_message(range@, a@, b@));
        Err(e)
    }
}

/// Part `p` names month `m`.
pub open spec fn part_has(p: Seq<char>, m: int) -> bool {
    part_months(p) matches Ok(v) && v.contains(m)
}

/// Some part of `parts` names month `m`.
pub open spec fn months_in(parts: Seq<Seq<char>>, m: int) -> bool {
    exists|k: int| 0 <= k < parts.len() && #[trigger] part_has(parts[k], m)
}

/// Some part of `parts` is valid.
pub open spec fn any_ok(parts: Seq<Seq<char>>) -> bool {
    exists|k: int| 0 <= k < parts.len() && (#[trigger] part_months(parts[k])) is Ok
}

/// The messages of the invalid parts, in order.
pub open spec fn errors_of(parts: Seq<Seq<char>>) -> Seq<Seq<char>>
    decreases parts.len(),
{
    if parts.len() == 0 {
        Seq::empty()
    } else {
        let r = errors_of(parts.drop_last());
        match part_months(parts.last()) {
            Err(e) => r.push(e),
            Ok(_) => r,
        }
    }
}

proof fn lemma_part_months_bounds(p: Seq<char>)
    ensures
        part_months(p) matches Ok(v) ==> v.len() > 0 && forall|j: int|
            0 <= j < v.len() ==> 1 <= #[trigger] v[j] <= 12,
{
}

/// The months of one comma-separated part.
fn parse_part(p: &str) -> (r: Result<Vec<u32>, String>)
    ensures
        match part_months(p@) {
            Ok(v) => r matches Ok(x) && x@.map_values(|m: u32| m as int) == v,
            Err(e) => r matches Err(x) && x@ == e,
        },
{
    let n = p.unicode_len();
    let mut i: usize = 0;
    while i < n
        invariant
            n == p@.len(),
            i <= n,
            forall|j: int| 0 <= j < i ==> p@[j] != '-',
        decreases n - i,
    {
        if p.get_char(i) == '-' {
            assert(p@[i as int] == '-');
            return parse_range(p);
        }
        i = i + 1;
    }
    assert(!p@.contains('-'));
    match parse_month_value(p) {
        Ok(v) => {
            if 1 <= v && v <= 12 {
                let mut r: Vec<u32> = Vec::new();
                r.push(v);
                assert(r@.map_values(|m: u32| m as int) =~= seq![v as int]);
                Ok(r)
            } else {
                proof {
                    reveal_strlit("month \"");
                    reveal_strlit("month ");
                    reveal_strlit("\" not in the range 1 through 12");
                    reveal_strlit(" not in the range 1 through 12");
                }
                let e = message3("month \"", p, "\" not in the range 1 through 12");
                assert(e@ =~= month_range_message(p@));
                Err(e)
            }
        },
        Err(e) => Err(e),
    }
}

/// Parses a comma-separated list of months, each a number, the start of a
/// name, or a range `a-b` of those; the result is the months named, in
/// ascending order without repeats. Invalid parts are ignored while some
/// part is valid; otherwise their messages, one per line, are the error.
pub fn parse_month(month: &str) -> (r: Result<Vec<u32>, String>)
    ensures
        r is Ok <==> any_ok(split_on(month@, ',')),
        r matches Ok(v) ==> forall|i: int, j: int| 0 <= i < j < v@.len() ==> v@[i] < v@[j],
        r matches Ok(v) ==> forall|m: u32| #[trigger] v@.contains(m) <==> months_in(
            split_on(month@, ','),
            m as int,
        ),
        r matches Err(e) ==> e@ == join_with(errors_of(split_on(month@, ',')), '\n'),
{
    let ghost s = month@;
    let n = month.unicode_len();
    let mut present: Vec<bool> = Vec::new();
    let mut k: usize = 0;
    while k < 13
        invariant
            k <= 13,
            present@.len() == k,
            forall|m: int| 0 <= m < k ==> !#[trigger] present@[m],
        decreases 13 - k,
    {
        present.push(false);
        k = k + 1;
    }
    let mut errors: Vec<String> = Vec::new();
    let mut any = false;
    let ghost mut done: Seq<Seq<char>> = Seq::empty();
    let mut start: usize = 0;
    let mut i: usize = 0;
    assert(s.subrange(0, 0) =~= Seq::<char>::empty());
    assert(split_on(s.subrange(0, 0), ',') =~= done.push(s.subrange(0, 0)));
    assert(strings(errors@) =~= errors_of(done));
    loop
        invariant_except_break
            split_on(s.subrange(0, i as int), ',') == done.push(s.subrange(start as int, i as int)),
        invariant
            n == s.len(),
            s == month@,
            start <= i <= n,
            present@.len() == 13,
            forall|m: int| 0 <= m < 13 ==> (#[trigger] present@[m] <==> months_in(done, m)),
            forall|m: int| months_in(done, m) ==> 1 <= m <= 12,
            any <==> any_ok(done),
            strings(errors@) == errors_of(done),
        ensures
            done == split_on(s, ','),
        decreases n - i + 1,
    {
        let at_end = i == n;
        let at_sep = !at_end && month.get_char(i) == ',';
        if at_end || at_sep {
            let part = month.substring_char(start, i);
            let ghost p = part@;
            let ghost before = done;
            proof {
                lemma_part_months_bounds(p);
            }
            match parse_part(part) {
                Ok(v) => {
                    let ghost vs = v@.map_values(|m: u32| m as int);
                    let mut j: usize = 0;
                    while j < v.len()
                        invariant
                            present@.len() == 13,
                            j <= v@.len(),
                            vs == v@.map_values(|m: u32| m as int),
                            part_months(p) == Ok::<Seq<int>, Seq<char>>(vs),
                            forall|q: int| 0 <= q < vs.len() ==> 1 <= #[trigger] vs[q] <= 12,
                            forall|m: int|
                                0 <= m < 13 ==> (#[trigger] present@[m] <==> (months_in(before, m)
                                    || vs.subrange(0, j as int).contains(m))),
                        decreases v@.len() - j,
                    {
                        let x = v[j];
                        assert(vs[j as int] == x as int);
                        present.set(x as usize, true);
                        proof {
                            assert forall|m: int| 0 <= m < 13 implies (#[trigger] present@[m] <==> (
                            months_in(before, m) || vs.subrange(0, j + 1).contains(m))) by {
                                if vs.subrange(0, j as int).contains(m) {
                                    let q = choose|q: int| 0 <= q < j && #[trigger] vs.subrange(0, j as int)[q] == m;
                                    assert(vs.subrange(0, j + 1)[q] == m);
                                }
                                if vs.subrange(0, j + 1).contains(m) {
                                    let q = choose|q: int| 0 <= q < j + 1 && #[trigger] vs.subrange(0, j + 1)[q] == m;
                                    if q < j {
                                        assert(vs.subrange(0, j as int)[q] == m);
                                    }
                                }
                                if m == x as int {
                                    assert(vs.subrange(0, j + 1)[j as int] == m);
                                }
                            }
                        }
                        j = j + 1;
                    }
                    any = true;
                    proof {
                        assert(vs.subrange(0, vs.len() as int) =~= vs);
                        done = done.push(p);
                        assert(part_months(done[done.len() - 1]) is Ok);
                        assert(errors_of(done) == errors_of(before)) by {
                            assert(done.drop_last() =~= before);
                        }
                        assert forall|m: int| months_in(done, m) <==> (months_in(before, m) || part_has(p, m)) by {
                            if months_in(done, m) {
                                let q = choose|q: int| 0 <= q < done.len() && #[trigger] part_has(done[q], m);
                                if q < before.len() {
                                    assert(done[q] == before[q]);
                                }
                            }
                            if months_in(before, m) {
                                let q = choose|q: int| 0 <= q < before.len() && #[trigger] part_has(before[q], m);
                                assert(done[q] == before[q]);
                            }
                            if part_has(p, m) {
                                assert(part_has(done[before.len() as int], m));
                            }
                        }
                        assert(any_ok(done));
                    }
                },
                Err(e) => {
                    let ghost ev = e@;
                    errors.push(e);
                    proof {
                        done = done.push(p);
                        assert(done.drop_last() =~= before);
                        assert(strings(errors@) =~= errors_of(done));
                        assert forall|m: int| months_in(done, m) <==> months_in(before, m) by {
                            if months_in(done, m) {
                                let q = choose|q: int| 0 <= q < done.len() && #[trigger] part_has(done[q], m);
                                if q < before.len() {
                                    assert(done[q] == before[q]);
                                }
                            }
                            if months_in(before, m) {
                                let q = choose|q: int| 0 <= q < before.len() && #[trigger] part_has(before[q], m);
                                assert(done[q] == before[q]);
                            }
                        }
                        assert(any_ok(done) <==> any_ok(before)) by {
                            if any_ok(done) {
                                let q = choose|q: int| 0 <= q < done.len() && (#[trigger] part_months(done[q])) is Ok;
                                if q < before.len() {
                                    assert(done[q] == before[q]);
                                }
                            }
                            if any_ok(before) {
                                let q = choose|q: int| 0 <= q < before.len() && (#[trigger] part_months(before[q])) is Ok;
                                assert(done[q] == before[q]);
                            }
                        }
                    }
                },
            }
            if at_end {
                proof {
                    assert(s.subrange(0, n as int) =~= s);
                    assert(done == split_on(s, ','));
                }
                break;
            }
            proof {
                let pre = s.subrange(0, i as int);
                let next = s.subrange(0, i + 1);
                assert(next.drop_last() =~= pre);
                assert(next.last() == ',');
                assert(s.subrange(i + 1, i + 1) =~= Seq::<char>::empty());
            }
            i = i + 1;
            start = i;
        } else {
            proof {
                let pre = s.subrange(0, i as int);
                let next = s.subrange(0, i + 1);
                assert(next.drop_last() =~= pre);
                assert(s.subrange(start as int, i + 1) =~= s.subrange(start as int, i as int).push(s[i as int]));
                assert(split_on(next, ',') =~= done.push(s.subrange(start as int, i + 1)));
            }
            i = i + 1;
        }
    }
    let ghost parts = split_on(s, ',');
    if !any {
        proof {
            reveal_strlit("\n");
        }
        return Err(join_strings(&errors, "\n"));
    }
    let mut v: Vec<u32> = Vec::new();
    let mut m: usize = 1;
    while m < 13
        invariant
            1 <= m <= 13,
            present@.len() == 13,
            forall|x: int| 0 <= x < 13 ==> (#[trigger] present@[x] <==> months_in(parts, x)),
            forall|x: int| months_in(parts, x) ==> 1 <= x <= 12,
            forall|a: int, b: int| 0 <= a < b < v@.len() ==> v@[a] < v@[b],
            forall|a: int| 0 <= a < v@.len() ==> #[trigger] v@[a] < m,
            forall|x: u32| #[trigger] v@.contains(x) <==> (1 <= x < m && present@[x as int]),
        decreases 13 - m,
    {
        if present[m] {
            let ghost before = v@;
            v.push(m as u32);
            proof {
                assert forall|x: u32| #[trigger] v@.contains(x) <==> (1 <= x < m + 1 && present@[x as int]) by {
                    if before.contains(x) {
                        let q = choose|q: int| 0 <= q < before.len() && #[trigger] before[q] == x;
                        assert(v@[q] == x);
                    }
                    if x == m as u32 {
                        assert(v@[before.len() as int] == x);
                    }
                    if v@.contains(x) {
                        let q = choose|q: int| 0 <= q < v@.len() && #[trigger] v@[q] == x;
                        if q < before.len() {
                            assert(before[q] == x);
                        }
                    }
                }
            }
        }
        m = m + 1;
    }
    Ok(v)
}

} // verus!
