//! Decoding of timed (LRC) lyrics into plain text and a synced timeline.
//!
//! A marker is `[mm:ss]` or `[mm:ss.f]`, with two-digit minutes and seconds and
//! one to three fractional digits, read as a decimal fraction of a second.
//! Times are kept in whole milliseconds.
use vstd::prelude::*;
use crate::text::{
    chars_of, find_from, lemma_split_on_piece, push_all, push_char, split_on, string_of, trim,
    trim_bounds,
};

verus! {

/// One entry of a synced timeline: the text shown from `time_ms` on.
#[derive(Clone, Debug, PartialEq)]
pub struct LyricLine {
    pub time_ms: u64,
    pub text: String,
}

impl View for LyricLine {
    type V = (u64, Seq<char>);

    open spec fn view(&self) -> (u64, Seq<char>) {
        (self.time_ms, self.text@)
    }
}

/// Whether `c` is an ASCII decimal digit.
pub open spec fn is_digit(c: char) -> bool {
    48 <= c as u32 <= 57
}

/// The value of the ASCII digit `c`.
pub open spec fn digit(c: char) -> int {
    c as u32 - 48
}

/// The marker at the start of `s`, if there is one: its length in characters
/// and the time it denotes in milliseconds.
pub open spec fn marker_at(s: Seq<char>) -> Option<(int, u64)> {
    if s.len() >= 7 && s[0] == '[' && is_digit(s[1]) && is_digit(s[2]) && s[3] == ':'
        && is_digit(s[4]) && is_digit(s[5]) {
        let whole = ((digit(s[1]) * 10 + digit(s[2])) * 60 + digit(s[4]) * 10 + digit(s[5]))
            * 1000;
        if s[6] == ']' {
            Some((7, whole as u64))
        } else if s[6] != '.' || s.len() < 9 || !is_digit(s[7]) {
            None
        } else if s[8] == ']' {
            Some((9, (whole + digit(s[7]) * 100) as u64))
        } else if s.len() < 10 || !is_digit(s[8]) {
            None
        } else if s[9] == ']' {
            Some((10, (whole + digit(s[7]) * 100 + digit(s[8]) * 10) as u64))
        } else if s.len() >= 11 && is_digit(s[9]) && s[10] == ']' {
            Some((11, (whole + digit(s[7]) * 100 + digit(s[8]) * 10 + digit(s[9])) as u64))
        } else {
            None
        }
    } else {
        None
    }
}

/// The times of the markers in `s`, left to right, and `s` with them taken
/// out. Markers are taken leftmost first and do not overlap.
pub open spec fn scan(s: Seq<char>) -> (Seq<u64>, Seq<char>)
    decreases s.len(),
{
    if s.len() == 0 {
        (Seq::empty(), Seq::empty())
    } else {
        match marker_at(s) {
            Some(m) => {
                let r = scan(s.subrange(m.0, s.len() as int));
                (seq![m.1] + r.0, r.1)
            },
            None => {
                let r = scan(s.drop_first());
                (r.0, seq![s[0]] + r.1)
            },
        }
    }
}

fn digit_at(s: &Vec<char>, i: usize) -> (r: Option<u64>)
    requires
        i < s@.len(),
    ensures
        r is Some <==> is_digit(s@[i as int]),
        r is Some ==> r->0 == digit(s@[i as int]) && r->0 <= 9,
{
    let u = s[i] as u32;
    if 48 <= u && u <= 57 {
        Some((u - 48) as u64)
    } else {
        None
    }
}

/// The marker at `s[i..hi]`, as `marker_at` gives it.
fn marker_here(s: &Vec<char>, i: usize, hi: usize) -> (r: Option<(usize, u64)>)
    requires
        i <= hi <= s@.len(),
    ensures
        r is Some <==> marker_at(s@.subrange(i as int, hi as int)) is Some,
        r matches Some((n, t)) ==> marker_at(s@.subrange(i as int, hi as int)) == Some(
            (n as int, t),
        ),
{
    let ghost t = s@.subrange(i as int, hi as int);
    if hi - i < 7 || s[i] != '[' || s[i + 3] != ':' {
        return None;
    }
    let d1 = digit_at(s, i + 1);
    let d2 = digit_at(s, i + 2);
    let d4 = digit_at(s, i + 4);
    let d5 = digit_at(s, i + 5);
    match (d1, d2, d4, d5) {
        (Some(m1), Some(m2), Some(s1), Some(s2)) => {
            let whole: u64 = ((m1 * 10 + m2) * 60 + s1 * 10 + s2) * 1000;
            assert(t[1] == s@[i + 1] && t[2] == s@[i + 2] && t[4] == s@[i + 4] && t[5]
                == s@[i + 5]);
            if s[i + 6] == ']' {
                return Some((7, whole));
            }
            if s[i + 6] != '.' || hi - i < 9 {
                return None;
            }
            let f1 = match digit_at(s, i + 7) {
                Some(f) => f,
                None => {
                    return None;
                },
            };
            assert(t[7] == s@[i + 7]);
            if s[i + 8] == ']' {
                return Some((9, whole + f1 * 100));
            }
            if hi - i < 10 {
                return None;
            }
            let f2 = match digit_at(s, i + 8) {
                Some(f) => f,
                None => {
                    return None;
                },
            };
            assert(t[8] == s@[i + 8]);
            if s[i + 9] == ']' {
                return Some((10, whole + f1 * 100 + f2 * 10));
            }
            if hi - i < 11 {
                return None;
            }
            let f3 = match digit_at(s, i + 9) {
                Some(f) => f,
                None => {
                    return None;
                },
            };
            assert(t[9] == s@[i + 9] && t[10] == s@[i + 10]);
            if s[i + 10] == ']' {
                Some((11, whole + f1 * 100 + f2 * 10 + f3))
            } else {
                None
            }
        },
        _ => None,
    }
}

/// The marker times and the remaining characters of `s[lo..hi]`, as `scan`
/// gives them.
fn scan_range(s: &Vec<char>, lo: usize, hi: usize) -> (r: (Vec<u64>, Vec<char>))
    requires
        lo <= hi <= s@.len(),
    ensures
        (r.0@, r.1@) == scan(s@.subrange(lo as int, hi as int)),
{
    let mut times: Vec<u64> = Vec::new();
    let mut rest: Vec<char> = Vec::new();
    let mut i: usize = lo;
    while i < hi
        invariant
            lo <= i <= hi <= s@.len(),
            times@ + scan(s@.subrange(i as int, hi as int)).0 == scan(
                s@.subrange(lo as int, hi as int),
            ).0,
            rest@ + scan(s@.subrange(i as int, hi as int)).1 == scan(
                s@.subrange(lo as int, hi as int),
            ).1,
        decreases hi - i,
    {
        let ghost t = s@.subrange(i as int, hi as int);
        match marker_here(s, i, hi) {
            Some((n, time)) => {
                assert(t.subrange(n as int, t.len() as int) =~= s@.subrange(i + n, hi as int));
                let ghost r = scan(s@.subrange(i + n, hi as int));
                assert(times@.push(time) + r.0 =~= times@ + (seq![time] + r.0));
                times.push(time);
                i = i + n;
            },
            None => {
                assert(t.drop_first() =~= s@.subrange(i + 1, hi as int));
                let ghost r = scan(s@.subrange(i + 1, hi as int));
                assert(rest@.push(s@[i as int]) + r.1 =~= rest@ + (seq![s@[i as int]] + r.1));
                rest.push(s[i]);
                i = i + 1;
            },
        }
    }
    assert(times@ + Seq::<u64>::empty() =~= times@);
    assert(rest@ + Seq::<char>::empty() =~= rest@);
    (times, rest)
}

/// The display text of a lyric line: its characters without markers, trimmed.
pub open spec fn line_text(line: Seq<char>) -> Seq<char> {
    trim(scan(trim(line)).1)
}

/// The times of the markers on a lyric line.
pub open spec fn line_times(line: Seq<char>) -> Seq<u64> {
    scan(trim(line)).0
}

/// The timeline entries that a line contributes: one per marker, all with the
/// line's text, provided that text is not empty.
pub open spec fn line_entries(line: Seq<char>) -> Seq<(u64, Seq<char>)> {
    if line_text(line).len() > 0 {
        line_times(line).map_values(|t: u64| (t, line_text(line)))
    } else {
        Seq::empty()
    }
}

/// The text and the marker times of the line `s[lo..hi]`.
fn decode_line(s: &Vec<char>, lo: usize, hi: usize) -> (r: (Vec<char>, Vec<u64>))
    requires
        lo <= hi <= s@.len(),
    ensures
        r.0@ == line_text(s@.subrange(lo as int, hi as int)),
        r.1@ == line_times(s@.subrange(lo as int, hi as int)),
{
    let (a, b) = trim_bounds(s, lo, hi);
    let (times, rest) = scan_range(s, a, b);
    let (c, d) = trim_bounds(&rest, 0, rest.len());
    assert(rest@.subrange(0, rest@.len() as int) =~= rest@);
    let mut text: Vec<char> = Vec::new();
    let mut k: usize = c;
    while k < d
        invariant
            c <= k <= d <= rest@.len(),
            text@ == rest@.subrange(c as int, k as int),
        decreases d - k,
    {
        assert(rest@.subrange(c as int, k + 1) =~= rest@.subrange(c as int, k as int).push(
            rest@[k as int],
        ));
        text.push(rest[k]);
        k = k + 1;
    }
    (text, times)
}

/// The texts of the lines that have any, in order.
pub open spec fn plain_lines(ls: Seq<Seq<char>>) -> Seq<Seq<char>>
    decreases ls.len(),
{
    if ls.len() == 0 {
        Seq::empty()
    } else {
        let t = line_text(ls[0]);
        (if t.len() > 0 {
            seq![t]
        } else {
            Seq::empty()
        }) + plain_lines(ls.drop_first())
    }
}

/// The timeline entries of all lines, in line order, before sorting.
pub open spec fn timed_entries(ls: Seq<Seq<char>>) -> Seq<(u64, Seq<char>)>
    decreases ls.len(),
{
    if ls.len() == 0 {
        Seq::empty()
    } else {
        line_entries(ls[0]) + timed_entries(ls.drop_first())
    }
}

/// The lines joined with a newline between each two.
pub open spec fn join_lines(ls: Seq<Seq<char>>) -> Seq<char>
    decreases ls.len(),
{
    if ls.len() == 0 {
        Seq::empty()
    } else if ls.len() == 1 {
        ls[0]
    } else {
        ls[0] + seq!['\n'] + join_lines(ls.drop_first())
    }
}

/// Joining one more line adds a newline and that line.
pub proof fn lemma_join_lines_push(ls: Seq<Seq<char>>, x: Seq<char>)
    requires
        ls.len() > 0,
    ensures
        join_lines(ls.push(x)) == join_lines(ls) + seq!['\n'] + x,
    decreases ls.len(),
{
    assert(ls.push(x).drop_first() =~= ls.drop_first().push(x));
    assert(ls.push(x)[0] == ls[0]);
    if ls.len() == 1 {
        assert(ls.push(x).drop_first() =~= seq![x]);
        assert(join_lines(seq![x]) == x);
    } else {
        lemma_join_lines_push(ls.drop_first(), x);
        assert(ls[0] + seq!['\n'] + (join_lines(ls.drop_first()) + seq!['\n'] + x) =~= ls[0]
            + seq!['\n'] + join_lines(ls.drop_first()) + seq!['\n'] + x);
    }
}

/// `e` placed into `s` after every entry whose time is not later than its own.
pub open spec fn insert_by_time(s: Seq<(u64, Seq<char>)>, e: (u64, Seq<char>)) -> Seq<
    (u64, Seq<char>),
>
    decreases s.len(),
{
    if s.len() == 0 {
        seq![e]
    } else if s.last().0 <= e.0 {
        s.push(e)
    } else {
        insert_by_time(s.drop_last(), e).push(s.last())
    }
}

/// `s` sorted by time; entries with equal times keep their order.
pub open spec fn sort_by_time(s: Seq<(u64, Seq<char>)>) -> Seq<(u64, Seq<char>)>
    decreases s.len(),
{
    if s.len() == 0 {
        s
    } else {
        insert_by_time(sort_by_time(s.drop_last()), s.last())
    }
}

/// The lines of a lyric block.
pub open spec fn lyric_lines(raw: Seq<char>) -> Seq<Seq<char>> {
    split_on(raw, '\n')
}

/// The plain text of a lyric block: the text of each line that has any,
/// joined by newlines.
pub open spec fn plain_text(raw: Seq<char>) -> Seq<char> {
    join_lines(plain_lines(lyric_lines(raw)))
}

/// The synced timeline of a lyric block, absent when no line has both a
/// marker and text.
pub open spec fn synced_timeline(raw: Seq<char>) -> Option<Seq<(u64, Seq<char>)>> {
    let e = timed_entries(lyric_lines(raw));
    if e.len() == 0 {
        None
    } else {
        Some(sort_by_time(e))
    }
}

/// A timeline as (time, text) pairs.
pub open spec fn timeline_view(v: Seq<LyricLine>) -> Seq<(u64, Seq<char>)> {
    v.map_values(|e: LyricLine| e@)
}

/// An optional timeline as (time, text) pairs.
pub open spec fn opt_timeline_view(v: Option<Vec<LyricLine>>) -> Option<Seq<(u64, Seq<char>)>> {
    match v {
        Some(v) => Some(timeline_view(v@)),
        None => None,
    }
}

fn copy_line(e: &LyricLine) -> (r: LyricLine)
    ensures
        r@ == e@,
{
    LyricLine { time_ms: e.time_ms, text: e.text.clone() }
}

/// A stable sort by time.
fn sort_lines(v: &Vec<LyricLine>) -> (r: Vec<LyricLine>)
    ensures
        timeline_view(r@) == sort_by_time(timeline_view(v@)),
{
    let mut out: Vec<LyricLine> = Vec::new();
    let mut i: usize = 0;
    while i < v.len()
        invariant
            i <= v@.len(),
            timeline_view(out@) == sort_by_time(timeline_view(v@).take(i as int)),
        decreases v@.len() - i,
    {
        let e = copy_line(&v[i]);
        let ghost sv = timeline_view(out@);
        let mut j: usize = out.len();
        assert(sv.take(j as int) =~= sv);
        assert(sv.skip(j as int) =~= Seq::<(u64, Seq<char>)>::empty());
        while j > 0 && out[j - 1].time_ms > e.time_ms
            invariant
                j <= out@.len(),
                sv == timeline_view(out@),
                insert_by_time(sv, e@) == insert_by_time(sv.take(j as int), e@) + sv.skip(
                    j as int,
                ),
            decreases j,
        {
            assert(sv.take(j as int).drop_last() =~= sv.take(j - 1));
            assert(sv.take(j as int).last() == sv[j - 1]);
            assert(insert_by_time(sv.take(j - 1), e@).push(sv[j - 1]) + sv.skip(j as int)
                =~= insert_by_time(sv.take(j - 1), e@) + sv.skip(j - 1));
            j = j - 1;
        }
        if j > 0 {
            assert(sv.take(j as int).last() == sv[j - 1]);
        }
        assert(insert_by_time(sv.take(j as int), e@) + sv.skip(j as int) =~= sv.insert(
            j as int,
            e@,
        ));
        out.insert(j, e);
        assert(timeline_view(out@) =~= sv.insert(j as int, e@));
        assert(timeline_view(v@).take(i + 1).drop_last() =~= timeline_view(v@).take(i as int));
        i = i + 1;
    }
    assert(timeline_view(v@).take(i as int) =~= timeline_view(v@));
    out
}

/// Decodes a timed-lyric block: the plain text of its lines, and the synced
/// timeline of its timed lines, sorted by time.
pub fn parse_lrc_lyrics(lrc: &str) -> (r: (String, Option<Vec<LyricLine>>))
    ensures
        r.0@ == plain_text(lrc@),
        opt_timeline_view(r.1) == synced_timeline(lrc@),
{
    let s = chars_of(lrc);
    let len = s.len();
    let mut plain = String::new();
    let mut entries: Vec<LyricLine> = Vec::new();
    let ghost all = lyric_lines(s@);
    let ghost mut done: Seq<Seq<char>> = Seq::empty();
    let mut any = false;
    let mut start: usize = 0;
    assert(s@.subrange(0, len as int) =~= s@);
    assert(done + plain_lines(all) =~= plain_lines(all));
    assert(timeline_view(entries@) + timed_entries(all) =~= timed_entries(all));
    loop
        invariant_except_break
            done + plain_lines(split_on(s@.subrange(start as int, len as int), '\n'))
                == plain_lines(all),
            timeline_view(entries@) + timed_entries(
                split_on(s@.subrange(start as int, len as int), '\n'),
            ) == timed_entries(all),
        invariant
            start <= len == s@.len(),
            s@ == lrc@,
            all == split_on(s@, '\n'),
            any == (done.len() > 0),
            plain@ == join_lines(done),
        ensures
            plain@ == join_lines(plain_lines(all)),
            timeline_view(entries@) == timed_entries(all),
        decreases len - start,
    {
        let end = find_from(&s, start, '\n');
        proof {
            lemma_split_on_piece(s@, '\n', start as int, end as int);
        }
        let ghost line = s@.subrange(start as int, end as int);
        let ghost rest: Seq<Seq<char>> = if end < len {
            split_on(s@.subrange(end + 1, len as int), '\n')
        } else {
            Seq::empty()
        };
        assert((seq![line] + rest).drop_first() =~= rest);
        assert((seq![line] + rest)[0] == line);
        let ghost base = timeline_view(entries@);
        let (text, times) = decode_line(&s, start, end);
        if text.len() > 0 {
            if any {
                proof {
                    lemma_join_lines_push(done, text@);
                }
                push_char(&mut plain, '\n');
            } else {
                assert(plain@ =~= Seq::<char>::empty());
                assert(join_lines(seq![text@]) == text@);
                assert(done.push(text@) =~= seq![text@]);
            }
            push_all(&mut plain, &text);
            assert(done.push(text@) + plain_lines(rest) =~= done + (seq![text@] + plain_lines(
                rest,
            )));
            proof {
                done = done.push(text@);
            }
            any = true;
            let t = string_of(&text, 0, text.len());
            assert(text@.subrange(0, text@.len() as int) =~= text@);
            let mut k: usize = 0;
            while k < times.len()
                invariant
                    k <= times@.len(),
                    t@ == text@,
                    timeline_view(entries@) == base + times@.take(k as int).map_values(
                        |tm: u64| (tm, text@),
                    ),
                decreases times@.len() - k,
            {
                let ghost before = entries@;
                let entry = LyricLine { time_ms: times[k], text: t.clone() };
                assert(entry@ == (times@[k as int], text@));
                entries.push(entry);
                assert(timeline_view(entries@) =~= timeline_view(before).push(entry@));
                assert(times@.take(k + 1).map_values(|tm: u64| (tm, text@)) =~= times@.take(
                    k as int,
                ).map_values(|tm: u64| (tm, text@)).push((times@[k as int], text@)));
                assert(timeline_view(entries@) =~= base + times@.take(k + 1).map_values(
                    |tm: u64| (tm, text@),
                ));
                k = k + 1;
            }
            assert(times@.take(k as int) =~= times@);
            assert(timeline_view(entries@) + timed_entries(rest) =~= base + (line_entries(line)
                + timed_entries(rest)));
        } else {
            assert(done + plain_lines(rest) =~= done + (Seq::empty() + plain_lines(rest)));
            assert(timeline_view(entries@) + timed_entries(rest) =~= base + (line_entries(line)
                + timed_entries(rest)));
        }
        if end == len {
            assert(done + Seq::<Seq<char>>::empty() =~= done);
            assert(timeline_view(entries@) + Seq::<(u64, Seq<char>)>::empty() =~= timeline_view(
                entries@,
            ));
            break ;
        }
        start = end + 1;
    }
    if entries.len() == 0 {
        (plain, None)
    } else {
        (plain, Some(sort_lines(&entries)))
    }
}

/// Whether the entries of `s` come in order of time.
pub open spec fn sorted_by_time(s: Seq<(u64, Seq<char>)>) -> bool {
    forall|i: int, j: int| 0 <= i <= j < s.len() ==> s[i].0 <= s[j].0
}

proof fn lemma_insert_bounded(s: Seq<(u64, Seq<char>)>, e: (u64, Seq<char>), b: u64)
    requires
        forall|i: int| 0 <= i < s.len() ==> s[i].0 <= b,
        e.0 <= b,
    ensures
        forall|i: int|
            0 <= i < insert_by_time(s, e).len() ==> #[trigger] insert_by_time(s, e)[i].0 <= b,
        insert_by_time(s, e).len() == s.len() + 1,
    decreases s.len(),
{
    if s.len() > 0 && s.last().0 > e.0 {
        lemma_insert_bounded(s.drop_last(), e, b);
    }
}

proof fn lemma_insert_sorted(s: Seq<(u64, Seq<char>)>, e: (u64, Seq<char>))
    requires
        sorted_by_time(s),
    ensures
        sorted_by_time(insert_by_time(s, e)),
    decreases s.len(),
{
    if s.len() > 0 && s.last().0 > e.0 {
        let r = insert_by_time(s.drop_last(), e);
        lemma_insert_sorted(s.drop_last(), e);
        lemma_insert_bounded(s.drop_last(), e, s.last().0);
        assert(forall|i: int| 0 <= i < r.len() ==> r[i].0 <= s.last().0);
        assert(r.push(s.last())[r.len() as int] == s.last());
    }
}

proof fn lemma_insert_multiset(s: Seq<(u64, Seq<char>)>, e: (u64, Seq<char>))
    ensures
        insert_by_time(s, e).to_multiset() == s.to_multiset().insert(e),
    decreases s.len(),
{
    broadcast use {vstd::seq_lib::group_to_multiset_ensures, vstd::multiset::group_multiset_axioms};

    if s.len() == 0 {
        assert(seq![e] =~= Seq::<(u64, Seq<char>)>::empty().push(e));
    } else {
        assert(s.drop_last().push(s.last()) =~= s);
        if s.last().0 > e.0 {
            lemma_insert_multiset(s.drop_last(), e);
            assert(s.drop_last().to_multiset().insert(e).insert(s.last()) =~= s.drop_last().to_multiset().insert(
                s.last(),
            ).insert(e));
        }
    }
}

proof fn lemma_sort_sorted_multiset(s: Seq<(u64, Seq<char>)>)
    ensures
        sorted_by_time(sort_by_time(s)),
        sort_by_time(s).to_multiset() == s.to_multiset(),
    decreases s.len(),
{
    broadcast use vstd::seq_lib::group_to_multiset_ensures;

    if s.len() > 0 {
        lemma_sort_sorted_multiset(s.drop_last());
        lemma_insert_sorted(sort_by_time(s.drop_last()), s.last());
        lemma_insert_multiset(sort_by_time(s.drop_last()), s.last());
        assert(s.drop_last().push(s.last()) =~= s);
    }
}

/// Whether some line of `ls` has text `x.1` and a marker at time `x.0`.
pub open spec fn from_some_line(ls: Seq<Seq<char>>, x: (u64, Seq<char>)) -> bool {
    exists|l: int|
        0 <= l < ls.len() && x.1 == line_text(#[trigger] ls[l]) && line_times(ls[l]).contains(x.0)
}

proof fn lemma_timed_entry_from_line(ls: Seq<Seq<char>>, x: (u64, Seq<char>))
    requires
        timed_entries(ls).contains(x),
    ensures
        from_some_line(ls, x),
    decreases ls.len(),
{
    let first = line_entries(ls[0]);
    let k = choose|k: int| 0 <= k < timed_entries(ls).len() && timed_entries(ls)[k] == x;
    if k < first.len() {
        assert(line_times(ls[0])[k] == x.0);
        assert(line_times(ls[0]).contains(x.0));
        assert(x.1 == line_text(ls[0]));
    } else {
        assert(timed_entries(ls.drop_first())[k - first.len()] == x);
        lemma_timed_entry_from_line(ls.drop_first(), x);
        let l = choose|l: int|
            0 <= l < ls.drop_first().len() && x.1 == line_text(#[trigger] ls.drop_first()[l])
                && line_times(ls.drop_first()[l]).contains(x.0);
        assert(ls[l + 1] == ls.drop_first()[l]);
    }
}

/// The synced timeline is ordered by time, and every entry of it carries the
/// text of a line of the block (markers taken out, white space trimmed) at the
/// time of one of that line's markers. It holds each line's entries, no more
/// and no fewer.
pub proof fn lemma_timeline_sorted_from_lines(raw: Seq<char>)
    ensures
        synced_timeline(raw) matches Some(t) ==> {
            &&& t.len() > 0
            &&& sorted_by_time(t)
            &&& t.to_multiset() == timed_entries(lyric_lines(raw)).to_multiset()
            &&& forall|k: int|
                0 <= k < t.len() ==> from_some_line(lyric_lines(raw), #[trigger] t[k])
        },
{
    broadcast use vstd::seq_lib::group_to_multiset_ensures;

    let e = timed_entries(lyric_lines(raw));
    if e.len() > 0 {
        let t = sort_by_time(e);
        lemma_sort_sorted_multiset(e);
        assert forall|k: int| 0 <= k < t.len() implies from_some_line(
            lyric_lines(raw),
            #[trigger] t[k],
        ) by {
            assert(t.contains(t[k]));
            assert(t.to_multiset().count(t[k]) > 0);
            assert(e.contains(t[k]));
            lemma_timed_entry_from_line(lyric_lines(raw), t[k]);
        }
    }
}

/// The entries of `s` whose time is `t`, in order.
pub open spec fn at_time(s: Seq<(u64, Seq<char>)>, t: u64) -> Seq<(u64, Seq<char>)> {
    s.filter(|e: (u64, Seq<char>)| e.0 == t)
}

proof fn lemma_at_time_push(s: Seq<(u64, Seq<char>)>, x: (u64, Seq<char>), t: u64)
    ensures
        at_time(s.push(x), t) == if x.0 == t {
            at_time(s, t).push(x)
        } else {
            at_time(s, t)
        },
{
    reveal(Seq::filter);
    assert(s.push(x).drop_last() =~= s);
    assert(s.push(x).last() == x);
}

proof fn lemma_insert_at_time(s: Seq<(u64, Seq<char>)>, e: (u64, Seq<char>), t: u64)
    ensures
        at_time(insert_by_time(s, e), t) == if e.0 == t {
            at_time(s, t).push(e)
        } else {
            at_time(s, t)
        },
    decreases s.len(),
{
    if s.len() == 0 {
        lemma_at_time_push(s, e, t);
        assert(s.push(e) =~= seq![e]);
        reveal(Seq::filter);
    } else if s.last().0 <= e.0 {
        lemma_at_time_push(s, e, t);
    } else {
        let r = insert_by_time(s.drop_last(), e);
        lemma_insert_at_time(s.drop_last(), e, t);
        lemma_at_time_push(r, s.last(), t);
        lemma_at_time_push(s.drop_last(), s.last(), t);
        assert(s.drop_last().push(s.last()) =~= s);
    }
}

proof fn lemma_sort_at_time(s: Seq<(u64, Seq<char>)>, t: u64)
    ensures
        at_time(sort_by_time(s), t) == at_time(s, t),
    decreases s.len(),
{
    if s.len() > 0 {
        lemma_sort_at_time(s.drop_last(), t);
        lemma_insert_at_time(sort_by_time(s.drop_last()), s.last(), t);
        lemma_at_time_push(s.drop_last(), s.last(), t);
        assert(s.drop_last().push(s.last()) =~= s);
    }
}

/// The sort of the timeline is stable: for every time, the timeline's entries
/// at that time are the timed lines' entries at that time, in line order.
pub proof fn lemma_timeline_stable(raw: Seq<char>, t: u64)
    ensures
        synced_timeline(raw) matches Some(s) ==> at_time(s, t) == at_time(
            timed_entries(lyric_lines(raw)),
            t,
        ),
{
    lemma_sort_at_time(timed_entries(lyric_lines(raw)), t);
}

/// Whether no marker starts anywhere in `s`.
pub open spec fn has_no_marker(s: Seq<char>) -> bool {
    forall|i: int| 0 <= i < s.len() ==> #[trigger] marker_at(s.subrange(i, s.len() as int)) is None
}

proof fn lemma_scan_without_marker(s: Seq<char>)
    requires
        has_no_marker(s),
    ensures
        scan(s) == (Seq::<u64>::empty(), s),
    decreases s.len(),
{
    if s.len() > 0 {
        assert(s.subrange(0, s.len() as int) =~= s);
        assert(marker_at(s.subrange(0, s.len() as int)) is None);
        let d = s.drop_first();
        assert forall|i: int| 0 <= i < d.len() implies #[trigger] marker_at(
            d.subrange(i, d.len() as int),
        ) is None by {
            assert(d.subrange(i, d.len() as int) =~= s.subrange(i + 1, s.len() as int));
        }
        lemma_scan_without_marker(d);
        assert(seq![s[0]] + d =~= s);
    }
}

/// Whether `line` is already plain: not blank, not padded, and free of markers.
pub open spec fn is_plain_line(line: Seq<char>) -> bool {
    &&& line.len() > 0
    &&& trim(line) == line
    &&& has_no_marker(line)
}

proof fn lemma_plain_lines_kept(ls: Seq<Seq<char>>)
    requires
        forall|l: int| 0 <= l < ls.len() ==> is_plain_line(#[trigger] ls[l]),
    ensures
        plain_lines(ls) == ls,
        timed_entries(ls) == Seq::<(u64, Seq<char>)>::empty(),
    decreases ls.len(),
{
    if ls.len() > 0 {
        assert(is_plain_line(ls[0]));
        lemma_scan_without_marker(ls[0]);
        assert(line_text(ls[0]) == ls[0]);
        assert(line_times(ls[0]) =~= Seq::<u64>::empty());
        assert(line_entries(ls[0]) =~= Seq::<(u64, Seq<char>)>::empty());
        assert forall|l: int| 0 <= l < ls.drop_first().len() implies is_plain_line(
            #[trigger] ls.drop_first()[l],
        ) by {
            assert(ls.drop_first()[l] == ls[l + 1]);
        }
        lemma_plain_lines_kept(ls.drop_first());
        assert(seq![ls[0]] + ls.drop_first() =~= ls);
        assert(Seq::<(u64, Seq<char>)>::empty() + Seq::<(u64, Seq<char>)>::empty()
            =~= Seq::<(u64, Seq<char>)>::empty());
    }
}

proof fn lemma_join_lines_prepend(ls: Seq<Seq<char>>, c: char)
    requires
        ls.len() > 0,
    ensures
        join_lines(ls.update(0, seq![c] + ls[0])) == seq![c] + join_lines(ls),
{
    let u = ls.update(0, seq![c] + ls[0]);
    if ls.len() > 1 {
        assert(u.drop_first() =~= ls.drop_first());
        assert((seq![c] + ls[0]) + seq!['\n'] + join_lines(ls.drop_first()) =~= seq![c] + (ls[0]
            + seq!['\n'] + join_lines(ls.drop_first())));
    }
}

proof fn lemma_join_split_lines(s: Seq<char>)
    ensures
        join_lines(split_on(s, '\n')) == s,
    decreases s.len(),
{
    if s.len() > 0 {
        let rest = split_on(s.drop_first(), '\n');
        lemma_join_split_lines(s.drop_first());
        crate::text::lemma_split_on_nonempty(s.drop_first(), '\n');
        if s[0] == '\n' {
            let ls = seq![Seq::<char>::empty()] + rest;
            assert(ls.drop_first() =~= rest);
            assert(Seq::<char>::empty() + seq!['\n'] + s.drop_first() =~= s);
        } else {
            lemma_join_lines_prepend(rest, s[0]);
            assert(seq![s[0]] + s.drop_first() =~= s);
        }
    }
}

/// Decoding a block whose lines are already plain (no marker, not blank, no
/// white space at either end) gives the block back unchanged as plain text,
/// and no synced timeline.
pub proof fn lemma_plain_block_unchanged(raw: Seq<char>)
    requires
        forall|l: int|
            0 <= l < lyric_lines(raw).len() ==> is_plain_line(#[trigger] lyric_lines(raw)[l]),
    ensures
        plain_text(raw) == raw,
        synced_timeline(raw) is None,
{
    lemma_plain_lines_kept(lyric_lines(raw));
    lemma_join_split_lines(raw);
}

} // verus!
