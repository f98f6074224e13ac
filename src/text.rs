//! Character-level helpers shared by the decoders: whitespace, trimming,
//! splitting, and building `String`s one `char` at a time.
use vstd::prelude::*;
use vstd::std_specs::iter::IteratorSpec;

verus! {

broadcast use {vstd::string::group_string_axioms, vstd::string::next_postcondition};

/// Appends `c` to `s`.
///
/// Relies on `String::push`, documented as appending the given char to the end
/// of the string.
#[verifier::external_body]
pub(crate) fn push_char(s: &mut String, c: char)
    ensures
        final(s)@ == old(s)@.push(c),
{
    s.push(c)
}

/// The characters of `s`, in order.
pub fn chars_of(s: &str) -> (r: Vec<char>)
    ensures
        r@ == s@,
{
    let mut out: Vec<char> = Vec::new();
    let mut it = s.chars();
    loop
        invariant
            out@ + it.remaining() == s@,
            it.decrease() is Some,
        ensures
            out@ == s@,
        decreases it.decrease()->0,
    {
        match it.next() {
            Some(c) => {
                out.push(c);
            },
            None => {
                assert(out@ + it.remaining() =~= out@);
                break;
            },
        }
    }
    out
}

/// White space as Unicode's White_Space property has it, which is what
/// `char::is_whitespace` and `str::trim` go by.
pub open spec fn is_space(c: char) -> bool {
    let u = c as u32;
    ||| u == 0x20
    ||| 0x09 <= u && u <= 0x0d
    ||| u == 0x85
    ||| u == 0xa0
    ||| u == 0x1680
    ||| 0x2000 <= u && u <= 0x200a
    ||| u == 0x2028
    ||| u == 0x2029
    ||| u == 0x202f
    ||| u == 0x205f
    ||| u == 0x3000
}

/// Whether `c` is white space, as `is_space` has it.
pub fn is_space_char(c: char) -> (r: bool)
    ensures
        r == is_space(c),
{
    let u = c as u32;
    u == 0x20 || (0x09 <= u && u <= 0x0d) || u == 0x85 || u == 0xa0 || u == 0x1680 || (0x2000
        <= u && u <= 0x200a) || u == 0x2028 || u == 0x2029 || u == 0x202f || u == 0x205f || u
        == 0x3000
}

/// `s` without its leading white space.
pub open spec fn trim_start(s: Seq<char>) -> Seq<char>
    decreases s.len(),
{
    if s.len() > 0 && is_space(s[0]) {
        trim_start(s.drop_first())
    } else {
        s
    }
}

/// `s` without its trailing white space.
pub open spec fn trim_end(s: Seq<char>) -> Seq<char>
    decreases s.len(),
{
    if s.len() > 0 && is_space(s.last()) {
        trim_end(s.drop_last())
    } else {
        s
    }
}

/// `s` without white space at either end.
pub open spec fn trim(s: Seq<char>) -> Seq<char> {
    trim_end(trim_start(s))
}

/// The bounds, within `lo..hi`, of `s[lo..hi]` trimmed of white space.
pub fn trim_bounds(s: &Vec<char>, lo: usize, hi: usize) -> (r: (usize, usize))
    requires
        lo <= hi <= s@.len(),
    ensures
        lo <= r.0 <= r.1 <= hi,
        s@.subrange(r.0 as int, r.1 as int) == trim(s@.subrange(lo as int, hi as int)),
{
    let mut a: usize = lo;
    while a < hi && is_space_char(s[a])
        invariant
            lo <= a <= hi <= s@.len(),
            trim_start(s@.subrange(lo as int, hi as int)) == trim_start(
                s@.subrange(a as int, hi as int),
            ),
        decreases hi - a,
    {
        assert(s@.subrange(a as int, hi as int).drop_first() =~= s@.subrange(
            a + 1,
            hi as int,
        ));
        a = a + 1;
    }
    let mut b: usize = hi;
    while b > a && is_space_char(s[b - 1])
        invariant
            lo <= a <= b <= hi <= s@.len(),
            trim_end(s@.subrange(a as int, hi as int)) == trim_end(
                s@.subrange(a as int, b as int),
            ),
        decreases b - a,
    {
        assert(s@.subrange(a as int, b as int).drop_last() =~= s@.subrange(
            a as int,
            b - 1,
        ));
        b = b - 1;
    }
    (a, b)
}

/// The pieces of `s` between occurrences of `sep`, as `str::split` gives them:
/// never empty, and one piece more than there are separators.
pub open spec fn split_on(s: Seq<char>, sep: char) -> Seq<Seq<char>>
    decreases s.len(),
{
    if s.len() == 0 {
        seq![Seq::empty()]
    } else {
        let rest = split_on(s.drop_first(), sep);
        if s[0] == sep {
            seq![Seq::empty()] + rest
        } else {
            rest.update(0, seq![s[0]] + rest[0])
        }
    }
}

/// Splitting always gives at least one piece.
pub proof fn lemma_split_on_nonempty(s: Seq<char>, sep: char)
    ensures
        split_on(s, sep).len() >= 1,
    decreases s.len(),
{
    if s.len() > 0 {
        lemma_split_on_nonempty(s.drop_first(), sep);
    }
}

/// Splitting a suffix of `s` that starts with a piece `s[start..end]` free of
/// `sep`, ended by `sep` or by the end of `s`.
pub proof fn lemma_split_on_piece(s: Seq<char>, sep: char, start: int, end: int)
    requires
        0 <= start <= end <= s.len(),
        forall|i: int| start <= i < end ==> s[i] != sep,
        end < s.len() ==> s[end] == sep,
    ensures
        split_on(s.subrange(start, s.len() as int), sep) == if end < s.len() {
            seq![s.subrange(start, end)] + split_on(s.subrange(end + 1, s.len() as int), sep)
        } else {
            seq![s.subrange(start, end)]
        },
    decreases end - start,
{
    let t = s.subrange(start, s.len() as int);
    if start == end {
        if end < s.len() {
            assert(t.drop_first() =~= s.subrange(end + 1, s.len() as int));
            assert(s.subrange(start, end) =~= Seq::<char>::empty());
        } else {
            assert(t =~= Seq::<char>::empty());
            assert(s.subrange(start, end) =~= Seq::<char>::empty());
        }
    } else {
        lemma_split_on_piece(s, sep, start + 1, end);
        assert(t.drop_first() =~= s.subrange(start + 1, s.len() as int));
        lemma_split_on_nonempty(t.drop_first(), sep);
        assert(seq![s[start]] + s.subrange(start + 1, end) =~= s.subrange(start, end));
        let rest = split_on(t.drop_first(), sep);
        if end < s.len() {
            assert(rest.update(0, seq![t[0]] + rest[0]) =~= seq![s.subrange(start, end)]
                + split_on(s.subrange(end + 1, s.len() as int), sep));
        } else {
            assert(rest.update(0, seq![t[0]] + rest[0]) =~= seq![s.subrange(start, end)]);
        }
    }
}

/// The index of the first `sep` in `s[start..]`, or the length of `s`.
pub fn find_from(s: &Vec<char>, start: usize, sep: char) -> (r: usize)
    requires
        start <= s@.len(),
    ensures
        start <= r <= s@.len(),
        forall|i: int| start <= i < r ==> s@[i] != sep,
        r < s@.len() ==> s@[r as int] == sep,
{
    let mut i: usize = start;
    while i < s.len() && s[i] != sep
        invariant
            start <= i <= s@.len(),
            forall|j: int| start <= j < i ==> s@[j] != sep,
        decreases s@.len() - i,
    {
        i = i + 1;
    }
    i
}

/// The characters `s[lo..hi]` as a `String`.
pub fn string_of(s: &Vec<char>, lo: usize, hi: usize) -> (r: String)
    requires
        lo <= hi <= s@.len(),
    ensures
        r@ == s@.subrange(lo as int, hi as int),
{
    let mut out = String::new();
    let mut i: usize = lo;
    while i < hi
        invariant
            lo <= i <= hi <= s@.len(),
            out@ == s@.subrange(lo as int, i as int),
        decreases hi - i,
    {
        push_char(&mut out, s[i]);
        assert(s@.subrange(lo as int, i + 1) =~= s@.subrange(lo as int, i as int).push(s@[i as int]));
        i = i + 1;
    }
    out
}

/// Appends the characters of `v` to `out`.
pub fn push_all(out: &mut String, v: &Vec<char>)
    ensures
        final(out)@ == old(out)@ + v@,
{
    let mut i: usize = 0;
    while i < v.len()
        invariant
            i <= v@.len(),
            out@ == old(out)@ + v@.take(i as int),
        decreases v@.len() - i,
    {
        assert(v@.take(i + 1) =~= v@.take(i as int).push(v@[i as int]));
        push_char(out, v[i]);
        i = i + 1;
    }
    assert(v@.take(i as int) =~= v@);
}

/// Whether `s` begins with `p`.
pub open spec fn has_prefix(s: Seq<char>, p: Seq<char>) -> bool {
    p.len() <= s.len() && s.subrange(0, p.len() as int) == p
}

/// Whether `s` ends with `p`.
pub open spec fn has_suffix(s: Seq<char>, p: Seq<char>) -> bool {
    p.len() <= s.len() && s.subrange(s.len() - p.len(), s.len() as int) == p
}

/// Whether `s[lo..hi]` begins with `p`.
pub fn prefix_at(s: &Vec<char>, lo: usize, hi: usize, p: &str) -> (r: bool)
    requires
        lo <= hi <= s@.len(),
    ensures
        r == has_prefix(s@.subrange(lo as int, hi as int), p@),
{
    let n = p.unicode_len();
    if n > hi - lo {
        return false;
    }
    let mut j: usize = 0;
    while j < n
        invariant
            j <= n == p@.len(),
            lo + n <= hi <= s@.len(),
            forall|k: int| 0 <= k < j ==> s@[lo + k] == p@[k],
        decreases n - j,
    {
        if s[lo + j] != p.get_char(j) {
            assert(s@.subrange(lo as int, hi as int).subrange(0, n as int)[j as int]
                != p@[j as int]);
            return false;
        }
        j = j + 1;
    }
    assert(s@.subrange(lo as int, hi as int).subrange(0, n as int) =~= p@);
    true
}

/// Whether `s` ends with `p`.
pub fn ends_with(s: &Vec<char>, p: &str) -> (r: bool)
    ensures
        r == has_suffix(s@, p@),
{
    let n = p.unicode_len();
    if n > s.len() {
        return false;
    }
    let len = s.len();
    let lo = len - n;
    let mut j: usize = 0;
    while j < n
        invariant
            j <= n == p@.len(),
            len == s@.len(),
            lo + n == s@.len(),
            forall|k: int| 0 <= k < j ==> s@[lo + k] == p@[k],
        decreases n - j,
    {
        if s[lo + j] != p.get_char(j) {
            assert(s@.subrange(lo as int, s@.len() as int)[j as int] != p@[j as int]);
            return false;
        }
        j = j + 1;
    }
    assert(s@.subrange(lo as int, s@.len() as int) =~= p@);
    true
}

/// Whether `c` is `lower` or, for an ASCII letter, its upper-case form.
pub open spec fn matches_ci(c: char, lower: char) -> bool {
    c == lower || (65 <= c as u32 <= 90 && c as u32 + 32 == lower as u32)
}

/// Whether `needle` occurs in `hay` at `i`, ignoring ASCII case.
pub open spec fn occurs_ci_at(hay: Seq<char>, needle: Seq<char>, i: int) -> bool {
    &&& 0 <= i
    &&& i + needle.len() <= hay.len()
    &&& forall|j: int| 0 <= j < needle.len() ==> matches_ci(hay[i + j], needle[j])
}

/// Whether `needle`, written in lower case, occurs in `hay` ignoring ASCII case.
pub open spec fn contains_ci(hay: Seq<char>, needle: Seq<char>) -> bool {
    exists|i: int| #[trigger] occurs_ci_at(hay, needle, i)
}

fn char_matches_ci(c: char, lower: char) -> (r: bool)
    ensures
        r == matches_ci(c, lower),
{
    let u = c as u32;
    c == lower || (65 <= u && u <= 90 && u + 32 == lower as u32)
}

/// Whether `needle`, written in lower case, occurs in `hay` ignoring ASCII case.
pub fn contains_ignoring_case(hay: &Vec<char>, needle: &str) -> (r: bool)
    ensures
        r == contains_ci(hay@, needle@),
{
    let n = needle.unicode_len();
    let len = hay.len();
    if n > len {
        assert forall|i: int| !occurs_ci_at(hay@, needle@, i) by {}
        return false;
    }
    let mut i: usize = 0;
    while i <= len - n
        invariant
            n == needle@.len(),
            len == hay@.len(),
            n <= len,
            forall|k: int| 0 <= k < i ==> !#[trigger] occurs_ci_at(hay@, needle@, k),
        decreases len - n + 1 - i,
    {
        let mut j: usize = 0;
        let mut ok = true;
        while j < n && ok
            invariant
                j <= n == needle@.len(),
                i + n <= len == hay@.len(),
                ok ==> forall|m: int| 0 <= m < j ==> matches_ci(hay@[i + m], needle@[m]),
                !ok ==> !occurs_ci_at(hay@, needle@, i as int),
            decreases n - j + (if ok { 1int } else { 0int }),
        {
            if !char_matches_ci(hay[i + j], needle.get_char(j)) {
                ok = false;
            } else {
                j = j + 1;
            }
        }
        if ok {
            assert(occurs_ci_at(hay@, needle@, i as int));
            return true;
        }
        i = i + 1;
    }
    assert forall|k: int| !occurs_ci_at(hay@, needle@, k) by {
        if 0 <= k < i {
        }
    }
    false
}

/// An optional `String` as characters.
pub open spec fn opt_string_view(o: Option<String>) -> Option<Seq<char>> {
    match o {
        Some(s) => Some(s@),
        None => None,
    }
}

} // verus!
