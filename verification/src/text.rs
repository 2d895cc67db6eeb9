//! Character-level helpers for the plain-text formats the maintenance tools
//! read: splitting on a separator, whitespace, and lines.

use vstd::prelude::*;
use vstd::string::*;

verus! {

/// The pieces of `s` between occurrences of `sep` (as `str::split` gives
/// them: an empty text is one empty piece).
pub open spec fn split_on(s: Seq<char>, sep: char) -> Seq<Seq<char>>
    decreases s.len(),
{
    if s.len() == 0 {
        seq![Seq::<char>::empty()]
    } else {
        let prev = split_on(s.drop_last(), sep);
        if s.last() == sep {
            prev.push(Seq::empty())
        } else {
            prev.update(prev.len() - 1, prev.last().push(s.last()))
        }
    }
}

pub proof fn lemma_split_on_nonempty(s: Seq<char>, sep: char)
    ensures
        split_on(s, sep).len() >= 1,
    decreases s.len(),
{
    if s.len() > 0 {
        lemma_split_on_nonempty(s.drop_last(), sep);
    }
}

/// `ranges` cut `s` into the pieces `parts`.
pub open spec fn ranges_cut(s: Seq<char>, ranges: Seq<(usize, usize)>, parts: Seq<Seq<char>>) -> bool {
    &&& ranges.len() == parts.len()
    &&& forall|k: int|
        #![trigger ranges[k]]
        0 <= k < ranges.len() ==> {
            &&& ranges[k].0 <= ranges[k].1 <= s.len()
            &&& s.subrange(ranges[k].0 as int, ranges[k].1 as int) == parts[k]
        }
}

/// The character ranges of the pieces of `s[from..]` between occurrences of `sep`.
pub fn split_ranges(s: &str, from: usize, sep: char) -> (r: Vec<(usize, usize)>)
    requires
        from <= s@.len(),
    ensures
        ranges_cut(s@, r@, split_on(s@.skip(from as int), sep)),
{
    let n = s.unicode_len();
    let mut ranges: Vec<(usize, usize)> = Vec::new();
    let mut start = from;
    let mut i = from;
    proof {
        assert(s@.subrange(from as int, from as int) =~= s@.skip(from as int).take(0));
        assert(s@.skip(from as int).take(0) =~= Seq::<char>::empty());
    }
    while i < n
        invariant
            n == s@.len(),
            from <= start <= i <= n,
            ranges_cut(s@, ranges@, split_on(s@.skip(from as int).take(i - from), sep).drop_last()),
            split_on(s@.skip(from as int).take(i - from), sep).last() == s@.subrange(start as int, i as int),
            split_on(s@.skip(from as int).take(i - from), sep).len() == ranges@.len() + 1,
        decreases n - i,
    {
        let c = s.get_char(i);
        let ghost prefix = s@.skip(from as int).take(i - from);
        let ghost next = s@.skip(from as int).take(i + 1 - from);
        proof {
            assert(next.drop_last() =~= prefix);
            assert(next.last() == c);
            lemma_split_on_nonempty(prefix, sep);
        }
        if c == sep {
            let ghost old_ranges = ranges@;
            let ghost old_start = start;
            ranges.push((start, i));
            start = i + 1;
            proof {
                let parts = split_on(prefix, sep);
                assert(split_on(next, sep) == parts.push(Seq::empty()));
                assert(split_on(next, sep).drop_last() =~= parts);
                assert(s@.subrange(start as int, i + 1) =~= Seq::<char>::empty());
                assert forall|k: int| #![trigger ranges@[k]] 0 <= k < ranges@.len() implies {
                    &&& ranges@[k].0 <= ranges@[k].1 <= s@.len()
                    &&& s@.subrange(ranges@[k].0 as int, ranges@[k].1 as int) == parts[k]
                } by {
                    if k < old_ranges.len() {
                        assert(ranges@[k] == old_ranges[k]);
                        assert(parts.drop_last()[k] == parts[k]);
                    } else {
                        assert(ranges@[k] == (old_start, i));
                    }
                }
                assert(ranges_cut(s@, ranges@, split_on(next, sep).drop_last()));
            }
        } else {
            proof {
                let prev = split_on(prefix, sep);
                assert(split_on(next, sep) == prev.update(prev.len() - 1, prev.last().push(c)));
                assert(split_on(next, sep).drop_last() =~= prev.drop_last());
                assert(s@.subrange(start as int, i + 1) =~= s@.subrange(start as int, i as int).push(c));
                assert(ranges_cut(s@, ranges@, split_on(next, sep).drop_last()));
            }
        }
        i = i + 1;
    }
    ranges.push((start, i));
    proof {
        let all = s@.skip(from as int).take(i - from);
        assert(all =~= s@.skip(from as int));
        lemma_split_on_nonempty(all, sep);
        assert(split_on(all, sep) =~= split_on(all, sep).drop_last().push(split_on(all, sep).last()));
        assert forall|k: int| #![trigger ranges@[k]] 0 <= k < ranges@.len() implies {
            &&& ranges@[k].0 <= ranges@[k].1 <= s@.len()
            &&& s@.subrange(ranges@[k].0 as int, ranges@[k].1 as int) == split_on(all, sep)[k]
        } by {
            if k < ranges@.len() - 1 {
                assert(split_on(all, sep).drop_last()[k] == split_on(all, sep)[k]);
            }
        }
    }
    ranges
}

/// Unicode `White_Space`, as `char::is_whitespace` and `str::trim` use it.
pub open spec fn is_ws(c: char) -> bool {
    ||| ('\u{9}' <= c && c <= '\u{d}')
    ||| c == ' '
    ||| c == '\u{85}'
    ||| c == '\u{a0}'
    ||| c == '\u{1680}'
    ||| ('\u{2000}' <= c && c <= '\u{200a}')
    ||| c == '\u{2028}'
    ||| c == '\u{2029}'
    ||| c == '\u{202f}'
    ||| c == '\u{205f}'
    ||| c == '\u{3000}'
}

pub fn is_whitespace(c: char) -> (r: bool)
    ensures
        r == is_ws(c),
{
    ('\u{9}' <= c && c <= '\u{d}') || c == ' ' || c == '\u{85}' || c == '\u{a0}' || c == '\u{1680}'
        || ('\u{2000}' <= c && c <= '\u{200a}') || c == '\u{2028}' || c == '\u{2029}' || c
        == '\u{202f}' || c == '\u{205f}' || c == '\u{3000}'
}

pub open spec fn is_digit(c: char) -> bool {
    '0' <= c && c <= '9'
}

pub open spec fn is_alnum(c: char) -> bool {
    is_digit(c) || ('a' <= c && c <= 'z') || ('A' <= c && c <= 'Z')
}

pub open spec fn all_digits(p: Seq<char>) -> bool {
    forall|i: int| 0 <= i < p.len() ==> is_digit(#[trigger] p[i])
}

/// Whether `s[from..to]` is all ASCII digits.
pub fn digits_in(s: &str, from: usize, to: usize) -> (r: bool)
    requires
        from <= to <= s@.len(),
    ensures
        r == all_digits(s@.subrange(from as int, to as int)),
{
    let mut i = from;
    while i < to
        invariant
            from <= i <= to <= s@.len(),
            all_digits(s@.subrange(from as int, i as int)),
        decreases to - i,
    {
        let c = s.get_char(i);
        if !('0' <= c && c <= '9') {
            assert(s@.subrange(from as int, to as int)[i - from] == c);
            return false;
        }
        assert(forall|k: int|
            0 <= k < i + 1 - from ==> #[trigger] s@.subrange(from as int, i + 1)[k] == s@.subrange(
                from as int,
                i as int,
            ).push(c)[k]);
        i = i + 1;
    }
    true
}

/// Whether `s` holds `c`.
pub fn contains_char(s: &str, c: char) -> (r: bool)
    ensures
        r == s@.contains(c),
{
    let n = s.unicode_len();
    let mut i: usize = 0;
    while i < n
        invariant
            n == s@.len(),
            i <= n,
            forall|k: int| 0 <= k < i ==> s@[k] != c,
        decreases n - i,
    {
        if s.get_char(i) == c {
            return true;
        }
        i = i + 1;
    }
    false
}

/// `line` without one trailing carriage return.
pub open spec fn strip_cr(line: Seq<char>) -> Seq<char> {
    if line.len() > 0 && line.last() == '\r' {
        line.drop_last()
    } else {
        line
    }
}

/// The lines of `s`, as `str::lines` gives them: split at `\n`, a `\r`
/// before a `\n` dropped, and no empty line after a final line ending.
pub open spec fn lines_of(s: Seq<char>) -> Seq<Seq<char>> {
    let parts = split_on(s, '\n');
    let body = parts.drop_last().map_values(|p: Seq<char>| strip_cr(p));
    if parts.last().len() == 0 {
        body
    } else {
        body.push(parts.last())
    }
}

/// The character ranges of the lines of `s`.
pub fn line_ranges(s: &str) -> (r: Vec<(usize, usize)>)
    ensures
        ranges_cut(s@, r@, lines_of(s@)),
{
    let parts = split_ranges(s, 0, '\n');
    let ghost pieces = split_on(s@.skip(0), '\n');
    proof {
        assert(s@.skip(0) =~= s@);
        lemma_split_on_nonempty(s@, '\n');
    }
    let mut out: Vec<(usize, usize)> = Vec::new();
    let mut k: usize = 0;
    while k < parts.len() - 1
        invariant
            ranges_cut(s@, parts@, pieces),
            pieces == split_on(s@, '\n'),
            parts@.len() >= 1,
            k + 1 <= parts@.len(),
            ranges_cut(s@, out@, pieces.take(k as int).map_values(|p: Seq<char>| strip_cr(p))),
        decreases parts.len() - k,
    {
        let (a, b) = parts[k];
        let ghost p = pieces[k as int];
        let ghost old_out = out@;
        proof {
            assert(parts@[k as int] == (a, b));
            assert(s@.subrange(a as int, b as int) == p);
        }
        if b > a && s.get_char(b - 1) == '\r' {
            out.push((a, b - 1));
            proof {
                assert(p.last() == s@[b - 1]);
                assert(s@.subrange(a as int, b - 1) =~= p.drop_last());
                assert(strip_cr(p) == p.drop_last());
            }
        } else {
            out.push((a, b));
            proof {
                if b > a {
                    assert(p.last() == s@[b - 1]);
                }
                assert(strip_cr(p) == p);
            }
        }
        proof {
            let mapped = pieces.take(k + 1).map_values(|p: Seq<char>| strip_cr(p));
            let prev = pieces.take(k as int).map_values(|p: Seq<char>| strip_cr(p));
            assert(mapped[k as int] == strip_cr(p));
            assert(out@[k as int].0 <= out@[k as int].1 <= s@.len());
            assert(s@.subrange(out@[k as int].0 as int, out@[k as int].1 as int) == mapped[k as int]);
            assert forall|j: int| #![trigger out@[j]] 0 <= j < out@.len() implies {
                &&& out@[j].0 <= out@[j].1 <= s@.len()
                &&& s@.subrange(out@[j].0 as int, out@[j].1 as int) == mapped[j]
            } by {
                if j < k {
                    assert(out@[j] == old_out[j]);
                    assert(mapped[j] == prev[j]);
                }
            }
        }
        k = k + 1;
    }
    let (a, b) = parts[k];
    let ghost body = pieces.drop_last().map_values(|p: Seq<char>| strip_cr(p));
    proof {
        assert(pieces.take(k as int) =~= pieces.drop_last());
        assert(parts@[k as int] == (a, b));
        assert(s@.subrange(a as int, b as int) == pieces.last());
    }
    if b > a {
        let ghost old_out = out@;
        out.push((a, b));
        proof {
            assert forall|j: int| #![trigger out@[j]] 0 <= j < out@.len() implies {
                &&& out@[j].0 <= out@[j].1 <= s@.len()
                &&& s@.subrange(out@[j].0 as int, out@[j].1 as int) == body.push(pieces.last())[j]
            } by {
                if j < k {
                    assert(out@[j] == old_out[j]);
                    assert(body.push(pieces.last())[j] == body[j]);
                } else {
                    assert(out@[j] == (a, b));
                }
            }
        }
    } else {
        assert(pieces.last().len() == 0);
    }
    out
}

/// The whitespace-separated tokens of `s` (as `str::split_whitespace` gives
/// them), and whether `s` ends inside a token.
pub open spec fn tokens_acc(s: Seq<char>) -> (Seq<Seq<char>>, bool)
    decreases s.len(),
{
    if s.len() == 0 {
        (Seq::empty(), false)
    } else {
        let (t, inside) = tokens_acc(s.drop_last());
        let c = s.last();
        if is_ws(c) {
            (t, false)
        } else if inside {
            (t.update(t.len() - 1, t.last().push(c)), true)
        } else {
            (t.push(seq![c]), true)
        }
    }
}

pub open spec fn tokens(s: Seq<char>) -> Seq<Seq<char>> {
    tokens_acc(s).0
}

proof fn lemma_tokens_inside(s: Seq<char>)
    ensures
        tokens_acc(s).1 ==> tokens_acc(s).0.len() > 0,
    decreases s.len(),
{
    if s.len() > 0 {
        lemma_tokens_inside(s.drop_last());
    }
}

/// The character ranges of the whitespace-separated tokens of `s[from..to]`.
pub fn token_ranges(s: &str, from: usize, to: usize) -> (r: Vec<(usize, usize)>)
    requires
        from <= to <= s@.len(),
    ensures
        ranges_cut(s@, r@, tokens(s@.subrange(from as int, to as int))),
{
    let mut out: Vec<(usize, usize)> = Vec::new();
    let mut inside = false;
    let mut start = from;
    let mut i = from;
    proof {
        assert(s@.subrange(from as int, from as int) =~= Seq::<char>::empty());
    }
    while i < to
        invariant
            from <= start <= i <= to <= s@.len(),
            tokens_acc(s@.subrange(from as int, i as int)).1 == inside,
            !inside ==> ranges_cut(s@, out@, tokens(s@.subrange(from as int, i as int))),
            inside ==> ranges_cut(
                s@,
                out@.push((start, i)),
                tokens(s@.subrange(from as int, i as int)),
            ),
        decreases to - i,
    {
        let c = s.get_char(i);
        let ghost prefix = s@.subrange(from as int, i as int);
        let ghost next = s@.subrange(from as int, i + 1);
        proof {
            assert(next.drop_last() =~= prefix);
            assert(next.last() == c);
            lemma_tokens_inside(prefix);
        }
        if is_whitespace(c) {
            if inside {
                out.push((start, i));
            }
            inside = false;
        } else {
            if !inside {
                start = i;
                inside = true;
                proof {
                    assert(s@.subrange(i as int, i + 1) =~= seq![c]);
                    let t = tokens(prefix);
                    assert forall|j: int| #![trigger out@.push((start, (i + 1) as usize))[j]] 0 <= j < out@.push((start, (i + 1) as usize)).len() implies {
                        &&& out@.push((start, (i + 1) as usize))[j].0 <= out@.push((start, (i + 1) as usize))[j].1 <= s@.len()
                        &&& s@.subrange(
                            out@.push((start, (i + 1) as usize))[j].0 as int,
                            out@.push((start, (i + 1) as usize))[j].1 as int,
                        ) == t.push(seq![c])[j]
                    } by {
                        if j < out@.len() {
                            assert(out@.push((start, (i + 1) as usize))[j] == out@[j]);
                        }
                    }
                }
            } else {
                proof {
                    let t = tokens(prefix);
                    assert(out@.push((start, i))[out@.len() as int] == (start, i));
                    assert(t.len() == out@.len() + 1);
                    assert(s@.subrange(start as int, i + 1) =~= s@.subrange(start as int, i as int).push(c));
                    assert forall|j: int| #![trigger out@.push((start, (i + 1) as usize))[j]] 0 <= j < out@.push((start, (i + 1) as usize)).len() implies {
                        &&& out@.push((start, (i + 1) as usize))[j].0 <= out@.push((start, (i + 1) as usize))[j].1 <= s@.len()
                        &&& s@.subrange(
                            out@.push((start, (i + 1) as usize))[j].0 as int,
                            out@.push((start, (i + 1) as usize))[j].1 as int,
                        ) == t.update(t.len() - 1, t.last().push(c))[j]
                    } by {
                        if j < out@.len() {
                            assert(out@.push((start, (i + 1) as usize))[j] == out@[j]);
                            assert(out@.push((start, i))[j] == out@[j]);
                        } else {
                            assert(out@.push((start, i))[j] == (start, i));
                            assert(s@.subrange(start as int, i as int) == t[j]);
                        }
                    }
                }
            }
        }
        i = i + 1;
    }
    if inside {
        out.push((start, i));
    }
    out
}

/// The characters of `s`.
pub fn chars_of(s: &str) -> (r: Vec<char>)
    ensures
        r@ == s@,
{
    let mut out: Vec<char> = Vec::new();
    for c in it: s.chars()
        invariant
            out@ == it.seq().take(it.index() as int),
    {
        out.push(c);
    }
    out
}

/// `p` occurs in `s` at `i`.
pub open spec fn occurs_at(s: Seq<char>, p: Seq<char>, i: int) -> bool {
    0 <= i && i + p.len() <= s.len() && s.subrange(i, i + p.len()) == p
}

/// `s` contains `p`.
pub open spec fn contains_seq(s: Seq<char>, p: Seq<char>) -> bool {
    exists|i: int| occurs_at(s, p, i)
}

/// `i` is the first place where `p` occurs in `s`.
pub open spec fn first_occurrence(s: Seq<char>, p: Seq<char>, i: int) -> bool {
    occurs_at(s, p, i) && forall|j: int| 0 <= j < i ==> !occurs_at(s, p, j)
}

/// `s` with the first occurrence of `p` replaced by `r`, as `str::replacen(p, r, 1)`.
pub open spec fn replace_first(s: Seq<char>, p: Seq<char>, r: Seq<char>) -> Seq<char> {
    if contains_seq(s, p) {
        let i = choose|i: int| first_occurrence(s, p, i);
        s.take(i) + r + s.skip(i + p.len())
    } else {
        s
    }
}

pub proof fn lemma_first_occurrence_unique(s: Seq<char>, p: Seq<char>, i: int, j: int)
    requires
        first_occurrence(s, p, i),
        first_occurrence(s, p, j),
    ensures
        i == j,
{
}

/// Whether `p` occurs in `s` at `i`.
pub fn occurs_at_exec(s: &[char], p: &[char], i: usize) -> (r: bool)
    ensures
        r == occurs_at(s@, p@, i as int),
{
    if i > s.len() || s.len() - i < p.len() {
        return false;
    }
    let mut k: usize = 0;
    while k < p.len()
        invariant
            i + p@.len() <= s@.len(),
            s@.len() <= usize::MAX,
            k <= p@.len(),
            forall|m: int| 0 <= m < k ==> s@[i + m] == p@[m],
        decreases p.len() - k,
    {
        if s[i + k] != p[k] {
            assert(s@.subrange(i as int, i + p@.len())[k as int] != p@[k as int]);
            return false;
        }
        k = k + 1;
    }
    assert(s@.subrange(i as int, i + p@.len()) =~= p@);
    true
}

/// The first place where `p` occurs in `s`.
pub fn find_first(s: &[char], p: &[char]) -> (r: Option<usize>)
    ensures
        match r {
            Some(i) => first_occurrence(s@, p@, i as int),
            None => !contains_seq(s@, p@),
        },
{
    if p.len() > s.len() {
        assert forall|i: int| !occurs_at(s@, p@, i) by {}
        return None;
    }
    let last = s.len() - p.len();
    let mut i: usize = 0;
    while i <= last
        invariant
            last == s@.len() - p@.len(),
            forall|j: int| 0 <= j < i ==> !occurs_at(s@, p@, j),
        decreases last + 1 - i,
    {
        if occurs_at_exec(s, p, i) {
            return Some(i);
        }
        if i == last {
            assert forall|j: int| !occurs_at(s@, p@, j) by {
                if 0 <= j && j < i {
                } else if j > last {
                }
            }
            return None;
        }
        i = i + 1;
    }
    None
}

/// `s` without leading whitespace, as `str::trim_start`.
pub open spec fn trim_start(s: Seq<char>) -> Seq<char>
    decreases s.len(),
{
    if s.len() > 0 && is_ws(s[0]) {
        trim_start(s.skip(1))
    } else {
        s
    }
}

/// `s` without trailing whitespace, as `str::trim_end`.
pub open spec fn trim_end(s: Seq<char>) -> Seq<char>
    decreases s.len(),
{
    if s.len() > 0 && is_ws(s.last()) {
        trim_end(s.drop_last())
    } else {
        s
    }
}

/// `s` without surrounding whitespace, as `str::trim`.
pub open spec fn trim(s: Seq<char>) -> Seq<char> {
    trim_end(trim_start(s))
}

/// The range of `s[from..to]` left after `str::trim_start`.
pub fn trim_start_range(s: &[char], from: usize, to: usize) -> (r: usize)
    requires
        from <= to <= s@.len(),
    ensures
        from <= r <= to,
        s@.subrange(r as int, to as int) == trim_start(s@.subrange(from as int, to as int)),
        forall|j: int| from <= j < r ==> is_ws(#[trigger] s@[j]),
        r < to ==> !is_ws(s@[r as int]),
{
    let mut i = from;
    while i < to && is_whitespace(s[i])
        invariant
            from <= i <= to <= s@.len(),
            trim_start(s@.subrange(i as int, to as int)) == trim_start(s@.subrange(from as int, to as int)),
            forall|j: int| from <= j < i ==> is_ws(#[trigger] s@[j]),
        decreases to - i,
    {
        assert(s@.subrange(i as int, to as int).skip(1) =~= s@.subrange(i + 1, to as int));
        i = i + 1;
    }
    i
}

/// The range of `s[from..to]` left after `str::trim_end`.
pub fn trim_end_range(s: &[char], from: usize, to: usize) -> (r: usize)
    requires
        from <= to <= s@.len(),
    ensures
        from <= r <= to,
        s@.subrange(from as int, r as int) == trim_end(s@.subrange(from as int, to as int)),
        forall|j: int| r <= j < to ==> is_ws(#[trigger] s@[j]),
{
    let mut j = to;
    while j > from && is_whitespace(s[j - 1])
        invariant
            from <= j <= to <= s@.len(),
            trim_end(s@.subrange(from as int, j as int)) == trim_end(s@.subrange(from as int, to as int)),
            forall|k: int| j <= k < to ==> is_ws(#[trigger] s@[k]),
        decreases j - from,
    {
        assert(s@.subrange(from as int, j as int).drop_last() =~= s@.subrange(from as int, j - 1));
        j = j - 1;
    }
    j
}

/// `i` is the first index of `c` in `s`.
pub open spec fn first_index_of(s: Seq<char>, c: char, i: int) -> bool {
    0 <= i < s.len() && s[i] == c && forall|j: int| 0 <= j < i ==> s[j] != c
}

/// The first index of `c` in `s[from..to]`, counted from the start of `s`.
pub fn find_char(s: &[char], c: char, from: usize, to: usize) -> (r: Option<usize>)
    requires
        from <= to <= s@.len(),
    ensures
        match r {
            Some(i) => from <= i < to && s@[i as int] == c && forall|j: int| from <= j < i ==> s@[j] != c,
            None => forall|j: int| from <= j < to ==> s@[j] != c,
        },
{
    let mut i = from;
    while i < to
        invariant
            from <= i <= to <= s@.len(),
            forall|j: int| from <= j < i ==> s@[j] != c,
        decreases to - i,
    {
        if s[i] == c {
            return Some(i);
        }
        i = i + 1;
    }
    None
}

/// The last index of `c` in `s[from..to]`.
pub fn rfind_char(s: &[char], c: char, from: usize, to: usize) -> (r: Option<usize>)
    requires
        from <= to <= s@.len(),
    ensures
        match r {
            Some(i) => from <= i < to && s@[i as int] == c && forall|j: int| i < j < to ==> s@[j] != c,
            None => forall|j: int| from <= j < to ==> s@[j] != c,
        },
{
    let mut i = to;
    while i > from
        invariant
            from <= i <= to <= s@.len(),
            forall|j: int| i <= j < to ==> s@[j] != c,
        decreases i - from,
    {
        if s[i - 1] == c {
            return Some(i - 1);
        }
        i = i - 1;
    }
    None
}

/// `s` without leading `c`.
pub open spec fn trim_char_start(s: Seq<char>, c: char) -> Seq<char>
    decreases s.len(),
{
    if s.len() > 0 && s[0] == c {
        trim_char_start(s.skip(1), c)
    } else {
        s
    }
}

/// `s` without trailing `c`.
pub open spec fn trim_char_end(s: Seq<char>, c: char) -> Seq<char>
    decreases s.len(),
{
    if s.len() > 0 && s.last() == c {
        trim_char_end(s.drop_last(), c)
    } else {
        s
    }
}

/// `parts` joined with `sep` between neighbours.
pub open spec fn join_str(parts: Seq<Seq<char>>, sep: Seq<char>) -> Seq<char>
    decreases parts.len(),
{
    if parts.len() == 0 {
        Seq::empty()
    } else if parts.len() == 1 {
        parts[0]
    } else {
        join_str(parts.drop_last(), sep) + sep + parts.last()
    }
}

/// The texts of `v`.
pub open spec fn texts(v: Seq<String>) -> Seq<Seq<char>> {
    v.map_values(|s: String| s@)
}

/// Append `parts` joined with `sep`.
pub fn push_joined(out: &mut String, parts: &[String], sep: &str)
    ensures
        final(out)@ == old(out)@ + join_str(texts(parts@), sep@),
{
    let n = parts.len();
    let mut i: usize = 0;
    while i < n
        invariant
            n == parts@.len(),
            i <= n,
            out@ == old(out)@ + join_str(texts(parts@).take(i as int), sep@),
        decreases n - i,
    {
        let ghost before = out@;
        if i > 0 {
            out.append(sep);
        }
        out.append(parts[i].as_str());
        proof {
            let ps = texts(parts@);
            assert(ps.take(i + 1).drop_last() =~= ps.take(i as int));
            assert(ps.take(i + 1).last() == parts@[i as int]@);
            if i == 0 {
                assert(ps.take(1) =~= seq![parts@[0]@]);
                assert(join_str(ps.take(0), sep@) =~= Seq::<char>::empty());
            }
            assert(out@ =~= old(out)@ + join_str(ps.take(i + 1), sep@));
        }
        i = i + 1;
    }
    assert(texts(parts@).take(n as int) =~= texts(parts@));
}

/// `s` without trailing `c`, as `str::trim_end_matches(c)`.
pub fn trim_end_char(s: &str, c: char) -> (r: &str)
    ensures
        r@ == trim_char_end(s@, c),
{
    let n = s.unicode_len();
    let mut j = n;
    assert(s@.subrange(0, n as int) =~= s@);
    while j > 0 && s.get_char(j - 1) == c
        invariant
            j <= n == s@.len(),
            trim_char_end(s@.subrange(0, j as int), c) == trim_char_end(s@, c),
        decreases j,
    {
        assert(s@.subrange(0, j as int).drop_last() =~= s@.subrange(0, j - 1));
        j = j - 1;
    }
    s.substring_char(0, j)
}

/// An occurrence at `j` means there is a first occurrence, at or before `j`.
proof fn lemma_first_occurrence_below(s: Seq<char>, p: Seq<char>, j: int)
    requires
        occurs_at(s, p, j),
    ensures
        exists|i: int| i <= j && first_occurrence(s, p, i),
    decreases j,
{
    if exists|k: int| 0 <= k < j && occurs_at(s, p, k) {
        let k = choose|k: int| 0 <= k < j && occurs_at(s, p, k);
        lemma_first_occurrence_below(s, p, k);
    } else {
        assert(first_occurrence(s, p, j));
    }
}

/// Text that contains `p` has a first occurrence of it.
pub proof fn lemma_first_occurrence_exists(s: Seq<char>, p: Seq<char>)
    requires
        contains_seq(s, p),
    ensures
        exists|i: int| first_occurrence(s, p, i),
{
    let j = choose|j: int| occurs_at(s, p, j);
    lemma_first_occurrence_below(s, p, j);
}

} // verus!
