//! Line-preserving edits of Cargo manifests and lockfiles: the version of the
//! local crates is rewritten in place and every other byte stays as it was.

use crate::text::{
    chars_of, find_char, is_ws, lines_of, ranges_cut, rfind_char, split_on, split_ranges,
    trim_end_range, trim_start, trim_start_range, lemma_split_on_nonempty,
};
use crate::versions::{is_upstream_package_name, parse_version, parse_version_spec, str_equal, upstream_package_name, Version};
use vstd::prelude::*;
use vstd::string::*;

verus! {

/// How a line ends.
#[derive(Clone, Copy, Debug, PartialEq, Eq, Structural)]
pub enum LineEnding {
    CrLf,
    Lf,
    /// The last line of a text without a final line ending.
    NoEnding,
}

pub open spec fn ending_text(e: LineEnding) -> Seq<char> {
    match e {
        LineEnding::CrLf => seq!['\r', '\n'],
        LineEnding::Lf => seq!['\n'],
        LineEnding::NoEnding => Seq::empty(),
    }
}

pub fn ending_str(e: LineEnding) -> (s: &'static str)
    ensures
        s@ == ending_text(e),
{
    proof {
        reveal_strlit("\r\n");
        reveal_strlit("\n");
        reveal_strlit("");
    }
    match e {
        LineEnding::CrLf => "\r\n",
        LineEnding::Lf => "\n",
        LineEnding::NoEnding => "",
    }
}

/// A piece of text that a `\n` ended, split into its body and ending.
pub open spec fn piece_line(p: Seq<char>) -> (Seq<char>, LineEnding) {
    if p.len() > 0 && p.last() == '\r' {
        (p.drop_last(), LineEnding::CrLf)
    } else {
        (p, LineEnding::Lf)
    }
}

/// The lines of `t` with their endings; a text ending in a line ending has
/// no empty last line, and an empty text has no lines.
pub open spec fn text_lines(t: Seq<char>) -> Seq<(Seq<char>, LineEnding)> {
    let parts = split_on(t, '\n');
    let body = parts.drop_last().map_values(|p: Seq<char>| piece_line(p));
    if parts.last().len() == 0 {
        body
    } else {
        body.push((parts.last(), LineEnding::NoEnding))
    }
}

/// The text of `ls`: each body followed by its ending.
pub open spec fn joined(ls: Seq<(Seq<char>, LineEnding)>) -> Seq<char>
    decreases ls.len(),
{
    if ls.len() == 0 {
        Seq::empty()
    } else {
        joined(ls.drop_last()) + ls.last().0 + ending_text(ls.last().1)
    }
}

/// The pieces of a split joined back with the separator.
pub open spec fn join_with(ps: Seq<Seq<char>>, sep: char) -> Seq<char>
    decreases ps.len(),
{
    if ps.len() == 0 {
        Seq::empty()
    } else if ps.len() == 1 {
        ps[0]
    } else {
        join_with(ps.drop_last(), sep) + seq![sep] + ps.last()
    }
}

proof fn lemma_split_join(s: Seq<char>, sep: char)
    ensures
        join_with(split_on(s, sep), sep) == s,
    decreases s.len(),
{
    if s.len() == 0 {
        assert(join_with(split_on(s, sep), sep) =~= s);
    } else {
        let prev = split_on(s.drop_last(), sep);
        lemma_split_join(s.drop_last(), sep);
        lemma_split_on_nonempty(s.drop_last(), sep);
        if s.last() == sep {
            assert(split_on(s, sep).drop_last() =~= prev);
            assert(s =~= s.drop_last() + seq![sep] + Seq::<char>::empty());
        } else {
            let cur = split_on(s, sep);
            assert(cur.len() == prev.len());
            if prev.len() == 1 {
                assert(s =~= s.drop_last().push(s.last()));
            } else {
                assert(cur.drop_last() =~= prev.drop_last());
                assert(join_with(prev, sep) == join_with(prev.drop_last(), sep) + seq![sep] + prev.last());
                assert(s =~= s.drop_last().push(s.last()));
                assert(join_with(cur, sep) =~= join_with(prev, sep).push(s.last()));
            }
        }
    }
}

/// Every piece followed by a newline.
pub open spec fn with_newlines(ps: Seq<Seq<char>>) -> Seq<char>
    decreases ps.len(),
{
    if ps.len() == 0 {
        Seq::empty()
    } else {
        with_newlines(ps.drop_last()) + ps.last() + seq!['\n']
    }
}

proof fn lemma_join_with_newlines(ps: Seq<Seq<char>>)
    requires
        ps.len() >= 1,
    ensures
        join_with(ps, '\n') == with_newlines(ps.drop_last()) + ps.last(),
    decreases ps.len(),
{
    if ps.len() == 1 {
        assert(ps.drop_last() =~= Seq::<Seq<char>>::empty());
        assert(with_newlines(ps.drop_last()) + ps.last() =~= ps[0]);
    } else {
        lemma_join_with_newlines(ps.drop_last());
        assert(ps.drop_last().drop_last() =~= ps.drop_last().drop_last());
        assert(with_newlines(ps.drop_last()) == with_newlines(ps.drop_last().drop_last()) + ps.drop_last().last()
            + seq!['\n']);
        assert(join_with(ps, '\n') =~= with_newlines(ps.drop_last()) + ps.last());
    }
}

proof fn lemma_joined_pieces(ps: Seq<Seq<char>>)
    ensures
        joined(ps.map_values(|p: Seq<char>| piece_line(p))) == with_newlines(ps),
    decreases ps.len(),
{
    let f = |p: Seq<char>| piece_line(p);
    if ps.len() > 0 {
        lemma_joined_pieces(ps.drop_last());
        assert(ps.map_values(f).drop_last() =~= ps.drop_last().map_values(f));
        let p = ps.last();
        assert(ps.map_values(f).last() == piece_line(p));
        if p.len() > 0 && p.last() == '\r' {
            assert(p.drop_last() + seq!['\r', '\n'] =~= p + seq!['\n']);
        }
        assert(joined(ps.map_values(f)) =~= with_newlines(ps));
    }
}

/// Law: splitting a text into lines and joining them gives the text back,
/// so an edit of some lines leaves every other character in place.
pub proof fn lemma_lines_roundtrip(t: Seq<char>)
    ensures
        joined(text_lines(t)) == t,
{
    let parts = split_on(t, '\n');
    lemma_split_on_nonempty(t, '\n');
    lemma_split_join(t, '\n');
    lemma_join_with_newlines(parts);
    lemma_joined_pieces(parts.drop_last());
    let body = parts.drop_last().map_values(|p: Seq<char>| piece_line(p));
    if parts.last().len() == 0 {
        assert(t =~= with_newlines(parts.drop_last()));
    } else {
        assert(body.push((parts.last(), LineEnding::NoEnding)).drop_last() =~= body);
        assert(joined(body.push((parts.last(), LineEnding::NoEnding))) =~= with_newlines(parts.drop_last())
            + parts.last());
    }
}

/// One line of a text: its body and how it ends.
pub struct Line {
    pub body: String,
    pub ending: LineEnding,
}

/// A text as lines that keep their endings.
pub struct Lines {
    lines: Vec<Line>,
}

impl View for Lines {
    type V = Seq<(Seq<char>, LineEnding)>;

    closed spec fn view(&self) -> Seq<(Seq<char>, LineEnding)> {
        self.lines@.map_values(|l: Line| (l.body@, l.ending))
    }
}

impl Lines {
    /// Split `text` into lines, keeping each line's ending.
    pub fn from(text: &str) -> (r: Self)
        ensures
            r@ == text_lines(text@),
    {
        let parts = split_ranges(text, 0, '\n');
        let chars = chars_of(text);
        let ghost pieces = split_on(text@, '\n');
        proof {
            assert(text@.skip(0) =~= text@);
            lemma_split_on_nonempty(text@, '\n');
        }
        let mut lines: Vec<Line> = Vec::new();
        let mut k: usize = 0;
        while k < parts.len() - 1
            invariant
                chars@ == text@,
                ranges_cut(text@, parts@, pieces),
                pieces == split_on(text@, '\n'),
                parts@.len() >= 1,
                k + 1 <= parts@.len(),
                lines@.map_values(|l: Line| (l.body@, l.ending)) == pieces.take(k as int).map_values(
                    |p: Seq<char>| piece_line(p),
                ),
            decreases parts.len() - k,
        {
            let (a, b) = parts[k];
            let ghost p = pieces[k as int];
            proof {
                assert(parts@[k as int] == (a, b));
                assert(text@.subrange(a as int, b as int) == p);
            }
            let line = if b > a && chars[b - 1] == '\r' {
                proof {
                    assert(p.last() == text@[b - 1]);
                    assert(text@.subrange(a as int, b - 1) =~= p.drop_last());
                }
                Line { body: String::from_str(text.substring_char(a, b - 1)), ending: LineEnding::CrLf }
            } else {
                proof {
                    if b > a {
                        assert(p.last() == text@[b - 1]);
                    }
                }
                Line { body: String::from_str(text.substring_char(a, b)), ending: LineEnding::Lf }
            };
            assert((line.body@, line.ending) == piece_line(p));
            let ghost pair = (line.body@, line.ending);
            let ghost old_lines = lines@;
            lines.push(line);
            proof {
                assert(lines@ == old_lines.push(lines@.last()));
                assert(lines@.map_values(|l: Line| (l.body@, l.ending)) =~= old_lines.map_values(
                    |l: Line| (l.body@, l.ending),
                ).push(pair));
                assert(pieces.take(k + 1).map_values(|p: Seq<char>| piece_line(p)) =~= pieces.take(
                    k as int,
                ).map_values(|p: Seq<char>| piece_line(p)).push(piece_line(p)));
            }
            k = k + 1;
        }
        let (a, b) = parts[k];
        proof {
            assert(pieces.take(k as int) =~= pieces.drop_last());
            assert(parts@[k as int] == (a, b));
            assert(text@.subrange(a as int, b as int) == pieces.last());
        }
        if b > a {
            lines.push(Line { body: String::from_str(text.substring_char(a, b)), ending: LineEnding::NoEnding });
            assert(lines@.map_values(|l: Line| (l.body@, l.ending)) =~= pieces.drop_last().map_values(
                |p: Seq<char>| piece_line(p),
            ).push((pieces.last(), LineEnding::NoEnding)));
        }
        Lines { lines }
    }

    pub fn len(&self) -> (n: usize)
        ensures
            n == self@.len(),
    {
        self.lines.len()
    }

    /// The body of line `index`.
    pub fn body(&self, index: usize) -> (b: &str)
        requires
            index < self@.len(),
        ensures
            b@ == self@[index as int].0,
    {
        self.lines[index].body.as_str()
    }

    /// Replace the body of line `index`, keeping its ending.
    pub fn set_body(&mut self, index: usize, body: String)
        requires
            index < old(self)@.len(),
        ensures
            final(self)@ == old(self)@.update(index as int, (body@, old(self)@[index as int].1)),
    {
        let ending = self.lines[index].ending;
        self.lines.set(index, Line { body, ending });
        assert(self@ =~= old(self)@.update(index as int, (body@, old(self)@[index as int].1)));
    }

    /// The text of lines `start..end`, with their endings.
    pub fn range_text(&self, start: usize, end: usize) -> (r: String)
        requires
            start <= end <= self@.len(),
        ensures
            r@ == joined(self@.subrange(start as int, end as int)),
    {
        let mut out = String::new();
        let mut i = start;
        proof {
            assert(self@.subrange(start as int, start as int) =~= Seq::<(Seq<char>, LineEnding)>::empty());
        }
        while i < end
            invariant
                start <= i <= end <= self@.len(),
                out@ == joined(self@.subrange(start as int, i as int)),
            decreases end - i,
        {
            out.append(self.lines[i].body.as_str());
            out.append(ending_str(self.lines[i].ending));
            assert(self@.subrange(start as int, i + 1).drop_last() =~= self@.subrange(start as int, i as int));
            i = i + 1;
        }
        out
    }

    /// The lines joined back into a text.
    pub fn into_string(self) -> (r: String)
        ensures
            r@ == joined(self@),
    {
        let n = self.lines.len();
        let r = self.range_text(0, n);
        assert(self@.subrange(0, n as int) =~= self@);
        r
    }
}

/// `s` without all leading `c`.
pub open spec fn strip_all_start(s: Seq<char>, c: char) -> Seq<char>
    decreases s.len(),
{
    if s.len() > 0 && s[0] == c {
        strip_all_start(s.skip(1), c)
    } else {
        s
    }
}

/// `s` without all trailing `c`.
pub open spec fn strip_all_end(s: Seq<char>, c: char) -> Seq<char>
    decreases s.len(),
{
    if s.len() > 0 && s.last() == c {
        strip_all_end(s.drop_last(), c)
    } else {
        s
    }
}

/// The section a `[name]` header line opens, if the line is one.
pub open spec fn section_of(line: Seq<char>) -> Option<Seq<char>> {
    let t = crate::text::trim(line);
    if !(t.len() > 0 && t[0] == '[' && t.last() == ']') {
        None
    } else {
        let name = strip_all_end(strip_all_start(t, '['), ']');
        if name.len() > 0 && (name[0] == '[' || name.last() == ']') {
            None
        } else {
            Some(name)
        }
    }
}

/// The section a header line opens.
pub fn section_name(line: &str) -> (r: Option<&str>)
    ensures
        match r {
            Some(name) => section_of(line@) == Some(name@),
            None => section_of(line@) is None,
        },
{
    let chars = chars_of(line);
    let n = chars.len();
    let s = trim_start_range(chars.as_slice(), 0, n);
    let e = trim_end_range(chars.as_slice(), s, n);
    let ghost t = line@.subrange(s as int, e as int);
    proof {
        assert(line@.subrange(0, n as int) =~= line@);
        assert(t == crate::text::trim(line@));
    }
    if !(s < e && chars[s] == '[' && chars[e - 1] == ']') {
        return None;
    }
    let mut i = s;
    while i < e && chars[i] == '['
        invariant
            s <= i <= e <= n,
            n == chars@.len(),
            chars@ == line@,
            t == line@.subrange(s as int, e as int),
            strip_all_start(line@.subrange(i as int, e as int), '[') == strip_all_start(t, '['),
        decreases e - i,
    {
        assert(line@.subrange(i as int, e as int).skip(1) =~= line@.subrange(i + 1, e as int));
        i = i + 1;
    }
    let mut j = e;
    while j > i && chars[j - 1] == ']'
        invariant
            s <= i <= j <= e <= n,
            n == chars@.len(),
            chars@ == line@,
            strip_all_end(line@.subrange(i as int, j as int), ']') == strip_all_end(strip_all_start(t, '['), ']'),
        decreases j - i,
    {
        assert(line@.subrange(i as int, j as int).drop_last() =~= line@.subrange(i as int, j - 1));
        j = j - 1;
    }
    proof {
        assert(strip_all_start(line@.subrange(i as int, e as int), '[') == line@.subrange(i as int, e as int));
        assert(strip_all_end(line@.subrange(i as int, j as int), ']') == line@.subrange(i as int, j as int));
    }
    if i < j && (chars[i] == '[' || chars[j - 1] == ']') {
        return None;
    }
    Some(line.substring_char(i, j))
}

/// Scan `bodies` from `i` for the section `section`: its first body line and
/// the line of the next header (or the end).
pub open spec fn bounds_scan(bodies: Seq<Seq<char>>, section: Seq<char>, i: int, start: Option<int>) -> Option<
    (int, int),
>
    decreases bodies.len() - i,
{
    if i < 0 || i >= bodies.len() {
        match start {
            Some(s) => Some((s, bodies.len() as int)),
            None => None,
        }
    } else {
        match section_of(bodies[i]) {
            Some(name) => match start {
                Some(s) => Some((s, i)),
                None => bounds_scan(bodies, section, i + 1, if name == section { Some(i + 1) } else { None }),
            },
            None => bounds_scan(bodies, section, i + 1, start),
        }
    }
}

/// The bodies of `ls`.
pub open spec fn bodies_of(ls: Seq<(Seq<char>, LineEnding)>) -> Seq<Seq<char>> {
    ls.map_values(|l: (Seq<char>, LineEnding)| l.0)
}

/// `i` is the first index of `c` in `s` at or after `from`.
pub open spec fn first_at_or_after(s: Seq<char>, c: char, from: int, i: int) -> bool {
    from <= i < s.len() && s[i] == c && forall|j: int| from <= j < i ==> s[j] != c
}

proof fn lemma_first_at_or_after_unique(s: Seq<char>, c: char, from: int, i: int, j: int)
    requires
        first_at_or_after(s, c, from, i),
        first_at_or_after(s, c, from, j),
    ensures
        i == j,
{
    if i < j {
        assert(s[i] != c);
    } else if j < i {
        assert(s[j] != c);
    }
}

/// Where `replace_field` puts the new value of `field` in `body`: between the
/// first two double quotes of a `field = "..."` line.
pub open spec fn field_span(body: Seq<char>, field: Seq<char>) -> Option<(int, int)> {
    let t = trim_start(body);
    if !(t.len() >= field.len() && t.take(field.len() as int) == field) {
        None
    } else {
        let r = trim_start(t.skip(field.len() as int));
        if !(r.len() > 0 && r[0] == '=') {
            None
        } else if !(exists|q: int| first_at_or_after(body, '"', 0, q)) {
            None
        } else {
            let q = choose|q: int| first_at_or_after(body, '"', 0, q);
            if !(exists|e: int| #[trigger] first_at_or_after(body, '"', q + 1, e)) {
                None
            } else {
                let e = choose|e: int| #[trigger] first_at_or_after(body, '"', q + 1, e);
                Some((q + 1, e))
            }
        }
    }
}

/// `body` with the characters `span` replaced by `value`.
pub open spec fn spliced(body: Seq<char>, span: (int, int), value: Seq<char>) -> Seq<char> {
    body.take(span.0) + value + body.skip(span.1)
}

impl Lines {
    /// The lines of the section `section`: from the line after its header to
    /// the next header or the end.
    pub fn find_section_bounds(&self, section: &str) -> (r: Option<(usize, usize)>)
        ensures
            match r {
                Some((a, b)) => bounds_scan(bodies_of(self@), section@, 0, None) == Some((a as int, b as int)),
                None => bounds_scan(bodies_of(self@), section@, 0, None) is None,
            },
    {
        let ghost bodies = bodies_of(self@);
        let mut start: Option<usize> = None;
        let mut i: usize = 0;
        while i < self.lines.len()
            invariant
                bodies == bodies_of(self@),
                bodies.len() == self.lines@.len(),
                i <= bodies.len(),
                start matches Some(s) ==> s <= i,
                bounds_scan(bodies, section@, 0, None) == bounds_scan(
                    bodies,
                    section@,
                    i as int,
                    match start {
                        Some(s) => Some(s as int),
                        None => None,
                    },
                ),
            decreases self.lines.len() - i,
        {
            let body = self.lines[i].body.as_str();
            assert(body@ == bodies[i as int]);
            match section_name(body) {
                Some(name) => {
                    match start {
                        Some(s) => {
                            return Some((s, i));
                        },
                        None => {},
                    }
                    if str_equal(name, section) {
                        start = Some(i + 1);
                    }
                },
                None => {},
            }
            i = i + 1;
        }
        match start {
            Some(s) => Some((s, self.lines.len())),
            None => None,
        }
    }

    /// Put `value` between the quotes of a `field = "..."` line; false when
    /// line `index` is no such line.
    pub fn replace_field(&mut self, index: usize, field: &str, value: &str) -> (r: bool)
        requires
            index < old(self)@.len(),
        ensures
            r == (field_span(old(self)@[index as int].0, field@) is Some),
            final(self)@ == match field_span(old(self)@[index as int].0, field@) {
                Some(span) => old(self)@.update(
                    index as int,
                    (spliced(old(self)@[index as int].0, span, value@), old(self)@[index as int].1),
                ),
                None => old(self)@,
            },
    {
        let body = self.lines[index].body.as_str();
        let ghost b = body@;
        let chars = chars_of(body);
        let fchars = chars_of(field);
        let n = chars.len();
        let s = trim_start_range(chars.as_slice(), 0, n);
        proof {
            assert(b.subrange(0, n as int) =~= b);
        }
        if !crate::text::occurs_at_exec(chars.as_slice(), fchars.as_slice(), s) {
            proof {
                let t = trim_start(b);
                if t.len() >= field@.len() && t.take(field@.len() as int) == field@ {
                    assert(b.subrange(s as int, s + field@.len()) =~= t.take(field@.len() as int));
                }
            }
            return false;
        }
        proof {
            let t = trim_start(b);
            assert(b.subrange(s as int, s + field@.len()) =~= t.take(field@.len() as int));
            assert(t.skip(field@.len() as int) =~= b.subrange(s + field@.len(), n as int));
        }
        let r = trim_start_range(chars.as_slice(), s + fchars.len(), n);
        if !(r < n && chars[r] == '=') {
            proof {
                let rr = trim_start(trim_start(b).skip(field@.len() as int));
                assert(rr == b.subrange(r as int, n as int));
                if rr.len() > 0 {
                    assert(rr[0] == b[r as int]);
                }
            }
            return false;
        }
        proof {
            let rr = trim_start(trim_start(b).skip(field@.len() as int));
            assert(rr == b.subrange(r as int, n as int));
            assert(rr[0] == b[r as int]);
        }
        let q = match find_char(chars.as_slice(), '"', 0, n) {
            None => {
                proof {
                    assert forall|q: int| !first_at_or_after(b, '"', 0, q) by {}
                }
                return false;
            },
            Some(q) => q,
        };
        proof {
            assert(first_at_or_after(b, '"', 0, q as int));
            let qq = choose|q: int| first_at_or_after(b, '"', 0, q);
            lemma_first_at_or_after_unique(b, '"', 0, q as int, qq);
        }
        let e = match find_char(chars.as_slice(), '"', q + 1, n) {
            None => {
                proof {
                    assert forall|e: int| !#[trigger] first_at_or_after(b, '"', q + 1, e) by {}
                }
                return false;
            },
            Some(e) => e,
        };
        proof {
            assert(first_at_or_after(b, '"', q + 1, e as int));
            let ee = choose|e: int| #[trigger] first_at_or_after(b, '"', q + 1, e);
            lemma_first_at_or_after_unique(b, '"', q + 1, e as int, ee);
        }
        let mut updated = String::from_str(body.substring_char(0, q + 1));
        updated.append(value);
        updated.append(body.substring_char(e, n));
        proof {
            assert(b.subrange(0, q + 1) =~= b.take(q + 1));
            assert(b.subrange(e as int, n as int) =~= b.skip(e as int));
        }
        self.set_body(index, updated);
        true
    }
}

/// The number of whitespace characters `s` starts with.
pub open spec fn leading_ws(s: Seq<char>) -> nat
    decreases s.len(),
{
    if s.len() > 0 && is_ws(s[0]) {
        1 + leading_ws(s.skip(1))
    } else {
        0
    }
}

pub proof fn lemma_trim_start_skip(s: Seq<char>)
    ensures
        leading_ws(s) <= s.len(),
        trim_start(s) == s.skip(leading_ws(s) as int),
        forall|j: int| 0 <= j < leading_ws(s) ==> is_ws(#[trigger] s[j]),
        leading_ws(s) < s.len() ==> !is_ws(s[leading_ws(s) as int]),
    decreases s.len(),
{
    if s.len() > 0 && is_ws(s[0]) {
        lemma_trim_start_skip(s.skip(1));
        assert(s.skip(1).skip(leading_ws(s.skip(1)) as int) =~= s.skip(leading_ws(s) as int));
        assert forall|j: int| 0 <= j < leading_ws(s) implies is_ws(#[trigger] s[j]) by {
            if j > 0 {
                assert(s[j] == s.skip(1)[j - 1]);
            }
        }
        if leading_ws(s) < s.len() {
            assert(s[leading_ws(s) as int] == s.skip(1)[leading_ws(s.skip(1)) as int]);
        }
    } else {
        assert(s.skip(0) =~= s);
    }
}

/// What a line says of `field`: nothing, the quoted value of a
/// `field = "value"` line, or an unterminated value (which ends the search).
pub enum FieldMatch {
    Skip,
    Found(Seq<char>),
    Abort,
}

pub open spec fn field_line(line: Seq<char>, field: Seq<char>) -> FieldMatch {
    let t = trim_start(line);
    if !(t.len() >= field.len() && t.take(field.len() as int) == field) {
        FieldMatch::Skip
    } else {
        let r1 = trim_start(t.skip(field.len() as int));
        if !(r1.len() > 0 && r1[0] == '=') {
            FieldMatch::Skip
        } else {
            let r2 = trim_start(r1.skip(1));
            if !(r2.len() > 0 && r2[0] == '"') {
                FieldMatch::Skip
            } else {
                let r3 = r2.skip(1);
                if exists|e: int| #[trigger] first_at_or_after(r3, '"', 0, e) {
                    let e = choose|e: int| #[trigger] first_at_or_after(r3, '"', 0, e);
                    FieldMatch::Found(r3.take(e))
                } else {
                    FieldMatch::Abort
                }
            }
        }
    }
}

/// The value of the first `field = "value"` line of `lines`.
pub open spec fn field_in(lines: Seq<Seq<char>>, field: Seq<char>) -> Option<Seq<char>>
    decreases lines.len(),
{
    if lines.len() == 0 {
        None
    } else {
        match field_line(lines[0], field) {
            FieldMatch::Skip => field_in(lines.skip(1), field),
            FieldMatch::Found(v) => Some(v),
            FieldMatch::Abort => None,
        }
    }
}

/// The value range of `field` on the line `s[a..b]`, as `field_line` reads it.
fn field_value_range(s: &[char], a: usize, b: usize, field: &[char]) -> (r: (u8, usize, usize))
    requires
        a <= b <= s@.len(),
    ensures
        match field_line(s@.subrange(a as int, b as int), field@) {
            FieldMatch::Skip => r.0 == 0,
            FieldMatch::Abort => r.0 == 2,
            FieldMatch::Found(v) => r.0 == 1 && a <= r.1 <= r.2 <= b && s@.subrange(r.1 as int, r.2 as int) == v,
        },
{
    let ghost line = s@.subrange(a as int, b as int);
    let t0 = trim_start_range(s, a, b);
    let ghost t = trim_start(line);
    assert(t == s@.subrange(t0 as int, b as int));
    if !(b - t0 >= field.len() && crate::text::occurs_at_exec(s, field, t0)) {
        proof {
            if t.len() >= field@.len() && t.take(field@.len() as int) == field@ {
                assert(s@.subrange(t0 as int, t0 + field@.len()) =~= t.take(field@.len() as int));
            }
        }
        return (0, 0, 0);
    }
    proof {
        assert(s@.subrange(t0 as int, t0 + field@.len()) =~= t.take(field@.len() as int));
        assert(t.skip(field@.len() as int) =~= s@.subrange(t0 + field@.len(), b as int));
    }
    let r1 = trim_start_range(s, t0 + field.len(), b);
    if !(r1 < b && s[r1] == '=') {
        return (0, 0, 0);
    }
    proof {
        assert(trim_start(t.skip(field@.len() as int)).skip(1) =~= s@.subrange(r1 + 1, b as int));
    }
    let r2 = trim_start_range(s, r1 + 1, b);
    if !(r2 < b && s[r2] == '"') {
        return (0, 0, 0);
    }
    let ghost r3 = s@.subrange(r2 + 1, b as int);
    proof {
        assert(trim_start(trim_start(t.skip(field@.len() as int)).skip(1)).skip(1) =~= r3);
    }
    match find_char(s, '"', r2 + 1, b) {
        None => {
            proof {
                assert forall|e: int| !#[trigger] first_at_or_after(r3, '"', 0, e) by {
                    if 0 <= e < r3.len() {
                        assert(r3[e] == s@[r2 + 1 + e]);
                    }
                }
            }
            (2, 0, 0)
        },
        Some(e) => {
            proof {
                assert(first_at_or_after(r3, '"', 0, e - r2 - 1)) by {
                    assert forall|j: int| 0 <= j < e - r2 - 1 implies r3[j] != '"' by {
                        assert(r3[j] == s@[r2 + 1 + j]);
                    }
                }
                let ee = choose|e: int| #[trigger] first_at_or_after(r3, '"', 0, e);
                lemma_first_at_or_after_unique(r3, '"', 0, e - r2 - 1, ee);
                assert(r3.take(e - r2 - 1) =~= s@.subrange(r2 + 1, e as int));
            }
            (1, r2 + 1, e)
        },
    }
}

/// The value of the first `field = "value"` line of `text`.
pub fn read_field<'a>(text: &'a str, field: &str) -> (r: Option<&'a str>)
    ensures
        match r {
            Some(v) => field_in(lines_of(text@), field@) == Some(v@),
            None => field_in(lines_of(text@), field@) is None,
        },
{
    let chars = chars_of(text);
    let fchars = chars_of(field);
    let lines = crate::text::line_ranges(text);
    let ghost all = lines_of(text@);
    let mut i: usize = 0;
    assert(all.skip(0) =~= all);
    while i < lines.len()
        invariant
            chars@ == text@,
            fchars@ == field@,
            all == lines_of(text@),
            ranges_cut(text@, lines@, all),
            i <= lines@.len(),
            field_in(all, field@) == field_in(all.skip(i as int), field@),
        decreases lines.len() - i,
    {
        let (a, b) = lines[i];
        proof {
            assert(lines@[i as int] == (a, b));
            assert(all.skip(i as int)[0] == all[i as int]);
            assert(all.skip(i as int).skip(1) =~= all.skip(i + 1));
            assert(text@.subrange(a as int, b as int) == all[i as int]);
            assert(chars@.subrange(a as int, b as int) == all[i as int]);
        }
        let (kind, x, y) = field_value_range(chars.as_slice(), a, b, fchars.as_slice());
        proof {
            assert(all.skip(i as int).len() > 0);
            assert(field_in(all.skip(i as int), field@) == match field_line(all[i as int], field@) {
                FieldMatch::Skip => field_in(all.skip(i as int).skip(1), field@),
                FieldMatch::Found(v) => Some(v),
                FieldMatch::Abort => None,
            });
        }
        if kind == 1 {
            let v = text.substring_char(x, y);
            proof {
                assert(field_line(all[i as int], field@) is Found);
                assert(v@ == chars@.subrange(x as int, y as int));
                assert(field_in(all.skip(i as int), field@) == Some(v@));
            }
            return Some(v);
        }
        if kind == 2 {
            return None;
        }
        i = i + 1;
    }
    None
}

/// A character that can be part of a bare TOML key.
pub open spec fn is_key_char(c: char) -> bool {
    crate::text::is_alnum(c) || c == '_' || c == '-'
}

fn key_char(c: char) -> (r: bool)
    ensures
        r == is_key_char(c),
{
    ('0' <= c && c <= '9') || ('a' <= c && c <= 'z') || ('A' <= c && c <= 'Z') || c == '_' || c == '-'
}

/// The parts of a `key = { ... }` dependency line: everything up to and
/// including `{`, the key, the table's body, and everything from the last `}`.
pub open spec fn inline_table_parts(line: Seq<char>) -> Option<(Seq<char>, Seq<char>, Seq<char>, Seq<char>)> {
    if !(exists|eq: int| #[trigger] first_at_or_after(line, '=', 0, eq)) {
        None
    } else {
        let eq = choose|eq: int| #[trigger] first_at_or_after(line, '=', 0, eq);
        let key = crate::text::trim(line.take(eq));
        if key.len() == 0 || !(forall|i: int| 0 <= i < key.len() ==> is_key_char(#[trigger] key[i])) {
            None
        } else if !(exists|open: int| #[trigger] first_at_or_after(line, '{', eq + 1, open)) {
            None
        } else {
            let open = choose|open: int| #[trigger] first_at_or_after(line, '{', eq + 1, open);
            if crate::api_report::has_content(line.subrange(eq + 1, open)) {
                None
            } else if !(exists|close: int|
                0 <= close < line.len() && line[close] == '}' && #[trigger] last_brace(line, close)) {
                None
            } else {
                let close = choose|close: int|
                    0 <= close < line.len() && line[close] == '}' && #[trigger] last_brace(line, close);
                if close <= open {
                    None
                } else {
                    Some((line.take(open + 1), key, line.subrange(open + 1, close), line.skip(close)))
                }
            }
        }
    }
}

/// No `}` follows position `close` in `line`.
pub open spec fn last_brace(line: Seq<char>, close: int) -> bool {
    forall|j: int| close < j < line.len() ==> line[j] != '}'
}

/// Split a `key = { ... }` dependency line into its parts.
pub fn split_inline_table(line: &str) -> (r: Option<(&str, &str, &str, &str)>)
    ensures
        match r {
            Some((a, b, c, d)) => inline_table_parts(line@) == Some((a@, b@, c@, d@)),
            None => inline_table_parts(line@) is None,
        },
{
    let chars = chars_of(line);
    let n = chars.len();
    let eq = match find_char(chars.as_slice(), '=', 0, n) {
        None => {
            assert forall|e: int| !#[trigger] first_at_or_after(line@, '=', 0, e) by {}
            return None;
        },
        Some(eq) => eq,
    };
    proof {
        assert(first_at_or_after(line@, '=', 0, eq as int));
        let e2 = choose|e: int| #[trigger] first_at_or_after(line@, '=', 0, e);
        lemma_first_at_or_after_unique(line@, '=', 0, eq as int, e2);
    }
    let ks = trim_start_range(chars.as_slice(), 0, eq);
    let ke = trim_end_range(chars.as_slice(), ks, eq);
    let ghost key = line@.subrange(ks as int, ke as int);
    proof {
        assert(line@.subrange(0, eq as int) =~= line@.take(eq as int));
        assert(key == crate::text::trim(line@.take(eq as int)));
    }
    if ks == ke {
        return None;
    }
    let mut i = ks;
    while i < ke
        invariant
            ks <= i <= ke <= n,
            n == chars@.len(),
            chars@ == line@,
            key == line@.subrange(ks as int, ke as int),
            key == crate::text::trim(line@.take(eq as int)),
            first_at_or_after(line@, '=', 0, eq as int),
            (choose|e: int| #[trigger] first_at_or_after(line@, '=', 0, e)) == eq,
            forall|m: int| 0 <= m < i - ks ==> is_key_char(#[trigger] key[m]),
        decreases ke - i,
    {
        if !key_char(chars[i]) {
            assert(key[i - ks] == chars@[i as int]);
            return None;
        }
        assert(key[i - ks] == chars@[i as int]);
        i = i + 1;
    }
    let open = match find_char(chars.as_slice(), '{', eq + 1, n) {
        None => {
            assert forall|o: int| !#[trigger] first_at_or_after(line@, '{', eq + 1, o) by {}
            return None;
        },
        Some(open) => open,
    };
    proof {
        assert(first_at_or_after(line@, '{', eq + 1, open as int));
        let o2 = choose|o: int| #[trigger] first_at_or_after(line@, '{', eq + 1, o);
        lemma_first_at_or_after_unique(line@, '{', eq + 1, open as int, o2);
    }
    let between = vstd::slice::slice_subrange(chars.as_slice(), eq + 1, open);
    if crate::api_report::has_content_slice(between) {
        return None;
    }
    let close = match rfind_char(chars.as_slice(), '}', 0, n) {
        None => {
            proof {
                assert forall|c: int| !(0 <= c < line@.len() && line@[c] == '}' && #[trigger] last_brace(line@, c)) by {}
            }
            return None;
        },
        Some(close) => close,
    };
    proof {
        assert(last_brace(line@, close as int));
        let c2 = choose|c: int| 0 <= c < line@.len() && line@[c] == '}' && #[trigger] last_brace(line@, c);
        if c2 < close {
            assert(line@[close as int] != '}');
        } else if c2 > close {
            assert(line@[c2] != '}');
        }
    }
    if close <= open {
        return None;
    }
    let prefix = line.substring_char(0, open + 1);
    let key_str = line.substring_char(ks, ke);
    let body = line.substring_char(open + 1, close);
    let suffix = line.substring_char(close, n);
    proof {
        assert(line@.subrange(0, open + 1) =~= line@.take(open + 1));
        assert(line@.subrange(close as int, n as int) =~= line@.skip(close as int));
    }
    Some((prefix, key_str, body, suffix))
}

/// `key` occurs in `t` at `start` as a whole key: neither neighbour is a key character.
pub open spec fn key_boundary(t: Seq<char>, key: Seq<char>, start: int) -> bool {
    &&& crate::text::occurs_at(t, key, start)
    &&& (start == 0 || !is_key_char(t[start - 1]))
    &&& (start + key.len() == t.len() || !is_key_char(t[start + key.len()]))
}

/// `i` is the first occurrence of `key` in `t` at or after `from`.
pub open spec fn first_occurrence_from(t: Seq<char>, key: Seq<char>, from: int, i: int) -> bool {
    from <= i && crate::text::occurs_at(t, key, i) && forall|j: int| from <= j < i ==> !crate::text::occurs_at(t, key, j)
}

/// The first whole-key occurrence of `key` in `t`, searching occurrences
/// left to right from `from` and resuming after each one that is not whole.
pub open spec fn key_scan(t: Seq<char>, key: Seq<char>, from: int) -> Option<int>
    decreases t.len() - from,
{
    if key.len() == 0 || from < 0 || from > t.len() {
        None
    } else if !(exists|i: int| #[trigger] first_occurrence_from(t, key, from, i)) {
        None
    } else {
        let i = choose|i: int| #[trigger] first_occurrence_from(t, key, from, i);
        if key_boundary(t, key, i) {
            Some(i)
        } else {
            key_scan(t, key, i + key.len())
        }
    }
}

/// The quoted value of `key = "value"` in an inline table body.
pub open spec fn table_value(t: Seq<char>, key: Seq<char>) -> Option<Seq<char>> {
    match key_scan(t, key, 0) {
        None => None,
        Some(i) => {
            let rest = trim_start(t.skip(i + key.len()));
            if !(rest.len() > 0 && rest[0] == '=') {
                None
            } else {
                let r2 = trim_start(rest.skip(1));
                if !(r2.len() > 0 && r2[0] == '"') {
                    None
                } else {
                    let r3 = r2.skip(1);
                    if exists|e: int| #[trigger] first_at_or_after(r3, '"', 0, e) {
                        let e = choose|e: int| #[trigger] first_at_or_after(r3, '"', 0, e);
                        Some(r3.take(e))
                    } else {
                        None
                    }
                }
            }
        }
    }
}

/// The position of the first occurrence of `key` in `t` at or after `from`.
fn find_seq_from(t: &[char], key: &[char], from: usize) -> (r: Option<usize>)
    requires
        from <= t@.len(),
    ensures
        match r {
            Some(i) => first_occurrence_from(t@, key@, from as int, i as int),
            None => !(exists|i: int| #[trigger] first_occurrence_from(t@, key@, from as int, i)),
        },
{
    let mut i = from;
    while i < t.len() && t.len() - i >= key.len()
        invariant
            from <= i <= t@.len(),
            forall|j: int| from <= j < i ==> !crate::text::occurs_at(t@, key@, j),
        decreases t.len() - i,
    {
        if crate::text::occurs_at_exec(t, key, i) {
            return Some(i);
        }
        i = i + 1;
    }
    if i <= t.len() && t.len() - i >= key.len() && crate::text::occurs_at_exec(t, key, i) {
        return Some(i);
    }
    proof {
        assert forall|k: int| !#[trigger] first_occurrence_from(t@, key@, from as int, k) by {
            if from <= k && crate::text::occurs_at(t@, key@, k) && k >= i {
                assert(k + key@.len() <= t@.len());
            }
        }
    }
    None
}

/// The whole-key occurrence of `key` that `key_scan` finds.
fn scan_key(t: &[char], key: &[char]) -> (r: Option<usize>)
    requires
        key@.len() > 0,
    ensures
        match r {
            Some(i) => key_scan(t@, key@, 0) == Some(i as int),
            None => key_scan(t@, key@, 0) is None,
        },
{
    let mut from: usize = 0;
    while from <= t.len()
        invariant
            key@.len() > 0,
            key_scan(t@, key@, 0) == key_scan(t@, key@, from as int),
        decreases t.len() + 1 - from,
    {
        match find_seq_from(t, key, from) {
            None => return None,
            Some(i) => {
                proof {
                    let c = choose|c: int| #[trigger] first_occurrence_from(t@, key@, from as int, c);
                    if c < i {
                        assert(!crate::text::occurs_at(t@, key@, c));
                    } else if c > i {
                        assert(!crate::text::occurs_at(t@, key@, i as int));
                    }
                }
                let before_ok = i == 0 || !key_char(t[i - 1]);
                let after_ok = i + key.len() == t.len() || !key_char(t[i + key.len()]);
                if before_ok && after_ok {
                    return Some(i);
                }
                from = i + key.len();
            },
        }
    }
    None
}

fn has_value_quotes(t: &[char], key_len: usize, i: usize) -> (r: Option<(usize, usize)>)
    requires
        i + key_len <= t@.len(),
    ensures
        ({
            let rest = trim_start(t@.skip(i + key_len));
            let v = if !(rest.len() > 0 && rest[0] == '=') {
                None
            } else {
                let r2 = trim_start(rest.skip(1));
                if !(r2.len() > 0 && r2[0] == '"') {
                    None
                } else {
                    let r3 = r2.skip(1);
                    if exists|e: int| #[trigger] first_at_or_after(r3, '"', 0, e) {
                        let e = choose|e: int| #[trigger] first_at_or_after(r3, '"', 0, e);
                        Some(r3.take(e))
                    } else {
                        None
                    }
                }
            };
            match r {
                Some((a, b)) => i + key_len < a <= b <= t@.len() && v == Some(t@.subrange(a as int, b as int))
                    && first_at_or_after(t@, '=', i + key_len, a - 1 - leading_ws(rest.skip(1)) - 1)
                    && first_at_or_after(t@, '"', a - 1 - leading_ws(rest.skip(1)), a - 1)
                    && first_at_or_after(t@, '"', a as int, b as int),
                None => v is None,
            }
        }),
{
    let n = t.len();
    let c0 = i + key_len;
    let ghost rest = trim_start(t@.skip(c0 as int));
    let r1 = trim_start_range(t, c0, n);
    proof {
        assert(t@.subrange(c0 as int, n as int) =~= t@.skip(c0 as int));
        lemma_trim_start_skip(t@.skip(c0 as int));
    }
    if !(r1 < n && t[r1] == '=') {
        return None;
    }
    let r2 = trim_start_range(t, r1 + 1, n);
    proof {
        assert(rest.skip(1) =~= t@.subrange(r1 + 1, n as int));
        lemma_trim_start_skip(rest.skip(1));
        assert(leading_ws(t@.skip(c0 as int)) == r1 - c0) by {
            let w = leading_ws(t@.skip(c0 as int));
            if w < r1 - c0 {
                assert(!is_ws(t@.skip(c0 as int)[w as int]));
                assert(is_ws(t@[c0 + w]));
            } else if w > r1 - c0 {
                assert(is_ws(t@.skip(c0 as int)[r1 - c0]));
                assert(t@.skip(c0 as int)[r1 - c0] == t@[r1 as int]);
            }
        }
        assert(leading_ws(rest.skip(1)) == r2 - r1 - 1) by {
            let w = leading_ws(rest.skip(1));
            if w < r2 - r1 - 1 {
                assert(!is_ws(rest.skip(1)[w as int]));
                assert(rest.skip(1)[w as int] == t@[r1 + 1 + w]);
            } else if w > r2 - r1 - 1 {
                assert(is_ws(rest.skip(1)[r2 - r1 - 1]));
                assert(rest.skip(1)[r2 - r1 - 1] == t@[r2 as int]);
            }
        }
        assert forall|j: int| c0 <= j < r1 implies t@[j] != '=' by {
            assert(is_ws(t@[j]));
        }
        assert forall|j: int| r1 + 1 <= j < r2 implies t@[j] != '"' by {
            assert(is_ws(t@[j]));
        }
    }
    if !(r2 < n && t[r2] == '"') {
        return None;
    }
    let ghost r3 = t@.subrange(r2 + 1, n as int);
    proof {
        assert(trim_start(rest.skip(1)).skip(1) =~= r3);
    }
    match find_char(t, '"', r2 + 1, n) {
        None => {
            proof {
                assert forall|e: int| !#[trigger] first_at_or_after(r3, '"', 0, e) by {
                    if 0 <= e < r3.len() {
                        assert(r3[e] == t@[r2 + 1 + e]);
                    }
                }
            }
            None
        },
        Some(e) => {
            proof {
                assert(first_at_or_after(r3, '"', 0, e - r2 - 1)) by {
                    assert forall|j: int| 0 <= j < e - r2 - 1 implies r3[j] != '"' by {
                        assert(r3[j] == t@[r2 + 1 + j]);
                    }
                }
                let ee = choose|e: int| #[trigger] first_at_or_after(r3, '"', 0, e);
                lemma_first_at_or_after_unique(r3, '"', 0, e - r2 - 1, ee);
                assert(r3.take(e - r2 - 1) =~= t@.subrange(r2 + 1, e as int));
            }
            Some((r2 + 1, e))
        },
    }
}

/// The quoted value of `key` in an inline table body.
pub fn inline_table_value<'a>(table: &'a str, key: &str) -> (r: Option<&'a str>)
    requires
        key@.len() > 0,
    ensures
        match r {
            Some(v) => table_value(table@, key@) == Some(v@),
            None => table_value(table@, key@) is None,
        },
{
    let t = chars_of(table);
    let k = chars_of(key);
    match scan_key(t.as_slice(), k.as_slice()) {
        None => None,
        Some(i) => {
            proof {
                let c = choose|c: int| #[trigger] first_occurrence_from(t@, k@, 0, c);
                assert(crate::text::occurs_at(t@, k@, i as int)) by {
                    lemma_key_scan_occurs(t@, k@, 0);
                }
            }
            match has_value_quotes(t.as_slice(), k.len(), i) {
                None => None,
                Some((a, b)) => Some(table.substring_char(a, b)),
            }
        },
    }
}

proof fn lemma_key_scan_occurs(t: Seq<char>, key: Seq<char>, from: int)
    ensures
        key_scan(t, key, from) matches Some(i) ==> crate::text::occurs_at(t, key, i) && i >= from,
    decreases t.len() - from,
{
    if key.len() == 0 || from < 0 || from > t.len() {
    } else if !(exists|i: int| #[trigger] first_occurrence_from(t, key, from, i)) {
    } else {
        let i = choose|i: int| #[trigger] first_occurrence_from(t, key, from, i);
        if !key_boundary(t, key, i) {
            lemma_key_scan_occurs(t, key, i + key.len());
        }
    }
}

/// Where `replace_inline_table_value` writes: after the key that `key_scan`
/// finds, the first `=`, then the text between the next two double quotes.
pub open spec fn replace_span(t: Seq<char>, key: Seq<char>) -> Option<(int, int)> {
    match key_scan(t, key, 0) {
        None => None,
        Some(i) => {
            let c0 = i + key.len();
            if !(exists|eq: int| #[trigger] first_at_or_after(t, '=', c0, eq)) {
                None
            } else {
                let eq = choose|eq: int| #[trigger] first_at_or_after(t, '=', c0, eq);
                if !(exists|q: int| #[trigger] first_at_or_after(t, '"', eq + 1, q)) {
                    None
                } else {
                    let q = choose|q: int| #[trigger] first_at_or_after(t, '"', eq + 1, q);
                    if !(exists|e: int| #[trigger] first_at_or_after(t, '"', q + 1, e)) {
                        None
                    } else {
                        let e = choose|e: int| #[trigger] first_at_or_after(t, '"', q + 1, e);
                        Some((q + 1, e))
                    }
                }
            }
        }
    }
}

/// The inline table body with the value of `key` replaced by `value`.
pub open spec fn table_with_value(t: Seq<char>, key: Seq<char>, value: Seq<char>) -> Seq<char> {
    match replace_span(t, key) {
        Some(span) => spliced(t, span, value),
        None => t,
    }
}

/// Law-like bridge: where `table_value` reads a value, `replace_span` finds
/// exactly that value's characters.
pub proof fn lemma_value_span(t: Seq<char>, key: Seq<char>)
    requires
        table_value(t, key) is Some,
    ensures
        replace_span(t, key) matches Some(span) && 0 <= span.0 <= span.1 <= t.len()
            && table_value(t, key) == Some(t.subrange(span.0, span.1)),
{
    let i = key_scan(t, key, 0)->0;
    lemma_key_scan_occurs(t, key, 0);
    let c0 = i + key.len();
    let rest = trim_start(t.skip(c0));
    lemma_trim_start_skip(t.skip(c0));
    let w1 = leading_ws(t.skip(c0)) as int;
    assert(rest =~= t.skip(c0 + w1));
    let eq = c0 + w1;
    assert(t[eq] == rest[0]);
    assert forall|j: int| c0 <= j < eq implies t[j] != '=' by {
        assert(t[j] == t.skip(c0)[j - c0]);
        assert(is_ws(t.skip(c0)[j - c0]));
    }
    assert(first_at_or_after(t, '=', c0, eq));
    let eq2 = choose|e: int| #[trigger] first_at_or_after(t, '=', c0, e);
    lemma_first_at_or_after_unique(t, '=', c0, eq, eq2);
    let r2 = trim_start(rest.skip(1));
    lemma_trim_start_skip(rest.skip(1));
    let w2 = leading_ws(rest.skip(1)) as int;
    assert(r2 =~= t.skip(eq + 1 + w2));
    let q = eq + 1 + w2;
    assert(t[q] == r2[0]);
    assert forall|j: int| eq + 1 <= j < q implies t[j] != '"' by {
        assert(t[j] == rest.skip(1)[j - eq - 1]);
        assert(is_ws(rest.skip(1)[j - eq - 1]));
    }
    assert(first_at_or_after(t, '"', eq + 1, q));
    let q2 = choose|x: int| #[trigger] first_at_or_after(t, '"', eq + 1, x);
    lemma_first_at_or_after_unique(t, '"', eq + 1, q, q2);
    let r3 = r2.skip(1);
    assert(r3 =~= t.skip(q + 1));
    let e = choose|e: int| #[trigger] first_at_or_after(r3, '"', 0, e);
    assert(first_at_or_after(t, '"', q + 1, q + 1 + e)) by {
        assert forall|j: int| q + 1 <= j < q + 1 + e implies t[j] != '"' by {
            assert(t[j] == r3[j - q - 1]);
        }
        assert(t[q + 1 + e] == r3[e]);
    }
    let e2 = choose|x: int| #[trigger] first_at_or_after(t, '"', q + 1, x);
    lemma_first_at_or_after_unique(t, '"', q + 1, q + 1 + e, e2);
    assert(r3.take(e) =~= t.subrange(q + 1, q + 1 + e));
}

/// Replace the quoted value of `key` in an inline table body with `value`;
/// the body is unchanged when the key does not occur as a whole key. Where
/// the key occurs, an `=` and a quoted value must follow it.
pub fn replace_inline_table_value(table: &str, key: &str, value: &str) -> (r: String)
    requires
        key@.len() > 0,
        key_scan(table@, key@, 0) is Some ==> replace_span(table@, key@) is Some,
    ensures
        r@ == table_with_value(table@, key@, value@),
{
    let t = chars_of(table);
    let k = chars_of(key);
    let n = t.len();
    match scan_key(t.as_slice(), k.as_slice()) {
        None => String::from_str(table),
        Some(i) => {
            proof {
                lemma_key_scan_occurs(t@, k@, 0);
            }
            let c0 = i + k.len();
            let eq = find_char(t.as_slice(), '=', c0, n).unwrap();
            proof {
                let e2 = choose|e: int| #[trigger] first_at_or_after(t@, '=', c0 as int, e);
                assert(first_at_or_after(t@, '=', c0 as int, eq as int));
                lemma_first_at_or_after_unique(t@, '=', c0 as int, eq as int, e2);
            }
            let q = find_char(t.as_slice(), '"', eq + 1, n).unwrap();
            proof {
                let q2 = choose|x: int| #[trigger] first_at_or_after(t@, '"', eq + 1, x);
                assert(first_at_or_after(t@, '"', eq + 1, q as int));
                lemma_first_at_or_after_unique(t@, '"', eq + 1, q as int, q2);
            }
            let e = find_char(t.as_slice(), '"', q + 1, n).unwrap();
            proof {
                let e2 = choose|x: int| #[trigger] first_at_or_after(t@, '"', q + 1, x);
                assert(first_at_or_after(t@, '"', q + 1, e as int));
                lemma_first_at_or_after_unique(t@, '"', q + 1, e as int, e2);
            }
            let mut out = String::from_str(table.substring_char(0, q + 1));
            out.append(value);
            out.append(table.substring_char(e, n));
            proof {
                assert(table@.subrange(0, q + 1) =~= table@.take(q + 1));
                assert(table@.subrange(e as int, n as int) =~= table@.skip(e as int));
            }
            out
        },
    }
}

/// The crates of this workspace whose versions move together.
pub open spec fn local_crates() -> Seq<Seq<char>> {
    seq!["wasm-bindgen"@, "wasm-bindgen-macro"@, "wry-bindgen"@, "wry-bindgen-macro"@, "wry-bindgen-macro-support"@]
}

pub open spec fn local_crate(name: Seq<char>) -> bool {
    local_crates().contains(name)
}

/// Whether `name` is one of the workspace's crates.
pub fn is_local_crate(name: &str) -> (r: bool)
    ensures
        r == local_crate(name@),
{
    let r = str_equal(name, "wasm-bindgen") || str_equal(name, "wasm-bindgen-macro") || str_equal(name, "wry-bindgen")
        || str_equal(name, "wry-bindgen-macro") || str_equal(name, "wry-bindgen-macro-support");
    proof {
        let l = local_crates();
        if local_crate(name@) {
            let k = choose|k: int| 0 <= k < l.len() && l[k] == name@;
            assert(k == 0 || k == 1 || k == 2 || k == 3 || k == 4);
        }
        if r {
            if name@ == "wasm-bindgen"@ { assert(l[0] == name@); }
            if name@ == "wasm-bindgen-macro"@ { assert(l[1] == name@); }
            if name@ == "wry-bindgen"@ { assert(l[2] == name@); }
            if name@ == "wry-bindgen-macro"@ { assert(l[3] == name@); }
            if name@ == "wry-bindgen-macro-support"@ { assert(l[4] == name@); }
        }
    }
    r
}

/// A dependency line after the version bump: a `{ path = ..., version = ... }`
/// dependency on a workspace crate (named by its key or its `package`) gets
/// `version = "=<target>"`; every other line stays.
pub open spec fn dependency_line(body: Seq<char>, target: Seq<char>) -> Seq<char> {
    match inline_table_parts(body) {
        None => body,
        Some((pre, key, table, suf)) => {
            let dep = match table_value(table, "package"@) {
                Some(p) => p,
                None => key,
            };
            if !local_crate(dep) || table_value(table, "path"@) is None || table_value(table, "version"@) is None {
                body
            } else {
                pre + table_with_value(table, "version"@, seq!['='] + target) + suf
            }
        },
    }
}

/// `j` is the first line in `start..end` holding a `field = "..."` value.
pub open spec fn first_field_line(ls: Seq<(Seq<char>, LineEnding)>, field: Seq<char>, start: int, end: int, j: int) -> bool {
    &&& start <= j < end
    &&& field_span(ls[j].0, field) is Some
    &&& forall|k: int| start <= k < j ==> field_span(#[trigger] ls[k].0, field) is None
}

/// `ls` with the value of `field` on line `j` replaced by `value`.
pub open spec fn with_field(ls: Seq<(Seq<char>, LineEnding)>, j: int, field: Seq<char>, value: Seq<char>) -> Seq<(Seq<char>, LineEnding)> {
    ls.update(j, (spliced(ls[j].0, field_span(ls[j].0, field)->0, value), ls[j].1))
}

/// Why a manifest cannot be updated.
#[derive(Clone, Copy, Debug, PartialEq, Eq, Structural)]
pub enum ManifestError {
    MissingPackageSection,
    MissingName,
    /// The manifest is another crate's.
    NameMismatch,
    MissingVersion,
}

/// The manifest of `crate_name` with its version and the versions of its
/// path dependencies on workspace crates set to `target`.
pub open spec fn updated_manifest(text: Seq<char>, crate_name: Seq<char>, target: Seq<char>) -> Result<Seq<char>, ManifestError> {
    let ls = text_lines(text);
    match bounds_scan(bodies_of(ls), "package"@, 0, None) {
        None => Err(ManifestError::MissingPackageSection),
        Some((start, end)) => match field_in(lines_of(joined(ls.subrange(start, end))), "name"@) {
            None => Err(ManifestError::MissingName),
            Some(name) => if name != crate_name {
                Err(ManifestError::NameMismatch)
            } else if !(exists|j: int| #[trigger] first_field_line(ls, "version"@, start, end, j)) {
                Err(ManifestError::MissingVersion)
            } else {
                let j = choose|j: int| #[trigger] first_field_line(ls, "version"@, start, end, j);
                let ls1 = with_field(ls, j, "version"@, target);
                Ok(joined(ls1.map_values(|l: (Seq<char>, LineEnding)| (dependency_line(l.0, target), l.1))))
            },
        },
    }
}

proof fn lemma_first_field_line_unique(ls: Seq<(Seq<char>, LineEnding)>, field: Seq<char>, start: int, end: int, i: int, j: int)
    requires
        first_field_line(ls, field, start, end, i),
        first_field_line(ls, field, start, end, j),
    ensures
        i == j,
{
    if i < j {
        assert(field_span(ls[i].0, field) is None);
    } else if j < i {
        assert(field_span(ls[j].0, field) is None);
    }
}

impl Lines {
    /// Replace the first `field = "..."` value in lines `start..end`; the
    /// line's index, or `None` (and no change) when there is none.
    pub fn replace_first_field(&mut self, start: usize, end: usize, field: &str, value: &str) -> (r: Option<usize>)
        requires
            start <= end <= old(self)@.len(),
        ensures
            match r {
                Some(j) => first_field_line(old(self)@, field@, start as int, end as int, j as int)
                    && final(self)@ == with_field(old(self)@, j as int, field@, value@),
                None => !(exists|j: int| #[trigger] first_field_line(old(self)@, field@, start as int, end as int, j))
                    && final(self)@ == old(self)@,
            },
    {
        let mut index = start;
        while index < end
            invariant
                start <= index <= end <= self@.len(),
                self@ == old(self)@,
                forall|k: int| start <= k < index ==> field_span(#[trigger] old(self)@[k].0, field@) is None,
            decreases end - index,
        {
            if self.replace_field(index, field, value) {
                return Some(index);
            }
            index = index + 1;
        }
        proof {
            assert forall|j: int| !#[trigger] first_field_line(old(self)@, field@, start as int, end as int, j) by {}
        }
        None
    }

    /// Bump the dependency on line `index` if it is a path dependency on a
    /// workspace crate.
    fn bump_dependency_line(&mut self, index: usize, target: &str)
        requires
            index < old(self)@.len(),
        ensures
            final(self)@ == old(self)@.update(
                index as int,
                (dependency_line(old(self)@[index as int].0, target@), old(self)@[index as int].1),
            ),
    {
        proof {
            reveal_strlit("package");
            reveal_strlit("path");
            reveal_strlit("version");
        }
        let line = String::from_str(self.body(index));
        let (prefix, key, table, suffix) = match split_inline_table(line.as_str()) {
            None => {
                assert(old(self)@.update(index as int, old(self)@[index as int]) =~= old(self)@);
                return;
            },
            Some(parts) => parts,
        };
        let dependency_name = match inline_table_value(table, "package") {
            Some(p) => p,
            None => key,
        };
        if !is_local_crate(dependency_name) || inline_table_value(table, "path").is_none()
            || inline_table_value(table, "version").is_none() {
            assert(old(self)@.update(index as int, old(self)@[index as int]) =~= old(self)@);
            return;
        }
        proof {
            lemma_value_span(table@, "version"@);
        }
        let mut version = String::from_str("=");
        version.append(target);
        proof {
            reveal_strlit("=");
        }
        let updated_table = replace_inline_table_value(table, "version", version.as_str());
        let mut updated = String::from_str(prefix);
        updated.append(updated_table.as_str());
        updated.append(suffix);
        proof {
            assert(line@ == old(self)@[index as int].0);
            assert(version@ == seq!['='] + target@);
            assert(updated@ == prefix@ + table_with_value(table@, "version"@, seq!['='] + target@) + suffix@);
            assert(updated@ == dependency_line(line@, target@));
        }
        self.set_body(index, updated);
    }
}

/// Set the version of the manifest of `crate_name`, and of its path
/// dependencies on workspace crates, to `target_version`.
pub fn update_manifest_text(text: &str, crate_name: &str, target_version: &str) -> (r: Result<String, ManifestError>)
    ensures
        match r {
            Ok(s) => updated_manifest(text@, crate_name@, target_version@) == Ok::<Seq<char>, ManifestError>(s@),
            Err(e) => updated_manifest(text@, crate_name@, target_version@) == Err::<Seq<char>, ManifestError>(e),
        },
{
    let mut lines = Lines::from(text);
    let ghost ls = lines@;
    let (start, end) = match lines.find_section_bounds("package") {
        None => return Err(ManifestError::MissingPackageSection),
        Some(bounds) => bounds,
    };
    proof {
        lemma_bounds_scan_range(bodies_of(ls), "package"@, 0, None);
    }
    let package_text = lines.range_text(start, end);
    let name = match read_field(package_text.as_str(), "name") {
        None => return Err(ManifestError::MissingName),
        Some(name) => name,
    };
    if !str_equal(name, crate_name) {
        return Err(ManifestError::NameMismatch);
    }
    let j = match lines.replace_first_field(start, end, "version", target_version) {
        None => return Err(ManifestError::MissingVersion),
        Some(j) => j,
    };
    proof {
        let j2 = choose|j: int| #[trigger] first_field_line(ls, "version"@, start as int, end as int, j);
        lemma_first_field_line_unique(ls, "version"@, start as int, end as int, j as int, j2);
    }
    let ghost ls1 = lines@;
    let mut index: usize = 0;
    while index < lines.len()
        invariant
            lines@.len() == ls1.len(),
            index <= ls1.len(),
            forall|k: int|
                0 <= k < ls1.len() ==> #[trigger] lines@[k] == if k < index {
                    (dependency_line(ls1[k].0, target_version@), ls1[k].1)
                } else {
                    ls1[k]
                },
        decreases ls1.len() - index,
    {
        lines.bump_dependency_line(index, target_version);
        index = index + 1;
    }
    proof {
        assert(lines@ =~= ls1.map_values(|l: (Seq<char>, LineEnding)| (dependency_line(l.0, target_version@), l.1)));
    }
    Ok(lines.into_string())
}

proof fn lemma_bounds_scan_range(bodies: Seq<Seq<char>>, section: Seq<char>, i: int, start: Option<int>)
    requires
        0 <= i <= bodies.len(),
        start matches Some(s) ==> 0 <= s <= i,
    ensures
        bounds_scan(bodies, section, i, start) matches Some((a, b)) ==> 0 <= a <= b <= bodies.len(),
    decreases bodies.len() - i,
{
    if i < bodies.len() {
        match section_of(bodies[i]) {
            Some(name) => match start {
                Some(s) => {},
                None => lemma_bounds_scan_range(bodies, section, i + 1, if name == section { Some(i + 1) } else { None }),
            },
            None => lemma_bounds_scan_range(bodies, section, i + 1, start),
        }
    }
}

/// A `[[package]]` header of a lockfile.
pub open spec fn is_package_header(body: Seq<char>) -> bool {
    crate::text::trim(body) == "[[package]]"@
}

/// The first package header at or after line `i` (or the end).
pub open spec fn next_header(ls: Seq<(Seq<char>, LineEnding)>, i: int) -> int
    decreases ls.len() - i,
{
    if i < 0 || i >= ls.len() {
        ls.len() as int
    } else if is_package_header(ls[i].0) {
        i
    } else {
        next_header(ls, i + 1)
    }
}

pub proof fn lemma_next_header(ls: Seq<(Seq<char>, LineEnding)>, i: int)
    requires
        0 <= i <= ls.len(),
    ensures
        i <= next_header(ls, i) <= ls.len(),
        forall|k: int| i <= k < next_header(ls, i) ==> !is_package_header(#[trigger] ls[k].0),
        next_header(ls, i) < ls.len() ==> is_package_header(ls[next_header(ls, i)].0),
    decreases ls.len() - i,
{
    if i < ls.len() && !is_package_header(ls[i].0) {
        lemma_next_header(ls, i + 1);
    }
}

/// Walk the package blocks of a lockfile from line `i`: each workspace crate
/// without a `source` gets its first `version` set to `target`. The names
/// bumped so far are `found`; a bumped package without a version is an error
/// naming it.
pub open spec fn lock_from(
    ls: Seq<(Seq<char>, LineEnding)>,
    target: Seq<char>,
    i: int,
    found: Set<Seq<char>>,
) -> Result<(Seq<(Seq<char>, LineEnding)>, Set<Seq<char>>), Seq<char>>
    decreases ls.len() - i,
{
    if i < 0 || i >= ls.len() {
        Ok((ls, found))
    } else {
        let h = next_header(ls, i);
        if h >= ls.len() {
            Ok((ls, found))
        } else {
            let end = next_header(ls, h + 1);
            proof {
                lemma_next_header(ls, i);
                lemma_next_header(ls, h + 1);
            }
            let block = lines_of(joined(ls.subrange(h, end)));
            match field_in(block, "name"@) {
                None => lock_from(ls, target, end, found),
                Some(name) => if !local_crate(name) || field_in(block, "source"@) is Some {
                    lock_from(ls, target, end, found)
                } else if !(exists|j: int| #[trigger] first_field_line(ls, "version"@, h, end, j)) {
                    Err(name)
                } else {
                    let j = choose|j: int| #[trigger] first_field_line(ls, "version"@, h, end, j);
                    lock_from(with_field(ls, j, "version"@, target), target, end, found.insert(name))
                },
            }
        }
    }
}

/// The workspace crates missing from `found`, in workspace order.
pub open spec fn missing_crates(found: Set<Seq<char>>) -> Seq<Seq<char>> {
    local_crates().filter(|c: Seq<char>| !found.contains(c))
}

/// Why a lockfile cannot be updated.
#[derive(Debug)]
pub enum LockError {
    /// A workspace package has no `version` field.
    MissingVersion(String),
    /// Workspace packages that have no entry.
    MissingLocalPackages(Vec<String>),
}

/// The lockfile with every workspace package's version set to `target`.
pub open spec fn updated_lock(text: Seq<char>, target: Seq<char>) -> Result<Seq<char>, Result<Seq<char>, Seq<Seq<char>>>> {
    match lock_from(text_lines(text), target, 0, Set::empty()) {
        Err(name) => Err(Ok(name)),
        Ok((ls, found)) => if missing_crates(found).len() > 0 {
            Err(Err(missing_crates(found)))
        } else {
            Ok(joined(ls))
        },
    }
}

proof fn lemma_lock_skip(ls: Seq<(Seq<char>, LineEnding)>, target: Seq<char>, i: int, found: Set<Seq<char>>)
    requires
        0 <= i < ls.len(),
        !is_package_header(ls[i].0),
    ensures
        lock_from(ls, target, i, found) == lock_from(ls, target, i + 1, found),
{
    lemma_next_header(ls, i + 1);
}

/// The line after the package block that starts at line `h`: the next
/// package header, or the end.
pub open spec fn block_end(ls: Seq<(Seq<char>, LineEnding)>, h: int) -> int {
    next_header(ls, h + 1)
}

/// The fields of the package block that starts at line `h`.
pub open spec fn block_fields(ls: Seq<(Seq<char>, LineEnding)>, h: int) -> Seq<Seq<char>> {
    lines_of(joined(ls.subrange(h, block_end(ls, h))))
}

/// Line `k` lies in a package block, starting at header `h`, that is not a
/// workspace crate built from this repository: it names a `source` (a
/// package fetched from a registry or a repository), or its name is not
/// one of the workspace crates, or it has no name.
pub open spec fn in_outside_block(ls: Seq<(Seq<char>, LineEnding)>, h: int, k: int) -> bool {
    &&& 0 <= h < ls.len()
    &&& is_package_header(ls[h].0)
    &&& (field_in(block_fields(ls, h), "source"@) is Some || !(field_in(block_fields(ls, h), "name"@) matches Some(
        n,
    ) && local_crate(n)))
    &&& h <= k < block_end(ls, h)
}

/// The lines of a lockfile after the version update (the lines themselves
/// when the update fails).
pub open spec fn locked_lines(text: Seq<char>, target: Seq<char>) -> Seq<(Seq<char>, LineEnding)> {
    match lock_from(text_lines(text), target, 0, Set::empty()) {
        Ok((ls, _)) => ls,
        Err(_) => text_lines(text),
    }
}

proof fn lemma_next_header_frame(a: Seq<(Seq<char>, LineEnding)>, b: Seq<(Seq<char>, LineEnding)>, i: int)
    requires
        a.len() == b.len(),
        forall|k: int| i <= k < a.len() ==> a[k] == b[k],
    ensures
        next_header(a, i) == next_header(b, i),
    decreases a.len() - i,
{
    if 0 <= i < a.len() {
        lemma_next_header_frame(a, b, i + 1);
    }
}

/// Walking the blocks from line `i` changes no line before `i` and no line
/// of a block at or after `i` that is not a workspace crate's own.
proof fn lemma_lock_from_frame(ls: Seq<(Seq<char>, LineEnding)>, target: Seq<char>, i: int, found: Set<Seq<char>>)
    requires
        0 <= i <= ls.len(),
    ensures
        lock_from(ls, target, i, found) matches Ok((ls2, _)) ==> {
            &&& ls2.len() == ls.len()
            &&& forall|k: int| 0 <= k < i ==> #[trigger] ls2[k] == ls[k]
            &&& forall|h: int, k: int| #[trigger] in_outside_block(ls, h, k) && i <= h ==> ls2[k] == ls[k]
        },
    decreases ls.len() - i,
{
    if i < ls.len() {
        let h0 = next_header(ls, i);
        lemma_next_header(ls, i);
        if h0 < ls.len() {
            let e = next_header(ls, h0 + 1);
            lemma_next_header(ls, h0 + 1);
            let block = lines_of(joined(ls.subrange(h0, e)));
            let skip = match field_in(block, "name"@) {
                None => true,
                Some(name) => !local_crate(name) || field_in(block, "source"@) is Some,
            };
            if skip {
                lemma_lock_from_frame(ls, target, e, found);
                match lock_from(ls, target, i, found) {
                    Ok((ls2, _)) => {
                        assert forall|h: int, k: int| #[trigger] in_outside_block(ls, h, k) && i <= h implies ls2[k]
                            == ls[k] by {
                            if h < e {
                                assert(h == h0);
                            }
                        }
                    },
                    Err(_) => {},
                }
            } else if exists|j: int| #[trigger] first_field_line(ls, "version"@, h0, e, j) {
                let name = field_in(block, "name"@)->0;
                let j = choose|j: int| #[trigger] first_field_line(ls, "version"@, h0, e, j);
                let ls1 = with_field(ls, j, "version"@, target);
                lemma_lock_from_frame(ls1, target, e, found.insert(name));
                match lock_from(ls, target, i, found) {
                    Ok((ls2, _)) => {
                        assert forall|k: int| 0 <= k < i implies #[trigger] ls2[k] == ls[k] by {
                            assert(ls2[k] == ls1[k]);
                        }
                        assert forall|h: int, k: int| #[trigger] in_outside_block(ls, h, k) && i <= h implies ls2[k]
                            == ls[k] by {
                            if h < e {
                                assert(h == h0);
                            } else {
                                lemma_next_header(ls, h + 1);
                                assert(h0 <= j < e);
                                assert(ls1.len() == ls.len());
                                assert forall|m: int| h <= m < ls.len() implies #[trigger] ls1[m] == ls[m] by {
                                    assert(m != j);
                                }
                                lemma_next_header_frame(ls1, ls, h + 1);
                                assert(ls1.subrange(h, block_end(ls, h)) =~= ls.subrange(h, block_end(ls, h)));
                                assert(in_outside_block(ls1, h, k));
                            }
                        }
                    },
                    Err(_) => {},
                }
            }
        }
    }
}

/// `joined` of two runs of lines is the two texts one after the other.
proof fn lemma_joined_append(a: Seq<(Seq<char>, LineEnding)>, b: Seq<(Seq<char>, LineEnding)>)
    ensures
        joined(a + b) == joined(a) + joined(b),
    decreases b.len(),
{
    if b.len() == 0 {
        assert(a + b =~= a);
        assert(joined(a) + joined(b) =~= joined(a));
    } else {
        lemma_joined_append(a, b.drop_last());
        assert((a + b).drop_last() =~= a + b.drop_last());
        assert(joined(a + b) =~= joined(a) + joined(b));
    }
}

/// A block that is not a workspace crate's own stands unchanged in the
/// updated lockfile.
proof fn lemma_lock_update_keeps_block(text: Seq<char>, target: Seq<char>, h: int)
    requires
        updated_lock(text, target) is Ok,
        in_outside_block(text_lines(text), h, h),
    ensures
        ({
            let ls = text_lines(text);
            let out = locked_lines(text, target);
            let e = block_end(ls, h);
            &&& updated_lock(text, target) == Ok::<Seq<char>, Result<Seq<char>, Seq<Seq<char>>>>(joined(out))
            &&& out.len() == ls.len()
            &&& h < e <= ls.len()
            &&& out.subrange(h, e) == ls.subrange(h, e)
            &&& joined(out) == joined(out.take(h)) + joined(ls.subrange(h, e)) + joined(out.skip(e))
        }),
{
    let ls = text_lines(text);
    let out = locked_lines(text, target);
    let e = block_end(ls, h);
    lemma_next_header(ls, h + 1);
    lemma_lock_from_frame(ls, target, 0, Set::empty());
    assert forall|k: int| h <= k < e implies out[k] == ls[k] by {
        assert(in_outside_block(ls, h, k));
    }
    assert(out.subrange(h, e) =~= ls.subrange(h, e));
    assert(out =~= out.take(h) + out.subrange(h, e) + out.skip(e));
    lemma_joined_append(out.take(h), out.subrange(h, e));
    lemma_joined_append(out.take(h) + out.subrange(h, e), out.skip(e));
}

/// Law: the lockfile update leaves every `[[package]]` block that names a
/// `source` exactly as it was, whatever the package is called: the result
/// has the same lines, those of such a block are the original ones, and the
/// block's original text stands in the result between the text of the
/// lines before it and that of the lines after it.
pub proof fn lemma_lock_update_keeps_sourced_blocks(text: Seq<char>, target: Seq<char>, h: int)
    requires
        updated_lock(text, target) is Ok,
        0 <= h < text_lines(text).len(),
        is_package_header(text_lines(text)[h].0),
        field_in(
            lines_of(joined(text_lines(text).subrange(h, block_end(text_lines(text), h)))),
            "source"@,
        ) is Some,
    ensures
        ({
            let ls = text_lines(text);
            let out = locked_lines(text, target);
            let e = block_end(ls, h);
            &&& updated_lock(text, target) == Ok::<Seq<char>, Result<Seq<char>, Seq<Seq<char>>>>(joined(out))
            &&& out.len() == ls.len()
            &&& h < e <= ls.len()
            &&& out.subrange(h, e) == ls.subrange(h, e)
            &&& joined(out) == joined(out.take(h)) + joined(ls.subrange(h, e)) + joined(out.skip(e))
        }),
{
    lemma_next_header(text_lines(text), h + 1);
    lemma_lock_update_keeps_block(text, target, h);
}

/// Law: the lockfile update leaves every `[[package]]` block whose name is
/// not one of the workspace crates exactly as it was, as the previous law
/// states it for blocks that name a `source`.
pub proof fn lemma_lock_update_keeps_other_packages(text: Seq<char>, target: Seq<char>, h: int, name: Seq<char>)
    requires
        updated_lock(text, target) is Ok,
        0 <= h < text_lines(text).len(),
        is_package_header(text_lines(text)[h].0),
        field_in(lines_of(joined(text_lines(text).subrange(h, block_end(text_lines(text), h)))), "name"@) == Some(
            name,
        ),
        !local_crate(name),
    ensures
        ({
            let ls = text_lines(text);
            let out = locked_lines(text, target);
            let e = block_end(ls, h);
            &&& updated_lock(text, target) == Ok::<Seq<char>, Result<Seq<char>, Seq<Seq<char>>>>(joined(out))
            &&& out.len() == ls.len()
            &&& h < e <= ls.len()
            &&& out.subrange(h, e) == ls.subrange(h, e)
            &&& joined(out) == joined(out.take(h)) + joined(ls.subrange(h, e)) + joined(out.skip(e))
        }),
{
    lemma_next_header(text_lines(text), h + 1);
    lemma_lock_update_keeps_block(text, target, h);
}

/// Set the version of every workspace package of a lockfile to `target_version`.
pub fn update_lock_text(text: &str, target_version: &str) -> (r: Result<String, LockError>)
    ensures
        match r {
            Ok(s) => updated_lock(text@, target_version@) == Ok::<Seq<char>, Result<Seq<char>, Seq<Seq<char>>>>(s@),
            Err(LockError::MissingVersion(name)) => updated_lock(text@, target_version@) == Err::<
                Seq<char>,
                Result<Seq<char>, Seq<Seq<char>>>,
            >(Ok(name@)),
            Err(LockError::MissingLocalPackages(names)) => updated_lock(text@, target_version@) == Err::<
                Seq<char>,
                Result<Seq<char>, Seq<Seq<char>>>,
            >(Err(names@.map_values(|n: String| n@))),
        },
{
    proof {
        reveal_strlit("[[package]]");
        reveal_strlit("name");
        reveal_strlit("source");
        reveal_strlit("version");
    }
    let mut lines = Lines::from(text);
    let mut found: Vec<String> = Vec::new();
    let ghost ls0 = lines@;
    let mut index: usize = 0;
    assert(found@.map_values(|n: String| n@).to_set() =~= Set::<Seq<char>>::empty());
    while index < lines.len()
        invariant
            ls0 == text_lines(text@),
            lock_from(ls0, target_version@, 0, Set::empty()) == lock_from(
                lines@,
                target_version@,
                index as int,
                found@.map_values(|n: String| n@).to_set(),
            ),
            index <= lines@.len(),
        decreases lines@.len() - index,
    {
        if !is_header_line(lines.body(index)) {
            proof {
                lemma_lock_skip(lines@, target_version@, index as int, found@.map_values(|n: String| n@).to_set());
            }
            index = index + 1;
            continue;
        }
        let start = index;
        index = index + 1;
        while index < lines.len() && !is_header_line(lines.body(index))
            invariant
                start < index <= lines@.len(),
                forall|k: int| start < k < index ==> !is_package_header(#[trigger] lines@[k].0),
            decreases lines@.len() - index,
        {
            index = index + 1;
        }
        let end = index;
        proof {
            lemma_next_header(lines@, start as int);
            lemma_next_header(lines@, start + 1);
            assert(next_header(lines@, start as int) == start);
            if next_header(lines@, start + 1) < end {
                assert(!is_package_header(lines@[next_header(lines@, start + 1)].0));
            }
            if end < next_header(lines@, start + 1) {
                assert(!is_package_header(lines@[end as int].0));
            }
        }
        let block = lines.range_text(start, end);
        let name = match read_field(block.as_str(), "name") {
            None => continue,
            Some(name) => name,
        };
        if !is_local_crate(name) || read_field(block.as_str(), "source").is_some() {
            continue;
        }
        let ghost before = lines@;
        let ghost found_set = found@.map_values(|n: String| n@).to_set();
        match lines.replace_first_field(start, end, "version", target_version) {
            None => {
                let missing_name = String::from_str(name);
                proof {
                    assert(lock_from(before, target_version@, start as int, found_set) == Err::<
                        (Seq<(Seq<char>, LineEnding)>, Set<Seq<char>>),
                        Seq<char>,
                    >(name@));
                }
                return Err(LockError::MissingVersion(missing_name));
            },
            Some(j) => {
                proof {
                    let j2 = choose|j: int| #[trigger] first_field_line(before, "version"@, start as int, end as int, j);
                    lemma_first_field_line_unique(before, "version"@, start as int, end as int, j as int, j2);
                }
            },
        }
        let ghost old_found = found@;
        found.push(String::from_str(name));
        proof {
            let mapped = old_found.map_values(|n: String| n@);
            assert(found@.map_values(|n: String| n@) =~= mapped.push(name@));
            mapped.lemma_push_to_set_commute(name@);
            assert(found@.map_values(|n: String| n@).to_set() =~= found_set.insert(name@));
        }
    }
    let ghost found_set = found@.map_values(|n: String| n@).to_set();
    let mut missing: Vec<String> = Vec::new();
    let mut c: usize = 0;
    while c < 5
        invariant
            c <= 5,
            found_set == found@.map_values(|n: String| n@).to_set(),
            missing@.map_values(|n: String| n@) == local_crates().take(c as int).filter(
                |x: Seq<char>| !found_set.contains(x),
            ),
        decreases 5 - c,
    {
        let local = local_crate_name(c);
        let present = contains_name(&found, local);
        proof {
            assert(local_crates().take(c + 1).drop_last() =~= local_crates().take(c as int));
            reveal(Seq::filter);
        }
        if !present {
            missing.push(String::from_str(local));
        }
        assert(missing@.map_values(|n: String| n@) =~= local_crates().take(c + 1).filter(
            |x: Seq<char>| !found_set.contains(x),
        ));
        c = c + 1;
    }
    assert(local_crates().take(5) =~= local_crates());
    if missing.len() > 0 {
        return Err(LockError::MissingLocalPackages(missing));
    }
    Ok(lines.into_string())
}

fn is_header_line(body: &str) -> (r: bool)
    ensures
        r == is_package_header(body@),
{
    let c = chars_of(body);
    let m = c.len();
    let s = trim_start_range(c.as_slice(), 0, m);
    let e = trim_end_range(c.as_slice(), s, m);
    proof {
        assert(body@.subrange(0, m as int) =~= body@);
    }
    str_equal(body.substring_char(s, e), "[[package]]")
}

fn local_crate_name(i: usize) -> (r: &'static str)
    requires
        i < 5,
    ensures
        r@ == local_crates()[i as int],
{
    if i == 0 {
        "wasm-bindgen"
    } else if i == 1 {
        "wasm-bindgen-macro"
    } else if i == 2 {
        "wry-bindgen"
    } else if i == 3 {
        "wry-bindgen-macro"
    } else {
        "wry-bindgen-macro-support"
    }
}

fn contains_name(names: &Vec<String>, name: &str) -> (r: bool)
    ensures
        r == names@.map_values(|n: String| n@).to_set().contains(name@),
{
    let mut f: usize = 0;
    while f < names.len()
        invariant
            f <= names@.len(),
            forall|k: int| 0 <= k < f ==> names@[k]@ != name@,
        decreases names.len() - f,
    {
        if str_equal(names[f].as_str(), name) {
            proof {
                assert(names@.map_values(|n: String| n@)[f as int] == name@);
            }
            return true;
        }
        f = f + 1;
    }
    proof {
        let mapped = names@.map_values(|n: String| n@);
        if mapped.to_set().contains(name@) {
            assert(mapped.contains(name@));
            let k = choose|k: int| 0 <= k < mapped.len() && #[trigger] mapped[k] == name@;
            assert(names@[k]@ == name@);
        }
    }
    false
}


/// Why a package's version could not be read from its manifest.
#[derive(Debug, PartialEq, Eq)]
pub enum PackageError {
    MissingPackageSection,
    MissingName,
    /// The package is not the upstream one; its name.
    UnexpectedName(String),
    MissingVersion,
    /// The version is not a stable `major.minor.patch` release; the version.
    UnstableVersion(String),
}

/// A `PackageError` with its text as characters.
pub enum PackageErrorView {
    MissingPackageSection,
    MissingName,
    UnexpectedName(Seq<char>),
    MissingVersion,
    UnstableVersion(Seq<char>),
}

impl View for PackageError {
    type V = PackageErrorView;

    open spec fn view(&self) -> PackageErrorView {
        match self {
            PackageError::MissingPackageSection => PackageErrorView::MissingPackageSection,
            PackageError::MissingName => PackageErrorView::MissingName,
            PackageError::UnexpectedName(n) => PackageErrorView::UnexpectedName(n@),
            PackageError::MissingVersion => PackageErrorView::MissingVersion,
            PackageError::UnstableVersion(v) => PackageErrorView::UnstableVersion(v@),
        }
    }
}

/// The lines of the `[package]` section of `text`, as `str::lines` reads them.
pub open spec fn package_lines(text: Seq<char>) -> Option<Seq<Seq<char>>> {
    let ls = text_lines(text);
    match bounds_scan(bodies_of(ls), "package"@, 0, None) {
        None => None,
        Some((start, end)) => Some(lines_of(joined(ls.subrange(start, end)))),
    }
}

/// The version a manifest gives its package; with `upstream_only`, the
/// package must carry one of the upstream package's names.
pub open spec fn package_version_of(text: Seq<char>, upstream_only: bool) -> Result<
    Seq<char>,
    PackageErrorView,
> {
    match package_lines(text) {
        None => Err(PackageErrorView::MissingPackageSection),
        Some(section) => match field_in(section, "name"@) {
            None => Err(PackageErrorView::MissingName),
            Some(name) => if upstream_only && !upstream_package_name(name) {
                Err(PackageErrorView::UnexpectedName(name))
            } else {
                match field_in(section, "version"@) {
                    None => Err(PackageErrorView::MissingVersion),
                    Some(v) => Ok(v),
                }
            },
        },
    }
}

/// The version a manifest gives its package, as text.
pub fn package_version(text: &str, upstream_only: bool) -> (r: Result<String, PackageError>)
    ensures
        match r {
            Ok(v) => package_version_of(text@, upstream_only) == Ok::<Seq<char>, PackageErrorView>(v@),
            Err(e) => package_version_of(text@, upstream_only) == Err::<Seq<char>, PackageErrorView>(e@),
        },
{
    let lines = Lines::from(text);
    proof {
        lemma_bounds_scan_range(bodies_of(lines@), "package"@, 0, None);
    }
    let (start, end) = match lines.find_section_bounds("package") {
        None => return Err(PackageError::MissingPackageSection),
        Some(b) => b,
    };
    let section = lines.range_text(start, end);
    let name = match read_field(section.as_str(), "name") {
        None => return Err(PackageError::MissingName),
        Some(n) => n,
    };
    if upstream_only && !is_upstream_package_name(name) {
        return Err(PackageError::UnexpectedName(String::from_str(name)));
    }
    match read_field(section.as_str(), "version") {
        None => Err(PackageError::MissingVersion),
        Some(v) => Ok(String::from_str(v)),
    }
}

/// The release a manifest of the upstream package declares.
pub open spec fn current_version_of(text: Seq<char>) -> Result<Version, PackageErrorView> {
    match package_version_of(text, true) {
        Err(e) => Err(e),
        Ok(v) => match parse_version_spec(v) {
            Some(ver) => Ok(ver),
            None => Err(PackageErrorView::UnstableVersion(v)),
        },
    }
}

/// The stable release an upstream manifest declares.
pub fn current_version(text: &str) -> (r: Result<Version, PackageError>)
    ensures
        match r {
            Ok(v) => current_version_of(text@) == Ok::<Version, PackageErrorView>(v),
            Err(e) => current_version_of(text@) == Err::<Version, PackageErrorView>(e@),
        },
{
    let v = package_version(text, true)?;
    match parse_version(v.as_str()) {
        Some(ver) => Ok(ver),
        None => Err(PackageError::UnstableVersion(v)),
    }
}

} // verus!
