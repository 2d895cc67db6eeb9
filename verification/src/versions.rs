//! Release versions of the upstream bindings crate: parsing stable version
//! tags, comparing them, and forming the version a local release takes.

use crate::text::{
    all_digits, contains_char, digits_in, is_alnum, is_digit, line_ranges, lines_of, ranges_cut,
    lemma_split_on_nonempty, split_on, split_ranges, token_ranges, tokens,
};
use vstd::prelude::*;
use vstd::string::*;

verus! {

/// A stable `major.minor.patch` release.
#[derive(Clone, Copy, Debug, PartialEq, Eq, Structural, PartialOrd, Ord, Hash)]
pub struct Version {
    pub major: u64,
    pub minor: u64,
    pub patch: u64,
}

/// The number written by the decimal digits `p`.
pub open spec fn digits_value(p: Seq<char>) -> nat
    decreases p.len(),
{
    if p.len() == 0 {
        0
    } else {
        digits_value(p.drop_last()) * 10 + (p.last() as nat - '0' as nat) as nat
    }
}

/// A version component: a non-empty run of ASCII digits whose value fits in a `u64`.
pub open spec fn part_value(p: Seq<char>) -> Option<u64> {
    if p.len() == 0 || !all_digits(p) || digits_value(p) > u64::MAX {
        None
    } else {
        Some(digits_value(p) as u64)
    }
}

/// `s` without one leading `v`.
pub open spec fn strip_v(s: Seq<char>) -> Seq<char> {
    if s.len() > 0 && s[0] == 'v' {
        s.skip(1)
    } else {
        s
    }
}

/// The stable version `s` names: an optional `v`, then exactly three
/// dot-separated components, and no prerelease (`-`) or build (`+`) part.
pub open spec fn parse_version_spec(s: Seq<char>) -> Option<Version> {
    let v = strip_v(s);
    let parts = split_on(v, '.');
    if v.contains('-') || v.contains('+') || parts.len() != 3 {
        None
    } else {
        match (part_value(parts[0]), part_value(parts[1]), part_value(parts[2])) {
            (Some(major), Some(minor), Some(patch)) => Some(Version { major, minor, patch }),
            _ => None,
        }
    }
}

/// `a` is a later release than `b`: compared by major, then minor, then patch.
pub open spec fn newer(a: Version, b: Version) -> bool {
    ||| a.major > b.major
    ||| (a.major == b.major && a.minor > b.minor)
    ||| (a.major == b.major && a.minor == b.minor && a.patch > b.patch)
}

proof fn lemma_digits_value_prefix(p: Seq<char>, i: int)
    requires
        0 <= i <= p.len(),
        all_digits(p),
    ensures
        digits_value(p.take(i)) <= digits_value(p),
    decreases p.len(),
{
    if i < p.len() {
        assert(p.drop_last().take(i) =~= p.take(i));
        assert(all_digits(p.drop_last()));
        lemma_digits_value_prefix(p.drop_last(), i);
    } else {
        assert(p.take(i) =~= p);
    }
}

/// A decimal numeral is a non-empty run of digits that reads back as its number.
proof fn lemma_decimal_reads_back(n: nat)
    ensures
        decimal(n).len() > 0,
        all_digits(decimal(n)),
        digits_value(decimal(n)) == n,
    decreases n,
{
    if n >= 10 {
        lemma_decimal_reads_back(n / 10);
        let d = decimal(n);
        assert(d.drop_last() =~= decimal(n / 10));
        assert(digit_char(n % 10) as nat - '0' as nat == n % 10);
        assert(digits_value(d) == (n / 10) * 10 + n % 10);
        assert((n / 10) * 10 + n % 10 == n) by (nonlinear_arith);
    } else {
        assert(decimal(n).drop_last() =~= Seq::<char>::empty());
        assert(digits_value(Seq::<char>::empty()) == 0);
        assert(digit_char(n) as nat == '0' as nat + n);
    }
}

/// Appending text without the separator extends the last piece.
proof fn lemma_split_extend_last(x: Seq<char>, b: Seq<char>, sep: char)
    requires
        !b.contains(sep),
    ensures
        split_on(x + b, sep) == split_on(x, sep).update(
            split_on(x, sep).len() - 1,
            split_on(x, sep).last() + b,
        ),
    decreases b.len(),
{
    lemma_split_on_nonempty(x, sep);
    if b.len() == 0 {
        assert(x + b =~= x);
        assert(split_on(x, sep).last() + b =~= split_on(x, sep).last());
        assert(split_on(x, sep).update(split_on(x, sep).len() - 1, split_on(x, sep).last())
            =~= split_on(x, sep));
    } else {
        let b0 = b.drop_last();
        assert(!b0.contains(sep)) by {
            if b0.contains(sep) {
                let k = choose|k: int| 0 <= k < b0.len() && b0[k] == sep;
                assert(b[k] == sep);
            }
        }
        lemma_split_extend_last(x, b0, sep);
        assert((x + b).drop_last() =~= x + b0);
        assert((x + b).last() == b.last());
        assert(b.last() != sep) by {
            assert(b[b.len() - 1] == b.last());
        }
        lemma_split_on_nonempty(x + b0, sep);
        let whole = split_on(x, sep);
        let prev = split_on(x + b0, sep);
        assert(prev == whole.update(whole.len() - 1, whole.last() + b0));
        assert(prev.len() == whole.len());
        assert(prev.last() == whole.last() + b0);
        assert(split_on(x + b, sep) == prev.update(prev.len() - 1, prev.last().push(b.last())));
        assert((whole.last() + b0).push(b.last()) =~= whole.last() + b);
        assert(split_on(x + b, sep) =~= split_on(x, sep).update(
            split_on(x, sep).len() - 1,
            split_on(x, sep).last() + b,
        ));
    }
}

/// Law: a version's text parses back to the version.
pub proof fn lemma_version_text_roundtrip(v: Version)
    ensures
        parse_version_spec(version_text(v)) == Some(v),
{
    let d1 = decimal(v.major as nat);
    let d2 = decimal(v.minor as nat);
    let d3 = decimal(v.patch as nat);
    lemma_decimal_reads_back(v.major as nat);
    lemma_decimal_reads_back(v.minor as nat);
    lemma_decimal_reads_back(v.patch as nat);
    let t = version_text(v);
    assert(t == d1 + seq!['.'] + d2 + seq!['.'] + d3);
    assert forall|d: Seq<char>, c: char| all_digits(d) && !is_digit(c) implies !d.contains(c) by {
        if d.contains(c) {
            let k = choose|k: int| 0 <= k < d.len() && d[k] == c;
            assert(is_digit(d[k]));
        }
    }
    assert(t[0] == d1[0]);
    assert(is_digit(d1[0]));
    assert(strip_v(t) == t);
    assert(!t.contains('-')) by {
        if t.contains('-') {
            let k = choose|k: int| 0 <= k < t.len() && t[k] == '-';
            if k < d1.len() {
                assert(d1[k] == '-');
            } else if k == d1.len() {
            } else if k < d1.len() + 1 + d2.len() {
                assert(d2[k - d1.len() - 1] == '-');
            } else if k == d1.len() + 1 + d2.len() {
            } else {
                assert(d3[k - d1.len() - 2 - d2.len()] == '-');
            }
        }
    }
    assert(!t.contains('+')) by {
        if t.contains('+') {
            let k = choose|k: int| 0 <= k < t.len() && t[k] == '+';
            if k < d1.len() {
                assert(d1[k] == '+');
            } else if k == d1.len() {
            } else if k < d1.len() + 1 + d2.len() {
                assert(d2[k - d1.len() - 1] == '+');
            } else if k == d1.len() + 1 + d2.len() {
            } else {
                assert(d3[k - d1.len() - 2 - d2.len()] == '+');
            }
        }
    }
    let e = Seq::<char>::empty();
    lemma_split_extend_last(e, d1, '.');
    assert(e + d1 =~= d1);
    assert(split_on(d1, '.') =~= seq![d1]);
    let x1 = d1 + seq!['.'];
    assert(x1.drop_last() =~= d1);
    assert(split_on(x1, '.') =~= seq![d1, e]);
    lemma_split_extend_last(x1, d2, '.');
    assert(split_on(x1 + d2, '.') =~= seq![d1, d2]);
    let x2 = x1 + d2 + seq!['.'];
    assert(x2.drop_last() =~= x1 + d2);
    assert(split_on(x2, '.') =~= seq![d1, d2, e]);
    lemma_split_extend_last(x2, d3, '.');
    assert(x2 + d3 =~= t);
    assert(split_on(t, '.') =~= seq![d1, d2, d3]);
}

/// Law: `newer` orders versions strictly and totally, by major, then
/// minor, then patch, so sorting by it is well defined.
pub proof fn lemma_newer_is_strict_total_order(a: Version, b: Version, c: Version)
    ensures
        !newer(a, a),
        newer(a, b) ==> !newer(b, a),
        newer(a, b) && newer(b, c) ==> newer(a, c),
        a != b ==> newer(a, b) || newer(b, a),
{
}

/// The value of the version component `s[from..to]`.
pub fn parse_part(s: &str, from: usize, to: usize) -> (r: Option<u64>)
    requires
        from <= to <= s@.len(),
    ensures
        r == part_value(s@.subrange(from as int, to as int)),
{
    let ghost p = s@.subrange(from as int, to as int);
    if from == to || !digits_in(s, from, to) {
        return None;
    }
    let mut value: u64 = 0;
    let mut i = from;
    while i < to
        invariant
            from <= i <= to <= s@.len(),
            p == s@.subrange(from as int, to as int),
            all_digits(p),
            value == digits_value(p.take(i - from)),
        decreases to - i,
    {
        let c = s.get_char(i);
        proof {
            assert(p.take(i + 1 - from).drop_last() =~= p.take(i - from));
            assert(p.take(i + 1 - from).last() == c);
            assert(p[i - from] == c);
            assert(is_digit(c));
        }
        let d = (c as u32 - '0' as u32) as u64;
        if value > (u64::MAX - d) / 10 {
            proof {
                assert(digits_value(p.take(i + 1 - from)) == value * 10 + d);
                assert(value * 10 + d > u64::MAX) by (nonlinear_arith)
                    requires
                        value > (u64::MAX - d) / 10,
                        d <= 9,
                ;
                lemma_digits_value_prefix(p, i + 1 - from);
            }
            return None;
        }
        proof {
            assert(value * 10 + d <= u64::MAX) by (nonlinear_arith)
                requires
                    value <= (u64::MAX - d) / 10,
                    d <= 9,
            ;
        }
        value = value * 10 + d;
        i = i + 1;
    }
    proof {
        assert(p.take(to - from) =~= p);
    }
    Some(value)
}

/// The stable version `version` names, if any.
pub fn parse_version(version: &str) -> (r: Option<Version>)
    ensures
        r == parse_version_spec(version@),
{
    let n = version.unicode_len();
    let from: usize = if n > 0 && version.get_char(0) == 'v' { 1 } else { 0 };
    let ghost v = strip_v(version@);
    proof {
        if from == 0 {
            assert(version@.skip(0) =~= version@);
        }
        assert(v =~= version@.skip(from as int));
    }
    let rest = version.substring_char(from, n);
    assert(rest@ =~= v);
    if contains_char(rest, '-') || contains_char(rest, '+') {
        return None;
    }
    let parts = split_ranges(version, from, '.');
    if parts.len() != 3 {
        return None;
    }
    let (a0, b0) = parts[0];
    let (a1, b1) = parts[1];
    let (a2, b2) = parts[2];
    let major = parse_part(version, a0, b0);
    let minor = parse_part(version, a1, b1);
    let patch = parse_part(version, a2, b2);
    match (major, minor, patch) {
        (Some(major), Some(minor), Some(patch)) => Some(Version { major, minor, patch }),
        _ => None,
    }
}

/// The decimal digit `d`.
pub open spec fn digit_char(d: nat) -> char {
    ('0' as nat + d) as char
}

/// The decimal numeral of `n`.
pub open spec fn decimal(n: nat) -> Seq<char>
    decreases n,
{
    if n < 10 {
        seq![digit_char(n)]
    } else {
        decimal(n / 10).push(digit_char(n % 10))
    }
}

/// `major.minor.patch`.
pub open spec fn version_text(v: Version) -> Seq<char> {
    decimal(v.major as nat) + seq!['.'] + decimal(v.minor as nat) + seq!['.'] + decimal(v.patch as nat)
}

fn digit_str(d: u64) -> (s: &'static str)
    requires
        d < 10,
    ensures
        s@ == seq![digit_char(d as nat)],
{
    proof {
        reveal_strlit("0");
        reveal_strlit("1");
        reveal_strlit("2");
        reveal_strlit("3");
        reveal_strlit("4");
        reveal_strlit("5");
        reveal_strlit("6");
        reveal_strlit("7");
        reveal_strlit("8");
        reveal_strlit("9");
    }
    if d == 0 {
        "0"
    } else if d == 1 {
        "1"
    } else if d == 2 {
        "2"
    } else if d == 3 {
        "3"
    } else if d == 4 {
        "4"
    } else if d == 5 {
        "5"
    } else if d == 6 {
        "6"
    } else if d == 7 {
        "7"
    } else if d == 8 {
        "8"
    } else {
        "9"
    }
}

/// Append the decimal numeral of `n` to `out`.
pub fn push_decimal(out: &mut String, n: u64)
    ensures
        final(out)@ == old(out)@ + decimal(n as nat),
    decreases n,
{
    if n >= 10 {
        push_decimal(out, n / 10);
    }
    out.append(digit_str(n % 10));
    assert(out@ =~= old(out)@ + decimal(n as nat));
}

impl Version {
    /// The version as `major.minor.patch`.
    pub fn to_string(&self) -> (s: String)
        ensures
            s@ == version_text(*self),
    {
        let mut out = String::new();
        push_decimal(&mut out, self.major);
        proof {
            reveal_strlit(".");
        }
        out.append(".");
        push_decimal(&mut out, self.minor);
        out.append(".");
        push_decimal(&mut out, self.patch);
        assert(out@ =~= version_text(*self));
        out
    }

    /// Whether `self` is a later release than `other`.
    pub fn is_newer_than(&self, other: &Version) -> (r: bool)
        ensures
            r == newer(*self, *other),
    {
        self.major > other.major || (self.major == other.major && self.minor > other.minor) || (
        self.major == other.major && self.minor == other.minor && self.patch > other.patch)
    }
}

/// What a line of `git ls-remote --tags` output says: its second field is a
/// ref, and refs `refs/tags/<version>` name releases.
pub open spec fn release_of_line(line: Seq<char>) -> Option<Version> {
    let t = tokens(line);
    let prefix = seq!['r', 'e', 'f', 's', '/', 't', 'a', 'g', 's', '/'];
    if t.len() < 2 || t[1].len() < prefix.len() || t[1].take(prefix.len() as int) != prefix {
        None
    } else {
        parse_version_spec(t[1].skip(prefix.len() as int))
    }
}

/// The releases named by `lines`, in order.
pub open spec fn releases_of(lines: Seq<Seq<char>>) -> Seq<Version>
    decreases lines.len(),
{
    if lines.len() == 0 {
        Seq::empty()
    } else {
        releases_of(lines.drop_last()) + match release_of_line(lines.last()) {
            Some(v) => seq![v],
            None => Seq::empty(),
        }
    }
}

/// Whether `s[from..]` starts with `refs/tags/`.
fn has_tag_prefix(s: &str, from: usize, to: usize) -> (r: bool)
    requires
        from <= to <= s@.len(),
    ensures
        r == (to - from >= 10 && s@.subrange(from as int, to as int).take(10) == seq![
            'r',
            'e',
            'f',
            's',
            '/',
            't',
            'a',
            'g',
            's',
            '/',
        ]),
{
    let prefix = "refs/tags/";
    proof {
        reveal_strlit("refs/tags/");
    }
    if to - from < 10 {
        return false;
    }
    let mut i: usize = 0;
    while i < 10
        invariant
            i <= 10,
            from + 10 <= to <= s@.len(),
            prefix@ == seq!['r', 'e', 'f', 's', '/', 't', 'a', 'g', 's', '/'],
            forall|k: int| 0 <= k < i ==> s@[from + k] == prefix@[k],
        decreases 10 - i,
    {
        if s.get_char(from + i) != prefix.get_char(i) {
            assert(s@.subrange(from as int, to as int).take(10)[i as int] != prefix@[i as int]);
            return false;
        }
        i = i + 1;
    }
    assert(s@.subrange(from as int, to as int).take(10) =~= prefix@);
    true
}

/// The release a line of `git ls-remote --tags` output names, if any.
pub fn release_from_line(line: &str) -> (r: Option<Version>)
    ensures
        r == release_of_line(line@),
{
    let n = line.unicode_len();
    let toks = token_ranges(line, 0, n);
    proof {
        assert(line@.subrange(0, n as int) =~= line@);
    }
    if toks.len() < 2 {
        return None;
    }
    let (a, b) = toks[1];
    if !has_tag_prefix(line, a, b) {
        return None;
    }
    let tag = line.substring_char(a + 10, b);
    proof {
        assert(tag@ =~= line@.subrange(a as int, b as int).skip(10));
    }
    parse_version(tag)
}

/// The releases named in `git ls-remote --tags` output, in order of appearance.
pub fn parse_releases(ls_remote_output: &str) -> (r: Vec<Version>)
    ensures
        r@ == releases_of(lines_of(ls_remote_output@)),
{
    let lines = line_ranges(ls_remote_output);
    let ghost all = lines_of(ls_remote_output@);
    let mut out: Vec<Version> = Vec::new();
    let mut i: usize = 0;
    while i < lines.len()
        invariant
            ranges_cut(ls_remote_output@, lines@, all),
            i <= lines@.len(),
            out@ == releases_of(all.take(i as int)),
        decreases lines.len() - i,
    {
        let (a, b) = lines[i];
        let line = ls_remote_output.substring_char(a, b);
        proof {
            assert(lines@[i as int] == (a, b));
            assert(all.take(i + 1).drop_last() =~= all.take(i as int));
            assert(all.take(i + 1).last() == line@);
        }
        match release_from_line(line) {
            Some(v) => {
                out.push(v);
            },
            None => {},
        }
        assert(out@ =~= releases_of(all.take(i + 1)));
        i = i + 1;
    }
    assert(all.take(i as int) =~= all);
    out
}

/// `vs` is in strictly increasing release order.
pub open spec fn strictly_ascending(vs: Seq<Version>) -> bool {
    forall|i: int, j: int| 0 <= i < j < vs.len() ==> newer(#[trigger] vs[j], #[trigger] vs[i])
}

/// `releases` sorted oldest first, each release once: what sorting and then
/// removing adjacent duplicates gives.
pub fn sorted_unique(releases: &[Version]) -> (r: Vec<Version>)
    ensures
        strictly_ascending(r@),
        r@.to_set() == releases@.to_set(),
{
    let mut out: Vec<Version> = Vec::new();
    let n = releases.len();
    let mut i: usize = 0;
    while i < n
        invariant
            n == releases@.len(),
            i <= n,
            strictly_ascending(out@),
            out@.to_set() == releases@.take(i as int).to_set(),
        decreases n - i,
    {
        let v = releases[i];
        let mut j: usize = 0;
        while j < out.len() && v.is_newer_than(&out[j])
            invariant
                j <= out@.len(),
                forall|k: int| 0 <= k < j ==> newer(v, #[trigger] out@[k]),
            decreases out.len() - j,
        {
            j = j + 1;
        }
        let ghost before = out@;
        proof {
            assert(releases@.take(i + 1) =~= releases@.take(i as int).push(v));
            releases@.take(i as int).lemma_push_to_set_commute(v);
        }
        if j < out.len() && out[j] == v {
            assert(before.to_set().contains(v)) by {
                assert(before[j as int] == v);
            }
            assert(before.to_set().insert(v) =~= before.to_set());
        } else {
            out.insert(j, v);
            proof {
                assert forall|a: int, b: int| 0 <= a < b < out@.len() implies newer(
                    #[trigger] out@[b],
                    #[trigger] out@[a],
                ) by {
                    if b < j as int {
                        assert(out@[a] == before[a] && out@[b] == before[b]);
                    } else if b == j as int {
                        assert(out@[a] == before[a]);
                    } else if a < j as int {
                        assert(out@[a] == before[a] && out@[b] == before[b - 1]);
                        assert(newer(before[j as int], before[a]));
                        if b - 1 > j as int {
                            assert(newer(before[b - 1], before[j as int]));
                        }
                    } else if a == j as int {
                        assert(out@[b] == before[b - 1]);
                        assert(!newer(v, before[j as int]));
                        assert(before[j as int] != v);
                        if b - 1 > j as int {
                            assert(newer(before[b - 1], before[j as int]));
                        }
                    } else {
                        assert(out@[a] == before[a - 1] && out@[b] == before[b - 1]);
                    }
                }
                assert(out@.to_set() =~= before.to_set().insert(v)) by {
                    assert forall|x: Version| out@.to_set().contains(x) <==> before.to_set().insert(v).contains(x) by {
                        if out@.to_set().contains(x) {
                            let k = choose|k: int| 0 <= k < out@.len() && out@[k] == x;
                            if k < j as int {
                                assert(before[k] == x);
                            } else if k > j as int {
                                assert(before[k - 1] == x);
                            }
                        }
                        if before.to_set().contains(x) {
                            let k = choose|k: int| 0 <= k < before.len() && before[k] == x;
                            if k < j as int {
                                assert(out@[k] == x);
                            } else {
                                assert(out@[k + 1] == x);
                            }
                        }
                        if x == v {
                            assert(out@[j as int] == v);
                        }
                    }
                }
            }
        }
        i = i + 1;
    }
    assert(releases@.take(n as int) =~= releases@);
    out
}

/// The distinct stable releases named in `git ls-remote --tags` output,
/// oldest first.
pub fn stable_releases(ls_remote_output: &str) -> (r: Vec<Version>)
    ensures
        strictly_ascending(r@),
        r@.to_set() == releases_of(lines_of(ls_remote_output@)).to_set(),
{
    let all = parse_releases(ls_remote_output);
    sorted_unique(all.as_slice())
}

/// The releases in `releases` that are later than `current`, in order.
pub fn newer_releases(releases: &[Version], current: &Version) -> (r: Vec<Version>)
    ensures
        r@ == releases@.filter(|v: Version| newer(v, *current)),
{
    let mut out: Vec<Version> = Vec::new();
    let mut i: usize = 0;
    while i < releases.len()
        invariant
            i <= releases@.len(),
            out@ == releases@.take(i as int).filter(|v: Version| newer(v, *current)),
        decreases releases.len() - i,
    {
        let v = releases[i];
        proof {
            assert(releases@.take(i + 1).drop_last() =~= releases@.take(i as int));
            reveal(Seq::filter);
        }
        if v.is_newer_than(current) {
            out.push(v);
        }
        assert(out@ =~= releases@.take(i + 1).filter(|v: Version| newer(v, *current)));
        i = i + 1;
    }
    assert(releases@.take(i as int) =~= releases@);
    out
}

/// The names the upstream package may carry: its own, or the name a local
/// patch gives it.
pub open spec fn upstream_package_name(name: Seq<char>) -> bool {
    name == "wasm-bindgen"@ || name == "not-wasm-bindgen"@
}

/// Whether `name` is one of the upstream package's names.
pub fn is_upstream_package_name(name: &str) -> (r: bool)
    ensures
        r == upstream_package_name(name@),
{
    str_equal(name, "wasm-bindgen") || str_equal(name, "not-wasm-bindgen")
}

/// Whether `a` and `b` hold the same characters.
pub fn str_equal(a: &str, b: &str) -> (r: bool)
    ensures
        r == (a@ == b@),
{
    let n = a.unicode_len();
    if n != b.unicode_len() {
        return false;
    }
    let mut i: usize = 0;
    while i < n
        invariant
            n == a@.len() == b@.len(),
            i <= n,
            forall|k: int| 0 <= k < i ==> a@[k] == b@[k],
        decreases n - i,
    {
        if a.get_char(i) != b.get_char(i) {
            return false;
        }
        i = i + 1;
    }
    assert(a@ =~= b@);
    true
}

/// A character allowed in a version part: digits only for `digits`,
/// otherwise ASCII letters, digits and hyphens.
pub open spec fn part_char_ok(c: char, digits: bool) -> bool {
    if digits {
        is_digit(c)
    } else {
        is_alnum(c) || c == '-'
    }
}

/// Every dot-separated part of `s` is non-empty and made of allowed characters.
pub open spec fn dot_parts_ok(s: Seq<char>, digits: bool) -> bool {
    forall|k: int|
        0 <= k < split_on(s, '.').len() ==> {
            &&& (#[trigger] split_on(s, '.')[k]).len() > 0
            &&& forall|i: int| 0 <= i < split_on(s, '.')[k].len() ==> part_char_ok(split_on(s, '.')[k][i], digits)
        }
}

/// `s` is `major.minor.patch` with three non-empty digit runs.
pub open spec fn stable_semver(s: Seq<char>) -> bool {
    split_on(s, '.').len() == 3 && dot_parts_ok(s, true)
}

/// `s` is a non-empty list of dot-separated prerelease identifiers made of
/// ASCII letters, digits and hyphens.
pub open spec fn valid_suffix(s: Seq<char>) -> bool {
    s.len() > 0 && dot_parts_ok(s, false)
}

fn dot_parts_check(s: &str, digits: bool) -> (r: bool)
    ensures
        r == dot_parts_ok(s@, digits),
{
    let parts = split_ranges(s, 0, '.');
    let ghost pieces = split_on(s@, '.');
    proof {
        assert(s@.skip(0) =~= s@);
    }
    let mut k: usize = 0;
    while k < parts.len()
        invariant
            ranges_cut(s@, parts@, pieces),
            pieces == split_on(s@, '.'),
            k <= parts@.len(),
            forall|j: int|
                0 <= j < k ==> {
                    &&& (#[trigger] pieces[j]).len() > 0
                    &&& forall|i: int| 0 <= i < pieces[j].len() ==> part_char_ok(pieces[j][i], digits)
                },
        decreases parts.len() - k,
    {
        let (a, b) = parts[k];
        proof {
            assert(parts@[k as int] == (a, b));
        }
        if a == b {
            assert(!dot_parts_ok(s@, digits)) by {
                assert(split_on(s@, '.')[k as int].len() == 0);
            }
            return false;
        }
        let mut i = a;
        while i < b
            invariant
                a <= i <= b <= s@.len(),
                pieces == split_on(s@, '.'),
                k < pieces.len(),
                s@.subrange(a as int, b as int) == pieces[k as int],
                pieces[k as int].len() == b - a,
                forall|m: int| a <= m < i ==> part_char_ok(#[trigger] s@[m], digits),
            decreases b - i,
        {
            let c = s.get_char(i);
            let good = if digits {
                '0' <= c && c <= '9'
            } else {
                ('0' <= c && c <= '9') || ('a' <= c && c <= 'z') || ('A' <= c && c <= 'Z') || c == '-'
            };
            assert(good == part_char_ok(c, digits));
            if !good {
                assert(pieces[k as int][i - a] == c);
                assert(!dot_parts_ok(s@, digits)) by {
                    assert(!part_char_ok(split_on(s@, '.')[k as int][i - a], digits));
                }
                return false;
            }
            i = i + 1;
        }
        proof {
            assert forall|m: int| 0 <= m < pieces[k as int].len() implies part_char_ok(
                pieces[k as int][m],
                digits,
            ) by {
                assert(pieces[k as int][m] == s@[a + m]);
            }
        }
        k = k + 1;
    }
    true
}

/// Whether `version` is a stable `major.minor.patch` version.
pub fn is_stable_semver(version: &str) -> (r: bool)
    ensures
        r == stable_semver(version@),
{
    let parts = split_ranges(version, 0, '.');
    proof {
        assert(version@.skip(0) =~= version@);
    }
    parts.len() == 3 && dot_parts_check(version, true)
}

/// Whether `suffix` is a valid prerelease suffix.
pub fn is_valid_suffix(suffix: &str) -> (r: bool)
    ensures
        r == valid_suffix(suffix@),
{
    suffix.unicode_len() > 0 && dot_parts_check(suffix, false)
}

/// Why no target version can be formed.
#[derive(Clone, Copy, Debug, PartialEq, Eq, Structural)]
pub enum TargetVersionError {
    /// A suffix can only be appended to a stable upstream version.
    NonStableBase,
    /// The suffix is not a list of prerelease identifiers.
    InvalidSuffix,
}

/// The version a local release takes: the upstream version, or that version
/// with a prerelease suffix.
pub fn target_version(base_version: &str, suffix: Option<&str>) -> (r: Result<String, TargetVersionError>)
    ensures
        match suffix {
            None => r matches Ok(s) && s@ == base_version@,
            Some(x) => if !stable_semver(base_version@) {
                r == Err::<String, TargetVersionError>(TargetVersionError::NonStableBase)
            } else if !valid_suffix(x@) {
                r == Err::<String, TargetVersionError>(TargetVersionError::InvalidSuffix)
            } else {
                r matches Ok(s) && s@ == base_version@ + seq!['-'] + x@
            },
        },
{
    match suffix {
        None => Ok(String::from_str(base_version)),
        Some(suffix) => {
            if !is_stable_semver(base_version) {
                return Err(TargetVersionError::NonStableBase);
            }
            if !is_valid_suffix(suffix) {
                return Err(TargetVersionError::InvalidSuffix);
            }
            let mut out = String::from_str(base_version);
            proof {
                reveal_strlit("-");
            }
            out.append("-");
            out.append(suffix);
            Ok(out)
        },
    }
}

} // verus!
