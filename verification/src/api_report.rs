//! Preparing the upstream baseline for an API comparison, and filtering the
//! comparison report: the shim deliberately drops wasm-bindgen's ABI derive
//! impls and builds one type through a constructor, so those findings are
//! expected and are suppressed.

use crate::text::{
    chars_of, contains_seq, find_first, first_occurrence, is_whitespace, is_ws, line_ranges,
    lemma_first_occurrence_exists, lemma_first_occurrence_unique, lines_of, occurs_at, occurs_at_exec, ranges_cut, replace_first,
    split_on, trim, trim_end_range, trim_start, trim_start_range,
};
use crate::versions::str_equal;
use vstd::prelude::*;
use vstd::string::*;

verus! {

/// `s` starts with `p`.
pub open spec fn starts_with(s: Seq<char>, p: Seq<char>) -> bool {
    s.len() >= p.len() && s.take(p.len() as int) == p
}

/// The package-name line of the upstream manifest.
pub open spec fn upstream_name_field() -> Seq<char> {
    "name = \"wasm-bindgen\""@
}

/// The baseline manifest with its package renamed to `new_name`: the first
/// `name = "wasm-bindgen"` becomes `name = "<new_name>"`.
pub open spec fn renamed_package(text: Seq<char>, new_name: Seq<char>) -> Seq<char> {
    replace_first(text, upstream_name_field(), "name = \""@ + new_name + "\""@)
}

/// `replace_first` at a known first occurrence.
proof fn lemma_replace_at(s: Seq<char>, p: Seq<char>, r: Seq<char>, i: int)
    requires
        first_occurrence(s, p, i),
    ensures
        contains_seq(s, p),
        replace_first(s, p, r) == s.take(i) + r + s.skip(i + p.len()),
{
    assert(occurs_at(s, p, i));
    let j = choose|j: int| first_occurrence(s, p, j);
    lemma_first_occurrence_unique(s, p, i, j);
}

/// `s[..i] + r + s[i + len..]` as a `String`.
fn splice(s: &str, i: usize, len: usize, r: &str) -> (out: String)
    requires
        i + len <= s@.len(),
    ensures
        out@ == s@.take(i as int) + r@ + s@.skip(i + len),
{
    let n = s.unicode_len();
    let mut out = String::from_str(s.substring_char(0, i));
    out.append(r);
    out.append(s.substring_char(i + len, n));
    assert(s@.subrange(0, i as int) =~= s@.take(i as int));
    assert(s@.subrange(i + len, n as int) =~= s@.skip(i + len));
    out
}

/// Rename the baseline package so the comparison pairs it with the crate
/// under test; `None` when the upstream package name is absent.
pub fn rename_package_text(text: &str, new_name: &str) -> (r: Option<String>)
    ensures
        match r {
            None => !contains_seq(text@, upstream_name_field()),
            Some(s) => contains_seq(text@, upstream_name_field()) && s@ == renamed_package(
                text@,
                new_name@,
            ),
        },
{
    let old = "name = \"wasm-bindgen\"";
    let hay = chars_of(text);
    let pat = chars_of(old);
    match find_first(hay.as_slice(), pat.as_slice()) {
        None => None,
        Some(i) => {
            let mut replacement = String::from_str("name = \"");
            replacement.append(new_name);
            replacement.append("\"");
            let out = splice(text, i, pat.len(), replacement.as_str());
            proof {
                lemma_replace_at(text@, upstream_name_field(), "name = \""@ + new_name@ + "\""@, i as int);
            }
            Some(out)
        },
    }
}

/// One hiding step: keep a text that already has `hidden`, otherwise replace
/// the first `plain` by `hidden`; `None` when neither occurs.
pub open spec fn hide_step(t: Option<Seq<char>>, plain: Seq<char>, hidden: Seq<char>) -> Option<Seq<char>> {
    match t {
        None => None,
        Some(t) => if contains_seq(t, hidden) {
            Some(t)
        } else if !contains_seq(t, plain) {
            None
        } else {
            Some(replace_first(t, plain, hidden))
        },
    }
}

/// The baseline's root module with `convert` and its re-exports hidden from
/// the documented API.
pub open spec fn hidden_convert(text: Seq<char>) -> Option<Seq<char>> {
    let t1 = hide_step(
        Some(text),
        "pub mod convert;"@,
        "#[doc(hidden)]\npub mod convert;"@,
    );
    let t2 = hide_step(
        t1,
        "    pub use crate::convert::Upcast; // provides upcast() and upcast_ref()"@,
        "    #[doc(hidden)]\n    pub use crate::convert::Upcast; // provides upcast() and upcast_ref()"@,
    );
    hide_step(
        t2,
        "pub use crate::convert::{IntoJsGeneric, JsGeneric};"@,
        "#[doc(hidden)]\npub use crate::convert::{IntoJsGeneric, JsGeneric};"@,
    )
}

fn hide_once(t: String, plain: &str, hidden: &str) -> (r: Option<String>)
    ensures
        match r {
            None => hide_step(Some(t@), plain@, hidden@) is None,
            Some(s) => hide_step(Some(t@), plain@, hidden@) == Some(s@),
        },
{
    let hay = chars_of(t.as_str());
    let hid = chars_of(hidden);
    if find_first(hay.as_slice(), hid.as_slice()).is_some() {
        return Some(t);
    }
    let pla = chars_of(plain);
    match find_first(hay.as_slice(), pla.as_slice()) {
        None => None,
        Some(i) => {
            let out = splice(t.as_str(), i, pla.len(), hidden);
            proof {
                lemma_replace_at(t@, plain@, hidden@, i as int);
            }
            Some(out)
        },
    }
}

/// Hide the `convert` module and its re-exports; `None` when one of them is
/// missing. Declarations already hidden are left alone.
pub fn hide_convert_module_text(text: &str) -> (r: Option<String>)
    ensures
        match r {
            None => hidden_convert(text@) is None,
            Some(s) => hidden_convert(text@) == Some(s@),
        },
{
    let t0 = String::from_str(text);
    let t1 = match hide_once(t0, "pub mod convert;", "#[doc(hidden)]\npub mod convert;") {
        None => return None,
        Some(t) => t,
    };
    let t2 = match hide_once(
        t1,
        "    pub use crate::convert::Upcast; // provides upcast() and upcast_ref()",
        "    #[doc(hidden)]\n    pub use crate::convert::Upcast; // provides upcast() and upcast_ref()",
    ) {
        None => return None,
        Some(t) => t,
    };
    hide_once(
        t2,
        "pub use crate::convert::{IntoJsGeneric, JsGeneric};",
        "#[doc(hidden)]\npub use crate::convert::{IntoJsGeneric, JsGeneric};",
    )
}

/// Traits whose derive impls the shim deliberately leaves out.
pub open spec fn ignored_derive_trait(name: Seq<char>) -> bool {
    ||| name == "IntoWasmAbi"@
    ||| name == "OptionIntoWasmAbi"@
    ||| name == "FromWasmAbi"@
    ||| name == "OptionFromWasmAbi"@
    ||| name == "RefFromWasmAbi"@
    ||| name == "LongRefFromWasmAbi"@
    ||| name == "WasmDescribe"@
    ||| name == "UpcastFrom"@
    ||| name == "IntoJsGeneric"@
    ||| name == "Promising"@
}

/// Types the shim builds through a constructor with private fields.
pub open spec fn ignored_constructible_type(name: Seq<char>) -> bool {
    name == "JsThreadLocal"@
}

/// The longest prefix of `s` holding no `,` and no whitespace.
pub open spec fn word_before_comma(s: Seq<char>) -> Seq<char>
    decreases s.len(),
{
    if s.len() == 0 || s[0] == ',' || is_ws(s[0]) {
        Seq::empty()
    } else {
        seq![s[0]] + word_before_comma(s.skip(1))
    }
}

/// A `no longer derives <Trait>` finding for a deliberately dropped trait.
pub open spec fn ignored_derive_line(line: Seq<char>) -> bool {
    let marker = " no longer derives "@;
    if !contains_seq(line, marker) {
        false
    } else {
        let i = choose|i: int| first_occurrence(line, marker, i);
        ignored_derive_trait(word_before_comma(line.skip(i + marker.len())))
    }
}

/// A `field <Type>.<field>` finding for a type built through a constructor.
pub open spec fn ignored_constructible_line(line: Seq<char>) -> bool {
    let rest = trim_start(line);
    starts_with(rest, "field "@) && ignored_constructible_type(split_on(rest.skip(6), '.')[0])
}

/// The end of the word of `s` that starts at `from`.
fn word_end(s: &[char], from: usize) -> (r: usize)
    requires
        from <= s@.len(),
    ensures
        from <= r <= s@.len(),
        s@.subrange(from as int, r as int) == word_before_comma(s@.skip(from as int)),
    decreases s.len() - from,
{
    if from == s.len() || s[from] == ',' || is_whitespace(s[from]) {
        proof {
            assert(s@.subrange(from as int, from as int) =~= Seq::<char>::empty());
            if from < s@.len() {
                assert(s@.skip(from as int)[0] == s@[from as int]);
            }
        }
        from
    } else {
        let r = word_end(s, from + 1);
        proof {
            assert(s@.skip(from as int).skip(1) =~= s@.skip(from + 1));
            assert(s@.skip(from as int)[0] == s@[from as int]);
            assert(s@.subrange(from as int, r as int) =~= seq![s@[from as int]] + s@.subrange(from + 1, r as int));
        }
        r
    }
}

fn is_ignored_derive_trait(name: &str) -> (r: bool)
    ensures
        r == ignored_derive_trait(name@),
{
    str_equal(name, "IntoWasmAbi") || str_equal(name, "OptionIntoWasmAbi") || str_equal(name, "FromWasmAbi")
        || str_equal(name, "OptionFromWasmAbi") || str_equal(name, "RefFromWasmAbi") || str_equal(
        name,
        "LongRefFromWasmAbi",
    ) || str_equal(name, "WasmDescribe") || str_equal(name, "UpcastFrom") || str_equal(name, "IntoJsGeneric")
        || str_equal(name, "Promising")
}

/// Whether a `Failed in:` line reports a deliberately dropped derive.
pub fn is_ignored_derive_failure(line: &str) -> (r: bool)
    ensures
        r == ignored_derive_line(line@),
{
    let marker = " no longer derives ";
    let chars = chars_of(line);
    let mark = chars_of(marker);
    match find_first(chars.as_slice(), mark.as_slice()) {
        None => false,
        Some(i) => {
            proof {
                assert(occurs_at(chars@, mark@, i as int));
                assert(i + mark@.len() <= chars@.len());
                assert(chars@.len() == chars.len());
            }
            let start = i + mark.len();
            let end = word_end(chars.as_slice(), start);
            let name = line.substring_char(start, end);
            proof {
                let j = choose|j: int| first_occurrence(line@, marker@, j);
                lemma_first_occurrence_unique(line@, marker@, i as int, j);
            }
            is_ignored_derive_trait(name)
        },
    }
}

/// Whether a `Failed in:` line reports a private field of a type built
/// through a constructor.
pub fn is_ignored_constructible_field(line: &str) -> (r: bool)
    ensures
        r == ignored_constructible_line(line@),
{
    let chars = chars_of(line);
    let n = chars.len();
    let start = trim_start_range(chars.as_slice(), 0, n);
    proof {
        assert(line@.subrange(0, n as int) =~= line@);
    }
    let field = chars_of("field ");
    proof {
        reveal_strlit("field ");
    }
    if !occurs_at_exec(chars.as_slice(), field.as_slice(), start) {
        proof {
            let rest = line@.subrange(start as int, n as int);
            if starts_with(rest, "field "@) {
                assert(line@.subrange(start as int, start + 6) =~= rest.take(6));
            }
        }
        return false;
    }
    let ty_start = start + field.len();
    let rest = line.substring_char(ty_start, n);
    let pieces = crate::text::split_ranges(rest, 0, '.');
    proof {
        crate::text::lemma_split_on_nonempty(rest@.skip(0), '.');
    }
    let (a, b) = pieces[0];
    let ty = rest.substring_char(a, b);
    proof {
        let trimmed = line@.subrange(start as int, n as int);
        assert(trimmed.take(6) =~= line@.subrange(start as int, start + 6));
        assert(rest@.skip(0) =~= rest@);
        assert(trimmed.skip(6) =~= rest@);
    }
    str_equal(ty, "JsThreadLocal")
}

/// The lint a report block is about, from its `--- failure <lint>: ... ---` header.
pub open spec fn lint_of(header: Seq<char>) -> Seq<char> {
    let prefix = "--- failure "@;
    if starts_with(header, prefix) {
        trim(split_on(header.skip(prefix.len() as int), ':')[0])
    } else {
        Seq::empty()
    }
}

/// The lint named by a report block header.
pub fn lint_name(header: &str) -> (r: String)
    ensures
        r@ == lint_of(header@),
{
    let chars = chars_of(header);
    let prefix = chars_of("--- failure ");
    proof {
        reveal_strlit("--- failure ");
    }
    if !occurs_at_exec(chars.as_slice(), prefix.as_slice(), 0) {
        proof {
            if starts_with(header@, "--- failure "@) {
                assert(header@.subrange(0, 12) =~= header@.take(12));
            }
        }
        return String::new();
    }
    let n = chars.len();
    let rest = header.substring_char(prefix.len(), n);
    let pieces = crate::text::split_ranges(rest, 0, ':');
    proof {
        crate::text::lemma_split_on_nonempty(rest@.skip(0), ':');
    }
    let (a, b) = pieces[0];
    let rest_chars = chars_of(rest);
    let s = trim_start_range(rest_chars.as_slice(), a, b);
    let e = trim_end_range(rest_chars.as_slice(), s, b);
    proof {
        assert(header@.subrange(0, 12) =~= header@.take(12));
        assert(rest@.skip(0) =~= rest@);
        assert(header@.skip(12) =~= rest@);
    }
    String::from_str(rest.substring_char(s, e))
}

/// Findings of the lints that can be filtered, by what the finding is about.
#[derive(Clone, Copy, Debug, PartialEq, Eq, Structural)]
pub enum FindingFilter {
    /// `derive_trait_impl_removed`: ignore dropped ABI derives.
    DroppedDerive,
    /// `constructible_struct_adds_private_field`: ignore constructor-built types.
    ConstructorBuilt,
}

/// The filter for a lint, if its findings can be filtered.
pub open spec fn filter_for(lint: Seq<char>) -> Option<FindingFilter> {
    if lint == "derive_trait_impl_removed"@ {
        Some(FindingFilter::DroppedDerive)
    } else if lint == "constructible_struct_adds_private_field"@ {
        Some(FindingFilter::ConstructorBuilt)
    } else {
        None
    }
}

/// Whether `filter` ignores the finding `line`.
pub open spec fn filter_ignores(filter: FindingFilter, line: Seq<char>) -> bool {
    match filter {
        FindingFilter::DroppedDerive => ignored_derive_line(line),
        FindingFilter::ConstructorBuilt => ignored_constructible_line(line),
    }
}

/// The filter for a lint, if its findings can be filtered.
pub fn ignored_finding_predicate(lint: &str) -> (r: Option<FindingFilter>)
    ensures
        r == filter_for(lint@),
{
    if str_equal(lint, "derive_trait_impl_removed") {
        Some(FindingFilter::DroppedDerive)
    } else if str_equal(lint, "constructible_struct_adds_private_field") {
        Some(FindingFilter::ConstructorBuilt)
    } else {
        None
    }
}

/// Whether `filter` ignores the finding `line`.
pub fn finding_is_ignored(filter: FindingFilter, line: &str) -> (r: bool)
    ensures
        r == filter_ignores(filter, line@),
{
    match filter {
        FindingFilter::DroppedDerive => is_ignored_derive_failure(line),
        FindingFilter::ConstructorBuilt => is_ignored_constructible_field(line),
    }
}

/// Whether `s` holds a character other than whitespace (its trim is non-empty).
pub open spec fn has_content(s: Seq<char>) -> bool {
    exists|i: int| 0 <= i < s.len() && !is_ws(s[i])
}

pub fn has_content_slice(s: &[char]) -> (r: bool)
    ensures
        r == has_content(s@),
{
    let mut i: usize = 0;
    while i < s.len()
        invariant
            i <= s@.len(),
            forall|k: int| 0 <= k < i ==> is_ws(s@[k]),
        decreases s.len() - i,
    {
        if !is_whitespace(s[i]) {
            return true;
        }
        i = i + 1;
    }
    false
}

/// Where the report filter stands after some lines: the text emitted so far,
/// the block being read (its filter, the lines kept, how many findings it
/// keeps, whether its `Failed in:` list has started), and the counts of
/// suppressed findings and of failure categories that remain.
#[verifier::ext_equal]
pub struct FilterState {
    pub out: Seq<char>,
    pub in_block: bool,
    pub filter: Option<FindingFilter>,
    pub block: Seq<char>,
    pub kept_items: nat,
    pub in_failed_in: bool,
    pub suppressed: nat,
    pub remaining: nat,
}

pub open spec fn initial_filter_state() -> FilterState {
    FilterState {
        out: Seq::empty(),
        in_block: false,
        filter: None,
        block: Seq::empty(),
        kept_items: 0,
        in_failed_in: false,
        suppressed: 0,
        remaining: 0,
    }
}

/// Close the block being read: a block of a lint that is not filtered is
/// kept whole; a filtered block is kept only while some finding is left.
pub open spec fn close_block(st: FilterState) -> FilterState {
    if !st.in_block {
        st
    } else if st.filter is Some && st.kept_items == 0 {
        FilterState { in_block: false, block: Seq::empty(), ..st }
    } else {
        FilterState { out: st.out + st.block, in_block: false, block: Seq::empty(), remaining: st.remaining + 1, ..st }
    }
}

/// `line` and its line ending.
pub open spec fn with_newline(line: Seq<char>) -> Seq<char> {
    line + seq!['\n']
}

/// Read one line of the report.
pub open spec fn filter_step(st: FilterState, line: Seq<char>) -> FilterState {
    if starts_with(line, "--- failure "@) {
        FilterState {
            in_block: true,
            filter: filter_for(lint_of(line)),
            block: with_newline(line),
            kept_items: 0,
            in_failed_in: false,
            ..close_block(st)
        }
    } else if !st.in_block {
        FilterState { out: st.out + with_newline(line), ..st }
    } else if st.filter is None {
        FilterState { block: st.block + with_newline(line), ..st }
    } else if starts_with(line, "Failed in:"@) {
        FilterState { in_failed_in: true, block: st.block + with_newline(line), ..st }
    } else if st.in_failed_in && starts_with(line, "  "@) && has_content(line) {
        if filter_ignores(st.filter->0, line) {
            FilterState { suppressed: st.suppressed + 1, ..st }
        } else {
            FilterState { kept_items: st.kept_items + 1, block: st.block + with_newline(line), ..st }
        }
    } else {
        FilterState { block: st.block + with_newline(line), ..st }
    }
}

/// The filter state after reading `lines`.
pub open spec fn filter_lines(lines: Seq<Seq<char>>) -> FilterState
    decreases lines.len(),
{
    if lines.len() == 0 {
        initial_filter_state()
    } else {
        filter_step(filter_lines(lines.drop_last()), lines.last())
    }
}

/// The filtered report, the number of suppressed findings and the number of
/// failure categories left. A report without failure blocks is unchanged.
pub open spec fn filtered_report(stdout: Seq<char>) -> (Seq<char>, nat, nat) {
    let lines = lines_of(stdout);
    if !(exists|i: int| 0 <= i < lines.len() && starts_with(#[trigger] lines[i], "--- failure "@)) {
        (stdout, 0, 0)
    } else {
        let st = close_block(filter_lines(lines));
        (st.out, st.suppressed, st.remaining)
    }
}

/// The filter state after reading `ls` from the state `st`.
pub open spec fn filter_run(st: FilterState, ls: Seq<Seq<char>>) -> FilterState
    decreases ls.len(),
{
    if ls.len() == 0 {
        st
    } else {
        filter_step(filter_run(st, ls.drop_last()), ls.last())
    }
}

/// How many of `ls` hold a character other than whitespace.
pub open spec fn count_with_content(ls: Seq<Seq<char>>) -> nat
    decreases ls.len(),
{
    if ls.len() == 0 {
        0
    } else {
        count_with_content(ls.drop_last()) + if has_content(ls.last()) {
            1nat
        } else {
            0nat
        }
    }
}

proof fn lemma_filter_run_append(st: FilterState, a: Seq<Seq<char>>, b: Seq<Seq<char>>)
    ensures
        filter_run(st, a + b) == filter_run(filter_run(st, a), b),
    decreases b.len(),
{
    if b.len() == 0 {
        assert(a + b =~= a);
    } else {
        lemma_filter_run_append(st, a, b.drop_last());
        assert((a + b).drop_last() =~= a + b.drop_last());
    }
}

proof fn lemma_filter_lines_run(ls: Seq<Seq<char>>)
    ensures
        filter_lines(ls) == filter_run(initial_filter_state(), ls),
    decreases ls.len(),
{
    if ls.len() > 0 {
        lemma_filter_lines_run(ls.drop_last());
    }
}

/// The first characters of the three kinds of report lines differ.
proof fn lemma_line_kinds(t: Seq<char>)
    ensures
        starts_with(t, "--- failure "@) ==> t[0] == '-' && has_content(t),
        starts_with(t, "Failed in:"@) ==> t[0] == 'F' && has_content(t),
        starts_with(t, "  "@) ==> t[0] == ' ',
{
    reveal_strlit("--- failure ");
    reveal_strlit("Failed in:");
    reveal_strlit("  ");
    if t.len() > 0 {
        assert(t.take(1)[0] == t[0]);
        if starts_with(t, "--- failure "@) {
            assert(t.take(12)[0] == t[0]);
            assert(!is_ws(t[0]));
        }
        if starts_with(t, "Failed in:"@) {
            assert(t.take(10)[0] == t[0]);
            assert(!is_ws(t[0]));
        }
        if starts_with(t, "  "@) {
            assert(t.take(2)[0] == t[0]);
        }
    }
}

/// Before its `Failed in:` line, no line of a filtered block is a finding:
/// the block keeps no finding and no count moves.
proof fn lemma_run_before_failed_in(st: FilterState, pre: Seq<Seq<char>>)
    requires
        st.in_block,
        st.filter is Some,
        !st.in_failed_in,
        st.kept_items == 0,
        forall|k: int| 0 <= k < pre.len() ==> !starts_with(#[trigger] pre[k], "--- failure "@) && !starts_with(
            pre[k],
            "Failed in:"@,
        ),
    ensures
        ({
            let r = filter_run(st, pre);
            &&& r.in_block && r.filter == st.filter && !r.in_failed_in && r.kept_items == 0
            &&& r.out == st.out && r.suppressed == st.suppressed && r.remaining == st.remaining
            &&& st.block.is_prefix_of(r.block)
        }),
    decreases pre.len(),
{
    if pre.len() > 0 {
        assert forall|k: int| 0 <= k < pre.drop_last().len() implies !starts_with(
            #[trigger] pre.drop_last()[k],
            "--- failure "@,
        ) && !starts_with(pre.drop_last()[k], "Failed in:"@) by {
            assert(pre.drop_last()[k] == pre[k]);
        }
        lemma_run_before_failed_in(st, pre.drop_last());
        assert(!starts_with(pre[pre.len() - 1], "--- failure "@));
        let r0 = filter_run(st, pre.drop_last());
        let r = filter_run(st, pre);
        assert(r.block =~= r0.block + with_newline(pre.last()));
        assert(st.block =~= r.block.subrange(0, st.block.len() as int));
    }
}

/// After its `Failed in:` line, a filtered block keeps what it has and
/// keeps each finding that its filter does not ignore.
proof fn lemma_run_kept_finding(st: FilterState, tail: Seq<Seq<char>>)
    requires
        st.in_block,
        st.filter is Some,
        st.in_failed_in,
        forall|k: int| 0 <= k < tail.len() ==> !starts_with(#[trigger] tail[k], "--- failure "@),
    ensures
        ({
            let r = filter_run(st, tail);
            &&& r.in_block && r.filter == st.filter && r.in_failed_in
            &&& r.out == st.out && r.remaining == st.remaining
            &&& st.block.is_prefix_of(r.block)
            &&& r.kept_items >= st.kept_items
            &&& (exists|k: int|
                0 <= k < tail.len() && starts_with(#[trigger] tail[k], "  "@) && has_content(tail[k])
                    && !filter_ignores(st.filter->0, tail[k])) ==> r.kept_items > 0
        }),
    decreases tail.len(),
{
    if tail.len() > 0 {
        let init = tail.drop_last();
        assert forall|k: int| 0 <= k < init.len() implies !starts_with(#[trigger] init[k], "--- failure "@) by {
            assert(init[k] == tail[k]);
        }
        lemma_run_kept_finding(st, init);
        let t = tail.last();
        lemma_line_kinds(t);
        assert(!starts_with(t, "--- failure "@));
        let r0 = filter_run(st, init);
        let r = filter_run(st, tail);
        assert(r.block == r0.block || r.block =~= r0.block + with_newline(t));
        assert(st.block =~= r.block.subrange(0, st.block.len() as int));
        if exists|k: int|
            0 <= k < tail.len() && starts_with(#[trigger] tail[k], "  "@) && has_content(tail[k])
                && !filter_ignores(st.filter->0, tail[k]) {
            let k = choose|k: int|
                0 <= k < tail.len() && starts_with(#[trigger] tail[k], "  "@) && has_content(tail[k])
                    && !filter_ignores(st.filter->0, tail[k]);
            if k < init.len() {
                assert(init[k] == tail[k]);
            }
        }
    }
}

/// After its `Failed in:` line, a filtered block whose findings are all
/// ignored keeps none of them and suppresses each.
proof fn lemma_run_ignored_findings(st: FilterState, tail: Seq<Seq<char>>)
    requires
        st.in_block,
        st.filter is Some,
        st.in_failed_in,
        st.kept_items == 0,
        forall|k: int| 0 <= k < tail.len() && has_content(#[trigger] tail[k]) ==> starts_with(tail[k], "  "@)
            && filter_ignores(st.filter->0, tail[k]),
    ensures
        ({
            let r = filter_run(st, tail);
            &&& r.in_block && r.filter == st.filter && r.in_failed_in && r.kept_items == 0
            &&& r.out == st.out && r.remaining == st.remaining
            &&& r.suppressed == st.suppressed + count_with_content(tail)
        }),
    decreases tail.len(),
{
    if tail.len() > 0 {
        assert forall|k: int| 0 <= k < tail.drop_last().len() && has_content(#[trigger] tail.drop_last()[k]) implies starts_with(
            tail.drop_last()[k],
            "  "@,
        ) && filter_ignores(st.filter->0, tail.drop_last()[k]) by {
            assert(tail.drop_last()[k] == tail[k]);
        }
        lemma_run_ignored_findings(st, tail.drop_last());
        let t = tail[tail.len() - 1];
        lemma_line_kinds(t);
    }
}

/// Law: in a block of a filtered lint, only the lines after its `Failed in:`
/// line are findings. When every finding there is ignored, the block is
/// dropped: the report, read from the state the earlier lines left, gains no
/// text and no remaining category, and each finding is counted as
/// suppressed, whatever indented lines stand before `Failed in:`. A report
/// that is just such a block comes out empty with no category left.
pub proof fn lemma_ignored_block_dropped(
    stdout: Seq<char>,
    before: Seq<Seq<char>>,
    header: Seq<char>,
    pre: Seq<Seq<char>>,
    failed_in: Seq<char>,
    tail: Seq<Seq<char>>,
)
    requires
        lines_of(stdout) == before + seq![header] + pre + seq![failed_in] + tail,
        starts_with(header, "--- failure "@),
        filter_for(lint_of(header)) is Some,
        forall|k: int| 0 <= k < pre.len() ==> !starts_with(#[trigger] pre[k], "--- failure "@) && !starts_with(
            pre[k],
            "Failed in:"@,
        ),
        starts_with(failed_in, "Failed in:"@),
        forall|k: int| 0 <= k < tail.len() && has_content(#[trigger] tail[k]) ==> starts_with(tail[k], "  "@)
            && filter_ignores(filter_for(lint_of(header))->0, tail[k]),
    ensures
        ({
            let prior = close_block(filter_lines(before));
            filtered_report(stdout) == (prior.out, prior.suppressed + count_with_content(tail), prior.remaining)
        }),
        before.len() == 0 ==> filtered_report(stdout) == (Seq::<char>::empty(), count_with_content(tail), 0nat),
{
    let lines = lines_of(stdout);
    let st0 = filter_lines(before);
    assert(lines[before.len() as int] == header);
    let a = seq![header] + pre;
    let b = a + seq![failed_in];
    assert(lines =~= before + (b + tail));
    lemma_filter_lines_run(before);
    lemma_filter_lines_run(lines);
    lemma_filter_run_append(initial_filter_state(), before, b + tail);
    lemma_filter_run_append(st0, b, tail);
    lemma_filter_run_append(st0, a, seq![failed_in]);
    lemma_filter_run_append(st0, seq![header], pre);
    assert(seq![header].drop_last() =~= Seq::<Seq<char>>::empty());
    assert(seq![failed_in].drop_last() =~= Seq::<Seq<char>>::empty());
    let s1 = filter_run(st0, seq![header]);
    assert(filter_run(st0, seq![header].drop_last()) == st0);
    assert(s1 == filter_step(st0, header));
    lemma_run_before_failed_in(s1, pre);
    let s2 = filter_run(s1, pre);
    lemma_line_kinds(failed_in);
    let s3 = filter_step(s2, failed_in);
    assert(filter_run(s2, seq![failed_in].drop_last()) == s2);
    assert(filter_run(s2, seq![failed_in]) == s3);
    assert(filter_run(st0, a) == s2);
    assert(filter_run(st0, b) == s3);
    lemma_run_ignored_findings(s3, tail);
    let s4 = filter_run(s3, tail);
    assert(filter_lines(lines) == s4);
    if before.len() == 0 {
        assert(before =~= Seq::<Seq<char>>::empty());
    }
}

/// Law: a block of a filtered lint that keeps a finding after its `Failed
/// in:` line stays in the report: the report read from the state the
/// earlier lines left goes on with the block's header line, and one more
/// failure category remains, whatever lines stand before `Failed in:`.
pub proof fn lemma_kept_finding_keeps_block(
    stdout: Seq<char>,
    before: Seq<Seq<char>>,
    header: Seq<char>,
    pre: Seq<Seq<char>>,
    failed_in: Seq<char>,
    tail: Seq<Seq<char>>,
    k: int,
)
    requires
        lines_of(stdout) == before + seq![header] + pre + seq![failed_in] + tail,
        starts_with(header, "--- failure "@),
        filter_for(lint_of(header)) is Some,
        forall|i: int| 0 <= i < pre.len() ==> !starts_with(#[trigger] pre[i], "--- failure "@) && !starts_with(
            pre[i],
            "Failed in:"@,
        ),
        starts_with(failed_in, "Failed in:"@),
        forall|i: int| 0 <= i < tail.len() ==> !starts_with(#[trigger] tail[i], "--- failure "@),
        0 <= k < tail.len(),
        starts_with(tail[k], "  "@),
        has_content(tail[k]),
        !filter_ignores(filter_for(lint_of(header))->0, tail[k]),
    ensures
        ({
            let prior = close_block(filter_lines(before));
            let (out, _, remaining) = filtered_report(stdout);
            &&& (prior.out + with_newline(header)).is_prefix_of(out)
            &&& remaining == prior.remaining + 1
        }),
{
    let lines = lines_of(stdout);
    let st0 = filter_lines(before);
    assert(lines[before.len() as int] == header);
    let a = seq![header] + pre;
    let b = a + seq![failed_in];
    assert(lines =~= before + (b + tail));
    lemma_filter_lines_run(before);
    lemma_filter_lines_run(lines);
    lemma_filter_run_append(initial_filter_state(), before, b + tail);
    lemma_filter_run_append(st0, b, tail);
    lemma_filter_run_append(st0, a, seq![failed_in]);
    lemma_filter_run_append(st0, seq![header], pre);
    assert(seq![header].drop_last() =~= Seq::<Seq<char>>::empty());
    assert(seq![failed_in].drop_last() =~= Seq::<Seq<char>>::empty());
    let s1 = filter_run(st0, seq![header]);
    assert(filter_run(st0, seq![header].drop_last()) == st0);
    assert(s1 == filter_step(st0, header));
    lemma_run_before_failed_in(s1, pre);
    let s2 = filter_run(s1, pre);
    lemma_line_kinds(failed_in);
    let s3 = filter_step(s2, failed_in);
    assert(filter_run(s2, seq![failed_in].drop_last()) == s2);
    assert(filter_run(s2, seq![failed_in]) == s3);
    assert(filter_run(st0, a) == s2);
    assert(filter_run(st0, b) == s3);
    assert(s2.block.is_prefix_of(s3.block)) by {
        assert(s2.block =~= s3.block.subrange(0, s2.block.len() as int));
    }
    lemma_run_kept_finding(s3, tail);
    let s4 = filter_run(s3, tail);
    assert(filter_lines(lines) == s4);
    assert(starts_with(tail[k], "  "@) && has_content(tail[k]) && !filter_ignores(s3.filter->0, tail[k]));
    assert(s4.kept_items > 0);
    let prior = close_block(st0);
    let out = close_block(s4).out;
    assert(s1.block == with_newline(header));
    assert(with_newline(header) =~= s4.block.subrange(0, with_newline(header).len() as int));
    assert(out == prior.out + s4.block);
    assert((prior.out + with_newline(header)) =~= out.subrange(0, (prior.out + with_newline(header)).len() as int));
}

fn line_starts_with(line: &[char], prefix: &str) -> (r: bool)
    ensures
        r == starts_with(line@, prefix@),
{
    let p = chars_of(prefix);
    let r = occurs_at_exec(line, p.as_slice(), 0);
    proof {
        if starts_with(line@, prefix@) {
            assert(line@.subrange(0, p@.len() as int) =~= line@.take(p@.len() as int));
        }
        if r {
            assert(line@.subrange(0, p@.len() as int) =~= line@.take(p@.len() as int));
        }
    }
    r
}

/// Remove the expected findings from a cargo-semver-checks report. A block
/// left without findings is dropped. Returns the filtered report, the number
/// of suppressed findings and the number of failure categories that remain.
pub fn filter_ignored_failures(stdout: &str) -> (r: (String, usize, usize))
    ensures
        (r.0@, r.1 as nat, r.2 as nat) == filtered_report(stdout@),
{
    let chars = chars_of(stdout);
    let lines = line_ranges(stdout);
    let ghost all = lines_of(stdout@);
    let mut any_block = false;
    let mut j: usize = 0;
    while j < lines.len()
        invariant
            chars@ == stdout@,
            ranges_cut(stdout@, lines@, all),
            j <= lines@.len(),
            !any_block ==> forall|k: int| 0 <= k < j ==> !starts_with(#[trigger] all[k], "--- failure "@),
            any_block ==> exists|k: int| 0 <= k < all.len() && starts_with(#[trigger] all[k], "--- failure "@),
        decreases lines.len() - j,
    {
        let (a, b) = lines[j];
        proof {
            assert(lines@[j as int] == (a, b));
        }
        let line = vstd::slice::slice_subrange(chars.as_slice(), a, b);
        if line_starts_with(line, "--- failure ") {
            any_block = true;
        }
        j = j + 1;
    }
    if !any_block {
        return (String::from_str(stdout), 0, 0);
    }
    let mut out = String::new();
    let mut in_block = false;
    let mut filter: Option<FindingFilter> = None;
    let mut block = String::new();
    let mut kept_items: usize = 0;
    let mut in_failed_in = false;
    let mut suppressed: usize = 0;
    let mut remaining: usize = 0;
    proof {
        reveal_strlit("\n");
    }
    let mut i: usize = 0;
    while i < lines.len()
        invariant
            chars@ == stdout@,
            ranges_cut(stdout@, lines@, all),
            i <= lines@.len(),
            filter_lines(all.take(i as int)) == (FilterState {
                out: out@,
                in_block,
                filter,
                block: block@,
                kept_items: kept_items as nat,
                in_failed_in,
                suppressed: suppressed as nat,
                remaining: remaining as nat,
            }),
            kept_items <= i,
            suppressed + remaining + (if in_block { 1int } else { 0int }) <= i,
        decreases lines.len() - i,
    {
        let (a, b) = lines[i];
        proof {
            assert(lines@[i as int] == (a, b));
            assert(all.take(i + 1).drop_last() =~= all.take(i as int));
        }
        let line_chars = vstd::slice::slice_subrange(chars.as_slice(), a, b);
        let line = stdout.substring_char(a, b);
        assert(line@ == all[i as int]);
        assert(all.take(i + 1).last() == line@);
        assert(line_chars@ == line@);
        proof {
            reveal_strlit("\n");
        }
        let ghost before = filter_lines(all.take(i as int));
        let ghost after = filter_step(before, line@);
        assert(filter_lines(all.take(i + 1)) == after);
        if line_starts_with(line_chars, "--- failure ") {
            if in_block {
                let drop_block = filter.is_some() && kept_items == 0;
                if !drop_block {
                    out.append(block.as_str());
                    remaining = remaining + 1;
                }
            }
            let lint = lint_name(line);
            filter = ignored_finding_predicate(lint.as_str());
            in_block = true;
            block = String::from_str(line);
            block.append("\n");
            kept_items = 0;
            in_failed_in = false;
        } else if !in_block {
            out.append(line);
            out.append("\n");
        } else if filter.is_none() {
            block.append(line);
            block.append("\n");
        } else if line_starts_with(line_chars, "Failed in:") {
            in_failed_in = true;
            block.append(line);
            block.append("\n");
        } else if in_failed_in && line_starts_with(line_chars, "  ") && has_content_slice(line_chars) {
            let f = filter.unwrap();
            if finding_is_ignored(f, line) {
                suppressed = suppressed + 1;
            } else {
                kept_items = kept_items + 1;
                block.append(line);
                block.append("\n");
            }
        } else {
            block.append(line);
            block.append("\n");
        }
        assert((FilterState {
            out: out@,
            in_block,
            filter,
            block: block@,
            kept_items: kept_items as nat,
            in_failed_in,
            suppressed: suppressed as nat,
            remaining: remaining as nat,
        }) =~= after);
        i = i + 1;
    }
    if in_block {
        let drop_block = filter.is_some() && kept_items == 0;
        if !drop_block {
            out.append(block.as_str());
            remaining = remaining + 1;
        }
    }
    proof {
        assert(all.take(i as int) =~= all);
    }
    (out, suppressed, remaining)
}

/// The upstream reference to compare against: the first line of the patch
/// base file, trimmed, when the file exists and that line is not blank;
/// otherwise `HEAD`.
pub open spec fn upstream_ref_of(base_file: Option<Seq<char>>) -> Seq<char> {
    match base_file {
        Some(t) => if lines_of(t).len() > 0 && trim(lines_of(t)[0]).len() > 0 {
            trim(lines_of(t)[0])
        } else {
            "HEAD"@
        },
        None => "HEAD"@,
    }
}

/// The upstream reference named by the patch base file's text, if there is one.
pub fn upstream_ref_from_base(base_file: Option<&str>) -> (r: String)
    ensures
        r@ == upstream_ref_of(
            match base_file {
                Some(t) => Some(t@),
                None => None,
            },
        ),
{
    let text = match base_file {
        None => return String::from_str("HEAD"),
        Some(t) => t,
    };
    let ranges = line_ranges(text);
    if ranges.len() == 0 {
        return String::from_str("HEAD");
    }
    let (a, b) = ranges[0];
    let chars = chars_of(text);
    proof {
        assert(ranges@[0] == (a, b));
    }
    let s = trim_start_range(chars.as_slice(), a, b);
    let e = trim_end_range(chars.as_slice(), s, b);
    if s == e {
        return String::from_str("HEAD");
    }
    String::from_str(text.substring_char(s, e))
}

/// A progress line whose verdict predates the filtering of known
/// differences: the summary line, or a failed-checks count.
pub open spec fn stale_verdict_line(line: Seq<char>) -> bool {
    contains_seq(line, "Summary semver requires"@) || (contains_seq(line, "checks:"@) && contains_seq(
        line,
        "fail"@,
    ))
}

/// Whether `line` of cargo-semver-checks' progress output is a stale verdict,
/// which is not echoed.
pub fn is_stale_verdict_line(line: &str) -> (r: bool)
    ensures
        r == stale_verdict_line(line@),
{
    let hay = chars_of(line);
    let summary = chars_of("Summary semver requires");
    if find_first(hay.as_slice(), summary.as_slice()).is_some() {
        return true;
    }
    let checks = chars_of("checks:");
    let fail = chars_of("fail");
    find_first(hay.as_slice(), checks.as_slice()).is_some() && find_first(
        hay.as_slice(),
        fail.as_slice(),
    ).is_some()
}

/// What a semver check comes to once the known differences are filtered out.
#[derive(Clone, Copy, Debug, PartialEq, Eq, Structural)]
pub enum SemverOutcome {
    /// cargo-semver-checks itself passed.
    Compatible,
    /// cargo-semver-checks failed, but only on known intentional differences.
    OnlyKnownDifferences,
    /// Real public API differences remain.
    Incompatible,
}

/// The outcome of a semver check: compatible when cargo-semver-checks passed, and
/// otherwise compatible exactly when no failure category remains.
pub fn semver_outcome(semver_checks_passed: bool, remaining_categories: usize) -> (r: SemverOutcome)
    ensures
        r == (if semver_checks_passed {
            SemverOutcome::Compatible
        } else if remaining_categories == 0 {
            SemverOutcome::OnlyKnownDifferences
        } else {
            SemverOutcome::Incompatible
        }),
{
    if semver_checks_passed {
        SemverOutcome::Compatible
    } else if remaining_categories == 0 {
        SemverOutcome::OnlyKnownDifferences
    } else {
        SemverOutcome::Incompatible
    }
}


/// At offset `d` from `p`, some character of `q` differs from the
/// character of `p` under it.
pub open spec fn mismatch_at_offset(q: Seq<char>, p: Seq<char>, d: int) -> bool {
    exists|k: int|
        (if d > 0 {
            d
        } else {
            0
        }) <= k < (if d + q.len() < p.len() {
            d + q.len()
        } else {
            p.len() as int
        }) && #[trigger] p[k] != q[k - d]
}

/// No occurrence of `q` can overlap an occurrence of `p`.
pub open spec fn separated(q: Seq<char>, p: Seq<char>) -> bool {
    forall|d: int| 1 - q.len() <= d < p.len() ==> #[trigger] mismatch_at_offset(q, p, d)
}

/// Replacing an occurrence of `p` keeps every occurrence of a `q` that
/// cannot overlap `p`.
proof fn lemma_replace_keeps(t: Seq<char>, p: Seq<char>, h: Seq<char>, q: Seq<char>, i: int, j: int)
    requires
        occurs_at(t, p, i),
        occurs_at(t, q, j),
        q.len() > 0,
        separated(q, p),
    ensures
        contains_seq(t.take(i) + h + t.skip(i + p.len()), q),
{
    let u = t.take(i) + h + t.skip(i + p.len());
    if j + q.len() <= i {
        assert(u.subrange(j, j + q.len()) =~= t.subrange(j, j + q.len()));
        assert(occurs_at(u, q, j));
    } else if j >= i + p.len() {
        let j2 = j - p.len() + h.len();
        assert(u.subrange(j2, j2 + q.len()) =~= t.subrange(j, j + q.len()));
        assert(occurs_at(u, q, j2));
    } else {
        let d = j - i;
        assert(mismatch_at_offset(q, p, d));
        let lo = if d > 0 { d } else { 0 };
        let hi = if d + q.len() < p.len() { d + q.len() } else { p.len() as int };
        let m = choose|m: int| lo <= m < hi && #[trigger] p[m] != q[m - d];
        assert(t.subrange(i, i + p.len())[m] == p[m]);
        assert(t.subrange(j, j + q.len())[m - d] == q[m - d]);
    }
}

/// The text a hiding step produces contains the hidden form.
proof fn lemma_hide_step_contains(t: Seq<char>, plain: Seq<char>, hidden: Seq<char>)
    requires
        hide_step(Some(t), plain, hidden) is Some,
    ensures
        contains_seq(hide_step(Some(t), plain, hidden).unwrap(), hidden),
{
    if !contains_seq(t, hidden) {
        lemma_first_occurrence_exists(t, plain);
        let i = choose|i: int| first_occurrence(t, plain, i);
        lemma_replace_at(t, plain, hidden, i);
        let u = t.take(i) + hidden + t.skip(i + plain.len());
        assert(u.subrange(i, i + hidden.len()) =~= hidden);
        assert(occurs_at(u, hidden, i));
    }
}

/// A hiding step keeps every occurrence of a `q` that cannot overlap the
/// plain form it replaces.
proof fn lemma_hide_step_keeps(t: Seq<char>, plain: Seq<char>, hidden: Seq<char>, q: Seq<char>)
    requires
        hide_step(Some(t), plain, hidden) is Some,
        contains_seq(t, q),
        q.len() > 0,
        separated(q, plain),
    ensures
        contains_seq(hide_step(Some(t), plain, hidden).unwrap(), q),
{
    if !contains_seq(t, hidden) {
        lemma_first_occurrence_exists(t, plain);
        let i = choose|i: int| first_occurrence(t, plain, i);
        lemma_replace_at(t, plain, hidden, i);
        let j = choose|j: int| occurs_at(t, q, j);
        lemma_replace_keeps(t, plain, hidden, q, i, j);
    }
}

/// `"#[doc(hidden)]\npub mod convert;"` as characters.
spec fn hidden_mod_chars() -> Seq<char> {
    seq!['#', '[', 'd', 'o', 'c', '(', 'h', 'i', 'd', 'd', 'e', 'n', ')', ']', '\n', 'p', 'u', 'b', ' ', 'm', 'o', 'd', ' ', 'c', 'o', 'n', 'v', 'e', 'r', 't', ';']
}

proof fn lemma_hidden_mod_chars()
    ensures
        "#[doc(hidden)]\npub mod convert;"@ == hidden_mod_chars(),
{
    reveal_strlit("#[doc(hidden)]\npub mod convert;");
    assert("#[doc(hidden)]\npub mod convert;"@ =~= hidden_mod_chars());
}

/// `"    pub use crate::convert::Upcast; // provides upcast() and upcast_ref()"` as characters.
spec fn plain_upcast_chars() -> Seq<char> {
    seq![' ', ' ', ' ', ' ', 'p', 'u', 'b', ' ', 'u', 's', 'e', ' ', 'c', 'r', 'a', 't', 'e', ':', ':', 'c', 'o', 'n', 'v', 'e', 'r', 't', ':', ':', 'U', 'p', 'c', 'a', 's', 't', ';', ' ', '/', '/', ' ', 'p', 'r', 'o', 'v', 'i', 'd', 'e', 's', ' ', 'u', 'p', 'c', 'a', 's', 't', '(', ')', ' ', 'a', 'n', 'd', ' ', 'u', 'p', 'c', 'a', 's', 't', '_', 'r', 'e', 'f', '(', ')']
}

proof fn lemma_plain_upcast_chars()
    ensures
        "    pub use crate::convert::Upcast; // provides upcast() and upcast_ref()"@ == plain_upcast_chars(),
{
    reveal_strlit("    pub use crate::convert::Upcast; // provides upcast() and upcast_ref()");
    assert("    pub use crate::convert::Upcast; // provides upcast() and upcast_ref()"@ =~= plain_upcast_chars());
}

/// `"    #[doc(hidden)]\n    pub use crate::convert::Upcast; // provides upcast() and upcast_ref()"` as characters.
spec fn hidden_upcast_chars() -> Seq<char> {
    seq![' ', ' ', ' ', ' ', '#', '[', 'd', 'o', 'c', '(', 'h', 'i', 'd', 'd', 'e', 'n', ')', ']', '\n', ' ', ' ', ' ', ' ', 'p', 'u', 'b', ' ', 'u', 's', 'e', ' ', 'c', 'r', 'a', 't', 'e', ':', ':', 'c', 'o', 'n', 'v', 'e', 'r', 't', ':', ':', 'U', 'p', 'c', 'a', 's', 't', ';', ' ', '/', '/', ' ', 'p', 'r', 'o', 'v', 'i', 'd', 'e', 's', ' ', 'u', 'p', 'c', 'a', 's', 't', '(', ')', ' ', 'a', 'n', 'd', ' ', 'u', 'p', 'c', 'a', 's', 't', '_', 'r', 'e', 'f', '(', ')']
}

proof fn lemma_hidden_upcast_chars()
    ensures
        "    #[doc(hidden)]\n    pub use crate::convert::Upcast; // provides upcast() and upcast_ref()"@ == hidden_upcast_chars(),
{
    reveal_strlit("    #[doc(hidden)]\n    pub use crate::convert::Upcast; // provides upcast() and upcast_ref()");
    assert("    #[doc(hidden)]\n    pub use crate::convert::Upcast; // provides upcast() and upcast_ref()"@ =~= hidden_upcast_chars());
}

/// `"pub use crate::convert::{IntoJsGeneric, JsGeneric};"` as characters.
spec fn plain_generic_chars() -> Seq<char> {
    seq!['p', 'u', 'b', ' ', 'u', 's', 'e', ' ', 'c', 'r', 'a', 't', 'e', ':', ':', 'c', 'o', 'n', 'v', 'e', 'r', 't', ':', ':', '{', 'I', 'n', 't', 'o', 'J', 's', 'G', 'e', 'n', 'e', 'r', 'i', 'c', ',', ' ', 'J', 's', 'G', 'e', 'n', 'e', 'r', 'i', 'c', '}', ';']
}

proof fn lemma_plain_generic_chars()
    ensures
        "pub use crate::convert::{IntoJsGeneric, JsGeneric};"@ == plain_generic_chars(),
{
    reveal_strlit("pub use crate::convert::{IntoJsGeneric, JsGeneric};");
    assert("pub use crate::convert::{IntoJsGeneric, JsGeneric};"@ =~= plain_generic_chars());
}

/// The hidden module declaration cannot overlap the plain `Upcast`
/// re-export: its `#` and its `m` occur nowhere in it, and its tail
/// `od convert;` does not fit the re-export's leading spaces.
proof fn lemma_hidden_mod_separated_from_plain_upcast()
    ensures
        separated(hidden_mod_chars(), plain_upcast_chars()),
{
    let q = hidden_mod_chars();
    let p = plain_upcast_chars();
    assert(q.len() == 31 && p.len() == 73);
    assert forall|k: int| 0 <= k < p.len() implies p[k] != '#' && p[k] != 'm' by {}
    assert forall|d: int| 1 - q.len() <= d < p.len() implies #[trigger] mismatch_at_offset(q, p, d) by {
        if d >= 0 {
            assert(p[d] != q[0]);
        } else if d >= -19 {
            assert(p[19 + d] != q[19]);
        } else if d == -22 {
            assert(p[1] != q[23]);
        } else {
            assert(p[0] != q[-d]);
        }
    }
}

/// The hidden module declaration cannot overlap the plain generics
/// re-export: its `#` and its `m` occur nowhere in it, and no character of
/// its tail `od convert;` is the re-export's leading `p`.
proof fn lemma_hidden_mod_separated_from_plain_generic()
    ensures
        separated(hidden_mod_chars(), plain_generic_chars()),
{
    let q = hidden_mod_chars();
    let p = plain_generic_chars();
    assert(q.len() == 31 && p.len() == 51);
    assert forall|k: int| 0 <= k < p.len() implies p[k] != '#' && p[k] != 'm' by {}
    assert forall|d: int| 1 - q.len() <= d < p.len() implies #[trigger] mismatch_at_offset(q, p, d) by {
        if d >= 0 {
            assert(p[d] != q[0]);
        } else if d >= -19 {
            assert(p[19 + d] != q[19]);
        } else {
            assert(p[0] != q[-d]);
        }
    }
}

/// The hidden `Upcast` re-export cannot overlap the plain generics
/// re-export: wherever they would overlap, one of its `#`, its line break,
/// its `U` or its closing `)` would meet a character that differs, or its
/// leading spaces would meet the generics re-export's last characters.
proof fn lemma_hidden_upcast_separated_from_plain_generic()
    ensures
        separated(hidden_upcast_chars(), plain_generic_chars()),
{
    let q = hidden_upcast_chars();
    let p = plain_generic_chars();
    assert(q.len() == 92 && p.len() == 51);
    assert forall|k: int| 0 <= k < p.len() implies p[k] != '#' && p[k] != '\n' && p[k] != 'U' && p[k]
        != ')' by {}
    assert forall|d: int| 1 - q.len() <= d < p.len() implies #[trigger] mismatch_at_offset(q, p, d) by {
        if d >= 47 {
            assert(p[d] != q[0]);
        } else if d >= 0 {
            assert(p[d + 4] != q[4]);
        } else if d >= -18 {
            assert(p[18 + d] != q[18]);
        } else if d >= -47 {
            assert(p[47 + d] != q[47]);
        } else {
            assert(p[91 + d] != q[91]);
        }
    }
}

/// Law: hiding the `convert` module is idempotent: a text it produced is
/// found already hidden and is left as it is.
#[verifier::spinoff_prover]
#[verifier::rlimit(40)]
pub proof fn lemma_hide_convert_idempotent(text: Seq<char>)
    requires
        hidden_convert(text) is Some,
    ensures
        hidden_convert(hidden_convert(text).unwrap()) == hidden_convert(text),
{
    let p1 = "pub mod convert;"@;
    let h1 = "#[doc(hidden)]\npub mod convert;"@;
    let p2 = "    pub use crate::convert::Upcast; // provides upcast() and upcast_ref()"@;
    let h2 = "    #[doc(hidden)]\n    pub use crate::convert::Upcast; // provides upcast() and upcast_ref()"@;
    let p3 = "pub use crate::convert::{IntoJsGeneric, JsGeneric};"@;
    let h3 = "#[doc(hidden)]\npub use crate::convert::{IntoJsGeneric, JsGeneric};"@;
    lemma_hidden_mod_chars();
    lemma_plain_upcast_chars();
    lemma_hidden_upcast_chars();
    lemma_plain_generic_chars();
    lemma_hidden_mod_separated_from_plain_upcast();
    lemma_hidden_mod_separated_from_plain_generic();
    lemma_hidden_upcast_separated_from_plain_generic();
    let t1 = hide_step(Some(text), p1, h1);
    let t2 = hide_step(t1, p2, h2);
    let u = hide_step(t2, p3, h3);
    assert(t1 is Some);
    assert(t2 is Some);
    assert(u == hidden_convert(text));
    lemma_hide_step_contains(text, p1, h1);
    lemma_hide_step_contains(t1.unwrap(), p2, h2);
    lemma_hide_step_keeps(t1.unwrap(), p2, h2, h1);
    lemma_hide_step_contains(t2.unwrap(), p3, h3);
    lemma_hide_step_keeps(t2.unwrap(), p3, h3, h1);
    lemma_hide_step_keeps(t2.unwrap(), p3, h3, h2);
    let v = u.unwrap();
    assert(hide_step(Some(v), p1, h1) == Some(v));
    assert(hide_step(Some(v), p2, h2) == Some(v));
    assert(hide_step(Some(v), p3, h3) == Some(v));
}

} // verus!
