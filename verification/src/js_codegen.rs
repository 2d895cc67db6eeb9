//! The JavaScript glue of an imported function: the arrow function that the
//! runtime registers for it, and the helpers that build its pieces.

use crate::text::{join_str, push_joined, texts, trim_char_end, trim_end_char};
use crate::versions::{decimal, push_decimal};
use vstd::prelude::*;
use vstd::string::*;

verus! {

/// The hexadecimal digit of `d < 16`, lower case.
pub open spec fn hex_digit(d: nat) -> char {
    if d < 10 {
        ('0' as nat + d) as char
    } else {
        ('a' as nat + (d - 10)) as char
    }
}

/// How a character is written inside a double-quoted JavaScript string.
pub open spec fn escape_char(c: char) -> Seq<char> {
    if c == '"' {
        seq!['\\', '"']
    } else if c == '\\' {
        seq!['\\', '\\']
    } else if c == '\n' {
        seq!['\\', 'n']
    } else if c == '\r' {
        seq!['\\', 'r']
    } else if c == '\t' {
        seq!['\\', 't']
    } else if c == '\u{08}' {
        seq!['\\', 'b']
    } else if c == '\u{0c}' {
        seq!['\\', 'f']
    } else if (c as u32) <= 31 {
        seq!['\\', 'u', '0', '0', hex_digit(c as nat / 16), hex_digit(c as nat % 16)]
    } else {
        seq![c]
    }
}

/// The characters of `s`, each escaped.
pub open spec fn escaped(s: Seq<char>) -> Seq<char>
    decreases s.len(),
{
    if s.len() == 0 {
        Seq::empty()
    } else {
        escaped(s.drop_last()) + escape_char(s.last())
    }
}

/// `s` as a double-quoted JavaScript string literal.
pub open spec fn js_literal(s: Seq<char>) -> Seq<char> {
    seq!['"'] + escaped(s) + seq!['"']
}

/// `object[<property as a string literal>]`.
pub open spec fn property_access(object: Seq<char>, property: Seq<char>) -> Seq<char> {
    object + seq!['['] + js_literal(property) + seq![']']
}

/// The access prefix: `prefix` followed by the dotted namespace and a dot,
/// or `prefix` alone when there is no namespace.
pub open spec fn namespaced(prefix: Seq<char>, namespace: Option<Seq<Seq<char>>>) -> Seq<char> {
    match namespace {
        Some(ns) => if ns.len() > 0 {
            prefix + join_str(ns, seq!['.']) + seq!['.']
        } else {
            prefix
        },
        None => prefix,
    }
}

/// The name of argument `i`: `a{i}`, which no JavaScript keyword collides with.
pub open spec fn arg_name(i: nat) -> Seq<char> {
    seq!['a'] + decimal(i)
}

/// `a0, a1, ...` for `n` arguments.
pub open spec fn args_list(n: nat) -> Seq<char> {
    join_str(Seq::new(n, |i: int| arg_name(i as nat)), seq![',', ' '])
}

/// `(typeof P X !== 'undefined' ? P X : `, the test for one candidate.
pub open spec fn typeof_test(prefix: Seq<char>, name: Seq<char>) -> Seq<char> {
    "(typeof "@ + prefix + name + " !== 'undefined' ? "@ + prefix + name + " : "@
}

/// The tests for the first `k` vendor-prefixed names of `class`; the last
/// prefix ends the chain with `undefined)`.
pub open spec fn vendor_tests(class: Seq<char>, prefixes: Seq<Seq<char>>, prefix: Seq<char>, k: nat) -> Seq<
    char,
>
    decreases k,
{
    if k == 0 {
        Seq::empty()
    } else {
        let i = (k - 1) as int;
        let t = typeof_test(prefix, prefixes[i] + class);
        vendor_tests(class, prefixes, prefix, (k - 1) as nat) + if i == prefixes.len() - 1 {
            t + "undefined)"@
        } else {
            t
        }
    }
}

/// The constructor expression that falls back through vendor-prefixed names.
pub open spec fn vendor_constructor(class: Seq<char>, prefixes: Seq<Seq<char>>, prefix: Seq<char>) -> Seq<
    char,
> {
    typeof_test(prefix, class) + vendor_tests(class, prefixes, prefix, prefixes.len()) + seq![')']
}

/// A body that returns `{ ok: body }`, or `{ err: e }` when it throws, with
/// braces doubled for a later formatting pass.
pub open spec fn try_catch(body: Seq<char>) -> Seq<char> {
    "{{ try {{ return {{ ok: "@ + body + " }}; }} catch(e) {{ return {{ err: e }}; }} }}"@
}

/// What kind of JavaScript entity an import calls.
pub enum ImportFunctionKind {
    /// A free function.
    Normal,
    /// A method of the receiver.
    Method,
    /// A property read on the receiver.
    Getter { property: String },
    /// A property write on the receiver.
    Setter { property: String },
    /// `obj[index]`.
    IndexingGetter,
    /// `obj[index] = value`.
    IndexingSetter,
    /// `delete obj[index]`.
    IndexingDeleter,
    /// `new Class(...)`.
    Constructor { class: String },
    /// A static method of a class.
    StaticMethod { class: String },
}

/// What the JavaScript glue of an imported function depends on.
pub struct ImportFunction {
    pub js_name: String,
    pub js_namespace: Option<Vec<String>>,
    /// The number of arguments the function takes (the receiver excluded).
    pub arg_count: usize,
    pub kind: ImportFunctionKind,
    /// Whether a thrown exception is caught and returned.
    pub catch: bool,
}

/// The vendor prefixes registered for `class`: those of the first entry for it.
pub open spec fn vendor_lookup(vendor: Seq<(String, Vec<String>)>, class: Seq<char>) -> Option<Seq<Seq<char>>>
    decreases vendor.len(),
{
    if vendor.len() == 0 {
        None
    } else if vendor[0].0@ == class {
        Some(texts(vendor[0].1@))
    } else {
        vendor_lookup(vendor.skip(1), class)
    }
}

/// The parameters and the body of the glue of `func`, with the access
/// prefix `prefix` (namespace included).
pub open spec fn params_and_body(
    func: ImportFunction,
    vendor: Seq<(String, Vec<String>)>,
    prefix: Seq<char>,
) -> (Seq<char>, Seq<char>) {
    let args = args_list(func.arg_count as nat);
    let call_args = seq!['('] + args + seq![')'];
    match func.kind {
        ImportFunctionKind::Normal => {
            let callee = if prefix.len() == 0 {
                func.js_name@
            } else {
                property_access(trim_char_end(prefix, '.'), func.js_name@)
            };
            (call_args, callee + call_args)
        },
        ImportFunctionKind::Method => {
            let method = property_access("obj"@, func.js_name@);
            if func.arg_count == 0 {
                ("(obj)"@, method + "()"@)
            } else {
                ("(obj, "@ + args + seq![')'], method + call_args)
            }
        },
        ImportFunctionKind::Getter { property } => ("(obj)"@, property_access("obj"@, property@)),
        ImportFunctionKind::Setter { property } => (
            "(obj, value)"@,
            property_access("obj"@, property@) + " = value"@,
        ),
        ImportFunctionKind::IndexingGetter => ("(obj, index)"@, "obj[index]"@),
        ImportFunctionKind::IndexingSetter => ("(obj, index, value)"@, "obj[index] = value"@),
        ImportFunctionKind::IndexingDeleter => ("(obj, index)"@, "delete obj[index]"@),
        ImportFunctionKind::Constructor { class } => {
            let body = match vendor_lookup(vendor, class@) {
                Some(ps) => if ps.len() > 0 {
                    "new ("@ + vendor_constructor(class@, ps, prefix) + seq![')'] + call_args
                } else {
                    "new "@ + prefix + class@ + call_args
                },
                None => "new "@ + prefix + class@ + call_args,
            };
            (call_args, body)
        },
        ImportFunctionKind::StaticMethod { class } => (
            call_args,
            property_access(prefix + class@, func.js_name@) + call_args,
        ),
    }
}

/// The namespace of `func` as texts.
pub open spec fn namespace_of(func: ImportFunction) -> Option<Seq<Seq<char>>> {
    match func.js_namespace {
        Some(ns) => Some(texts(ns@)),
        None => None,
    }
}

/// The glue of `func`: `params => body`, the body wrapped to catch
/// exceptions when the import asks for it (unless the caller wraps it).
pub open spec fn js_code(
    func: ImportFunction,
    vendor: Seq<(String, Vec<String>)>,
    prefix: Seq<char>,
    skip_catch_wrapper: bool,
) -> Seq<char> {
    let (params, body) = params_and_body(func, vendor, namespaced(prefix, namespace_of(func)));
    params + " => "@ + if func.catch && !skip_catch_wrapper {
        try_catch(body)
    } else {
        body
    }
}

fn hex_str(d: u32) -> (s: &'static str)
    requires
        d < 16,
    ensures
        s@ == seq![hex_digit(d as nat)],
{
    proof {
        reveal_strlit("0");
        reveal_strlit("1");
        reveal_strlit("2");
        reveal_strlit("3");
        reveal_strlit("4");
        reveal_strlit("5");
        reveal_strlit("6");
        reveal_strlit("7");
        reveal_strlit("8");
        reveal_strlit("9");
        reveal_strlit("a");
        reveal_strlit("b");
        reveal_strlit("c");
        reveal_strlit("d");
        reveal_strlit("e");
        reveal_strlit("f");
    }
    if d == 0 {
        "0"
    } else if d == 1 {
        "1"
    } else if d == 2 {
        "2"
    } else if d == 3 {
        "3"
    } else if d == 4 {
        "4"
    } else if d == 5 {
        "5"
    } else if d == 6 {
        "6"
    } else if d == 7 {
        "7"
    } else if d == 8 {
        "8"
    } else if d == 9 {
        "9"
    } else if d == 10 {
        "a"
    } else if d == 11 {
        "b"
    } else if d == 12 {
        "c"
    } else if d == 13 {
        "d"
    } else if d == 14 {
        "e"
    } else {
        "f"
    }
}

/// Append character `i` of `value`, escaped.
fn push_escaped_char(out: &mut String, value: &str, i: usize)
    requires
        i < value@.len(),
    ensures
        final(out)@ == old(out)@ + escape_char(value@[i as int]),
{
    let n = value.unicode_len();
    let ch = value.get_char(i);
    proof {
        reveal_strlit("\\\"");
        reveal_strlit("\\\\");
        reveal_strlit("\\n");
        reveal_strlit("\\r");
        reveal_strlit("\\t");
        reveal_strlit("\\b");
        reveal_strlit("\\f");
        reveal_strlit("\\u00");
    }
    if ch == '"' {
        out.append("\\\"");
    } else if ch == '\\' {
        out.append("\\\\");
    } else if ch == '\n' {
        out.append("\\n");
    } else if ch == '\r' {
        out.append("\\r");
    } else if ch == '\t' {
        out.append("\\t");
    } else if ch == '\u{08}' {
        out.append("\\b");
    } else if ch == '\u{0c}' {
        out.append("\\f");
    } else if (ch as u32) <= 31 {
        let code = ch as u32;
        out.append("\\u00");
        out.append(hex_str(code / 16));
        out.append(hex_str(code % 16));
        assert(out@ =~= old(out)@ + escape_char(ch));
    } else {
        out.append(value.substring_char(i, i + 1));
        assert(value@.subrange(i as int, i + 1) =~= seq![ch]);
    }
}

/// Append `value` as a double-quoted JavaScript string literal.
fn push_js_literal(out: &mut String, value: &str)
    ensures
        final(out)@ == old(out)@ + js_literal(value@),
{
    proof {
        reveal_strlit("\"");
    }
    out.append("\"");
    let n = value.unicode_len();
    let mut i: usize = 0;
    while i < n
        invariant
            n == value@.len(),
            i <= n,
            out@ == old(out)@ + seq!['"'] + escaped(value@.take(i as int)),
        decreases n - i,
    {
        push_escaped_char(out, value, i);
        assert(value@.take(i + 1).drop_last() =~= value@.take(i as int));
        assert(out@ =~= old(out)@ + seq!['"'] + escaped(value@.take(i + 1)));
        i = i + 1;
    }
    out.append("\"");
    assert(value@.take(n as int) =~= value@);
    assert(out@ =~= old(out)@ + js_literal(value@));
}

/// `value` as a double-quoted JavaScript string literal: quotes,
/// backslashes and control characters are escaped.
pub fn js_string_literal(value: &str) -> (s: String)
    ensures
        s@ == js_literal(value@),
{
    let mut s = String::new();
    push_js_literal(&mut s, value);
    s
}

/// Append `object[<property as a string literal>]`.
fn push_property_access(out: &mut String, object: &str, property: &str)
    ensures
        final(out)@ == old(out)@ + property_access(object@, property@),
{
    proof {
        reveal_strlit("[");
        reveal_strlit("]");
    }
    out.append(object);
    out.append("[");
    push_js_literal(out, property);
    out.append("]");
    assert(out@ =~= old(out)@ + property_access(object@, property@));
}

/// `object[<property as a string literal>]`.
pub fn js_property_access(object: &str, property: &str) -> (s: String)
    ensures
        s@ == property_access(object@, property@),
{
    let mut s = String::new();
    push_property_access(&mut s, object, property);
    s
}

/// The access prefix: `prefix` with the dotted namespace and a dot appended,
/// or `prefix` alone when the namespace is absent or empty.
pub fn namespace_prefix(prefix: &str, namespace: Option<&[String]>) -> (s: String)
    ensures
        s@ == namespaced(
            prefix@,
            match namespace {
                Some(ns) => Some(texts(ns@)),
                None => None,
            },
        ),
{
    let mut s = String::from_str(prefix);
    match namespace {
        Some(ns) => {
            if ns.len() > 0 {
                proof {
                    reveal_strlit(".");
                    assert("."@ =~= seq!['.']);
                }
                push_joined(&mut s, ns, ".");
                s.append(".");
            }
        },
        None => {},
    }
    s
}

/// Append `a0, a1, ...` for `n` arguments.
fn push_args(out: &mut String, n: usize)
    ensures
        final(out)@ == old(out)@ + args_list(n as nat),
{
    proof {
        reveal_strlit(", ");
        reveal_strlit("a");
        assert(", "@ =~= seq![',', ' ']);
        assert("a"@ =~= seq!['a']);
    }
    let ghost names = Seq::new(n as nat, |i: int| arg_name(i as nat));
    let mut i: usize = 0;
    while i < n
        invariant
            i <= n,
            names == Seq::new(n as nat, |i: int| arg_name(i as nat)),
            out@ == old(out)@ + join_str(names.take(i as int), seq![',', ' ']),
        decreases n - i,
    {
        let ghost before = out@;
        if i > 0 {
            out.append(", ");
        }
        let ghost mid = out@;
        out.append("a");
        push_decimal(out, i as u64);
        proof {
            reveal_strlit(", ");
            reveal_strlit("a");
            assert(", "@ =~= seq![',', ' ']);
            assert("a"@ =~= seq!['a']);
            assert(out@ =~= mid + arg_name(i as nat));
            assert(names.take(i + 1).drop_last() =~= names.take(i as int));
            assert(names.take(i + 1).last() == arg_name(i as nat));
            if i == 0 {
                assert(names.take(1) =~= seq![arg_name(0)]);
                assert(join_str(names.take(0), seq![',', ' ']) =~= Seq::<char>::empty());
            }
            assert(out@ =~= old(out)@ + join_str(names.take(i + 1), seq![',', ' ']));
        }
        i = i + 1;
    }
    assert(names.take(n as int) =~= names);
}

/// Append `(typeof P X !== 'undefined' ? P X : `.
fn push_typeof_test(out: &mut String, prefix: &str, vendor: &str, class: &str)
    ensures
        final(out)@ == old(out)@ + typeof_test(prefix@, vendor@ + class@),
{
    out.append("(typeof ");
    out.append(prefix);
    out.append(vendor);
    out.append(class);
    out.append(" !== 'undefined' ? ");
    out.append(prefix);
    out.append(vendor);
    out.append(class);
    out.append(" : ");
    assert(out@ =~= old(out)@ + typeof_test(prefix@, vendor@ + class@));
}

/// The constructor expression for `class` that falls back through its
/// vendor-prefixed names: the plain name first, then each prefix in order,
/// the last ending in `undefined`.
pub fn generate_vendor_prefixed_constructor(class: &str, prefixes: &[String], prefix: &str) -> (s: String)
    ensures
        s@ == vendor_constructor(class@, texts(prefixes@), prefix@),
{
    proof {
        reveal_strlit("");
        reveal_strlit(")");
    }
    let mut s = String::new();
    push_typeof_test(&mut s, prefix, "", class);
    assert(""@ + class@ =~= class@);
    let ghost head = s@;
    let ghost ps = texts(prefixes@);
    let n = prefixes.len();
    let mut i: usize = 0;
    while i < n
        invariant
            n == prefixes@.len(),
            ps == texts(prefixes@),
            i <= n,
            s@ == head + vendor_tests(class@, ps, prefix@, i as nat),
        decreases n - i,
    {
        push_typeof_test(&mut s, prefix, prefixes[i].as_str(), class);
        if i == n - 1 {
            s.append("undefined)");
        }
        assert(s@ =~= head + vendor_tests(class@, ps, prefix@, (i + 1) as nat));
        i = i + 1;
    }
    s.append(")");
    s
}

/// Wrap a body so that it returns `{ ok: body }`, or `{ err: e }` when it
/// throws; the braces are doubled for a later formatting pass.
pub fn wrap_body_with_try_catch(body: &str) -> (s: String)
    ensures
        s@ == try_catch(body@),
{
    let mut s = String::from_str("{{ try {{ return {{ ok: ");
    s.append(body);
    s.append(" }}; }} catch(e) {{ return {{ err: e }}; }} }}");
    s
}

/// Parameters with the promise's resolve and reject callbacks appended.
pub open spec fn with_promise_callbacks(params: Seq<char>) -> Seq<char> {
    if params == "()"@ {
        "(__wryResolve, __wryReject)"@
    } else {
        params.drop_last() + ", __wryResolve, __wryReject)"@
    }
}

/// Append the promise's resolve and reject callbacks to a parenthesized
/// parameter list.
pub fn params_with_promise_callbacks(params: &str) -> (s: String)
    requires
        params@.len() > 0 && params@.last() == ')',
    ensures
        s@ == with_promise_callbacks(params@),
{
    if crate::versions::str_equal(params, "()") {
        return String::from_str("(__wryResolve, __wryReject)");
    }
    let n = params.unicode_len();
    let mut s = String::from_str(params.substring_char(0, n - 1));
    s.append(", __wryResolve, __wryReject)");
    assert(params@.subrange(0, n - 1) =~= params@.drop_last());
    s
}

/// The glue of an async import: the arrow function's body runs in a
/// `Promise` whose settlement goes to the resolve and reject callbacks.
pub open spec fn promise_attach(params: Seq<char>, body: Seq<char>) -> Seq<char> {
    with_promise_callbacks(params) + " => {{ try {{ Promise.resolve("@ + body
        + ").then(__wryResolve, __wryReject); }} catch (e) {{ __wryReject(e); }} }}"@
}

/// Turn the glue of an import into the glue of its async form. `js_code`
/// is split at its first ` => `.
pub fn async_promise_attach_js_code(js_code: &str) -> (s: String)
    requires
        exists|i: int| crate::text::occurs_at(js_code@, " => "@, i),
        forall|i: int|
            #![trigger crate::text::occurs_at(js_code@, " => "@, i)]
            crate::text::first_occurrence(js_code@, " => "@, i) ==> i > 0 && js_code@[i - 1] == ')',
    ensures
        exists|i: int|
            crate::text::first_occurrence(js_code@, " => "@, i) && s@ == promise_attach(
                js_code@.take(i),
                js_code@.skip(i + 4),
            ),
{
    proof {
        reveal_strlit(" => ");
    }
    let hay = crate::text::chars_of(js_code);
    let pat = crate::text::chars_of(" => ");
    let i = match crate::text::find_first(hay.as_slice(), pat.as_slice()) {
        Some(i) => i,
        None => {
            proof {
                let k = choose|i: int| crate::text::occurs_at(js_code@, " => "@, i);
                assert(crate::text::occurs_at(hay@, pat@, k));
            }
            return String::new();
        },
    };
    let n = js_code.unicode_len();
    let params = js_code.substring_char(0, i);
    let body = js_code.substring_char(i + 4, n);
    assert(params@ =~= js_code@.take(i as int));
    assert(body@ =~= js_code@.skip(i + 4));
    assert(crate::text::occurs_at(js_code@, " => "@, i as int));
    let mut s = params_with_promise_callbacks(params);
    s.append(" => {{ try {{ Promise.resolve(");
    s.append(body);
    s.append(").then(__wryResolve, __wryReject); }} catch (e) {{ __wryReject(e); }} }}");
    s
}

/// The vendor prefixes registered for `class`.
fn lookup_vendor<'a>(vendor: &'a [(String, Vec<String>)], class: &str) -> (r: Option<&'a Vec<String>>)
    ensures
        match r {
            Some(v) => vendor_lookup(vendor@, class@) == Some(texts(v@)),
            None => vendor_lookup(vendor@, class@) is None,
        },
{
    let n = vendor.len();
    let mut i: usize = 0;
    assert(vendor@.skip(0) =~= vendor@);
    while i < n
        invariant
            n == vendor@.len(),
            i <= n,
            vendor_lookup(vendor@, class@) == vendor_lookup(vendor@.skip(i as int), class@),
        decreases n - i,
    {
        assert(vendor@.skip(i as int)[0] == vendor@[i as int]);
        if crate::versions::str_equal(vendor[i].0.as_str(), class) {
            return Some(&vendor[i].1);
        }
        assert(vendor@.skip(i as int).skip(1) =~= vendor@.skip(i + 1));
        i = i + 1;
    }
    None
}

/// The parameters and the body of the glue of `func`, given its access
/// prefix (namespace included).
fn glue_parts(func: &ImportFunction, vendor: &[(String, Vec<String>)], prefix: &str) -> (r: (String, String))
    ensures
        (r.0@, r.1@) == params_and_body(*func, vendor@, prefix@),
{
    let n = func.arg_count;
    let mut call_args = String::from_str("(");
    push_args(&mut call_args, n);
    call_args.append(")");
    proof {
        reveal_strlit("(");
        reveal_strlit(")");
        assert("("@ =~= seq!['(']);
        assert(")"@ =~= seq![')']);
        assert(call_args@ =~= seq!['('] + args_list(n as nat) + seq![')']);
    }
    match &func.kind {
        ImportFunctionKind::Normal => {
            let mut body = String::new();
            if prefix.unicode_len() == 0 {
                body.append(func.js_name.as_str());
            } else {
                push_property_access(&mut body, trim_end_char(prefix, '.'), func.js_name.as_str());
            }
            body.append(call_args.as_str());
            (call_args, body)
        },
        ImportFunctionKind::Method => {
            let mut body = String::new();
            push_property_access(&mut body, "obj", func.js_name.as_str());
            if n == 0 {
                body.append("()");
                (String::from_str("(obj)"), body)
            } else {
                body.append(call_args.as_str());
                let mut params = String::from_str("(obj, ");
                push_args(&mut params, n);
                params.append(")");
                (params, body)
            }
        },
        ImportFunctionKind::Getter { property } => {
            let mut body = String::new();
            push_property_access(&mut body, "obj", property.as_str());
            (String::from_str("(obj)"), body)
        },
        ImportFunctionKind::Setter { property } => {
            let mut body = String::new();
            push_property_access(&mut body, "obj", property.as_str());
            body.append(" = value");
            (String::from_str("(obj, value)"), body)
        },
        ImportFunctionKind::IndexingGetter => (String::from_str("(obj, index)"), String::from_str("obj[index]")),
        ImportFunctionKind::IndexingSetter => (
            String::from_str("(obj, index, value)"),
            String::from_str("obj[index] = value"),
        ),
        ImportFunctionKind::IndexingDeleter => (
            String::from_str("(obj, index)"),
            String::from_str("delete obj[index]"),
        ),
        ImportFunctionKind::Constructor { class } => {
            let mut body = String::from_str("new ");
            let vendored = match lookup_vendor(vendor, class.as_str()) {
                Some(ps) => if ps.len() > 0 {
                    Some(generate_vendor_prefixed_constructor(class.as_str(), ps.as_slice(), prefix))
                } else {
                    None
                },
                None => None,
            };
            match vendored {
                Some(expr) => {
                    body.append("(");
                    body.append(expr.as_str());
                    body.append(")");
                },
                None => {
                    body.append(prefix);
                    body.append(class.as_str());
                },
            }
            body.append(call_args.as_str());
            proof {
                reveal_strlit("new ");
                reveal_strlit("new (");
                assert("new ("@ =~= "new "@ + seq!['(']);
            }
            (call_args, body)
        },
        ImportFunctionKind::StaticMethod { class } => {
            let mut class_object = String::from_str(prefix);
            class_object.append(class.as_str());
            let mut body = String::new();
            push_property_access(&mut body, class_object.as_str(), func.js_name.as_str());
            body.append(call_args.as_str());
            (call_args, body)
        },
    }
}

/// The glue the runtime registers for the import `func`: an arrow function
/// `params => body` whose parameters are the receiver (for methods and
/// accessors) and `a0, a1, ...`, and whose body reaches the JavaScript
/// entity through `prefix` and the import's namespace. The body catches
/// exceptions when the import asks for it, unless the caller wraps it.
pub fn generate_js_code(
    func: &ImportFunction,
    vendor_prefixes: &[(String, Vec<String>)],
    prefix: &str,
    skip_catch_wrapper: bool,
) -> (s: String)
    ensures
        s@ == js_code(*func, vendor_prefixes@, prefix@, skip_catch_wrapper),
{
    let ns: Option<&[String]> = match &func.js_namespace {
        Some(v) => Some(v.as_slice()),
        None => None,
    };
    let full_prefix = namespace_prefix(prefix, ns);
    let (params, body) = glue_parts(func, vendor_prefixes, full_prefix.as_str());
    let mut s = params;
    s.append(" => ");
    if func.catch && !skip_catch_wrapper {
        let wrapped = wrap_body_with_try_catch(body.as_str());
        s.append(wrapped.as_str());
    } else {
        s.append(body.as_str());
    }
    s
}

/// What the JavaScript glue of an imported static depends on.
pub struct ImportStatic {
    pub js_name: String,
    pub js_namespace: Option<Vec<String>>,
}

/// The glue of a static: `() => <prefix><namespace>.<name>`.
pub open spec fn static_js_code(st: ImportStatic, prefix: Seq<char>) -> Seq<char> {
    let ns = match st.js_namespace {
        Some(v) => Some(texts(v@)),
        None => None,
    };
    "() => "@ + namespaced(prefix, ns) + st.js_name@
}

/// The glue the runtime registers for the imported static `st`.
pub fn generate_static_js_code(st: &ImportStatic, prefix: &str) -> (s: String)
    ensures
        s@ == static_js_code(*st, prefix@),
{
    let ns: Option<&[String]> = match &st.js_namespace {
        Some(v) => Some(v.as_slice()),
        None => None,
    };
    let full_prefix = namespace_prefix(prefix, ns);
    let mut s = String::from_str("() => ");
    s.append(full_prefix.as_str());
    s.append(st.js_name.as_str());
    s
}

/// No character of `s` is `>`.
pub open spec fn no_gt(s: Seq<char>) -> bool {
    forall|k: int| 0 <= k < s.len() ==> s[k] != '>'
}

proof fn lemma_decimal_no_gt(n: nat)
    ensures
        no_gt(decimal(n)),
    decreases n,
{
    if n >= 10 {
        lemma_decimal_no_gt(n / 10);
    }
}

proof fn lemma_join_no_gt(parts: Seq<Seq<char>>, sep: Seq<char>)
    requires
        no_gt(sep),
        forall|i: int| 0 <= i < parts.len() ==> no_gt(#[trigger] parts[i]),
    ensures
        no_gt(join_str(parts, sep)),
    decreases parts.len(),
{
    if parts.len() > 1 {
        lemma_join_no_gt(parts.drop_last(), sep);
        let a = join_str(parts.drop_last(), sep);
        assert(no_gt(parts.last()));
        assert forall|k: int| 0 <= k < (a + sep + parts.last()).len() implies (a + sep + parts.last())[k]
            != '>' by {
            if k < a.len() {
            } else if k < a.len() + sep.len() {
                assert((a + sep + parts.last())[k] == sep[k - a.len()]);
            } else {
                assert((a + sep + parts.last())[k] == parts.last()[k - a.len() - sep.len()]);
            }
        }
    } else if parts.len() == 1 {
        assert(no_gt(parts[0]));
    }
}

proof fn lemma_args_no_gt(n: nat)
    ensures
        no_gt(args_list(n)),
{
    let names = Seq::new(n, |i: int| arg_name(i as nat));
    assert forall|i: int| 0 <= i < names.len() implies no_gt(#[trigger] names[i]) by {
        lemma_decimal_no_gt(i as nat);
        let name = arg_name(i as nat);
        assert forall|k: int| 0 <= k < name.len() implies #[trigger] name[k] != '>' by {
            if k > 0 {
                assert(name[k] == decimal(i as nat)[k - 1]);
            }
        }
    }
    lemma_join_no_gt(names, seq![',', ' ']);
}

/// The parameter list of every import's glue is parenthesized and holds no `>`.
proof fn lemma_params_shape(func: ImportFunction, vendor: Seq<(String, Vec<String>)>, prefix: Seq<char>)
    ensures
        ({
            let params = params_and_body(func, vendor, prefix).0;
            &&& params.len() > 0
            &&& params.last() == ')'
            &&& no_gt(params)
        }),
{
    reveal_strlit("(obj)");
    reveal_strlit("(obj, ");
    reveal_strlit("(obj, value)");
    reveal_strlit("(obj, index)");
    reveal_strlit("(obj, index, value)");
    let args = args_list(func.arg_count as nat);
    lemma_args_no_gt(func.arg_count as nat);
    let call_args = seq!['('] + args + seq![')'];
    assert forall|k: int| 0 <= k < call_args.len() implies call_args[k] != '>' by {
        if 0 < k < call_args.len() - 1 {
            assert(call_args[k] == args[k - 1]);
        }
    }
    let with_obj = "(obj, "@ + args + seq![')'];
    assert forall|k: int| 0 <= k < with_obj.len() implies with_obj[k] != '>' by {
        if 6 <= k < with_obj.len() - 1 {
            assert(with_obj[k] == args[k - 6]);
        }
    }
}

/// Law: the glue of every import is an arrow function whose parameter list,
/// up to its first ` => `, is parenthesized, so its async form can always
/// be built from it; the split recovers the parameters and the body.
pub proof fn lemma_glue_splits_at_arrow(
    func: ImportFunction,
    vendor: Seq<(String, Vec<String>)>,
    prefix: Seq<char>,
    skip_catch_wrapper: bool,
)
    ensures
        ({
            let code = js_code(func, vendor, prefix, skip_catch_wrapper);
            let (params, body) = params_and_body(func, vendor, namespaced(prefix, namespace_of(func)));
            &&& crate::text::first_occurrence(code, " => "@, params.len() as int)
            &&& code.take(params.len() as int) == params
            &&& code.skip(params.len() as int + 4) == (if func.catch && !skip_catch_wrapper {
                try_catch(body)
            } else {
                body
            })
        }),
{
    reveal_strlit(" => ");
    let code = js_code(func, vendor, prefix, skip_catch_wrapper);
    let full = namespaced(prefix, namespace_of(func));
    let (params, body) = params_and_body(func, vendor, full);
    let b = if func.catch && !skip_catch_wrapper {
        try_catch(body)
    } else {
        body
    };
    lemma_params_shape(func, vendor, full);
    let n = params.len() as int;
    assert(code == params + " => "@ + b);
    assert(code.subrange(n, n + 4) =~= " => "@);
    assert forall|j: int| 0 <= j < n implies !crate::text::occurs_at(code, " => "@, j) by {
        if crate::text::occurs_at(code, " => "@, j) {
            assert(code.subrange(j, j + 4)[0] == ' ');
            assert(code.subrange(j, j + 4)[1] == '=');
            assert(code.subrange(j, j + 4)[2] == '>');
            if j + 2 < n {
                assert(code[j + 2] == params[j + 2]);
            } else if j + 1 == n - 1 {
                assert(code[j + 1] == params[n - 1]);
            } else {
                assert(code[j] == params[n - 1]);
            }
        }
    }
    assert(code.take(n) =~= params);
    assert(code.skip(n + 4) =~= b);
}

/// Law: the glue of a static method looks the class up through the access
/// prefix, `prefix` followed by the import's dotted namespace, never as a
/// bare global: `(a0, ..) => <prefix><ns.><Class>["<name>"](a0, ..)`, the
/// body wrapped to catch exceptions when the import asks for it. With no
/// namespace the class object is `prefix` immediately followed by the class.
pub proof fn lemma_static_method_glue(
    func: ImportFunction,
    class: String,
    vendor: Seq<(String, Vec<String>)>,
    prefix: Seq<char>,
    skip_catch_wrapper: bool,
)
    requires
        func.kind == (ImportFunctionKind::StaticMethod { class }),
    ensures
        ({
            let call_args = seq!['('] + args_list(func.arg_count as nat) + seq![')'];
            let object = namespaced(prefix, namespace_of(func)) + class@;
            let body = object + seq!['['] + js_literal(func.js_name@) + seq![']'] + call_args;
            &&& js_code(func, vendor, prefix, skip_catch_wrapper) == call_args + " => "@ + (if func.catch
                && !skip_catch_wrapper {
                try_catch(body)
            } else {
                body
            })
            &&& func.js_namespace is None ==> object == prefix + class@
            &&& body.take(prefix.len() as int) == prefix
        }),
{
    let call_args = seq!['('] + args_list(func.arg_count as nat) + seq![')'];
    let object = namespaced(prefix, namespace_of(func)) + class@;
    let body = object + seq!['['] + js_literal(func.js_name@) + seq![']'] + call_args;
    let (params, b) = params_and_body(func, vendor, namespaced(prefix, namespace_of(func)));
    assert(b =~= body);
    assert(params == call_args);
    assert(namespaced(prefix, namespace_of(func)).take(prefix.len() as int) =~= prefix);
    assert(body.take(prefix.len() as int) =~= prefix);
}

/// Law: the glue of a constructor whose class has no vendor prefixes builds
/// the class through the access prefix: `(a0, ..) => new <prefix><ns.><Class>(a0, ..)`,
/// the body wrapped to catch exceptions when the import asks for it.
pub proof fn lemma_constructor_glue(
    func: ImportFunction,
    class: String,
    vendor: Seq<(String, Vec<String>)>,
    prefix: Seq<char>,
    skip_catch_wrapper: bool,
)
    requires
        func.kind == (ImportFunctionKind::Constructor { class }),
        vendor_lookup(vendor, class@) matches Some(ps) ==> ps.len() == 0,
    ensures
        ({
            let call_args = seq!['('] + args_list(func.arg_count as nat) + seq![')'];
            let body = "new "@ + namespaced(prefix, namespace_of(func)) + class@ + call_args;
            js_code(func, vendor, prefix, skip_catch_wrapper) == call_args + " => "@ + (if func.catch
                && !skip_catch_wrapper {
                try_catch(body)
            } else {
                body
            })
        }),
{
}

/// The value of a hexadecimal digit (0 for any other character).
pub open spec fn hex_value(c: char) -> nat {
    if '0' <= c && c <= '9' {
        (c as nat - '0' as nat) as nat
    } else if 'a' <= c && c <= 'f' {
        (c as nat - 'a' as nat + 10) as nat
    } else {
        0
    }
}

/// The character a one-letter escape `\e` stands for in JavaScript.
pub open spec fn simple_escape(e: char) -> char {
    if e == 'n' {
        '\n'
    } else if e == 'r' {
        '\r'
    } else if e == 't' {
        '\t'
    } else if e == 'b' {
        '\u{08}'
    } else if e == 'f' {
        '\u{0c}'
    } else {
        e
    }
}

/// What the body of a JavaScript string literal denotes, for the escapes
/// `\"`, `\\`, `\n`, `\r`, `\t`, `\b`, `\f` and `\uXXXX`.
pub open spec fn unescape(s: Seq<char>) -> Seq<char>
    decreases s.len(),
{
    if s.len() == 0 {
        Seq::empty()
    } else if s[0] != '\\' || s.len() < 2 {
        seq![s[0]] + unescape(s.skip(1))
    } else if s[1] == 'u' && s.len() >= 6 {
        seq![
            (hex_value(s[2]) * 4096 + hex_value(s[3]) * 256 + hex_value(s[4]) * 16 + hex_value(
                s[5],
            )) as char,
        ] + unescape(s.skip(6))
    } else {
        seq![simple_escape(s[1])] + unescape(s.skip(2))
    }
}

/// What a double-quoted JavaScript string literal denotes.
pub open spec fn literal_value(lit: Seq<char>) -> Seq<char> {
    unescape(lit.drop_first().drop_last())
}

proof fn lemma_escaped_cons(c: char, rest: Seq<char>)
    ensures
        escaped(seq![c] + rest) == escape_char(c) + escaped(rest),
    decreases rest.len(),
{
    if rest.len() == 0 {
        assert(seq![c] + rest =~= seq![c]);
        assert(seq![c].drop_last() =~= Seq::<char>::empty());
        assert(escaped(Seq::<char>::empty()) == Seq::<char>::empty());
        assert(escape_char(c) + escaped(rest) =~= escape_char(c));
    } else {
        lemma_escaped_cons(c, rest.drop_last());
        assert((seq![c] + rest).drop_last() =~= seq![c] + rest.drop_last());
        assert((seq![c] + rest).last() == rest.last());
        assert(escape_char(c) + escaped(rest.drop_last()) + escape_char(rest.last()) =~= escape_char(c)
            + escaped(rest));
    }
}

proof fn lemma_unescape_escape_char(c: char, rest: Seq<char>)
    ensures
        unescape(escape_char(c) + rest) == seq![c] + unescape(rest),
{
    let e = escape_char(c);
    let s = e + rest;
    if c == '"' || c == '\\' || c == '\n' || c == '\r' || c == '\t' || c == '\u{08}' || c == '\u{0c}' {
        assert(s[0] == '\\');
        assert(s.skip(2) =~= rest);
    } else if (c as u32) <= 31 {
        let v = c as nat;
        assert(hex_value(hex_digit(v / 16)) == v / 16);
        assert(hex_value(hex_digit(v % 16)) == v % 16);
        assert(hex_value('0') == 0);
        assert(s[2] == '0' && s[3] == '0');
        assert(s[4] == hex_digit(v / 16));
        assert(s[5] == hex_digit(v % 16));
        assert((v / 16) * 16 + v % 16 == v) by (nonlinear_arith);
        assert(s.skip(6) =~= rest);
        assert((v as char) == c);
    } else {
        assert(s[0] == c);
        assert(s.skip(1) =~= rest);
    }
}

/// Law: a string literal built by `js_string_literal` denotes exactly the
/// text it was built from.
pub proof fn lemma_js_literal_denotes_value(value: Seq<char>)
    ensures
        literal_value(js_literal(value)) == value,
        unescape(escaped(value)) == value,
    decreases value.len(),
{
    if value.len() == 0 {
        assert(escaped(value) == Seq::<char>::empty());
        assert(unescape(Seq::<char>::empty()) == Seq::<char>::empty());
    } else {
        let rest = value.skip(1);
        assert(value =~= seq![value[0]] + rest);
        lemma_escaped_cons(value[0], rest);
        lemma_js_literal_denotes_value(rest);
        lemma_unescape_escape_char(value[0], escaped(rest));
    }
    assert(js_literal(value).drop_first().drop_last() =~= escaped(value));
}

} // verus!
