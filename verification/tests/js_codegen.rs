use wry_bindgen::js_codegen::{
    async_promise_attach_js_code, generate_js_code, generate_static_js_code, generate_vendor_prefixed_constructor,
    js_property_access, ImportStatic,
    js_string_literal, namespace_prefix, params_with_promise_callbacks, wrap_body_with_try_catch, ImportFunction,
    ImportFunctionKind,
};

fn import(name: &str, args: usize, kind: ImportFunctionKind) -> ImportFunction {
    ImportFunction { js_name: name.to_string(), js_namespace: None, arg_count: args, kind, catch: false }
}

fn code(func: &ImportFunction, prefix: &str) -> String {
    generate_js_code(func, &[], prefix, false)
}

#[test]
fn string_literals_escape_quotes_backslashes_and_controls() {
    assert_eq!(js_string_literal("plain"), "\"plain\"");
    assert_eq!(js_string_literal("a\"b\\c"), "\"a\\\"b\\\\c\"");
    assert_eq!(js_string_literal("\n\r\t\u{8}\u{c}"), "\"\\n\\r\\t\\b\\f\"");
    assert_eq!(js_string_literal("\u{1}\u{1f}"), "\"\\u0001\\u001f\"");
    assert_eq!(js_string_literal("é ✓"), "\"é ✓\"");
}

#[test]
fn property_access_quotes_the_property() {
    assert_eq!(js_property_access("obj", "x\"y"), "obj[\"x\\\"y\"]");
}

#[test]
fn namespace_prefix_appends_the_dotted_path() {
    let ns = vec!["a".to_string(), "b".to_string()];
    let none: Vec<String> = Vec::new();
    assert_eq!(namespace_prefix("w.", Some(ns.as_slice())), "w.a.b.");
    assert_eq!(namespace_prefix("w.", Some(none.as_slice())), "w.");
    assert_eq!(namespace_prefix("", None), "");
}

#[test]
fn normal_functions_call_through_the_prefix() {
    let f = import("alert", 2, ImportFunctionKind::Normal);
    assert_eq!(code(&f, ""), "(a0, a1) => alert(a0, a1)");
    assert_eq!(code(&f, "window."), "(a0, a1) => window[\"alert\"](a0, a1)");
}

#[test]
fn namespaces_extend_the_prefix() {
    let mut f = import("log", 1, ImportFunctionKind::Normal);
    f.js_namespace = Some(vec!["console".to_string()]);
    assert_eq!(code(&f, ""), "(a0) => console[\"log\"](a0)");
}

#[test]
fn argument_names_count_past_nine() {
    let f = import("f", 11, ImportFunctionKind::Normal);
    assert_eq!(
        code(&f, ""),
        "(a0, a1, a2, a3, a4, a5, a6, a7, a8, a9, a10) => f(a0, a1, a2, a3, a4, a5, a6, a7, a8, a9, a10)"
    );
}

#[test]
fn methods_take_the_receiver_first() {
    assert_eq!(code(&import("foo", 0, ImportFunctionKind::Method), ""), "(obj) => obj[\"foo\"]()");
    assert_eq!(code(&import("foo", 1, ImportFunctionKind::Method), ""), "(obj, a0) => obj[\"foo\"](a0)");
}

#[test]
fn accessors_read_and_write_the_property() {
    let get = import("ignored", 0, ImportFunctionKind::Getter { property: "x".to_string() });
    let set = import("ignored", 1, ImportFunctionKind::Setter { property: "x".to_string() });
    assert_eq!(code(&get, ""), "(obj) => obj[\"x\"]");
    assert_eq!(code(&set, ""), "(obj, value) => obj[\"x\"] = value");
}

#[test]
fn indexing_uses_brackets() {
    assert_eq!(code(&import("i", 1, ImportFunctionKind::IndexingGetter), ""), "(obj, index) => obj[index]");
    assert_eq!(
        code(&import("i", 2, ImportFunctionKind::IndexingSetter), ""),
        "(obj, index, value) => obj[index] = value"
    );
    assert_eq!(code(&import("i", 1, ImportFunctionKind::IndexingDeleter), ""), "(obj, index) => delete obj[index]");
}

#[test]
fn constructors_use_new() {
    let c = import("Foo", 1, ImportFunctionKind::Constructor { class: "Foo".to_string() });
    assert_eq!(code(&c, ""), "(a0) => new Foo(a0)");
    assert_eq!(code(&c, "window."), "(a0) => new window.Foo(a0)");
}

#[test]
fn vendor_prefixed_constructors_fall_back() {
    let c = import("AudioContext", 0, ImportFunctionKind::Constructor { class: "AudioContext".to_string() });
    let vendor = vec![("AudioContext".to_string(), vec!["webkit".to_string()])];
    assert_eq!(
        generate_js_code(&c, &vendor, "", false),
        "() => new ((typeof AudioContext !== 'undefined' ? AudioContext : (typeof webkitAudioContext !== 'undefined' ? webkitAudioContext : undefined)))()"
    );
    let empty = vec![("AudioContext".to_string(), vec![])];
    assert_eq!(generate_js_code(&c, &empty, "", false), "() => new AudioContext()");
    let other = vec![("Other".to_string(), vec!["webkit".to_string()])];
    assert_eq!(generate_js_code(&c, &other, "", false), "() => new AudioContext()");
}

#[test]
fn vendor_constructor_chains_every_prefix() {
    let prefixes = vec!["a".to_string(), "b".to_string()];
    assert_eq!(
        generate_vendor_prefixed_constructor("X", &prefixes, "p."),
        "(typeof p.X !== 'undefined' ? p.X : (typeof p.aX !== 'undefined' ? p.aX : (typeof p.bX !== 'undefined' ? p.bX : undefined))"
    );
}

#[test]
fn static_methods_go_through_the_class() {
    let m = import("max", 2, ImportFunctionKind::StaticMethod { class: "Math".to_string() });
    assert_eq!(code(&m, ""), "(a0, a1) => Math[\"max\"](a0, a1)");
}

#[test]
fn catching_imports_wrap_their_body_unless_skipped() {
    let mut f = import("f", 0, ImportFunctionKind::Normal);
    f.catch = true;
    assert_eq!(
        generate_js_code(&f, &[], "", false),
        "() => {{ try {{ return {{ ok: f() }}; }} catch(e) {{ return {{ err: e }}; }} }}"
    );
    assert_eq!(generate_js_code(&f, &[], "", true), "() => f()");
    assert_eq!(
        wrap_body_with_try_catch("x"),
        "{{ try {{ return {{ ok: x }}; }} catch(e) {{ return {{ err: e }}; }} }}"
    );
}

#[test]
fn promise_callbacks_extend_the_parameters() {
    assert_eq!(params_with_promise_callbacks("()"), "(__wryResolve, __wryReject)");
    assert_eq!(params_with_promise_callbacks("(a0)"), "(a0, __wryResolve, __wryReject)");
}

#[test]
fn async_glue_settles_through_the_callbacks() {
    assert_eq!(
        async_promise_attach_js_code("(a0) => f(a0)"),
        "(a0, __wryResolve, __wryReject) => {{ try {{ Promise.resolve(f(a0)).then(__wryResolve, __wryReject); }} catch (e) {{ __wryReject(e); }} }}"
    );
    assert_eq!(
        async_promise_attach_js_code("() => g(x => x)"),
        "(__wryResolve, __wryReject) => {{ try {{ Promise.resolve(g(x => x)).then(__wryResolve, __wryReject); }} catch (e) {{ __wryReject(e); }} }}"
    );
}

#[test]
fn static_glue_reads_through_the_prefix() {
    let doc = ImportStatic { js_name: "document".to_string(), js_namespace: None };
    assert_eq!(generate_static_js_code(&doc, "window."), "() => window.document");
    let nested = ImportStatic { js_name: "x".to_string(), js_namespace: Some(vec!["a".to_string()]) };
    assert_eq!(generate_static_js_code(&nested, ""), "() => a.x");
}

#[test]
fn generated_glue_converts_to_async_glue() {
    let f = import("fetch", 1, ImportFunctionKind::Normal);
    let glue = generate_js_code(&f, &[], "", true);
    assert_eq!(
        async_promise_attach_js_code(&glue),
        "(a0, __wryResolve, __wryReject) => {{ try {{ Promise.resolve(fetch(a0)).then(__wryResolve, __wryReject); }} catch (e) {{ __wryReject(e); }} }}"
    );
}
