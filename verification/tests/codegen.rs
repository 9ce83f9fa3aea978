use thrust::codegen::compile_step;
use thrust::codegen::deserialize_expr;
use thrust::codegen::find_rust_namespace;
use thrust::codegen::template_names;
use thrust::codegen::template_path;
use thrust::codegen::ArgType;
use thrust::codegen::CompileStep;
use thrust::codegen::Lookahead;
use thrust::codegen::Namespace;

fn ns(lang: &str, module: &str) -> Namespace {
    Namespace { lang: lang.to_string(), module: module.to_string() }
}

#[test]
fn rust_namespace_is_found_after_others() {
    let parsed: Vec<Result<Namespace, &str>> = vec![Ok(ns("go", "a")), Ok(ns("rust", "b")), Ok(ns("rust", "c"))];
    match find_rust_namespace(parsed) {
        Some(Ok(found)) => {
            assert_eq!(found.lang, "rust");
            assert_eq!(found.module, "b");
        },
        _ => panic!("expected the rust namespace"),
    }
}

#[test]
fn parse_error_stops_the_search() {
    let parsed: Vec<Result<Namespace, &str>> = vec![Ok(ns("cpp", "a")), Err("eof"), Ok(ns("rust", "b"))];
    match find_rust_namespace(parsed) {
        Some(Err(e)) => assert_eq!(e, "eof"),
        _ => panic!("expected the parse error"),
    }
}

#[test]
fn no_rust_namespace_asks_for_more() {
    let parsed: Vec<Result<Namespace, &str>> = vec![Ok(ns("java", "a")), Ok(ns("Rust", "b"))];
    assert!(find_rust_namespace(parsed).is_none());
    let empty: Vec<Result<Namespace, &str>> = Vec::new();
    assert!(find_rust_namespace(empty).is_none());
}

#[test]
fn compile_steps_in_priority_order() {
    let l = |e, s, v| Lookahead { enum_next: e, struct_next: s, service_next: v };
    assert_eq!(compile_step(l(true, true, true)), CompileStep::SkipEnum);
    assert_eq!(compile_step(l(false, true, true)), CompileStep::SkipStruct);
    assert_eq!(compile_step(l(false, false, true)), CompileStep::RenderService);
    assert_eq!(compile_step(l(false, false, false)), CompileStep::Finish);
}

#[test]
fn templates_and_their_files() {
    assert_eq!(template_names(), vec!["base", "service", "method"]);
    assert_eq!(template_path("base"), "thrust-codegen/src/base.hbs");
    assert_eq!(template_path("service"), "thrust-codegen/src/service.hbs");
}

#[test]
fn deserializer_expressions() {
    assert_eq!(deserialize_expr(ArgType::String), "de.deserialize_str()");
    assert_eq!(deserialize_expr(ArgType::I32), "de.deserialize_i32()");
    assert_eq!(deserialize_expr(ArgType::I16), "de.deserialize_i16()");
    assert_eq!(deserialize_expr(ArgType::I64), "de.deserialize_i64()");
}
