//! The decisions of the Thrift code generator: which namespace declaration
//! names the Rust module, what to do with the next item of a document, where
//! the templates are, and how a service argument is deserialized.
use vstd::prelude::*;

verus! {

/// A `namespace <lang> <module>` declaration of a Thrift document.
pub struct Namespace {
    pub lang: String,
    pub module: String,
}

/// Whether the declaration is the one for Rust.
pub open spec fn is_rust(ns: Namespace) -> bool {
    ns.lang@ == "rust"@
}

/// The outcome that ends the search through the namespace declarations
/// `parsed`, in the order the parser yields them: the first failure, or the
/// first declaration for Rust. `None` when neither occurs, so that the parser
/// has to be asked for more.
pub open spec fn rust_namespace_in<E>(parsed: Seq<Result<Namespace, E>>) -> Option<
    Result<Namespace, E>,
>
    decreases parsed.len(),
{
    if parsed.len() == 0 {
        None
    } else {
        match parsed[0] {
            Err(e) => Some(Err(e)),
            Ok(ns) => if is_rust(ns) {
                Some(Ok(ns))
            } else {
                rust_namespace_in(parsed.drop_first())
            },
        }
    }
}

/// Goes through the namespace declarations in the order the parser yielded
/// them and stops at the first failure or at the first declaration for Rust.
pub fn find_rust_namespace<E>(parsed: Vec<Result<Namespace, E>>) -> (r: Option<
    Result<Namespace, E>,
>)
    ensures
        r == rust_namespace_in(parsed@),
{
    let mut rest = parsed;
    let rust = String::from_str("rust");
    while rest.len() > 0
        invariant
            rust_namespace_in(parsed@) == rust_namespace_in(rest@),
            rust@ == "rust"@,
        decreases rest.len(),
    {
        let ghost before = rest@;
        let item = rest.remove(0);
        assert(rest@ =~= before.drop_first());
        match item {
            Err(e) => {
                return Some(Err(e));
            },
            Ok(ns) => {
                if ns.lang == rust {
                    return Some(Ok(ns));
                }
            },
        }
    }
    None
}

/// The search looks at the declarations in order: a first failure, or a first
/// declaration whose language is `rust`, settles it whatever follows; any other
/// first declaration is passed over; and nothing settles an empty list.
pub proof fn lemma_rust_namespace_search<E>(first: Result<Namespace, E>, rest: Seq<
    Result<Namespace, E>,
>)
    ensures
        rust_namespace_in(Seq::<Result<Namespace, E>>::empty()) is None,
        first matches Err(e) ==> rust_namespace_in(seq![first] + rest) == Some(
            Err::<Namespace, E>(e),
        ),
        first matches Ok(ns) ==> (ns.lang@ == "rust"@ ==> rust_namespace_in(seq![first] + rest)
            == Some(Ok::<Namespace, E>(ns))),
        first matches Ok(ns) ==> (ns.lang@ != "rust"@ ==> rust_namespace_in(seq![first] + rest)
            == rust_namespace_in(rest)),
{
    let s = seq![first] + rest;
    assert(s[0] == first);
    assert(s.drop_first() =~= rest);
}

/// The search's result is one of the declarations given, and no declaration
/// before it fails or is for Rust.
pub proof fn lemma_rust_namespace_found_is_first<E>(parsed: Seq<Result<Namespace, E>>)
    ensures
        rust_namespace_in(parsed) matches Some(r) ==> exists|i: int|
            0 <= i < parsed.len() && parsed[i] == r && (r is Err || r->Ok_0.lang@ == "rust"@)
                && forall|j: int| 0 <= j < i ==> (#[trigger] parsed[j] matches Ok(ns)
                    && ns.lang@ != "rust"@),
        rust_namespace_in(parsed) is None ==> forall|j: int|
            0 <= j < parsed.len() ==> (#[trigger] parsed[j] matches Ok(ns) && ns.lang@
                != "rust"@),
    decreases parsed.len(),
{
    if parsed.len() > 0 {
        let rest = parsed.drop_first();
        lemma_rust_namespace_found_is_first(rest);
        match parsed[0] {
            Err(e) => {
                assert(parsed[0] == rust_namespace_in(parsed)->Some_0);
            },
            Ok(ns) => {
                if ns.lang@ == "rust"@ {
                    assert(parsed[0] == rust_namespace_in(parsed)->Some_0);
                } else {
                    if rust_namespace_in(parsed) is Some {
                        let r = rust_namespace_in(parsed)->Some_0;
                        let i = choose|i: int|
                            0 <= i < rest.len() && rest[i] == r && (r is Err || r->Ok_0.lang@
                                == "rust"@) && forall|j: int|
                                0 <= j < i ==> (#[trigger] rest[j] matches Ok(ns)
                                    && ns.lang@ != "rust"@);
                        assert(parsed[i + 1] == r);
                        assert forall|j: int| 0 <= j < i + 1 implies (#[trigger] parsed[j] matches Ok(
                            ns,
                        ) && ns.lang@ != "rust"@) by {
                            if j > 0 {
                                assert(parsed[j] == rest[j - 1]);
                            }
                        }
                    } else {
                        assert forall|j: int| 0 <= j < parsed.len() implies (
                        #[trigger] parsed[j] matches Ok(ns) && ns.lang@ != "rust"@) by {
                            if j > 0 {
                                assert(parsed[j] == rest[j - 1]);
                            }
                        }
                    }
                }
            },
        }
    }
}

/// Which item keyword the parser sees ahead.
#[derive(Debug, PartialEq, Eq, Structural, Clone, Copy)]
pub struct Lookahead {
    pub enum_next: bool,
    pub struct_next: bool,
    pub service_next: bool,
}

/// What the generator does with the next item of a document.
#[derive(Debug, PartialEq, Eq, Structural, Clone, Copy)]
pub enum CompileStep {
    /// Parse the enum and go on.
    SkipEnum,
    /// Parse the struct and go on.
    SkipStruct,
    /// Parse the service, render the service template for it and go on.
    RenderService,
    /// Nothing more to generate.
    Finish,
}

/// The generator checks for an enum, then a struct, then a service, and stops
/// at anything else.
pub open spec fn compile_step_for(next: Lookahead) -> CompileStep {
    if next.enum_next {
        CompileStep::SkipEnum
    } else if next.struct_next {
        CompileStep::SkipStruct
    } else if next.service_next {
        CompileStep::RenderService
    } else {
        CompileStep::Finish
    }
}

/// An enum ahead is skipped; a struct ahead is skipped; a service ahead (with
/// no enum or struct) is rendered; and the generator stops exactly when no
/// item keyword is ahead.
pub proof fn lemma_compile_step_items(next: Lookahead)
    ensures
        next.enum_next ==> compile_step_for(next) == CompileStep::SkipEnum,
        !next.enum_next && next.struct_next ==> compile_step_for(next) == CompileStep::SkipStruct,
        !next.enum_next && !next.struct_next && next.service_next ==> compile_step_for(next)
            == CompileStep::RenderService,
        (compile_step_for(next) == CompileStep::Finish) <==> (!next.enum_next && !next.struct_next
            && !next.service_next),
{
}

/// One step of the generator's loop over the items of a document.
pub fn compile_step(next: Lookahead) -> (step: CompileStep)
    ensures
        step == compile_step_for(next),
{
    if next.enum_next {
        CompileStep::SkipEnum
    } else if next.struct_next {
        CompileStep::SkipStruct
    } else if next.service_next {
        CompileStep::RenderService
    } else {
        CompileStep::Finish
    }
}

/// The templates the generator registers, in order.
pub fn template_names() -> (names: Vec<&'static str>)
    ensures
        names@.len() == 3,
        names@[0]@ == "base"@,
        names@[1]@ == "service"@,
        names@[2]@ == "method"@,
{
    let mut names = Vec::new();
    names.push("base");
    names.push("service");
    names.push("method");
    names
}

/// The file a template is read from.
pub fn template_path(name: &str) -> (path: String)
    ensures
        path@ == "thrust-codegen/src/"@ + name@ + ".hbs"@,
{
    let mut path = String::from_str("thrust-codegen/src/");
    path.append(name);
    path.append(".hbs");
    path
}

/// The argument types whose deserialization the generator knows.
#[derive(Debug, PartialEq, Eq, Structural, Clone, Copy)]
pub enum ArgType {
    String,
    I32,
    I16,
    I64,
    /// Any other type: the generator has no deserializer call for it.
    Unsupported,
}

/// The expression that deserializes an argument of type `ty`.
pub open spec fn deserialize_expr_for(ty: ArgType) -> Seq<char> {
    match ty {
        ArgType::String => "de.deserialize_str()"@,
        ArgType::I32 => "de.deserialize_i32()"@,
        ArgType::I16 => "de.deserialize_i16()"@,
        ArgType::I64 => "de.deserialize_i64()"@,
        ArgType::Unsupported => Seq::empty(),
    }
}

/// Each supported type is read with the deserializer call of its own name.
pub proof fn lemma_deserialize_exprs()
    ensures
        deserialize_expr_for(ArgType::String) == "de.deserialize_str()"@,
        deserialize_expr_for(ArgType::I32) == "de.deserialize_i32()"@,
        deserialize_expr_for(ArgType::I16) == "de.deserialize_i16()"@,
        deserialize_expr_for(ArgType::I64) == "de.deserialize_i64()"@,
{
}

/// The expression that deserializes an argument of type `ty`; there is none
/// for an unsupported type.
pub fn deserialize_expr(ty: ArgType) -> (expr: &'static str)
    requires
        ty != ArgType::Unsupported,
    ensures
        expr@ == deserialize_expr_for(ty),
{
    match ty {
        ArgType::String => "de.deserialize_str()",
        ArgType::I32 => "de.deserialize_i32()",
        ArgType::I16 => "de.deserialize_i16()",
        ArgType::I64 => "de.deserialize_i64()",
        ArgType::Unsupported => "",
    }
}

} // verus!
