use sonde::ast::{Probe, Provider, Script};
use sonde::emit::{
    argument_names_text, binding_function_text, collision, declaration_text, emit, emit_provider,
    find_repeated, generate, macro_text, module_text, native_function_text, symbol_text,
    Artifacts, EmitError, NameCollision,
};
use sonde::parser::probe;
use sonde::parser::{parse, Expected, ParseError};
use sonde::types::UnsupportedTypeError;

fn probe_of(name: &str, arguments: &[&str]) -> Probe {
    Probe {
        name: name.to_string(),
        arguments: arguments.iter().map(|a| a.to_string()).collect(),
    }
}

fn unsupported(spelling: &str) -> UnsupportedTypeError {
    UnsupportedTypeError {
        spelling: spelling.to_string(),
    }
}

#[test]
fn native_parameters_of_a_probe() {
    assert_eq!(probe_of("p", &[]).arguments_for_c(), "");
    assert_eq!(probe_of("p", &["int"]).arguments_for_c(), "int arg0");
    assert_eq!(
        probe_of("p", &["char *", "int", "string"]).arguments_for_c(),
        "char * arg0, int arg1, string arg2"
    );
    let many: Vec<&str> = vec!["int"; 11];
    assert!(probe_of("p", &many).arguments_for_c().ends_with("int arg9, int arg10"));
}

#[test]
fn binding_parameters_of_a_probe() {
    assert_eq!(probe_of("p", &[]).arguments_for_c_from_rust(), Ok("".to_string()));
    assert_eq!(
        probe_of("p", &["char *", "int"]).arguments_for_c_from_rust(),
        Ok("arg0: *mut c_char, arg1: c_int".to_string())
    );
    assert_eq!(
        probe_of("p", &["char**", "uint8_t", "long long"]).arguments_for_c_from_rust(),
        Ok("arg0: *mut *mut c_char, arg1: u8, arg2: c_longlong".to_string())
    );
}

#[test]
fn first_unsupported_argument_is_the_error() {
    assert_eq!(
        probe_of("p", &["string"]).arguments_for_c_from_rust(),
        Err(unsupported("string"))
    );
    assert_eq!(
        probe_of("p", &["int", "foo *", "bar"]).arguments_for_c_from_rust(),
        Err(unsupported("foo *"))
    );
}

#[test]
fn argument_names_in_order() {
    assert_eq!(argument_names_text(0), "");
    assert_eq!(argument_names_text(1), "arg0");
    assert_eq!(argument_names_text(3), "arg0, arg1, arg2");
    assert!(argument_names_text(12).ends_with("arg9, arg10, arg11"));
}

#[test]
fn sources_of_two_providers() {
    let script = parse(
        "provider hello { probe world(); probe you(char *, int); };\nprovider foo__Bar { probe my__Probe(uint32_t **); };",
    )
    .unwrap();
    let artifacts = emit(&script, "\"/tmp/sonde.h\"").unwrap();
    let native = "#include \"/tmp/sonde.h\"\n\n\
\nvoid hello_probe_world() {\n    HELLO_WORLD();\n}\n\
\nvoid hello_probe_you(char * arg0, int arg1) {\n    HELLO_YOU(arg0, arg1);\n}\n\
\n\
\nvoid foo_bar_probe_my_probe(uint32_t ** arg0) {\n    FOO_BAR_MY_PROBE(arg0);\n}\n";
    assert_eq!(artifacts.native, native);
    let binding = "/// Bindings from Rust to the C FFI small library that calls the\n\
/// probes.\n\
\n\
use std::os::raw::*;\n\
\n\
extern \"C\" {\n    #[doc(hidden)]\n    fn hello_probe_world();\n\
\n    #[doc(hidden)]\n    fn hello_probe_you(arg0: *mut c_char, arg1: c_int);\n\
\n    #[doc(hidden)]\n    fn foo_bar_probe_my_probe(arg0: *mut *mut u32);\n\
}\n\
\n\
/// Probes for the `hello` provider.\n\
pub mod r#hello {\n    use std::os::raw::*;\n\
\n    /// Call the `world` probe of the `hello` provider.\n    pub fn r#world() {\n        unsafe { super::hello_probe_world() };\n    }\n\
\n    /// Call the `you` probe of the `hello` provider.\n    pub fn r#you(arg0: *mut c_char, arg1: c_int) {\n        unsafe { super::hello_probe_you(arg0, arg1) };\n    }\n\
}\n\
\n\
/// Probes for the `foo_bar` provider.\n\
pub mod r#foo_bar {\n    use std::os::raw::*;\n\
\n    /// Call the `my_probe` probe of the `foo_bar` provider.\n    pub fn r#my_probe(arg0: *mut *mut u32) {\n        unsafe { super::foo_bar_probe_my_probe(arg0) };\n    }\n\
}\n";
    assert_eq!(artifacts.binding, binding);
}

#[test]
fn sources_of_an_empty_script() {
    let artifacts = emit(&Script { providers: vec![] }, "<h>").unwrap();
    assert_eq!(artifacts.native, "#include <h>\n\n");
    assert_eq!(
        artifacts.binding,
        "/// Bindings from Rust to the C FFI small library that calls the\n/// probes.\n\nuse std::os::raw::*;\n\nextern \"C\" {\n\n}\n\n\n"
    );
}

#[test]
fn parts_of_a_provider_without_probes() {
    let parts = emit_provider(&Provider {
        name: "Empty".to_string(),
        probes: vec![],
    })
    .unwrap();
    assert_eq!(parts.native, "");
    assert_eq!(parts.declarations, "");
    assert_eq!(
        parts.module,
        "/// Probes for the `empty` provider.\npub mod r#empty {\n    use std::os::raw::*;\n\n\n}"
    );
}

#[test]
fn names_of_a_probe_with_doubled_separator() {
    let provider = Provider {
        name: "prov".to_string(),
        probes: vec![probe_of("my__probe", &[])],
    };
    let parts = emit_provider(&provider).unwrap();
    assert_eq!(
        parts.native,
        "\nvoid prov_probe_my_probe() {\n    PROV_MY_PROBE();\n}\n"
    );
    assert_eq!(
        parts.declarations,
        "    #[doc(hidden)]\n    fn prov_probe_my_probe();"
    );
    assert!(parts.module.contains("    pub fn r#my_probe() {\n        unsafe { super::prov_probe_my_probe() };\n    }"));
}

#[test]
fn unsupported_type_gives_no_sources() {
    let script = parse("provider foobar { probe abc(char*, int); probe def(string); };").unwrap();
    assert_eq!(
        script.providers[0].probes[0].arguments_for_c_from_rust(),
        Ok("arg0: *mut c_char, arg1: c_int".to_string())
    );
    assert_eq!(
        script.providers[0].probes[1].arguments_for_c_from_rust(),
        Err(unsupported("string"))
    );
    assert_eq!(
        emit(&script, "\"h\""),
        Err(EmitError::UnsupportedType(unsupported("string")))
    );
    assert_eq!(
        emit_provider(&script.providers[0]).err(),
        Some(unsupported("string"))
    );
}

#[test]
fn first_unsupported_type_in_declaration_order() {
    let script = parse(
        "provider a { probe x(int); probe y(int, first *, second); };\nprovider b { probe z(third); };",
    )
    .unwrap();
    assert_eq!(
        emit(&script, "\"h\""),
        Err(EmitError::UnsupportedType(unsupported("first *")))
    );
}

#[test]
fn providers_and_probes_are_emitted_in_order() {
    let text = "provider foobar { probe abc(char*, int); probe def(int); }; provider hopla { probe xyz(); };";
    let artifacts = generate(text, "\"h\"").unwrap();
    for source in [&artifacts.native, &artifacts.binding] {
        let abc = source.find("foobar_probe_abc").unwrap();
        let def = source.find("foobar_probe_def").unwrap();
        let xyz = source.find("hopla_probe_xyz").unwrap();
        assert!(abc < def);
        assert!(def < xyz);
        assert!(source.rfind("foobar_probe_def").unwrap() < source.rfind("hopla_probe_xyz").unwrap());
    }
    let foobar = artifacts.binding.find("pub mod r#foobar").unwrap();
    let hopla = artifacts.binding.find("pub mod r#hopla").unwrap();
    assert!(foobar < hopla);
}

#[test]
fn every_function_has_as_many_parameters_as_the_probe() {
    let artifacts = generate("provider p { probe none(); probe three(int, char *, double); };", "\"h\"").unwrap();
    assert!(artifacts.native.contains("void p_probe_none() {\n    P_NONE();\n}"));
    assert!(artifacts
        .native
        .contains("void p_probe_three(int arg0, char * arg1, double arg2) {\n    P_THREE(arg0, arg1, arg2);\n}"));
    assert!(artifacts.binding.contains("    fn p_probe_none();"));
    assert!(artifacts
        .binding
        .contains("    fn p_probe_three(arg0: c_int, arg1: *mut c_char, arg2: c_double);"));
    assert!(artifacts.binding.contains("pub fn r#none() {\n        unsafe { super::p_probe_none() };"));
    assert!(artifacts.binding.contains(
        "pub fn r#three(arg0: c_int, arg1: *mut c_char, arg2: c_double) {\n        unsafe { super::p_probe_three(arg0, arg1, arg2) };"
    ));
}

#[test]
fn same_text_gives_same_sources() {
    let text = "provider foobar { probe abc(char*, int); };\nprovider hopla { probe xyz(); };";
    let first: Artifacts = generate(text, "\"h\"").unwrap();
    let second: Artifacts = generate(text, "\"h\"").unwrap();
    assert_eq!(first, second);
    assert_eq!(first.native.as_bytes(), second.native.as_bytes());
    assert_eq!(first.binding.as_bytes(), second.binding.as_bytes());
}

#[test]
fn generate_reports_both_errors() {
    assert_eq!(
        generate("provider p { probe q(int) };", "\"h\""),
        Err(EmitError::Parse(ParseError {
            expected: Expected::CloseBrace,
            position: 13,
            fragment: "probe q(int) };".to_string(),
        }))
    );
    assert_eq!(
        generate("provider p { probe q(string); };", "\"h\""),
        Err(EmitError::UnsupportedType(unsupported("string")))
    );
}

fn collides(name: &str) -> EmitError {
    EmitError::Collision(NameCollision {
        name: name.to_string(),
    })
}

#[test]
fn first_repeated_string() {
    let names: Vec<String> = ["a", "b", "c", "b", "a"].iter().map(|n| n.to_string()).collect();
    assert_eq!(find_repeated(&names), Some("b".to_string()));
    let names: Vec<String> = ["a", "b", "c"].iter().map(|n| n.to_string()).collect();
    assert_eq!(find_repeated(&names), None);
    assert_eq!(find_repeated(&vec![]), None);
    let names: Vec<String> = ["x", "x"].iter().map(|n| n.to_string()).collect();
    assert_eq!(find_repeated(&names), Some("x".to_string()));
}

#[test]
fn probes_that_share_a_symbol_collide() {
    assert_eq!(
        generate("provider p { probe my_probe(); probe my__probe(int); };", "\"h\""),
        Err(collides("p_probe_my_probe"))
    );
    assert_eq!(
        generate("provider p { probe abc(); probe ABC(); };", "\"h\""),
        Err(collides("p_probe_abc"))
    );
    assert_eq!(
        generate(
            "provider a_probe_b { probe c(); }; provider a { probe x(); probe b_probe_c(); };",
            "\"h\""
        ),
        Err(collides("a_probe_b_probe_c"))
    );
}

#[test]
fn providers_that_share_a_module_collide() {
    assert_eq!(
        generate("provider foo { probe a(); }; provider FOO { probe b(); };", "\"h\""),
        Err(collides("foo"))
    );
    assert_eq!(
        generate("provider a__b { }; provider c { }; provider a_b { };", "\"h\""),
        Err(collides("a_b"))
    );
}

#[test]
fn unsupported_type_comes_before_collision() {
    assert_eq!(
        generate("provider p { probe a(string); probe a(); };", "\"h\""),
        Err(EmitError::UnsupportedType(unsupported("string")))
    );
    assert_eq!(
        generate("provider p { probe a(); probe a(int, foo *); };", "\"h\""),
        Err(EmitError::UnsupportedType(unsupported("foo *")))
    );
    assert_eq!(
        generate("provider p { probe a(); }; provider P { probe b(bar); };", "\"h\""),
        Err(EmitError::UnsupportedType(unsupported("bar")))
    );
    assert_eq!(
        generate("provider p { probe a(int); probe a(); };", "\"h\""),
        Err(collides("p_probe_a"))
    );
}

#[test]
fn blanks_before_a_pointer_marker_are_stripped() {
    let parsed = probe("probe abc(char\t*);").unwrap().1;
    assert_eq!(parsed.arguments, vec!["char\t*"]);
    assert_eq!(
        parsed.arguments_for_c_from_rust(),
        Ok("arg0: *mut c_char".to_string())
    );
    assert_eq!(
        probe_of("p", &["char\t*", "unknown"]).arguments_for_c_from_rust(),
        Err(unsupported("unknown"))
    );
    assert_eq!(
        probe_of("p", &["int\n*\r*", "long long \t"]).arguments_for_c_from_rust(),
        Ok("arg0: *mut *mut c_int, arg1: c_longlong".to_string())
    );
}

#[test]
fn texts_from_given_names() {
    assert_eq!(symbol_text("foo_bar", "my_probe"), "foo_bar_probe_my_probe");
    assert_eq!(symbol_text("", ""), "_probe_");
    assert_eq!(macro_text("FOO_BAR", "MY_PROBE"), "FOO_BAR_MY_PROBE");
    assert_eq!(
        native_function_text("foo_bar", "my_probe", "FOO_BAR", "MY_PROBE", "", ""),
        "\nvoid foo_bar_probe_my_probe() {\n    FOO_BAR_MY_PROBE();\n}\n"
    );
    assert_eq!(
        native_function_text("a", "b", "C", "D", "char * arg0, int arg1", "arg0, arg1"),
        "\nvoid a_probe_b(char * arg0, int arg1) {\n    C_D(arg0, arg1);\n}\n"
    );
    assert_eq!(
        declaration_text("foo_bar", "my_probe", "arg0: c_int"),
        "    #[doc(hidden)]\n    fn foo_bar_probe_my_probe(arg0: c_int);"
    );
    assert_eq!(
        binding_function_text("mod_name", "fn_name", "foo_bar", "my_probe", "arg0: c_int", "arg0"),
        "    /// Call the `fn_name` probe of the `mod_name` provider.\n    pub fn r#fn_name(arg0: c_int) {\n        unsafe { super::foo_bar_probe_my_probe(arg0) };\n    }"
    );
    assert_eq!(
        module_text("foo_bar", "BODY"),
        "/// Probes for the `foo_bar` provider.\npub mod r#foo_bar {\n    use std::os::raw::*;\n\nBODY\n}"
    );
}

#[test]
fn sources_use_the_derived_names() {
    let artifacts = generate("provider Foo__Bar { probe my__probe(); };", "\"h\"").unwrap();
    assert!(artifacts
        .native
        .contains("\nvoid foo_bar_probe_my_probe() {\n    FOO_BAR_MY_PROBE();\n}\n"));
    assert!(artifacts
        .binding
        .contains("extern \"C\" {\n    #[doc(hidden)]\n    fn foo_bar_probe_my_probe();\n}"));
    assert!(artifacts.binding.contains(
        "pub mod r#foo_bar {\n    use std::os::raw::*;\n\n    /// Call the `my_probe` probe of the `foo_bar` provider.\n    pub fn r#my_probe() {\n        unsafe { super::foo_bar_probe_my_probe() };\n    }\n}"
    ));
    let artifacts = generate("provider p { probe a___b(); };", "\"h\"").unwrap();
    assert!(artifacts.native.contains("void p_probe_a_b() {\n    P_A_B();"));
}

#[test]
fn one_text_ends_before_the_next_begins() {
    let text = "provider foobar { probe abc(); }; provider hopla { probe xyz(); };";
    let artifacts = generate(text, "\"h\"").unwrap();
    let first = "\nvoid foobar_probe_abc() {\n    FOOBAR_ABC();\n}\n";
    let second = "\nvoid hopla_probe_xyz() {\n    HOPLA_XYZ();\n}\n";
    let at = artifacts.native.find(first).unwrap();
    assert!(at + first.len() <= artifacts.native.find(second).unwrap());
    let first = "    fn foobar_probe_abc();";
    let second = "    fn hopla_probe_xyz();";
    let at = artifacts.binding.find(first).unwrap();
    assert!(at + first.len() <= artifacts.binding.find(second).unwrap());
    let close = artifacts.binding.find("foobar_probe_abc() };\n    }\n}").unwrap();
    assert!(close < artifacts.binding.find("pub mod r#hopla").unwrap());
}

#[test]
fn distinct_names_do_not_collide() {
    let script = parse("provider a { probe x(); probe y(); }; provider b { probe x(); };").unwrap();
    assert_eq!(collision(&script), None);
    assert!(emit(&script, "\"h\"").is_ok());
}
